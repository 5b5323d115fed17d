use winnow::ascii::digit1;
use winnow::basic::{eof, fail, map_res, not, opt, peek, rest, rest_len};
use winnow::branch::{alt, permutation};
use winnow::error::{ErrMode, Error, ErrorKind, Needed, ParseError};
use winnow::input::Streaming;
use winnow::number::u8;
use winnow::parser::{IResult, Parser};
use winnow::sequence::{delimited, preceded, separated_pair, terminated};
use winnow::token::take;

#[test]
fn eof_on_slices() {
    let not_over: &[u8] = &b"Hello, world!"[..];
    let is_over: &[u8] = &b""[..];

    let res_not_over: IResult<&[u8], &[u8]> = eof(not_over);
    assert_eq!(
        res_not_over,
        Err(ErrMode::Backtrack(Error::new(not_over, ErrorKind::Eof)))
    );

    let res_over: IResult<&[u8], &[u8]> = eof(is_over);
    assert_eq!(res_over, Ok((is_over, is_over)));
}

#[test]
fn eof_on_strs() {
    let not_over: &str = "Hello, world!";
    let is_over: &str = "";

    let res_not_over: IResult<&str, &str> = eof(not_over);
    assert_eq!(
        res_not_over,
        Err(ErrMode::Backtrack(Error::new(not_over, ErrorKind::Eof)))
    );

    let res_over: IResult<&str, &str> = eof(is_over);
    assert_eq!(res_over, Ok((is_over, is_over)));
}

#[test]
fn tests_rest_on_slices() {
    let input: &[u8] = &b"Hello, world!"[..];
    let empty: &[u8] = &b""[..];
    let res: IResult<&[u8], &[u8]> = rest(input);
    assert_eq!(res, Ok((empty, input)));
}

#[test]
fn tests_rest_on_strs() {
    let input: &str = "Hello, world!";
    let empty: &str = "";
    let res: IResult<&str, &str> = rest(input);
    assert_eq!(res, Ok((empty, input)));
}

#[test]
fn tests_rest_len_on_slices() {
    let input: &[u8] = &b"Hello, world!"[..];
    let res: IResult<&[u8], usize> = rest_len(input);
    assert_eq!(res, Ok((input, input.len())));
}

#[test]
fn test_parser_flat_map() {
    let input: &[u8] = &[3, 100, 101, 102, 103, 104][..];
    let res: IResult<&[u8], &[u8]> = u8.flat_map(take).parse_next(input);
    assert_eq!(res, Ok((&[103, 104][..], &[100, 101, 102][..])));
}

#[test]
fn test_parser_verify_map() {
    let input: &[u8] = &[50][..];
    let res: IResult<&[u8], u8> = u8
        .verify_map(|u| if u < 20 { Some(u) } else { None })
        .parse_next(input);
    assert_eq!(
        res,
        Err(ErrMode::Backtrack(Error {
            input: &[50][..],
            kind: ErrorKind::Verify
        }))
    );
    let res: IResult<&[u8], u8> = u8
        .verify_map(|u| if u > 20 { Some(u) } else { None })
        .parse_next(input);
    assert_eq!(res, Ok((&[][..], 50)));
}

#[test]
fn test_parser_map_parser() {
    let input: &[u8] = &[100, 101, 102, 103, 104][..];
    let res: IResult<&[u8], &[u8]> = take(4usize).and_then(take(2usize)).parse_next(input);
    assert_eq!(res, Ok((&[104][..], &[100, 101][..])));
}

#[test]
fn test_parser_into() {
    let mut parser = take(3u8).output_into();
    let result: IResult<&[u8], Vec<u8>> = parser.parse_next(&b"abcdefg"[..]);

    assert_eq!(result, Ok((&b"defg"[..], vec![97, 98, 99])));
}

#[test]
fn opt_test() {
    fn opt_abcd(i: Streaming<&[u8]>) -> IResult<Streaming<&[u8]>, Option<&[u8]>> {
        opt("abcd").parse_next(i)
    }

    let a = &b"abcdef"[..];
    let b = &b"bcdefg"[..];
    let c = &b"ab"[..];
    assert_eq!(
        opt_abcd(Streaming(a)),
        Ok((Streaming(&b"ef"[..]), Some(&b"abcd"[..])))
    );
    assert_eq!(opt_abcd(Streaming(b)), Ok((Streaming(&b"bcdefg"[..]), None)));
    assert_eq!(opt_abcd(Streaming(c)), Err(ErrMode::Incomplete(Needed::new(2))));
}

#[test]
fn peek_test() {
    fn peek_tag(i: Streaming<&[u8]>) -> IResult<Streaming<&[u8]>, &[u8]> {
        peek("abcd").parse_next(i)
    }

    assert_eq!(
        peek_tag(Streaming(&b"abcdef"[..])),
        Ok((Streaming(&b"abcdef"[..]), &b"abcd"[..]))
    );
    assert_eq!(
        peek_tag(Streaming(&b"ab"[..])),
        Err(ErrMode::Incomplete(Needed::new(2)))
    );
    assert_eq!(
        peek_tag(Streaming(&b"xxx"[..])),
        Err(ErrMode::Backtrack(Error::new(
            Streaming(&b"xxx"[..]),
            ErrorKind::Tag
        )))
    );
}

#[test]
fn not_test() {
    fn not_aaa(i: Streaming<&[u8]>) -> IResult<Streaming<&[u8]>, ()> {
        not("aaa").parse_next(i)
    }

    assert_eq!(
        not_aaa(Streaming(&b"aaa"[..])),
        Err(ErrMode::Backtrack(Error::new(
            Streaming(&b"aaa"[..]),
            ErrorKind::Not
        )))
    );
    assert_eq!(
        not_aaa(Streaming(&b"aa"[..])),
        Err(ErrMode::Incomplete(Needed::new(1)))
    );
    assert_eq!(
        not_aaa(Streaming(&b"abcd"[..])),
        Ok((Streaming(&b"abcd"[..]), ()))
    );
}

#[test]
fn test_parser_verify() {
    fn test(i: Streaming<&[u8]>) -> IResult<Streaming<&[u8]>, &[u8]> {
        take(5u8)
            .verify(|slice: &&[u8]| slice[0] == b'a')
            .parse_next(i)
    }
    assert_eq!(
        test(Streaming(&b"bcd"[..])),
        Err(ErrMode::Incomplete(Needed::new(2)))
    );
    assert_eq!(
        test(Streaming(&b"bcdefg"[..])),
        Err(ErrMode::Backtrack(Error::new(
            Streaming(&b"bcdefg"[..]),
            ErrorKind::Verify
        )))
    );
    assert_eq!(
        test(Streaming(&b"abcdefg"[..])),
        Ok((Streaming(&b"fg"[..]), &b"abcde"[..]))
    );
}

#[test]
fn test_parser_verify_ref() {
    let mut parser1 = take(3u8).verify(|s: &&[u8]| *s == &b"abc"[..]);

    let res: IResult<&[u8], &[u8]> = parser1.parse_next(&b"abcd"[..]);
    assert_eq!(res, Ok((&b"d"[..], &b"abc"[..])));
    let res: IResult<&[u8], &[u8]> = parser1.parse_next(&b"defg"[..]);
    assert_eq!(
        res,
        Err(ErrMode::Backtrack(Error {
            input: &b"defg"[..],
            kind: ErrorKind::Verify
        }))
    );
}

#[test]
fn test_parser_verify_alloc() {
    let mut parser1 = take(3u8)
        .map(|s: &[u8]| s.to_vec())
        .verify(|s: &Vec<u8>| s.as_slice() == &b"abc"[..]);

    let res: IResult<&[u8], Vec<u8>> = parser1.parse_next(&b"abcd"[..]);
    assert_eq!(res, Ok((&b"d"[..], b"abc".to_vec())));
    let res: IResult<&[u8], Vec<u8>> = parser1.parse_next(&b"defg"[..]);
    assert_eq!(
        res,
        Err(ErrMode::Backtrack(Error {
            input: &b"defg"[..],
            kind: ErrorKind::Verify
        }))
    );
}

#[test]
fn fail_test() {
    let a = "string";
    let b = "another string";

    let res: IResult<&str, &str> = fail(a);
    assert_eq!(
        res,
        Err(ErrMode::Backtrack(Error {
            input: a,
            kind: ErrorKind::Fail
        }))
    );
    let res: IResult<&str, &str> = fail(b);
    assert_eq!(
        res,
        Err(ErrMode::Backtrack(Error {
            input: b,
            kind: ErrorKind::Fail
        }))
    );
}

#[test]
fn complete() {
    fn err_test(i: &[u8]) -> IResult<&[u8], &[u8]> {
        let (i, _) = "ijkl".parse_next(i)?;
        "mnop".parse_next(i)
    }
    let a = &b"ijklmn"[..];

    let res_a = err_test(a);
    assert_eq!(
        res_a,
        Err(ErrMode::Backtrack(Error::new(&b"mn"[..], ErrorKind::Tag)))
    );
}

#[test]
fn separated_pair_test() {
    #[allow(clippy::type_complexity)]
    fn sep_pair_abc_def(i: Streaming<&[u8]>) -> IResult<Streaming<&[u8]>, (&[u8], &[u8])> {
        separated_pair("abc", ",", "def").parse_next(i)
    }

    assert_eq!(
        sep_pair_abc_def(Streaming(&b"abc,defghijkl"[..])),
        Ok((Streaming(&b"ghijkl"[..]), (&b"abc"[..], &b"def"[..])))
    );
    assert_eq!(
        sep_pair_abc_def(Streaming(&b"ab"[..])),
        Err(ErrMode::Incomplete(Needed::new(1)))
    );
    assert_eq!(
        sep_pair_abc_def(Streaming(&b"abc,d"[..])),
        Err(ErrMode::Incomplete(Needed::new(2)))
    );
    assert_eq!(
        sep_pair_abc_def(Streaming(&b"xxx"[..])),
        Err(ErrMode::Backtrack(Error::new(
            Streaming(&b"xxx"[..]),
            ErrorKind::Tag
        )))
    );
    assert_eq!(
        sep_pair_abc_def(Streaming(&b"xxx,def"[..])),
        Err(ErrMode::Backtrack(Error::new(
            Streaming(&b"xxx,def"[..]),
            ErrorKind::Tag
        )))
    );
    assert_eq!(
        sep_pair_abc_def(Streaming(&b"abc,xxx"[..])),
        Err(ErrMode::Backtrack(Error::new(
            Streaming(&b"xxx"[..]),
            ErrorKind::Tag
        )))
    );
}

#[test]
fn preceded_test() {
    fn preceded_abcd_efgh(i: Streaming<&[u8]>) -> IResult<Streaming<&[u8]>, &[u8]> {
        preceded("abcd", "efgh").parse_next(i)
    }

    assert_eq!(
        preceded_abcd_efgh(Streaming(&b"abcdefghijkl"[..])),
        Ok((Streaming(&b"ijkl"[..]), &b"efgh"[..]))
    );
    assert_eq!(
        preceded_abcd_efgh(Streaming(&b"ab"[..])),
        Err(ErrMode::Incomplete(Needed::new(2)))
    );
    assert_eq!(
        preceded_abcd_efgh(Streaming(&b"abcde"[..])),
        Err(ErrMode::Incomplete(Needed::new(3)))
    );
    assert_eq!(
        preceded_abcd_efgh(Streaming(&b"xxx"[..])),
        Err(ErrMode::Backtrack(Error::new(
            Streaming(&b"xxx"[..]),
            ErrorKind::Tag
        )))
    );
    assert_eq!(
        preceded_abcd_efgh(Streaming(&b"xxxxdef"[..])),
        Err(ErrMode::Backtrack(Error::new(
            Streaming(&b"xxxxdef"[..]),
            ErrorKind::Tag
        )))
    );
    assert_eq!(
        preceded_abcd_efgh(Streaming(&b"abcdxxx"[..])),
        Err(ErrMode::Backtrack(Error::new(
            Streaming(&b"xxx"[..]),
            ErrorKind::Tag
        )))
    );
}

#[test]
fn terminated_test() {
    fn terminated_abcd_efgh(i: Streaming<&[u8]>) -> IResult<Streaming<&[u8]>, &[u8]> {
        terminated("abcd", "efgh").parse_next(i)
    }

    assert_eq!(
        terminated_abcd_efgh(Streaming(&b"abcdefghijkl"[..])),
        Ok((Streaming(&b"ijkl"[..]), &b"abcd"[..]))
    );
    assert_eq!(
        terminated_abcd_efgh(Streaming(&b"ab"[..])),
        Err(ErrMode::Incomplete(Needed::new(2)))
    );
    assert_eq!(
        terminated_abcd_efgh(Streaming(&b"abcde"[..])),
        Err(ErrMode::Incomplete(Needed::new(3)))
    );
    assert_eq!(
        terminated_abcd_efgh(Streaming(&b"xxx"[..])),
        Err(ErrMode::Backtrack(Error::new(
            Streaming(&b"xxx"[..]),
            ErrorKind::Tag
        )))
    );
    assert_eq!(
        terminated_abcd_efgh(Streaming(&b"xxxxdef"[..])),
        Err(ErrMode::Backtrack(Error::new(
            Streaming(&b"xxxxdef"[..]),
            ErrorKind::Tag
        )))
    );
    assert_eq!(
        terminated_abcd_efgh(Streaming(&b"abcdxxxx"[..])),
        Err(ErrMode::Backtrack(Error::new(
            Streaming(&b"xxxx"[..]),
            ErrorKind::Tag
        )))
    );
}

#[test]
fn delimited_test() {
    fn delimited_abc_def_ghi(i: Streaming<&[u8]>) -> IResult<Streaming<&[u8]>, &[u8]> {
        delimited("abc", "def", "ghi").parse_next(i)
    }

    assert_eq!(
        delimited_abc_def_ghi(Streaming(&b"abcdefghijkl"[..])),
        Ok((Streaming(&b"jkl"[..]), &b"def"[..]))
    );
    assert_eq!(
        delimited_abc_def_ghi(Streaming(&b"ab"[..])),
        Err(ErrMode::Incomplete(Needed::new(1)))
    );
    assert_eq!(
        delimited_abc_def_ghi(Streaming(&b"abcde"[..])),
        Err(ErrMode::Incomplete(Needed::new(1)))
    );
    assert_eq!(
        delimited_abc_def_ghi(Streaming(&b"abcdefgh"[..])),
        Err(ErrMode::Incomplete(Needed::new(1)))
    );
    assert_eq!(
        delimited_abc_def_ghi(Streaming(&b"xxx"[..])),
        Err(ErrMode::Backtrack(Error::new(
            Streaming(&b"xxx"[..]),
            ErrorKind::Tag
        )))
    );
    assert_eq!(
        delimited_abc_def_ghi(Streaming(&b"xxxdefghi"[..])),
        Err(ErrMode::Backtrack(Error::new(
            Streaming(&b"xxxdefghi"[..]),
            ErrorKind::Tag
        )))
    );
    assert_eq!(
        delimited_abc_def_ghi(Streaming(&b"abcxxxghi"[..])),
        Err(ErrMode::Backtrack(Error::new(
            Streaming(&b"xxxghi"[..]),
            ErrorKind::Tag
        )))
    );
    assert_eq!(
        delimited_abc_def_ghi(Streaming(&b"abcdefxxx"[..])),
        Err(ErrMode::Backtrack(Error::new(
            Streaming(&b"xxx"[..]),
            ErrorKind::Tag
        )))
    );
}

#[derive(Debug, Clone, Eq, PartialEq)]
pub struct ErrorStr(String);

impl From<u32> for ErrorStr {
    fn from(i: u32) -> Self {
        ErrorStr(format!("custom error code: {}", i))
    }
}

impl<'a> From<&'a str> for ErrorStr {
    fn from(i: &'a str) -> Self {
        ErrorStr(format!("custom error message: {}", i))
    }
}

impl<I: std::fmt::Debug> ParseError<I> for ErrorStr {
    fn from_error_kind(input: I, kind: ErrorKind) -> Self {
        ErrorStr(format!("custom error message: ({:?}, {:?})", input, kind))
    }

    fn append(self, input: I, kind: ErrorKind) -> Self {
        ErrorStr(format!(
            "custom error message: ({:?}, {:?}) - {:?}",
            input, kind, self
        ))
    }

    fn or(self, other: Self) -> Self {
        other
    }
}

#[test]
fn alt_test() {
    fn work(input: &[u8]) -> IResult<&[u8], &[u8], ErrorStr> {
        Ok((&b""[..], input))
    }

    #[allow(unused_variables)]
    fn dont_work(input: &[u8]) -> IResult<&[u8], &[u8], ErrorStr> {
        Err(ErrMode::Backtrack(ErrorStr("abcd".to_string())))
    }

    fn work2(input: &[u8]) -> IResult<&[u8], &[u8], ErrorStr> {
        Ok((input, &b""[..]))
    }

    fn alt1(i: &[u8]) -> IResult<&[u8], &[u8], ErrorStr> {
        alt((dont_work, dont_work)).parse_next(i)
    }
    fn alt2(i: &[u8]) -> IResult<&[u8], &[u8], ErrorStr> {
        alt((dont_work, work)).parse_next(i)
    }
    fn alt3(i: &[u8]) -> IResult<&[u8], &[u8], ErrorStr> {
        alt((dont_work, dont_work, work2, dont_work)).parse_next(i)
    }

    let a = &b"abcd"[..];
    assert_eq!(
        alt1(a),
        Err(ErrMode::Backtrack(ParseError::append(
            ErrorStr("abcd".to_string()),
            a,
            ErrorKind::Alt
        )))
    );
    assert_eq!(alt2(a), Ok((&b""[..], a)));
    assert_eq!(alt3(a), Ok((a, &b""[..])));

    fn alt4(i: &[u8]) -> IResult<&[u8], &[u8]> {
        alt(("abcd", "efgh")).parse_next(i)
    }
    let b = &b"efgh"[..];
    assert_eq!(alt4(a), Ok((&b""[..], a)));
    assert_eq!(alt4(b), Ok((&b""[..], b)));
}

#[test]
fn alt_incomplete() {
    fn alt1(i: Streaming<&[u8]>) -> IResult<Streaming<&[u8]>, &[u8]> {
        alt(("a", "bc", "def")).parse_next(i)
    }

    let a = &b""[..];
    assert_eq!(alt1(Streaming(a)), Err(ErrMode::Incomplete(Needed::new(1))));
    let a = &b"b"[..];
    assert_eq!(alt1(Streaming(a)), Err(ErrMode::Incomplete(Needed::new(1))));
    let a = &b"bcd"[..];
    assert_eq!(alt1(Streaming(a)), Ok((Streaming(&b"d"[..]), &b"bc"[..])));
    let a = &b"cde"[..];
    assert_eq!(
        alt1(Streaming(a)),
        Err(ErrMode::Backtrack(Error::new(Streaming(a), ErrorKind::Tag)))
    );
    let a = &b"de"[..];
    assert_eq!(alt1(Streaming(a)), Err(ErrMode::Incomplete(Needed::new(1))));
    let a = &b"defg"[..];
    assert_eq!(alt1(Streaming(a)), Ok((Streaming(&b"g"[..]), &b"def"[..])));
}

#[test]
fn permutation_test() {
    #[allow(clippy::type_complexity)]
    fn perm(i: Streaming<&[u8]>) -> IResult<Streaming<&[u8]>, (&[u8], &[u8], &[u8])> {
        permutation(("abcd", "efg", "hi")).parse_next(i)
    }

    let expected = (&b"abcd"[..], &b"efg"[..], &b"hi"[..]);

    let a = &b"abcdefghijk"[..];
    assert_eq!(perm(Streaming(a)), Ok((Streaming(&b"jk"[..]), expected)));
    let b = &b"efgabcdhijk"[..];
    assert_eq!(perm(Streaming(b)), Ok((Streaming(&b"jk"[..]), expected)));
    let c = &b"hiefgabcdjk"[..];
    assert_eq!(perm(Streaming(c)), Ok((Streaming(&b"jk"[..]), expected)));

    let d = &b"efgxyzabcdefghi"[..];
    assert_eq!(
        perm(Streaming(d)),
        Err(ErrMode::Backtrack(ParseError::append(
            Error::new(Streaming(&b"xyzabcdefghi"[..]), ErrorKind::Tag),
            Streaming(&b"efgxyzabcdefghi"[..]),
            ErrorKind::Alt
        )))
    );

    let e = &b"efgabc"[..];
    assert_eq!(perm(Streaming(e)), Err(ErrMode::Incomplete(Needed::new(1))));
}

fn small_number(s: &str) -> IResult<&str, u8> {
    map_res(digit1, |s: &str| s.parse::<u8>()).parse_next(s)
}

#[test]
fn map_res_reports_a_failed_mapping() {
    assert_eq!(small_number("123"), Ok(("", 123)));
    assert_eq!(
        small_number("abc"),
        Err(ErrMode::Backtrack(Error::new("abc", ErrorKind::Digit)))
    );
    assert_eq!(
        small_number("123456"),
        Err(ErrMode::Backtrack(Error::new("123456", ErrorKind::MapRes)))
    );
}
