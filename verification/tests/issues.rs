use winnow::ascii::{digit1, space1};
use winnow::basic::{complete, opt};
use winnow::error::{ErrMode, Error, ErrorKind, Needed};
use winnow::hex::HexDisplay;
use winnow::input::Streaming;
use winnow::multi::{count, length_count, length_data, many0, many0_count, many1, many_m_n, repeat0, repeat1, repeat_till0};
use winnow::number::{be_u16, be_u64, be_u8};
use winnow::parser::{IResult, Parser};
use winnow::token::{one_of, take, take_till0};

fn parse_ints(input: Streaming<&[u8]>) -> IResult<Streaming<&[u8]>, Vec<i32>> {
    many0(spaces_or_int).parse_next(input)
}

fn spaces_or_int(input: Streaming<&[u8]>) -> IResult<Streaming<&[u8]>, i32> {
    println!("{}", input.to_hex(8));
    let (i, _) = opt(complete(space1)).parse_next(input)?;
    let (i, res) = complete(digit1)
        .map(|x: &[u8]| {
            let result = std::str::from_utf8(x).unwrap();
            match result.parse() {
                Ok(i) => i,
                Err(e) => panic!("not a number: {:?}", e),
            }
        })
        .parse_next(i)?;
    Ok((i, res))
}

#[test]
fn issue_142() {
    let subject = parse_ints(Streaming(&b"12 34 5689a"[..]));
    let expected = Ok((Streaming(&b"a"[..]), vec![12, 34, 5689]));
    assert_eq!(subject, expected);

    let subject = parse_ints(Streaming(&b"12 34 5689 "[..]));
    let expected = Ok((Streaming(&b" "[..]), vec![12, 34, 5689]));
    assert_eq!(subject, expected)
}

#[test]
fn usize_length_bytes_issue() {
    let _: IResult<Streaming<&[u8]>, &[u8], Error<Streaming<&[u8]>>> =
        length_data(be_u16).parse_next(Streaming(&b"012346"[..]));
}

#[test]
fn take_till_issue() {
    fn nothing(i: Streaming<&[u8]>) -> IResult<Streaming<&[u8]>, &[u8]> {
        take_till0(|_: u8| true).parse_next(i)
    }

    assert_eq!(nothing(Streaming(b"")), Err(ErrMode::Incomplete(Needed::new(1))));
    assert_eq!(nothing(Streaming(b"abc")), Ok((Streaming(&b"abc"[..]), &b""[..])));
}

#[test]
fn issue_942() {
    fn parser(i: &str) -> IResult<&str, usize, ()> {
        many0_count('a'.context("char_a")).parse_next(i)
    }
    assert_eq!(parser("aaa"), Ok(("", 3)));
}

#[test]
fn issue_many_m_n_with_zeros() {
    let mut parser = many_m_n::<_, _, Vec<char>, (), _>(0, 0, 'a');
    assert_eq!(parser.parse_next("aaa"), Ok(("aaa", vec![])));
}

#[test]
fn issue_1282_findtoken_char() {
    let mut parser = one_of(&['a', 'b', 'c'][..]);
    let r: IResult<&str, char> = parser.parse_next("aaa");
    assert_eq!(r, Ok(("aa", 'a')));
}

#[test]
fn issue_1459_clamp_capacity() {
    let mut parser = many_m_n::<_, _, Vec<char>, (), _>(usize::MAX, usize::MAX, 'a');
    assert_eq!(parser.parse_next("a"), Err(ErrMode::Backtrack(())));

    let mut parser = count::<_, _, Vec<char>, (), _>('a', usize::MAX);
    assert_eq!(parser.parse_next("a"), Err(ErrMode::Backtrack(())));
}

fn parser02(i: Streaming<&[u8]>) -> IResult<Streaming<&[u8]>, (&[u8], &[u8])> {
    (take(1_usize), take(18446744073709551615_usize)).parse_next(i)
}

#[test]
fn overflow_incomplete_tuple() {
    assert_eq!(
        parser02(Streaming(&b"3"[..])),
        Err(ErrMode::Incomplete(Needed::new(18446744073709551615)))
    );
}

#[test]
fn overflow_incomplete_length_bytes() {
    fn multi(i: Streaming<&[u8]>) -> IResult<Streaming<&[u8]>, Vec<&[u8]>> {
        repeat0(length_data(be_u64)).parse_next(i)
    }

    assert_eq!(
        multi(Streaming(
            &b"\x00\x00\x00\x00\x00\x00\x00\x01\xaa\xff\xff\xff\xff\xff\xff\xff\xff"[..]
        )),
        Err(ErrMode::Incomplete(Needed::new(18446744073709551615)))
    );
}

#[test]
fn overflow_incomplete_many0() {
    fn multi(i: Streaming<&[u8]>) -> IResult<Streaming<&[u8]>, Vec<&[u8]>> {
        repeat0(length_data(be_u64)).parse_next(i)
    }

    assert_eq!(
        multi(Streaming(
            &b"\x00\x00\x00\x00\x00\x00\x00\x01\xaa\xff\xff\xff\xff\xff\xff\xff\xef"[..]
        )),
        Err(ErrMode::Incomplete(Needed::new(18446744073709551599)))
    );
}

#[test]
fn overflow_incomplete_many1() {
    fn multi(i: Streaming<&[u8]>) -> IResult<Streaming<&[u8]>, Vec<&[u8]>> {
        repeat1(length_data(be_u64)).parse_next(i)
    }

    assert_eq!(
        multi(Streaming(
            &b"\x00\x00\x00\x00\x00\x00\x00\x01\xaa\xff\xff\xff\xff\xff\xff\xff\xef"[..]
        )),
        Err(ErrMode::Incomplete(Needed::new(18446744073709551599)))
    );
}

#[test]
fn overflow_incomplete_many_till0() {
    #[allow(clippy::type_complexity)]
    fn multi(i: Streaming<&[u8]>) -> IResult<Streaming<&[u8]>, (Vec<&[u8]>, &[u8])> {
        repeat_till0(length_data(be_u64), "abc").parse_next(i)
    }

    assert_eq!(
        multi(Streaming(
            &b"\x00\x00\x00\x00\x00\x00\x00\x01\xaa\xff\xff\xff\xff\xff\xff\xff\xef"[..]
        )),
        Err(ErrMode::Incomplete(Needed::new(18446744073709551599)))
    );
}

#[test]
fn overflow_incomplete_many_m_n() {
    fn multi(i: Streaming<&[u8]>) -> IResult<Streaming<&[u8]>, Vec<&[u8]>> {
        many_m_n(2, 4, length_data(be_u64)).parse_next(i)
    }

    assert_eq!(
        multi(Streaming(
            &b"\x00\x00\x00\x00\x00\x00\x00\x01\xaa\xff\xff\xff\xff\xff\xff\xff\xef"[..]
        )),
        Err(ErrMode::Incomplete(Needed::new(18446744073709551599)))
    );
}

#[test]
fn overflow_incomplete_count() {
    fn counter(i: Streaming<&[u8]>) -> IResult<Streaming<&[u8]>, Vec<&[u8]>> {
        count(length_data(be_u64), 2).parse_next(i)
    }

    assert_eq!(
        counter(Streaming(
            &b"\x00\x00\x00\x00\x00\x00\x00\x01\xaa\xff\xff\xff\xff\xff\xff\xff\xef"[..]
        )),
        Err(ErrMode::Incomplete(Needed::new(18446744073709551599)))
    );
}

#[test]
fn overflow_incomplete_length_count() {
    fn multi(i: Streaming<&[u8]>) -> IResult<Streaming<&[u8]>, Vec<&[u8]>> {
        length_count(be_u8, length_data(be_u64)).parse_next(i)
    }

    assert_eq!(
        multi(Streaming(
            &b"\x04\x00\x00\x00\x00\x00\x00\x00\x01\xaa\xff\xff\xff\xff\xff\xff\xff\xee"[..]
        )),
        Err(ErrMode::Incomplete(Needed::new(18446744073709551598)))
    );
}

#[test]
fn overflow_incomplete_length_data() {
    fn multi(i: Streaming<&[u8]>) -> IResult<Streaming<&[u8]>, Vec<&[u8]>> {
        repeat0(length_data(be_u64)).parse_next(i)
    }

    assert_eq!(
        multi(Streaming(
            &b"\x00\x00\x00\x00\x00\x00\x00\x01\xaa\xff\xff\xff\xff\xff\xff\xff\xff"[..]
        )),
        Err(ErrMode::Incomplete(Needed::new(18446744073709551615)))
    );
}

#[test]
fn many1_fails_without_a_first_item() {
    let r: IResult<&str, Vec<&str>> = many1("ab").parse_next("xy");
    assert_eq!(r, Err(ErrMode::Backtrack(Error::new("xy", ErrorKind::Tag))));
}

#[test]
fn issue_1617_count_parser_returning_zero_size() {
    let r: IResult<&str, Vec<()>> = count("abc".map(|_| ()), 3).parse_next("abcabcabcdef");
    assert_eq!(r, Ok(("def", vec![(), (), ()])));
}
