use winnow::ascii::alpha1;
use winnow::basic::{cut_err, iterator, not, opt, peek, ParserIterator};
use winnow::branch::alt;
use winnow::error::{ErrMode, Error, ErrorKind, Needed};
use winnow::input::{Located, Streaming};
use winnow::multi::{many0, many_m_n, many_till0, separated0};
use winnow::number::{be_u32, le_u32};
use winnow::parser::{IResult, Parser};
use winnow::sequence::terminated;
use winnow::token::{tag, take, take_until0, take_until1, take_while1};

#[test]
fn cut_and_backtrack_undo_each_other() {
    let e: ErrMode<u32> = ErrMode::Backtrack(1);
    assert_eq!(e.clone().cut().backtrack(), e.clone().backtrack());
    assert_eq!(e.clone().cut(), ErrMode::Cut(1));
    let c: ErrMode<u32> = ErrMode::Cut(2);
    assert_eq!(c.clone().backtrack().cut(), c.clone().cut());
    assert_eq!(c.clone().backtrack(), ErrMode::Backtrack(2));
    let i: ErrMode<u32> = ErrMode::Incomplete(Needed::new(3));
    assert_eq!(i.clone().cut(), i.clone());
    assert_eq!(i.clone().backtrack(), i);
}

#[test]
fn peek_keeps_the_input() {
    let r: IResult<&str, &str> = peek("ab").parse_next("abc");
    assert_eq!(r, Ok(("abc", "ab")));
    let r: IResult<&str, &str> = "ab".parse_next("abc");
    assert_eq!(r, Ok(("c", "ab")));
}

#[test]
fn opt_never_backtracks() {
    let r: IResult<&str, Option<&str>> = opt("x").parse_next("abc");
    assert_eq!(r, Ok(("abc", None)));
    let r: IResult<Streaming<&str>, Option<&str>> = opt("abcd").parse_next(Streaming("ab"));
    assert_eq!(r, Err(ErrMode::Incomplete(Needed::new(2))));
}

#[test]
fn not_consumes_nothing() {
    let r: IResult<&str, ()> = not("x").parse_next("abc");
    assert_eq!(r, Ok(("abc", ())));
    let r: IResult<&str, ()> = not("a").parse_next("abc");
    assert_eq!(r, Err(ErrMode::Backtrack(Error::new("abc", ErrorKind::Not))));
}

#[test]
fn complete_err_never_asks_for_more() {
    let mut completed = winnow::basic::complete("abcd");
    let r: IResult<Streaming<&str>, &str> = completed.parse_next(Streaming("ab"));
    assert_eq!(
        r,
        Err(ErrMode::Backtrack(Error::new(Streaming("ab"), ErrorKind::Complete)))
    );
    let r: IResult<Streaming<&str>, &str> = "abcd".parse_next(Streaming("ab"));
    assert_eq!(r, Err(ErrMode::Incomplete(Needed::new(2))));
}

#[test]
fn recognize_returns_the_consumed_input() {
    let r: IResult<&str, &str> = ("ab", "c").recognize().parse_next("abcd");
    assert_eq!(r, Ok(("d", "abc")));
    let r: IResult<&[u8], &[u8]> = (take(1usize), take(2usize)).recognize().parse_next(&b"wxyz"[..]);
    assert_eq!(r, Ok((&b"z"[..], &b"wxy"[..])));
}

#[test]
fn take_splits_the_input() {
    let input: &[u8] = &b"abcdef"[..];
    let r: IResult<&[u8], &[u8]> = take(4usize).parse_next(input);
    let (rest, slice) = r.unwrap();
    assert_eq!(slice.len(), 4);
    assert_eq!([slice, rest].concat(), input.to_vec());
}

#[test]
fn little_endian_reads_reversed_big_endian() {
    let bytes: &[u8] = &[0x12, 0x34, 0x56, 0x78];
    let reversed: Vec<u8> = bytes.iter().rev().cloned().collect();
    let le: IResult<&[u8], u32> = le_u32(bytes);
    let be: IResult<&[u8], u32> = be_u32(&reversed[..]);
    assert_eq!(le.unwrap().1, be.unwrap().1);
    assert_eq!(le_u32::<&[u8], Error<&[u8]>>(bytes).unwrap().1, 0x7856_3412);
}

#[test]
fn iterator_stays_stopped() {
    let mut it = iterator("abc,defg,hi;", terminated(alpha1::<&str, Error<&str>>, ","));
    assert_eq!(it.next(), Some("abc"));
    assert_eq!(it.next(), Some("defg"));
    assert_eq!(it.next(), None);
    assert_eq!(it.next(), None);
    assert_eq!(it.input, "hi;");
    assert_eq!(it.finish(), Ok(("hi;", ())));
}

#[test]
fn iterator_reports_unrecoverable_errors() {
    let mut it: ParserIterator<&str, &str, Error<&str>, _> = iterator("ab", cut_err("abc"));
    assert_eq!(it.next(), None);
    assert_eq!(it.next(), None);
    assert_eq!(it.finish(), Err(ErrMode::Cut(Error::new("ab", ErrorKind::Tag))));
}

#[test]
fn location_advances_by_what_is_consumed() {
    let input = Located::new("abcdef");
    let r: IResult<Located<&str>, &str> = take(4usize).parse_next(input);
    let (rest, _) = r.unwrap();
    assert_eq!(input.location(), 0);
    assert_eq!(rest.location(), 4);
    let r: IResult<Located<&str>, std::ops::Range<usize>> = tag("ef").span().parse_next(rest);
    assert_eq!(r.unwrap().1, 4..6);
}

#[test]
fn alt_returns_the_first_success() {
    let r: IResult<&str, &str> = alt(("ab", "a")).parse_next("abc");
    assert_eq!(r, Ok(("c", "ab")));
    let r: IResult<&str, &str> = alt(("x", "a")).parse_next("abc");
    assert_eq!(r, Ok(("bc", "a")));
}

#[test]
fn repetition_is_bounded_by_the_input() {
    let r: IResult<&str, Vec<&str>> = many0("a").parse_next("aaab");
    let (rest, items) = r.unwrap();
    assert_eq!(items.len(), 3);
    assert!(items.len() + rest.len() <= "aaab".len());
}

#[test]
fn literal_streaming_agrees_with_complete() {
    let r: IResult<&str, &str> = "abcd".parse_next("ab");
    assert_eq!(r, Err(ErrMode::Backtrack(Error::new("ab", ErrorKind::Tag))));
    let r: IResult<Streaming<&str>, &str> = "abcd".parse_next(Streaming("ab"));
    assert_eq!(r, Err(ErrMode::Incomplete(Needed::new(2))));
    let r: IResult<&str, &str> = "ab".parse_next("abcd");
    assert_eq!(r, Ok(("cd", "ab")));
    let r: IResult<Streaming<&str>, &str> = "ab".parse_next(Streaming("abcd"));
    assert_eq!(r, Ok((Streaming("cd"), "ab")));
}

#[test]
fn streaming_result_does_not_depend_on_chunks() {
    let r: IResult<Streaming<&str>, &str> = "abc".parse_next(Streaming("abd"));
    assert_eq!(
        r,
        Err(ErrMode::Backtrack(Error::new(Streaming("abd"), ErrorKind::Tag)))
    );
    let r: IResult<Streaming<&str>, &str> = "abc".parse_next(Streaming("abdxyz"));
    assert_eq!(
        r,
        Err(ErrMode::Backtrack(Error::new(Streaming("abdxyz"), ErrorKind::Tag)))
    );
    let r: IResult<Streaming<&str>, &str> = "abc".parse_next(Streaming("abcd"));
    assert_eq!(r, Ok((Streaming("d"), "abc")));
    let r: IResult<Streaming<&str>, &str> = "abc".parse_next(Streaming("abcdef"));
    assert_eq!(r, Ok((Streaming("def"), "abc")));

    let r: IResult<Streaming<&[u8]>, &[u8]> = take(2usize).parse_next(Streaming(&b"xyz"[..]));
    assert_eq!(r, Ok((Streaming(&b"z"[..]), &b"xy"[..])));
    let r: IResult<Streaming<&[u8]>, &[u8]> = take(2usize).parse_next(Streaming(&b"xyzzz"[..]));
    assert_eq!(r, Ok((Streaming(&b"zzz"[..]), &b"xy"[..])));

    let r: IResult<Streaming<&[u8]>, u32> = be_u32(Streaming(&[1, 2, 3, 4][..]));
    assert_eq!(r.unwrap().1, 0x0102_0304);
    let r: IResult<Streaming<&[u8]>, u32> = be_u32(Streaming(&[1, 2, 3, 4, 5][..]));
    assert_eq!(r.unwrap().1, 0x0102_0304);

    let r: IResult<Streaming<&str>, &str> = take_while1('a'..'z').parse_next(Streaming("ab1"));
    assert_eq!(r, Ok((Streaming("1"), "ab")));
    let r: IResult<Streaming<&str>, &str> = take_while1('a'..'z').parse_next(Streaming("ab1cd"));
    assert_eq!(r, Ok((Streaming("1cd"), "ab")));
    let r: IResult<Streaming<&str>, &str> = take_while1('a'..'z').parse_next(Streaming("1"));
    assert_eq!(
        r,
        Err(ErrMode::Backtrack(Error::new(Streaming("1"), ErrorKind::TakeWhile1)))
    );
    let r: IResult<Streaming<&str>, &str> = take_while1('a'..'z').parse_next(Streaming("1ab"));
    assert_eq!(
        r,
        Err(ErrMode::Backtrack(Error::new(Streaming("1ab"), ErrorKind::TakeWhile1)))
    );
    let r: IResult<Streaming<&str>, &str> = take_while1('a'..'z').parse_next(Streaming("ab"));
    assert_eq!(r, Err(ErrMode::Incomplete(Needed::new(1))));

    let r: IResult<Streaming<&str>, &str> = take_until0("eof").parse_next(Streaming("hello, eof"));
    assert_eq!(r, Ok((Streaming("eof"), "hello, ")));
    let r: IResult<Streaming<&str>, &str> =
        take_until0("eof").parse_next(Streaming("hello, eof and eof"));
    assert_eq!(r, Ok((Streaming("eof and eof"), "hello, ")));
    let r: IResult<Streaming<&str>, &str> = take_until1("eof").parse_next(Streaming("eof"));
    assert_eq!(
        r,
        Err(ErrMode::Backtrack(Error::new(Streaming("eof"), ErrorKind::TakeUntil)))
    );
    let r: IResult<Streaming<&str>, &str> = take_until1("eof").parse_next(Streaming("eofeof"));
    assert_eq!(
        r,
        Err(ErrMode::Backtrack(Error::new(Streaming("eofeof"), ErrorKind::TakeUntil)))
    );
}

#[derive(Debug, PartialEq)]
pub struct Color {
    pub red: u8,
    pub green: u8,
    pub blue: u8,
}

fn from_hex(input: &str) -> Result<u8, std::num::ParseIntError> {
    u8::from_str_radix(input, 16)
}

fn hex_primary(input: &str) -> IResult<&str, u8> {
    take(2usize)
        .verify(|s: &&str| s.chars().all(|c| c.is_ascii_hexdigit()))
        .map_res(from_hex)
        .parse_next(input)
}

fn hex_color(input: &str) -> IResult<&str, Color> {
    let (input, _) = tag("#").parse_next(input)?;
    let (input, (red, green, blue)) = (hex_primary, hex_primary, hex_primary).parse_next(input)?;
    Ok((input, Color { red, green, blue }))
}

#[test]
fn parse_color() {
    assert_eq!(
        hex_color("#2F14DF"),
        Ok((
            "",
            Color {
                red: 47,
                green: 20,
                blue: 223,
            }
        ))
    );
}

#[test]
fn many0_returns_the_longest_run() {
    let r: IResult<&str, Vec<&str>> = many0("abc").parse_next("abc123");
    assert_eq!(r, Ok(("123", vec!["abc"])));
    let r: IResult<&str, Vec<&str>> = many0("abc").parse_next("abcabc");
    assert_eq!(r, Ok(("", vec!["abc", "abc"])));
    let r: IResult<Streaming<&str>, Vec<&str>> = many0("abc").parse_next(Streaming("abcab"));
    assert_eq!(r, Err(ErrMode::Incomplete(Needed::new(1))));
}

#[test]
fn many_m_n_stays_in_range() {
    let r: IResult<&str, Vec<&str>> = many_m_n(1, 2, "ab").parse_next("ababab");
    assert_eq!(r, Ok(("ab", vec!["ab", "ab"])));
    let r: IResult<&str, Vec<&str>> = many_m_n(2, 3, "ab").parse_next("abx");
    assert_eq!(
        r,
        Err(ErrMode::Backtrack(Error::new("x", ErrorKind::Tag)))
    );
    let r: IResult<&str, Vec<&str>> = many_m_n(3, 2, "ab").parse_next("ababab");
    assert_eq!(r, Err(ErrMode::Cut(Error::new("ababab", ErrorKind::ManyMN))));
}

#[test]
fn separated_list_leaves_a_dangling_separator() {
    let r: IResult<&str, Vec<&str>> = separated0("abc", "|").parse_next("abc|abc|");
    assert_eq!(r, Ok(("|", vec!["abc", "abc"])));
    let r: IResult<&str, Vec<&str>> = separated0("abc", "|").parse_next("abc|abc|def");
    assert_eq!(r, Ok(("|def", vec!["abc", "abc"])));
    let r: IResult<&str, Vec<&str>> = separated0("abc", "|").parse_next("def");
    assert_eq!(r, Ok(("def", vec![])));
}

#[test]
fn many_till_stops_where_the_end_parser_succeeds() {
    let r: IResult<&str, (Vec<&str>, &str)> = many_till0("abc", "end").parse_next("abcabcend!");
    assert_eq!(r, Ok(("!", (vec!["abc", "abc"], "end"))));
    let r: IResult<&str, (Vec<&str>, &str)> = many_till0("abc", "end").parse_next("end");
    assert_eq!(r, Ok(("", (vec![], "end"))));
}
