use winnow::error::{ErrMode, Error, ErrorKind, Needed};
use winnow::hex::HexDisplay;
use winnow::input::{AsBStr, AsChar, Input, Located, Offset, SliceLen, Stateful, Streaming};
use winnow::number::{be_i16, be_u16, be_u24, le_i24, u16, Endianness};
use winnow::parser::{IResult, Parser};
use winnow::token::{any, take, take_until0, take_until1, take_while0, take_while1};
use winnow::ascii::{alpha1, digit1};
use winnow::multi::many0;
use winnow::sequence::{separated_pair, terminated};
use std::collections::{BTreeMap, HashMap};

#[test]
fn hex_dump_of_bytes() {
    let data: &[u8] = &b"abc\x00\x01"[..];
    assert_eq!(
        data.to_hex(4),
        "00000000\t61 62 63 00 \tabc.\n00000004\t01          \t.\n"
    );
    assert_eq!(
        data.to_hex_from(8, 0x10),
        "00000010\t61 62 63 00 01          \tabc..\n"
    );
}

#[test]
fn hex_dump_of_high_bytes_is_lossy() {
    let data: &[u8] = &[0xff];
    assert_eq!(data.to_hex(1), "00000000\tff \t\u{fffd}\n");
    let text: &str = "hi";
    assert_eq!(text.to_hex(2), "00000000\t68 69 \thi\n");
}

#[test]
fn numbers_read_their_bytes() {
    let r: IResult<&[u8], u16> = be_u16(&[0x01, 0x02, 0x03][..]);
    assert_eq!(r, Ok((&[0x03][..], 0x0102)));
    let r: IResult<&[u8], u32> = be_u24(&[0x01, 0x02, 0x03][..]);
    assert_eq!(r, Ok((&[][..], 0x010203)));
    let r: IResult<&[u8], i16> = be_i16(&[0xff, 0xfe][..]);
    assert_eq!(r, Ok((&[][..], -2)));
    let r: IResult<&[u8], i32> = le_i24(&[0xff, 0xff, 0xff][..]);
    assert_eq!(r, Ok((&[][..], -1)));
    let r: IResult<&[u8], u16> = be_u16(&[0x01][..]);
    assert_eq!(r, Err(ErrMode::Backtrack(Error::new(&[0x01][..], ErrorKind::Eof))));
    let r: IResult<Streaming<&[u8]>, u16> = be_u16(Streaming(&[0x01][..]));
    assert_eq!(r, Err(ErrMode::Incomplete(Needed::new(1))));
}

#[test]
fn native_endianness_matches_the_machine() {
    let bytes: &[u8] = &[0x01, 0x02];
    let r: IResult<&[u8], u16> = u16(Endianness::Native).parse_next(bytes);
    assert_eq!(r.unwrap().1, u16::from_ne_bytes([0x01, 0x02]));
    let r: IResult<&[u8], u16> = u16(Endianness::Little).parse_next(bytes);
    assert_eq!(r.unwrap().1, 0x0201);
}

#[test]
fn take_until_finds_the_literal() {
    let r: IResult<&[u8], &[u8]> = take_until0("cd").parse_next(&b"abcdcd"[..]);
    assert_eq!(r, Ok((&b"cdcd"[..], &b"ab"[..])));
    let r: IResult<&[u8], &[u8]> = take_until0(b'c').parse_next(&b"abcd"[..]);
    assert_eq!(r, Ok((&b"cd"[..], &b"ab"[..])));
    let r: IResult<&[u8], &[u8]> = take_until1("ab").parse_next(&b"abcd"[..]);
    assert_eq!(
        r,
        Err(ErrMode::Backtrack(Error::new(&b"abcd"[..], ErrorKind::TakeUntil)))
    );
    let r: IResult<&[u8], &[u8]> = take_until0("zz").parse_next(&b"abcd"[..]);
    assert_eq!(
        r,
        Err(ErrMode::Backtrack(Error::new(&b"abcd"[..], ErrorKind::TakeUntil)))
    );
}

#[test]
fn parse_to_reads_numbers() {
    let r: IResult<&str, i32> = "-42".parse_to::<i32>().parse_next("-42");
    assert_eq!(r, Ok(("", -42)));
    let r: IResult<&[u8], u8> = "300".parse_to::<u8>().parse_next(&b"300"[..]);
    assert_eq!(r, Err(ErrMode::Backtrack(Error::new(&b"300"[..], ErrorKind::Verify))));
}

#[test]
fn offsets_between_an_input_and_its_rest() {
    let a: &[u8] = &b"abcd123"[..];
    let b: &[u8] = &a[2..];
    assert_eq!(a.offset_to(&b), 2);
    let s: &str = "h\u{e9}llo";
    let t: &str = &s[3..];
    assert_eq!(s.offset_to(&t), 3);
    assert_eq!(s.slice_len(), 6);
    assert_eq!(s.as_bstr(), "h\u{e9}llo".as_bytes());
}

#[test]
fn stateful_input_keeps_its_state() {
    let input = Stateful { input: "abc", state: 7u32 };
    let r: IResult<Stateful<&str, u32>, &str> = "ab".parse_next(input);
    let (rest, out) = r.unwrap();
    assert_eq!(out, "ab");
    assert_eq!(rest.input, "c");
    assert_eq!(rest.state, 7);
}

#[test]
fn fill_fills_the_buffer() {
    let mut buf = ["", ""];
    let mut p = "abc";
    let r: IResult<&str, ()> = winnow::multi::fill(&mut p, &mut buf, "abcabcd");
    assert_eq!(r, Ok(("d", ())));
    assert_eq!(buf, ["abc", "abc"]);

    let mut buf = ["", ""];
    let r: IResult<&str, ()> = winnow::multi::fill(&mut p, &mut buf, "abc123");
    assert_eq!(r, Err(ErrMode::Backtrack(Error::new("123", ErrorKind::Tag))));
    assert_eq!(buf, ["abc", ""]);
}

#[test]
fn token_sets_combine() {
    let r: IResult<&str, &str> = take_while1(('a'..'g', 'A'..'G', '0'..':')).parse_next("21cZ");
    assert_eq!(r, Ok(("Z", "21c")));
    let r: IResult<&str, &str> = take_while1(('a'..'g', 'A'..'G')).parse_next("H2");
    assert_eq!(r, Err(ErrMode::Backtrack(Error::new("H2", ErrorKind::TakeWhile1))));
    let r: IResult<&str, &str> = take_while0(()).parse_next("abc");
    assert_eq!(r, Ok(("abc", "")));
    let r: IResult<&[u8], &[u8]> = take_while0(&['a', 'b'][..]).parse_next(&b"abba!"[..]);
    assert_eq!(r, Ok((&b"!"[..], &b"abba"[..])));
    let r: IResult<&str, &str> = take_while0("xy").parse_next("xyyxz");
    assert_eq!(r, Ok(("z", "xyyx")));
}

#[test]
fn accumulators_collect_items() {
    let r: IResult<&str, String> = many0(any).parse_next("abc");
    assert_eq!(r, Ok(("", "abc".to_string())));

    let r: IResult<&str, String> = many0(terminated(alpha1, ",")).parse_next("ab,cd,!");
    assert_eq!(r, Ok(("!", "abcd".to_string())));

    let r: IResult<&str, HashMap<&str, &str>> =
        many0(terminated(separated_pair(alpha1, "=", digit1), ";")).parse_next("a=1;b=2;a=3;.");
    let mut expected = HashMap::new();
    expected.insert("a", "3");
    expected.insert("b", "2");
    assert_eq!(r, Ok((".", expected)));

    let r: IResult<&str, BTreeMap<&str, &str>> =
        many0(terminated(separated_pair(alpha1, "=", digit1), ";")).parse_next("x=9;y=8;");
    let mut expected = BTreeMap::new();
    expected.insert("x", "9");
    expected.insert("y", "8");
    assert_eq!(r, Ok(("", expected)));
}

fn alpha_word(i: &str) -> IResult<&str, &str> {
    alpha1(i)
}

#[test]
fn into_converts_output_and_error() {
    let mut p = winnow::basic::into(alpha_word);
    let bytes: IResult<&str, Vec<u8>> = p.parse_next("abcd");
    assert_eq!(bytes, Ok(("", vec![97, 98, 99, 100])));
    let mut p = winnow::basic::into(alpha_word);
    let owned: IResult<&str, String> = p.parse_next("ab1");
    assert_eq!(owned, Ok(("1", "ab".to_string())));
    let mut p = winnow::basic::into(alpha_word);
    let failed: IResult<&str, String> = p.parse_next("123");
    assert_eq!(
        failed,
        Err(ErrMode::Backtrack(Error::new("123", ErrorKind::Alpha)))
    );
}

#[test]
fn err_mode_takes_ownership_of_the_input() {
    let e: ErrMode<Error<&str>> = ErrMode::Backtrack(Error::new("abc", ErrorKind::Tag));
    assert_eq!(
        e.to_owned(),
        ErrMode::Backtrack(Error::new("abc".to_string(), ErrorKind::Tag))
    );
    let e: ErrMode<Error<&[u8]>> = ErrMode::Cut(Error::new(&b"\x01\x02"[..], ErrorKind::Eof));
    assert_eq!(e.to_owned(), ErrMode::Cut(Error::new(vec![1u8, 2], ErrorKind::Eof)));
    let e: ErrMode<Error<&str>> = ErrMode::Incomplete(Needed::Unknown);
    assert_eq!(e.to_owned(), ErrMode::Incomplete(Needed::Unknown));
}

#[test]
fn tuple_applies_parsers_in_turn() {
    let mut parser = winnow::sequence::tuple((alpha1, digit1, alpha1));
    let r: IResult<&str, (&str, &str, &str)> = parser.parse("abc123def");
    assert_eq!(r, Ok(("", ("abc", "123", "def"))));
    let r: IResult<&str, (&str, &str, &str)> = parser.parse_next("123def");
    assert_eq!(
        r,
        Err(ErrMode::Backtrack(Error::new("123def", ErrorKind::Alpha)))
    );
}

#[test]
fn char_len_is_its_utf8_width() {
    assert_eq!(AsChar::len('a'), 1);
    assert_eq!(AsChar::len('\u{e9}'), 2);
    assert_eq!(AsChar::len('\u{20ac}'), 3);
    assert_eq!(AsChar::len('\u{1f600}'), 4);
    assert_eq!(AsChar::len(0xffu8), 1);
}

#[test]
fn hex_dump_from_an_address() {
    let data: &[u8] = &b"ab\x00"[..];
    assert_eq!(
        data.to_hex_from(2, 16),
        "00000010\t61 62 \tab\n00000012\t00    \t.\n"
    );
}

#[test]
fn text_offsets_are_in_bytes() {
    let l = Located::new("\u{e9}a");
    assert_eq!(l.location(), 0);
    assert_eq!(l.input_len(), 3);
    let (l2, head) = l.next_slice(2);
    assert_eq!(head, "\u{e9}");
    assert_eq!(l2.input, "a");
    assert_eq!(l2.location(), 2);
    let (rest, head) = "\u{e9}".next_slice(2);
    assert_eq!((rest, head), ("", "\u{e9}"));
    assert_eq!("\u{e9}a".offset_at(1), Ok(2));
    assert_eq!("\u{e9}a".offset_at(3), Err(Needed::Unknown));
    assert_eq!((&b"ab"[..]).offset_at(3), Err(Needed::new(1)));
    let r: IResult<&str, usize> = winnow::basic::rest_len("\u{e9}a");
    assert_eq!(r, Ok(("\u{e9}a", 3)));
    let r: IResult<Streaming<&str>, &str> = take(3usize).parse_next(Streaming("\u{e9}a"));
    assert_eq!(r, Err(ErrMode::Incomplete(Needed::Unknown)));
    let r: IResult<Streaming<&[u8]>, &[u8]> = take(3usize).parse_next(Streaming(&b"ab"[..]));
    assert_eq!(r, Err(ErrMode::Incomplete(Needed::new(1))));
}

#[test]
fn spans_over_text_count_bytes() {
    let r: IResult<Located<&str>, std::ops::Range<usize>> =
        take(3usize).span().parse_next(Located::new("\u{e9}te,x"));
    let (rest, range) = r.unwrap();
    assert_eq!(range, 0..4);
    assert_eq!(rest.location(), 4);
    assert_eq!(rest.input, ",x");
}

#[test]
fn streaming_text_literal_asks_for_bytes() {
    let r: IResult<Streaming<&str>, &str> = "\u{e9}t\u{e9}".parse_next(Streaming("\u{e9}"));
    assert_eq!(r, Err(ErrMode::Incomplete(Needed::new(3))));
    let r: IResult<Streaming<&str>, &str> = "abc".parse_next(Streaming("ab"));
    assert_eq!(r, Err(ErrMode::Incomplete(Needed::new(1))));
    let r: IResult<Streaming<&[u8]>, &[u8]> = "\u{e9}".parse_next(Streaming(&[0xc3u8][..]));
    assert_eq!(r, Err(ErrMode::Incomplete(Needed::new(1))));
}
