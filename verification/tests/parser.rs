use winnow::ascii::alpha1;
use winnow::error::{ErrMode, Error, ErrorKind, Needed};
use winnow::input::Streaming;
use winnow::number::be_u16;
use winnow::parser::{FinishIResult, IResult, Parser};
use winnow::token::{tag, take};

#[test]
fn err_map_test() {
    let e: ErrMode<i32> = ErrMode::Backtrack(1);
    assert_eq!(e.map(|v| v + 1), ErrMode::Backtrack(2));
}

#[test]
fn single_element_tuples() {
    let mut parser = (alpha1,);
    let res: IResult<&str, (&str,)> = parser.parse_next("abc123def");
    assert_eq!(res, Ok(("123def", ("abc",))));
    let res: IResult<&str, (&str,)> = parser.parse_next("123def");
    assert_eq!(
        res,
        Err(ErrMode::Backtrack(Error {
            input: "123def",
            kind: ErrorKind::Alpha
        }))
    );
}

#[test]
fn tuple_test() {
    #[allow(clippy::type_complexity)]
    fn tuple_3(i: Streaming<&[u8]>) -> IResult<Streaming<&[u8]>, (u16, &[u8], &[u8])> {
        (be_u16, take(3u8), tag("fg")).parse_next(i)
    }

    assert_eq!(
        tuple_3(Streaming(&b"abcdefgh"[..])),
        Ok((Streaming(&b"h"[..]), (0x6162u16, &b"cde"[..], &b"fg"[..])))
    );
    assert_eq!(
        tuple_3(Streaming(&b"abcd"[..])),
        Err(ErrMode::Incomplete(Needed::new(1)))
    );
    assert_eq!(
        tuple_3(Streaming(&b"abcde"[..])),
        Err(ErrMode::Incomplete(Needed::new(2)))
    );
    assert_eq!(
        tuple_3(Streaming(&b"abcdejk"[..])),
        Err(ErrMode::Backtrack(Error::new(
            Streaming(&b"jk"[..]),
            ErrorKind::Tag
        )))
    );
}

#[test]
fn unit_type() {
    fn parser(i: &str) -> IResult<&str, ()> {
        ().parse_next(i)
    }
    assert_eq!(parser.parse_next("abxsbsh"), Ok(("abxsbsh", ())));
    assert_eq!(parser.parse_next("sdfjakdsas"), Ok(("sdfjakdsas", ())));
    assert_eq!(parser.parse_next(""), Ok(("", ())));
}

#[test]
fn finish_reports_leftover_input() {
    let res: IResult<&str, &str> = alpha1("abc123");
    assert_eq!(res.finish(), Err(Error::new("123", ErrorKind::Eof)));
    let res: IResult<&str, &str> = alpha1("abc");
    assert_eq!(res.finish(), Ok("abc"));
    let res: IResult<&str, &str> = alpha1("123");
    assert_eq!(res.finish_err(), Err(Error::new("123", ErrorKind::Alpha)));
}
