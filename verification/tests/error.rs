use winnow::error::{convert_error, ErrMode, ErrorConvert, ErrorKind, VerboseError, VerboseErrorKind};
use winnow::parser::{IResult, Parser};
use winnow::token::one_of;

#[test]
fn convert_error_panic() {
    let input = "";

    let _result: IResult<_, _, VerboseError<&str>> = one_of('x').parse_next(input);
}

#[test]
fn convert_error_reports_line_and_column() {
    let input = "abc\ndef";
    let e = VerboseError {
        errors: vec![
            (&input[5..], VerboseErrorKind::Nom(ErrorKind::Tag)),
            (&input[4..], VerboseErrorKind::Context("second line")),
        ],
    };
    assert_eq!(
        convert_error(input, e),
        "0: at line 2, in Tag:\ndef\n ^\n\n1: at line 2, in second line:\ndef\n^\n\n"
    );
}

#[test]
fn convert_error_on_empty_input() {
    let e = VerboseError {
        errors: vec![("", VerboseErrorKind::Context("value"))],
    };
    assert_eq!(convert_error("", e), "0: in value, got empty input\n\n");
}

#[test]
fn convert_error_counts_columns_in_bytes_and_trims_the_line() {
    let input = "x\n\u{e9}t\u{e9}  \nz";
    // the error is at the second 'é' of the second line
    let at = &input[5..];
    let e = VerboseError {
        errors: vec![(at, VerboseErrorKind::Nom(ErrorKind::Char))],
    };
    assert_eq!(
        convert_error(input, e),
        "0: at line 2, in Char:\n\u{e9}t\u{e9}\n   ^\n\n"
    );
}

#[test]
fn verbose_error_collects_contexts() {
    let r: IResult<&str, char, VerboseError<&str>> =
        one_of('a').context("letter a").parse_next("b");
    match r {
        Err(ErrMode::Backtrack(e)) => {
            assert_eq!(
                e.errors,
                vec![
                    ("b", VerboseErrorKind::Nom(ErrorKind::OneOf)),
                    ("b", VerboseErrorKind::Context("letter a")),
                ]
            );
        }
        other => panic!("unexpected result {:?}", other),
    }
}

#[test]
fn description_names_each_kind() {
    assert_eq!(ErrorKind::Tag.description(), "Tag");
    assert_eq!(ErrorKind::Eof.description(), "End of file");
    assert_eq!(ErrorKind::Verify.description(), "predicate verification");
}

#[test]
fn context_function_names_the_failing_section() {
    let r: IResult<&str, &str, VerboseError<&str>> =
        winnow::error::context("word", winnow::ascii::alpha1).parse_next("123");
    assert_eq!(
        r,
        Err(ErrMode::Backtrack(VerboseError {
            errors: vec![
                ("123", VerboseErrorKind::Nom(ErrorKind::Alpha)),
                ("123", VerboseErrorKind::Context("word")),
            ]
        }))
    );
}

#[test]
fn verbose_error_takes_ownership_of_its_inputs() {
    let e: VerboseError<&str> = VerboseError {
        errors: vec![("ab", VerboseErrorKind::Nom(ErrorKind::Tag)), ("xab", VerboseErrorKind::Context("x"))],
    };
    assert_eq!(
        e.into_owned(),
        VerboseError {
            errors: vec![
                ("ab".to_string(), VerboseErrorKind::Nom(ErrorKind::Tag)),
                ("xab".to_string(), VerboseErrorKind::Context("x")),
            ]
        }
    );
    let e: VerboseError<&[u8]> = VerboseError { errors: vec![(&b"\x01"[..], VerboseErrorKind::Nom(ErrorKind::Eof))] };
    assert_eq!(
        e.into_owned(),
        VerboseError { errors: vec![(vec![1u8], VerboseErrorKind::Nom(ErrorKind::Eof))] }
    );
}

#[test]
fn descriptions_tell_kinds_apart() {
    assert_ne!(ErrorKind::Many0Count.description(), ErrorKind::Many1Count.description());
    assert_ne!(ErrorKind::Many0.description(), ErrorKind::Many1.description());
    assert!(!ErrorKind::Fix.description().is_empty());
}

#[test]
fn verbose_errors_convert_to_and_from_bit_positions() {
    let e: VerboseError<&[u8]> = VerboseError {
        errors: vec![(&b"ab"[..], VerboseErrorKind::Nom(ErrorKind::Tag)), (&b"b"[..], VerboseErrorKind::Context("x"))],
    };
    let bits: VerboseError<(&[u8], usize)> = e.clone().convert();
    assert_eq!(
        bits,
        VerboseError {
            errors: vec![
                ((&b"ab"[..], 0), VerboseErrorKind::Nom(ErrorKind::Tag)),
                ((&b"b"[..], 0), VerboseErrorKind::Context("x")),
            ]
        }
    );
    let back: VerboseError<&[u8]> = bits.convert();
    assert_eq!(back, e);
}
