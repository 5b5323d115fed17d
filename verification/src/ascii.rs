//! Character specific parsers and combinators
//!
//! Each parser here takes the longest run of tokens of one ASCII class from the front of the
//! input; the `1` variants need at least one such token, and on a streaming input a run that
//! reaches the end of the input asks for more.
use vstd::prelude::*;
use crate::error::{ErrorKind, ParseError};
use crate::input::{
    char_is_alpha, char_is_alphanum, char_is_dec_digit, char_is_hex_digit, char_is_oct_digit,
    char_is_space, AsChar, ContainsToken, Input,
};
use crate::parser::IResult;
use crate::token::{set_ready, take_while_internal, take_while_rel};

verus! {

/// A class of ASCII characters
#[derive(Debug, PartialEq, Eq, Clone, Copy)]
pub enum AsciiClass {
    /// `a-z` and `A-Z`
    Alpha,
    /// `0-9`
    Digit,
    /// `0-9`, `a-f` and `A-F`
    HexDigit,
    /// `0-7`
    OctDigit,
    /// `a-z`, `A-Z` and `0-9`
    AlphaNumeric,
    /// space and tab
    Space,
    /// space, tab, carriage return and line feed
    MultiSpace,
}

/// Whether `c` belongs to the class
pub open spec fn in_class(class: AsciiClass, c: char) -> bool {
    match class {
        AsciiClass::Alpha => char_is_alpha(c),
        AsciiClass::Digit => char_is_dec_digit(c),
        AsciiClass::HexDigit => char_is_hex_digit(c),
        AsciiClass::OctDigit => char_is_oct_digit(c),
        AsciiClass::AlphaNumeric => char_is_alphanum(c),
        AsciiClass::Space => char_is_space(c),
        AsciiClass::MultiSpace => char_is_space(c) || c == '\r' || c == '\n',
    }
}

impl<T: AsChar> ContainsToken<T> for AsciiClass {
    open spec fn contains_req(&self, token: T) -> bool {
        true
    }

    open spec fn contains_rel(&self, token: T, r: bool) -> bool {
        r == in_class(*self, token.spec_as_char())
    }

    fn contains_token(&self, token: T) -> (r: bool) {
        match self {
            AsciiClass::Alpha => token.is_alpha(),
            AsciiClass::Digit => token.is_dec_digit(),
            AsciiClass::HexDigit => token.is_hex_digit(),
            AsciiClass::OctDigit => token.is_oct_digit(),
            AsciiClass::AlphaNumeric => token.is_alphanum(),
            AsciiClass::Space => token.is_space(),
            AsciiClass::MultiSpace => {
                let c = token.as_char();
                token.is_space() || c == '\r' || c == '\n'
            },
        }
    }
}

/// Takes the longest run of tokens of `class`, at least one when `min_one`, failing with
/// `kind`.
fn class_run<I, E>(input: I, class: AsciiClass, min_one: bool, kind: ErrorKind) -> (r: IResult<
    I,
    I::Slice,
    E,
>) where I: Input, I::Token: AsChar, E: ParseError<I>
    ensures
        take_while_rel(input, class, true, min_one, kind, r),
{
    assert(set_ready(input, class));
    take_while_internal(input, &class, true, min_one, kind)
}

/// Recognizes zero or more lowercase and uppercase ASCII alphabetic characters: a-z, A-Z
pub fn alpha0<I, E>(input: I) -> (r: IResult<I, I::Slice, E>) where
    I: Input,
    I::Token: AsChar,
    E: ParseError<I>,

    ensures
        take_while_rel(input, AsciiClass::Alpha, true, false, ErrorKind::Alpha, r),
{
    class_run(input, AsciiClass::Alpha, false, ErrorKind::Alpha)
}

/// Recognizes one or more lowercase and uppercase ASCII alphabetic characters: a-z, A-Z
pub fn alpha1<I, E>(input: I) -> (r: IResult<I, I::Slice, E>) where
    I: Input,
    I::Token: AsChar,
    E: ParseError<I>,

    ensures
        take_while_rel(input, AsciiClass::Alpha, true, true, ErrorKind::Alpha, r),
{
    class_run(input, AsciiClass::Alpha, true, ErrorKind::Alpha)
}

/// Recognizes zero or more ASCII numerical characters: 0-9
pub fn digit0<I, E>(input: I) -> (r: IResult<I, I::Slice, E>) where
    I: Input,
    I::Token: AsChar,
    E: ParseError<I>,

    ensures
        take_while_rel(input, AsciiClass::Digit, true, false, ErrorKind::Digit, r),
{
    class_run(input, AsciiClass::Digit, false, ErrorKind::Digit)
}

/// Recognizes one or more ASCII numerical characters: 0-9
pub fn digit1<I, E>(input: I) -> (r: IResult<I, I::Slice, E>) where
    I: Input,
    I::Token: AsChar,
    E: ParseError<I>,

    ensures
        take_while_rel(input, AsciiClass::Digit, true, true, ErrorKind::Digit, r),
{
    class_run(input, AsciiClass::Digit, true, ErrorKind::Digit)
}

/// Recognizes zero or more ASCII hexadecimal numerical characters: 0-9, A-F, a-f
pub fn hex_digit0<I, E>(input: I) -> (r: IResult<I, I::Slice, E>) where
    I: Input,
    I::Token: AsChar,
    E: ParseError<I>,

    ensures
        take_while_rel(input, AsciiClass::HexDigit, true, false, ErrorKind::HexDigit, r),
{
    class_run(input, AsciiClass::HexDigit, false, ErrorKind::HexDigit)
}

/// Recognizes one or more ASCII hexadecimal numerical characters: 0-9, A-F, a-f
pub fn hex_digit1<I, E>(input: I) -> (r: IResult<I, I::Slice, E>) where
    I: Input,
    I::Token: AsChar,
    E: ParseError<I>,

    ensures
        take_while_rel(input, AsciiClass::HexDigit, true, true, ErrorKind::HexDigit, r),
{
    class_run(input, AsciiClass::HexDigit, true, ErrorKind::HexDigit)
}

/// Recognizes zero or more octal characters: 0-7
pub fn oct_digit0<I, E>(input: I) -> (r: IResult<I, I::Slice, E>) where
    I: Input,
    I::Token: AsChar,
    E: ParseError<I>,

    ensures
        take_while_rel(input, AsciiClass::OctDigit, true, false, ErrorKind::OctDigit, r),
{
    class_run(input, AsciiClass::OctDigit, false, ErrorKind::OctDigit)
}

/// Recognizes one or more octal characters: 0-7
pub fn oct_digit1<I, E>(input: I) -> (r: IResult<I, I::Slice, E>) where
    I: Input,
    I::Token: AsChar,
    E: ParseError<I>,

    ensures
        take_while_rel(input, AsciiClass::OctDigit, true, true, ErrorKind::OctDigit, r),
{
    class_run(input, AsciiClass::OctDigit, true, ErrorKind::OctDigit)
}

/// Recognizes zero or more ASCII numerical and alphabetic characters: 0-9, a-z, A-Z
pub fn alphanumeric0<I, E>(input: I) -> (r: IResult<I, I::Slice, E>) where
    I: Input,
    I::Token: AsChar,
    E: ParseError<I>,

    ensures
        take_while_rel(input, AsciiClass::AlphaNumeric, true, false, ErrorKind::AlphaNumeric, r),
{
    class_run(input, AsciiClass::AlphaNumeric, false, ErrorKind::AlphaNumeric)
}

/// Recognizes one or more ASCII numerical and alphabetic characters: 0-9, a-z, A-Z
pub fn alphanumeric1<I, E>(input: I) -> (r: IResult<I, I::Slice, E>) where
    I: Input,
    I::Token: AsChar,
    E: ParseError<I>,

    ensures
        take_while_rel(input, AsciiClass::AlphaNumeric, true, true, ErrorKind::AlphaNumeric, r),
{
    class_run(input, AsciiClass::AlphaNumeric, true, ErrorKind::AlphaNumeric)
}

/// Recognizes zero or more spaces and tabs.
pub fn space0<I, E>(input: I) -> (r: IResult<I, I::Slice, E>) where
    I: Input,
    I::Token: AsChar,
    E: ParseError<I>,

    ensures
        take_while_rel(input, AsciiClass::Space, true, false, ErrorKind::Space, r),
{
    class_run(input, AsciiClass::Space, false, ErrorKind::Space)
}

/// Recognizes one or more spaces and tabs.
pub fn space1<I, E>(input: I) -> (r: IResult<I, I::Slice, E>) where
    I: Input,
    I::Token: AsChar,
    E: ParseError<I>,

    ensures
        take_while_rel(input, AsciiClass::Space, true, true, ErrorKind::Space, r),
{
    class_run(input, AsciiClass::Space, true, ErrorKind::Space)
}

/// Recognizes zero or more spaces, tabs, carriage returns and line feeds.
pub fn multispace0<I, E>(input: I) -> (r: IResult<I, I::Slice, E>) where
    I: Input,
    I::Token: AsChar,
    E: ParseError<I>,

    ensures
        take_while_rel(input, AsciiClass::MultiSpace, true, false, ErrorKind::MultiSpace, r),
{
    class_run(input, AsciiClass::MultiSpace, false, ErrorKind::MultiSpace)
}

/// Recognizes one or more spaces, tabs, carriage returns and line feeds.
pub fn multispace1<I, E>(input: I) -> (r: IResult<I, I::Slice, E>) where
    I: Input,
    I::Token: AsChar,
    E: ParseError<I>,

    ensures
        take_while_rel(input, AsciiClass::MultiSpace, true, true, ErrorKind::MultiSpace, r),
{
    class_run(input, AsciiClass::MultiSpace, true, ErrorKind::MultiSpace)
}

/// A character of the ASCII range, 0 to 127
#[derive(Copy, Clone, PartialEq, Eq, Hash, Debug)]
pub struct AsciiChar(u8);

impl AsciiChar {
    /// The character's code
    pub closed spec fn code(self) -> u8 {
        self.0
    }

    #[verifier::type_invariant]
    spec fn in_range(self) -> bool {
        self.0 <= 127
    }

    /// The character of code `b`, if `b` is in the ASCII range
    pub fn from_u8(b: u8) -> (r: Option<Self>)
        ensures
            b <= 127 <==> r is Some,
            r matches Some(c) ==> c.code() == b,
    {
        if b <= 127 {
            Some(AsciiChar(b))
        } else {
            None
        }
    }

    /// The character's code
    pub fn to_u8(self) -> (r: u8)
        ensures
            r == self.code(),
            r <= 127,
    {
        proof {
            use_type_invariant(&self);
        }
        self.0
    }

    /// The character itself
    pub fn to_char(self) -> (r: char)
        ensures
            r as int == self.code() as int,
    {
        proof {
            use_type_invariant(&self);
        }
        self.0 as char
    }
}

/// The classes by ASCII code, for a byte `b`: letters are `0x41..=0x5a` and `0x61..=0x7a`,
/// digits `0x30..=0x39`, hexadecimal digits the digits and `0x41..=0x46`, `0x61..=0x66`,
/// octal digits `0x30..=0x37`, spaces `0x20` and tab `0x09`, and multispace adds carriage
/// return `0x0d` and line feed `0x0a`. A character belongs to a class exactly when it is
/// ASCII and its code does.
pub proof fn law_ascii_classes_by_code(b: u8, c: char)
    ensures
        in_class(AsciiClass::Alpha, b.spec_as_char()) <==> (0x41 <= b <= 0x5a || 0x61 <= b <= 0x7a),
        in_class(AsciiClass::Digit, b.spec_as_char()) <==> 0x30 <= b <= 0x39,
        in_class(AsciiClass::HexDigit, b.spec_as_char()) <==> (0x30 <= b <= 0x39 || 0x41 <= b <= 0x46
            || 0x61 <= b <= 0x66),
        in_class(AsciiClass::OctDigit, b.spec_as_char()) <==> 0x30 <= b <= 0x37,
        in_class(AsciiClass::AlphaNumeric, b.spec_as_char()) <==> (0x30 <= b <= 0x39 || 0x41 <= b
            <= 0x5a || 0x61 <= b <= 0x7a),
        in_class(AsciiClass::Space, b.spec_as_char()) <==> (b == 0x20 || b == 0x09),
        in_class(AsciiClass::MultiSpace, b.spec_as_char()) <==> (b == 0x20 || b == 0x09 || b == 0x0d
            || b == 0x0a),
        forall|cl: AsciiClass| #[trigger] in_class(cl, c) ==> (c as u32) < 0x80,
        (c as u32) < 0x80 ==> forall|cl: AsciiClass| #[trigger] in_class(cl, c) == in_class(cl, ((c as u32) as u8).spec_as_char()),
{
    if (c as u32) < 0x80 {
        assert((((c as u32) as u8) as char) == c);
    }
}

} // verus!
