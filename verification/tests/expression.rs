use winnow::ascii::{digit1, space0};
use winnow::basic::{fail, peek};
use winnow::error::{ErrMode, Error};
use winnow::expression::{expression, BinaryOp, Infix, Prefix};
use winnow::parser::{FinishIResult, IResult, Parser};
use winnow::precedence::precedence;
use winnow::sequence::delimited;
use winnow::shunting_yard::{self, Assoc};
use winnow::token::any;

type OpErr<'a> = ErrMode<Error<&'a str>>;
type Unary<'a> = fn(&'a str, i32) -> Result<i32, OpErr<'a>>;
type Binary<'a> = fn(&'a str, i32, i32) -> Result<i32, OpErr<'a>>;

fn keep<'a>(_: &'a str, a: i32) -> Result<i32, OpErr<'a>> {
    Ok(a)
}
fn negate<'a>(_: &'a str, a: i32) -> Result<i32, OpErr<'a>> {
    Ok(-a)
}
fn add<'a>(_: &'a str, a: i32, b: i32) -> Result<i32, OpErr<'a>> {
    Ok(a + b)
}
fn sub<'a>(_: &'a str, a: i32, b: i32) -> Result<i32, OpErr<'a>> {
    Ok(a - b)
}
fn mul<'a>(_: &'a str, a: i32, b: i32) -> Result<i32, OpErr<'a>> {
    Ok(a * b)
}
fn div<'a>(_: &'a str, a: i32, b: i32) -> Result<i32, OpErr<'a>> {
    Ok(a / b)
}
fn rem<'a>(_: &'a str, a: i32, b: i32) -> Result<i32, OpErr<'a>> {
    Ok(a % b)
}
fn xor<'a>(_: &'a str, a: i32, b: i32) -> Result<i32, OpErr<'a>> {
    Ok(a ^ b)
}

fn number(i: &str) -> IResult<&str, i32> {
    digit1::<&str, Error<&str>>.parse_to::<i32>().parse_next(i)
}

fn expr_prefix(i: &str) -> IResult<&str, Prefix<Unary<'_>>> {
    let (rest, c) = any(i)?;
    match c {
        '+' => Ok((rest, Prefix(12, keep as Unary))),
        '-' => Ok((rest, Prefix(12, negate as Unary))),
        _ => fail(rest),
    }
}

fn expr_infix(i: &str) -> IResult<&str, Infix<Binary<'_>>> {
    let (rest, c) = any(i)?;
    match c {
        '+' => Ok((rest, Infix::Left(5, add as Binary))),
        '-' => Ok((rest, Infix::Left(5, sub as Binary))),
        '*' => Ok((rest, Infix::Left(7, mul as Binary))),
        '/' => Ok((rest, Infix::Left(7, div as Binary))),
        '%' => Ok((rest, Infix::Left(7, rem as Binary))),
        '^' => Ok((rest, Infix::Left(9, xor as Binary))),
        _ => fail(rest),
    }
}

fn expr_parser(i: &str) -> IResult<&str, i32> {
    expression(0, number)
        .prefix(expr_prefix)
        .infix(expr_infix)
        .parse_next(i)
}

#[test]
fn test_expression() {
    assert_eq!(expr_parser.parse_next("-3+-3*4").finish(), Ok(-15));
    assert_eq!(expr_parser.parse_next("+2+3*4").finish(), Ok(14));
    assert_eq!(expr_parser.parse_next("2*3+4").finish(), Ok(10));
}

type Fold1<'a> = fn(&'a str, i32) -> i32;
type Fold2<'a> = fn(&'a str, i32, i32) -> i32;

fn factorial(i: &str, x: i32) -> i32 {
    if x == 0 {
        1
    } else {
        x * factorial(i, x - 1)
    }
}

fn prec_operand(i: &str) -> IResult<&str, i32> {
    delimited(space0, prec_atom, space0).parse_next(i)
}

fn prec_atom(i: &str) -> IResult<&str, i32> {
    let (_, c) = peek(any::<&str, Error<&str>>).parse_next(i)?;
    if c == '(' {
        delimited('(', prec_parser, ')').parse_next(i)
    } else {
        number(i)
    }
}

fn prec_prefix(i: &str) -> IResult<&str, (usize, Fold1<'_>)> {
    let (rest, c) = any(i)?;
    match c {
        '+' => Ok((rest, (9, (|_: &str, a: i32| a) as Fold1))),
        '-' => Ok((rest, (9, (|_: &str, a: i32| -a) as Fold1))),
        _ => fail(rest),
    }
}

fn prec_postfix(i: &str) -> IResult<&str, (usize, Fold1<'_>)> {
    let (rest, c) = any(i)?;
    match c {
        '!' => Ok((rest, (9, factorial as Fold1))),
        _ => fail(rest),
    }
}

fn prec_infix(i: &str) -> IResult<&str, (usize, usize, Fold2<'_>)> {
    let (rest, c) = any(i)?;
    match c {
        '+' => Ok((rest, (5, 6, (|_: &str, a: i32, b: i32| a + b) as Fold2))),
        '-' => Ok((rest, (5, 6, (|_: &str, a: i32, b: i32| a - b) as Fold2))),
        '*' => Ok((rest, (7, 8, (|_: &str, a: i32, b: i32| a * b) as Fold2))),
        '/' => Ok((rest, (7, 8, (|_: &str, a: i32, b: i32| a / b) as Fold2))),
        '%' => Ok((rest, (7, 8, (|_: &str, a: i32, b: i32| a % b) as Fold2))),
        '^' => Ok((rest, (9, 10, (|_: &str, a: i32, b: i32| a ^ b) as Fold2))),
        _ => fail(rest),
    }
}

fn prec_parser(i: &str) -> IResult<&str, i32> {
    precedence(prec_operand, prec_prefix, prec_postfix, prec_infix).parse_next(i)
}

#[test]
fn test_precedence() {
    assert_eq!(prec_parser.parse_next("-3!+-3 *  4").finish(), Ok(-18));
    assert_eq!(prec_parser.parse_next("+2 + 3 *  4").finish(), Ok(14));
    assert_eq!(prec_parser.parse_next("2 * 3+4").finish(), Ok(10));
}

#[test]
fn test_unary() {
    assert_eq!(prec_parser.parse_next("-2").finish(), Ok(-2));
    assert_eq!(prec_parser.parse_next("4!").finish(), Ok(24));
    assert_eq!(prec_parser.parse_next("2 + 4!").finish(), Ok(26));
    assert_eq!(prec_parser.parse_next("-2 + 2").finish(), Ok(0));
}

fn yard_operand(i: &str) -> IResult<&str, i32> {
    let (_, c) = peek(any::<&str, Error<&str>>).parse_next(i)?;
    if c == '(' {
        delimited('(', yard_parser, ')').parse_next(i)
    } else {
        number(i)
    }
}

fn yard_prefix(i: &str) -> IResult<&str, (i64, Unary<'_>)> {
    let (rest, c) = any(i)?;
    match c {
        '+' => Ok((rest, (20, keep as Unary))),
        '-' => Ok((rest, (20, negate as Unary))),
        _ => fail(rest),
    }
}

fn yard_postfix(i: &str) -> IResult<&str, (i64, Unary<'_>)> {
    fail(i)
}

fn yard_infix(i: &str) -> IResult<&str, (Assoc, Binary<'_>)> {
    let (rest, c) = any(i)?;
    match c {
        '+' => Ok((rest, (Assoc::Left(5), add as Binary))),
        '-' => Ok((rest, (Assoc::Left(5), sub as Binary))),
        '*' => Ok((rest, (Assoc::Left(7), mul as Binary))),
        '/' => Ok((rest, (Assoc::Left(7), div as Binary))),
        '~' => Ok((rest, (Assoc::Right(9), sub as Binary))),
        _ => fail(rest),
    }
}

fn yard_parser(i: &str) -> IResult<&str, i32> {
    shunting_yard::precedence(0, yard_operand, yard_prefix, yard_postfix, yard_infix).parse_next(i)
}

#[test]
fn test_parser() {
    assert_eq!(yard_parser.parse_next("1+4+6").finish(), Ok(11));
}

#[test]
fn shunting_yard_binds_products_tighter() {
    assert_eq!(yard_parser.parse_next("2*3+4*5").finish(), Ok(26));
    assert_eq!(yard_parser.parse_next("2*(3+4)").finish(), Ok(14));
    assert_eq!(yard_parser.parse_next("-2*3").finish(), Ok(-6));
    assert_eq!(yard_parser.parse_next("8-2-1").finish(), Ok(5));
}

#[test]
fn operators_can_be_copied() {
    let op: Infix<Binary<'_>> = Infix::Right(3, sub as Binary);
    let copy = op.clone();
    assert_eq!(copy.apply("", 7, 2), Ok(5));
    assert_eq!(op.apply("", 2, 7), Ok(-5));
}

#[test]
fn shunting_yard_groups_by_power_and_associativity() {
    // higher power binds tighter, whichever side it is on
    assert_eq!(yard_parser.parse_next("2+3*4").finish(), Ok(14));
    assert_eq!(yard_parser.parse_next("2*3+4").finish(), Ok(10));
    // equal left-associative powers group to the left
    assert_eq!(yard_parser.parse_next("8-2-1").finish(), Ok(5));
    // equal right-associative powers group to the right: 8 ~ (2 ~ 1) = 7
    assert_eq!(yard_parser.parse_next("8~2~1").finish(), Ok(7));
}

#[test]
fn shunting_yard_folds_a_left_chain_from_the_left() {
    // ((20 - 5) - 4) - 1 = 10, not 20 - (5 - (4 - 1)) = 18
    assert_eq!(yard_parser.parse_next("20-5-4-1").finish(), Ok(10));
    assert_eq!(yard_parser.parse_next("7").finish(), Ok(7));
}

#[test]
fn shunting_yard_folds_a_right_chain_from_the_right() {
    // 64 ~ (2 ~ (8 ~ 1)) = 69, not ((64 ~ 2) ~ 8) ~ 1 = 53
    assert_eq!(yard_parser.parse_next("64~2~8~1").finish(), Ok(69));
}
