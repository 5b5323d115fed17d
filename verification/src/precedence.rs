//! Parsing of expressions by operator precedence, with operators given as tuples
//!
//! A prefix or postfix operator is a binding power and a function applied to its operand; an
//! infix operator is a left power, a right power and a function applied to both operands.
//! The parse follows the same rules as [`expression`][crate::expression::expression].
use core::marker::PhantomData;
use vstd::prelude::*;
use crate::error::{ErrMode, ParseError};
use crate::expression::{opt_int, BinaryOp, Expression, UnaryOp};
use crate::input::Input;
use crate::parser::Parser;

verus! {

impl<I, O, E, F: Fn(I, O) -> O> UnaryOp<I, O, E> for (usize, F) {
    open spec fn power(&self) -> int {
        self.0 as int
    }

    open spec fn apply_req(&self, i: I, o: O) -> bool {
        call_requires(self.1, (i, o))
    }

    open spec fn apply_rel(&self, i: I, o: O, r: Result<O, ErrMode<E>>) -> bool {
        r matches Ok(v) && call_ensures(self.1, (i, o), v)
    }

    fn binding_power(&self) -> (p: i128) {
        self.0 as i128
    }

    fn apply(&self, i: I, o: O) -> (r: Result<O, ErrMode<E>>) {
        Ok((self.1)(i, o))
    }
}

impl<I, O, E, F: Fn(I, O, O) -> O> BinaryOp<I, O, E> for (usize, usize, F) {
    open spec fn left(&self) -> int {
        self.0 as int
    }

    open spec fn right(&self) -> int {
        self.1 as int
    }

    open spec fn neither(&self) -> Option<int> {
        None
    }

    open spec fn apply_req(&self, i: I, a: O, b: O) -> bool {
        call_requires(self.2, (i, a, b))
    }

    open spec fn apply_rel(&self, i: I, a: O, b: O, r: Result<O, ErrMode<E>>) -> bool {
        r matches Ok(v) && call_ensures(self.2, (i, a, b), v)
    }

    fn powers(&self) -> (r: (i128, i128, Option<i128>)) {
        let r: (i128, i128, Option<i128>) = (self.0 as i128, self.1 as i128, None);
        assert(opt_int(r.2) == None::<int>);
        r
    }

    fn apply(&self, i: I, a: O, b: O) -> (r: Result<O, ErrMode<E>>) {
        Ok((self.2)(i, a, b))
    }
}

/// Parses an expression based on operator precedence.
///
/// Operators are recognized by `prefix`, `postfix` and `infix`; the whole expression is parsed
/// with binding power 0.
pub fn precedence<I, O, E, Pop, Pre, Post, Pix, PreF, PostF, InF>(
    operand: Pop,
    prefix: Pre,
    postfix: Post,
    infix: Pix,
) -> (r: Expression<I, O, E, Pop, Pre, Post, Pix, (usize, PreF), (usize, PostF), (usize, usize, InF)>) where
    I: Input,
    E: ParseError<I>,
    Pop: Parser<I, O, E>,
    Pre: Parser<I, (usize, PreF), E>,
    Post: Parser<I, (usize, PostF), E>,
    Pix: Parser<I, (usize, usize, InF), E>,
    PreF: Fn(I, O) -> O,
    PostF: Fn(I, O) -> O,
    InF: Fn(I, O, O) -> O,

    ensures
        r.start_power == 0,
        r.parse_operand == operand,
        r.parse_prefix == prefix,
        r.parse_postfix == postfix,
        r.parse_infix == infix,
{
    Expression {
        start_power: 0,
        parse_operand: operand,
        parse_prefix: prefix,
        parse_postfix: postfix,
        parse_infix: infix,
        phantom: PhantomData,
    }
}

} // verus!
