//! Parsing of expressions by operator precedence (Pratt parsing)
//!
//! An expression is an operand, or a prefix operator followed by an expression, followed by
//! any number of postfix operators and of infix operators each followed by an expression.
//! Binding powers decide how deep each operator reaches. Progress is checked: a prefix
//! operator, and each step of postfix or infix operators, must consume input, and nesting is
//! bounded by twice the input length plus two; breaking either rule, which would otherwise
//! recurse or loop forever, is a fatal [`ErrorKind::Verify`] error.
use core::marker::PhantomData;
use vstd::prelude::*;
use crate::error::{ErrMode, ErrorKind, ParseError};
use crate::input::Input;
use crate::parser::{IResult, Parser};

verus! {

/// A prefix operator: its binding power and the function applying it to its operand
#[derive(Clone, Copy)]
pub struct Prefix<F>(pub i64, pub F);

/// A postfix operator: its binding power and the function applying it to its operand
#[derive(Clone, Copy)]
pub struct Postfix<F>(pub i64, pub F);

/// An infix operator, by associativity, with its binding power and the function applying
/// it to its two operands
#[derive(Clone, Copy)]
pub enum Infix<F> {
    /// Left-associative: `a op b op c` is `(a op b) op c`
    Left(i64, F),
    /// Right-associative: `a op b op c` is `a op (b op c)`
    Right(i64, F),
    /// Non-associative: `a op b op c` stops after `a op b`
    Neither(i64, F),
}

/// An operator taking one operand: a prefix or a postfix operator
pub trait UnaryOp<I, O, E>: Sized {
    /// The binding power of the operator
    spec fn power(&self) -> int;

    /// What applying the operator at `i` to `o` needs
    spec fn apply_req(&self, i: I, o: O) -> bool;

    /// The results applying the operator at `i` to `o` may give
    spec fn apply_rel(&self, i: I, o: O, r: Result<O, ErrMode<E>>) -> bool;

    /// The binding power of the operator
    fn binding_power(&self) -> (p: i128)
        ensures
            p == self.power(),
    ;

    /// Applies the operator at `i` to `o`
    fn apply(&self, i: I, o: O) -> (r: Result<O, ErrMode<E>>)
        requires
            self.apply_req(i, o),
        ensures
            self.apply_rel(i, o, r),
    ;
}

/// An operator taking two operands
pub trait BinaryOp<I, O, E>: Sized {
    /// The binding power on the left of the operator
    spec fn left(&self) -> int;

    /// The binding power its right operand is parsed with
    spec fn right(&self) -> int;

    /// The power that stops a following operator of the same power, for a non-associative
    /// operator
    spec fn neither(&self) -> Option<int>;

    /// What applying the operator at `i` to `a` and `b` needs
    spec fn apply_req(&self, i: I, a: O, b: O) -> bool;

    /// The results applying the operator at `i` to `a` and `b` may give
    spec fn apply_rel(&self, i: I, a: O, b: O, r: Result<O, ErrMode<E>>) -> bool;

    /// The left power, the right power and the non-associative power of the operator
    fn powers(&self) -> (r: (i128, i128, Option<i128>))
        ensures
            r.0 == self.left(),
            r.1 == self.right(),
            opt_int(r.2) == self.neither(),
    ;

    /// Applies the operator at `i` to `a` and `b`
    fn apply(&self, i: I, a: O, b: O) -> (r: Result<O, ErrMode<E>>)
        requires
            self.apply_req(i, a, b),
        ensures
            self.apply_rel(i, a, b, r),
    ;
}

impl<I, O, E, F: Fn(I, O) -> Result<O, ErrMode<E>>> UnaryOp<I, O, E> for Prefix<F> {
    open spec fn power(&self) -> int {
        self.0 as int
    }

    open spec fn apply_req(&self, i: I, o: O) -> bool {
        call_requires(self.1, (i, o))
    }

    open spec fn apply_rel(&self, i: I, o: O, r: Result<O, ErrMode<E>>) -> bool {
        call_ensures(self.1, (i, o), r)
    }

    fn binding_power(&self) -> (p: i128) {
        self.0 as i128
    }

    fn apply(&self, i: I, o: O) -> (r: Result<O, ErrMode<E>>) {
        (self.1)(i, o)
    }
}

impl<I, O, E, F: Fn(I, O) -> Result<O, ErrMode<E>>> UnaryOp<I, O, E> for Postfix<F> {
    open spec fn power(&self) -> int {
        self.0 as int
    }

    open spec fn apply_req(&self, i: I, o: O) -> bool {
        call_requires(self.1, (i, o))
    }

    open spec fn apply_rel(&self, i: I, o: O, r: Result<O, ErrMode<E>>) -> bool {
        call_ensures(self.1, (i, o), r)
    }

    fn binding_power(&self) -> (p: i128) {
        self.0 as i128
    }

    fn apply(&self, i: I, o: O) -> (r: Result<O, ErrMode<E>>) {
        (self.1)(i, o)
    }
}

impl<I, O, E, F: Fn(I, O, O) -> Result<O, ErrMode<E>>> BinaryOp<I, O, E> for Infix<F> {
    open spec fn left(&self) -> int {
        match self {
            Infix::Left(p, _) => *p as int,
            Infix::Right(p, _) => *p as int,
            Infix::Neither(p, _) => *p as int,
        }
    }

    open spec fn right(&self) -> int {
        match self {
            Infix::Left(p, _) => *p + 1,
            Infix::Right(p, _) => *p - 1,
            Infix::Neither(p, _) => *p + 1,
        }
    }

    open spec fn neither(&self) -> Option<int> {
        match self {
            Infix::Neither(p, _) => Some(*p as int),
            _ => None,
        }
    }

    open spec fn apply_req(&self, i: I, a: O, b: O) -> bool {
        match self {
            Infix::Left(_, f) => call_requires(*f, (i, a, b)),
            Infix::Right(_, f) => call_requires(*f, (i, a, b)),
            Infix::Neither(_, f) => call_requires(*f, (i, a, b)),
        }
    }

    open spec fn apply_rel(&self, i: I, a: O, b: O, r: Result<O, ErrMode<E>>) -> bool {
        match self {
            Infix::Left(_, f) => call_ensures(*f, (i, a, b), r),
            Infix::Right(_, f) => call_ensures(*f, (i, a, b), r),
            Infix::Neither(_, f) => call_ensures(*f, (i, a, b), r),
        }
    }

    fn powers(&self) -> (r: (i128, i128, Option<i128>)) {
        match self {
            Infix::Left(p, _) => (*p as i128, *p as i128 + 1, None),
            Infix::Right(p, _) => (*p as i128, *p as i128 - 1, None),
            Infix::Neither(p, _) => (*p as i128, *p as i128 + 1, Some(*p as i128)),
        }
    }

    fn apply(&self, i: I, a: O, b: O) -> (r: Result<O, ErrMode<E>>) {
        match self {
            Infix::Left(_, f) => f(i, a, b),
            Infix::Right(_, f) => f(i, a, b),
            Infix::Neither(_, f) => f(i, a, b),
        }
    }
}

/// The operator type of a [`NoOperator`] parser: it is never produced, and would leave its
/// operand as it is
impl<I, O, E> UnaryOp<I, O, E> for () {
    open spec fn power(&self) -> int {
        0
    }

    open spec fn apply_req(&self, i: I, o: O) -> bool {
        true
    }

    open spec fn apply_rel(&self, i: I, o: O, r: Result<O, ErrMode<E>>) -> bool {
        r == Ok::<O, ErrMode<E>>(o)
    }

    fn binding_power(&self) -> (p: i128) {
        0
    }

    fn apply(&self, i: I, o: O) -> (r: Result<O, ErrMode<E>>) {
        Ok(o)
    }
}

/// The operator type of a [`NoOperator`] parser: it is never produced, and would keep its
/// left operand
impl<I, O, E> BinaryOp<I, O, E> for () {
    open spec fn left(&self) -> int {
        0
    }

    open spec fn right(&self) -> int {
        0
    }

    open spec fn neither(&self) -> Option<int> {
        None
    }

    open spec fn apply_req(&self, i: I, a: O, b: O) -> bool {
        true
    }

    open spec fn apply_rel(&self, i: I, a: O, b: O, r: Result<O, ErrMode<E>>) -> bool {
        r == Ok::<O, ErrMode<E>>(a)
    }

    fn powers(&self) -> (r: (i128, i128, Option<i128>)) {
        let r: (i128, i128, Option<i128>) = (0, 0, None);
        assert(opt_int(r.2) == None::<int>);
        r
    }

    fn apply(&self, i: I, a: O, b: O) -> (r: Result<O, ErrMode<E>>) {
        Ok(a)
    }
}

/// A parser that never recognizes an operator
pub struct NoOperator;

impl<I: Input, O, E: ParseError<I>> Parser<I, O, E> for NoOperator {
    open spec fn parse_req(&self, input: I) -> bool {
        true
    }

    open spec fn parse_rel(&self, input: I, r: IResult<I, O, E>) -> bool {
        r matches Err(ErrMode::Backtrack(e)) && E::from_error_kind_rel(input, ErrorKind::Fail, e)
    }

    fn parse_next(&mut self, input: I) -> (r: IResult<I, O, E>) {
        Err(ErrMode::Backtrack(E::from_error_kind(input, ErrorKind::Fail)))
    }
}

/// Parses an expression based on operator precedence; see [`expression`]
pub struct Expression<I, O, E, Pop, Pre, Post, Pix, PreOp, PostOp, InOp> {
    /// The binding power the whole expression is parsed with
    pub start_power: i64,
    /// The operand parser
    pub parse_operand: Pop,
    /// The prefix operator parser
    pub parse_prefix: Pre,
    /// The postfix operator parser
    pub parse_postfix: Post,
    /// The infix operator parser
    pub parse_infix: Pix,
    /// Marks the types the combinator works with
    pub phantom: PhantomData<(I, O, E, PreOp, PostOp, InOp)>,
}

/// Parses an expression based on operator precedence.
///
/// With no operators added, this parses an operand alone.
pub fn expression<I, O, E, Pop>(start_power: i64, parse_operand: Pop) -> (r: Expression<
    I,
    O,
    E,
    Pop,
    NoOperator,
    NoOperator,
    NoOperator,
    (),
    (),
    (),
>) where I: Input, Pop: Parser<I, O, E>, E: ParseError<I>
    ensures
        r.start_power == start_power,
        r.parse_operand == parse_operand,
{
    Expression {
        start_power,
        parse_operand,
        parse_prefix: NoOperator,
        parse_postfix: NoOperator,
        parse_infix: NoOperator,
        phantom: PhantomData,
    }
}

impl<I, O, E, Pop, Pre, Post, Pix, PreOp, PostOp, InOp> Expression<
    I,
    O,
    E,
    Pop,
    Pre,
    Post,
    Pix,
    PreOp,
    PostOp,
    InOp,
> {
    /// Sets the prefix operator parser
    pub fn prefix<NewPre, NewPreOp>(self, parser: NewPre) -> (r: Expression<
        I,
        O,
        E,
        Pop,
        NewPre,
        Post,
        Pix,
        NewPreOp,
        PostOp,
        InOp,
    >)
        ensures
            r.start_power == self.start_power,
            r.parse_operand == self.parse_operand,
            r.parse_prefix == parser,
            r.parse_postfix == self.parse_postfix,
            r.parse_infix == self.parse_infix,
    {
        Expression {
            start_power: self.start_power,
            parse_operand: self.parse_operand,
            parse_prefix: parser,
            parse_postfix: self.parse_postfix,
            parse_infix: self.parse_infix,
            phantom: PhantomData,
        }
    }

    /// Sets the postfix operator parser
    pub fn postfix<NewPost, NewPostOp>(self, parser: NewPost) -> (r: Expression<
        I,
        O,
        E,
        Pop,
        Pre,
        NewPost,
        Pix,
        PreOp,
        NewPostOp,
        InOp,
    >)
        ensures
            r.start_power == self.start_power,
            r.parse_operand == self.parse_operand,
            r.parse_prefix == self.parse_prefix,
            r.parse_postfix == parser,
            r.parse_infix == self.parse_infix,
    {
        Expression {
            start_power: self.start_power,
            parse_operand: self.parse_operand,
            parse_prefix: self.parse_prefix,
            parse_postfix: parser,
            parse_infix: self.parse_infix,
            phantom: PhantomData,
        }
    }

    /// Sets the infix operator parser
    pub fn infix<NewPix, NewInOp>(self, parser: NewPix) -> (r: Expression<
        I,
        O,
        E,
        Pop,
        Pre,
        Post,
        NewPix,
        PreOp,
        PostOp,
        NewInOp,
    >)
        ensures
            r.start_power == self.start_power,
            r.parse_operand == self.parse_operand,
            r.parse_prefix == self.parse_prefix,
            r.parse_postfix == self.parse_postfix,
            r.parse_infix == parser,
    {
        Expression {
            start_power: self.start_power,
            parse_operand: self.parse_operand,
            parse_prefix: self.parse_prefix,
            parse_postfix: self.parse_postfix,
            parse_infix: parser,
            phantom: PhantomData,
        }
    }
}

/// `r` is a fatal [`ErrorKind::Verify`] error at `at`: the progress rule was broken.
pub open spec fn stuck<I, O, E: ParseError<I>>(at: I, r: IResult<I, O, E>) -> bool {
    r matches Err(ErrMode::Cut(e)) && E::from_error_kind_rel(at, ErrorKind::Verify, e)
}

/// The successful result leaving `i` with output `o`
pub open spec fn ok_result<I, O, E>(i: I, o: O) -> IResult<I, O, E> {
    Ok((i, o))
}

/// The results of parsing an expression with binding power `min_power` from `i`, with
/// `fuel` levels of nesting left: an operand, or a prefix operator and what follows it,
/// then what [`expr_loop_rel`] continues with.
pub open spec fn expr_rel<I, O, E, Pop, Pre, Post, Pix, PreOp, PostOp, InOp>(
    x: Expression<I, O, E, Pop, Pre, Post, Pix, PreOp, PostOp, InOp>,
    fuel: nat,
    i: I,
    min_power: int,
    r: IResult<I, O, E>,
) -> bool where
    I: Input,
    E: ParseError<I>,
    Pop: Parser<I, O, E>,
    Pre: Parser<I, PreOp, E>,
    Post: Parser<I, PostOp, E>,
    Pix: Parser<I, InOp, E>,
    PreOp: UnaryOp<I, O, E>,
    PostOp: UnaryOp<I, O, E>,
    InOp: BinaryOp<I, O, E>,

    decreases fuel, 3int, 0int, 0int,
{
    if fuel == 0 {
        stuck(i, r)
    } else {
        ||| exists|i1: I, o: O|
            #![trigger x.parse_operand.parse_rel(i, Ok((i1, o)))]
            x.parse_operand.parse_rel(i, Ok((i1, o))) && expr_loop_rel(
                x,
                fuel,
                o,
                i1,
                min_power,
                None,
                r,
            )
        ||| (r is Err && x.parse_operand.parse_rel(i, r) && !(r->Err_0 is Backtrack))
        ||| ((exists|e: E| #[trigger] x.parse_operand.parse_rel(i, Err(ErrMode::Backtrack(e))))
            && prefix_rel(x, fuel, i, min_power, r))
    }
}

/// The results of an expression that starts with a prefix operator at `i`.
///
/// The operator must consume; its operand is an expression of the operator's power, to which
/// the operator's function is applied before continuing with [`expr_loop_rel`].
pub open spec fn prefix_rel<I, O, E, Pop, Pre, Post, Pix, PreOp, PostOp, InOp>(
    x: Expression<I, O, E, Pop, Pre, Post, Pix, PreOp, PostOp, InOp>,
    fuel: nat,
    i: I,
    min_power: int,
    r: IResult<I, O, E>,
) -> bool where
    I: Input,
    E: ParseError<I>,
    Pop: Parser<I, O, E>,
    Pre: Parser<I, PreOp, E>,
    Post: Parser<I, PostOp, E>,
    Pix: Parser<I, InOp, E>,
    PreOp: UnaryOp<I, O, E>,
    PostOp: UnaryOp<I, O, E>,
    InOp: BinaryOp<I, O, E>,

    decreases fuel, 2int, 0int, 0int,
{
    ||| (r is Err && x.parse_prefix.parse_rel(i, Err(r->Err_0)))
    ||| exists|i1: I, op: PreOp|
        #![trigger x.parse_prefix.parse_rel(i, Ok((i1, op)))]
        x.parse_prefix.parse_rel(i, Ok((i1, op))) && ((i1.tokens().len()
            >= i.tokens().len() && stuck(i1, r)) || (i1.tokens().len() < i.tokens().len()
            && fuel >= 1 && ((r is Err && expr_rel(x, (fuel - 1) as nat, i1, op.power(), r))
            || exists|i2: I, o: O|
                #![trigger ok_result::<I, O, E>(i2, o)]
                expr_rel(x, (fuel - 1) as nat, i1, op.power(), ok_result(i2, o)) && apply_rel(
                    x,
                    fuel,
                    op,
                    i2,
                    o,
                    min_power,
                    r,
                ))))
}

/// The results of applying a prefix operator's function `f` at `i2` to `o`, then continuing
/// with [`expr_loop_rel`].
pub open spec fn apply_rel<I, O, E, Pop, Pre, Post, Pix, PreOp, PostOp, InOp>(
    x: Expression<I, O, E, Pop, Pre, Post, Pix, PreOp, PostOp, InOp>,
    fuel: nat,
    op: PreOp,
    i2: I,
    o: O,
    min_power: int,
    r: IResult<I, O, E>,
) -> bool where
    I: Input,
    E: ParseError<I>,
    Pop: Parser<I, O, E>,
    Pre: Parser<I, PreOp, E>,
    Post: Parser<I, PostOp, E>,
    Pix: Parser<I, InOp, E>,
    PreOp: UnaryOp<I, O, E>,
    PostOp: UnaryOp<I, O, E>,
    InOp: BinaryOp<I, O, E>,

    decreases fuel, 1int, i2.tokens().len(), 5int,
{
    ||| (r is Err && op.apply_rel(i2, o, Err(r->Err_0)))
    ||| exists|o2: O|
        #![trigger op.apply_rel(i2, o, Ok(o2))]
        op.apply_rel(i2, o, Ok(o2)) && expr_loop_rel(x, fuel, o2, i2, min_power, None, r)
}

/// The results of continuing an expression, whose parsed part so far is `operand`, from
/// `i` with binding power `min_power`; `prev` is the power of a preceding non-associative
/// operator.
///
/// At the end of the input the operand is returned; otherwise a postfix operator is tried,
/// then an infix one, and the operand is returned when neither applies.
pub open spec fn expr_loop_rel<I, O, E, Pop, Pre, Post, Pix, PreOp, PostOp, InOp>(
    x: Expression<I, O, E, Pop, Pre, Post, Pix, PreOp, PostOp, InOp>,
    fuel: nat,
    operand: O,
    i: I,
    min_power: int,
    prev: Option<int>,
    r: IResult<I, O, E>,
) -> bool where
    I: Input,
    E: ParseError<I>,
    Pop: Parser<I, O, E>,
    Pre: Parser<I, PreOp, E>,
    Post: Parser<I, PostOp, E>,
    Pix: Parser<I, InOp, E>,
    PreOp: UnaryOp<I, O, E>,
    PostOp: UnaryOp<I, O, E>,
    InOp: BinaryOp<I, O, E>,

    decreases fuel, 1int, i.tokens().len(), 4int,
{
    if i.tokens().len() == 0 {
        r == Ok::<(I, O), ErrMode<E>>((i, operand))
    } else {
        ||| (r is Err && x.parse_postfix.parse_rel(i, Err(r->Err_0)) && !(r->Err_0 is Backtrack))
        ||| exists|i1: I, op: PostOp|
            #![trigger x.parse_postfix.parse_rel(i, Ok((i1, op)))]
            x.parse_postfix.parse_rel(i, Ok((i1, op))) && postfix_rel(
                x,
                fuel,
                operand,
                i,
                i1,
                op,
                min_power,
                prev,
                r,
            )
        ||| ((exists|e: E| #[trigger] x.parse_postfix.parse_rel(i, Err(ErrMode::Backtrack(e))))
            && infix_rel(x, fuel, operand, i, min_power, prev, r))
    }
}

/// The results once the postfix operator `op` was recognized at `i`, leaving `i1`: a power below `min_power` ends the expression before the operator;
/// otherwise the operator must consume, and its function is applied.
pub open spec fn postfix_rel<I, O, E, Pop, Pre, Post, Pix, PreOp, PostOp, InOp>(
    x: Expression<I, O, E, Pop, Pre, Post, Pix, PreOp, PostOp, InOp>,
    fuel: nat,
    operand: O,
    i: I,
    i1: I,
    op: PostOp,
    min_power: int,
    prev: Option<int>,
    r: IResult<I, O, E>,
) -> bool where
    I: Input,
    E: ParseError<I>,
    Pop: Parser<I, O, E>,
    Pre: Parser<I, PreOp, E>,
    Post: Parser<I, PostOp, E>,
    Pix: Parser<I, InOp, E>,
    PreOp: UnaryOp<I, O, E>,
    PostOp: UnaryOp<I, O, E>,
    InOp: BinaryOp<I, O, E>,

    decreases fuel, 1int, i.tokens().len(), 3int,
{
    if op.power() < min_power {
        r == Ok::<(I, O), ErrMode<E>>((i, operand))
    } else if i1.tokens().len() >= i.tokens().len() {
        stuck(i1, r)
    } else {
        ||| (r is Err && op.apply_rel(i1, operand, Err(r->Err_0)))
        ||| exists|o2: O|
            #![trigger op.apply_rel(i1, operand, Ok(o2))]
            op.apply_rel(i1, operand, Ok(o2)) && expr_loop_rel(
                x,
                fuel,
                o2,
                i1,
                min_power,
                prev,
                r,
            )
    }
}

/// The results of trying an infix operator at `i` after `operand`; see [`expr_loop_rel`].
pub open spec fn infix_rel<I, O, E, Pop, Pre, Post, Pix, PreOp, PostOp, InOp>(
    x: Expression<I, O, E, Pop, Pre, Post, Pix, PreOp, PostOp, InOp>,
    fuel: nat,
    operand: O,
    i: I,
    min_power: int,
    prev: Option<int>,
    r: IResult<I, O, E>,
) -> bool where
    I: Input,
    E: ParseError<I>,
    Pop: Parser<I, O, E>,
    Pre: Parser<I, PreOp, E>,
    Post: Parser<I, PostOp, E>,
    Pix: Parser<I, InOp, E>,
    PreOp: UnaryOp<I, O, E>,
    PostOp: UnaryOp<I, O, E>,
    InOp: BinaryOp<I, O, E>,

    decreases fuel, 1int, i.tokens().len(), 3int,
{
    ||| (r is Err && x.parse_infix.parse_rel(i, Err(r->Err_0)) && !(r->Err_0 is Backtrack))
    ||| ((exists|e: E| #[trigger] x.parse_infix.parse_rel(i, Err(ErrMode::Backtrack(e)))) && r
        == Ok::<(I, O), ErrMode<E>>((i, operand)))
    ||| exists|i1: I, op: InOp|
        #![trigger x.parse_infix.parse_rel(i, Ok((i1, op)))]
        x.parse_infix.parse_rel(i, Ok((i1, op))) && infix_taken_rel(
            x,
            fuel,
            operand,
            i,
            i1,
            op,
            min_power,
            prev,
            r,
        )
}

/// Whether an infix operator `op` ends the expression before it: its power is below
/// `min_power`, or it repeats a preceding non-associative operator's power.
pub open spec fn infix_stops<I, O, E, Op: BinaryOp<I, O, E>>(op: Op, min_power: int, prev: Option<int>) -> bool {
    op.left() < min_power || prev == Some(op.left())
}

/// The results once the infix operator `op` was recognized at `i`, leaving `i1`: unless it
/// ends the expression, its right operand is an expression of its right power, parsed from
/// `i1` with one level of nesting less.
pub open spec fn infix_taken_rel<I, O, E, Pop, Pre, Post, Pix, PreOp, PostOp, InOp>(
    x: Expression<I, O, E, Pop, Pre, Post, Pix, PreOp, PostOp, InOp>,
    fuel: nat,
    operand: O,
    i: I,
    i1: I,
    op: InOp,
    min_power: int,
    prev: Option<int>,
    r: IResult<I, O, E>,
) -> bool where
    I: Input,
    E: ParseError<I>,
    Pop: Parser<I, O, E>,
    Pre: Parser<I, PreOp, E>,
    Post: Parser<I, PostOp, E>,
    Pix: Parser<I, InOp, E>,
    PreOp: UnaryOp<I, O, E>,
    PostOp: UnaryOp<I, O, E>,
    InOp: BinaryOp<I, O, E>,

    decreases fuel, 1int, i.tokens().len(), 2int,
{
    if infix_stops::<I, O, E, InOp>(op, min_power, prev) {
        r == Ok::<(I, O), ErrMode<E>>((i, operand))
    } else {
        fuel >= 1 && ((r is Err && expr_rel(x, (fuel - 1) as nat, i1, op.right(), r))
            || exists|i2: I, rhs: O|
                #![trigger ok_result::<I, O, E>(i2, rhs)]
                expr_rel(x, (fuel - 1) as nat, i1, op.right(), ok_result(i2, rhs)) && combine_rel(
                    x,
                    fuel,
                    operand,
                    i,
                    i2,
                    rhs,
                    op,
                    min_power,
                    r,
                ))
    }
}

/// The results once the right operand `rhs` of the infix operator `op` was parsed, leaving
/// `i2`: the whole step must consume, then the operator's function combines the operands and
/// the expression continues.
pub open spec fn combine_rel<I, O, E, Pop, Pre, Post, Pix, PreOp, PostOp, InOp>(
    x: Expression<I, O, E, Pop, Pre, Post, Pix, PreOp, PostOp, InOp>,
    fuel: nat,
    operand: O,
    i: I,
    i2: I,
    rhs: O,
    op: InOp,
    min_power: int,
    r: IResult<I, O, E>,
) -> bool where
    I: Input,
    E: ParseError<I>,
    Pop: Parser<I, O, E>,
    Pre: Parser<I, PreOp, E>,
    Post: Parser<I, PostOp, E>,
    Pix: Parser<I, InOp, E>,
    PreOp: UnaryOp<I, O, E>,
    PostOp: UnaryOp<I, O, E>,
    InOp: BinaryOp<I, O, E>,

    decreases fuel, 1int, i.tokens().len(), 1int,
{
    if i2.tokens().len() >= i.tokens().len() {
        stuck(i2, r)
    } else {
        ||| (r is Err && op.apply_rel(i2, operand, rhs, Err(r->Err_0)))
        ||| exists|o3: O|
            #![trigger op.apply_rel(i2, operand, rhs, Ok(o3))]
            op.apply_rel(i2, operand, rhs, Ok(o3)) && expr_loop_rel(
                x,
                fuel,
                o3,
                i2,
                min_power,
                op.neither(),
                r,
            )
    }
}

/// What an expression parser needs: its parsers can run anywhere and its operator functions
/// accept anything.
pub open spec fn expr_req<I, O, E, Pop, Pre, Post, Pix, PreOp, PostOp, InOp>(
    x: Expression<I, O, E, Pop, Pre, Post, Pix, PreOp, PostOp, InOp>,
) -> bool where
    I: Input,
    E: ParseError<I>,
    Pop: Parser<I, O, E>,
    Pre: Parser<I, PreOp, E>,
    Post: Parser<I, PostOp, E>,
    Pix: Parser<I, InOp, E>,
    PreOp: UnaryOp<I, O, E>,
    PostOp: UnaryOp<I, O, E>,
    InOp: BinaryOp<I, O, E>,
{
    &&& forall|i: I| #[trigger] x.parse_operand.parse_req(i)
    &&& forall|i: I| #[trigger] x.parse_prefix.parse_req(i)
    &&& forall|i: I| #[trigger] x.parse_postfix.parse_req(i)
    &&& forall|i: I| #[trigger] x.parse_infix.parse_req(i)
    &&& forall|op: PreOp, i: I, o: O| #[trigger] op.apply_req(i, o)
    &&& forall|op: PostOp, i: I, o: O| #[trigger] op.apply_req(i, o)
    &&& forall|op: InOp, i: I, a: O, b: O| #[trigger] op.apply_req(i, a, b)
}

/// The power of a preceding non-associative operator, as an integer
pub open spec fn opt_int(p: Option<i128>) -> Option<int> {
    match p {
        Some(v) => Some(v as int),
        None => None,
    }
}

/// What one step of continuing an expression leads to: the result, or the state to continue
/// from (the remaining input, the parsed part and the power of a preceding non-associative
/// operator).
enum Step<I, O, E> {
    Done(IResult<I, O, E>),
    Continue(I, O, Option<i128>),
}

/// Parses an expression with binding power `min_power` from `i`.
fn expression_impl<I, O, E, Pop, Pre, Post, Pix, PreOp, PostOp, InOp>(
    x: &mut Expression<I, O, E, Pop, Pre, Post, Pix, PreOp, PostOp, InOp>,
    i: I,
    min_power: i128,
    fuel: usize,
) -> (r: IResult<I, O, E>) where
    I: Input,
    E: ParseError<I>,
    Pop: Parser<I, O, E>,
    Pre: Parser<I, PreOp, E>,
    Post: Parser<I, PostOp, E>,
    Pix: Parser<I, InOp, E>,
    PreOp: UnaryOp<I, O, E>,
    PostOp: UnaryOp<I, O, E>,
    InOp: BinaryOp<I, O, E>,

    requires
        expr_req(*old(x)),
    ensures
        expr_rel(*old(x), fuel as nat, i, min_power as int, r),
        *final(x) == *old(x),
    decreases fuel, 4int,
{
    let ghost x0 = *x;
    if fuel == 0 {
        return Err(ErrMode::Cut(E::from_error_kind(i, ErrorKind::Verify)));
    }
    match x.parse_operand.parse_next(i) {
        Ok((i1, o)) => {
            assert(x0.parse_operand.parse_rel(i, Ok((i1, o))));
            expression_loop(x, i1, o, min_power, fuel)
        },
        Err(ErrMode::Backtrack(e)) => {
            assert(x0.parse_operand.parse_rel(i, Err(ErrMode::Backtrack(e))));
            prefix_step(x, i, min_power, fuel)
        },
        Err(e) => Err(e),
    }
}

/// Parses an expression that starts with a prefix operator at `i`.
fn prefix_step<I, O, E, Pop, Pre, Post, Pix, PreOp, PostOp, InOp>(
    x: &mut Expression<I, O, E, Pop, Pre, Post, Pix, PreOp, PostOp, InOp>,
    i: I,
    min_power: i128,
    fuel: usize,
) -> (r: IResult<I, O, E>) where
    I: Input,
    E: ParseError<I>,
    Pop: Parser<I, O, E>,
    Pre: Parser<I, PreOp, E>,
    Post: Parser<I, PostOp, E>,
    Pix: Parser<I, InOp, E>,
    PreOp: UnaryOp<I, O, E>,
    PostOp: UnaryOp<I, O, E>,
    InOp: BinaryOp<I, O, E>,

    requires
        expr_req(*old(x)),
        fuel >= 1,
    ensures
        prefix_rel(*old(x), fuel as nat, i, min_power as int, r),
        *final(x) == *old(x),
    decreases fuel, 3int,
{
    let ghost x0 = *x;
    let len = i.token_count();
    let (i1, pre) = match x.parse_prefix.parse_next(i) {
        Ok(v) => v,
        Err(e2) => {
            return Err(e2);
        },
    };
    let op = pre;
    assert(x0.parse_prefix.parse_rel(i, Ok((i1, op))));
    let p = op.binding_power();
    if i1.token_count() >= len {
        return Err(ErrMode::Cut(E::from_error_kind(i1, ErrorKind::Verify)));
    }
    let ghost fuel2: nat = (fuel - 1) as nat;
    let (i2, o) = match expression_impl(x, i1, p, fuel - 1) {
        Ok(v) => v,
        Err(e3) => {
            let r: IResult<I, O, E> = Err(e3);
            assert(expr_rel(x0, fuel2, i1, p as int, r));
            return r;
        },
    };
    assert(expr_rel(x0, fuel2, i1, p as int, ok_result(i2, o)));
    let ghost go = o;
    match op.apply(i2, o) {
        Ok(o2) => {
            assert(op.apply_rel(i2, go, Ok(o2)));
            let r = expression_loop(x, i2, o2, min_power, fuel);
            assert(apply_rel(x0, fuel as nat, op, i2, go, min_power as int, r));
            r
        },
        Err(e4) => {
            let r: IResult<I, O, E> = Err(e4);
            assert(op.apply_rel(i2, go, Err(e4)));
            assert(apply_rel(x0, fuel as nat, op, i2, go, min_power as int, r));
            r
        },
    }
}

/// Continues an expression whose parsed part so far is `operand`, from `i`.
fn expression_loop<I, O, E, Pop, Pre, Post, Pix, PreOp, PostOp, InOp>(
    x: &mut Expression<I, O, E, Pop, Pre, Post, Pix, PreOp, PostOp, InOp>,
    i: I,
    operand: O,
    min_power: i128,
    fuel: usize,
) -> (r: IResult<I, O, E>) where
    I: Input,
    E: ParseError<I>,
    Pop: Parser<I, O, E>,
    Pre: Parser<I, PreOp, E>,
    Post: Parser<I, PostOp, E>,
    Pix: Parser<I, InOp, E>,
    PreOp: UnaryOp<I, O, E>,
    PostOp: UnaryOp<I, O, E>,
    InOp: BinaryOp<I, O, E>,

    requires
        expr_req(*old(x)),
        fuel >= 1,
    ensures
        expr_loop_rel(*old(x), fuel as nat, operand, i, min_power as int, None, r),
        *final(x) == *old(x),
    decreases fuel, 2int,
{
    let ghost x0 = *x;
    let mut cur = i;
    let mut value = operand;
    let mut prev: Option<i128> = None;
    loop
        invariant
            *x == x0,
            x0 == *old(x),
            expr_req(x0),
            fuel >= 1,
            forall|r: IResult<I, O, E>|
                #[trigger] expr_loop_rel(x0, fuel as nat, value, cur, min_power as int, opt_int(prev), r)
                    ==> expr_loop_rel(x0, fuel as nat, operand, i, min_power as int, None, r),
        decreases cur.tokens().len(),
    {
        let ghost gop = value;
        match loop_step(x, cur, value, min_power, prev, fuel) {
            Step::Done(r) => {
                assert(expr_loop_rel(x0, fuel as nat, gop, cur, min_power as int, opt_int(prev), r));
                return r;
            },
            Step::Continue(c2, o2, p2) => {
                cur = c2;
                value = o2;
                prev = p2;
            },
        }
    }
}

/// One step of continuing an expression: a postfix operator, else an infix operator.
fn loop_step<I, O, E, Pop, Pre, Post, Pix, PreOp, PostOp, InOp>(
    x: &mut Expression<I, O, E, Pop, Pre, Post, Pix, PreOp, PostOp, InOp>,
    cur: I,
    operand: O,
    min_power: i128,
    prev: Option<i128>,
    fuel: usize,
) -> (s: Step<I, O, E>) where
    I: Input,
    E: ParseError<I>,
    Pop: Parser<I, O, E>,
    Pre: Parser<I, PreOp, E>,
    Post: Parser<I, PostOp, E>,
    Pix: Parser<I, InOp, E>,
    PreOp: UnaryOp<I, O, E>,
    PostOp: UnaryOp<I, O, E>,
    InOp: BinaryOp<I, O, E>,

    requires
        expr_req(*old(x)),
        fuel >= 1,
    ensures
        *final(x) == *old(x),
        match s {
            Step::Done(r) => expr_loop_rel(*old(x), fuel as nat, operand, cur, min_power as int, opt_int(prev), r),
            Step::Continue(c2, o2, p2) => c2.tokens().len() < cur.tokens().len() && forall|r: IResult<I, O, E>|
                #[trigger] expr_loop_rel(*old(x), fuel as nat, o2, c2, min_power as int, opt_int(p2), r)
                    ==> expr_loop_rel(*old(x), fuel as nat, operand, cur, min_power as int, opt_int(prev), r),
        },
    decreases fuel, 1int,
{
    let ghost x0 = *x;
    let ghost gop = operand;
    let len = cur.token_count();
    if len == 0 {
        return Step::Done(Ok((cur, operand)));
    }
    match x.parse_postfix.parse_next(cur) {
        Err(ErrMode::Backtrack(e)) => {
            assert(x0.parse_postfix.parse_rel(cur, Err(ErrMode::Backtrack(e))));
            let s = infix_step(x, cur, operand, min_power, prev, fuel);
            proof {
                match &s {
                    Step::Done(r) => {
                        assert(infix_rel(x0, fuel as nat, gop, cur, min_power as int, opt_int(prev), *r));
                    },
                    Step::Continue(c2, o2, p2) => {
                        assert forall|r: IResult<I, O, E>|
                            #[trigger] expr_loop_rel(x0, fuel as nat, *o2, *c2, min_power as int, opt_int(*p2), r)
                            implies expr_loop_rel(x0, fuel as nat, gop, cur, min_power as int, opt_int(prev), r) by {
                            assert(infix_rel(x0, fuel as nat, gop, cur, min_power as int, opt_int(prev), r));
                        }
                    },
                }
            }
            s
        },
        Err(e) => Step::Done(Err(e)),
        Ok((i1, post)) => {
            let op = post;
            assert(x0.parse_postfix.parse_rel(cur, Ok((i1, op))));
            let p = op.binding_power();
            if p < min_power {
                let r: IResult<I, O, E> = Ok((cur, operand));
                assert(postfix_rel(x0, fuel as nat, gop, cur, i1, op, min_power as int, opt_int(prev), r));
                return Step::Done(r);
            }
            if i1.token_count() >= len {
                let r: IResult<I, O, E> = Err(ErrMode::Cut(E::from_error_kind(i1, ErrorKind::Verify)));
                assert(postfix_rel(x0, fuel as nat, gop, cur, i1, op, min_power as int, opt_int(prev), r));
                return Step::Done(r);
            }
            match op.apply(i1, operand) {
                Ok(o2) => {
                    assert(op.apply_rel(i1, gop, Ok(o2)));
                    assert forall|r: IResult<I, O, E>|
                        #[trigger] expr_loop_rel(x0, fuel as nat, o2, i1, min_power as int, opt_int(prev), r)
                        implies expr_loop_rel(x0, fuel as nat, gop, cur, min_power as int, opt_int(prev), r) by {
                        assert(postfix_rel(x0, fuel as nat, gop, cur, i1, op, min_power as int, opt_int(prev), r));
                    }
                    Step::Continue(i1, o2, prev)
                },
                Err(e4) => {
                    let r: IResult<I, O, E> = Err(e4);
                    assert(op.apply_rel(i1, gop, Err(e4)));
                    assert(postfix_rel(x0, fuel as nat, gop, cur, i1, op, min_power as int, opt_int(prev), r));
                    Step::Done(r)
                },
            }
        },
    }
}

/// Tries an infix operator at `cur` after `operand`.
fn infix_step<I, O, E, Pop, Pre, Post, Pix, PreOp, PostOp, InOp>(
    x: &mut Expression<I, O, E, Pop, Pre, Post, Pix, PreOp, PostOp, InOp>,
    cur: I,
    operand: O,
    min_power: i128,
    prev: Option<i128>,
    fuel: usize,
) -> (s: Step<I, O, E>) where
    I: Input,
    E: ParseError<I>,
    Pop: Parser<I, O, E>,
    Pre: Parser<I, PreOp, E>,
    Post: Parser<I, PostOp, E>,
    Pix: Parser<I, InOp, E>,
    PreOp: UnaryOp<I, O, E>,
    PostOp: UnaryOp<I, O, E>,
    InOp: BinaryOp<I, O, E>,

    requires
        expr_req(*old(x)),
        fuel >= 1,
    ensures
        *final(x) == *old(x),
        match s {
            Step::Done(r) => infix_rel(*old(x), fuel as nat, operand, cur, min_power as int, opt_int(prev), r),
            Step::Continue(c2, o2, p2) => c2.tokens().len() < cur.tokens().len() && forall|r: IResult<I, O, E>|
                #[trigger] expr_loop_rel(*old(x), fuel as nat, o2, c2, min_power as int, opt_int(p2), r)
                    ==> infix_rel(*old(x), fuel as nat, operand, cur, min_power as int, opt_int(prev), r),
        },
    decreases fuel, 0int,
{
    let ghost x0 = *x;
    let ghost gop = operand;
    let len = cur.token_count();
    match x.parse_infix.parse_next(cur) {
        Err(ErrMode::Backtrack(e2)) => {
            assert(x0.parse_infix.parse_rel(cur, Err(ErrMode::Backtrack(e2))));
            Step::Done(Ok((cur, operand)))
        },
        Err(e2) => Step::Done(Err(e2)),
        Ok((i1, op)) => {
            assert(x0.parse_infix.parse_rel(cur, Ok((i1, op))));
            let ghost gop_infix = op;
            let (lp, rp, nei) = op.powers();
            let stop = match prev {
                Some(pp) => lp < min_power || pp == lp,
                None => lp < min_power,
            };
            if stop {
                let r: IResult<I, O, E> = Ok((cur, operand));
                assert(infix_taken_rel(x0, fuel as nat, gop, cur, i1, gop_infix, min_power as int, opt_int(prev), r));
                return Step::Done(r);
            }
            let ghost fuel2: nat = (fuel - 1) as nat;
            let (i2, rhs) = match expression_impl(x, i1, rp, fuel - 1) {
                Ok(v) => v,
                Err(e3) => {
                    let r: IResult<I, O, E> = Err(e3);
                    assert(expr_rel(x0, fuel2, i1, rp as int, r));
                    assert(infix_taken_rel(x0, fuel as nat, gop, cur, i1, gop_infix, min_power as int, opt_int(prev), r));
                    return Step::Done(r);
                },
            };
            assert(expr_rel(x0, fuel2, i1, rp as int, ok_result(i2, rhs)));
            if i2.token_count() >= len {
                let r: IResult<I, O, E> = Err(ErrMode::Cut(E::from_error_kind(i2, ErrorKind::Verify)));
                assert(combine_rel(x0, fuel as nat, gop, cur, i2, rhs, gop_infix, min_power as int, r));
                assert(infix_taken_rel(x0, fuel as nat, gop, cur, i1, gop_infix, min_power as int, opt_int(prev), r));
                return Step::Done(r);
            }
            let ghost grhs = rhs;
            match op.apply(i2, operand, rhs) {
                Ok(o3) => {
                    assert(op.apply_rel(i2, gop, grhs, Ok(o3)));
                    assert forall|r: IResult<I, O, E>|
                        #[trigger] expr_loop_rel(x0, fuel as nat, o3, i2, min_power as int, opt_int(nei), r)
                        implies infix_rel(x0, fuel as nat, gop, cur, min_power as int, opt_int(prev), r) by {
                        assert(combine_rel(x0, fuel as nat, gop, cur, i2, grhs, gop_infix, min_power as int, r));
                        assert(infix_taken_rel(x0, fuel as nat, gop, cur, i1, gop_infix, min_power as int, opt_int(prev), r));
                    }
                    Step::Continue(i2, o3, nei)
                },
                Err(e4) => {
                    let r: IResult<I, O, E> = Err(e4);
                    assert(op.apply_rel(i2, gop, grhs, Err(e4)));
                    assert(combine_rel(x0, fuel as nat, gop, cur, i2, grhs, gop_infix, min_power as int, r));
                    assert(infix_taken_rel(x0, fuel as nat, gop, cur, i1, gop_infix, min_power as int, opt_int(prev), r));
                    Step::Done(r)
                },
            }
        },
    }
}

/// The levels of nesting an expression parser allows on `input`
pub open spec fn nesting_fuel<I: Input>(input: I) -> nat {
    if 2 * input.tokens().len() + 2 <= usize::MAX {
        (2 * input.tokens().len() + 2) as nat
    } else {
        usize::MAX as nat
    }
}

impl<I, O, E, Pop, Pre, Post, Pix, PreOp, PostOp, InOp> Parser<I, O, E> for Expression<
    I,
    O,
    E,
    Pop,
    Pre,
    Post,
    Pix,
    PreOp,
    PostOp,
    InOp,
> where
    I: Input,
    E: ParseError<I>,
    Pop: Parser<I, O, E>,
    Pre: Parser<I, PreOp, E>,
    Post: Parser<I, PostOp, E>,
    Pix: Parser<I, InOp, E>,
    PreOp: UnaryOp<I, O, E>,
    PostOp: UnaryOp<I, O, E>,
    InOp: BinaryOp<I, O, E>,
 {
    open spec fn parse_req(&self, input: I) -> bool {
        expr_req(*self)
    }

    open spec fn parse_rel(&self, input: I, r: IResult<I, O, E>) -> bool {
        expr_rel(*self, nesting_fuel(input), input, self.start_power as int, r)
    }

    fn parse_next(&mut self, input: I) -> (r: IResult<I, O, E>) {
        let len = input.token_count();
        let fuel = if len <= (usize::MAX - 2) / 2 {
            2 * len + 2
        } else {
            usize::MAX
        };
        let p = self.start_power as i128;
        expression_impl(self, input, p, fuel)
    }
}

/// An expression at `i` whose operand parser gives only `v`, leaving `j`, goes on after `v`.
proof fn lemma_operand_first<I, O, E, Pop, Pre, Post, Pix, PreOp, PostOp, InOp>(
    x: Expression<I, O, E, Pop, Pre, Post, Pix, PreOp, PostOp, InOp>,
    fuel: nat,
    i: I,
    j: I,
    v: O,
    pw: int,
    res: IResult<I, O, E>,
)
    where
        I: Input,
        E: ParseError<I>,
        Pop: Parser<I, O, E>,
        Pre: Parser<I, PreOp, E>,
        Post: Parser<I, PostOp, E>,
        Pix: Parser<I, InOp, E>,
        PreOp: UnaryOp<I, O, E>,
        PostOp: UnaryOp<I, O, E>,
        InOp: BinaryOp<I, O, E>,
    requires
        fuel >= 1,
        forall|res2| #[trigger] x.parse_operand.parse_rel(i, res2) ==> res2 == Ok::<(I, O), ErrMode<E>>((j, v)),
        expr_rel(x, fuel, i, pw, res),
    ensures
        expr_loop_rel(x, fuel, v, j, pw, None, res),
{
}

/// Going on after an operand at `j`, where no postfix operator is found and the infix parser
/// gives only `op`, leaving `k`, is taking `op`.
proof fn lemma_loop_infix<I, O, E, Pop, Pre, Post, Pix, PreOp, PostOp, InOp>(
    x: Expression<I, O, E, Pop, Pre, Post, Pix, PreOp, PostOp, InOp>,
    fuel: nat,
    v: O,
    j: I,
    k: I,
    op: InOp,
    pw: int,
    prev: Option<int>,
    res: IResult<I, O, E>,
)
    where
        I: Input,
        E: ParseError<I>,
        Pop: Parser<I, O, E>,
        Pre: Parser<I, PreOp, E>,
        Post: Parser<I, PostOp, E>,
        Pix: Parser<I, InOp, E>,
        PreOp: UnaryOp<I, O, E>,
        PostOp: UnaryOp<I, O, E>,
        InOp: BinaryOp<I, O, E>,
    requires
        j.tokens().len() > 0,
        forall|i: I, res: IResult<I, PostOp, E>| #[trigger] x.parse_postfix.parse_rel(i, res)
            ==> res is Err && res->Err_0 is Backtrack,
        forall|res2| #[trigger] x.parse_infix.parse_rel(j, res2) ==> res2 == Ok::<(I, InOp), ErrMode<E>>((k, op)),
        expr_loop_rel(x, fuel, v, j, pw, prev, res),
    ensures
        infix_taken_rel(x, fuel, v, j, k, op, pw, prev, res),
{
}

/// Taking an infix operator whose right operand can only be `rhs`, leaving `e`, combines
/// `v` and `rhs` with the operator's function and goes on from `e`.
proof fn lemma_taken_combines<I, O, E, Pop, Pre, Post, Pix, PreOp, PostOp, InOp>(
    x: Expression<I, O, E, Pop, Pre, Post, Pix, PreOp, PostOp, InOp>,
    fuel: nat,
    v: O,
    j: I,
    k: I,
    op: InOp,
    pw: int,
    prev: Option<int>,
    e: I,
    rhs: O,
    h: spec_fn(O, O) -> O,
    res: IResult<I, O, E>,
)
    where
        I: Input,
        E: ParseError<I>,
        Pop: Parser<I, O, E>,
        Pre: Parser<I, PreOp, E>,
        Post: Parser<I, PostOp, E>,
        Pix: Parser<I, InOp, E>,
        PreOp: UnaryOp<I, O, E>,
        PostOp: UnaryOp<I, O, E>,
        InOp: BinaryOp<I, O, E>,
    requires
        !infix_stops::<I, O, E, InOp>(op, pw, prev),
        e.tokens().len() < j.tokens().len(),
        forall|res2| #[trigger] expr_rel(x, (fuel - 1) as nat, k, op.right(), res2) ==> res2 == Ok::<(I, O), ErrMode<E>>((e, rhs)),
        forall|i: I, a: O, b: O, r2: Result<O, ErrMode<E>>| #[trigger] op.apply_rel(i, a, b, r2) ==> r2 == Ok::<O, ErrMode<E>>(h(a, b)),
        infix_taken_rel(x, fuel, v, j, k, op, pw, prev, res),
    ensures
        expr_loop_rel(x, fuel, h(v, rhs), e, pw, op.neither(), res),
{
    if res is Err && expr_rel(x, (fuel - 1) as nat, k, op.right(), res) {
        assert(false);
    } else {
        let (e2, r2) = choose|e2: I, r2: O|
            expr_rel(x, (fuel - 1) as nat, k, op.right(), #[trigger] ok_result::<I, O, E>(e2, r2))
                && combine_rel(x, fuel, v, j, e2, r2, op, pw, res);
        assert(ok_result::<I, O, E>(e2, r2) == Ok::<(I, O), ErrMode<E>>((e, rhs)));
        assert(combine_rel(x, fuel, v, j, e, rhs, op, pw, res));
    }
}

/// `a op1 b op2 c`, read from `i0` up to the end of the input `i5`, groups to the left when
/// `op2` binds less than the right operand of `op1` is parsed with, to the right otherwise.
proof fn lemma_two_infix<I, O, E, Pop, Pre, Post, Pix, PreOp, PostOp, InOp>(
    x: Expression<I, O, E, Pop, Pre, Post, Pix, PreOp, PostOp, InOp>,
    fuel: nat,
    i0: I,
    i1: I,
    i2: I,
    i3: I,
    i4: I,
    i5: I,
    a: O,
    b: O,
    c: O,
    op1: InOp,
    op2: InOp,
    h1: spec_fn(O, O) -> O,
    h2: spec_fn(O, O) -> O,
    s: int,
    r: IResult<I, O, E>,
)
    where
        I: Input,
        E: ParseError<I>,
        Pop: Parser<I, O, E>,
        Pre: Parser<I, PreOp, E>,
        Post: Parser<I, PostOp, E>,
        Pix: Parser<I, InOp, E>,
        PreOp: UnaryOp<I, O, E>,
        PostOp: UnaryOp<I, O, E>,
        InOp: BinaryOp<I, O, E>,
    requires
        fuel >= 3,
        i0.tokens().len() > i1.tokens().len() > i2.tokens().len() > i3.tokens().len()
            > i4.tokens().len() > i5.tokens().len(),
        i5.tokens().len() == 0,
        forall|i: I, res: IResult<I, PostOp, E>| #[trigger] x.parse_postfix.parse_rel(i, res)
            ==> res is Err && res->Err_0 is Backtrack,
        forall|res| #[trigger] x.parse_operand.parse_rel(i0, res) ==> res == Ok::<(I, O), ErrMode<E>>((i1, a)),
        forall|res| #[trigger] x.parse_operand.parse_rel(i2, res) ==> res == Ok::<(I, O), ErrMode<E>>((i3, b)),
        forall|res| #[trigger] x.parse_operand.parse_rel(i4, res) ==> res == Ok::<(I, O), ErrMode<E>>((i5, c)),
        forall|res| #[trigger] x.parse_infix.parse_rel(i1, res) ==> res == Ok::<(I, InOp), ErrMode<E>>((i2, op1)),
        forall|res| #[trigger] x.parse_infix.parse_rel(i3, res) ==> res == Ok::<(I, InOp), ErrMode<E>>((i4, op2)),
        op1.neither() is None,
        op2.neither() is None,
        s <= op1.left(),
        s <= op2.left(),
        forall|i: I, p: O, q: O, r2: Result<O, ErrMode<E>>| #[trigger] op1.apply_rel(i, p, q, r2) ==> r2 == Ok::<O, ErrMode<E>>(h1(p, q)),
        forall|i: I, p: O, q: O, r2: Result<O, ErrMode<E>>| #[trigger] op2.apply_rel(i, p, q, r2) ==> r2 == Ok::<O, ErrMode<E>>(h2(p, q)),
        expr_rel(x, fuel, i0, s, r),
    ensures
        r == Ok::<(I, O), ErrMode<E>>((i5, if op2.left() < op1.right() {
            h2(h1(a, b), c)
        } else {
            h1(a, h2(b, c))
        })),
{
    let f1 = (fuel - 1) as nat;
    let f2 = (fuel - 2) as nat;
    lemma_operand_first(x, fuel, i0, i1, a, s, r);
    lemma_loop_infix(x, fuel, a, i1, i2, op1, s, None, r);
    // the last operand alone, at any power
    assert forall|pw: int, res3| #[trigger] expr_rel(x, f2, i4, pw, res3) implies res3 == Ok::<(I, O), ErrMode<E>>((i5, c)) by {
        lemma_operand_first(x, f2, i4, i5, c, pw, res3);
    }
    assert forall|pw: int, res3| #[trigger] expr_rel(x, f1, i4, pw, res3) implies res3 == Ok::<(I, O), ErrMode<E>>((i5, c)) by {
        lemma_operand_first(x, f1, i4, i5, c, pw, res3);
    }
    if op2.left() < op1.right() {
        assert forall|res2| #[trigger] expr_rel(x, f1, i2, op1.right(), res2) implies res2 == Ok::<(I, O), ErrMode<E>>((i3, b)) by {
            lemma_operand_first(x, f1, i2, i3, b, op1.right(), res2);
            lemma_loop_infix(x, f1, b, i3, i4, op2, op1.right(), None, res2);
        }
        lemma_taken_combines(x, fuel, a, i1, i2, op1, s, None, i3, b, h1, r);
        lemma_loop_infix(x, fuel, h1(a, b), i3, i4, op2, s, None, r);
        lemma_taken_combines(x, fuel, h1(a, b), i3, i4, op2, s, None, i5, c, h2, r);
    } else {
        assert forall|res2| #[trigger] expr_rel(x, f1, i2, op1.right(), res2) implies res2 == Ok::<(I, O), ErrMode<E>>((i5, h2(b, c))) by {
            lemma_operand_first(x, f1, i2, i3, b, op1.right(), res2);
            lemma_loop_infix(x, f1, b, i3, i4, op2, op1.right(), None, res2);
            assert(((f1 - 1) as nat) == f2);
            lemma_taken_combines(x, f1, b, i3, i4, op2, op1.right(), None, i5, c, h2, res2);
        }
        lemma_taken_combines(x, fuel, a, i1, i2, op1, s, None, i5, h2(b, c), h1, r);
    }
}

/// Left-associative operators group by power: `a op1 b op2 c` with `op1` the infix operator
/// `Infix::Left(p1, f1)` and `op2` the infix operator `Infix::Left(p2, f2)` gives
/// `op2(op1(a, b), c)` when `p2 <= p1` and `op1(a, op2(b, c))` when `p2 > p1`; so a chain of
/// left-associative operators of one power, `8-2-1`, groups to the left, `(8-2)-1`.
///
/// The parse runs on `i0`: the operands are read from `i0`, `i2`, `i4` up to `i1`, `i3` and
/// the end of the input `i5`, the operators from `i1` and `i3` up to `i2` and `i4`; no
/// postfix operator is found, every parser gives the one result described, and the
/// operator functions compute `h1` and `h2`.
pub proof fn law_expression_left_pair<I, O, E, Pop, Pre, Post, Pix, PreOp, PostOp, F>(
    x: Expression<I, O, E, Pop, Pre, Post, Pix, PreOp, PostOp, Infix<F>>,
    i0: I,
    i1: I,
    i2: I,
    i3: I,
    i4: I,
    i5: I,
    a: O,
    b: O,
    c: O,
    p1: i64,
    f1: F,
    p2: i64,
    f2: F,
    h1: spec_fn(O, O) -> O,
    h2: spec_fn(O, O) -> O,
    r: IResult<I, O, E>,
)
    where
        I: Input,
        E: ParseError<I>,
        Pop: Parser<I, O, E>,
        Pre: Parser<I, PreOp, E>,
        Post: Parser<I, PostOp, E>,
        Pix: Parser<I, Infix<F>, E>,
        PreOp: UnaryOp<I, O, E>,
        PostOp: UnaryOp<I, O, E>,
        F: Fn(I, O, O) -> Result<O, ErrMode<E>>,
    requires
        i0.tokens().len() > i1.tokens().len() > i2.tokens().len() > i3.tokens().len()
            > i4.tokens().len() > i5.tokens().len(),
        i5.tokens().len() == 0,
        forall|i: I, res: IResult<I, PostOp, E>| #[trigger] x.parse_postfix.parse_rel(i, res)
            ==> res is Err && res->Err_0 is Backtrack,
        forall|res| #[trigger] x.parse_operand.parse_rel(i0, res) ==> res == Ok::<(I, O), ErrMode<E>>((i1, a)),
        forall|res| #[trigger] x.parse_operand.parse_rel(i2, res) ==> res == Ok::<(I, O), ErrMode<E>>((i3, b)),
        forall|res| #[trigger] x.parse_operand.parse_rel(i4, res) ==> res == Ok::<(I, O), ErrMode<E>>((i5, c)),
        forall|res| #[trigger] x.parse_infix.parse_rel(i1, res) ==> res == Ok::<(I, Infix<F>), ErrMode<E>>((i2, Infix::Left(p1, f1))),
        forall|res| #[trigger] x.parse_infix.parse_rel(i3, res) ==> res == Ok::<(I, Infix<F>), ErrMode<E>>((i4, Infix::Left(p2, f2))),
        x.start_power <= p1,
        x.start_power <= p2,
        forall|i: I, p: O, q: O, r2: Result<O, ErrMode<E>>| #[trigger] call_ensures(f1, (i, p, q), r2) ==> r2 == Ok::<O, ErrMode<E>>(h1(p, q)),
        forall|i: I, p: O, q: O, r2: Result<O, ErrMode<E>>| #[trigger] call_ensures(f2, (i, p, q), r2) ==> r2 == Ok::<O, ErrMode<E>>(h2(p, q)),
        x.parse_rel(i0, r),
    ensures
        r == Ok::<(I, O), ErrMode<E>>((i5, if p2 <= p1 {
            h2(h1(a, b), c)
        } else {
            h1(a, h2(b, c))
        })),
{
    let op1 = Infix::Left(p1, f1);
    let op2 = Infix::Left(p2, f2);
    assert forall|i: I, p: O, q: O, r2: Result<O, ErrMode<E>>| #[trigger] op1.apply_rel(i, p, q, r2) implies r2 == Ok::<O, ErrMode<E>>(h1(p, q)) by {
        assert(call_ensures(f1, (i, p, q), r2));
    }
    assert forall|i: I, p: O, q: O, r2: Result<O, ErrMode<E>>| #[trigger] op2.apply_rel(i, p, q, r2) implies r2 == Ok::<O, ErrMode<E>>(h2(p, q)) by {
        assert(call_ensures(f2, (i, p, q), r2));
    }
    assert(nesting_fuel(i0) >= 3);
    lemma_two_infix(x, nesting_fuel(i0), i0, i1, i2, i3, i4, i5, a, b, c, op1, op2, h1, h2, x.start_power as int, r);
}

/// Right-associative operators group to the right: `a op1 b op2 c` with `op1` the infix
/// operator `Infix::Right(p1, f1)` and `op2` the infix operator `Infix::Right(p2, f2)`, whose
/// right operands are parsed at their power less one, gives `op1(a, op2(b, c))` unless
/// `p2 + 1 < p1`, when it gives `op2(op1(a, b), c)`; so a chain of right-associative operators
/// of one power, `2^3^2`, groups to the right, `2^(3^2)`.
///
/// The parse is laid out as for [`law_expression_left_pair`].
pub proof fn law_expression_right_pair<I, O, E, Pop, Pre, Post, Pix, PreOp, PostOp, F>(
    x: Expression<I, O, E, Pop, Pre, Post, Pix, PreOp, PostOp, Infix<F>>,
    i0: I,
    i1: I,
    i2: I,
    i3: I,
    i4: I,
    i5: I,
    a: O,
    b: O,
    c: O,
    p1: i64,
    f1: F,
    p2: i64,
    f2: F,
    h1: spec_fn(O, O) -> O,
    h2: spec_fn(O, O) -> O,
    r: IResult<I, O, E>,
)
    where
        I: Input,
        E: ParseError<I>,
        Pop: Parser<I, O, E>,
        Pre: Parser<I, PreOp, E>,
        Post: Parser<I, PostOp, E>,
        Pix: Parser<I, Infix<F>, E>,
        PreOp: UnaryOp<I, O, E>,
        PostOp: UnaryOp<I, O, E>,
        F: Fn(I, O, O) -> Result<O, ErrMode<E>>,
    requires
        i0.tokens().len() > i1.tokens().len() > i2.tokens().len() > i3.tokens().len()
            > i4.tokens().len() > i5.tokens().len(),
        i5.tokens().len() == 0,
        forall|i: I, res: IResult<I, PostOp, E>| #[trigger] x.parse_postfix.parse_rel(i, res)
            ==> res is Err && res->Err_0 is Backtrack,
        forall|res| #[trigger] x.parse_operand.parse_rel(i0, res) ==> res == Ok::<(I, O), ErrMode<E>>((i1, a)),
        forall|res| #[trigger] x.parse_operand.parse_rel(i2, res) ==> res == Ok::<(I, O), ErrMode<E>>((i3, b)),
        forall|res| #[trigger] x.parse_operand.parse_rel(i4, res) ==> res == Ok::<(I, O), ErrMode<E>>((i5, c)),
        forall|res| #[trigger] x.parse_infix.parse_rel(i1, res) ==> res == Ok::<(I, Infix<F>), ErrMode<E>>((i2, Infix::Right(p1, f1))),
        forall|res| #[trigger] x.parse_infix.parse_rel(i3, res) ==> res == Ok::<(I, Infix<F>), ErrMode<E>>((i4, Infix::Right(p2, f2))),
        x.start_power <= p1,
        x.start_power <= p2,
        forall|i: I, p: O, q: O, r2: Result<O, ErrMode<E>>| #[trigger] call_ensures(f1, (i, p, q), r2) ==> r2 == Ok::<O, ErrMode<E>>(h1(p, q)),
        forall|i: I, p: O, q: O, r2: Result<O, ErrMode<E>>| #[trigger] call_ensures(f2, (i, p, q), r2) ==> r2 == Ok::<O, ErrMode<E>>(h2(p, q)),
        x.parse_rel(i0, r),
    ensures
        r == Ok::<(I, O), ErrMode<E>>((i5, if p2 + 1 < p1 {
            h2(h1(a, b), c)
        } else {
            h1(a, h2(b, c))
        })),
{
    let op1 = Infix::Right(p1, f1);
    let op2 = Infix::Right(p2, f2);
    assert forall|i: I, p: O, q: O, r2: Result<O, ErrMode<E>>| #[trigger] op1.apply_rel(i, p, q, r2) implies r2 == Ok::<O, ErrMode<E>>(h1(p, q)) by {
        assert(call_ensures(f1, (i, p, q), r2));
    }
    assert forall|i: I, p: O, q: O, r2: Result<O, ErrMode<E>>| #[trigger] op2.apply_rel(i, p, q, r2) implies r2 == Ok::<O, ErrMode<E>>(h2(p, q)) by {
        assert(call_ensures(f2, (i, p, q), r2));
    }
    assert(nesting_fuel(i0) >= 3);
    lemma_two_infix(x, nesting_fuel(i0), i0, i1, i2, i3, i4, i5, a, b, c, op1, op2, h1, h2, x.start_power as int, r);
}

/// An expression at `i` that starts with the prefix operator `op`, leaving `i1`, whose
/// operand can only be `o`, leaving `e`, applies the operator's function to `o` and goes on
/// from `e`.
proof fn lemma_prefix_applies<I, O, E, Pop, Pre, Post, Pix, PreOp, PostOp, InOp>(
    x: Expression<I, O, E, Pop, Pre, Post, Pix, PreOp, PostOp, InOp>,
    fuel: nat,
    i: I,
    i1: I,
    op: PreOp,
    pw: int,
    e: I,
    o: O,
    h: spec_fn(O) -> O,
    res: IResult<I, O, E>,
)
    where
        I: Input,
        E: ParseError<I>,
        Pop: Parser<I, O, E>,
        Pre: Parser<I, PreOp, E>,
        Post: Parser<I, PostOp, E>,
        Pix: Parser<I, InOp, E>,
        PreOp: UnaryOp<I, O, E>,
        PostOp: UnaryOp<I, O, E>,
        InOp: BinaryOp<I, O, E>,
    requires
        fuel >= 1,
        i1.tokens().len() < i.tokens().len(),
        forall|res2| #[trigger] x.parse_operand.parse_rel(i, res2) ==> res2 is Err && res2->Err_0 is Backtrack,
        forall|res2| #[trigger] x.parse_prefix.parse_rel(i, res2) ==> res2 == Ok::<(I, PreOp), ErrMode<E>>((i1, op)),
        forall|res2| #[trigger] expr_rel(x, (fuel - 1) as nat, i1, op.power(), res2) ==> res2 == Ok::<(I, O), ErrMode<E>>((e, o)),
        forall|j: I, p: O, r2: Result<O, ErrMode<E>>| #[trigger] op.apply_rel(j, p, r2) ==> r2 == Ok::<O, ErrMode<E>>(h(p)),
        expr_rel(x, fuel, i, pw, res),
    ensures
        expr_loop_rel(x, fuel, h(o), e, pw, None, res),
{
    assert(prefix_rel(x, fuel, i, pw, res));
    if res is Err && expr_rel(x, (fuel - 1) as nat, i1, op.power(), res) {
        assert(false);
    } else {
        let (e2, o2) = choose|e2: I, o2: O|
            expr_rel(x, (fuel - 1) as nat, i1, op.power(), #[trigger] ok_result::<I, O, E>(e2, o2))
                && apply_rel(x, fuel, op, e2, o2, pw, res);
        assert(ok_result::<I, O, E>(e2, o2) == Ok::<(I, O), ErrMode<E>>((e, o)));
        assert(apply_rel(x, fuel, op, e, o, pw, res));
    }
}

/// A prefix operator reaches as far as its power: `op1 a op2 b`, with `op1` the prefix
/// operator `Prefix(p1, g1)` and `op2` the infix operator `Infix::Left(p2, f2)` or
/// `Infix::Right(p2, f2)`, gives `op2(op1(a), b)` when `p2 < p1` and `op1(op2(a, b))`
/// otherwise; so with `-` of power 12 and `+` of power 5, `-2+3` is `(-2)+3`.
///
/// The parse runs on `i0`: the prefix operator is read from `i0` up to `i1`, the operands
/// from `i1` and `i3` up to `i2` and the end of the input `i4`, the infix operator from `i2`
/// up to `i3`; no operand is found at `i0` and no postfix operator anywhere, every parser
/// gives the one result described, and the operator functions compute `h1` and `h2`.
pub proof fn law_expression_prefix_binds<I, O, E, Pop, Pre, Post, Pix, PostOp, G, F>(
    x: Expression<I, O, E, Pop, Pre, Post, Pix, Prefix<G>, PostOp, Infix<F>>,
    i0: I,
    i1: I,
    i2: I,
    i3: I,
    i4: I,
    a: O,
    b: O,
    p1: i64,
    g1: G,
    op2: Infix<F>,
    p2: i64,
    f2: F,
    h1: spec_fn(O) -> O,
    h2: spec_fn(O, O) -> O,
    r: IResult<I, O, E>,
)
    where
        I: Input,
        E: ParseError<I>,
        Pop: Parser<I, O, E>,
        Pre: Parser<I, Prefix<G>, E>,
        Post: Parser<I, PostOp, E>,
        Pix: Parser<I, Infix<F>, E>,
        PostOp: UnaryOp<I, O, E>,
        G: Fn(I, O) -> Result<O, ErrMode<E>>,
        F: Fn(I, O, O) -> Result<O, ErrMode<E>>,
    requires
        i0.tokens().len() > i1.tokens().len() > i2.tokens().len() > i3.tokens().len()
            > i4.tokens().len(),
        i4.tokens().len() == 0,
        op2 == Infix::Left(p2, f2) || op2 == Infix::Right(p2, f2),
        forall|i: I, res: IResult<I, PostOp, E>| #[trigger] x.parse_postfix.parse_rel(i, res)
            ==> res is Err && res->Err_0 is Backtrack,
        forall|res| #[trigger] x.parse_operand.parse_rel(i0, res) ==> res is Err && res->Err_0 is Backtrack,
        forall|res| #[trigger] x.parse_prefix.parse_rel(i0, res) ==> res == Ok::<(I, Prefix<G>), ErrMode<E>>((i1, Prefix(p1, g1))),
        forall|res| #[trigger] x.parse_operand.parse_rel(i1, res) ==> res == Ok::<(I, O), ErrMode<E>>((i2, a)),
        forall|res| #[trigger] x.parse_operand.parse_rel(i3, res) ==> res == Ok::<(I, O), ErrMode<E>>((i4, b)),
        forall|res| #[trigger] x.parse_infix.parse_rel(i2, res) ==> res == Ok::<(I, Infix<F>), ErrMode<E>>((i3, op2)),
        x.start_power <= p2,
        forall|i: I, p: O, r2: Result<O, ErrMode<E>>| #[trigger] call_ensures(g1, (i, p), r2) ==> r2 == Ok::<O, ErrMode<E>>(h1(p)),
        forall|i: I, p: O, q: O, r2: Result<O, ErrMode<E>>| #[trigger] call_ensures(f2, (i, p, q), r2) ==> r2 == Ok::<O, ErrMode<E>>(h2(p, q)),
        x.parse_rel(i0, r),
    ensures
        r == Ok::<(I, O), ErrMode<E>>((i4, if p2 < p1 {
            h2(h1(a), b)
        } else {
            h1(h2(a, b))
        })),
{
    let op1 = Prefix(p1, g1);
    let fuel = nesting_fuel(i0);
    let f1 = (fuel - 1) as nat;
    let s = x.start_power as int;
    assert(fuel >= 3);
    assert forall|i: I, p: O, r2: Result<O, ErrMode<E>>| #[trigger] op1.apply_rel(i, p, r2) implies r2 == Ok::<O, ErrMode<E>>(h1(p)) by {
        assert(call_ensures(g1, (i, p), r2));
    }
    assert forall|i: I, p: O, q: O, r2: Result<O, ErrMode<E>>| #[trigger] op2.apply_rel(i, p, q, r2) implies r2 == Ok::<O, ErrMode<E>>(h2(p, q)) by {
        assert(call_ensures(f2, (i, p, q), r2));
    }
    assert(op2.left() == p2 && op2.neither() is None);
    assert forall|pw: int, res3| #[trigger] expr_rel(x, (f1 - 1) as nat, i3, pw, res3) implies res3 == Ok::<(I, O), ErrMode<E>>((i4, b)) by {
        lemma_operand_first(x, (f1 - 1) as nat, i3, i4, b, pw, res3);
    }
    assert forall|pw: int, res3| #[trigger] expr_rel(x, f1, i3, pw, res3) implies res3 == Ok::<(I, O), ErrMode<E>>((i4, b)) by {
        lemma_operand_first(x, f1, i3, i4, b, pw, res3);
    }
    if p2 < p1 {
        assert forall|res2| #[trigger] expr_rel(x, f1, i1, op1.power(), res2) implies res2 == Ok::<(I, O), ErrMode<E>>((i2, a)) by {
            lemma_operand_first(x, f1, i1, i2, a, op1.power(), res2);
            lemma_loop_infix(x, f1, a, i2, i3, op2, op1.power(), None, res2);
        }
        lemma_prefix_applies(x, fuel, i0, i1, op1, s, i2, a, h1, r);
        lemma_loop_infix(x, fuel, h1(a), i2, i3, op2, s, None, r);
        lemma_taken_combines(x, fuel, h1(a), i2, i3, op2, s, None, i4, b, h2, r);
    } else {
        assert forall|res2| #[trigger] expr_rel(x, f1, i1, op1.power(), res2) implies res2 == Ok::<(I, O), ErrMode<E>>((i4, h2(a, b))) by {
            lemma_operand_first(x, f1, i1, i2, a, op1.power(), res2);
            lemma_loop_infix(x, f1, a, i2, i3, op2, op1.power(), None, res2);
            lemma_taken_combines(x, f1, a, i2, i3, op2, op1.power(), None, i4, b, h2, res2);
        }
        lemma_prefix_applies(x, fuel, i0, i1, op1, s, i4, h2(a, b), h1, r);
    }
}

/// A postfix operator takes the operand from a prefix operator only when it binds at least as
/// tightly: `op1 a op3`, with `op1` the prefix operator `Prefix(p1, g1)` and `op3` the
/// postfix operator `Postfix(p3, g3)`, gives `op3(op1(a))` when `p3 < p1` and `op1(op3(a))`
/// otherwise; so with `-` of power 12 and `!` of power 15, `-3!` is `-(3!)`.
///
/// The parse runs on `i0`: the prefix operator is read from `i0` up to `i1`, the operand from
/// `i1` up to `i2`, the postfix operator from `i2` up to the end of the input `i3`; no operand
/// is found at `i0`, every parser gives the one result described, and the operator functions
/// compute `h1` and `h3`.
pub proof fn law_expression_postfix_binds<I, O, E, Pop, Pre, Post, Pix, InOp, G, H>(
    x: Expression<I, O, E, Pop, Pre, Post, Pix, Prefix<G>, Postfix<H>, InOp>,
    i0: I,
    i1: I,
    i2: I,
    i3: I,
    a: O,
    p1: i64,
    g1: G,
    p3: i64,
    g3: H,
    h1: spec_fn(O) -> O,
    h3: spec_fn(O) -> O,
    r: IResult<I, O, E>,
)
    where
        I: Input,
        E: ParseError<I>,
        Pop: Parser<I, O, E>,
        Pre: Parser<I, Prefix<G>, E>,
        Post: Parser<I, Postfix<H>, E>,
        Pix: Parser<I, InOp, E>,
        InOp: BinaryOp<I, O, E>,
        G: Fn(I, O) -> Result<O, ErrMode<E>>,
        H: Fn(I, O) -> Result<O, ErrMode<E>>,
    requires
        i0.tokens().len() > i1.tokens().len() > i2.tokens().len() > i3.tokens().len(),
        i3.tokens().len() == 0,
        forall|res| #[trigger] x.parse_operand.parse_rel(i0, res) ==> res is Err && res->Err_0 is Backtrack,
        forall|res| #[trigger] x.parse_prefix.parse_rel(i0, res) ==> res == Ok::<(I, Prefix<G>), ErrMode<E>>((i1, Prefix(p1, g1))),
        forall|res| #[trigger] x.parse_operand.parse_rel(i1, res) ==> res == Ok::<(I, O), ErrMode<E>>((i2, a)),
        forall|res| #[trigger] x.parse_postfix.parse_rel(i2, res) ==> res == Ok::<(I, Postfix<H>), ErrMode<E>>((i3, Postfix(p3, g3))),
        x.start_power <= p3,
        forall|i: I, p: O, r2: Result<O, ErrMode<E>>| #[trigger] call_ensures(g1, (i, p), r2) ==> r2 == Ok::<O, ErrMode<E>>(h1(p)),
        forall|i: I, p: O, r2: Result<O, ErrMode<E>>| #[trigger] call_ensures(g3, (i, p), r2) ==> r2 == Ok::<O, ErrMode<E>>(h3(p)),
        x.parse_rel(i0, r),
    ensures
        r == Ok::<(I, O), ErrMode<E>>((i3, if p3 < p1 {
            h3(h1(a))
        } else {
            h1(h3(a))
        })),
{
    let op1 = Prefix(p1, g1);
    let op3 = Postfix(p3, g3);
    let fuel = nesting_fuel(i0);
    let f1 = (fuel - 1) as nat;
    let s = x.start_power as int;
    assert(fuel >= 3);
    assert forall|i: I, p: O, r2: Result<O, ErrMode<E>>| #[trigger] op1.apply_rel(i, p, r2) implies r2 == Ok::<O, ErrMode<E>>(h1(p)) by {
        assert(call_ensures(g1, (i, p), r2));
    }
    if p3 < p1 {
        assert forall|res2| #[trigger] expr_rel(x, f1, i1, op1.power(), res2) implies res2 == Ok::<(I, O), ErrMode<E>>((i2, a)) by {
            lemma_operand_first(x, f1, i1, i2, a, op1.power(), res2);
            assert(postfix_rel(x, f1, a, i2, i3, op3, op1.power(), None, res2));
        }
        lemma_prefix_applies(x, fuel, i0, i1, op1, s, i2, a, h1, r);
        assert(postfix_rel(x, fuel, h1(a), i2, i3, op3, s, None, r));
        assert(expr_loop_rel(x, fuel, h3(h1(a)), i3, s, None, r));
    } else {
        assert forall|res2| #[trigger] expr_rel(x, f1, i1, op1.power(), res2) implies res2 == Ok::<(I, O), ErrMode<E>>((i3, h3(a))) by {
            lemma_operand_first(x, f1, i1, i2, a, op1.power(), res2);
            assert(postfix_rel(x, f1, a, i2, i3, op3, op1.power(), None, res2));
            assert(expr_loop_rel(x, f1, h3(a), i3, op1.power(), None, res2));
        }
        lemma_prefix_applies(x, fuel, i0, i1, op1, s, i3, h3(a), h1, r);
    }
}

} // verus!
