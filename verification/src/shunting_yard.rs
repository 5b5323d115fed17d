//! Parsing of expressions by operator precedence with an explicit operator stack
//!
//! Operands are pushed on a value stack and operators on an operator stack; an operator is
//! applied, to the values at the top of the value stack, once an operator binding less
//! tightly follows it. Prefix and postfix operators carry a binding power and a function of
//! one operand; infix operators carry an [`Assoc`] and a function of two operands.
//!
//! Progress is checked: a prefix or postfix operator, and each round of operand and infix
//! operator, must consume input (a non-associative operator may repeat once without doing
//! so, as it then stops the expression); breaking this rule, which would otherwise loop
//! forever, is a fatal [`ErrorKind::Verify`] error.
use core::marker::PhantomData;
use vstd::prelude::*;
use crate::error::{ErrMode, ErrorKind, ParseError};
use crate::input::Input;
use crate::parser::{backtrack_at, IResult, Parser};

verus! {

/// The associativity of an infix operator, with its binding power
#[derive(Clone, Copy, Debug, PartialEq, Eq)]
pub enum Assoc {
    /// `a op b op c` is `(a op b) op c`
    Left(i64),
    /// `a op b op c` is `a op (b op c)`
    Right(i64),
    /// `a op b op c` stops after `a op b`
    Neither(i64),
}

/// An operator waiting on the operator stack
pub enum Operator<U, B> {
    /// A prefix or postfix operator: its binding power and its function
    Unary(i64, U),
    /// An infix operator: its associativity and power, and its function
    Binary(Assoc, B),
}

/// How tightly a waiting operator holds the operand to its right.
pub open spec fn right_power_of<U, B>(op: Operator<U, B>) -> int {
    match op {
        Operator::Unary(p, _) => p as int,
        Operator::Binary(Assoc::Left(p), _) => p + 1,
        Operator::Binary(Assoc::Right(p), _) => p - 1,
        Operator::Binary(Assoc::Neither(p), _) => p + 1,
    }
}

/// The number of infix operators in `ops`: each needs one value more than the unary ones.
pub open spec fn binary_count<U, B>(ops: Seq<Operator<U, B>>) -> nat
    decreases ops.len(),
{
    if ops.len() == 0 {
        0
    } else if ops.last() is Binary {
        binary_count(ops.drop_last()) + 1
    } else {
        binary_count(ops.drop_last())
    }
}

/// Every operator function accepts every input and operands.
pub open spec fn ops_callable<I, O, E, U, B>() -> bool where
    U: Fn(I, O) -> Result<O, ErrMode<E>>,
    B: Fn(I, O, O) -> Result<O, ErrMode<E>>,
 {
    &&& forall|u: U, i: I, o: O| #[trigger] call_requires(u, (i, o))
    &&& forall|b: B, i: I, x: O, y: O| #[trigger] call_requires(b, (i, x, y))
}

impl<U, B> Operator<U, B> {
    /// How tightly this operator holds the operand to its right
    fn right_power(&self) -> (p: i128)
        ensures
            p == right_power_of(*self),
    {
        match self {
            Operator::Unary(p, _) => *p as i128,
            Operator::Binary(Assoc::Left(p), _) => *p as i128 + 1,
            Operator::Binary(Assoc::Right(p), _) => *p as i128 - 1,
            Operator::Binary(Assoc::Neither(p), _) => *p as i128 + 1,
        }
    }
}

/// The power of an infix operator, and whether it is non-associative
fn assoc_power(assoc: Assoc) -> (r: (i64, Option<i64>))
    ensures
        r.1 == (if assoc is Neither {
            Some(r.0)
        } else {
            None::<i64>
        }),
        r.0 == (match assoc {
            Assoc::Left(p) => p,
            Assoc::Right(p) => p,
            Assoc::Neither(p) => p,
        }),
{
    match assoc {
        Assoc::Left(p) => (p, None),
        Assoc::Right(p) => (p, None),
        Assoc::Neither(p) => (p, Some(p)),
    }
}

/// Whether the top of `ops` is an operator holding its right operand tighter than `power`.
fn top_binds_tighter<U, B>(ops: &Vec<Operator<U, B>>, power: i64) -> (r: bool)
    ensures
        r == (ops@.len() > 0 && power < right_power_of(ops@.last())),
{
    let n = ops.len();
    if n == 0 {
        false
    } else {
        (power as i128) < ops[n - 1].right_power()
    }
}

/// Where the parse of an expression stands between two of its steps
pub enum YardPhase<I, U, B> {
    /// Reading prefix operators
    Prefix,
    /// Reading the operand
    Operand,
    /// Reading postfix operators
    Postfix,
    /// Applying the waiting operators that bind tighter than the postfix operator just read,
    /// then that operator
    PostfixApply(i64, U),
    /// Reading an infix operator
    Infix,
    /// Applying the waiting operators that bind tighter than the infix operator just read
    /// at the input held, then pushing it
    InfixPush(I, Assoc, B),
    /// Applying all the waiting operators
    Unwind,
}

/// The stage of a phase: phases of a later stage never lead back to an earlier one within a
/// round.
pub open spec fn phase_stage<I, U, B>(phase: YardPhase<I, U, B>) -> nat {
    match phase {
        YardPhase::Prefix => 4,
        YardPhase::Operand => 4,
        YardPhase::Postfix => 3,
        YardPhase::PostfixApply(_, _) => 3,
        YardPhase::Infix => 2,
        YardPhase::InfixPush(_, _, _) => 1,
        YardPhase::Unwind => 0,
    }
}

/// The order of the phases within a stage.
pub open spec fn phase_rank<I, U, B>(phase: YardPhase<I, U, B>) -> nat {
    match phase {
        YardPhase::Prefix => 1,
        YardPhase::PostfixApply(_, _) => 1,
        _ => 0,
    }
}

/// The binding power of an infix operator.
pub open spec fn assoc_power_of(assoc: Assoc) -> i64 {
    match assoc {
        Assoc::Left(p) => p,
        Assoc::Right(p) => p,
        Assoc::Neither(p) => p,
    }
}

/// The power of an infix operator when it is non-associative.
pub open spec fn assoc_neither(assoc: Assoc) -> Option<i64> {
    match assoc {
        Assoc::Neither(p) => Some(p),
        _ => None,
    }
}

/// `r` is the fatal error that a step consuming no input gives at `i`.
pub open spec fn verify_cut<I, O, E: ParseError<I>>(r: IResult<I, O, E>, i: I) -> bool {
    r matches Err(ErrMode::Cut(e)) && E::from_error_kind_rel(i, ErrorKind::Verify, e)
}

/// The outcome `out` of applying `op`, at input `i`, to the values at the top of `vals`:
/// the values with the operands replaced by the result, or the operator's error.
pub open spec fn evaluated<I, O, E, U, B>(
    i: I,
    vals: Seq<O>,
    op: Operator<U, B>,
    out: Result<Seq<O>, ErrMode<E>>,
) -> bool where U: Fn(I, O) -> Result<O, ErrMode<E>>, B: Fn(I, O, O) -> Result<O, ErrMode<E>> {
    match op {
        Operator::Unary(_, f) => exists|res: Result<O, ErrMode<E>>|
            #![trigger call_ensures(f, (i, vals.last()), res)]
            call_ensures(f, (i, vals.last()), res) && out == (match res {
                Ok(v) => Ok::<Seq<O>, ErrMode<E>>(vals.drop_last().push(v)),
                Err(x) => Err::<Seq<O>, ErrMode<E>>(x),
            }),
        Operator::Binary(_, g) => exists|res: Result<O, ErrMode<E>>|
            #![trigger call_ensures(g, (i, vals[vals.len() - 2], vals.last()), res)]
            call_ensures(g, (i, vals[vals.len() - 2], vals.last()), res) && out == (match res {
                Ok(v) => Ok::<Seq<O>, ErrMode<E>>(vals.drop_last().drop_last().push(v)),
                Err(x) => Err::<Seq<O>, ErrMode<E>>(x),
            }),
    }
}

/// The results that parsing an expression may give from a point of the parse: in `phase`,
/// at input `i`, with the values `vals` and the waiting operators `ops`, `neither` holding the
/// power of the last infix operator when it was non-associative. The current round of operand
/// and infix operator started with `round_len` tokens left, and with no non-associative
/// operator before it when `round_fresh` holds.
pub open spec fn yard<I, O, E, Pop, Pre, Post, Pix, U, B>(
    y: Precedence<I, O, E, Pop, Pre, Post, Pix, U, B>,
    phase: YardPhase<I, U, B>,
    i: I,
    vals: Seq<O>,
    ops: Seq<Operator<U, B>>,
    neither: Option<i64>,
    round_len: nat,
    round_fresh: bool,
    r: IResult<I, O, E>,
) -> bool where
    I: Input,
    E: ParseError<I>,
    Pop: Parser<I, O, E>,
    Pre: Parser<I, (i64, U), E>,
    Post: Parser<I, (i64, U), E>,
    Pix: Parser<I, (Assoc, B), E>,
    U: Fn(I, O) -> Result<O, ErrMode<E>>,
    B: Fn(I, O, O) -> Result<O, ErrMode<E>>,

    decreases 2 * round_len + (if round_fresh {
        1int
    } else {
        0int
    }), phase_stage(phase), i.tokens().len(), phase_rank(phase), ops.len(),
{
    match phase {
        YardPhase::Prefix => exists|res: IResult<I, (i64, U), E>|
            #![trigger y.prefix.parse_rel(i, res)]
            y.prefix.parse_rel(i, res) && match res {
                Ok((rest, (pw, u))) => if rest.tokens().len() >= i.tokens().len() {
                    verify_cut(r, i)
                } else {
                    yard(y, YardPhase::Prefix, rest, vals, ops.push(Operator::Unary(pw, u)), neither, round_len, round_fresh, r)
                },
                Err(ErrMode::Backtrack(_)) => yard(y, YardPhase::Operand, i, vals, ops, neither, round_len, round_fresh, r),
                Err(x) => r == Err::<(I, O), ErrMode<E>>(x),
            },
        YardPhase::Operand => exists|res: IResult<I, O, E>|
            #![trigger y.operand.parse_rel(i, res)]
            y.operand.parse_rel(i, res) && match res {
                Ok((rest, o)) => if rest.tokens().len() == 0 {
                    yard(y, YardPhase::Unwind, rest, vals.push(o), ops, neither, round_len, round_fresh, r)
                } else {
                    yard(y, YardPhase::Postfix, rest, vals.push(o), ops, neither, round_len, round_fresh, r)
                },
                Err(ErrMode::Backtrack(_)) => backtrack_at(r, i, ErrorKind::Token),
                Err(x) => r == Err::<(I, O), ErrMode<E>>(x),
            },
        YardPhase::Postfix => exists|res: IResult<I, (i64, U), E>|
            #![trigger y.postfix.parse_rel(i, res)]
            y.postfix.parse_rel(i, res) && match res {
                Ok((after, (pw, u))) => if after.tokens().len() >= i.tokens().len() {
                    verify_cut(r, i)
                } else {
                    yard(y, YardPhase::PostfixApply(pw, u), after, vals, ops, neither, round_len, round_fresh, r)
                },
                Err(ErrMode::Backtrack(_)) => yard(y, YardPhase::Infix, i, vals, ops, neither, round_len, round_fresh, r),
                Err(x) => r == Err::<(I, O), ErrMode<E>>(x),
            },
        YardPhase::PostfixApply(pw, u) => if ops.len() > 0 && pw < right_power_of(ops.last()) {
            exists|out: Result<Seq<O>, ErrMode<E>>|
                #![trigger evaluated(i, vals, ops.last(), out)]
                evaluated(i, vals, ops.last(), out) && match out {
                    Ok(vals2) => yard(y, phase, i, vals2, ops.drop_last(), neither, round_len, round_fresh, r),
                    Err(x) => r == Err::<(I, O), ErrMode<E>>(x),
                }
        } else {
            exists|res: Result<O, ErrMode<E>>|
                #![trigger call_ensures(u, (i, vals.last()), res)]
                call_ensures(u, (i, vals.last()), res) && match res {
                    Ok(v) => yard(y, YardPhase::Postfix, i, vals.drop_last().push(v), ops, neither, round_len, round_fresh, r),
                    Err(x) => r == Err::<(I, O), ErrMode<E>>(x),
                }
        },
        YardPhase::Infix => exists|res: IResult<I, (Assoc, B), E>|
            #![trigger y.infix.parse_rel(i, res)]
            y.infix.parse_rel(i, res) && match res {
                Ok((after, (assoc, b))) => if neither == Some(assoc_power_of(assoc)) {
                    yard(y, YardPhase::Unwind, i, vals, ops, neither, round_len, round_fresh, r)
                } else {
                    yard(y, YardPhase::InfixPush(i, assoc, b), after, vals, ops, neither, round_len, round_fresh, r)
                },
                Err(ErrMode::Backtrack(_)) => yard(y, YardPhase::Unwind, i, vals, ops, neither, round_len, round_fresh, r),
                Err(x) => r == Err::<(I, O), ErrMode<E>>(x),
            },
        YardPhase::InfixPush(start, assoc, b) => if ops.len() > 0 && assoc_power_of(assoc) < right_power_of(ops.last()) {
            exists|out: Result<Seq<O>, ErrMode<E>>|
                #![trigger evaluated(i, vals, ops.last(), out)]
                evaluated(i, vals, ops.last(), out) && match out {
                    Ok(vals2) => yard(y, phase, i, vals2, ops.drop_last(), neither, round_len, round_fresh, r),
                    Err(x) => r == Err::<(I, O), ErrMode<E>>(x),
                }
        } else if y.start_precedence <= assoc_power_of(assoc) {
            let nn = assoc_neither(assoc);
            if i.tokens().len() > round_len || (i.tokens().len() == round_len && !(round_fresh && nn is Some)) {
                verify_cut(r, i)
            } else {
                yard(y, YardPhase::Prefix, i, vals, ops.push(Operator::Binary(assoc, b)), nn, i.tokens().len(), nn is None, r)
            }
        } else {
            yard(y, YardPhase::Unwind, start, vals, ops, neither, round_len, round_fresh, r)
        },
        YardPhase::Unwind => if ops.len() == 0 {
            vals.len() > 0 && r == Ok::<(I, O), ErrMode<E>>((i, vals.last()))
        } else {
            exists|out: Result<Seq<O>, ErrMode<E>>|
                #![trigger evaluated(i, vals, ops.last(), out)]
                evaluated(i, vals, ops.last(), out) && match out {
                    Ok(vals2) => yard(y, phase, i, vals2, ops.drop_last(), neither, round_len, round_fresh, r),
                    Err(x) => r == Err::<(I, O), ErrMode<E>>(x),
                }
        },
    }
}


/// Parses an expression by operator precedence; see [`precedence`]
pub struct Precedence<I, O, E, Pop, Pre, Post, Pix, U, B> {
    /// Infix operators binding less than this end the expression
    pub start_precedence: i64,
    /// Parses an operand
    pub operand: Pop,
    /// Parses a prefix operator
    pub prefix: Pre,
    /// Parses a postfix operator
    pub postfix: Post,
    /// Parses an infix operator
    pub infix: Pix,
    /// Marks the types the parser works with
    pub phantom: PhantomData<(I, O, E, U, B)>,
}

/// Parses an expression based on operator precedence, with an operator stack.
///
/// Infix operators binding less than `start_precedence` end the expression.
pub fn precedence<I, O, E, Pop, Pre, Post, Pix, U, B>(
    start_precedence: i64,
    operand: Pop,
    prefix: Pre,
    postfix: Post,
    infix: Pix,
) -> (r: Precedence<I, O, E, Pop, Pre, Post, Pix, U, B>)
    ensures
        r.start_precedence == start_precedence,
        r.operand == operand,
        r.prefix == prefix,
        r.postfix == postfix,
        r.infix == infix,
{
    Precedence { start_precedence, operand, prefix, postfix, infix, phantom: PhantomData }
}


/// Applies `op` to the values at the top of `stack`, at input `i`.
fn evaluate<I, O, E, U, B>(i: I, stack: &mut Vec<O>, op: Operator<U, B>) -> (r: Result<
    (),
    ErrMode<E>,
>) where U: Fn(I, O) -> Result<O, ErrMode<E>>, B: Fn(I, O, O) -> Result<O, ErrMode<E>>
    requires
        old(stack)@.len() >= (if op is Binary {
            2nat
        } else {
            1nat
        }),
        ops_callable::<I, O, E, U, B>(),
    ensures
        evaluated(i, old(stack)@, op, match r {
            Ok(_) => Ok::<Seq<O>, ErrMode<E>>(final(stack)@),
            Err(x) => Err::<Seq<O>, ErrMode<E>>(x),
        }),
        r is Ok ==> final(stack)@.len() == old(stack)@.len() - (if op is Binary {
            1nat
        } else {
            0nat
        }),
{
    let ghost vals = stack@;
    match op {
        Operator::Unary(_, f) => {
            let lhs = stack.pop().unwrap();
            assert(call_requires(f, (i, lhs)));
            let res = f(i, lhs);
            assert(call_ensures(f, (i, vals.last()), res));
            match res {
                Ok(v) => {
                    stack.push(v);
                    assert(stack@ =~= vals.drop_last().push(v));
                    Ok(())
                },
                Err(x) => Err(x),
            }
        },
        Operator::Binary(_, g) => {
            let rhs = stack.pop().unwrap();
            let lhs = stack.pop().unwrap();
            assert(call_requires(g, (i, lhs, rhs)));
            let res = g(i, lhs, rhs);
            assert(call_ensures(g, (i, vals[vals.len() - 2], vals.last()), res));
            match res {
                Ok(v) => {
                    stack.push(v);
                    assert(stack@ =~= vals.drop_last().drop_last().push(v));
                    Ok(())
                },
                Err(x) => Err(x),
            }
        },
    }
}

/// What the parsers of an expression need, and what each of their steps must keep.
pub open spec fn yard_req<I, O, E, Pop, Pre, Post, Pix, U, B>(
    y: Precedence<I, O, E, Pop, Pre, Post, Pix, U, B>,
) -> bool where
    I: Input,
    Pop: Parser<I, O, E>,
    Pre: Parser<I, (i64, U), E>,
    Post: Parser<I, (i64, U), E>,
    Pix: Parser<I, (Assoc, B), E>,
    U: Fn(I, O) -> Result<O, ErrMode<E>>,
    B: Fn(I, O, O) -> Result<O, ErrMode<E>>,
{
    &&& forall|i: I| #[trigger] y.operand.parse_req(i)
    &&& forall|i: I| #[trigger] y.prefix.parse_req(i)
    &&& forall|i: I| #[trigger] y.postfix.parse_req(i)
    &&& forall|i: I| #[trigger] y.infix.parse_req(i)
    &&& ops_callable::<I, O, E, U, B>()
}

/// Whether the results from the phase `phase` of the parse are results from its start.
pub open spec fn leads_back<I, O, E, Pop, Pre, Post, Pix, U, B>(
    y: Precedence<I, O, E, Pop, Pre, Post, Pix, U, B>,
    input: I,
    phase: YardPhase<I, U, B>,
    i: I,
    vals: Seq<O>,
    ops: Seq<Operator<U, B>>,
    neither: Option<i64>,
    round_len: nat,
    round_fresh: bool,
) -> bool where
    I: Input,
    E: ParseError<I>,
    Pop: Parser<I, O, E>,
    Pre: Parser<I, (i64, U), E>,
    Post: Parser<I, (i64, U), E>,
    Pix: Parser<I, (Assoc, B), E>,
    U: Fn(I, O) -> Result<O, ErrMode<E>>,
    B: Fn(I, O, O) -> Result<O, ErrMode<E>>,
{
    forall|r: IResult<I, O, E>|
        #[trigger] yard(y, phase, i, vals, ops, neither, round_len, round_fresh, r) ==> yard(
            y,
            YardPhase::Prefix,
            input,
            Seq::empty(),
            Seq::empty(),
            None,
            input.tokens().len(),
            true,
            r,
        )
}

/// Pops and applies the operators of `ops` while the top one binds tighter than `power`,
/// in the phase `phase` of the parse.
fn reduce_while_tighter<I, O, E, Pop, Pre, Post, Pix, U, B>(
    Ghost(y): Ghost<Precedence<I, O, E, Pop, Pre, Post, Pix, U, B>>,
    Ghost(input): Ghost<I>,
    Ghost(phase): Ghost<YardPhase<I, U, B>>,
    Ghost(neither): Ghost<Option<i64>>,
    Ghost(round_len): Ghost<nat>,
    Ghost(round_fresh): Ghost<bool>,
    i: I,
    values: &mut Vec<O>,
    ops: &mut Vec<Operator<U, B>>,
    power: i64,
) -> (r: Result<(), ErrMode<E>>) where
    I: Input,
    E: ParseError<I>,
    Pop: Parser<I, O, E>,
    Pre: Parser<I, (i64, U), E>,
    Post: Parser<I, (i64, U), E>,
    Pix: Parser<I, (Assoc, B), E>,
    U: Fn(I, O) -> Result<O, ErrMode<E>>,
    B: Fn(I, O, O) -> Result<O, ErrMode<E>>,

    requires
        old(values)@.len() == binary_count(old(ops)@) + 1,
        yard_req(y),
        phase matches YardPhase::PostfixApply(pw, _) ==> pw == power,
        phase matches YardPhase::InfixPush(_, assoc, _) ==> assoc_power_of(assoc) == power,
        phase is PostfixApply || phase is InfixPush,
        leads_back(y, input, phase, i, old(values)@, old(ops)@, neither, round_len, round_fresh),
    ensures
        r is Ok ==> final(values)@.len() == binary_count(final(ops)@) + 1,
        r is Ok ==> !(final(ops)@.len() > 0 && power < right_power_of(final(ops)@.last())),
        r is Ok ==> leads_back(y, input, phase, i, final(values)@, final(ops)@, neither, round_len, round_fresh),
        r matches Err(x) ==> yard(y, phase, i, old(values)@, old(ops)@, neither, round_len, round_fresh, Err(x)),
{
    while top_binds_tighter(ops, power)
        invariant
            values@.len() == binary_count(ops@) + 1,
            yard_req(y),
            phase matches YardPhase::PostfixApply(pw, _) ==> pw == power,
            phase matches YardPhase::InfixPush(_, assoc, _) ==> assoc_power_of(assoc) == power,
            phase is PostfixApply || phase is InfixPush,
            leads_back(y, input, phase, i, values@, ops@, neither, round_len, round_fresh),
            forall|x: ErrMode<E>|
                #[trigger] yard(y, phase, i, values@, ops@, neither, round_len, round_fresh, Err(x))
                    ==> yard(y, phase, i, old(values)@, old(ops)@, neither, round_len, round_fresh, Err(x)),
        decreases ops@.len(),
    {
        let ghost vals0 = values@;
        let ghost ops0 = ops@;
        let op = ops.pop().unwrap();
        assert(ops@ == ops0.drop_last());
        let res = evaluate(i, values, op);
        let ghost gres = res;
        let ghost out = match gres {
            Ok(_) => Ok::<Seq<O>, ErrMode<E>>(values@),
            Err(x) => Err::<Seq<O>, ErrMode<E>>(x),
        };
        assert(evaluated(i, vals0, ops0.last(), out));
        match res {
            Ok(_) => {
                assert forall|r: IResult<I, O, E>|
                    #[trigger] yard(y, phase, i, values@, ops@, neither, round_len, round_fresh, r)
                        implies yard(y, phase, i, vals0, ops0, neither, round_len, round_fresh, r) by {
                }
                assert forall|x: ErrMode<E>|
                    #[trigger] yard(y, phase, i, values@, ops@, neither, round_len, round_fresh, Err(x))
                        implies yard(y, phase, i, old(values)@, old(ops)@, neither, round_len, round_fresh, Err(x)) by {
                    assert(yard(y, phase, i, vals0, ops0, neither, round_len, round_fresh, Err(x)));
                }
            },
            Err(x) => {
                assert(yard(y, phase, i, vals0, ops0, neither, round_len, round_fresh, Err(x)));
                return Err(x);
            },
        }
    }
    Ok(())
}

/// Whether the unwinding loop pops the top of `ops`: it binds tighter than `power` and than the
/// start precedence, and, but on the first test, `power` is not that of a non-associative
/// operator.
pub open spec fn unwind_pops<U, B>(
    start_precedence: i64,
    power: i64,
    non_assoc: bool,
    first: bool,
    ops: Seq<Operator<U, B>>,
) -> bool {
    &&& ops.len() > 0
    &&& power < right_power_of(ops.last())
    &&& power < start_precedence
    &&& (first || !non_assoc)
}

/// The outcome `r` of popping and applying operators of `ops` at input `i` while
/// [`unwind_pops`] holds: the values and operators left, or the first operator error.
pub open spec fn unwound<I, O, E, U, B>(
    i: I,
    start_precedence: i64,
    power: i64,
    non_assoc: bool,
    first: bool,
    vals: Seq<O>,
    ops: Seq<Operator<U, B>>,
    r: Result<(Seq<O>, Seq<Operator<U, B>>), ErrMode<E>>,
) -> bool where U: Fn(I, O) -> Result<O, ErrMode<E>>, B: Fn(I, O, O) -> Result<O, ErrMode<E>>
    decreases ops.len(),
{
    if unwind_pops(start_precedence, power, non_assoc, first, ops) {
        exists|out: Result<Seq<O>, ErrMode<E>>|
            #![trigger evaluated(i, vals, ops.last(), out)]
            evaluated(i, vals, ops.last(), out) && match out {
                Ok(vals2) => unwound(i, start_precedence, power, non_assoc, false, vals2, ops.drop_last(), r),
                Err(x) => r == Err::<(Seq<O>, Seq<Operator<U, B>>), ErrMode<E>>(x),
            }
    } else {
        r == Ok::<(Seq<O>, Seq<Operator<U, B>>), ErrMode<E>>((vals, ops))
    }
}

/// Pops and applies operators from the top while each binds tighter than `current_power`
/// and the start precedence, the first test against no preceding non-associative operator
/// and each later one against `current_power` when it is non-associative.
#[allow(dead_code)]
fn unwind_operators_stack_to<I, O, E, U, B>(
    i: I,
    start_precedence: i64,
    current_power: Assoc,
    value_stack: &mut Vec<O>,
    operator_stack: &mut Vec<Operator<U, B>>,
) -> (r: Result<(), ErrMode<E>>) where
    I: Copy,
    U: Fn(I, O) -> Result<O, ErrMode<E>>,
    B: Fn(I, O, O) -> Result<O, ErrMode<E>>,

    requires
        old(value_stack)@.len() == binary_count(old(operator_stack)@) + 1,
        ops_callable::<I, O, E, U, B>(),
    ensures
        unwound(
            i,
            start_precedence,
            assoc_power_of(current_power),
            current_power is Neither,
            true,
            old(value_stack)@,
            old(operator_stack)@,
            match r {
                Ok(_) => Ok::<(Seq<O>, Seq<Operator<U, B>>), ErrMode<E>>((final(value_stack)@, final(operator_stack)@)),
                Err(x) => Err::<(Seq<O>, Seq<Operator<U, B>>), ErrMode<E>>(x),
            },
        ),
        r is Ok ==> final(value_stack)@.len() == binary_count(final(operator_stack)@) + 1,
{
    let (lpower, next_is_neither) = assoc_power(current_power);
    let ghost non_assoc = current_power is Neither;
    let mut current_is_neither: Option<i64> = None;
    loop
        invariant
            value_stack@.len() == binary_count(operator_stack@) + 1,
            ops_callable::<I, O, E, U, B>(),
            lpower == assoc_power_of(current_power),
            next_is_neither == (if non_assoc { Some(lpower) } else { None::<i64> }),
            non_assoc == current_power is Neither,
            current_is_neither is None || current_is_neither == next_is_neither,
            forall|r: Result<(Seq<O>, Seq<Operator<U, B>>), ErrMode<E>>|
                #[trigger] unwound(i, start_precedence, lpower, non_assoc, current_is_neither is None, value_stack@, operator_stack@, r)
                    ==> unwound(i, start_precedence, lpower, non_assoc, true, old(value_stack)@, old(operator_stack)@, r),
        decreases operator_stack@.len(),
    {
        let ghost first = current_is_neither is None;
        let go = top_binds_tighter(operator_stack, lpower) && lpower < start_precedence && match current_is_neither {
            None => true,
            Some(n) => n != lpower,
        };
        assert(go == unwind_pops(start_precedence, lpower, non_assoc, first, operator_stack@));
        current_is_neither = next_is_neither;
        if !go {
            let ghost done = Ok::<(Seq<O>, Seq<Operator<U, B>>), ErrMode<E>>((value_stack@, operator_stack@));
            assert(unwound(i, start_precedence, lpower, non_assoc, first, value_stack@, operator_stack@, done));
            return Ok(());
        }
        let ghost vals0 = value_stack@;
        let ghost ops0 = operator_stack@;
        let op = operator_stack.pop().unwrap();
        assert(operator_stack@ == ops0.drop_last());
        let res = evaluate(i, value_stack, op);
        let ghost gres = res;
        let ghost out = match gres {
            Ok(_) => Ok::<Seq<O>, ErrMode<E>>(value_stack@),
            Err(x) => Err::<Seq<O>, ErrMode<E>>(x),
        };
        assert(evaluated(i, vals0, ops0.last(), out));
        match res {
            Ok(_) => {
                assert forall|r: Result<(Seq<O>, Seq<Operator<U, B>>), ErrMode<E>>|
                    #[trigger] unwound(i, start_precedence, lpower, non_assoc, current_is_neither is None, value_stack@, operator_stack@, r)
                        implies unwound(i, start_precedence, lpower, non_assoc, first, vals0, ops0, r) by {
                    // without a non-associative operator the first test is like the others
                    assert(unwound(i, start_precedence, lpower, non_assoc, true, value_stack@, operator_stack@, r)
                        == unwound(i, start_precedence, lpower, non_assoc, false, value_stack@, operator_stack@, r)
                        || non_assoc);
                }
            },
            Err(x) => {
                let ghost fail = Err::<(Seq<O>, Seq<Operator<U, B>>), ErrMode<E>>(x);
                assert(unwound(i, start_precedence, lpower, non_assoc, first, vals0, ops0, fail));
                return Err(x);
            },
        }
    }
}

/// The measure that each round of operand and infix operator decreases: twice the input
/// left, plus one unless the last infix operator was non-associative.
pub open spec fn round_measure(round_len: nat, round_fresh: bool) -> int {
    2 * round_len + if round_fresh {
        1int
    } else {
        0int
    }
}

impl<I, O, E, Pop, Pre, Post, Pix, U, B> Parser<I, O, E> for Precedence<I, O, E, Pop, Pre, Post, Pix, U, B> where
    I: Input,
    E: ParseError<I>,
    Pop: Parser<I, O, E>,
    Pre: Parser<I, (i64, U), E>,
    Post: Parser<I, (i64, U), E>,
    Pix: Parser<I, (Assoc, B), E>,
    U: Fn(I, O) -> Result<O, ErrMode<E>>,
    B: Fn(I, O, O) -> Result<O, ErrMode<E>>,
 {
    open spec fn parse_req(&self, input: I) -> bool {
        yard_req(*self)
    }

    open spec fn parse_rel(&self, input: I, r: IResult<I, O, E>) -> bool {
        yard(
            *self,
            YardPhase::Prefix,
            input,
            Seq::empty(),
            Seq::empty(),
            None,
            input.tokens().len(),
            true,
            r,
        )
    }

    fn parse_next(&mut self, input: I) -> (r: IResult<I, O, E>) {
        let ghost y = *self;
        let mut values: Vec<O> = Vec::new();
        let mut ops: Vec<Operator<U, B>> = Vec::new();
        let mut current_is_neither: Option<i64> = None;
        let mut i = input;
        let ghost mut end_neither: Option<i64> = None;
        let ghost mut end_len: nat = 0;
        let ghost mut end_fresh: bool = true;
        assert(values@ =~= Seq::<O>::empty());
        assert(ops@ =~= Seq::<Operator<U, B>>::empty());
        loop
            invariant_except_break
                values@.len() == binary_count(ops@),
                leads_back(y, input, YardPhase::Prefix, i, values@, ops@, current_is_neither, i.tokens().len(), current_is_neither is None),
            invariant
                *self == y,
                y == *old(self),
                yard_req(y),
            ensures
                values@.len() == binary_count(ops@) + 1,
                leads_back(y, input, YardPhase::Unwind, i, values@, ops@, end_neither, end_len, end_fresh),
            decreases round_measure(i.tokens().len(), current_is_neither is None),
        {
            let round_start_len = i.token_count();
            let ghost round_len = i.tokens().len();
            let ghost round_fresh = current_is_neither is None;
            let round_was_neither = current_is_neither.is_some();
            let ghost neither = current_is_neither;
            // Prefix unary operators
            loop
                invariant_except_break
                    leads_back(y, input, YardPhase::Prefix, i, values@, ops@, neither, round_len, round_fresh),
                invariant
                    values@.len() == binary_count(ops@),
                    *self == y,
                    y == *old(self),
                    yard_req(y),
                    neither == current_is_neither,
                ensures
                    leads_back(y, input, YardPhase::Operand, i, values@, ops@, neither, round_len, round_fresh),
                decreases i.tokens().len(),
            {
                let len = i.token_count();
                let res = self.prefix.parse_next(i);
                let ghost gres = res;
                assert(y.prefix.parse_rel(i, gres));
                match res {
                    Ok((rest, (power, f))) => {
                        if rest.token_count() >= len {
                            let r = Err(ErrMode::Cut(E::from_error_kind(i, ErrorKind::Verify)));
                            assert(yard(y, YardPhase::Prefix, i, values@, ops@, neither, round_len, round_fresh, r));
                            return r;
                        }
                        let ghost ops0 = ops@;
                        ops.push(Operator::Unary(power, f));
                        assert(ops@.drop_last() == ops0);
                        assert forall|r: IResult<I, O, E>|
                            #[trigger] yard(y, YardPhase::Prefix, rest, values@, ops@, neither, round_len, round_fresh, r)
                                implies yard(y, YardPhase::Prefix, i, values@, ops0, neither, round_len, round_fresh, r) by {
                        }
                        i = rest;
                    },
                    Err(ErrMode::Backtrack(e)) => {
                        assert forall|r: IResult<I, O, E>|
                            #[trigger] yard(y, YardPhase::Operand, i, values@, ops@, neither, round_len, round_fresh, r)
                                implies yard(y, YardPhase::Prefix, i, values@, ops@, neither, round_len, round_fresh, r) by {
                        }
                        break;
                    },
                    Err(x) => {
                        let r = Err(x);
                        assert(yard(y, YardPhase::Prefix, i, values@, ops@, neither, round_len, round_fresh, r));
                        return r;
                    },
                }
            }
            // Operand
            let res = self.operand.parse_next(i);
            let ghost gres = res;
            assert(y.operand.parse_rel(i, gres));
            match res {
                Ok((rest, o)) => {
                    let ghost vals0 = values@;
                    values.push(o);
                    if rest.token_count() == 0 {
                        assert forall|r: IResult<I, O, E>|
                            #[trigger] yard(y, YardPhase::Unwind, rest, values@, ops@, neither, round_len, round_fresh, r)
                                implies yard(y, YardPhase::Operand, i, vals0, ops@, neither, round_len, round_fresh, r) by {
                        }
                        i = rest;
                        proof {
                            end_neither = neither;
                            end_len = round_len;
                            end_fresh = round_fresh;
                        }
                        break;
                    }
                    assert forall|r: IResult<I, O, E>|
                        #[trigger] yard(y, YardPhase::Postfix, rest, values@, ops@, neither, round_len, round_fresh, r)
                            implies yard(y, YardPhase::Operand, i, vals0, ops@, neither, round_len, round_fresh, r) by {
                    }
                    i = rest;
                },
                Err(ErrMode::Backtrack(_)) => {
                    let r = Err(ErrMode::Backtrack(E::from_error_kind(i, ErrorKind::Token)));
                    assert(yard(y, YardPhase::Operand, i, values@, ops@, neither, round_len, round_fresh, r));
                    return r;
                },
                Err(x) => {
                    let r = Err(x);
                    assert(yard(y, YardPhase::Operand, i, values@, ops@, neither, round_len, round_fresh, r));
                    return r;
                },
            }
            // Postfix unary operators
            loop
                invariant_except_break
                    leads_back(y, input, YardPhase::Postfix, i, values@, ops@, neither, round_len, round_fresh),
                invariant
                    values@.len() == binary_count(ops@) + 1,
                    *self == y,
                    y == *old(self),
                    yard_req(y),
                    neither == current_is_neither,
                ensures
                    leads_back(y, input, YardPhase::Infix, i, values@, ops@, neither, round_len, round_fresh),
                decreases i.tokens().len(),
            {
                let len = i.token_count();
                let res = self.postfix.parse_next(i);
                let ghost gres = res;
                assert(y.postfix.parse_rel(i, gres));
                match res {
                    Ok((after, (power, f))) => {
                        if after.token_count() >= len {
                            let r = Err(ErrMode::Cut(E::from_error_kind(i, ErrorKind::Verify)));
                            assert(yard(y, YardPhase::Postfix, i, values@, ops@, neither, round_len, round_fresh, r));
                            return r;
                        }
                        let ghost phase = YardPhase::<I, U, B>::PostfixApply(power, f);
                        assert forall|r: IResult<I, O, E>|
                            #[trigger] yard(y, phase, after, values@, ops@, neither, round_len, round_fresh, r)
                                implies yard(y, YardPhase::Postfix, i, values@, ops@, neither, round_len, round_fresh, r) by {
                        }
                        i = after;
                        let ghost vals1 = values@;
                        let ghost ops1 = ops@;
                        match reduce_while_tighter::<I, O, E, Pop, Pre, Post, Pix, U, B>(Ghost(y), Ghost(input), Ghost(phase), Ghost(neither), Ghost(round_len), Ghost(round_fresh), i, &mut values, &mut ops, power) {
                            Ok(_) => {},
                            Err(x) => {
                                let r = Err(x);
                                assert(yard(y, phase, i, vals1, ops1, neither, round_len, round_fresh, r));
                                return r;
                            },
                        }
                        let ghost vals2 = values@;
                        let lhs = values.pop().unwrap();
                        let ghost vals3 = values@;
                        assert(vals3 == vals2.drop_last());
                        assert(lhs == vals2.last());
                        proof {
                            let ghost u = f;
                            assert(call_requires(u, (i, lhs)));
                        }
                        let res2 = f(i, lhs);
                        assert(call_ensures(f, (i, vals2.last()), res2));
                        assert(call_ensures(phase->PostfixApply_1, (i, vals2.last()), res2));
                        match res2 {
                            Ok(v) => {
                                values.push(v);
                                assert(values@ =~= vals2.drop_last().push(v));
                                assert forall|r: IResult<I, O, E>|
                                    #[trigger] yard(y, YardPhase::Postfix, i, values@, ops@, neither, round_len, round_fresh, r)
                                        implies yard(y, phase, i, vals2, ops@, neither, round_len, round_fresh, r) by {
                                }
                            },
                            Err(x) => {
                                let r = Err(x);
                                assert(yard(y, phase, i, vals2, ops@, neither, round_len, round_fresh, r));
                                return r;
                            },
                        }
                    },
                    Err(ErrMode::Backtrack(_)) => {
                        assert forall|r: IResult<I, O, E>|
                            #[trigger] yard(y, YardPhase::Infix, i, values@, ops@, neither, round_len, round_fresh, r)
                                implies yard(y, YardPhase::Postfix, i, values@, ops@, neither, round_len, round_fresh, r) by {
                        }
                        break;
                    },
                    Err(x) => {
                        let r = Err(x);
                        assert(yard(y, YardPhase::Postfix, i, values@, ops@, neither, round_len, round_fresh, r));
                        return r;
                    },
                }
            }
            let start = i;
            // Infix binary operators
            let res = self.infix.parse_next(i);
            let ghost gres = res;
            assert(y.infix.parse_rel(i, gres));
            match res {
                Ok((after, (assoc, f))) => {
                    let (lpower, next_is_neither) = assoc_power(assoc);
                    let repeated = match current_is_neither {
                        None => false,
                        Some(n) => n == lpower,
                    };
                    if repeated {
                        assert forall|r: IResult<I, O, E>|
                            #[trigger] yard(y, YardPhase::Unwind, start, values@, ops@, neither, round_len, round_fresh, r)
                                implies yard(y, YardPhase::Infix, start, values@, ops@, neither, round_len, round_fresh, r) by {
                        }
                        i = start;
                        proof {
                            end_neither = neither;
                            end_len = round_len;
                            end_fresh = round_fresh;
                        }
                        break;
                    }
                    let ghost phase = YardPhase::<I, U, B>::InfixPush(start, assoc, f);
                    assert forall|r: IResult<I, O, E>|
                        #[trigger] yard(y, phase, after, values@, ops@, neither, round_len, round_fresh, r)
                            implies yard(y, YardPhase::Infix, start, values@, ops@, neither, round_len, round_fresh, r) by {
                    }
                    i = after;
                    let ghost vals1 = values@;
                    let ghost ops1 = ops@;
                    match reduce_while_tighter::<I, O, E, Pop, Pre, Post, Pix, U, B>(Ghost(y), Ghost(input), Ghost(phase), Ghost(neither), Ghost(round_len), Ghost(round_fresh), i, &mut values, &mut ops, lpower) {
                        Ok(_) => {},
                        Err(x) => {
                            let r = Err(x);
                            assert(yard(y, phase, i, vals1, ops1, neither, round_len, round_fresh, r));
                            return r;
                        },
                    }
                    current_is_neither = next_is_neither;
                    assert(next_is_neither == assoc_neither(assoc));
                    if self.start_precedence <= lpower {
                        let ghost ops2 = ops@;
                        let ghost vals2 = values@;
                        ops.push(Operator::Binary(assoc, f));
                        assert(ops@.drop_last() == ops2);
                        let now = i.token_count();
                        if now > round_start_len || (now == round_start_len && !(!round_was_neither
                            && next_is_neither.is_some())) {
                            let r = Err(ErrMode::Cut(E::from_error_kind(i, ErrorKind::Verify)));
                            assert(yard(y, phase, i, vals2, ops2, neither, round_len, round_fresh, r));
                            return r;
                        }
                        assert forall|r: IResult<I, O, E>|
                            #[trigger] yard(
                                y,
                                YardPhase::Prefix,
                                i,
                                values@,
                                ops@,
                                current_is_neither,
                                i.tokens().len(),
                                current_is_neither is None,
                                r,
                            ) implies yard(y, phase, i, vals2, ops2, neither, round_len, round_fresh, r) by {
                        }
                    } else {
                        assert forall|r: IResult<I, O, E>|
                            #[trigger] yard(y, YardPhase::Unwind, start, values@, ops@, neither, round_len, round_fresh, r)
                                implies yard(y, phase, i, values@, ops@, neither, round_len, round_fresh, r) by {
                        }
                        i = start;
                        proof {
                            end_neither = neither;
                            end_len = round_len;
                            end_fresh = round_fresh;
                        }
                        break;
                    }
                },
                Err(ErrMode::Backtrack(_)) => {
                    assert forall|r: IResult<I, O, E>|
                        #[trigger] yard(y, YardPhase::Unwind, start, values@, ops@, neither, round_len, round_fresh, r)
                            implies yard(y, YardPhase::Infix, start, values@, ops@, neither, round_len, round_fresh, r) by {
                    }
                    proof {
                        end_neither = neither;
                        end_len = round_len;
                        end_fresh = round_fresh;
                    }
                    break;
                },
                Err(x) => {
                    let r = Err(x);
                    assert(yard(y, YardPhase::Infix, start, values@, ops@, neither, round_len, round_fresh, r));
                    return r;
                },
            }
        }
        while ops.len() > 0
            invariant
                values@.len() == binary_count(ops@) + 1,
                leads_back(y, input, YardPhase::Unwind, i, values@, ops@, end_neither, end_len, end_fresh),
                *self == y,
                y == *old(self),
                yard_req(y),
            decreases ops@.len(),
        {
            let ghost vals0 = values@;
            let ghost ops0 = ops@;
            let op = ops.pop().unwrap();
            assert(ops@ == ops0.drop_last());
            let res = evaluate(i, &mut values, op);
            let ghost gres = res;
            let ghost out = match gres {
                Ok(_) => Ok::<Seq<O>, ErrMode<E>>(values@),
                Err(x) => Err::<Seq<O>, ErrMode<E>>(x),
            };
            assert(evaluated(i, vals0, ops0.last(), out));
            match res {
                Ok(_) => {
                    assert forall|r: IResult<I, O, E>|
                        #[trigger] yard(y, YardPhase::Unwind, i, values@, ops@, end_neither, end_len, end_fresh, r)
                            implies yard(y, YardPhase::Unwind, i, vals0, ops0, end_neither, end_len, end_fresh, r) by {
                    }
                },
                Err(x) => {
                    let r = Err(x);
                    assert(yard(y, YardPhase::Unwind, i, vals0, ops0, end_neither, end_len, end_fresh, r));
                    return r;
                },
            }
        }
        let ghost vals_end = values@;
        let v = values.pop().unwrap();
        let r = Ok((i, v));
        assert(yard(y, YardPhase::Unwind, i, vals_end, ops@, end_neither, end_len, end_fresh, r));
        r
    }
}

/// The operator stack groups `a op1 b op2 c` by binding power: an infix operator holds the
/// operand to its right with its power plus one when left-associative and minus one when
/// right-associative, and `op2` takes `b` from `op1` only when its own power is below that:
/// for a left-associative `op1` of power `p1` when `op2`'s power is at most `p1`, for a
/// right-associative one when it is below `p1 - 1`. So the higher power binds tighter, equal
/// left-associative powers group to the left (`(a op1 b) op2 c`) and equal right-associative
/// powers to the right (`a op1 (b op2 c)`); each operator's function is called once, on its
/// operands in source order.
///
/// The parse runs on `i0`: the operands `a`, `b`, `c` are read from `i0`, `i2`, `i4` up to
/// `i1`, `i3` and the end of the input `i5`, and the two infix operators from `i1` and `i3`
/// up to `i2` and `i4`; no prefix or postfix operator is found, every parser gives the one
/// result described, and the operator functions compute `h1` and `h2`.
pub proof fn law_precedence_groups<I, O, E, Pop, Pre, Post, Pix, U, B>(
    y: Precedence<I, O, E, Pop, Pre, Post, Pix, U, B>,
    i0: I,
    i1: I,
    i2: I,
    i3: I,
    i4: I,
    i5: I,
    a: O,
    b: O,
    c: O,
    as1: Assoc,
    g1: B,
    as2: Assoc,
    g2: B,
    h1: spec_fn(O, O) -> O,
    h2: spec_fn(O, O) -> O,
    r: IResult<I, O, E>,
)
    where
        I: Input,
        E: ParseError<I>,
        Pop: Parser<I, O, E>,
        Pre: Parser<I, (i64, U), E>,
        Post: Parser<I, (i64, U), E>,
        Pix: Parser<I, (Assoc, B), E>,
        U: Fn(I, O) -> Result<O, ErrMode<E>>,
        B: Fn(I, O, O) -> Result<O, ErrMode<E>>,
    requires
        i0.tokens().len() > i1.tokens().len() > i2.tokens().len() > i3.tokens().len()
            > i4.tokens().len() > i5.tokens().len(),
        i5.tokens().len() == 0,
        !(as1 is Neither),
        !(as2 is Neither),
        y.start_precedence <= assoc_power_of(as1),
        y.start_precedence <= assoc_power_of(as2),
        forall|res| #[trigger] y.prefix.parse_rel(i0, res) ==> res is Err && res->Err_0 is Backtrack,
        forall|res| #[trigger] y.prefix.parse_rel(i2, res) ==> res is Err && res->Err_0 is Backtrack,
        forall|res| #[trigger] y.prefix.parse_rel(i4, res) ==> res is Err && res->Err_0 is Backtrack,
        forall|res| #[trigger] y.postfix.parse_rel(i1, res) ==> res is Err && res->Err_0 is Backtrack,
        forall|res| #[trigger] y.postfix.parse_rel(i3, res) ==> res is Err && res->Err_0 is Backtrack,
        forall|res| #[trigger] y.operand.parse_rel(i0, res) ==> res == Ok::<(I, O), ErrMode<E>>((i1, a)),
        forall|res| #[trigger] y.operand.parse_rel(i2, res) ==> res == Ok::<(I, O), ErrMode<E>>((i3, b)),
        forall|res| #[trigger] y.operand.parse_rel(i4, res) ==> res == Ok::<(I, O), ErrMode<E>>((i5, c)),
        forall|res| #[trigger] y.infix.parse_rel(i1, res) ==> res == Ok::<(I, (Assoc, B)), ErrMode<E>>((i2, (as1, g1))),
        forall|res| #[trigger] y.infix.parse_rel(i3, res) ==> res == Ok::<(I, (Assoc, B)), ErrMode<E>>((i4, (as2, g2))),
        forall|i: I, x: O, z: O, res: Result<O, ErrMode<E>>|
            #[trigger] call_ensures(g1, (i, x, z), res) ==> res == Ok::<O, ErrMode<E>>(h1(x, z)),
        forall|i: I, x: O, z: O, res: Result<O, ErrMode<E>>|
            #[trigger] call_ensures(g2, (i, x, z), res) ==> res == Ok::<O, ErrMode<E>>(h2(x, z)),
        y.parse_rel(i0, r),
    ensures
        r == Ok::<(I, O), ErrMode<E>>((i5, if (match as1 {
            Assoc::Left(p1) => assoc_power_of(as2) <= p1,
            Assoc::Right(p1) => assoc_power_of(as2) + 1 < p1,
            Assoc::Neither(_) => false,
        }) {
            h2(h1(a, b), c)
        } else {
            h1(a, h2(b, c))
        })),
{
    let e0 = Seq::<O>::empty();
    let n0 = Seq::<Operator<U, B>>::empty();
    let len0 = i0.tokens().len();
    let op1 = Operator::<U, B>::Binary(as1, g1);
    let op2 = Operator::<U, B>::Binary(as2, g2);
    // the first round: operand `a`, then `op1`
    assert(yard(y, YardPhase::Operand, i0, e0, n0, None, len0, true, r));
    assert(yard(y, YardPhase::Postfix, i1, e0.push(a), n0, None, len0, true, r));
    assert(yard(y, YardPhase::Infix, i1, e0.push(a), n0, None, len0, true, r));
    assert(yard(y, YardPhase::InfixPush(i1, as1, g1), i2, e0.push(a), n0, None, len0, true, r));
    let len2 = i2.tokens().len();
    assert(assoc_neither(as1) == None::<i64>);
    assert(yard(y, YardPhase::Prefix, i2, e0.push(a), n0.push(op1), None, len2, true, r));
    // the second round: operand `b`, then `op2`
    assert(yard(y, YardPhase::Operand, i2, e0.push(a), n0.push(op1), None, len2, true, r));
    assert(yard(y, YardPhase::Postfix, i3, e0.push(a).push(b), n0.push(op1), None, len2, true, r));
    assert(yard(y, YardPhase::Infix, i3, e0.push(a).push(b), n0.push(op1), None, len2, true, r));
    let vab = e0.push(a).push(b);
    assert(yard(y, YardPhase::InfixPush(i3, as2, g2), i4, vab, n0.push(op1), None, len2, true, r));
    let len4 = i4.tokens().len();
    assert(n0.push(op1).last() == op1);
    assert(vab[vab.len() - 2] == a && vab.last() == b);
    if assoc_power_of(as2) < right_power_of(op1) {
        let v1 = e0.push(h1(a, b));
        assert(vab.drop_last().drop_last().push(h1(a, b)) =~= v1);
        assert(n0.push(op1).drop_last() =~= n0);
        assert(evaluated(i4, vab, op1, Ok::<Seq<O>, ErrMode<E>>(v1)));
        assert(yard(y, YardPhase::InfixPush(i3, as2, g2), i4, v1, n0, None, len2, true, r));
        assert(assoc_neither(as2) == None::<i64>);
        assert(yard(y, YardPhase::Prefix, i4, v1, n0.push(op2), None, len4, true, r));
        assert(yard(y, YardPhase::Operand, i4, v1, n0.push(op2), None, len4, true, r));
        let v1c = v1.push(c);
        assert(yard(y, YardPhase::Unwind, i5, v1c, n0.push(op2), None, len4, true, r));
        assert(n0.push(op2).last() == op2);
        assert(n0.push(op2).drop_last() =~= n0);
        assert(v1c[v1c.len() - 2] == h1(a, b) && v1c.last() == c);
        let v2 = e0.push(h2(h1(a, b), c));
        assert(v1c.drop_last().drop_last().push(h2(h1(a, b), c)) =~= v2);
        assert(evaluated(i5, v1c, op2, Ok::<Seq<O>, ErrMode<E>>(v2)));
        assert(yard(y, YardPhase::Unwind, i5, v2, n0, None, len4, true, r));
    } else {
        assert(assoc_neither(as2) == None::<i64>);
        let ops = n0.push(op1).push(op2);
        assert(yard(y, YardPhase::Prefix, i4, vab, ops, None, len4, true, r));
        assert(yard(y, YardPhase::Operand, i4, vab, ops, None, len4, true, r));
        let vabc = vab.push(c);
        assert(yard(y, YardPhase::Unwind, i5, vabc, ops, None, len4, true, r));
        assert(ops.last() == op2);
        assert(ops.drop_last() =~= n0.push(op1));
        assert(vabc[vabc.len() - 2] == b && vabc.last() == c);
        let vbc = vab.drop_last().push(h2(b, c));
        assert(vabc.drop_last().drop_last().push(h2(b, c)) =~= vbc);
        assert(evaluated(i5, vabc, op2, Ok::<Seq<O>, ErrMode<E>>(vbc)));
        assert(yard(y, YardPhase::Unwind, i5, vbc, n0.push(op1), None, len4, true, r));
        assert(vbc[vbc.len() - 2] == a && vbc.last() == h2(b, c));
        let v = e0.push(h1(a, h2(b, c)));
        assert(vbc.drop_last().drop_last().push(h1(a, h2(b, c))) =~= v);
        assert(n0.push(op1).drop_last() =~= n0);
        assert(evaluated(i5, vbc, op1, Ok::<Seq<O>, ErrMode<E>>(v)));
        assert(yard(y, YardPhase::Unwind, i5, v, n0, None, len4, true, r));
    }
}

/// The value of `v0 op0 v1 op1 ... vn` folded from the left, `fs[j]` computing `op j`.
pub open spec fn left_fold<O>(vs: Seq<O>, fs: Seq<spec_fn(O, O) -> O>, k: nat) -> O
    decreases k,
{
    if k == 0 {
        vs[0]
    } else {
        (fs[k - 1])(left_fold(vs, fs, (k - 1) as nat), vs[k as int])
    }
}

/// What a chain of operands and infix operators that all read as `assoc` gives a parser: the
/// `j`-th operand is read from `starts[j]` up to `ends[j]`, the `j`-th operator from
/// `ends[j]` up to `starts[j + 1]`, with the function `gs[j]` computing `fs[j]`, and no
/// prefix or postfix operator is found.
pub open spec fn chain<I, O, E, Pop, Pre, Post, Pix, U, B>(
    y: Precedence<I, O, E, Pop, Pre, Post, Pix, U, B>,
    starts: Seq<I>,
    ends: Seq<I>,
    vs: Seq<O>,
    assoc: Assoc,
    gs: Seq<B>,
    fs: Seq<spec_fn(O, O) -> O>,
) -> bool where
    I: Input,
    E: ParseError<I>,
    Pop: Parser<I, O, E>,
    Pre: Parser<I, (i64, U), E>,
    Post: Parser<I, (i64, U), E>,
    Pix: Parser<I, (Assoc, B), E>,
    U: Fn(I, O) -> Result<O, ErrMode<E>>,
    B: Fn(I, O, O) -> Result<O, ErrMode<E>>,
{
    let n = gs.len() as int;
    &&& n >= 1
    &&& starts.len() == n + 1 && ends.len() == n + 1 && vs.len() == n + 1 && fs.len() == n
    &&& y.start_precedence <= assoc_power_of(assoc)
    &&& ends[n].tokens().len() == 0
    &&& forall|j: int| 0 <= j <= n ==> #[trigger] starts[j].tokens().len() > ends[j].tokens().len()
    &&& forall|j: int| 0 <= j < n ==> #[trigger] ends[j].tokens().len() > starts[j + 1].tokens().len()
    &&& forall|i: I, res| #[trigger] y.prefix.parse_rel(i, res) ==> res is Err && res->Err_0 is Backtrack
    &&& forall|i: I, res| #[trigger] y.postfix.parse_rel(i, res) ==> res is Err && res->Err_0 is Backtrack
    &&& forall|j: int, res|
        0 <= j <= n && #[trigger] y.operand.parse_rel(starts[j], res) ==> res == Ok::<(I, O), ErrMode<E>>(
            (ends[j], vs[j]),
        )
    &&& forall|j: int, res|
        0 <= j < n && #[trigger] y.infix.parse_rel(ends[j], res) ==> res == Ok::<
            (I, (Assoc, B)),
            ErrMode<E>,
        >((starts[j + 1], (assoc, gs[j])))
    &&& forall|j: int, i: I, x: O, z: O, res: Result<O, ErrMode<E>>|
        0 <= j < n && #[trigger] call_ensures(gs[j], (i, x, z), res) ==> res == Ok::<O, ErrMode<E>>(
            (fs[j])(x, z),
        )
}

/// From the `j`-th operand on, a left chain folds to the left.
proof fn lemma_left_chain<I, O, E, Pop, Pre, Post, Pix, U, B>(
    y: Precedence<I, O, E, Pop, Pre, Post, Pix, U, B>,
    starts: Seq<I>,
    ends: Seq<I>,
    vs: Seq<O>,
    power: i64,
    gs: Seq<B>,
    fs: Seq<spec_fn(O, O) -> O>,
    j: int,
    r: IResult<I, O, E>,
)
    where
        I: Input,
        E: ParseError<I>,
        Pop: Parser<I, O, E>,
        Pre: Parser<I, (i64, U), E>,
        Post: Parser<I, (i64, U), E>,
        Pix: Parser<I, (Assoc, B), E>,
        U: Fn(I, O) -> Result<O, ErrMode<E>>,
        B: Fn(I, O, O) -> Result<O, ErrMode<E>>,
    requires
        chain(y, starts, ends, vs, Assoc::Left(power), gs, fs),
        1 <= j <= gs.len(),
        yard(
            y,
            YardPhase::Prefix,
            starts[j],
            seq![left_fold(vs, fs, (j - 1) as nat)],
            seq![Operator::<U, B>::Binary(Assoc::Left(power), gs[j - 1])],
            None,
            starts[j].tokens().len(),
            true,
            r,
        ),
    ensures
        r == Ok::<(I, O), ErrMode<E>>((ends[gs.len() as int], left_fold(vs, fs, gs.len() as nat))),
    decreases gs.len() - j,
{
    let n = gs.len() as int;
    let acc = left_fold(vs, fs, (j - 1) as nat);
    let vals = seq![acc];
    let op = Operator::<U, B>::Binary(Assoc::Left(power), gs[j - 1]);
    let ops = seq![op];
    let len = starts[j].tokens().len();
    assert(starts[j].tokens().len() > ends[j].tokens().len());
    assert(yard(y, YardPhase::Operand, starts[j], vals, ops, None, len, true, r));
    let next = left_fold(vs, fs, j as nat);
    let vv = vals.push(vs[j]);
    assert(vv[vv.len() - 2] == acc && vv.last() == vs[j]);
    assert(ops.last() == op);
    assert(ops.drop_last() =~= Seq::<Operator<U, B>>::empty());
    assert(vv.drop_last().drop_last().push(next) =~= seq![next]);
    if j == n {
        assert(yard(y, YardPhase::Unwind, ends[j], vv, ops, None, len, true, r));
        assert(evaluated(ends[j], vv, op, Ok::<Seq<O>, ErrMode<E>>(seq![next])));
        assert(yard(y, YardPhase::Unwind, ends[j], seq![next], Seq::<Operator<U, B>>::empty(), None, len, true, r));
    } else {
        assert(ends[j].tokens().len() > starts[j + 1].tokens().len());
        assert(yard(y, YardPhase::Postfix, ends[j], vv, ops, None, len, true, r));
        assert(yard(y, YardPhase::Infix, ends[j], vv, ops, None, len, true, r));
        assert(yard(y, YardPhase::InfixPush(ends[j], Assoc::Left(power), gs[j]), starts[j + 1], vv, ops, None, len, true, r));
        assert(evaluated(starts[j + 1], vv, op, Ok::<Seq<O>, ErrMode<E>>(seq![next])));
        assert(yard(y, YardPhase::InfixPush(ends[j], Assoc::Left(power), gs[j]), starts[j + 1], seq![next], Seq::<Operator<U, B>>::empty(), None, len, true, r));
        let op2 = Operator::<U, B>::Binary(Assoc::Left(power), gs[j]);
        assert(Seq::<Operator<U, B>>::empty().push(op2) =~= seq![op2]);
        assert(yard(y, YardPhase::Prefix, starts[j + 1], seq![next], seq![op2], None, starts[j + 1].tokens().len(), true, r));
        lemma_left_chain(y, starts, ends, vs, power, gs, fs, j + 1, r);
    }
}

/// An expression of operands and left-associative operators of one power is folded from the
/// left: `v0 op0 v1 op1 ... vn` gives `(...((v0 op0 v1) op1 v2)...) vn`, each operator's
/// function called once, in source order, on the value so far and the next operand.
pub proof fn law_precedence_left_chain<I, O, E, Pop, Pre, Post, Pix, U, B>(
    y: Precedence<I, O, E, Pop, Pre, Post, Pix, U, B>,
    starts: Seq<I>,
    ends: Seq<I>,
    vs: Seq<O>,
    power: i64,
    gs: Seq<B>,
    fs: Seq<spec_fn(O, O) -> O>,
    r: IResult<I, O, E>,
)
    where
        I: Input,
        E: ParseError<I>,
        Pop: Parser<I, O, E>,
        Pre: Parser<I, (i64, U), E>,
        Post: Parser<I, (i64, U), E>,
        Pix: Parser<I, (Assoc, B), E>,
        U: Fn(I, O) -> Result<O, ErrMode<E>>,
        B: Fn(I, O, O) -> Result<O, ErrMode<E>>,
    requires
        chain(y, starts, ends, vs, Assoc::Left(power), gs, fs),
        y.parse_rel(starts[0], r),
    ensures
        r == Ok::<(I, O), ErrMode<E>>((ends[gs.len() as int], left_fold(vs, fs, gs.len() as nat))),
{
    let e0 = Seq::<O>::empty();
    let n0 = Seq::<Operator<U, B>>::empty();
    let len0 = starts[0].tokens().len();
    assert(starts[0].tokens().len() > ends[0].tokens().len());
    assert(ends[0].tokens().len() > starts[1].tokens().len());
    assert(yard(y, YardPhase::Operand, starts[0], e0, n0, None, len0, true, r));
    assert(yard(y, YardPhase::Postfix, ends[0], e0.push(vs[0]), n0, None, len0, true, r));
    assert(yard(y, YardPhase::Infix, ends[0], e0.push(vs[0]), n0, None, len0, true, r));
    assert(yard(y, YardPhase::InfixPush(ends[0], Assoc::Left(power), gs[0]), starts[1], e0.push(vs[0]), n0, None, len0, true, r));
    let op = Operator::<U, B>::Binary(Assoc::Left(power), gs[0]);
    assert(n0.push(op) =~= seq![op]);
    assert(e0.push(vs[0]) =~= seq![left_fold(vs, fs, 0)]);
    assert(yard(y, YardPhase::Prefix, starts[1], seq![left_fold(vs, fs, 0)], seq![op], None, starts[1].tokens().len(), true, r));
    lemma_left_chain(y, starts, ends, vs, power, gs, fs, 1, r);
}

/// The value of `vk opk ... vn` folded from the right, `fs[j]` computing `op j`.
pub open spec fn right_fold<O>(vs: Seq<O>, fs: Seq<spec_fn(O, O) -> O>, k: nat) -> O
    decreases fs.len() - k,
{
    if k >= fs.len() {
        vs[k as int]
    } else {
        (fs[k as int])(vs[k as int], right_fold(vs, fs, k + 1))
    }
}

/// The infix operators of a chain, each read as `assoc` with its function from `gs`.
pub open spec fn chain_operators<U, B>(assoc: Assoc, gs: Seq<B>) -> Seq<Operator<U, B>> {
    gs.map_values(|g: B| Operator::<U, B>::Binary(assoc, g))
}

/// At the end of a right chain, with the first `k` operands and operators waiting and the
/// rest folded into the top value, unwinding folds the whole chain from the right.
proof fn lemma_right_unwind<I, O, E, Pop, Pre, Post, Pix, U, B>(
    y: Precedence<I, O, E, Pop, Pre, Post, Pix, U, B>,
    starts: Seq<I>,
    ends: Seq<I>,
    vs: Seq<O>,
    power: i64,
    gs: Seq<B>,
    fs: Seq<spec_fn(O, O) -> O>,
    k: int,
    len: nat,
    r: IResult<I, O, E>,
)
    where
        I: Input,
        E: ParseError<I>,
        Pop: Parser<I, O, E>,
        Pre: Parser<I, (i64, U), E>,
        Post: Parser<I, (i64, U), E>,
        Pix: Parser<I, (Assoc, B), E>,
        U: Fn(I, O) -> Result<O, ErrMode<E>>,
        B: Fn(I, O, O) -> Result<O, ErrMode<E>>,
    requires
        chain(y, starts, ends, vs, Assoc::Right(power), gs, fs),
        0 <= k <= gs.len(),
        yard(
            y,
            YardPhase::Unwind,
            ends[gs.len() as int],
            vs.take(k).push(right_fold(vs, fs, k as nat)),
            chain_operators::<U, B>(Assoc::Right(power), gs).take(k),
            None,
            len,
            true,
            r,
        ),
    ensures
        r == Ok::<(I, O), ErrMode<E>>((ends[gs.len() as int], right_fold(vs, fs, 0))),
    decreases k,
{
    let i = ends[gs.len() as int];
    let vals = vs.take(k).push(right_fold(vs, fs, k as nat));
    let ops = chain_operators::<U, B>(Assoc::Right(power), gs).take(k);
    if k > 0 {
        let op = Operator::<U, B>::Binary(Assoc::Right(power), gs[k - 1]);
        assert(ops.last() == op);
        assert(vals[vals.len() - 2] == vs[k - 1] && vals.last() == right_fold(vs, fs, k as nat));
        let folded = right_fold(vs, fs, (k - 1) as nat);
        assert(folded == (fs[k - 1])(vs[k - 1], right_fold(vs, fs, k as nat)));
        let vals2 = vs.take(k - 1).push(folded);
        assert(vals.drop_last().drop_last().push(folded) =~= vals2);
        assert(ops.drop_last() =~= chain_operators::<U, B>(Assoc::Right(power), gs).take(k - 1));
        assert(evaluated(i, vals, op, Ok::<Seq<O>, ErrMode<E>>(vals2)));
        assert(yard(y, YardPhase::Unwind, i, vals2, ops.drop_last(), None, len, true, r));
        lemma_right_unwind(y, starts, ends, vs, power, gs, fs, k - 1, len, r);
    } else {
        assert(vals =~= seq![right_fold(vs, fs, 0)]);
    }
}

/// From the `j`-th operand on, a right chain waits with every operator and folds from the
/// right at the end.
proof fn lemma_right_chain<I, O, E, Pop, Pre, Post, Pix, U, B>(
    y: Precedence<I, O, E, Pop, Pre, Post, Pix, U, B>,
    starts: Seq<I>,
    ends: Seq<I>,
    vs: Seq<O>,
    power: i64,
    gs: Seq<B>,
    fs: Seq<spec_fn(O, O) -> O>,
    j: int,
    r: IResult<I, O, E>,
)
    where
        I: Input,
        E: ParseError<I>,
        Pop: Parser<I, O, E>,
        Pre: Parser<I, (i64, U), E>,
        Post: Parser<I, (i64, U), E>,
        Pix: Parser<I, (Assoc, B), E>,
        U: Fn(I, O) -> Result<O, ErrMode<E>>,
        B: Fn(I, O, O) -> Result<O, ErrMode<E>>,
    requires
        chain(y, starts, ends, vs, Assoc::Right(power), gs, fs),
        0 <= j <= gs.len(),
        yard(
            y,
            YardPhase::Prefix,
            starts[j],
            vs.take(j),
            chain_operators::<U, B>(Assoc::Right(power), gs).take(j),
            None,
            starts[j].tokens().len(),
            true,
            r,
        ),
    ensures
        r == Ok::<(I, O), ErrMode<E>>((ends[gs.len() as int], right_fold(vs, fs, 0))),
    decreases gs.len() - j,
{
    let n = gs.len() as int;
    let all = chain_operators::<U, B>(Assoc::Right(power), gs);
    let vals = vs.take(j);
    let ops = all.take(j);
    let len = starts[j].tokens().len();
    assert(starts[j].tokens().len() > ends[j].tokens().len());
    assert(yard(y, YardPhase::Operand, starts[j], vals, ops, None, len, true, r));
    let vv = vals.push(vs[j]);
    assert(vv =~= vs.take(j + 1));
    if j == n {
        assert(yard(y, YardPhase::Unwind, ends[j], vv, ops, None, len, true, r));
        assert(vv =~= vs.take(n).push(right_fold(vs, fs, n as nat)));
        lemma_right_unwind(y, starts, ends, vs, power, gs, fs, n, len, r);
    } else {
        assert(ends[j].tokens().len() > starts[j + 1].tokens().len());
        assert(yard(y, YardPhase::Postfix, ends[j], vv, ops, None, len, true, r));
        assert(yard(y, YardPhase::Infix, ends[j], vv, ops, None, len, true, r));
        assert(yard(y, YardPhase::InfixPush(ends[j], Assoc::Right(power), gs[j]), starts[j + 1], vv, ops, None, len, true, r));
        if j > 0 {
            assert(ops.last() == Operator::<U, B>::Binary(Assoc::Right(power), gs[j - 1]));
        }
        let op = Operator::<U, B>::Binary(Assoc::Right(power), gs[j]);
        assert(ops.push(op) =~= all.take(j + 1));
        assert(yard(y, YardPhase::Prefix, starts[j + 1], vv, ops.push(op), None, starts[j + 1].tokens().len(), true, r));
        lemma_right_chain(y, starts, ends, vs, power, gs, fs, j + 1, r);
    }
}

/// An expression of operands and right-associative operators of one power is folded from the
/// right: `v0 op0 v1 op1 ... vn` gives `v0 op0 (v1 op1 (... vn))`, every operator waiting
/// until the end, each operator's function called once, on its left operand and the value of
/// the rest.
pub proof fn law_precedence_right_chain<I, O, E, Pop, Pre, Post, Pix, U, B>(
    y: Precedence<I, O, E, Pop, Pre, Post, Pix, U, B>,
    starts: Seq<I>,
    ends: Seq<I>,
    vs: Seq<O>,
    power: i64,
    gs: Seq<B>,
    fs: Seq<spec_fn(O, O) -> O>,
    r: IResult<I, O, E>,
)
    where
        I: Input,
        E: ParseError<I>,
        Pop: Parser<I, O, E>,
        Pre: Parser<I, (i64, U), E>,
        Post: Parser<I, (i64, U), E>,
        Pix: Parser<I, (Assoc, B), E>,
        U: Fn(I, O) -> Result<O, ErrMode<E>>,
        B: Fn(I, O, O) -> Result<O, ErrMode<E>>,
    requires
        chain(y, starts, ends, vs, Assoc::Right(power), gs, fs),
        y.parse_rel(starts[0], r),
    ensures
        r == Ok::<(I, O), ErrMode<E>>((ends[gs.len() as int], right_fold(vs, fs, 0))),
{
    assert(vs.take(0) =~= Seq::<O>::empty());
    assert(chain_operators::<U, B>(Assoc::Right(power), gs).take(0) =~= Seq::<Operator<U, B>>::empty());
    lemma_right_chain(y, starts, ends, vs, power, gs, fs, 0, r);
}

/// A waiting prefix operator is applied before an infix operator of lower power is pushed:
/// `op1 a op2 b`, with a prefix `op1` of power `p1` and an infix `op2` of power `p2`, gives
/// `op2(op1(a), b)` when `p2 < p1`, and `op1(op2(a, b))` otherwise; so with `-` of power 20
/// and `+` of power 5, `-2+3` is `(-2)+3`.
///
/// The parse runs on `i0`: the prefix operator is read from `i0` up to `i1`, the operands
/// `a` and `b` from `i1` and `i3` up to `i2` and the end of the input `i4`, and the infix
/// operator from `i2` up to `i3`; no other prefix and no postfix operator is found, every
/// parser gives the one result described, and the operator functions compute `h1` and `h2`.
pub proof fn law_precedence_prefix_binds<I, O, E, Pop, Pre, Post, Pix, U, B>(
    y: Precedence<I, O, E, Pop, Pre, Post, Pix, U, B>,
    i0: I,
    i1: I,
    i2: I,
    i3: I,
    i4: I,
    a: O,
    b: O,
    p1: i64,
    u1: U,
    p2: i64,
    as2: Assoc,
    g2: B,
    h1: spec_fn(O) -> O,
    h2: spec_fn(O, O) -> O,
    r: IResult<I, O, E>,
)
    where
        I: Input,
        E: ParseError<I>,
        Pop: Parser<I, O, E>,
        Pre: Parser<I, (i64, U), E>,
        Post: Parser<I, (i64, U), E>,
        Pix: Parser<I, (Assoc, B), E>,
        U: Fn(I, O) -> Result<O, ErrMode<E>>,
        B: Fn(I, O, O) -> Result<O, ErrMode<E>>,
    requires
        i0.tokens().len() > i1.tokens().len() > i2.tokens().len() > i3.tokens().len()
            > i4.tokens().len(),
        i4.tokens().len() == 0,
        as2 == Assoc::Left(p2) || as2 == Assoc::Right(p2),
        y.start_precedence <= p2,
        forall|res| #[trigger] y.prefix.parse_rel(i0, res) ==> res == Ok::<(I, (i64, U)), ErrMode<E>>((i1, (p1, u1))),
        forall|res| #[trigger] y.prefix.parse_rel(i1, res) ==> res is Err && res->Err_0 is Backtrack,
        forall|res| #[trigger] y.prefix.parse_rel(i3, res) ==> res is Err && res->Err_0 is Backtrack,
        forall|res| #[trigger] y.postfix.parse_rel(i2, res) ==> res is Err && res->Err_0 is Backtrack,
        forall|res| #[trigger] y.operand.parse_rel(i1, res) ==> res == Ok::<(I, O), ErrMode<E>>((i2, a)),
        forall|res| #[trigger] y.operand.parse_rel(i3, res) ==> res == Ok::<(I, O), ErrMode<E>>((i4, b)),
        forall|res| #[trigger] y.infix.parse_rel(i2, res) ==> res == Ok::<(I, (Assoc, B)), ErrMode<E>>((i3, (as2, g2))),
        forall|i: I, x: O, res: Result<O, ErrMode<E>>|
            #[trigger] call_ensures(u1, (i, x), res) ==> res == Ok::<O, ErrMode<E>>(h1(x)),
        forall|i: I, x: O, z: O, res: Result<O, ErrMode<E>>|
            #[trigger] call_ensures(g2, (i, x, z), res) ==> res == Ok::<O, ErrMode<E>>(h2(x, z)),
        y.parse_rel(i0, r),
    ensures
        r == Ok::<(I, O), ErrMode<E>>((i4, if p2 < p1 {
            h2(h1(a), b)
        } else {
            h1(h2(a, b))
        })),
{
    let e0 = Seq::<O>::empty();
    let n0 = Seq::<Operator<U, B>>::empty();
    let len0 = i0.tokens().len();
    let op1 = Operator::<U, B>::Unary(p1, u1);
    let op2 = Operator::<U, B>::Binary(as2, g2);
    assert(yard(y, YardPhase::Prefix, i1, e0, n0.push(op1), None, len0, true, r));
    assert(yard(y, YardPhase::Operand, i1, e0, n0.push(op1), None, len0, true, r));
    let va = e0.push(a);
    assert(yard(y, YardPhase::Postfix, i2, va, n0.push(op1), None, len0, true, r));
    assert(yard(y, YardPhase::Infix, i2, va, n0.push(op1), None, len0, true, r));
    assert(assoc_power_of(as2) == p2);
    assert(assoc_neither(as2) == None::<i64>);
    assert(yard(y, YardPhase::InfixPush(i2, as2, g2), i3, va, n0.push(op1), None, len0, true, r));
    assert(n0.push(op1).last() == op1);
    assert(n0.push(op1).drop_last() =~= n0);
    let len3 = i3.tokens().len();
    if p2 < p1 {
        let v1 = e0.push(h1(a));
        assert(va.drop_last().push(h1(a)) =~= v1);
        assert(evaluated(i3, va, op1, Ok::<Seq<O>, ErrMode<E>>(v1)));
        assert(yard(y, YardPhase::InfixPush(i2, as2, g2), i3, v1, n0, None, len0, true, r));
        assert(yard(y, YardPhase::Prefix, i3, v1, n0.push(op2), None, len3, true, r));
        assert(yard(y, YardPhase::Operand, i3, v1, n0.push(op2), None, len3, true, r));
        let v1b = v1.push(b);
        assert(yard(y, YardPhase::Unwind, i4, v1b, n0.push(op2), None, len3, true, r));
        assert(n0.push(op2).last() == op2);
        assert(n0.push(op2).drop_last() =~= n0);
        assert(v1b[v1b.len() - 2] == h1(a) && v1b.last() == b);
        let v2 = e0.push(h2(h1(a), b));
        assert(v1b.drop_last().drop_last().push(h2(h1(a), b)) =~= v2);
        assert(evaluated(i4, v1b, op2, Ok::<Seq<O>, ErrMode<E>>(v2)));
        assert(yard(y, YardPhase::Unwind, i4, v2, n0, None, len3, true, r));
    } else {
        let ops = n0.push(op1).push(op2);
        assert(yard(y, YardPhase::Prefix, i3, va, ops, None, len3, true, r));
        assert(yard(y, YardPhase::Operand, i3, va, ops, None, len3, true, r));
        let vab = va.push(b);
        assert(yard(y, YardPhase::Unwind, i4, vab, ops, None, len3, true, r));
        assert(ops.last() == op2);
        assert(ops.drop_last() =~= n0.push(op1));
        assert(vab[vab.len() - 2] == a && vab.last() == b);
        let v1 = e0.push(h2(a, b));
        assert(vab.drop_last().drop_last().push(h2(a, b)) =~= v1);
        assert(evaluated(i4, vab, op2, Ok::<Seq<O>, ErrMode<E>>(v1)));
        assert(yard(y, YardPhase::Unwind, i4, v1, n0.push(op1), None, len3, true, r));
        let v2 = e0.push(h1(h2(a, b)));
        assert(v1.drop_last().push(h1(h2(a, b))) =~= v2);
        assert(evaluated(i4, v1, op1, Ok::<Seq<O>, ErrMode<E>>(v2)));
        assert(yard(y, YardPhase::Unwind, i4, v2, n0, None, len3, true, r));
    }
}

/// A postfix operator takes the operand from a waiting prefix operator only when it binds
/// tighter: `op1 a op3`, with a prefix `op1` of power `p1` and a postfix `op3` of power `p3`,
/// gives `op3(op1(a))` when `p3 < p1`, and `op1(op3(a))` otherwise.
///
/// The parse runs on `i0`: the prefix operator is read from `i0` up to `i1`, the operand `a`
/// from `i1` up to `i2`, and the postfix operator from `i2` up to the end of the input `i3`;
/// no other prefix, postfix or infix operator is found, every parser gives the one result
/// described, and the operator functions compute `h1` and `h3`.
pub proof fn law_precedence_postfix_binds<I, O, E, Pop, Pre, Post, Pix, U, B>(
    y: Precedence<I, O, E, Pop, Pre, Post, Pix, U, B>,
    i0: I,
    i1: I,
    i2: I,
    i3: I,
    a: O,
    p1: i64,
    u1: U,
    p3: i64,
    u3: U,
    h1: spec_fn(O) -> O,
    h3: spec_fn(O) -> O,
    r: IResult<I, O, E>,
)
    where
        I: Input,
        E: ParseError<I>,
        Pop: Parser<I, O, E>,
        Pre: Parser<I, (i64, U), E>,
        Post: Parser<I, (i64, U), E>,
        Pix: Parser<I, (Assoc, B), E>,
        U: Fn(I, O) -> Result<O, ErrMode<E>>,
        B: Fn(I, O, O) -> Result<O, ErrMode<E>>,
    requires
        i0.tokens().len() > i1.tokens().len() > i2.tokens().len() > i3.tokens().len(),
        forall|res| #[trigger] y.prefix.parse_rel(i0, res) ==> res == Ok::<(I, (i64, U)), ErrMode<E>>((i1, (p1, u1))),
        forall|res| #[trigger] y.prefix.parse_rel(i1, res) ==> res is Err && res->Err_0 is Backtrack,
        forall|res| #[trigger] y.operand.parse_rel(i1, res) ==> res == Ok::<(I, O), ErrMode<E>>((i2, a)),
        forall|res| #[trigger] y.postfix.parse_rel(i2, res) ==> res == Ok::<(I, (i64, U)), ErrMode<E>>((i3, (p3, u3))),
        forall|res| #[trigger] y.postfix.parse_rel(i3, res) ==> res is Err && res->Err_0 is Backtrack,
        forall|res| #[trigger] y.infix.parse_rel(i3, res) ==> res is Err && res->Err_0 is Backtrack,
        forall|i: I, x: O, res: Result<O, ErrMode<E>>|
            #[trigger] call_ensures(u1, (i, x), res) ==> res == Ok::<O, ErrMode<E>>(h1(x)),
        forall|i: I, x: O, res: Result<O, ErrMode<E>>|
            #[trigger] call_ensures(u3, (i, x), res) ==> res == Ok::<O, ErrMode<E>>(h3(x)),
        y.parse_rel(i0, r),
    ensures
        r == Ok::<(I, O), ErrMode<E>>((i3, if p3 < p1 {
            h3(h1(a))
        } else {
            h1(h3(a))
        })),
{
    let e0 = Seq::<O>::empty();
    let n0 = Seq::<Operator<U, B>>::empty();
    let len0 = i0.tokens().len();
    let op1 = Operator::<U, B>::Unary(p1, u1);
    let ops = n0.push(op1);
    assert(yard(y, YardPhase::Prefix, i1, e0, ops, None, len0, true, r));
    assert(yard(y, YardPhase::Operand, i1, e0, ops, None, len0, true, r));
    let va = e0.push(a);
    assert(yard(y, YardPhase::Postfix, i2, va, ops, None, len0, true, r));
    let ph = YardPhase::<I, U, B>::PostfixApply(p3, u3);
    assert(yard(y, ph, i3, va, ops, None, len0, true, r));
    assert(ops.last() == op1);
    assert(ops.drop_last() =~= n0);
    if p3 < p1 {
        let v1 = e0.push(h1(a));
        assert(va.drop_last().push(h1(a)) =~= v1);
        assert(evaluated(i3, va, op1, Ok::<Seq<O>, ErrMode<E>>(v1)));
        assert(yard(y, ph, i3, v1, n0, None, len0, true, r));
        let v2 = e0.push(h3(h1(a)));
        assert(v1.drop_last().push(h3(h1(a))) =~= v2);
        assert(yard(y, YardPhase::Postfix, i3, v2, n0, None, len0, true, r));
        assert(yard(y, YardPhase::Infix, i3, v2, n0, None, len0, true, r));
        assert(yard(y, YardPhase::Unwind, i3, v2, n0, None, len0, true, r));
    } else {
        let v1 = e0.push(h3(a));
        assert(va.drop_last().push(h3(a)) =~= v1);
        assert(yard(y, YardPhase::Postfix, i3, v1, ops, None, len0, true, r));
        assert(yard(y, YardPhase::Infix, i3, v1, ops, None, len0, true, r));
        assert(yard(y, YardPhase::Unwind, i3, v1, ops, None, len0, true, r));
        let v2 = e0.push(h1(h3(a)));
        assert(v1.drop_last().push(h1(h3(a))) =~= v2);
        assert(evaluated(i3, v1, op1, Ok::<Seq<O>, ErrMode<E>>(v2)));
        assert(yard(y, YardPhase::Unwind, i3, v2, n0, None, len0, true, r));
    }
}

} // verus!
