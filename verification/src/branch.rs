//! Choice combinators
//!
//! [`alt`] tries a list of parsers in order and returns the result of the first one that does
//! not fail recoverably; when all of them do, their errors are merged with
//! [`ParseError::or`] and tagged with [`ErrorKind::Alt`].
use core::marker::PhantomData;
use vstd::prelude::*;
use crate::error::{ErrMode, ErrorKind, ParseError};
use crate::input::Input;
use crate::parser::{IResult, Parser};

verus! {

/// Helper trait for the [`alt()`] combinator.
///
/// This trait is implemented for tuples of up to 5 elements
pub trait Alt<I, O, E>: Sized {
    /// What the alternatives need to be tried on `input`
    spec fn choice_req(&self, input: I) -> bool;

    /// The results that trying the alternatives on `input` may give
    spec fn choice_rel(&self, input: I, r: IResult<I, O, E>) -> bool;

    /// Tests each parser in the tuple and returns the result of the first one that succeeds
    fn choice(&mut self, input: I) -> (r: IResult<I, O, E>)
        requires
            old(self).choice_req(input),
        ensures
            old(self).choice_rel(input, r),
            *final(self) == *old(self),
    ;
}

/// Implementation of [`alt`]
pub struct Choice<L, I, O, E> {
    /// The alternatives, tried in order
    pub alternatives: L,
    /// Marks the types the combinator works with
    pub phantom: PhantomData<(I, O, E)>,
}

impl<L, I, O, E> Parser<I, O, E> for Choice<L, I, O, E> where I: Input, L: Alt<I, O, E> {
    open spec fn parse_req(&self, input: I) -> bool {
        self.alternatives.choice_req(input)
    }

    open spec fn parse_rel(&self, input: I, r: IResult<I, O, E>) -> bool {
        self.alternatives.choice_rel(input, r)
    }

    fn parse_next(&mut self, input: I) -> (r: IResult<I, O, E>) {
        self.alternatives.choice(input)
    }
}

/// Tests a list of parsers one by one until one succeeds.
///
/// It takes as argument a tuple of parsers; the result of the first one that does not return
/// a recoverable error is returned.
pub fn alt<I, O, E, L>(l: L) -> (r: Choice<L, I, O, E>) where I: Input, L: Alt<I, O, E>
    ensures
        r.alternatives == l,
{
    Choice { alternatives: l, phantom: PhantomData }
}

impl<I, O, E, P0, P1> Alt<I, O, E> for (P0, P1) where
    I: Input,
    E: ParseError<I>,
    P0: Parser<I, O, E>,
    P1: Parser<I, O, E>,
 {
    open spec fn choice_req(&self, input: I) -> bool {
        self.0.parse_req(input) && self.1.parse_req(input)
    }

    open spec fn choice_rel(&self, input: I, r: IResult<I, O, E>) -> bool {
        match r {
            Err(ErrMode::Backtrack(e)) => exists|e0: E, e1: E, c1: E, f: E|
                #![trigger self.0.parse_rel(input, Err(ErrMode::Backtrack(e0))), self.1.parse_rel(input, Err(ErrMode::Backtrack(e1))), e0.or_rel(e1, c1), c1.append_rel(input, ErrorKind::Alt, f)]
                self.0.parse_rel(input, Err(ErrMode::Backtrack(e0)))
                    && self.1.parse_rel(input, Err(ErrMode::Backtrack(e1)))
                    && e0.or_rel(e1, c1)
                    && c1.append_rel(input, ErrorKind::Alt, f)
                    && f == e,
            _ => self.0.parse_rel(input, r)
                || (exists|e0: E|
                    #![trigger self.0.parse_rel(input, Err(ErrMode::Backtrack(e0)))]
                    self.0.parse_rel(input, Err(ErrMode::Backtrack(e0)))
                        && self.1.parse_rel(input, r)),
        }
    }

    fn choice(&mut self, input: I) -> (r: IResult<I, O, E>) {
        let e0 = match self.0.parse_next(input) {
            Err(ErrMode::Backtrack(e)) => e,
            res => {
                return res;
            },
        };
        let ghost g0 = e0;
        let e1 = match self.1.parse_next(input) {
            Err(ErrMode::Backtrack(e)) => e,
            res => {
                assert(self.0.parse_rel(input, Err(ErrMode::Backtrack(g0))));
                return res;
            },
        };
        let ghost g1 = e1;
        let c1 = e0.or(e1);
        let f = c1.append(input, ErrorKind::Alt);
        assert(self.0.parse_rel(input, Err(ErrMode::Backtrack(g0))));
        assert(self.1.parse_rel(input, Err(ErrMode::Backtrack(g1))));
        Err(ErrMode::Backtrack(f))
    }
}

impl<I, O, E, P0, P1, P2> Alt<I, O, E> for (P0, P1, P2) where
    I: Input,
    E: ParseError<I>,
    P0: Parser<I, O, E>,
    P1: Parser<I, O, E>,
    P2: Parser<I, O, E>,
 {
    open spec fn choice_req(&self, input: I) -> bool {
        self.0.parse_req(input) && self.1.parse_req(input) && self.2.parse_req(input)
    }

    open spec fn choice_rel(&self, input: I, r: IResult<I, O, E>) -> bool {
        match r {
            Err(ErrMode::Backtrack(e)) => exists|e0: E, e1: E, e2: E, c1: E, c2: E, f: E|
                #![trigger self.0.parse_rel(input, Err(ErrMode::Backtrack(e0))), self.1.parse_rel(input, Err(ErrMode::Backtrack(e1))), self.2.parse_rel(input, Err(ErrMode::Backtrack(e2))), e0.or_rel(e1, c1), c1.or_rel(e2, c2), c2.append_rel(input, ErrorKind::Alt, f)]
                self.0.parse_rel(input, Err(ErrMode::Backtrack(e0)))
                    && self.1.parse_rel(input, Err(ErrMode::Backtrack(e1)))
                    && self.2.parse_rel(input, Err(ErrMode::Backtrack(e2)))
                    && e0.or_rel(e1, c1)
                    && c1.or_rel(e2, c2)
                    && c2.append_rel(input, ErrorKind::Alt, f)
                    && f == e,
            _ => self.0.parse_rel(input, r)
                || (exists|e0: E|
                    #![trigger self.0.parse_rel(input, Err(ErrMode::Backtrack(e0)))]
                    self.0.parse_rel(input, Err(ErrMode::Backtrack(e0)))
                        && self.1.parse_rel(input, r))
                || (exists|e0: E, e1: E|
                    #![trigger self.0.parse_rel(input, Err(ErrMode::Backtrack(e0))), self.1.parse_rel(input, Err(ErrMode::Backtrack(e1)))]
                    self.0.parse_rel(input, Err(ErrMode::Backtrack(e0)))
                        && self.1.parse_rel(input, Err(ErrMode::Backtrack(e1)))
                        && self.2.parse_rel(input, r)),
        }
    }

    fn choice(&mut self, input: I) -> (r: IResult<I, O, E>) {
        let e0 = match self.0.parse_next(input) {
            Err(ErrMode::Backtrack(e)) => e,
            res => {
                return res;
            },
        };
        let ghost g0 = e0;
        let e1 = match self.1.parse_next(input) {
            Err(ErrMode::Backtrack(e)) => e,
            res => {
                assert(self.0.parse_rel(input, Err(ErrMode::Backtrack(g0))));
                return res;
            },
        };
        let ghost g1 = e1;
        let c1 = e0.or(e1);
        let e2 = match self.2.parse_next(input) {
            Err(ErrMode::Backtrack(e)) => e,
            res => {
                assert(self.0.parse_rel(input, Err(ErrMode::Backtrack(g0))));
                assert(self.1.parse_rel(input, Err(ErrMode::Backtrack(g1))));
                return res;
            },
        };
        let ghost g2 = e2;
        let c2 = c1.or(e2);
        let f = c2.append(input, ErrorKind::Alt);
        assert(self.0.parse_rel(input, Err(ErrMode::Backtrack(g0))));
        assert(self.1.parse_rel(input, Err(ErrMode::Backtrack(g1))));
        assert(self.2.parse_rel(input, Err(ErrMode::Backtrack(g2))));
        Err(ErrMode::Backtrack(f))
    }
}

impl<I, O, E, P0, P1, P2, P3> Alt<I, O, E> for (P0, P1, P2, P3) where
    I: Input,
    E: ParseError<I>,
    P0: Parser<I, O, E>,
    P1: Parser<I, O, E>,
    P2: Parser<I, O, E>,
    P3: Parser<I, O, E>,
 {
    open spec fn choice_req(&self, input: I) -> bool {
        self.0.parse_req(input) && self.1.parse_req(input) && self.2.parse_req(input) && self.3.parse_req(input)
    }

    open spec fn choice_rel(&self, input: I, r: IResult<I, O, E>) -> bool {
        match r {
            Err(ErrMode::Backtrack(e)) => exists|e0: E, e1: E, e2: E, e3: E, c1: E, c2: E, c3: E, f: E|
                #![trigger self.0.parse_rel(input, Err(ErrMode::Backtrack(e0))), self.1.parse_rel(input, Err(ErrMode::Backtrack(e1))), self.2.parse_rel(input, Err(ErrMode::Backtrack(e2))), self.3.parse_rel(input, Err(ErrMode::Backtrack(e3))), e0.or_rel(e1, c1), c1.or_rel(e2, c2), c2.or_rel(e3, c3), c3.append_rel(input, ErrorKind::Alt, f)]
                self.0.parse_rel(input, Err(ErrMode::Backtrack(e0)))
                    && self.1.parse_rel(input, Err(ErrMode::Backtrack(e1)))
                    && self.2.parse_rel(input, Err(ErrMode::Backtrack(e2)))
                    && self.3.parse_rel(input, Err(ErrMode::Backtrack(e3)))
                    && e0.or_rel(e1, c1)
                    && c1.or_rel(e2, c2)
                    && c2.or_rel(e3, c3)
                    && c3.append_rel(input, ErrorKind::Alt, f)
                    && f == e,
            _ => self.0.parse_rel(input, r)
                || (exists|e0: E|
                    #![trigger self.0.parse_rel(input, Err(ErrMode::Backtrack(e0)))]
                    self.0.parse_rel(input, Err(ErrMode::Backtrack(e0)))
                        && self.1.parse_rel(input, r))
                || (exists|e0: E, e1: E|
                    #![trigger self.0.parse_rel(input, Err(ErrMode::Backtrack(e0))), self.1.parse_rel(input, Err(ErrMode::Backtrack(e1)))]
                    self.0.parse_rel(input, Err(ErrMode::Backtrack(e0)))
                        && self.1.parse_rel(input, Err(ErrMode::Backtrack(e1)))
                        && self.2.parse_rel(input, r))
                || (exists|e0: E, e1: E, e2: E|
                    #![trigger self.0.parse_rel(input, Err(ErrMode::Backtrack(e0))), self.1.parse_rel(input, Err(ErrMode::Backtrack(e1))), self.2.parse_rel(input, Err(ErrMode::Backtrack(e2)))]
                    self.0.parse_rel(input, Err(ErrMode::Backtrack(e0)))
                        && self.1.parse_rel(input, Err(ErrMode::Backtrack(e1)))
                        && self.2.parse_rel(input, Err(ErrMode::Backtrack(e2)))
                        && self.3.parse_rel(input, r)),
        }
    }

    fn choice(&mut self, input: I) -> (r: IResult<I, O, E>) {
        let e0 = match self.0.parse_next(input) {
            Err(ErrMode::Backtrack(e)) => e,
            res => {
                return res;
            },
        };
        let ghost g0 = e0;
        let e1 = match self.1.parse_next(input) {
            Err(ErrMode::Backtrack(e)) => e,
            res => {
                assert(self.0.parse_rel(input, Err(ErrMode::Backtrack(g0))));
                return res;
            },
        };
        let ghost g1 = e1;
        let c1 = e0.or(e1);
        let e2 = match self.2.parse_next(input) {
            Err(ErrMode::Backtrack(e)) => e,
            res => {
                assert(self.0.parse_rel(input, Err(ErrMode::Backtrack(g0))));
                assert(self.1.parse_rel(input, Err(ErrMode::Backtrack(g1))));
                return res;
            },
        };
        let ghost g2 = e2;
        let c2 = c1.or(e2);
        let e3 = match self.3.parse_next(input) {
            Err(ErrMode::Backtrack(e)) => e,
            res => {
                assert(self.0.parse_rel(input, Err(ErrMode::Backtrack(g0))));
                assert(self.1.parse_rel(input, Err(ErrMode::Backtrack(g1))));
                assert(self.2.parse_rel(input, Err(ErrMode::Backtrack(g2))));
                return res;
            },
        };
        let ghost g3 = e3;
        let c3 = c2.or(e3);
        let f = c3.append(input, ErrorKind::Alt);
        assert(self.0.parse_rel(input, Err(ErrMode::Backtrack(g0))));
        assert(self.1.parse_rel(input, Err(ErrMode::Backtrack(g1))));
        assert(self.2.parse_rel(input, Err(ErrMode::Backtrack(g2))));
        assert(self.3.parse_rel(input, Err(ErrMode::Backtrack(g3))));
        Err(ErrMode::Backtrack(f))
    }
}

impl<I, O, E, P0, P1, P2, P3, P4> Alt<I, O, E> for (P0, P1, P2, P3, P4) where
    I: Input,
    E: ParseError<I>,
    P0: Parser<I, O, E>,
    P1: Parser<I, O, E>,
    P2: Parser<I, O, E>,
    P3: Parser<I, O, E>,
    P4: Parser<I, O, E>,
 {
    open spec fn choice_req(&self, input: I) -> bool {
        self.0.parse_req(input) && self.1.parse_req(input) && self.2.parse_req(input) && self.3.parse_req(input) && self.4.parse_req(input)
    }

    open spec fn choice_rel(&self, input: I, r: IResult<I, O, E>) -> bool {
        match r {
            Err(ErrMode::Backtrack(e)) => exists|e0: E, e1: E, e2: E, e3: E, e4: E, c1: E, c2: E, c3: E, c4: E, f: E|
                #![trigger self.0.parse_rel(input, Err(ErrMode::Backtrack(e0))), self.1.parse_rel(input, Err(ErrMode::Backtrack(e1))), self.2.parse_rel(input, Err(ErrMode::Backtrack(e2))), self.3.parse_rel(input, Err(ErrMode::Backtrack(e3))), self.4.parse_rel(input, Err(ErrMode::Backtrack(e4))), e0.or_rel(e1, c1), c1.or_rel(e2, c2), c2.or_rel(e3, c3), c3.or_rel(e4, c4), c4.append_rel(input, ErrorKind::Alt, f)]
                self.0.parse_rel(input, Err(ErrMode::Backtrack(e0)))
                    && self.1.parse_rel(input, Err(ErrMode::Backtrack(e1)))
                    && self.2.parse_rel(input, Err(ErrMode::Backtrack(e2)))
                    && self.3.parse_rel(input, Err(ErrMode::Backtrack(e3)))
                    && self.4.parse_rel(input, Err(ErrMode::Backtrack(e4)))
                    && e0.or_rel(e1, c1)
                    && c1.or_rel(e2, c2)
                    && c2.or_rel(e3, c3)
                    && c3.or_rel(e4, c4)
                    && c4.append_rel(input, ErrorKind::Alt, f)
                    && f == e,
            _ => self.0.parse_rel(input, r)
                || (exists|e0: E|
                    #![trigger self.0.parse_rel(input, Err(ErrMode::Backtrack(e0)))]
                    self.0.parse_rel(input, Err(ErrMode::Backtrack(e0)))
                        && self.1.parse_rel(input, r))
                || (exists|e0: E, e1: E|
                    #![trigger self.0.parse_rel(input, Err(ErrMode::Backtrack(e0))), self.1.parse_rel(input, Err(ErrMode::Backtrack(e1)))]
                    self.0.parse_rel(input, Err(ErrMode::Backtrack(e0)))
                        && self.1.parse_rel(input, Err(ErrMode::Backtrack(e1)))
                        && self.2.parse_rel(input, r))
                || (exists|e0: E, e1: E, e2: E|
                    #![trigger self.0.parse_rel(input, Err(ErrMode::Backtrack(e0))), self.1.parse_rel(input, Err(ErrMode::Backtrack(e1))), self.2.parse_rel(input, Err(ErrMode::Backtrack(e2)))]
                    self.0.parse_rel(input, Err(ErrMode::Backtrack(e0)))
                        && self.1.parse_rel(input, Err(ErrMode::Backtrack(e1)))
                        && self.2.parse_rel(input, Err(ErrMode::Backtrack(e2)))
                        && self.3.parse_rel(input, r))
                || (exists|e0: E, e1: E, e2: E, e3: E|
                    #![trigger self.0.parse_rel(input, Err(ErrMode::Backtrack(e0))), self.1.parse_rel(input, Err(ErrMode::Backtrack(e1))), self.2.parse_rel(input, Err(ErrMode::Backtrack(e2))), self.3.parse_rel(input, Err(ErrMode::Backtrack(e3)))]
                    self.0.parse_rel(input, Err(ErrMode::Backtrack(e0)))
                        && self.1.parse_rel(input, Err(ErrMode::Backtrack(e1)))
                        && self.2.parse_rel(input, Err(ErrMode::Backtrack(e2)))
                        && self.3.parse_rel(input, Err(ErrMode::Backtrack(e3)))
                        && self.4.parse_rel(input, r)),
        }
    }

    fn choice(&mut self, input: I) -> (r: IResult<I, O, E>) {
        let e0 = match self.0.parse_next(input) {
            Err(ErrMode::Backtrack(e)) => e,
            res => {
                return res;
            },
        };
        let ghost g0 = e0;
        let e1 = match self.1.parse_next(input) {
            Err(ErrMode::Backtrack(e)) => e,
            res => {
                assert(self.0.parse_rel(input, Err(ErrMode::Backtrack(g0))));
                return res;
            },
        };
        let ghost g1 = e1;
        let c1 = e0.or(e1);
        let e2 = match self.2.parse_next(input) {
            Err(ErrMode::Backtrack(e)) => e,
            res => {
                assert(self.0.parse_rel(input, Err(ErrMode::Backtrack(g0))));
                assert(self.1.parse_rel(input, Err(ErrMode::Backtrack(g1))));
                return res;
            },
        };
        let ghost g2 = e2;
        let c2 = c1.or(e2);
        let e3 = match self.3.parse_next(input) {
            Err(ErrMode::Backtrack(e)) => e,
            res => {
                assert(self.0.parse_rel(input, Err(ErrMode::Backtrack(g0))));
                assert(self.1.parse_rel(input, Err(ErrMode::Backtrack(g1))));
                assert(self.2.parse_rel(input, Err(ErrMode::Backtrack(g2))));
                return res;
            },
        };
        let ghost g3 = e3;
        let c3 = c2.or(e3);
        let e4 = match self.4.parse_next(input) {
            Err(ErrMode::Backtrack(e)) => e,
            res => {
                assert(self.0.parse_rel(input, Err(ErrMode::Backtrack(g0))));
                assert(self.1.parse_rel(input, Err(ErrMode::Backtrack(g1))));
                assert(self.2.parse_rel(input, Err(ErrMode::Backtrack(g2))));
                assert(self.3.parse_rel(input, Err(ErrMode::Backtrack(g3))));
                return res;
            },
        };
        let ghost g4 = e4;
        let c4 = c3.or(e4);
        let f = c4.append(input, ErrorKind::Alt);
        assert(self.0.parse_rel(input, Err(ErrMode::Backtrack(g0))));
        assert(self.1.parse_rel(input, Err(ErrMode::Backtrack(g1))));
        assert(self.2.parse_rel(input, Err(ErrMode::Backtrack(g2))));
        assert(self.3.parse_rel(input, Err(ErrMode::Backtrack(g3))));
        assert(self.4.parse_rel(input, Err(ErrMode::Backtrack(g4))));
        Err(ErrMode::Backtrack(f))
    }
}

/// Helper trait for the [`permutation()`] combinator.
///
/// This trait is implemented for tuples of 2 and 3 elements
pub trait Permutation<I, O, E>: Sized {
    /// What the parsers need to be tried on `input`
    spec fn permutation_req(&self, input: I) -> bool;

    /// The results that applying the parsers in any order on `input` may give
    spec fn permutation_rel(&self, input: I, r: IResult<I, O, E>) -> bool;

    /// Tries to apply all parsers in the tuple in various orders until all of them succeed
    fn permutation(&mut self, input: I) -> (r: IResult<I, O, E>)
        requires
            old(self).permutation_req(input),
        ensures
            old(self).permutation_rel(input, r),
            *final(self) == *old(self),
    ;
}

/// Implementation of [`permutation`]
pub struct Permuted<L, I, O, E> {
    /// The parsers, each applied once
    pub parsers: L,
    /// Marks the types the combinator works with
    pub phantom: PhantomData<(I, O, E)>,
}

impl<L, I, O, E> Parser<I, O, E> for Permuted<L, I, O, E> where I: Input, L: Permutation<I, O, E> {
    open spec fn parse_req(&self, input: I) -> bool {
        self.parsers.permutation_req(input)
    }

    open spec fn parse_rel(&self, input: I, r: IResult<I, O, E>) -> bool {
        self.parsers.permutation_rel(input, r)
    }

    fn parse_next(&mut self, input: I) -> (r: IResult<I, O, E>) {
        self.parsers.permutation(input)
    }
}

/// Applies a list of parsers in any order.
///
/// Permutation will succeed if all of the child parsers succeeded.
/// It takes as argument a tuple of parsers, and returns a
/// tuple of the parser results. In each round, the parsers that have not succeeded yet are
/// tried in order, and the round restarts after the first of them that succeeds; when all
/// of them fail recoverably, their errors are merged with [`ParseError::or`] and tagged with
/// [`ErrorKind::Alt`].
pub fn permutation<I, O, E, L>(l: L) -> (r: Permuted<L, I, O, E>) where
    I: Input,
    L: Permutation<I, O, E>,

    ensures
        r.parsers == l,
{
    Permuted { parsers: l, phantom: PhantomData }
}

/// `m` is the errors of a round so far, `err`, merged with the new error `e`.
pub open spec fn merged<I, E: ParseError<I>>(err: Option<E>, e: E, m: E) -> bool {
    match err {
        None => m == e,
        Some(x) => x.or_rel(e, m),
    }
}

/// The number of parsers that have not succeeded yet.
pub open spec fn pending3<A, B, C>(a: Option<A>, b: Option<B>, c: Option<C>) -> nat {
    (if a is None {
        1nat
    } else {
        0nat
    }) + (if b is None {
        1nat
    } else {
        0nat
    }) + (if c is None {
        1nat
    } else {
        0nat
    })
}

/// The results of a permutation of three parsers at `input`, where the outputs gathered so
/// far are `s0`, `s1` and `s2`, the round has reached parser `j`, and its errors so far are
/// `err`.
pub open spec fn perm3_round<I, O0, O1, O2, E, P0, P1, P2>(
    p: (P0, P1, P2),
    input: I,
    s0: Option<O0>,
    s1: Option<O1>,
    s2: Option<O2>,
    j: nat,
    err: Option<E>,
    r: IResult<I, (O0, O1, O2), E>,
) -> bool where
    I: Input,
    E: ParseError<I>,
    P0: Parser<I, O0, E>,
    P1: Parser<I, O1, E>,
    P2: Parser<I, O2, E>,

    decreases pending3(s0, s1, s2), 3 - j,
{
    if j == 0 {
        if s0 is Some {
            perm3_round(p, input, s0, s1, s2, 1, err, r)
        } else {
            exists|res: IResult<I, O0, E>|
                #![trigger p.0.parse_rel(input, res)]
                p.0.parse_rel(input, res) && match res {
                    Ok((rest, o)) => perm3_round(p, rest, Some(o), s1, s2, 0, None, r),
                    Err(ErrMode::Backtrack(e)) => exists|m: E|
                        #![trigger merged::<I, E>(err, e, m)]
                        merged::<I, E>(err, e, m) && perm3_round(p, input, s0, s1, s2, 1, Some(m), r),
                    Err(x) => r == Err::<(I, (O0, O1, O2)), ErrMode<E>>(x),
                }
        }
    } else if j == 1 {
        if s1 is Some {
            perm3_round(p, input, s0, s1, s2, 2, err, r)
        } else {
            exists|res: IResult<I, O1, E>|
                #![trigger p.1.parse_rel(input, res)]
                p.1.parse_rel(input, res) && match res {
                    Ok((rest, o)) => perm3_round(p, rest, s0, Some(o), s2, 0, None, r),
                    Err(ErrMode::Backtrack(e)) => exists|m: E|
                        #![trigger merged::<I, E>(err, e, m)]
                        merged::<I, E>(err, e, m) && perm3_round(p, input, s0, s1, s2, 2, Some(m), r),
                    Err(x) => r == Err::<(I, (O0, O1, O2)), ErrMode<E>>(x),
                }
        }
    } else if j == 2 {
        if s2 is Some {
            perm3_round(p, input, s0, s1, s2, 3, err, r)
        } else {
            exists|res: IResult<I, O2, E>|
                #![trigger p.2.parse_rel(input, res)]
                p.2.parse_rel(input, res) && match res {
                    Ok((rest, o)) => perm3_round(p, rest, s0, s1, Some(o), 0, None, r),
                    Err(ErrMode::Backtrack(e)) => exists|m: E|
                        #![trigger merged::<I, E>(err, e, m)]
                        merged::<I, E>(err, e, m) && perm3_round(p, input, s0, s1, s2, 3, Some(m), r),
                    Err(x) => r == Err::<(I, (O0, O1, O2)), ErrMode<E>>(x),
                }
        }
    } else {
        match err {
            Some(e) => exists|f: E|
                #![trigger e.append_rel(input, ErrorKind::Alt, f)]
                e.append_rel(input, ErrorKind::Alt, f) && r == Err::<(I, (O0, O1, O2)), ErrMode<E>>(
                    ErrMode::Backtrack(f),
                ),
            None => match (s0, s1, s2) {
                (Some(a), Some(b), Some(c)) => r == Ok::<(I, (O0, O1, O2)), ErrMode<E>>(
                    (input, (a, b, c)),
                ),
                _ => false,
            },
        }
    }
}

impl<I, O0, O1, O2, E, P0, P1, P2> Permutation<I, (O0, O1, O2), E> for (P0, P1, P2) where
    I: Input,
    E: ParseError<I>,
    P0: Parser<I, O0, E>,
    P1: Parser<I, O1, E>,
    P2: Parser<I, O2, E>,
 {
    open spec fn permutation_req(&self, input: I) -> bool {
        &&& forall|i: I| #[trigger] self.0.parse_req(i)
        &&& forall|i: I| #[trigger] self.1.parse_req(i)
        &&& forall|i: I| #[trigger] self.2.parse_req(i)
    }

    open spec fn permutation_rel(&self, input: I, r: IResult<I, (O0, O1, O2), E>) -> bool {
        perm3_round(*self, input, None, None, None, 0, None, r)
    }

    fn permutation(&mut self, input: I) -> (r: IResult<I, (O0, O1, O2), E>) {
        let ghost p = *self;
        let mut s0: Option<O0> = None;
        let mut s1: Option<O1> = None;
        let mut s2: Option<O2> = None;
        let mut i = input;
        loop
            invariant
                *self == p,
                p == *old(self),
                forall|x: I| #[trigger] p.0.parse_req(x),
                forall|x: I| #[trigger] p.1.parse_req(x),
                forall|x: I| #[trigger] p.2.parse_req(x),
                forall|r: IResult<I, (O0, O1, O2), E>|
                    #[trigger] perm3_round(p, i, s0, s1, s2, 0, None, r) ==> perm3_round(
                        p,
                        input,
                        None,
                        None,
                        None,
                        0,
                        None,
                        r,
                    ),
            decreases pending3(s0, s1, s2),
        {
            let ghost i0 = i;
            let ghost (g0, g1, g2) = (s0, s1, s2);
            let mut err: Option<E> = None;
            if s0.is_none() {
                match self.0.parse_next(i) {
                    Ok((rest, o)) => {
                        let ghost res = Ok::<(I, O0), ErrMode<E>>((rest, o));
                        assert forall|r: IResult<I, (O0, O1, O2), E>|
                            #[trigger] perm3_round(p, rest, Some(o), g1, g2, 0, None, r) implies
                            perm3_round(p, input, None, None, None, 0, None, r) by {
                            assert(p.0.parse_rel(i0, res));
                            assert(perm3_round(p, i0, g0, g1, g2, 0, None, r));
                        }
                        i = rest;
                        s0 = Some(o);
                        continue;
                    },
                    Err(ErrMode::Backtrack(e)) => {
                        let ghost res = Err::<(I, O0), ErrMode<E>>(ErrMode::Backtrack(e));
                        assert forall|r: IResult<I, (O0, O1, O2), E>|
                            perm3_round(p, i0, g0, g1, g2, 1, Some(e), r) implies
                            #[trigger] perm3_round(p, i0, g0, g1, g2, 0, None, r) by {
                            assert(p.0.parse_rel(i0, res));
                            assert(merged::<I, E>(None, e, e));
                        }
                        err = Some(e);
                    },
                    Err(x) => {
                        let r: IResult<I, (O0, O1, O2), E> = Err(x);
                        assert(p.0.parse_rel(i0, Err(x)));
                        assert(perm3_round(p, i0, g0, g1, g2, 0, None, r));
                        return r;
                    },
                }
            }
            let ghost err0 = err;
            assert forall|r: IResult<I, (O0, O1, O2), E>|
                perm3_round(p, i0, g0, g1, g2, 1, err0, r) implies
                #[trigger] perm3_round(p, i0, g0, g1, g2, 0, None, r) by {
            }
            if s1.is_none() {
                match self.1.parse_next(i) {
                    Ok((rest, o)) => {
                        let ghost res = Ok::<(I, O1), ErrMode<E>>((rest, o));
                        assert forall|r: IResult<I, (O0, O1, O2), E>|
                            #[trigger] perm3_round(p, rest, g0, Some(o), g2, 0, None, r) implies
                            perm3_round(p, input, None, None, None, 0, None, r) by {
                            assert(p.1.parse_rel(i0, res));
                            assert(perm3_round(p, i0, g0, g1, g2, 1, err0, r));
                            assert(perm3_round(p, i0, g0, g1, g2, 0, None, r));
                        }
                        i = rest;
                        s1 = Some(o);
                        continue;
                    },
                    Err(ErrMode::Backtrack(e)) => {
                        let ghost res = Err::<(I, O1), ErrMode<E>>(ErrMode::Backtrack(e));
                        let m = match err {
                            Some(x) => x.or(e),
                            None => e,
                        };
                        assert(merged::<I, E>(err0, e, m));
                        assert forall|r: IResult<I, (O0, O1, O2), E>|
                            perm3_round(p, i0, g0, g1, g2, 2, Some(m), r) implies
                            #[trigger] perm3_round(p, i0, g0, g1, g2, 0, None, r) by {
                            assert(p.1.parse_rel(i0, res));
                            assert(perm3_round(p, i0, g0, g1, g2, 1, err0, r));
                        }
                        err = Some(m);
                    },
                    Err(x) => {
                        let r: IResult<I, (O0, O1, O2), E> = Err(x);
                        assert(p.1.parse_rel(i0, Err(x)));
                        assert(perm3_round(p, i0, g0, g1, g2, 1, err0, r));
                        assert(perm3_round(p, i0, g0, g1, g2, 0, None, r));
                        return r;
                    },
                }
            }
            let ghost err1 = err;
            assert forall|r: IResult<I, (O0, O1, O2), E>|
                perm3_round(p, i0, g0, g1, g2, 2, err1, r) implies
                #[trigger] perm3_round(p, i0, g0, g1, g2, 0, None, r) by {
                if g1 is Some {
                    assert(perm3_round(p, i0, g0, g1, g2, 1, err0, r));
                }
            }
            if s2.is_none() {
                match self.2.parse_next(i) {
                    Ok((rest, o)) => {
                        let ghost res = Ok::<(I, O2), ErrMode<E>>((rest, o));
                        assert forall|r: IResult<I, (O0, O1, O2), E>|
                            #[trigger] perm3_round(p, rest, g0, g1, Some(o), 0, None, r) implies
                            perm3_round(p, input, None, None, None, 0, None, r) by {
                            assert(p.2.parse_rel(i0, res));
                            assert(perm3_round(p, i0, g0, g1, g2, 2, err1, r));
                            assert(perm3_round(p, i0, g0, g1, g2, 0, None, r));
                        }
                        i = rest;
                        s2 = Some(o);
                        continue;
                    },
                    Err(ErrMode::Backtrack(e)) => {
                        let ghost res = Err::<(I, O2), ErrMode<E>>(ErrMode::Backtrack(e));
                        let m = match err {
                            Some(x) => x.or(e),
                            None => e,
                        };
                        assert(merged::<I, E>(err1, e, m));
                        assert forall|r: IResult<I, (O0, O1, O2), E>|
                            perm3_round(p, i0, g0, g1, g2, 3, Some(m), r) implies
                            #[trigger] perm3_round(p, i0, g0, g1, g2, 0, None, r) by {
                            assert(p.2.parse_rel(i0, res));
                            assert(perm3_round(p, i0, g0, g1, g2, 2, err1, r));
                        }
                        err = Some(m);
                    },
                    Err(x) => {
                        let r: IResult<I, (O0, O1, O2), E> = Err(x);
                        assert(p.2.parse_rel(i0, Err(x)));
                        assert(perm3_round(p, i0, g0, g1, g2, 2, err1, r));
                        assert(perm3_round(p, i0, g0, g1, g2, 0, None, r));
                        return r;
                    },
                }
            }
            let ghost err2 = err;
            assert forall|r: IResult<I, (O0, O1, O2), E>|
                perm3_round(p, i0, g0, g1, g2, 3, err2, r) implies
                #[trigger] perm3_round(p, i0, g0, g1, g2, 0, None, r) by {
                if g2 is Some {
                    assert(perm3_round(p, i0, g0, g1, g2, 2, err1, r));
                }
            }
            match err {
                Some(e) => {
                    let f = e.append(i, ErrorKind::Alt);
                    let r = Err(ErrMode::Backtrack(f));
                    assert(perm3_round(p, i0, g0, g1, g2, 3, err2, r));
                    assert(perm3_round(p, i0, g0, g1, g2, 0, None, r));
                    return r;
                },
                None => {
                    match (s0, s1, s2) {
                        (Some(a), Some(b), Some(c)) => {
                            let r = Ok((i, (a, b, c)));
                            assert(perm3_round(p, i0, g0, g1, g2, 3, err2, r));
                            assert(perm3_round(p, i0, g0, g1, g2, 0, None, r));
                            return r;
                        },
                        _ => {
                            return vstd::pervasive::unreached();
                        },
                    }
                },
            }
        }
    }
}

/// The number of parsers that have not succeeded yet.
pub open spec fn pending2<A, B>(a: Option<A>, b: Option<B>) -> nat {
    (if a is None {
        1nat
    } else {
        0nat
    }) + (if b is None {
        1nat
    } else {
        0nat
    })
}

/// The results of a permutation of two parsers at `input`, where the outputs gathered so
/// far are `s0` and `s1`, the round has reached parser `j`, and its errors so far are
/// `err`.
pub open spec fn perm2_round<I, O0, O1, E, P0, P1>(
    p: (P0, P1),
    input: I,
    s0: Option<O0>,
    s1: Option<O1>,
    j: nat,
    err: Option<E>,
    r: IResult<I, (O0, O1), E>,
) -> bool where
    I: Input,
    E: ParseError<I>,
    P0: Parser<I, O0, E>,
    P1: Parser<I, O1, E>,

    decreases pending2(s0, s1), 2 - j,
{
    if j == 0 {
        if s0 is Some {
            perm2_round(p, input, s0, s1, 1, err, r)
        } else {
            exists|res: IResult<I, O0, E>|
                #![trigger p.0.parse_rel(input, res)]
                p.0.parse_rel(input, res) && match res {
                    Ok((rest, o)) => perm2_round(p, rest, Some(o), s1, 0, None, r),
                    Err(ErrMode::Backtrack(e)) => exists|m: E|
                        #![trigger merged::<I, E>(err, e, m)]
                        merged::<I, E>(err, e, m) && perm2_round(p, input, s0, s1, 1, Some(m), r),
                    Err(x) => r == Err::<(I, (O0, O1)), ErrMode<E>>(x),
                }
        }
    } else if j == 1 {
        if s1 is Some {
            perm2_round(p, input, s0, s1, 2, err, r)
        } else {
            exists|res: IResult<I, O1, E>|
                #![trigger p.1.parse_rel(input, res)]
                p.1.parse_rel(input, res) && match res {
                    Ok((rest, o)) => perm2_round(p, rest, s0, Some(o), 0, None, r),
                    Err(ErrMode::Backtrack(e)) => exists|m: E|
                        #![trigger merged::<I, E>(err, e, m)]
                        merged::<I, E>(err, e, m) && perm2_round(p, input, s0, s1, 2, Some(m), r),
                    Err(x) => r == Err::<(I, (O0, O1)), ErrMode<E>>(x),
                }
        }
    } else {
        match err {
            Some(e) => exists|f: E|
                #![trigger e.append_rel(input, ErrorKind::Alt, f)]
                e.append_rel(input, ErrorKind::Alt, f) && r == Err::<(I, (O0, O1)), ErrMode<E>>(
                    ErrMode::Backtrack(f),
                ),
            None => match (s0, s1) {
                (Some(a), Some(b)) => r == Ok::<(I, (O0, O1)), ErrMode<E>>((input, (a, b))),
                _ => false,
            },
        }
    }
}

impl<I, O0, O1, E, P0, P1> Permutation<I, (O0, O1), E> for (P0, P1) where
    I: Input,
    E: ParseError<I>,
    P0: Parser<I, O0, E>,
    P1: Parser<I, O1, E>,
 {
    open spec fn permutation_req(&self, input: I) -> bool {
        &&& forall|i: I| #[trigger] self.0.parse_req(i)
        &&& forall|i: I| #[trigger] self.1.parse_req(i)
    }

    open spec fn permutation_rel(&self, input: I, r: IResult<I, (O0, O1), E>) -> bool {
        perm2_round(*self, input, None, None, 0, None, r)
    }

    fn permutation(&mut self, input: I) -> (r: IResult<I, (O0, O1), E>) {
        let ghost p = *self;
        let mut s0: Option<O0> = None;
        let mut s1: Option<O1> = None;
        let mut i = input;
        loop
            invariant
                *self == p,
                p == *old(self),
                forall|x: I| #[trigger] p.0.parse_req(x),
                forall|x: I| #[trigger] p.1.parse_req(x),
                forall|r: IResult<I, (O0, O1), E>|
                    #[trigger] perm2_round(p, i, s0, s1, 0, None, r) ==> perm2_round(
                        p,
                        input,
                        None,
                        None,
                        0,
                        None,
                        r,
                    ),
            decreases pending2(s0, s1),
        {
            let ghost i0 = i;
            let ghost (g0, g1) = (s0, s1);
            let mut err: Option<E> = None;
            if s0.is_none() {
                match self.0.parse_next(i) {
                    Ok((rest, o)) => {
                        let ghost res = Ok::<(I, O0), ErrMode<E>>((rest, o));
                        assert forall|r: IResult<I, (O0, O1), E>|
                            #[trigger] perm2_round(p, rest, Some(o), g1, 0, None, r) implies
                            perm2_round(p, input, None, None, 0, None, r) by {
                            assert(p.0.parse_rel(i0, res));
                            assert(perm2_round(p, i0, g0, g1, 0, None, r));
                        }
                        i = rest;
                        s0 = Some(o);
                        continue;
                    },
                    Err(ErrMode::Backtrack(e)) => {
                        let ghost res = Err::<(I, O0), ErrMode<E>>(ErrMode::Backtrack(e));
                        assert forall|r: IResult<I, (O0, O1), E>|
                            perm2_round(p, i0, g0, g1, 1, Some(e), r) implies
                            #[trigger] perm2_round(p, i0, g0, g1, 0, None, r) by {
                            assert(p.0.parse_rel(i0, res));
                            assert(merged::<I, E>(None, e, e));
                        }
                        err = Some(e);
                    },
                    Err(x) => {
                        let r: IResult<I, (O0, O1), E> = Err(x);
                        assert(p.0.parse_rel(i0, Err(x)));
                        assert(perm2_round(p, i0, g0, g1, 0, None, r));
                        return r;
                    },
                }
            }
            let ghost err0 = err;
            assert forall|r: IResult<I, (O0, O1), E>|
                perm2_round(p, i0, g0, g1, 1, err0, r) implies
                #[trigger] perm2_round(p, i0, g0, g1, 0, None, r) by {
            }
            if s1.is_none() {
                match self.1.parse_next(i) {
                    Ok((rest, o)) => {
                        let ghost res = Ok::<(I, O1), ErrMode<E>>((rest, o));
                        assert forall|r: IResult<I, (O0, O1), E>|
                            #[trigger] perm2_round(p, rest, g0, Some(o), 0, None, r) implies
                            perm2_round(p, input, None, None, 0, None, r) by {
                            assert(p.1.parse_rel(i0, res));
                            assert(perm2_round(p, i0, g0, g1, 1, err0, r));
                            assert(perm2_round(p, i0, g0, g1, 0, None, r));
                        }
                        i = rest;
                        s1 = Some(o);
                        continue;
                    },
                    Err(ErrMode::Backtrack(e)) => {
                        let ghost res = Err::<(I, O1), ErrMode<E>>(ErrMode::Backtrack(e));
                        let m = match err {
                            Some(x) => x.or(e),
                            None => e,
                        };
                        assert(merged::<I, E>(err0, e, m));
                        assert forall|r: IResult<I, (O0, O1), E>|
                            perm2_round(p, i0, g0, g1, 2, Some(m), r) implies
                            #[trigger] perm2_round(p, i0, g0, g1, 0, None, r) by {
                            assert(p.1.parse_rel(i0, res));
                            assert(perm2_round(p, i0, g0, g1, 1, err0, r));
                        }
                        err = Some(m);
                    },
                    Err(x) => {
                        let r: IResult<I, (O0, O1), E> = Err(x);
                        assert(p.1.parse_rel(i0, Err(x)));
                        assert(perm2_round(p, i0, g0, g1, 1, err0, r));
                        assert(perm2_round(p, i0, g0, g1, 0, None, r));
                        return r;
                    },
                }
            }
            let ghost err1 = err;
            assert forall|r: IResult<I, (O0, O1), E>|
                perm2_round(p, i0, g0, g1, 2, err1, r) implies
                #[trigger] perm2_round(p, i0, g0, g1, 0, None, r) by {
                if g1 is Some {
                    assert(perm2_round(p, i0, g0, g1, 1, err0, r));
                }
            }
            match err {
                Some(e) => {
                    let f = e.append(i, ErrorKind::Alt);
                    let r = Err(ErrMode::Backtrack(f));
                    assert(perm2_round(p, i0, g0, g1, 2, err1, r));
                    assert(perm2_round(p, i0, g0, g1, 0, None, r));
                    return r;
                },
                None => {
                    match (s0, s1) {
                        (Some(a), Some(b)) => {
                            let r = Ok((i, (a, b)));
                            assert(perm2_round(p, i0, g0, g1, 2, err1, r));
                            assert(perm2_round(p, i0, g0, g1, 0, None, r));
                            return r;
                        },
                        _ => {
                            return vstd::pervasive::unreached();
                        },
                    }
                },
            }
        }
    }
}

} // verus!
