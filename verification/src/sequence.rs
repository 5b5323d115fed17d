//! Combinators applying parsers in sequence
//!
//! A tuple of parsers is itself a parser: it runs each element in turn on what the previous
//! one left, and returns the tuple of their outputs.
use core::marker::PhantomData;
use vstd::prelude::*;
use crate::input::Input;
use crate::parser::{IResult, Parser};

verus! {

/// `first` then `second` ran on `input`: the first left `r1` with `a`, the second left `r2`
/// with `b`; or the error `e` came from the first, or from the second once the first succeeded.
pub open spec fn then_ok<I: Input, A, B, E, P: Parser<I, A, E>, Q: Parser<I, B, E>>(
    first: P,
    second: Q,
    input: I,
    r1: I,
    a: A,
    r2: I,
    b: B,
) -> bool {
    first.parse_rel(input, Ok((r1, a))) && second.parse_rel(r1, Ok((r2, b)))
}

/// The error `e` of running `first` then `second` on `input`.
pub open spec fn then_err<I: Input, A, B, E, P: Parser<I, A, E>, Q: Parser<I, B, E>>(
    first: P,
    second: Q,
    input: I,
    e: crate::error::ErrMode<E>,
) -> bool {
    first.parse_rel(input, Err(e)) || exists|r1: I, a: A|
        #![trigger first.parse_rel(input, Ok((r1, a)))]
        first.parse_rel(input, Ok((r1, a))) && second.parse_rel(r1, Err(e))
}

/// Implementation of [`preceded`]
pub struct Preceded<F, G, I, O1, O2, E> {
    /// The parser whose output is dropped
    pub first: F,
    /// The parser whose output is returned
    pub second: G,
    /// Marks the types the combinator works with
    pub phantom: PhantomData<(I, O1, O2, E)>,
}

impl<F, G, I, O1, O2, E> Parser<I, O2, E> for Preceded<F, G, I, O1, O2, E> where
    I: Input,
    F: Parser<I, O1, E>,
    G: Parser<I, O2, E>,
 {
    open spec fn parse_req(&self, input: I) -> bool {
        self.first.parse_req(input) && forall|i: I| #[trigger] self.second.parse_req(i)
    }

    open spec fn parse_rel(&self, input: I, r: IResult<I, O2, E>) -> bool {
        match r {
            Ok((rest, o)) => exists|r1: I, a: O1, r2: I, b: O2|
                #![trigger self.first.parse_rel(input, Ok((r1, a))), self.second.parse_rel(r1, Ok((r2, b)))]
                then_ok(self.first, self.second, input, r1, a, r2, b) && r2 == rest && b == o,
            Err(e) => then_err(self.first, self.second, input, e),
        }
    }

    fn parse_next(&mut self, input: I) -> (r: IResult<I, O2, E>) {
        let (r1, a) = match self.first.parse_next(input) {
            Ok(x) => x,
            Err(e) => {
                return Err(e);
            },
        };
        assert(self.first.parse_rel(input, Ok((r1, a))));
        let (r2, b) = match self.second.parse_next(r1) {
            Ok(x) => x,
            Err(e) => {
                return Err(e);
            },
        };
        assert(self.second.parse_rel(r1, Ok((r2, b))));
        Ok((r2, b))
    }
}

/// Matches an object from the first parser and discards it,
/// then gets an object from the second parser.
pub fn preceded<I, O1, O2, E, F, G>(first: F, second: G) -> (r: Preceded<F, G, I, O1, O2, E>) where
    I: Input,
    F: Parser<I, O1, E>,
    G: Parser<I, O2, E>,

    ensures
        r.first == first,
        r.second == second,
{
    Preceded { first, second, phantom: PhantomData }
}

/// Implementation of [`terminated`]
pub struct Terminated<F, G, I, O1, O2, E> {
    /// The parser whose output is returned
    pub first: F,
    /// The parser whose output is dropped
    pub second: G,
    /// Marks the types the combinator works with
    pub phantom: PhantomData<(I, O1, O2, E)>,
}

impl<F, G, I, O1, O2, E> Parser<I, O1, E> for Terminated<F, G, I, O1, O2, E> where
    I: Input,
    F: Parser<I, O1, E>,
    G: Parser<I, O2, E>,
 {
    open spec fn parse_req(&self, input: I) -> bool {
        self.first.parse_req(input) && forall|i: I| #[trigger] self.second.parse_req(i)
    }

    open spec fn parse_rel(&self, input: I, r: IResult<I, O1, E>) -> bool {
        match r {
            Ok((rest, o)) => exists|r1: I, a: O1, r2: I, b: O2|
                #![trigger self.first.parse_rel(input, Ok((r1, a))), self.second.parse_rel(r1, Ok((r2, b)))]
                then_ok(self.first, self.second, input, r1, a, r2, b) && r2 == rest && a == o,
            Err(e) => then_err(self.first, self.second, input, e),
        }
    }

    fn parse_next(&mut self, input: I) -> (r: IResult<I, O1, E>) {
        let (r1, a) = match self.first.parse_next(input) {
            Ok(x) => x,
            Err(e) => {
                return Err(e);
            },
        };
        assert(self.first.parse_rel(input, Ok((r1, a))));
        let (r2, b) = match self.second.parse_next(r1) {
            Ok(x) => x,
            Err(e) => {
                return Err(e);
            },
        };
        assert(self.second.parse_rel(r1, Ok((r2, b))));
        Ok((r2, a))
    }
}

/// Gets an object from the first parser,
/// then matches an object from the second parser and discards it.
pub fn terminated<I, O1, O2, E, F, G>(first: F, second: G) -> (r: Terminated<F, G, I, O1, O2, E>) where
    I: Input,
    F: Parser<I, O1, E>,
    G: Parser<I, O2, E>,

    ensures
        r.first == first,
        r.second == second,
{
    Terminated { first, second, phantom: PhantomData }
}

/// Implementation of [`separated_pair`]
pub struct SeparatedPair<F, G, H, I, O1, O2, O3, E> {
    /// The parser of the first element
    pub first: F,
    /// The separator and the parser of the second element
    pub rest: Preceded<G, H, I, O2, O3, E>,
    /// Marks the types the combinator works with
    pub phantom: PhantomData<(I, O1, E)>,
}

impl<F, G, H, I, O1, O2, O3, E> Parser<I, (O1, O3), E> for SeparatedPair<F, G, H, I, O1, O2, O3, E> where
    I: Input,
    F: Parser<I, O1, E>,
    G: Parser<I, O2, E>,
    H: Parser<I, O3, E>,
 {
    open spec fn parse_req(&self, input: I) -> bool {
        self.first.parse_req(input) && forall|i: I| #[trigger] self.rest.parse_req(i)
    }

    open spec fn parse_rel(&self, input: I, r: IResult<I, (O1, O3), E>) -> bool {
        match r {
            Ok((rest, (o1, o3))) => exists|r1: I, a: O1, r2: I, b: O3|
                #![trigger self.first.parse_rel(input, Ok((r1, a))), self.rest.parse_rel(r1, Ok((r2, b)))]
                then_ok(self.first, self.rest, input, r1, a, r2, b) && r2 == rest && a == o1
                    && b == o3,
            Err(e) => then_err(self.first, self.rest, input, e),
        }
    }

    fn parse_next(&mut self, input: I) -> (r: IResult<I, (O1, O3), E>) {
        let (r1, a) = match self.first.parse_next(input) {
            Ok(x) => x,
            Err(e) => {
                return Err(e);
            },
        };
        assert(self.first.parse_rel(input, Ok((r1, a))));
        let (r2, b) = match self.rest.parse_next(r1) {
            Ok(x) => x,
            Err(e) => {
                return Err(e);
            },
        };
        assert(self.rest.parse_rel(r1, Ok((r2, b))));
        Ok((r2, (a, b)))
    }
}

/// Gets an object from the first parser,
/// then matches an object from the sep_parser and discards it,
/// then gets another object from the second parser.
pub fn separated_pair<I, O1, O2, O3, E, F, G, H>(first: F, sep: G, second: H) -> (r: SeparatedPair<
    F,
    G,
    H,
    I,
    O1,
    O2,
    O3,
    E,
>) where I: Input, F: Parser<I, O1, E>, G: Parser<I, O2, E>, H: Parser<I, O3, E>
    ensures
        r.first == first,
        r.rest.first == sep,
        r.rest.second == second,
{
    SeparatedPair { first, rest: preceded(sep, second), phantom: PhantomData }
}

/// Implementation of [`delimited`]
pub struct Delimited<F, G, H, I, O1, O2, O3, E> {
    /// The opening parser followed by the one whose output is returned, then the closing one
    pub inner: Terminated<Preceded<F, G, I, O1, O2, E>, H, I, O2, O3, E>,
}

impl<F, G, H, I, O1, O2, O3, E> Parser<I, O2, E> for Delimited<F, G, H, I, O1, O2, O3, E> where
    I: Input,
    F: Parser<I, O1, E>,
    G: Parser<I, O2, E>,
    H: Parser<I, O3, E>,
 {
    open spec fn parse_req(&self, input: I) -> bool {
        self.inner.parse_req(input)
    }

    open spec fn parse_rel(&self, input: I, r: IResult<I, O2, E>) -> bool {
        self.inner.parse_rel(input, r)
    }

    fn parse_next(&mut self, input: I) -> (r: IResult<I, O2, E>) {
        self.inner.parse_next(input)
    }
}

/// Matches an object from the first parser and discards it,
/// then gets an object from the second parser,
/// and finally matches an object from the third parser and discards it.
pub fn delimited<I, O1, O2, O3, E, F, G, H>(first: F, second: G, third: H) -> (r: Delimited<
    F,
    G,
    H,
    I,
    O1,
    O2,
    O3,
    E,
>) where I: Input, F: Parser<I, O1, E>, G: Parser<I, O2, E>, H: Parser<I, O3, E>
    ensures
        r.inner.first.first == first,
        r.inner.first.second == second,
        r.inner.second == third,
{
    Delimited { inner: terminated(preceded(first, second), third) }
}

/// Gets an object from the first parser, then gets another object from the second parser.
pub fn pair<I, O1, O2, E, F, G>(first: F, second: G) -> (r: (F, G)) where
    I: Input,
    F: Parser<I, O1, E>,
    G: Parser<I, O2, E>,

    ensures
        r == (first, second),
{
    (first, second)
}

/// Applies a tuple of parsers one by one and returns their results as a tuple.
///
/// A tuple of parsers is itself a parser; this names that use.
pub fn tuple<P, PI, PO, PE>(sequence: P) -> (r: Tuple<P, PI, PO, PE>)
    ensures
        r.sequence == sequence,
{
    Tuple { sequence, phantom: PhantomData }
}

/// Implementation of [`tuple()`]
pub struct Tuple<P, PI, PO, PE> {
    /// The tuple of parsers
    pub sequence: P,
    /// Marks the types the parser works with
    pub phantom: PhantomData<(PI, PO, PE)>,
}

impl<P, PI, PO, PE> Tuple<P, PI, PO, PE> where PI: Input, P: Parser<PI, PO, PE> {
    /// See [`Parser::parse`]
    pub fn parse(&mut self, input: PI) -> (r: IResult<PI, PO, PE>)
        requires
            old(self).sequence.parse_req(input),
        ensures
            old(self).sequence.parse_rel(input, r),
            *final(self) == *old(self),
    {
        self.sequence.parse_next(input)
    }
}

impl<P, PI, PO, PE> Parser<PI, PO, PE> for Tuple<P, PI, PO, PE> where PI: Input, P: Parser<PI, PO, PE> {
    open spec fn parse_req(&self, input: PI) -> bool {
        self.sequence.parse_req(input)
    }

    open spec fn parse_rel(&self, input: PI, r: IResult<PI, PO, PE>) -> bool {
        self.sequence.parse_rel(input, r)
    }

    fn parse_next(&mut self, input: PI) -> (r: IResult<PI, PO, PE>) {
        self.sequence.parse_next(input)
    }
}

impl<F, G, I, O1, O2, E> Preceded<F, G, I, O1, O2, E> where
    I: Input,
    F: Parser<I, O1, E>,
    G: Parser<I, O2, E>,
 {
    /// See [`Parser::parse`]
    pub fn parse(&mut self, input: I) -> (r: IResult<I, O2, E>)
        requires
            old(self).parse_req(input),
        ensures
            old(self).parse_rel(input, r),
            *final(self) == *old(self),
    {
        self.parse_next(input)
    }
}

impl<F, G, I, O1, O2, E> Terminated<F, G, I, O1, O2, E> where
    I: Input,
    F: Parser<I, O1, E>,
    G: Parser<I, O2, E>,
 {
    /// See [`Parser::parse`]
    pub fn parse(&mut self, input: I) -> (r: IResult<I, O1, E>)
        requires
            old(self).parse_req(input),
        ensures
            old(self).parse_rel(input, r),
            *final(self) == *old(self),
    {
        self.parse_next(input)
    }
}

impl<F, G, H, I, O1, O2, O3, E> SeparatedPair<F, G, H, I, O1, O2, O3, E> where
    I: Input,
    F: Parser<I, O1, E>,
    G: Parser<I, O2, E>,
    H: Parser<I, O3, E>,
 {
    /// See [`Parser::parse`]
    pub fn parse(&mut self, input: I) -> (r: IResult<I, (O1, O3), E>)
        requires
            old(self).parse_req(input),
        ensures
            old(self).parse_rel(input, r),
            *final(self) == *old(self),
    {
        self.parse_next(input)
    }
}

impl<F, G, H, I, O1, O2, O3, E> Delimited<F, G, H, I, O1, O2, O3, E> where
    I: Input,
    F: Parser<I, O1, E>,
    G: Parser<I, O2, E>,
    H: Parser<I, O3, E>,
 {
    /// See [`Parser::parse`]
    pub fn parse(&mut self, input: I) -> (r: IResult<I, O2, E>)
        requires
            old(self).parse_req(input),
        ensures
            old(self).parse_rel(input, r),
            *final(self) == *old(self),
    {
        self.parse_next(input)
    }
}

impl<I, E, P0, O0> Parser<I, (O0,), E> for (P0,) where
    I: Input,
    P0: Parser<I, O0, E>,
 {
    open spec fn parse_req(&self, input: I) -> bool {
        self.0.parse_req(input)
    }

    open spec fn parse_rel(&self, input: I, r: IResult<I, (O0,), E>) -> bool {
        match r {
            Ok((rest, (o0,))) => exists|r1: I, a0: O0|
                #![trigger self.0.parse_rel(input, Ok((r1, a0)))]
                self.0.parse_rel(input, Ok((r1, a0)))
                    && r1 == rest
                    && a0 == o0,
            Err(e) => self.0.parse_rel(input, Err(e)),
        }
    }

    fn parse_next(&mut self, input: I) -> (r: IResult<I, (O0,), E>) {
        let (r1, a0) = match self.0.parse_next(input) {
            Ok(x) => x,
            Err(e) => {
                return Err(e);
            },
        };
        assert(self.0.parse_rel(input, Ok((r1, a0))));
        Ok((r1, (a0,)))
    }
}

impl<I, E, P0, P1, O0, O1> Parser<I, (O0, O1), E> for (P0, P1) where
    I: Input,
    P0: Parser<I, O0, E>,
    P1: Parser<I, O1, E>,
 {
    open spec fn parse_req(&self, input: I) -> bool {
        self.0.parse_req(input)
            && (forall|i: I| #[trigger] self.1.parse_req(i))
    }

    open spec fn parse_rel(&self, input: I, r: IResult<I, (O0, O1), E>) -> bool {
        match r {
            Ok((rest, (o0, o1))) => exists|r1: I, a0: O0, r2: I, a1: O1|
                #![trigger self.0.parse_rel(input, Ok((r1, a0))), self.1.parse_rel(r1, Ok((r2, a1)))]
                self.0.parse_rel(input, Ok((r1, a0)))
                    && self.1.parse_rel(r1, Ok((r2, a1)))
                    && r2 == rest
                    && a0 == o0
                    && a1 == o1,
            Err(e) => self.0.parse_rel(input, Err(e))
                || (exists|r1: I, a0: O0|
                    #![trigger self.0.parse_rel(input, Ok((r1, a0)))]
                    self.0.parse_rel(input, Ok((r1, a0)))
                        && self.1.parse_rel(r1, Err(e))),
        }
    }

    fn parse_next(&mut self, input: I) -> (r: IResult<I, (O0, O1), E>) {
        let (r1, a0) = match self.0.parse_next(input) {
            Ok(x) => x,
            Err(e) => {
                return Err(e);
            },
        };
        let (r2, a1) = match self.1.parse_next(r1) {
            Ok(x) => x,
            Err(e) => {
                assert(self.0.parse_rel(input, Ok((r1, a0))));
                return Err(e);
            },
        };
        assert(self.0.parse_rel(input, Ok((r1, a0))));
        assert(self.1.parse_rel(r1, Ok((r2, a1))));
        Ok((r2, (a0, a1)))
    }
}

impl<I, E, P0, P1, P2, O0, O1, O2> Parser<I, (O0, O1, O2), E> for (P0, P1, P2) where
    I: Input,
    P0: Parser<I, O0, E>,
    P1: Parser<I, O1, E>,
    P2: Parser<I, O2, E>,
 {
    open spec fn parse_req(&self, input: I) -> bool {
        self.0.parse_req(input)
            && (forall|i: I| #[trigger] self.1.parse_req(i))
            && (forall|i: I| #[trigger] self.2.parse_req(i))
    }

    open spec fn parse_rel(&self, input: I, r: IResult<I, (O0, O1, O2), E>) -> bool {
        match r {
            Ok((rest, (o0, o1, o2))) => exists|r1: I, a0: O0, r2: I, a1: O1, r3: I, a2: O2|
                #![trigger self.0.parse_rel(input, Ok((r1, a0))), self.1.parse_rel(r1, Ok((r2, a1))), self.2.parse_rel(r2, Ok((r3, a2)))]
                self.0.parse_rel(input, Ok((r1, a0)))
                    && self.1.parse_rel(r1, Ok((r2, a1)))
                    && self.2.parse_rel(r2, Ok((r3, a2)))
                    && r3 == rest
                    && a0 == o0
                    && a1 == o1
                    && a2 == o2,
            Err(e) => self.0.parse_rel(input, Err(e))
                || (exists|r1: I, a0: O0|
                    #![trigger self.0.parse_rel(input, Ok((r1, a0)))]
                    self.0.parse_rel(input, Ok((r1, a0)))
                        && self.1.parse_rel(r1, Err(e)))
                || (exists|r1: I, a0: O0, r2: I, a1: O1|
                    #![trigger self.0.parse_rel(input, Ok((r1, a0))), self.1.parse_rel(r1, Ok((r2, a1)))]
                    self.0.parse_rel(input, Ok((r1, a0)))
                        && self.1.parse_rel(r1, Ok((r2, a1)))
                        && self.2.parse_rel(r2, Err(e))),
        }
    }

    fn parse_next(&mut self, input: I) -> (r: IResult<I, (O0, O1, O2), E>) {
        let (r1, a0) = match self.0.parse_next(input) {
            Ok(x) => x,
            Err(e) => {
                return Err(e);
            },
        };
        let (r2, a1) = match self.1.parse_next(r1) {
            Ok(x) => x,
            Err(e) => {
                assert(self.0.parse_rel(input, Ok((r1, a0))));
                return Err(e);
            },
        };
        let (r3, a2) = match self.2.parse_next(r2) {
            Ok(x) => x,
            Err(e) => {
                assert(self.0.parse_rel(input, Ok((r1, a0))));
                assert(self.1.parse_rel(r1, Ok((r2, a1))));
                return Err(e);
            },
        };
        assert(self.0.parse_rel(input, Ok((r1, a0))));
        assert(self.1.parse_rel(r1, Ok((r2, a1))));
        assert(self.2.parse_rel(r2, Ok((r3, a2))));
        Ok((r3, (a0, a1, a2)))
    }
}

impl<I, E, P0, P1, P2, P3, O0, O1, O2, O3> Parser<I, (O0, O1, O2, O3), E> for (P0, P1, P2, P3) where
    I: Input,
    P0: Parser<I, O0, E>,
    P1: Parser<I, O1, E>,
    P2: Parser<I, O2, E>,
    P3: Parser<I, O3, E>,
 {
    open spec fn parse_req(&self, input: I) -> bool {
        self.0.parse_req(input)
            && (forall|i: I| #[trigger] self.1.parse_req(i))
            && (forall|i: I| #[trigger] self.2.parse_req(i))
            && (forall|i: I| #[trigger] self.3.parse_req(i))
    }

    open spec fn parse_rel(&self, input: I, r: IResult<I, (O0, O1, O2, O3), E>) -> bool {
        match r {
            Ok((rest, (o0, o1, o2, o3))) => exists|r1: I, a0: O0, r2: I, a1: O1, r3: I, a2: O2, r4: I, a3: O3|
                #![trigger self.0.parse_rel(input, Ok((r1, a0))), self.1.parse_rel(r1, Ok((r2, a1))), self.2.parse_rel(r2, Ok((r3, a2))), self.3.parse_rel(r3, Ok((r4, a3)))]
                self.0.parse_rel(input, Ok((r1, a0)))
                    && self.1.parse_rel(r1, Ok((r2, a1)))
                    && self.2.parse_rel(r2, Ok((r3, a2)))
                    && self.3.parse_rel(r3, Ok((r4, a3)))
                    && r4 == rest
                    && a0 == o0
                    && a1 == o1
                    && a2 == o2
                    && a3 == o3,
            Err(e) => self.0.parse_rel(input, Err(e))
                || (exists|r1: I, a0: O0|
                    #![trigger self.0.parse_rel(input, Ok((r1, a0)))]
                    self.0.parse_rel(input, Ok((r1, a0)))
                        && self.1.parse_rel(r1, Err(e)))
                || (exists|r1: I, a0: O0, r2: I, a1: O1|
                    #![trigger self.0.parse_rel(input, Ok((r1, a0))), self.1.parse_rel(r1, Ok((r2, a1)))]
                    self.0.parse_rel(input, Ok((r1, a0)))
                        && self.1.parse_rel(r1, Ok((r2, a1)))
                        && self.2.parse_rel(r2, Err(e)))
                || (exists|r1: I, a0: O0, r2: I, a1: O1, r3: I, a2: O2|
                    #![trigger self.0.parse_rel(input, Ok((r1, a0))), self.1.parse_rel(r1, Ok((r2, a1))), self.2.parse_rel(r2, Ok((r3, a2)))]
                    self.0.parse_rel(input, Ok((r1, a0)))
                        && self.1.parse_rel(r1, Ok((r2, a1)))
                        && self.2.parse_rel(r2, Ok((r3, a2)))
                        && self.3.parse_rel(r3, Err(e))),
        }
    }

    fn parse_next(&mut self, input: I) -> (r: IResult<I, (O0, O1, O2, O3), E>) {
        let (r1, a0) = match self.0.parse_next(input) {
            Ok(x) => x,
            Err(e) => {
                return Err(e);
            },
        };
        let (r2, a1) = match self.1.parse_next(r1) {
            Ok(x) => x,
            Err(e) => {
                assert(self.0.parse_rel(input, Ok((r1, a0))));
                return Err(e);
            },
        };
        let (r3, a2) = match self.2.parse_next(r2) {
            Ok(x) => x,
            Err(e) => {
                assert(self.0.parse_rel(input, Ok((r1, a0))));
                assert(self.1.parse_rel(r1, Ok((r2, a1))));
                return Err(e);
            },
        };
        let (r4, a3) = match self.3.parse_next(r3) {
            Ok(x) => x,
            Err(e) => {
                assert(self.0.parse_rel(input, Ok((r1, a0))));
                assert(self.1.parse_rel(r1, Ok((r2, a1))));
                assert(self.2.parse_rel(r2, Ok((r3, a2))));
                return Err(e);
            },
        };
        assert(self.0.parse_rel(input, Ok((r1, a0))));
        assert(self.1.parse_rel(r1, Ok((r2, a1))));
        assert(self.2.parse_rel(r2, Ok((r3, a2))));
        assert(self.3.parse_rel(r3, Ok((r4, a3))));
        Ok((r4, (a0, a1, a2, a3)))
    }
}

impl<I, E, P0, P1, P2, P3, P4, O0, O1, O2, O3, O4> Parser<I, (O0, O1, O2, O3, O4), E> for (P0, P1, P2, P3, P4) where
    I: Input,
    P0: Parser<I, O0, E>,
    P1: Parser<I, O1, E>,
    P2: Parser<I, O2, E>,
    P3: Parser<I, O3, E>,
    P4: Parser<I, O4, E>,
 {
    open spec fn parse_req(&self, input: I) -> bool {
        self.0.parse_req(input)
            && (forall|i: I| #[trigger] self.1.parse_req(i))
            && (forall|i: I| #[trigger] self.2.parse_req(i))
            && (forall|i: I| #[trigger] self.3.parse_req(i))
            && (forall|i: I| #[trigger] self.4.parse_req(i))
    }

    open spec fn parse_rel(&self, input: I, r: IResult<I, (O0, O1, O2, O3, O4), E>) -> bool {
        match r {
            Ok((rest, (o0, o1, o2, o3, o4))) => exists|r1: I, a0: O0, r2: I, a1: O1, r3: I, a2: O2, r4: I, a3: O3, r5: I, a4: O4|
                #![trigger self.0.parse_rel(input, Ok((r1, a0))), self.1.parse_rel(r1, Ok((r2, a1))), self.2.parse_rel(r2, Ok((r3, a2))), self.3.parse_rel(r3, Ok((r4, a3))), self.4.parse_rel(r4, Ok((r5, a4)))]
                self.0.parse_rel(input, Ok((r1, a0)))
                    && self.1.parse_rel(r1, Ok((r2, a1)))
                    && self.2.parse_rel(r2, Ok((r3, a2)))
                    && self.3.parse_rel(r3, Ok((r4, a3)))
                    && self.4.parse_rel(r4, Ok((r5, a4)))
                    && r5 == rest
                    && a0 == o0
                    && a1 == o1
                    && a2 == o2
                    && a3 == o3
                    && a4 == o4,
            Err(e) => self.0.parse_rel(input, Err(e))
                || (exists|r1: I, a0: O0|
                    #![trigger self.0.parse_rel(input, Ok((r1, a0)))]
                    self.0.parse_rel(input, Ok((r1, a0)))
                        && self.1.parse_rel(r1, Err(e)))
                || (exists|r1: I, a0: O0, r2: I, a1: O1|
                    #![trigger self.0.parse_rel(input, Ok((r1, a0))), self.1.parse_rel(r1, Ok((r2, a1)))]
                    self.0.parse_rel(input, Ok((r1, a0)))
                        && self.1.parse_rel(r1, Ok((r2, a1)))
                        && self.2.parse_rel(r2, Err(e)))
                || (exists|r1: I, a0: O0, r2: I, a1: O1, r3: I, a2: O2|
                    #![trigger self.0.parse_rel(input, Ok((r1, a0))), self.1.parse_rel(r1, Ok((r2, a1))), self.2.parse_rel(r2, Ok((r3, a2)))]
                    self.0.parse_rel(input, Ok((r1, a0)))
                        && self.1.parse_rel(r1, Ok((r2, a1)))
                        && self.2.parse_rel(r2, Ok((r3, a2)))
                        && self.3.parse_rel(r3, Err(e)))
                || (exists|r1: I, a0: O0, r2: I, a1: O1, r3: I, a2: O2, r4: I, a3: O3|
                    #![trigger self.0.parse_rel(input, Ok((r1, a0))), self.1.parse_rel(r1, Ok((r2, a1))), self.2.parse_rel(r2, Ok((r3, a2))), self.3.parse_rel(r3, Ok((r4, a3)))]
                    self.0.parse_rel(input, Ok((r1, a0)))
                        && self.1.parse_rel(r1, Ok((r2, a1)))
                        && self.2.parse_rel(r2, Ok((r3, a2)))
                        && self.3.parse_rel(r3, Ok((r4, a3)))
                        && self.4.parse_rel(r4, Err(e))),
        }
    }

    fn parse_next(&mut self, input: I) -> (r: IResult<I, (O0, O1, O2, O3, O4), E>) {
        let (r1, a0) = match self.0.parse_next(input) {
            Ok(x) => x,
            Err(e) => {
                return Err(e);
            },
        };
        let (r2, a1) = match self.1.parse_next(r1) {
            Ok(x) => x,
            Err(e) => {
                assert(self.0.parse_rel(input, Ok((r1, a0))));
                return Err(e);
            },
        };
        let (r3, a2) = match self.2.parse_next(r2) {
            Ok(x) => x,
            Err(e) => {
                assert(self.0.parse_rel(input, Ok((r1, a0))));
                assert(self.1.parse_rel(r1, Ok((r2, a1))));
                return Err(e);
            },
        };
        let (r4, a3) = match self.3.parse_next(r3) {
            Ok(x) => x,
            Err(e) => {
                assert(self.0.parse_rel(input, Ok((r1, a0))));
                assert(self.1.parse_rel(r1, Ok((r2, a1))));
                assert(self.2.parse_rel(r2, Ok((r3, a2))));
                return Err(e);
            },
        };
        let (r5, a4) = match self.4.parse_next(r4) {
            Ok(x) => x,
            Err(e) => {
                assert(self.0.parse_rel(input, Ok((r1, a0))));
                assert(self.1.parse_rel(r1, Ok((r2, a1))));
                assert(self.2.parse_rel(r2, Ok((r3, a2))));
                assert(self.3.parse_rel(r3, Ok((r4, a3))));
                return Err(e);
            },
        };
        assert(self.0.parse_rel(input, Ok((r1, a0))));
        assert(self.1.parse_rel(r1, Ok((r2, a1))));
        assert(self.2.parse_rel(r2, Ok((r3, a2))));
        assert(self.3.parse_rel(r3, Ok((r4, a3))));
        assert(self.4.parse_rel(r4, Ok((r5, a4))));
        Ok((r5, (a0, a1, a2, a3, a4)))
    }
}
} // verus!
