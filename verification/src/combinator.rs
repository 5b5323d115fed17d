//! List of parsers and combinators
//!
//! The structures here are built by the methods of [`Parser`] and by the functions of this
//! module; each states, through its `parse_rel`, what it returns in terms of the parsers it
//! wraps.
use core::marker::PhantomData;
use vstd::prelude::*;
use crate::error::{needed, ContextError, ErrMode, ErrorKind, FromExternalError, ParseError};
use crate::parser::{backtrack_at, IResult, Parser};
use crate::input::{Input, Located, ParseSlice};
use crate::sequence::{then_err, then_ok};

verus! {

/// The number of tokens between `input` and `rest`, or 0 when `rest` is the longer one.
pub open spec fn consumed_len<I: Input>(input: I, rest: I) -> int {
    if rest.tokens().len() <= input.tokens().len() {
        input.tokens().len() - rest.tokens().len()
    } else {
        0
    }
}

/// Computes [`consumed_len`].
pub fn offset_between<I: Input>(input: &I, rest: &I) -> (n: usize)
    ensures
        n == consumed_len(*input, *rest),
{
    let a = input.token_count();
    let b = rest.token_count();
    if b <= a {
        a - b
    } else {
        0
    }
}

/// Implementation of [`Parser::map`]
pub struct Mapped<F, G, I, O, O2, E> {
    /// The parser whose output is mapped
    pub parser: F,
    /// The mapping function
    pub map: G,
    /// Marks the types the combinator works with
    pub phantom: PhantomData<(I, O, O2, E)>,
}

impl<F, G, I, O, O2, E> Mapped<F, G, I, O, O2, E> {
    /// Builds the combinator
    pub fn new(parser: F, map: G) -> (r: Self)
        ensures
            r.parser == parser,
            r.map == map,
    {
        Mapped { parser, map, phantom: PhantomData }
    }
}

impl<F, G, I, O, O2, E> Parser<I, O2, E> for Mapped<F, G, I, O, O2, E> where
    I: Input,
    F: Parser<I, O, E>,
    G: Fn(O) -> O2,
 {
    open spec fn parse_req(&self, input: I) -> bool {
        self.parser.parse_req(input) && forall|o: O| call_requires(self.map, (o,))
    }

    open spec fn parse_rel(&self, input: I, r: IResult<I, O2, E>) -> bool {
        match r {
            Ok((rest, o2)) => exists|rest0: I, o: O|
                #![trigger self.parser.parse_rel(input, Ok((rest0, o)))]
                self.parser.parse_rel(input, Ok((rest0, o))) && rest0 == rest && call_ensures(
                    self.map,
                    (o,),
                    o2,
                ),
            Err(e) => self.parser.parse_rel(input, Err(e)),
        }
    }

    fn parse_next(&mut self, input: I) -> (r: IResult<I, O2, E>) {
        match self.parser.parse_next(input) {
            Err(e) => Err(e),
            Ok((rest, o)) => {
                let ghost go = o;
                let o2 = (self.map)(o);
                assert(call_ensures(self.map, (go,), o2));
                assert(self.parser.parse_rel(input, Ok((rest, go))));
                let r: IResult<I, O2, E> = Ok((rest, o2));
                r
            },
        }
    }
}

/// Implementation of [`Parser::try_map`]
pub struct TryMap<F, G, I, O, O2, E, E2> {
    /// The parser whose output is mapped
    pub parser: F,
    /// The fallible mapping function
    pub map: G,
    /// Marks the types the combinator works with
    pub phantom: PhantomData<(I, O, O2, E, E2)>,
}

impl<F, G, I, O, O2, E, E2> TryMap<F, G, I, O, O2, E, E2> {
    /// Builds the combinator
    pub fn new(parser: F, map: G) -> (r: Self)
        ensures
            r.parser == parser,
            r.map == map,
    {
        TryMap { parser, map, phantom: PhantomData }
    }
}

impl<F, G, I, O, O2, E, E2> Parser<I, O2, E> for TryMap<F, G, I, O, O2, E, E2> where
    I: Input,
    F: Parser<I, O, E>,
    G: Fn(O) -> Result<O2, E2>,
    E: FromExternalError<I, E2>,
 {
    open spec fn parse_req(&self, input: I) -> bool {
        self.parser.parse_req(input) && forall|o: O| call_requires(self.map, (o,))
    }

    open spec fn parse_rel(&self, input: I, r: IResult<I, O2, E>) -> bool {
        match r {
            Ok((rest, o2)) => exists|rest0: I, o: O|
                #![trigger self.parser.parse_rel(input, Ok((rest0, o)))]
                self.parser.parse_rel(input, Ok((rest0, o))) && rest0 == rest && call_ensures(
                    self.map,
                    (o,),
                    Ok::<O2, E2>(o2),
                ),
            Err(ErrMode::Backtrack(e)) => self.parser.parse_rel(input, Err(ErrMode::Backtrack(e)))
                || exists|rest: I, o: O, e2: E2|
                #![trigger self.parser.parse_rel(input, Ok((rest, o))), call_ensures(self.map, (o,), Err::<O2, E2>(e2))]
                self.parser.parse_rel(input, Ok((rest, o))) && call_ensures(
                    self.map,
                    (o,),
                    Err::<O2, E2>(e2),
                ) && E::from_external_error_rel(input, ErrorKind::MapRes, e2, e),
            Err(e) => self.parser.parse_rel(input, Err(e)),
        }
    }

    fn parse_next(&mut self, input: I) -> (r: IResult<I, O2, E>) {
        match self.parser.parse_next(input) {
            Err(e) => Err(e),
            Ok((rest, o)) => {
                let ghost go = o;
                match (self.map)(o) {
                    Ok(o2) => {
                        assert(call_ensures(self.map, (go,), Ok::<O2, E2>(o2)));
                        Ok((rest, o2))
                    },
                    Err(e2) => {
                        let ghost ge2 = e2;
                        let e = E::from_external_error(input, ErrorKind::MapRes, e2);
                        assert(self.parser.parse_rel(input, Ok((rest, go))));
                        assert(call_ensures(self.map, (go,), Err::<O2, E2>(ge2)));
                        Err(ErrMode::Backtrack(e))
                    },
                }
            },
        }
    }
}

/// Implementation of [`Parser::verify_map`]
pub struct VerifyMap<F, G, I, O, O2, E> {
    /// The parser whose output is mapped
    pub parser: F,
    /// The partial mapping function
    pub map: G,
    /// Marks the types the combinator works with
    pub phantom: PhantomData<(I, O, O2, E)>,
}

impl<F, G, I, O, O2, E> VerifyMap<F, G, I, O, O2, E> {
    /// Builds the combinator
    pub fn new(parser: F, map: G) -> (r: Self)
        ensures
            r.parser == parser,
            r.map == map,
    {
        VerifyMap { parser, map, phantom: PhantomData }
    }
}

impl<F, G, I, O, O2, E> Parser<I, O2, E> for VerifyMap<F, G, I, O, O2, E> where
    I: Input,
    F: Parser<I, O, E>,
    G: Fn(O) -> Option<O2>,
    E: ParseError<I>,
 {
    open spec fn parse_req(&self, input: I) -> bool {
        self.parser.parse_req(input) && forall|o: O| call_requires(self.map, (o,))
    }

    open spec fn parse_rel(&self, input: I, r: IResult<I, O2, E>) -> bool {
        match r {
            Ok((rest, o2)) => exists|rest0: I, o: O|
                #![trigger self.parser.parse_rel(input, Ok((rest0, o)))]
                self.parser.parse_rel(input, Ok((rest0, o))) && rest0 == rest && call_ensures(
                    self.map,
                    (o,),
                    Some(o2),
                ),
            Err(ErrMode::Backtrack(e)) => self.parser.parse_rel(input, Err(ErrMode::Backtrack(e)))
                || (E::from_error_kind_rel(input, ErrorKind::Verify, e) && exists|rest: I, o: O|
                #![trigger self.parser.parse_rel(input, Ok((rest, o)))]
                self.parser.parse_rel(input, Ok((rest, o))) && call_ensures(
                    self.map,
                    (o,),
                    None::<O2>,
                )),
            Err(e) => self.parser.parse_rel(input, Err(e)),
        }
    }

    fn parse_next(&mut self, input: I) -> (r: IResult<I, O2, E>) {
        match self.parser.parse_next(input) {
            Err(e) => Err(e),
            Ok((rest, o)) => {
                let ghost go = o;
                match (self.map)(o) {
                    Some(o2) => {
                        assert(call_ensures(self.map, (go,), Some(o2)));
                        Ok((rest, o2))
                    },
                    None => {
                        assert(self.parser.parse_rel(input, Ok((rest, go))));
                        Err(ErrMode::Backtrack(E::from_error_kind(input, ErrorKind::Verify)))
                    },
                }
            },
        }
    }
}

/// Implementation of [`Parser::map_res`]: the output is mapped as [`Parser::try_map`] maps it
pub type MapRes<F, G, I, O, O2, E, E2> = TryMap<F, G, I, O, O2, E, E2>;

/// Implementation of [`Parser::complete`]: incomplete input is an error, as with
/// [`Parser::complete_err`]
pub type Complete<F> = CompleteErr<F>;

/// Implementation of [`Parser::map_opt`]: the output is mapped as [`Parser::verify_map`] maps it
pub type MapOpt<F, G, I, O, O2, E> = VerifyMap<F, G, I, O, O2, E>;

/// Implementation of [`Parser::and_then`]
pub struct AndThen<F, G, I, O, O2, E> {
    /// The parser producing the intermediate stream
    pub outer: F,
    /// The parser applied to the intermediate stream
    pub inner: G,
    /// Marks the types the combinator works with
    pub phantom: PhantomData<(I, O, O2, E)>,
}

impl<F, G, I, O, O2, E> AndThen<F, G, I, O, O2, E> {
    /// Builds the combinator
    pub fn new(outer: F, inner: G) -> (r: Self)
        ensures
            r.outer == outer,
            r.inner == inner,
    {
        AndThen { outer, inner, phantom: PhantomData }
    }
}

impl<F, G, I, O, O2, E> Parser<I, O2, E> for AndThen<F, G, I, O, O2, E> where
    I: Input,
    O: Input,
    F: Parser<I, O, E>,
    G: Parser<O, O2, E>,
 {
    open spec fn parse_req(&self, input: I) -> bool {
        self.outer.parse_req(input) && forall|o: O| self.inner.parse_req(o)
    }

    open spec fn parse_rel(&self, input: I, r: IResult<I, O2, E>) -> bool {
        match r {
            Ok((rest, o2)) => exists|rest0: I, o: O, rest2: O, o3: O2|
                #![trigger self.outer.parse_rel(input, Ok((rest0, o))), self.inner.parse_rel(o, Ok((rest2, o3)))]
                self.outer.parse_rel(input, Ok((rest0, o))) && self.inner.parse_rel(
                    o,
                    Ok((rest2, o3)),
                ) && rest0 == rest && o3 == o2,
            Err(e) => self.outer.parse_rel(input, Err(e)) || exists|rest: I, o: O|
                #![trigger self.outer.parse_rel(input, Ok((rest, o)))]
                self.outer.parse_rel(input, Ok((rest, o))) && self.inner.parse_rel(o, Err(e)),
        }
    }

    fn parse_next(&mut self, input: I) -> (r: IResult<I, O2, E>) {
        let (rest, o) = self.outer.parse_next(input)?;
        match self.inner.parse_next(o) {
            Ok((rest2, o2)) => {
                assert(self.outer.parse_rel(input, Ok((rest, o))));
                assert(self.inner.parse_rel(o, Ok((rest2, o2))));
                Ok((rest, o2))
            },
            Err(e) => {
                assert(self.outer.parse_rel(input, Ok((rest, o))));
                Err(e)
            },
        }
    }
}

/// Implementation of [`Parser::flat_map`]
pub struct FlatMap<F, G, H, I, O, O2, E> {
    /// The parser whose output chooses the next parser
    pub f: F,
    /// Builds the next parser from the first output
    pub g: G,
    /// Marks the types the combinator works with
    pub phantom: PhantomData<(H, I, O, O2, E)>,
}

impl<F, G, H, I, O, O2, E> FlatMap<F, G, H, I, O, O2, E> {
    /// Builds the combinator
    pub fn new(f: F, g: G) -> (r: Self)
        ensures
            r.f == f,
            r.g == g,
    {
        FlatMap { f, g, phantom: PhantomData }
    }
}

impl<F, G, H, I, O, O2, E> Parser<I, O2, E> for FlatMap<F, G, H, I, O, O2, E> where
    I: Input,
    F: Parser<I, O, E>,
    G: Fn(O) -> H,
    H: Parser<I, O2, E>,
 {
    open spec fn parse_req(&self, input: I) -> bool {
        &&& self.f.parse_req(input)
        &&& forall|o: O| call_requires(self.g, (o,))
        &&& forall|o: O, h: H, i: I| #[trigger] call_ensures(self.g, (o,), h) ==> #[trigger] h.parse_req(i)
    }

    open spec fn parse_rel(&self, input: I, r: IResult<I, O2, E>) -> bool {
        self.f.parse_rel(input, Err(r->Err_0)) && r is Err || exists|rest: I, o: O, h: H|
            #![trigger self.f.parse_rel(input, Ok((rest, o))), call_ensures(self.g, (o,), h)]
            self.f.parse_rel(input, Ok((rest, o))) && call_ensures(self.g, (o,), h) && h.parse_rel(
                rest,
                r,
            )
    }

    fn parse_next(&mut self, input: I) -> (r: IResult<I, O2, E>) {
        match self.f.parse_next(input) {
            Err(e) => Err(e),
            Ok((rest, o)) => {
                let ghost go = o;
                let mut h = (self.g)(o);
                let ghost gh = h;
                let r = h.parse_next(rest);
                assert(self.f.parse_rel(input, Ok((rest, go))));
                assert(call_ensures(self.g, (go,), gh));
                assert(gh.parse_rel(rest, r));
                r
            },
        }
    }
}

/// Implementation of [`Parser::complete_err`]
pub struct CompleteErr<F> {
    /// The parser whose `Incomplete` is turned into an error
    pub f: F,
}

impl<F> CompleteErr<F> {
    /// Builds the combinator
    pub fn new(f: F) -> (r: Self)
        ensures
            r.f == f,
    {
        CompleteErr { f }
    }
}

impl<F, I, O, E> Parser<I, O, E> for CompleteErr<F> where
    I: Input,
    F: Parser<I, O, E>,
    E: ParseError<I>,
 {
    open spec fn parse_req(&self, input: I) -> bool {
        self.f.parse_req(input)
    }

    open spec fn parse_rel(&self, input: I, r: IResult<I, O, E>) -> bool {
        (self.f.parse_rel(input, r) && !(r matches Err(ErrMode::Incomplete(_)))) || (exists|n|
            self.f.parse_rel(input, Err(ErrMode::Incomplete(n))) && backtrack_at(
                r,
                input,
                ErrorKind::Complete,
            ))
    }

    fn parse_next(&mut self, input: I) -> (r: IResult<I, O, E>) {
        match self.f.parse_next(input) {
            Err(ErrMode::Incomplete(n)) => {
                assert(self.f.parse_rel(input, Err(ErrMode::Incomplete(n))));
                Err(ErrMode::Backtrack(E::from_error_kind(input, ErrorKind::Complete)))
            },
            rest => rest,
        }
    }
}

/// Implementation of [`Parser::verify`]
pub struct Verify<F, G, I, O, E> {
    /// The parser whose output is checked
    pub parser: F,
    /// The check
    pub filter: G,
    /// Marks the types the combinator works with
    pub phantom: PhantomData<(I, O, E)>,
}

impl<F, G, I, O, E> Verify<F, G, I, O, E> {
    /// Builds the combinator
    pub fn new(parser: F, filter: G) -> (r: Self)
        ensures
            r.parser == parser,
            r.filter == filter,
    {
        Verify { parser, filter, phantom: PhantomData }
    }
}

impl<F, G, I, O, E> Parser<I, O, E> for Verify<F, G, I, O, E> where
    I: Input,
    F: Parser<I, O, E>,
    G: Fn(&O) -> bool,
    E: ParseError<I>,
 {
    open spec fn parse_req(&self, input: I) -> bool {
        self.parser.parse_req(input) && forall|o: &O| call_requires(self.filter, (o,))
    }

    open spec fn parse_rel(&self, input: I, r: IResult<I, O, E>) -> bool {
        match r {
            Ok((rest, o)) => self.parser.parse_rel(input, Ok((rest, o))) && call_ensures(
                self.filter,
                (&o,),
                true,
            ),
            Err(ErrMode::Backtrack(e)) => self.parser.parse_rel(input, Err(ErrMode::Backtrack(e)))
                || (E::from_error_kind_rel(input, ErrorKind::Verify, e) && exists|rest: I, o: O|
                #![trigger self.parser.parse_rel(input, Ok((rest, o)))]
                self.parser.parse_rel(input, Ok((rest, o))) && call_ensures(
                    self.filter,
                    (&o,),
                    false,
                )),
            Err(e) => self.parser.parse_rel(input, Err(e)),
        }
    }

    fn parse_next(&mut self, input: I) -> (r: IResult<I, O, E>) {
        let (rest, o) = self.parser.parse_next(input)?;
        if (self.filter)(&o) {
            Ok((rest, o))
        } else {
            assert(self.parser.parse_rel(input, Ok((rest, o))));
            Err(ErrMode::Backtrack(E::from_error_kind(input, ErrorKind::Verify)))
        }
    }
}

/// Implementation of [`Parser::value`]
pub struct Value<F, I, O, O2, E> {
    /// The parser whose output is replaced
    pub parser: F,
    /// The value returned on success
    pub val: O2,
    /// Marks the types the combinator works with
    pub phantom: PhantomData<(I, O, E)>,
}

impl<F, I, O, O2, E> Value<F, I, O, O2, E> {
    /// Builds the combinator
    pub fn new(parser: F, val: O2) -> (r: Self)
        ensures
            r.parser == parser,
            r.val == val,
    {
        Value { parser, val, phantom: PhantomData }
    }
}

impl<F, I, O, O2, E> Parser<I, O2, E> for Value<F, I, O, O2, E> where
    I: Input,
    F: Parser<I, O, E>,
    O2: Copy,
 {
    open spec fn parse_req(&self, input: I) -> bool {
        self.parser.parse_req(input)
    }

    open spec fn parse_rel(&self, input: I, r: IResult<I, O2, E>) -> bool {
        match r {
            Ok((rest, v)) => v == self.val && exists|rest0: I, o: O|
                #![trigger self.parser.parse_rel(input, Ok((rest0, o)))]
                self.parser.parse_rel(input, Ok((rest0, o))) && rest0 == rest,
            Err(e) => self.parser.parse_rel(input, Err(e)),
        }
    }

    fn parse_next(&mut self, input: I) -> (r: IResult<I, O2, E>) {
        match self.parser.parse_next(input) {
            Ok((rest, o)) => {
                assert(self.parser.parse_rel(input, Ok((rest, o))));
                Ok((rest, self.val))
            },
            Err(e) => Err(e),
        }
    }
}

/// Implementation of [`Parser::void`]
pub struct Void<F, I, O, E> {
    /// The parser whose output is dropped
    pub parser: F,
    /// Marks the types the combinator works with
    pub phantom: PhantomData<(I, O, E)>,
}

impl<F, I, O, E> Void<F, I, O, E> {
    /// Builds the combinator
    pub fn new(parser: F) -> (r: Self)
        ensures
            r.parser == parser,
    {
        Void { parser, phantom: PhantomData }
    }
}

impl<I, O, E, F> Parser<I, (), E> for Void<F, I, O, E> where I: Input, F: Parser<I, O, E> {
    open spec fn parse_req(&self, input: I) -> bool {
        self.parser.parse_req(input)
    }

    open spec fn parse_rel(&self, input: I, r: IResult<I, (), E>) -> bool {
        match r {
            Ok((rest, _)) => exists|rest0: I, o: O|
                #![trigger self.parser.parse_rel(input, Ok((rest0, o)))]
                self.parser.parse_rel(input, Ok((rest0, o))) && rest0 == rest,
            Err(e) => self.parser.parse_rel(input, Err(e)),
        }
    }

    fn parse_next(&mut self, input: I) -> (r: IResult<I, (), E>) {
        match self.parser.parse_next(input) {
            Ok((rest, o)) => {
                assert(self.parser.parse_rel(input, Ok((rest, o))));
                assert(Parser::<I, (), E>::parse_rel(&*self, input, Ok((rest, ()))) == (exists|o2: O| #[trigger] self.parser.parse_rel(input, Ok((rest, o2)))));
                Ok((rest, ()))
            },
            Err(e) => Err(e),
        }
    }
}

/// `rest2` and `slice` are what remains of `input` and what was consumed, once a parser
/// left `rest`.
pub open spec fn recognized<I: Input>(input: I, rest: I, rest2: I, slice: I::Slice) -> bool {
    let n = consumed_len(input, rest);
    input.advances(rest2, n) && I::slice_tokens(slice) == input.tokens().take(n)
}

/// Implementation of [`Parser::recognize`]
pub struct Recognize<F, I, O, E> {
    /// The parser whose consumed input is returned
    pub parser: F,
    /// Marks the types the combinator works with
    pub phantom: PhantomData<(I, O, E)>,
}

impl<F, I, O, E> Recognize<F, I, O, E> {
    /// Builds the combinator
    pub fn new(parser: F) -> (r: Self)
        ensures
            r.parser == parser,
    {
        Recognize { parser, phantom: PhantomData }
    }
}

impl<I, O, E, F> Parser<I, I::Slice, E> for Recognize<F, I, O, E> where
    I: Input,
    F: Parser<I, O, E>,
 {
    open spec fn parse_req(&self, input: I) -> bool {
        self.parser.parse_req(input)
    }

    open spec fn parse_rel(&self, input: I, r: IResult<I, I::Slice, E>) -> bool {
        match r {
            Ok((rest2, slice)) => exists|rest: I, o: O|
                #![trigger self.parser.parse_rel(input, Ok((rest, o)))]
                self.parser.parse_rel(input, Ok((rest, o))) && recognized(input, rest, rest2, slice),
            Err(e) => self.parser.parse_rel(input, Err(e)),
        }
    }

    fn parse_next(&mut self, input: I) -> (r: IResult<I, I::Slice, E>) {
        match self.parser.parse_next(input) {
            Ok((rest, o)) => {
                let n = offset_between(&input, &rest);
                let (rest2, slice) = input.next_tokens(n);
                assert(self.parser.parse_rel(input, Ok((rest, o))));
                Ok((rest2, slice))
            },
            Err(e) => Err(e),
        }
    }
}

/// Implementation of [`Parser::with_recognized`]
pub struct WithRecognized<F, I, O, E> {
    /// The parser whose consumed input is returned with its output
    pub parser: F,
    /// Marks the types the combinator works with
    pub phantom: PhantomData<(I, O, E)>,
}

impl<F, I, O, E> WithRecognized<F, I, O, E> {
    /// Builds the combinator
    pub fn new(parser: F) -> (r: Self)
        ensures
            r.parser == parser,
    {
        WithRecognized { parser, phantom: PhantomData }
    }
}

impl<F, I, O, E> Parser<I, (O, I::Slice), E> for WithRecognized<F, I, O, E> where
    I: Input,
    F: Parser<I, O, E>,
 {
    open spec fn parse_req(&self, input: I) -> bool {
        self.parser.parse_req(input)
    }

    open spec fn parse_rel(&self, input: I, r: IResult<I, (O, I::Slice), E>) -> bool {
        match r {
            Ok((rest2, (o, slice))) => exists|rest: I, o0: O|
                #![trigger self.parser.parse_rel(input, Ok((rest, o0)))]
                self.parser.parse_rel(input, Ok((rest, o0))) && o0 == o && recognized(
                    input,
                    rest,
                    rest2,
                    slice,
                ),
            Err(e) => self.parser.parse_rel(input, Err(e)),
        }
    }

    fn parse_next(&mut self, input: I) -> (r: IResult<I, (O, I::Slice), E>) {
        match self.parser.parse_next(input) {
            Ok((rest, o)) => {
                let n = offset_between(&input, &rest);
                let (rest2, slice) = input.next_tokens(n);
                assert(self.parser.parse_rel(input, Ok((rest, o))));
                Ok((rest2, (o, slice)))
            },
            Err(e) => Err(e),
        }
    }
}

/// Implementation of [`Parser::span`]
pub struct Span<F, I, O, E> {
    /// The parser whose location range is returned
    pub parser: F,
    /// Marks the types the combinator works with
    pub phantom: PhantomData<(I, O, E)>,
}

impl<F, I, O, E> Span<F, I, O, E> {
    /// Builds the combinator
    pub fn new(parser: F) -> (r: Self)
        ensures
            r.parser == parser,
    {
        Span { parser, phantom: PhantomData }
    }
}

/// The location of a located stream, as `Located::location` computes it.
pub open spec fn location_of<I: Input>(l: Located<I>) -> int {
    if l.input.offset_len() <= l.initial.offset_len() {
        l.spec_location()
    } else {
        0
    }
}

impl<I, O, E, F> Parser<Located<I>, core::ops::Range<usize>, E> for Span<F, Located<I>, O, E> where
    I: Input,
    F: Parser<Located<I>, O, E>,
 {
    open spec fn parse_req(&self, input: Located<I>) -> bool {
        self.parser.parse_req(input)
    }

    open spec fn parse_rel(&self, input: Located<I>, r: IResult<Located<I>, core::ops::Range<usize>, E>) -> bool {
        match r {
            Ok((rest, range)) => range.start == location_of(input) && range.end == location_of(rest)
                && exists|rest0: Located<I>, o: O|
                #![trigger self.parser.parse_rel(input, Ok((rest0, o)))]
                self.parser.parse_rel(input, Ok((rest0, o))) && rest0 == rest,
            Err(e) => self.parser.parse_rel(input, Err(e)),
        }
    }

    fn parse_next(&mut self, input: Located<I>) -> (r: IResult<Located<I>, core::ops::Range<usize>, E>) {
        let start = input.location();
        match self.parser.parse_next(input) {
            Ok((rest, o)) => {
                let end = rest.location();
                assert(self.parser.parse_rel(input, Ok((rest, o))));
                Ok((rest, core::ops::Range { start, end }))
            },
            Err(e) => Err(e),
        }
    }
}

/// Implementation of [`Parser::with_span`]
pub struct WithSpan<F, I, O, E> {
    /// The parser whose location range is returned with its output
    pub parser: F,
    /// Marks the types the combinator works with
    pub phantom: PhantomData<(I, O, E)>,
}

impl<F, I, O, E> WithSpan<F, I, O, E> {
    /// Builds the combinator
    pub fn new(parser: F) -> (r: Self)
        ensures
            r.parser == parser,
    {
        WithSpan { parser, phantom: PhantomData }
    }
}

impl<I, O, E, F> Parser<Located<I>, (O, core::ops::Range<usize>), E> for WithSpan<F, Located<I>, O, E> where
    I: Input,
    F: Parser<Located<I>, O, E>,
 {
    open spec fn parse_req(&self, input: Located<I>) -> bool {
        self.parser.parse_req(input)
    }

    open spec fn parse_rel(&self, input: Located<I>, r: IResult<Located<I>, (O, core::ops::Range<usize>), E>) -> bool {
        match r {
            Ok((rest, (o, range))) => range.start == location_of(input) && range.end == location_of(rest)
                && self.parser.parse_rel(input, Ok((rest, o))),
            Err(e) => self.parser.parse_rel(input, Err(e)),
        }
    }

    fn parse_next(&mut self, input: Located<I>) -> (r: IResult<Located<I>, (O, core::ops::Range<usize>), E>) {
        let start = input.location();
        match self.parser.parse_next(input) {
            Ok((rest, o)) => {
                let end = rest.location();
                Ok((rest, (o, core::ops::Range { start, end })))
            },
            Err(e) => Err(e),
        }
    }
}

/// Implementation of [`Parser::output_into`]
pub struct OutputInto<F, I, O, O2, E> {
    /// The parser whose output is converted
    pub parser: F,
    /// Marks the types the combinator works with
    pub phantom: PhantomData<(I, O, O2, E)>,
}

impl<F, I, O, O2, E> OutputInto<F, I, O, O2, E> {
    /// Builds the combinator
    pub fn new(parser: F) -> (r: Self)
        ensures
            r.parser == parser,
    {
        OutputInto { parser, phantom: PhantomData }
    }
}

impl<F, I, O, O2, E> Parser<I, O2, E> for OutputInto<F, I, O, O2, E> where
    I: Input,
    F: Parser<I, O, E>,
    O2: From<O>,
 {
    open spec fn parse_req(&self, input: I) -> bool {
        self.parser.parse_req(input)
    }

    open spec fn parse_rel(&self, input: I, r: IResult<I, O2, E>) -> bool {
        match r {
            Ok((rest, o2)) => exists|rest0: I, o: O|
                #![trigger self.parser.parse_rel(input, Ok((rest0, o)))]
                self.parser.parse_rel(input, Ok((rest0, o))) && rest0 == rest && call_ensures(
                    O2::from,
                    (o,),
                    o2,
                ),
            Err(e) => self.parser.parse_rel(input, Err(e)),
        }
    }

    fn parse_next(&mut self, input: I) -> (r: IResult<I, O2, E>) {
        match self.parser.parse_next(input) {
            Ok((rest, o)) => {
                let ghost go = o;
                let o2: O2 = o.into();
                Ok((rest, o2))
            },
            Err(e) => Err(e),
        }
    }
}

/// Implementation of [`into`](crate::basic::into): converts both the output and the error
pub struct Into<F, I, O, O2, E, E2> {
    /// The parser whose output and error are converted
    pub parser: F,
    /// Marks the types the combinator works with
    pub phantom: PhantomData<(I, O, O2, E, E2)>,
}

impl<F, I, O, O2, E, E2> Into<F, I, O, O2, E, E2> {
    /// Builds the combinator
    pub fn new(parser: F) -> (r: Self)
        ensures
            r.parser == parser,
    {
        Into { parser, phantom: PhantomData }
    }
}

impl<F, I, O, O2, E, E2> Parser<I, O2, E2> for Into<F, I, O, O2, E, E2> where
    I: Input,
    F: Parser<I, O, E>,
    O2: From<O>,
    E2: From<E>,
 {
    open spec fn parse_req(&self, input: I) -> bool {
        self.parser.parse_req(input)
    }

    open spec fn parse_rel(&self, input: I, r: IResult<I, O2, E2>) -> bool {
        match r {
            Ok((rest, o2)) => exists|rest0: I, o: O|
                #![trigger self.parser.parse_rel(input, Ok((rest0, o)))]
                self.parser.parse_rel(input, Ok((rest0, o))) && rest0 == rest && call_ensures(
                    O2::from,
                    (o,),
                    o2,
                ),
            Err(ErrMode::Incomplete(n)) => self.parser.parse_rel(input, Err(ErrMode::Incomplete(n))),
            Err(ErrMode::Backtrack(e2)) => exists|e: E|
                #![trigger self.parser.parse_rel(input, Err(ErrMode::Backtrack(e)))]
                self.parser.parse_rel(input, Err(ErrMode::Backtrack(e))) && call_ensures(
                    E2::from,
                    (e,),
                    e2,
                ),
            Err(ErrMode::Cut(e2)) => exists|e: E|
                #![trigger self.parser.parse_rel(input, Err(ErrMode::Cut(e)))]
                self.parser.parse_rel(input, Err(ErrMode::Cut(e))) && call_ensures(
                    E2::from,
                    (e,),
                    e2,
                ),
        }
    }

    fn parse_next(&mut self, input: I) -> (r: IResult<I, O2, E2>) {
        match self.parser.parse_next(input) {
            Ok((rest, o)) => {
                let o2: O2 = o.into();
                Ok((rest, o2))
            },
            Err(ErrMode::Incomplete(n)) => Err(ErrMode::Incomplete(n)),
            Err(ErrMode::Backtrack(e)) => {
                assert(self.parser.parse_rel(input, Err(ErrMode::Backtrack(e))));
                Err(ErrMode::Backtrack(e.into()))
            },
            Err(ErrMode::Cut(e)) => {
                assert(self.parser.parse_rel(input, Err(ErrMode::Cut(e))));
                Err(ErrMode::Cut(e.into()))
            },
        }
    }
}

/// Implementation of [`Parser::context`]
pub struct Context<F, I, O, E, C> {
    /// The parser whose errors get the context
    pub parser: F,
    /// The context added to errors
    pub context: C,
    /// Marks the types the combinator works with
    pub phantom: PhantomData<(I, O, E)>,
}

impl<F, I, O, E, C> Context<F, I, O, E, C> {
    /// Builds the combinator
    pub fn new(parser: F, context: C) -> (r: Self)
        ensures
            r.parser == parser,
            r.context == context,
    {
        Context { parser, context, phantom: PhantomData }
    }
}

impl<F, I, O, E, C> Parser<I, O, E> for Context<F, I, O, E, C> where
    I: Input,
    F: Parser<I, O, E>,
    E: ContextError<I, C>,
    C: Copy,
 {
    open spec fn parse_req(&self, input: I) -> bool {
        self.parser.parse_req(input)
    }

    open spec fn parse_rel(&self, input: I, r: IResult<I, O, E>) -> bool {
        match r {
            Ok(_) => self.parser.parse_rel(input, r),
            Err(ErrMode::Incomplete(n)) => self.parser.parse_rel(input, r),
            Err(ErrMode::Backtrack(e2)) => exists|e: E|
                #![trigger self.parser.parse_rel(input, Err(ErrMode::Backtrack(e)))]
                self.parser.parse_rel(input, Err(ErrMode::Backtrack(e))) && e.add_context_rel(
                    input,
                    self.context,
                    e2,
                ),
            Err(ErrMode::Cut(e2)) => exists|e: E|
                #![trigger self.parser.parse_rel(input, Err(ErrMode::Cut(e)))]
                self.parser.parse_rel(input, Err(ErrMode::Cut(e))) && e.add_context_rel(
                    input,
                    self.context,
                    e2,
                ),
        }
    }

    fn parse_next(&mut self, input: I) -> (r: IResult<I, O, E>) {
        match self.parser.parse_next(input) {
            Ok(o) => Ok(o),
            Err(ErrMode::Incomplete(n)) => Err(ErrMode::Incomplete(n)),
            Err(ErrMode::Backtrack(e)) => {
                let ghost ge = e;
                let e2 = e.add_context(input, self.context);
                assert(self.parser.parse_rel(input, Err(ErrMode::Backtrack(ge))));
                Err(ErrMode::Backtrack(e2))
            },
            Err(ErrMode::Cut(e)) => {
                let ghost ge = e;
                let e2 = e.add_context(input, self.context);
                assert(self.parser.parse_rel(input, Err(ErrMode::Cut(ge))));
                Err(ErrMode::Cut(e2))
            },
        }
    }
}


/// Implementation of [`Parser::err_into`]
pub struct ErrInto<F, I, O, E, E2> {
    /// The parser whose error is converted
    pub parser: F,
    /// Marks the types the combinator works with
    pub phantom: PhantomData<(I, O, E, E2)>,
}

impl<F, I, O, E, E2> ErrInto<F, I, O, E, E2> {
    /// Builds the combinator
    pub fn new(parser: F) -> (r: Self)
        ensures
            r.parser == parser,
    {
        ErrInto { parser, phantom: PhantomData }
    }
}

impl<F, I, O, E, E2> Parser<I, O, E2> for ErrInto<F, I, O, E, E2> where
    I: Input,
    F: Parser<I, O, E>,
    E2: From<E>,
 {
    open spec fn parse_req(&self, input: I) -> bool {
        self.parser.parse_req(input)
    }

    open spec fn parse_rel(&self, input: I, r: IResult<I, O, E2>) -> bool {
        match r {
            Ok(v) => self.parser.parse_rel(input, Ok(v)),
            Err(ErrMode::Incomplete(n)) => self.parser.parse_rel(input, Err(ErrMode::Incomplete(n))),
            Err(ErrMode::Backtrack(e2)) => exists|e: E|
                #![trigger self.parser.parse_rel(input, Err(ErrMode::Backtrack(e)))]
                self.parser.parse_rel(input, Err(ErrMode::Backtrack(e))) && call_ensures(
                    E2::from,
                    (e,),
                    e2,
                ),
            Err(ErrMode::Cut(e2)) => exists|e: E|
                #![trigger self.parser.parse_rel(input, Err(ErrMode::Cut(e)))]
                self.parser.parse_rel(input, Err(ErrMode::Cut(e))) && call_ensures(
                    E2::from,
                    (e,),
                    e2,
                ),
        }
    }

    fn parse_next(&mut self, input: I) -> (r: IResult<I, O, E2>) {
        match self.parser.parse_next(input) {
            Ok(v) => Ok(v),
            Err(ErrMode::Incomplete(n)) => Err(ErrMode::Incomplete(n)),
            Err(ErrMode::Backtrack(e)) => {
                assert(self.parser.parse_rel(input, Err(ErrMode::Backtrack(e))));
                Err(ErrMode::Backtrack(e.into()))
            },
            Err(ErrMode::Cut(e)) => {
                assert(self.parser.parse_rel(input, Err(ErrMode::Cut(e))));
                Err(ErrMode::Cut(e.into()))
            },
        }
    }
}

/// Implementation of [`Parser::parse_to`]
pub struct ParseTo<P, I, O, O2, E> {
    /// The parser whose output is parsed again
    pub parser: P,
    /// Marks the types the combinator works with
    pub phantom: PhantomData<(I, O, O2, E)>,
}

impl<P, I, O, O2, E> ParseTo<P, I, O, O2, E> {
    /// Builds the combinator
    pub fn new(parser: P) -> (r: Self)
        ensures
            r.parser == parser,
    {
        ParseTo { parser, phantom: PhantomData }
    }
}

impl<P, I, O, O2, E> Parser<I, O2, E> for ParseTo<P, I, O, O2, E> where
    I: Input,
    P: Parser<I, O, E>,
    O: ParseSlice<O2>,
    E: ParseError<I>,
 {
    open spec fn parse_req(&self, input: I) -> bool {
        self.parser.parse_req(input)
    }

    open spec fn parse_rel(&self, input: I, r: IResult<I, O2, E>) -> bool {
        match r {
            Ok((rest, v)) => exists|rest0: I, o: O|
                #![trigger self.parser.parse_rel(input, Ok((rest0, o)))]
                self.parser.parse_rel(input, Ok((rest0, o))) && rest0 == rest && o.parsed() == Some(
                    v,
                ),
            Err(ErrMode::Backtrack(e)) => self.parser.parse_rel(input, Err(ErrMode::Backtrack(e))) || (E::from_error_kind_rel(
                input,
                ErrorKind::Verify,
                e,
            ) && exists|rest0: I, o: O|
                #![trigger self.parser.parse_rel(input, Ok((rest0, o)))]
                self.parser.parse_rel(input, Ok((rest0, o))) && o.parsed() is None),
            Err(e) => self.parser.parse_rel(input, Err(e)),
        }
    }

    fn parse_next(&mut self, input: I) -> (r: IResult<I, O2, E>) {
        let (rest, o) = match self.parser.parse_next(input) {
            Ok(x) => x,
            Err(e) => {
                return Err(e);
            },
        };
        assert(self.parser.parse_rel(input, Ok((rest, o))));
        match o.parse_slice() {
            Some(v) => Ok((rest, v)),
            None => Err(ErrMode::Backtrack(E::from_error_kind(input, ErrorKind::Verify))),
        }
    }
}

/// Implementation of [`Parser::and`]
pub struct And<F, G, I, O1, O2, E> {
    /// The first parser
    pub f: F,
    /// The second parser
    pub g: G,
    /// Marks the types the combinator works with
    pub phantom: PhantomData<(I, O1, O2, E)>,
}

impl<F, G, I, O1, O2, E> And<F, G, I, O1, O2, E> {
    /// Builds the combinator
    pub fn new(f: F, g: G) -> (r: Self)
        ensures
            r.f == f,
            r.g == g,
    {
        And { f, g, phantom: PhantomData }
    }
}

impl<F, G, I, O1, O2, E> Parser<I, (O1, O2), E> for And<F, G, I, O1, O2, E> where
    I: Input,
    F: Parser<I, O1, E>,
    G: Parser<I, O2, E>,
 {
    open spec fn parse_req(&self, input: I) -> bool {
        self.f.parse_req(input) && forall|i: I| #[trigger] self.g.parse_req(i)
    }

    open spec fn parse_rel(&self, input: I, r: IResult<I, (O1, O2), E>) -> bool {
        match r {
            Ok((rest, (o1, o2))) => exists|r1: I, a: O1, r2: I, b: O2|
                #![trigger self.f.parse_rel(input, Ok((r1, a))), self.g.parse_rel(r1, Ok((r2, b)))]
                then_ok(self.f, self.g, input, r1, a, r2, b) && r2 == rest && a == o1 && b == o2,
            Err(e) => then_err(self.f, self.g, input, e),
        }
    }

    fn parse_next(&mut self, input: I) -> (r: IResult<I, (O1, O2), E>) {
        let (r1, a) = match self.f.parse_next(input) {
            Ok(x) => x,
            Err(e) => {
                return Err(e);
            },
        };
        assert(self.f.parse_rel(input, Ok((r1, a))));
        let (r2, b) = match self.g.parse_next(r1) {
            Ok(x) => x,
            Err(e) => {
                return Err(e);
            },
        };
        assert(self.g.parse_rel(r1, Ok((r2, b))));
        Ok((r2, (a, b)))
    }
}

/// Implementation of [`Parser::or`]
pub struct Or<F, G> {
    /// The first alternative
    pub f: F,
    /// The second alternative
    pub g: G,
}

impl<F, G> Or<F, G> {
    /// Builds the combinator
    pub fn new(f: F, g: G) -> (r: Self)
        ensures
            r.f == f,
            r.g == g,
    {
        Or { f, g }
    }
}

impl<F, G, I, O, E> Parser<I, O, E> for Or<F, G> where
    I: Input,
    F: Parser<I, O, E>,
    G: Parser<I, O, E>,
    E: ParseError<I>,
 {
    open spec fn parse_req(&self, input: I) -> bool {
        self.f.parse_req(input) && self.g.parse_req(input)
    }

    open spec fn parse_rel(&self, input: I, r: IResult<I, O, E>) -> bool {
        match r {
            Err(ErrMode::Backtrack(e)) => exists|e1: E, e2: E, c: E|
                #![trigger self.f.parse_rel(input, Err(ErrMode::Backtrack(e1))), self.g.parse_rel(input, Err(ErrMode::Backtrack(e2))), e1.or_rel(e2, c)]
                self.f.parse_rel(input, Err(ErrMode::Backtrack(e1))) && self.g.parse_rel(
                    input,
                    Err(ErrMode::Backtrack(e2)),
                ) && e1.or_rel(e2, c) && c == e,
            _ => self.f.parse_rel(input, r) || exists|e1: E|
                #![trigger self.f.parse_rel(input, Err(ErrMode::Backtrack(e1)))]
                self.f.parse_rel(input, Err(ErrMode::Backtrack(e1))) && self.g.parse_rel(input, r),
        }
    }

    fn parse_next(&mut self, input: I) -> (r: IResult<I, O, E>) {
        match self.f.parse_next(input) {
            Err(ErrMode::Backtrack(e1)) => {
                let ghost g1 = e1;
                assert(self.f.parse_rel(input, Err(ErrMode::Backtrack(g1))));
                match self.g.parse_next(input) {
                    Err(ErrMode::Backtrack(e2)) => {
                        let ghost g2 = e2;
                        assert(self.g.parse_rel(input, Err(ErrMode::Backtrack(g2))));
                        Err(ErrMode::Backtrack(e1.or(e2)))
                    },
                    res => res,
                }
            },
            res => res,
        }
    }
}

} // verus!
