//! The [`Parser`] trait and the parser result type.
use vstd::prelude::*;
use crate::combinator::{
    And, AndThen, Complete, CompleteErr, Context, ErrInto, FlatMap, MapOpt, MapRes, Mapped, Or, OutputInto, ParseTo,
    Recognize, Span, TryMap, Value, Verify, VerifyMap, Void, WithRecognized, WithSpan,
};
use crate::error::{needed, ContextError, ErrMode, Error, ErrorKind, FromExternalError, ParseError};
use crate::input::Input;

verus! {

/// Holds the result of parsing functions
///
/// The `Ok` side is a pair containing the remainder of the input (the part of the data that
/// was not parsed) and the produced value. The `Err` side contains an instance of [`ErrMode`].
pub type IResult<I, O, E = Error<I>> = Result<(I, O), ErrMode<E>>;

/// `r` is a recoverable error of the given kind, raised at `input`.
pub open spec fn backtrack_at<I, O, E: ParseError<I>>(
    r: IResult<I, O, E>,
    input: I,
    kind: ErrorKind,
) -> bool {
    r matches Err(ErrMode::Backtrack(e)) && E::from_error_kind_rel(input, kind, e)
}

/// `r` asks for `n` more tokens.
pub open spec fn incomplete_by<I, O, E>(r: IResult<I, O, E>, n: int) -> bool {
    r matches Err(ErrMode::Incomplete(m)) && m == needed(n)
}

/// All parsers implement this trait
///
/// `parse_rel(input, r)` states which results `r` the parser may return on `input`; for
/// the parsers of this library that do not call user code, exactly one result (up to the
/// identity of the returned slices) satisfies it. `parse_req(input)` states what the
/// parser needs of its input, user closures' preconditions included.
pub trait Parser<I: Input, O, E>: Sized {
    /// What the parser needs to be called on `input`
    spec fn parse_req(&self, input: I) -> bool;

    /// The results that the parser may return on `input`
    spec fn parse_rel(&self, input: I, r: IResult<I, O, E>) -> bool;

    /// A parser takes in input type, and returns a `Result` containing
    /// either the remaining input and the output value, or an error
    fn parse_next(&mut self, input: I) -> (r: IResult<I, O, E>)
        requires
            old(self).parse_req(input),
        ensures
            old(self).parse_rel(input, r),
            *final(self) == *old(self),
    ;

    /// A parser takes in input type, and returns a `Result` containing
    /// either the remaining input and the output value, or an error
    ///
    /// The earlier name of [`Parser::parse_next`].
    fn parse(&mut self, input: I) -> (r: IResult<I, O, E>)
        requires
            old(self).parse_req(input),
        ensures
            old(self).parse_rel(input, r),
            *final(self) == *old(self),
    {
        self.parse_next(input)
    }

    /// Produce the provided value
    fn value<O2: Copy>(self, val: O2) -> (r: Value<Self, I, O, O2, E>)
        ensures
            r.parser == self,
            r.val == val,
    {
        Value::new(self, val)
    }

    /// Discards the output of the `Parser`
    fn void(self) -> (r: Void<Self, I, O, E>)
        ensures
            r.parser == self,
    {
        Void::new(self)
    }

    /// Convert the parser's output to another type using [`std::convert::From`]
    fn output_into<O2: From<O>>(self) -> (r: OutputInto<Self, I, O, O2, E>)
        ensures
            r.parser == self,
    {
        OutputInto::new(self)
    }

    /// Produce the consumed input as produced value.
    fn recognize(self) -> (r: Recognize<Self, I, O, E>)
        ensures
            r.parser == self,
    {
        Recognize::new(self)
    }

    /// Produce the consumed input with the output
    fn with_recognized(self) -> (r: WithRecognized<Self, I, O, E>)
        ensures
            r.parser == self,
    {
        WithRecognized::new(self)
    }

    /// Produce the location of the consumed input as produced value.
    fn span(self) -> (r: Span<Self, I, O, E>)
        ensures
            r.parser == self,
    {
        Span::new(self)
    }

    /// Produce the location of consumed input with the output
    fn with_span(self) -> (r: WithSpan<Self, I, O, E>)
        ensures
            r.parser == self,
    {
        WithSpan::new(self)
    }

    /// Maps a function over the output of a parser
    fn map<G: Fn(O) -> O2, O2>(self, map: G) -> (r: Mapped<Self, G, I, O, O2, E>)
        ensures
            r.parser == self,
            r.map == map,
    {
        Mapped::new(self, map)
    }

    /// Applies a function returning a `Result` over the output of a parser.
    fn try_map<G: Fn(O) -> Result<O2, E2>, O2, E2>(self, map: G) -> (r: TryMap<
        Self,
        G,
        I,
        O,
        O2,
        E,
        E2,
    >)
        ensures
            r.parser == self,
            r.map == map,
    {
        TryMap::new(self, map)
    }

    /// Applies a function returning a `Result` over the output of a parser; the earlier name
    /// of [`Parser::try_map`].
    fn map_res<G: Fn(O) -> Result<O2, E2>, O2, E2>(self, map: G) -> (r: MapRes<
        Self,
        G,
        I,
        O,
        O2,
        E,
        E2,
    >)
        ensures
            r.parser == self,
            r.map == map,
    {
        TryMap::new(self, map)
    }

    /// Apply both [`Parser::verify`] and [`Parser::map`].
    fn verify_map<G: Fn(O) -> Option<O2>, O2>(self, map: G) -> (r: VerifyMap<Self, G, I, O, O2, E>)
        ensures
            r.parser == self,
            r.map == map,
    {
        VerifyMap::new(self, map)
    }

    /// Apply both [`Parser::verify`] and [`Parser::map`]; the earlier name of
    /// [`Parser::verify_map`].
    fn map_opt<G: Fn(O) -> Option<O2>, O2>(self, map: G) -> (r: MapOpt<Self, G, I, O, O2, E>)
        ensures
            r.parser == self,
            r.map == map,
    {
        VerifyMap::new(self, map)
    }

    /// Creates a parser from the output of this one
    fn flat_map<G: Fn(O) -> H, H, O2>(self, map: G) -> (r: FlatMap<
        Self,
        G,
        H,
        I,
        O,
        O2,
        E,
    >)
        ensures
            r.f == self,
            r.g == map,
    {
        FlatMap::new(self, map)
    }

    /// Applies a second parser over the output of the first one
    fn and_then<G, O2>(self, inner: G) -> (r: AndThen<Self, G, I, O, O2, E>)
        ensures
            r.outer == self,
            r.inner == inner,
    {
        AndThen::new(self, inner)
    }

    /// Apply [`std::str::FromStr`] to the output of the parser
    fn parse_to<O2>(self) -> (r: ParseTo<Self, I, O, O2, E>)
        ensures
            r.parser == self,
    {
        ParseTo::new(self)
    }

    /// Returns the output of the child parser if it satisfies a verification function.
    fn verify<G: Fn(&O) -> bool>(self, filter: G) -> (r: Verify<Self, G, I, O, E>)
        ensures
            r.parser == self,
            r.filter == filter,
    {
        Verify::new(self, filter)
    }

    /// If parsing fails, add context to the error
    fn context<C: Copy>(self, context: C) -> (r: Context<Self, I, O, E, C>)
        ensures
            r.parser == self,
            r.context == context,
    {
        Context::new(self, context)
    }

    /// Transforms [`Incomplete`][crate::error::ErrMode::Incomplete] into
    /// [`Backtrack`][crate::error::ErrMode::Backtrack]
    fn complete_err(self) -> (r: CompleteErr<Self>)
        ensures
            r.f == self,
    {
        CompleteErr::new(self)
    }

    /// Transforms [`Incomplete`][crate::error::ErrMode::Incomplete] into
    /// [`Backtrack`][crate::error::ErrMode::Backtrack]; the earlier name of
    /// [`Parser::complete_err`].
    fn complete(self) -> (r: Complete<Self>)
        ensures
            r.f == self,
    {
        CompleteErr::new(self)
    }

    /// Convert the parser's error to another type using [`std::convert::From`]
    fn err_into<E2: From<E>>(self) -> (r: ErrInto<Self, I, O, E, E2>)
        ensures
            r.parser == self,
    {
        ErrInto::new(self)
    }

    /// Applies a second parser after the first one, return their results as a tuple
    fn and<G, O2>(self, g: G) -> (r: And<Self, G, I, O, O2, E>)
        ensures
            r.f == self,
            r.g == g,
    {
        And::new(self, g)
    }

    /// Applies a second parser over the input if the first one failed
    fn or<G>(self, g: G) -> (r: Or<Self, G>)
        ensures
            r.f == self,
            r.g == g,
    {
        Or::new(self, g)
    }
}

impl<I: Input, O, E, F: Fn(I) -> IResult<I, O, E>> Parser<I, O, E> for F {
    open spec fn parse_req(&self, input: I) -> bool {
        call_requires(*self, (input,))
    }

    open spec fn parse_rel(&self, input: I, r: IResult<I, O, E>) -> bool {
        call_ensures(*self, (input,), r)
    }

    fn parse_next(&mut self, input: I) -> (r: IResult<I, O, E>) {
        (self)(input)
    }
}

impl<I: Input, E> Parser<I, (), E> for () {
    open spec fn parse_req(&self, input: I) -> bool {
        true
    }

    open spec fn parse_rel(&self, input: I, r: IResult<I, (), E>) -> bool {
        r == Ok::<(I, ()), ErrMode<E>>((input, ()))
    }

    fn parse_next(&mut self, input: I) -> (r: IResult<I, (), E>) {
        Ok((input, ()))
    }
}


/// Extension trait to convert a parser's [`IResult`] to a more manageable type
pub trait FinishIResult<I, O, E>: Sized {
    /// Whether the result can be finished: it is not `Incomplete`
    spec fn finishable(&self) -> bool;

    /// The outcome of [`FinishIResult::finish`]
    spec fn finish_rel(&self, r: Result<O, E>) -> bool;

    /// The outcome of [`FinishIResult::finish_err`]
    spec fn finish_err_rel(&self, r: Result<(I, O), E>) -> bool;

    /// Converts the parser's [`IResult`] to a type that is more consumable by callers.
    ///
    /// Errors if the parser is not at the end of input.
    fn finish(self) -> (r: Result<O, E>)
        requires
            self.finishable(),
        ensures
            self.finish_rel(r),
    ;

    /// Converts the parser's [`IResult`] to a type that is more consumable by errors.
    ///
    /// It keeps the same `Ok` branch, and merges `ErrMode::Backtrack` and `ErrMode::Cut` into
    /// the `Err` side.
    fn finish_err(self) -> (r: Result<(I, O), E>)
        requires
            self.finishable(),
        ensures
            self.finish_err_rel(r),
    ;
}

impl<I: Input, O, E: ParseError<I>> FinishIResult<I, O, E> for IResult<I, O, E> {
    open spec fn finishable(&self) -> bool {
        !(*self matches Err(ErrMode::Incomplete(_)))
    }

    open spec fn finish_rel(&self, r: Result<O, E>) -> bool {
        match *self {
            Ok((rest, o)) => if rest.tokens().len() == 0 {
                r == Ok::<O, E>(o)
            } else {
                r matches Err(e) && E::from_error_kind_rel(rest, ErrorKind::Eof, e)
            },
            Err(ErrMode::Backtrack(e)) => r == Err::<O, E>(e),
            Err(ErrMode::Cut(e)) => r == Err::<O, E>(e),
            Err(ErrMode::Incomplete(_)) => false,
        }
    }

    open spec fn finish_err_rel(&self, r: Result<(I, O), E>) -> bool {
        match *self {
            Ok(v) => r == Ok::<(I, O), E>(v),
            Err(ErrMode::Backtrack(e)) => r == Err::<(I, O), E>(e),
            Err(ErrMode::Cut(e)) => r == Err::<(I, O), E>(e),
            Err(ErrMode::Incomplete(_)) => false,
        }
    }

    fn finish(self) -> (r: Result<O, E>) {
        match self {
            Ok((rest, o)) => {
                if rest.token_count() == 0 {
                    Ok(o)
                } else {
                    Err(E::from_error_kind(rest, ErrorKind::Eof))
                }
            },
            Err(ErrMode::Backtrack(e)) => Err(e),
            Err(ErrMode::Cut(e)) => Err(e),
            Err(ErrMode::Incomplete(_)) => vstd::pervasive::unreached(),
        }
    }

    fn finish_err(self) -> (r: Result<(I, O), E>) {
        match self {
            Ok(v) => Ok(v),
            Err(ErrMode::Backtrack(e)) => Err(e),
            Err(ErrMode::Cut(e)) => Err(e),
            Err(ErrMode::Incomplete(_)) => vstd::pervasive::unreached(),
        }
    }
}

/// Converts a parser's [`IResult`] to a `Result` over the remaining input and the output;
/// the earlier form of [`FinishIResult::finish_err`].
pub trait Finish<I, O, E>: Sized {
    /// Whether the result can be finished: it is not `Incomplete`
    spec fn can_finish(&self) -> bool;

    /// The outcome of [`Finish::finish`]
    spec fn finished(&self, r: Result<(I, O), E>) -> bool;

    /// Merges `ErrMode::Backtrack` and `ErrMode::Cut` into the `Err` side
    fn finish(self) -> (r: Result<(I, O), E>)
        requires
            self.can_finish(),
        ensures
            self.finished(r),
    ;
}

impl<I, O, E> Finish<I, O, E> for IResult<I, O, E> {
    open spec fn can_finish(&self) -> bool {
        !(*self matches Err(ErrMode::Incomplete(_)))
    }

    open spec fn finished(&self, r: Result<(I, O), E>) -> bool {
        match *self {
            Ok(v) => r == Ok::<(I, O), E>(v),
            Err(ErrMode::Backtrack(e)) => r == Err::<(I, O), E>(e),
            Err(ErrMode::Cut(e)) => r == Err::<(I, O), E>(e),
            Err(ErrMode::Incomplete(_)) => false,
        }
    }

    fn finish(self) -> (r: Result<(I, O), E>) {
        match self {
            Ok(v) => Ok(v),
            Err(ErrMode::Backtrack(e)) => Err(e),
            Err(ErrMode::Cut(e)) => Err(e),
            Err(ErrMode::Incomplete(_)) => vstd::pervasive::unreached(),
        }
    }
}

} // verus!
