//! General purpose combinators: optional and conditional parsing, look-ahead, control of the
//! error mode, and parsers that consume nothing or everything.
use core::marker::PhantomData;
use vstd::prelude::*;
use crate::combinator::{
    AndThen, CompleteErr, FlatMap, Mapped, Recognize, TryMap, Value, Verify, VerifyMap,
    WithRecognized,
};
use crate::error::{ErrMode, ErrorKind, FromExternalError, Needed, ParseError};
use crate::input::Input;
use crate::parser::{backtrack_at, IResult, Parser};

verus! {

/// Implementation of [`opt`]
pub struct Opt<F, I, O, E> {
    /// The parser that may fail
    pub parser: F,
    /// Marks the types the combinator works with
    pub phantom: PhantomData<(I, O, E)>,
}

impl<F, I, O, E> Parser<I, Option<O>, E> for Opt<F, I, O, E> where I: Input, F: Parser<I, O, E> {
    open spec fn parse_req(&self, input: I) -> bool {
        self.parser.parse_req(input)
    }

    open spec fn parse_rel(&self, input: I, r: IResult<I, Option<O>, E>) -> bool {
        match r {
            Ok((rest, Some(o))) => self.parser.parse_rel(input, Ok((rest, o))),
            Ok((rest, None)) => rest == input && exists|e: E| #[trigger]
                self.parser.parse_rel(input, Err(ErrMode::Backtrack(e))),
            Err(e) => self.parser.parse_rel(input, Err(e)) && !(e is Backtrack),
        }
    }

    fn parse_next(&mut self, input: I) -> (r: IResult<I, Option<O>, E>) {
        match self.parser.parse_next(input) {
            Ok((rest, o)) => Ok((rest, Some(o))),
            Err(ErrMode::Backtrack(e)) => {
                assert(self.parser.parse_rel(input, Err(ErrMode::Backtrack(e))));
                Ok((input, None))
            },
            Err(e) => Err(e),
        }
    }
}

/// Optional parser: will return `None` if not successful.
///
/// A recoverable error of `f` gives `Ok((input, None))`; any other error is passed on.
pub fn opt<I, O, E, F>(f: F) -> (r: Opt<F, I, O, E>) where I: Input, F: Parser<I, O, E>
    ensures
        r.parser == f,
{
    Opt { parser: f, phantom: PhantomData }
}

/// Implementation of [`cond`]
pub struct Cond<F, I, O, E> {
    /// Whether the parser runs
    pub b: bool,
    /// The parser run when `b` holds
    pub parser: F,
    /// Marks the types the combinator works with
    pub phantom: PhantomData<(I, O, E)>,
}

impl<F, I, O, E> Parser<I, Option<O>, E> for Cond<F, I, O, E> where I: Input, F: Parser<I, O, E> {
    open spec fn parse_req(&self, input: I) -> bool {
        self.b ==> self.parser.parse_req(input)
    }

    open spec fn parse_rel(&self, input: I, r: IResult<I, Option<O>, E>) -> bool {
        if self.b {
            match r {
                Ok((rest, Some(o))) => self.parser.parse_rel(input, Ok((rest, o))),
                Ok((_, None)) => false,
                Err(e) => self.parser.parse_rel(input, Err(e)),
            }
        } else {
            r == Ok::<(I, Option<O>), ErrMode<E>>((input, None))
        }
    }

    fn parse_next(&mut self, input: I) -> (r: IResult<I, Option<O>, E>) {
        if self.b {
            match self.parser.parse_next(input) {
                Ok((rest, o)) => Ok((rest, Some(o))),
                Err(e) => Err(e),
            }
        } else {
            Ok((input, None))
        }
    }
}

/// Calls the parser if the condition is met.
///
/// When `b` is false nothing is consumed and the output is `None`.
pub fn cond<I, O, E, F>(b: bool, f: F) -> (r: Cond<F, I, O, E>) where
    I: Input,
    F: Parser<I, O, E>,

    ensures
        r.b == b,
        r.parser == f,
{
    Cond { b, parser: f, phantom: PhantomData }
}

/// Implementation of [`peek`]
pub struct Peek<F, I, O, E> {
    /// The parser run without consuming
    pub parser: F,
    /// Marks the types the combinator works with
    pub phantom: PhantomData<(I, O, E)>,
}

impl<F, I, O, E> Parser<I, O, E> for Peek<F, I, O, E> where I: Input, F: Parser<I, O, E> {
    open spec fn parse_req(&self, input: I) -> bool {
        self.parser.parse_req(input)
    }

    open spec fn parse_rel(&self, input: I, r: IResult<I, O, E>) -> bool {
        match r {
            Ok((rest, o)) => rest == input && exists|rest0: I, o0: O|
                #![trigger self.parser.parse_rel(input, Ok((rest0, o0)))]
                self.parser.parse_rel(input, Ok((rest0, o0))) && o0 == o,
            Err(e) => self.parser.parse_rel(input, Err(e)),
        }
    }

    fn parse_next(&mut self, input: I) -> (r: IResult<I, O, E>) {
        match self.parser.parse_next(input) {
            Ok((rest, o)) => {
                assert(self.parser.parse_rel(input, Ok((rest, o))));
                Ok((input, o))
            },
            Err(e) => Err(e),
        }
    }
}

/// Tries to apply its parser without consuming the input.
pub fn peek<I, O, E, F>(f: F) -> (r: Peek<F, I, O, E>) where I: Input, F: Parser<I, O, E>
    ensures
        r.parser == f,
{
    Peek { parser: f, phantom: PhantomData }
}

/// Returns its input if it is at the end of input data
///
/// When we're at the end of the data, this combinator succeeds and returns an empty slice;
/// otherwise it fails with [`ErrorKind::Eof`].
pub fn eof<I: Input, E: ParseError<I>>(input: I) -> (r: IResult<I, I::Slice, E>)
    ensures
        input.tokens().len() == 0 ==> (r matches Ok((rest, s)) && input.advances(rest, 0)
            && I::slice_tokens(s) == Seq::<I::Token>::empty()),
        input.tokens().len() != 0 ==> backtrack_at(r, input, ErrorKind::Eof),
{
    if input.token_count() == 0 {
        let (rest, s) = input.next_tokens(0);
        assert(I::slice_tokens(s) =~= Seq::<I::Token>::empty());
        Ok((rest, s))
    } else {
        Err(ErrMode::Backtrack(E::from_error_kind(input, ErrorKind::Eof)))
    }
}

/// Implementation of [`not`]
pub struct Not<F, I, O, E> {
    /// The parser that must not succeed
    pub parser: F,
    /// Marks the types the combinator works with
    pub phantom: PhantomData<(I, O, E)>,
}

impl<F, I, O, E> Parser<I, (), E> for Not<F, I, O, E> where
    I: Input,
    F: Parser<I, O, E>,
    E: ParseError<I>,
 {
    open spec fn parse_req(&self, input: I) -> bool {
        self.parser.parse_req(input)
    }

    open spec fn parse_rel(&self, input: I, r: IResult<I, (), E>) -> bool {
        match r {
            Ok((rest, _)) => rest == input && exists|e: E| #[trigger]
                self.parser.parse_rel(input, Err(ErrMode::Backtrack(e))),
            Err(ErrMode::Backtrack(e)) => E::from_error_kind_rel(input, ErrorKind::Not, e)
                && exists|rest0: I, o: O| #[trigger]
                self.parser.parse_rel(input, Ok((rest0, o))),
            Err(e) => self.parser.parse_rel(input, Err(e)),
        }
    }

    fn parse_next(&mut self, input: I) -> (r: IResult<I, (), E>) {
        match self.parser.parse_next(input) {
            Ok((rest, o)) => {
                assert(self.parser.parse_rel(input, Ok((rest, o))));
                Err(ErrMode::Backtrack(E::from_error_kind(input, ErrorKind::Not)))
            },
            Err(ErrMode::Backtrack(e)) => {
                assert(self.parser.parse_rel(input, Err(ErrMode::Backtrack(e))));
                Ok((input, ()))
            },
            Err(e) => Err(e),
        }
    }
}

/// Succeeds if the child parser returns a recoverable error; never consumes input.
///
/// A success of the child parser is turned into an [`ErrorKind::Not`] error; `Incomplete`
/// and cut errors are passed on.
pub fn not<I, O, E, F>(f: F) -> (r: Not<F, I, O, E>) where
    I: Input,
    F: Parser<I, O, E>,
    E: ParseError<I>,

    ensures
        r.parser == f,
{
    Not { parser: f, phantom: PhantomData }
}

/// Implementation of [`cut_err`]
pub struct CutErr<F, I, O, E> {
    /// The parser whose recoverable errors become fatal
    pub parser: F,
    /// Marks the types the combinator works with
    pub phantom: PhantomData<(I, O, E)>,
}

impl<F, I, O, E> Parser<I, O, E> for CutErr<F, I, O, E> where I: Input, F: Parser<I, O, E> {
    open spec fn parse_req(&self, input: I) -> bool {
        self.parser.parse_req(input)
    }

    open spec fn parse_rel(&self, input: I, r: IResult<I, O, E>) -> bool {
        match r {
            Err(ErrMode::Cut(e)) => self.parser.parse_rel(input, Err(ErrMode::Backtrack(e)))
                || self.parser.parse_rel(input, Err(ErrMode::Cut(e))),
            Err(ErrMode::Backtrack(_)) => false,
            _ => self.parser.parse_rel(input, r),
        }
    }

    fn parse_next(&mut self, input: I) -> (r: IResult<I, O, E>) {
        match self.parser.parse_next(input) {
            Err(ErrMode::Backtrack(e)) => Err(ErrMode::Cut(e)),
            res => res,
        }
    }
}

/// Transforms an [`ErrMode::Backtrack`] (recoverable) to [`ErrMode::Cut`] (unrecoverable)
///
/// This commits the parse result, preventing alternative branch paths like with
/// [`alt`][crate::branch::alt].
pub fn cut_err<I, O, E, F>(f: F) -> (r: CutErr<F, I, O, E>) where I: Input, F: Parser<I, O, E>
    ensures
        r.parser == f,
{
    CutErr { parser: f, phantom: PhantomData }
}

/// Transforms an [`ErrMode::Backtrack`] (recoverable) to [`ErrMode::Cut`] (unrecoverable)
///
/// The earlier name of [`cut_err`].
pub fn cut<I, O, E, F>(f: F) -> (r: CutErr<F, I, O, E>) where I: Input, F: Parser<I, O, E>
    ensures
        r.parser == f,
{
    cut_err(f)
}

/// Implementation of [`backtrack_err`]
pub struct BacktrackErr<F, I, O, E> {
    /// The parser whose fatal errors become recoverable
    pub parser: F,
    /// Marks the types the combinator works with
    pub phantom: PhantomData<(I, O, E)>,
}

impl<F, I, O, E> Parser<I, O, E> for BacktrackErr<F, I, O, E> where
    I: Input,
    F: Parser<I, O, E>,
 {
    open spec fn parse_req(&self, input: I) -> bool {
        self.parser.parse_req(input)
    }

    open spec fn parse_rel(&self, input: I, r: IResult<I, O, E>) -> bool {
        match r {
            Err(ErrMode::Backtrack(e)) => self.parser.parse_rel(input, Err(ErrMode::Backtrack(e)))
                || self.parser.parse_rel(input, Err(ErrMode::Cut(e))),
            Err(ErrMode::Cut(_)) => false,
            _ => self.parser.parse_rel(input, r),
        }
    }

    fn parse_next(&mut self, input: I) -> (r: IResult<I, O, E>) {
        match self.parser.parse_next(input) {
            Err(ErrMode::Cut(e)) => Err(ErrMode::Backtrack(e)),
            res => res,
        }
    }
}

/// Transforms an [`ErrMode::Cut`] (unrecoverable) to [`ErrMode::Backtrack`] (recoverable)
///
/// This attempts the parse, allowing other parsers to be tried on failure.
pub fn backtrack_err<I, O, E, F>(f: F) -> (r: BacktrackErr<F, I, O, E>) where
    I: Input,
    F: Parser<I, O, E>,

    ensures
        r.parser == f,
{
    BacktrackErr { parser: f, phantom: PhantomData }
}

/// A parser which always succeeds without consuming input.
pub fn empty<I: Input, E>(input: I) -> (r: IResult<I, (), E>)
    ensures
        r == Ok::<(I, ()), ErrMode<E>>((input, ())),
{
    Ok((input, ()))
}

/// A parser which always fails with [`ErrorKind::Fail`], consuming nothing.
pub fn fail<I: Input, O, E: ParseError<I>>(input: I) -> (r: IResult<I, O, E>)
    ensures
        backtrack_at(r, input, ErrorKind::Fail),
{
    Err(ErrMode::Backtrack(E::from_error_kind(input, ErrorKind::Fail)))
}

/// Return the remaining input.
pub fn rest<I: Input, E>(input: I) -> (r: IResult<I, I::Slice, E>)
    ensures
        r matches Ok((rest, s)) && input.advances(rest, input.tokens().len() as int)
            && I::slice_tokens(s) == input.tokens(),
{
    let n = input.token_count();
    let (rest, s) = input.next_tokens(n);
    assert(input.tokens().take(n as int) =~= input.tokens());
    Ok((rest, s))
}

/// Return the length of the remaining input, consuming nothing: in bytes for text, in
/// tokens otherwise.
pub fn rest_len<I: Input, E>(input: I) -> (r: IResult<I, usize, E>)
    ensures
        r matches Ok((rest, n)) && rest == input && n == input.offset_len(),
{
    let n = input.input_len();
    Ok((input, n))
}

/// Implementation of [`success`]
pub struct Success<O, I, E> {
    /// The value returned
    pub val: O,
    /// Marks the types the combinator works with
    pub phantom: PhantomData<(I, E)>,
}

impl<O: Copy, I: Input, E> Parser<I, O, E> for Success<O, I, E> {
    open spec fn parse_req(&self, input: I) -> bool {
        true
    }

    open spec fn parse_rel(&self, input: I, r: IResult<I, O, E>) -> bool {
        r == Ok::<(I, O), ErrMode<E>>((input, self.val))
    }

    fn parse_next(&mut self, input: I) -> (r: IResult<I, O, E>) {
        Ok((input, self.val))
    }
}

/// A parser which always succeeds with the given value, consuming nothing.
pub fn success<O: Copy, I: Input, E>(val: O) -> (r: Success<O, I, E>)
    ensures
        r.val == val,
{
    Success { val, phantom: PhantomData }
}

/// Implementation of [`all_consuming`]
pub struct AllConsuming<F, I, O, E> {
    /// The parser that must consume everything
    pub parser: F,
    /// Marks the types the combinator works with
    pub phantom: PhantomData<(I, O, E)>,
}

impl<F, I, O, E> Parser<I, O, E> for AllConsuming<F, I, O, E> where
    I: Input,
    F: Parser<I, O, E>,
    E: ParseError<I>,
 {
    open spec fn parse_req(&self, input: I) -> bool {
        self.parser.parse_req(input)
    }

    open spec fn parse_rel(&self, input: I, r: IResult<I, O, E>) -> bool {
        match r {
            Ok((rest, o)) => self.parser.parse_rel(input, r) && rest.tokens().len() == 0,
            Err(ErrMode::Backtrack(e)) => self.parser.parse_rel(input, r) || exists|rest: I, o: O|
                #![trigger self.parser.parse_rel(input, Ok((rest, o)))]
                self.parser.parse_rel(input, Ok((rest, o))) && rest.tokens().len() != 0
                    && E::from_error_kind_rel(rest, ErrorKind::Eof, e),
            Err(_) => self.parser.parse_rel(input, r),
        }
    }

    fn parse_next(&mut self, input: I) -> (r: IResult<I, O, E>) {
        let (rest, o) = self.parser.parse_next(input)?;
        if rest.token_count() == 0 {
            Ok((rest, o))
        } else {
            assert(self.parser.parse_rel(input, Ok((rest, o))));
            Err(ErrMode::Backtrack(E::from_error_kind(rest, ErrorKind::Eof)))
        }
    }
}

/// Succeeds if all the input has been consumed by its child parser.
///
/// Remaining input gives an [`ErrorKind::Eof`] error at that remainder.
pub fn all_consuming<I, O, E, F>(f: F) -> (r: AllConsuming<F, I, O, E>) where
    I: Input,
    F: Parser<I, O, E>,
    E: ParseError<I>,

    ensures
        r.parser == f,
{
    AllConsuming { parser: f, phantom: PhantomData }
}

/// Transforms [`ErrMode::Incomplete`] into [`ErrMode::Backtrack`] with [`ErrorKind::Complete`]
pub fn complete<F>(f: F) -> (r: CompleteErr<F>)
    ensures
        r.f == f,
{
    CompleteErr::new(f)
}

/// Converts the output of a parser with `From`, and its errors likewise.
///
/// A parser of `&str` that returns `&str` can, with `into`, return `String`, or an error
/// type that builds from the one the parser uses.
pub fn into<I, O, O2, E, E2, F>(parser: F) -> (r: crate::combinator::Into<F, I, O, O2, E, E2>) where
    I: Input,
    F: Parser<I, O, E>,
    O2: From<O>,
    E2: From<E>,

    ensures
        r.parser == parser,
{
    crate::combinator::Into::new(parser)
}

/// Maps a function on the result of a parser.
pub fn map<I, O, O2, E, F, G>(parser: F, g: G) -> (r: Mapped<F, G, I, O, O2, E>) where
    I: Input,
    F: Parser<I, O, E>,
    G: Fn(O) -> O2,

    ensures
        r.parser == parser,
        r.map == g,
{
    Mapped::new(parser, g)
}

/// Applies a function returning a `Result` over the result of a parser.
pub fn map_res<I, O, O2, E, E2, F, G>(parser: F, g: G) -> (r: TryMap<F, G, I, O, O2, E, E2>) where
    I: Input,
    F: Parser<I, O, E>,
    G: Fn(O) -> Result<O2, E2>,
    E: FromExternalError<I, E2>,

    ensures
        r.parser == parser,
        r.map == g,
{
    TryMap::new(parser, g)
}

/// Applies a function returning an `Option` over the result of a parser.
pub fn map_opt<I, O, O2, E, F, G>(parser: F, g: G) -> (r: VerifyMap<F, G, I, O, O2, E>) where
    I: Input,
    F: Parser<I, O, E>,
    G: Fn(O) -> Option<O2>,
    E: ParseError<I>,

    ensures
        r.parser == parser,
        r.map == g,
{
    VerifyMap::new(parser, g)
}

/// Applies a parser over the result of another one.
pub fn map_parser<I, O, O2, E, F, G>(parser: F, applied: G) -> (r: AndThen<F, G, I, O, O2, E>) where
    I: Input,
    O: Input,
    F: Parser<I, O, E>,
    G: Parser<O, O2, E>,

    ensures
        r.outer == parser,
        r.inner == applied,
{
    AndThen::new(parser, applied)
}

/// Creates a new parser from the output of the first parser, then applies it.
pub fn flat_map<I, O, O2, E, F, G, H>(parser: F, g: G) -> (r: FlatMap<F, G, H, I, O, O2, E>) where
    I: Input,
    F: Parser<I, O, E>,
    G: Fn(O) -> H,
    H: Parser<I, O2, E>,

    ensures
        r.f == parser,
        r.g == g,
{
    FlatMap::new(parser, g)
}

/// Returns the result of the child parser if it satisfies a verification function.
pub fn verify<I, O, E, F, G>(parser: F, filter: G) -> (r: Verify<F, G, I, O, E>) where
    I: Input,
    F: Parser<I, O, E>,
    G: Fn(&O) -> bool,
    E: ParseError<I>,

    ensures
        r.parser == parser,
        r.filter == filter,
{
    Verify::new(parser, filter)
}

/// Returns the provided value if the child parser succeeds.
pub fn value<I, O, O2, E, F>(val: O2, parser: F) -> (r: Value<F, I, O, O2, E>) where
    I: Input,
    F: Parser<I, O, E>,
    O2: Copy,

    ensures
        r.parser == parser,
        r.val == val,
{
    Value::new(parser, val)
}

/// If the child parser was successful, return the consumed input as produced value.
pub fn recognize<I, O, E, F>(parser: F) -> (r: Recognize<F, I, O, E>) where
    I: Input,
    F: Parser<I, O, E>,

    ensures
        r.parser == parser,
{
    Recognize::new(parser)
}

/// Implementation of [`consumed`]
pub struct Consumed<F, I, O, E> {
    /// The parser whose consumed input is returned before its output
    pub parser: WithRecognized<F, I, O, E>,
}

impl<F, I, O, E> Parser<I, (I::Slice, O), E> for Consumed<F, I, O, E> where
    I: Input,
    F: Parser<I, O, E>,
 {
    open spec fn parse_req(&self, input: I) -> bool {
        self.parser.parse_req(input)
    }

    open spec fn parse_rel(&self, input: I, r: IResult<I, (I::Slice, O), E>) -> bool {
        match r {
            Ok((rest, (s, o))) => self.parser.parse_rel(input, Ok((rest, (o, s)))),
            Err(e) => self.parser.parse_rel(input, Err(e)),
        }
    }

    fn parse_next(&mut self, input: I) -> (r: IResult<I, (I::Slice, O), E>) {
        match self.parser.parse_next(input) {
            Ok((rest, (o, s))) => Ok((rest, (s, o))),
            Err(e) => Err(e),
        }
    }
}

/// If the child parser was successful, return the consumed input with the output as a tuple
/// `(consumed input, produced output)`.
pub fn consumed<I, O, E, F>(parser: F) -> (r: Consumed<F, I, O, E>) where
    I: Input,
    F: Parser<I, O, E>,

    ensures
        r.parser.parser == parser,
{
    Consumed { parser: WithRecognized::new(parser) }
}


/// Where a [`ParserIterator`] stands
#[derive(Debug, Clone, Copy, PartialEq, Eq)]
pub enum IterState<E> {
    /// The parser may be applied again
    Running,
    /// The parser reported a recoverable error: iteration is over
    Done,
    /// The parser reported an unrecoverable error
    Failure(E),
    /// The parser asked for more input
    Incomplete(Needed),
}

/// Main structure associated to the [`iterator`] function.
///
/// Each call of [`ParserIterator::next`] applies the parser to the input left by the last
/// one, until the parser fails.
pub struct ParserIterator<I, O, E, F> {
    /// The parser applied at each step
    pub iterator: F,
    /// The input left
    pub input: I,
    /// Where the iteration stands
    pub state: IterState<E>,
    /// Marks the output type
    pub output: PhantomData<O>,
}

/// Creates an iterator from input data and a parser.
///
/// Call the iterator's [`ParserIterator::finish`] method to get the remaining input if
/// successful, or the error value if we encountered an error.
///
/// On [`ErrMode::Backtrack`], iteration will stop.  To instead chain an error up, see
/// [`cut_err`].
pub fn iterator<I, O, E, F>(input: I, f: F) -> (r: ParserIterator<I, O, E, F>)
    ensures
        r.iterator == f,
        r.input == input,
        r.state == IterState::<E>::Running,
{
    ParserIterator { iterator: f, input, state: IterState::Running, output: PhantomData }
}

/// What a step of a parser iterator does: `next` is the iterator after it, `r` what it
/// yields.
pub open spec fn iter_step<I: Input, O, E, F: Parser<I, O, E>>(
    prev: ParserIterator<I, O, E, F>,
    next: ParserIterator<I, O, E, F>,
    r: Option<O>,
) -> bool {
    &&& next.iterator == prev.iterator
    &&& match prev.state {
        IterState::Running => exists|res: IResult<I, O, E>|
            #![trigger prev.iterator.parse_rel(prev.input, res)]
            prev.iterator.parse_rel(prev.input, res) && match res {
                Ok((rest, o)) => next.input == rest && next.state == IterState::<E>::Running && r
                    == Some(o),
                Err(ErrMode::Backtrack(_)) => next.input == prev.input && next.state
                    == IterState::<E>::Done && r is None,
                Err(ErrMode::Cut(e)) => next.input == prev.input && next.state == IterState::Failure(
                    e,
                ) && r is None,
                Err(ErrMode::Incomplete(n)) => next.input == prev.input && next.state
                    == IterState::<E>::Incomplete(n) && r is None,
            },
        _ => next.input == prev.input && next.state == prev.state && r is None,
    }
}

/// What finishing a parser iterator returns.
pub open spec fn iter_finish<I, O, E, F>(it: ParserIterator<I, O, E, F>) -> IResult<I, (), E> {
    match it.state {
        IterState::Running => Ok((it.input, ())),
        IterState::Done => Ok((it.input, ())),
        IterState::Failure(e) => Err(ErrMode::Cut(e)),
        IterState::Incomplete(n) => Err(ErrMode::Incomplete(n)),
    }
}

impl<I: Input, O, E, F: Parser<I, O, E>> ParserIterator<I, O, E, F> {
    /// Applies the parser once more, while iteration runs; yields its output, or `None`
    /// once it has failed.
    pub fn next(&mut self) -> (r: Option<O>)
        requires
            old(self).iterator.parse_req(old(self).input),
        ensures
            iter_step(*old(self), *final(self), r),
    {
        match self.state {
            IterState::Running => {
                let input = self.input;
                let res = self.iterator.parse_next(input);
                let ghost gres = res;
                match res {
                    Ok((rest, o)) => {
                        self.input = rest;
                        assert(self.iterator.parse_rel(old(self).input, gres));
                        Some(o)
                    },
                    Err(ErrMode::Backtrack(_)) => {
                        self.state = IterState::Done;
                        assert(self.iterator.parse_rel(old(self).input, gres));
                        None
                    },
                    Err(ErrMode::Cut(e)) => {
                        self.state = IterState::Failure(e);
                        assert(self.iterator.parse_rel(old(self).input, gres));
                        None
                    },
                    Err(ErrMode::Incomplete(n)) => {
                        self.state = IterState::Incomplete(n);
                        assert(self.iterator.parse_rel(old(self).input, gres));
                        None
                    },
                }
            },
            _ => None,
        }
    }

    /// Returns the remaining input if parsing was successful, or the error if we encountered an error.
    pub fn finish(self) -> (r: IResult<I, (), E>)
        ensures
            r == iter_finish(self),
    {
        match self.state {
            IterState::Running => Ok((self.input, ())),
            IterState::Done => Ok((self.input, ())),
            IterState::Failure(e) => Err(ErrMode::Cut(e)),
            IterState::Incomplete(n) => Err(ErrMode::Incomplete(n)),
        }
    }
}

/// Implementation of [`trace`]
pub struct Trace<P, N> {
    /// The parser traced
    pub parser: P,
    /// The name under which it is traced
    pub name: N,
}

/// Trace the execution of the parser
///
/// The parser behaves exactly as `parser` does; the name labels it where tracing is shown.
pub fn trace<N, P>(name: N, parser: P) -> (r: Trace<P, N>)
    ensures
        r.parser == parser,
        r.name == name,
{
    Trace { parser, name }
}

impl<I: Input, O, E, P: Parser<I, O, E>, N> Parser<I, O, E> for Trace<P, N> {
    open spec fn parse_req(&self, input: I) -> bool {
        self.parser.parse_req(input)
    }

    open spec fn parse_rel(&self, input: I, r: IResult<I, O, E>) -> bool {
        self.parser.parse_rel(input, r)
    }

    fn parse_next(&mut self, input: I) -> (r: IResult<I, O, E>) {
        self.parser.parse_next(input)
    }
}

} // verus!
