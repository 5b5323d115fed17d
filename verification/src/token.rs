//! Parsers extracting tokens from the stream
use vstd::prelude::*;
use crate::error::{needed, ErrMode, ErrorKind, Needed, ParseError};
use crate::find::{first_occurrence, never_occurs};
use crate::parser::{backtrack_at, incomplete_by, IResult, Parser};
use crate::input::{
    compare_spec, lower_seq, CaseFold, Compare, CompareResult, ContainsToken, FindSlice, Input,
    ToUsize,
};

verus! {

/// The result `r` of matching a literal of `n` tokens, `units` long in offset units (bytes
/// for text), whose comparison with the input came out as `cmp`: when more input may come, an
/// incomplete comparison asks for the units the literal has beyond the input.
pub open spec fn literal_rel<I: Input, E: ParseError<I>>(
    input: I,
    n: int,
    units: int,
    cmp: CompareResult,
    r: IResult<I, I::Slice, E>,
) -> bool {
    if cmp == CompareResult::Match {
        r matches Ok((rest, o)) && input.advances(rest, n) && I::slice_tokens(o)
            == input.tokens().take(n)
    } else if cmp == CompareResult::Incomplete && input.partial() {
        incomplete_by(
            r,
            if units >= input.offset_len() {
                units - input.offset_len()
            } else {
                0
            },
        )
    } else {
        backtrack_at(r, input, ErrorKind::Tag)
    }
}

/// How the input compares with the literal `t`, with or without folding case.
pub open spec fn literal_outcome<I: Compare<T>, T: Copy>(input: I, t: T, no_case: bool) -> CompareResult
    where I::Token: CaseFold,
{
    if no_case {
        compare_spec(lower_seq(input.tokens()), lower_seq(I::literal(t)))
    } else {
        compare_spec(input.tokens(), I::literal(t))
    }
}

/// Matches the literal `t` at the front of `input`.
pub fn literal_internal<I, T, E>(input: I, t: T, no_case: bool) -> (r: IResult<I, I::Slice, E>)
    where I: Compare<T>, I::Token: CaseFold, T: Copy, E: ParseError<I>,
    ensures
        literal_rel(input, I::literal(t).len() as int, I::literal_units(t), literal_outcome(input, t, no_case), r),
{
    let n = I::literal_len(t);
    let c = if no_case {
        input.compare_no_case(t)
    } else {
        input.compare(t)
    };
    match c {
        CompareResult::Match => Ok(input.next_tokens(n)),
        CompareResult::Incomplete => {
            if input.is_partial() {
                let units = I::literal_offset_len(t);
                let len = input.input_len();
                Err(ErrMode::Incomplete(Needed::new(units.saturating_sub(len))))
            } else {
                Err(ErrMode::Backtrack(E::from_error_kind(input, ErrorKind::Tag)))
            }
        },
        CompareResult::Error => Err(ErrMode::Backtrack(E::from_error_kind(input, ErrorKind::Tag))),
    }
}

/// Recognizes a literal
///
/// The input data will be compared to the tag combinator's argument and will return the part of
/// the input that matches the argument
///
/// It will return `Err(ErrMode::Backtrack(Error::new(_, ErrorKind::Tag)))` if the input doesn't match the pattern
///
/// *Streaming version*: will return `ErrMode::Incomplete(Needed::new(1))` if there's not enough input data.
pub struct Tag<T> {
    /// The literal to recognize
    pub tag: T,
}

/// Recognizes a literal; see [`Tag`]
pub fn tag<T>(literal: T) -> (r: Tag<T>)
    ensures
        r.tag == literal,
{
    Tag { tag: literal }
}

impl<I, T, E> Parser<I, I::Slice, E> for Tag<T> where
    I: Compare<T>,
    I::Token: CaseFold,
    T: Copy,
    E: ParseError<I>,
 {
    open spec fn parse_req(&self, input: I) -> bool {
        true
    }

    open spec fn parse_rel(&self, input: I, r: IResult<I, I::Slice, E>) -> bool {
        literal_rel(input, I::literal(self.tag).len() as int, I::literal_units(self.tag), literal_outcome(input, self.tag, false), r)
    }

    fn parse_next(&mut self, input: I) -> (r: IResult<I, I::Slice, E>) {
        literal_internal(input, self.tag, false)
    }
}

/// Recognizes a case insensitive literal (ASCII letters only are folded)
pub struct TagNoCase<T> {
    /// The literal to recognize
    pub tag: T,
}

/// Recognizes a case insensitive literal; see [`TagNoCase`]
pub fn tag_no_case<T>(literal: T) -> (r: TagNoCase<T>)
    ensures
        r.tag == literal,
{
    TagNoCase { tag: literal }
}

impl<I, T, E> Parser<I, I::Slice, E> for TagNoCase<T> where
    I: Compare<T>,
    I::Token: CaseFold,
    T: Copy,
    E: ParseError<I>,
 {
    open spec fn parse_req(&self, input: I) -> bool {
        true
    }

    open spec fn parse_rel(&self, input: I, r: IResult<I, I::Slice, E>) -> bool {
        literal_rel(input, I::literal(self.tag).len() as int, I::literal_units(self.tag), literal_outcome(input, self.tag, true), r)
    }

    fn parse_next(&mut self, input: I) -> (r: IResult<I, I::Slice, E>) {
        literal_internal(input, self.tag, true)
    }
}

impl<'s, I, E> Parser<I, I::Slice, E> for &'s str where
    I: Compare<&'s str>,
    I::Token: CaseFold,
    E: ParseError<I>,
 {
    open spec fn parse_req(&self, input: I) -> bool {
        true
    }

    open spec fn parse_rel(&self, input: I, r: IResult<I, I::Slice, E>) -> bool {
        literal_rel(input, I::literal(*self).len() as int, I::literal_units(*self), literal_outcome(input, *self, false), r)
    }

    fn parse_next(&mut self, input: I) -> (r: IResult<I, I::Slice, E>) {
        literal_internal(input, *self, false)
    }
}

impl<'s, I, E> Parser<I, I::Slice, E> for &'s [u8] where
    I: Compare<&'s [u8]>,
    I::Token: CaseFold,
    E: ParseError<I>,
 {
    open spec fn parse_req(&self, input: I) -> bool {
        true
    }

    open spec fn parse_rel(&self, input: I, r: IResult<I, I::Slice, E>) -> bool {
        literal_rel(input, I::literal(*self).len() as int, I::literal_units(*self), literal_outcome(input, *self, false), r)
    }

    fn parse_next(&mut self, input: I) -> (r: IResult<I, I::Slice, E>) {
        literal_internal(input, *self, false)
    }
}

/// The result `r` of taking `n` tokens from `input`.
pub open spec fn take_rel<I: Input, E: ParseError<I>>(input: I, n: int, r: IResult<I, I::Slice, E>) -> bool {
    if input.tokens().len() >= n {
        r matches Ok((rest, o)) && input.advances(rest, n) && I::slice_tokens(o)
            == input.tokens().take(n)
    } else if input.partial() {
        r == Err::<(I, I::Slice), ErrMode<E>>(ErrMode::Incomplete(input.short_by(n)))
    } else {
        backtrack_at(r, input, ErrorKind::Eof)
    }
}

/// Recognize an input slice containing the first N input elements (I[..N]).
///
/// *Complete version*: It will return `Err(ErrMode::Backtrack(Error::new(_, ErrorKind::Eof)))` if the input is shorter than the argument.
///
/// *Streaming version*: if the input has less than N elements, `take` will
/// return a `ErrMode::Incomplete(Needed::new(M))` where M is the number of
/// additional elements the parser would need to succeed; for text, where that number
/// of bytes is not known, `ErrMode::Incomplete(Needed::Unknown)`.
pub struct Take {
    /// The number of tokens to take
    pub count: usize,
}

/// Recognize the first `count` tokens; see [`Take`]
pub fn take<C: ToUsize>(count: C) -> (r: Take)
    ensures
        r.count == count.spec_value(),
{
    Take { count: count.to_usize() }
}

/// Takes `n` tokens from `input`.
pub fn take_internal<I: Input, E: ParseError<I>>(input: I, n: usize) -> (r: IResult<I, I::Slice, E>)
    ensures
        take_rel(input, n as int, r),
{
    match input.offset_at(n) {
        Ok(offset) => {
            assert(n <= input.tokens().len());
            proof {
                input.lemma_offsets(0, n as int);
            }
            assert(input.offset_of(n as int) == offset);
            Ok(input.next_slice(offset))
        },
        Err(more) => {
            if input.is_partial() {
                Err(ErrMode::Incomplete(more))
            } else {
                Err(ErrMode::Backtrack(E::from_error_kind(input, ErrorKind::Eof)))
            }
        },
    }
}

impl<I: Input, E: ParseError<I>> Parser<I, I::Slice, E> for Take {
    open spec fn parse_req(&self, input: I) -> bool {
        true
    }

    open spec fn parse_rel(&self, input: I, r: IResult<I, I::Slice, E>) -> bool {
        take_rel(input, self.count as int, r)
    }

    fn parse_next(&mut self, input: I) -> (r: IResult<I, I::Slice, E>) {
        take_internal(input, self.count)
    }
}

/// The result `r` of taking one token from `input`.
pub open spec fn any_rel<I: Input, E: ParseError<I>>(input: I, r: IResult<I, I::Token, E>) -> bool {
    if input.tokens().len() > 0 {
        r matches Ok((rest, t)) && input.advances(rest, 1) && t == input.tokens()[0]
    } else if input.partial() {
        incomplete_by(r, 1)
    } else {
        backtrack_at(r, input, ErrorKind::Eof)
    }
}

/// Matches one token
///
/// *Complete version*: Will return an error if there's not enough input data.
///
/// *Streaming version*: Will return `Err(ErrMode::Incomplete(_))` if there's not enough input data.
pub fn any<I: Input, E: ParseError<I>>(input: I) -> (r: IResult<I, I::Token, E>)
    ensures
        any_rel(input, r),
{
    match input.next_token() {
        Some((rest, t)) => Ok((rest, t)),
        None => {
            if input.is_partial() {
                Err(ErrMode::Incomplete(Needed::new(1)))
            } else {
                Err(ErrMode::Backtrack(E::from_error_kind(input, ErrorKind::Eof)))
            }
        },
    }
}

/// The result `r` of taking one token that the set answers `accept` for.
pub open spec fn one_token_rel<I: Input, T: ContainsToken<I::Token>, E: ParseError<I>>(
    input: I,
    set: T,
    accept: bool,
    kind: ErrorKind,
    r: IResult<I, I::Token, E>,
) -> bool {
    if input.tokens().len() == 0 {
        if input.partial() {
            incomplete_by(r, 1)
        } else {
            backtrack_at(r, input, kind)
        }
    } else {
        match r {
            Ok((rest, t)) => input.advances(rest, 1) && t == input.tokens()[0] && set.contains_rel(
                input.tokens()[0],
                accept,
            ),
            Err(ErrMode::Backtrack(e)) => set.contains_rel(input.tokens()[0], !accept)
                && E::from_error_kind_rel(input, kind, e),
            _ => false,
        }
    }
}

/// Takes one token that the set answers `accept` for.
pub fn one_token_internal<I: Input, T: ContainsToken<I::Token>, E: ParseError<I>>(
    input: I,
    set: &T,
    accept: bool,
    kind: ErrorKind,
) -> (r: IResult<I, I::Token, E>)
    requires
        input.tokens().len() > 0 ==> set.contains_req(input.tokens()[0]),
    ensures
        one_token_rel(input, *set, accept, kind, r),
{
    match input.next_token() {
        None => {
            if input.is_partial() {
                Err(ErrMode::Incomplete(Needed::new(1)))
            } else {
                Err(ErrMode::Backtrack(E::from_error_kind(input, kind)))
            }
        },
        Some((rest, t)) => {
            let c = set.contains_token(t);
            if c == accept {
                Ok((rest, t))
            } else {
                Err(ErrMode::Backtrack(E::from_error_kind(input, kind)))
            }
        },
    }
}

/// Returns a token that matches the [pattern][ContainsToken]
///
/// *Complete version*: Will return an error if there's not enough input data.
///
/// *Streaming version*: Will return `Err(ErrMode::Incomplete(_))` if there's not enough input data.
pub struct OneOf<T> {
    /// The set of accepted tokens
    pub list: T,
}

/// Returns a token that matches the set; see [`OneOf`]
pub fn one_of<T>(list: T) -> (r: OneOf<T>)
    ensures
        r.list == list,
{
    OneOf { list }
}

impl<I: Input, T: ContainsToken<I::Token>, E: ParseError<I>> Parser<I, I::Token, E> for OneOf<T> {
    open spec fn parse_req(&self, input: I) -> bool {
        input.tokens().len() > 0 ==> self.list.contains_req(input.tokens()[0])
    }

    open spec fn parse_rel(&self, input: I, r: IResult<I, I::Token, E>) -> bool {
        one_token_rel(input, self.list, true, ErrorKind::OneOf, r)
    }

    fn parse_next(&mut self, input: I) -> (r: IResult<I, I::Token, E>) {
        one_token_internal(input, &self.list, true, ErrorKind::OneOf)
    }
}

/// Returns a token that does not match the [pattern][ContainsToken]
pub struct NoneOf<T> {
    /// The set of refused tokens
    pub list: T,
}

/// Returns a token that does not match the set; see [`NoneOf`]
pub fn none_of<T>(list: T) -> (r: NoneOf<T>)
    ensures
        r.list == list,
{
    NoneOf { list }
}

impl<I: Input, T: ContainsToken<I::Token>, E: ParseError<I>> Parser<I, I::Token, E> for NoneOf<T> {
    open spec fn parse_req(&self, input: I) -> bool {
        input.tokens().len() > 0 ==> self.list.contains_req(input.tokens()[0])
    }

    open spec fn parse_rel(&self, input: I, r: IResult<I, I::Token, E>) -> bool {
        one_token_rel(input, self.list, false, ErrorKind::NoneOf, r)
    }

    fn parse_next(&mut self, input: I) -> (r: IResult<I, I::Token, E>) {
        one_token_internal(input, &self.list, false, ErrorKind::NoneOf)
    }
}

impl<I: Input, E: ParseError<I>> Parser<I, I::Token, E> for u8 where u8: ContainsToken<I::Token> {
    open spec fn parse_req(&self, input: I) -> bool {
        input.tokens().len() > 0 ==> self.contains_req(input.tokens()[0])
    }

    open spec fn parse_rel(&self, input: I, r: IResult<I, I::Token, E>) -> bool {
        one_token_rel(input, *self, true, ErrorKind::OneOf, r)
    }

    fn parse_next(&mut self, input: I) -> (r: IResult<I, I::Token, E>) {
        one_token_internal(input, self, true, ErrorKind::OneOf)
    }
}

impl<I: Input, E: ParseError<I>> Parser<I, I::Token, E> for char where char: ContainsToken<I::Token> {
    open spec fn parse_req(&self, input: I) -> bool {
        input.tokens().len() > 0 ==> self.contains_req(input.tokens()[0])
    }

    open spec fn parse_rel(&self, input: I, r: IResult<I, I::Token, E>) -> bool {
        one_token_rel(input, *self, true, ErrorKind::OneOf, r)
    }

    fn parse_next(&mut self, input: I) -> (r: IResult<I, I::Token, E>) {
        one_token_internal(input, self, true, ErrorKind::OneOf)
    }
}

/// The first `n` tokens are those that the set answers `accept` for, and the token after
/// them, if there is one and `n < max`, is not.
pub open spec fn scan_ok<I: Input, T: ContainsToken<I::Token>>(
    input: I,
    set: T,
    accept: bool,
    n: int,
    max: int,
) -> bool {
    &&& 0 <= n <= input.tokens().len()
    &&& n <= max
    &&& forall|j: int| 0 <= j < n ==> #[trigger] set.contains_rel(input.tokens()[j], accept)
    &&& (n < input.tokens().len() && n < max) ==> set.contains_rel(input.tokens()[n], !accept)
}

/// The set can be asked about every token of the input.
pub open spec fn set_ready<I: Input, T: ContainsToken<I::Token>>(input: I, set: T) -> bool {
    forall|j: int| 0 <= j < input.tokens().len() ==> #[trigger] set.contains_req(input.tokens()[j])
}

/// Counts the leading tokens, at most `max`, that the set answers `accept` for.
pub fn scan_tokens<I: Input, T: ContainsToken<I::Token>>(
    input: I,
    set: &T,
    accept: bool,
    max: usize,
) -> (n: usize)
    requires
        set_ready(input, *set),
    ensures
        scan_ok(input, *set, accept, n as int, max as int),
{
    let len = input.token_count();
    let mut i: usize = 0;
    while i < len && i < max
        invariant
            len == input.tokens().len(),
            set_ready(input, *set),
            i <= len,
            i <= max,
            forall|j: int| 0 <= j < i ==> #[trigger] set.contains_rel(input.tokens()[j], accept),
        decreases len - i,
    {
        let t = input.token_at(i);
        let c = set.contains_token(t);
        if c != accept {
            return i;
        }
        i += 1;
    }
    i
}

/// The result `r` of taking the longest run of tokens that the set answers `accept` for:
/// at least one when `min_one`, reporting `kind` otherwise.
pub open spec fn take_while_rel<I: Input, T: ContainsToken<I::Token>, E: ParseError<I>>(
    input: I,
    set: T,
    accept: bool,
    min_one: bool,
    kind: ErrorKind,
    r: IResult<I, I::Slice, E>,
) -> bool {
    let len = input.tokens().len() as int;
    match r {
        Ok((rest, o)) => {
            let n = len - rest.tokens().len();
            scan_ok(input, set, accept, n, len) && (min_one ==> n >= 1) && !(input.partial() && n
                == len) && input.advances(rest, n) && I::slice_tokens(o) == input.tokens().take(n)
        },
        Err(ErrMode::Incomplete(m)) => input.partial() && m == needed(1) && scan_ok(
            input,
            set,
            accept,
            len,
            len,
        ),
        Err(ErrMode::Backtrack(e)) => min_one && scan_ok(input, set, accept, 0, len) && !(
        input.partial() && len == 0) && E::from_error_kind_rel(input, kind, e),
        Err(ErrMode::Cut(_)) => false,
    }
}

/// Takes the longest run of tokens that the set answers `accept` for.
pub fn take_while_internal<I: Input, T: ContainsToken<I::Token>, E: ParseError<I>>(
    input: I,
    set: &T,
    accept: bool,
    min_one: bool,
    kind: ErrorKind,
) -> (r: IResult<I, I::Slice, E>)
    requires
        set_ready(input, *set),
    ensures
        take_while_rel(input, *set, accept, min_one, kind, r),
{
    let len = input.token_count();
    let n = scan_tokens(input, set, accept, len);
    if n == len && input.is_partial() {
        return Err(ErrMode::Incomplete(Needed::new(1)));
    }
    if min_one && n == 0 {
        return Err(ErrMode::Backtrack(E::from_error_kind(input, kind)));
    }
    let (rest, o) = input.next_tokens(n);
    proof {
        input.lemma_advances(rest, n as int);
    }
    Ok((rest, o))
}

/// Recognize the longest input slice that matches the [pattern][ContainsToken]
pub struct TakeWhile<T> {
    /// The set of tokens to take
    pub set: T,
    /// `true` to take tokens in the set, `false` to take tokens outside of it
    pub accept: bool,
    /// Whether at least one token is required
    pub min_one: bool,
    /// The error kind reported when no token could be taken
    pub kind: ErrorKind,
}

impl<I: Input, T: ContainsToken<I::Token>, E: ParseError<I>> Parser<I, I::Slice, E> for TakeWhile<T> {
    open spec fn parse_req(&self, input: I) -> bool {
        set_ready(input, self.set)
    }

    open spec fn parse_rel(&self, input: I, r: IResult<I, I::Slice, E>) -> bool {
        take_while_rel(input, self.set, self.accept, self.min_one, self.kind, r)
    }

    fn parse_next(&mut self, input: I) -> (r: IResult<I, I::Slice, E>) {
        take_while_internal(input, &self.set, self.accept, self.min_one, self.kind)
    }
}

/// Recognize the longest (possibly empty) input slice that matches the pattern
///
/// *Streaming version*: will return a `ErrMode::Incomplete(Needed::new(1))` if the pattern reaches the end of the input.
pub fn take_while0<T>(set: T) -> (r: TakeWhile<T>)
    ensures
        r == (TakeWhile { set, accept: true, min_one: false, kind: ErrorKind::TakeWhile1 }),
{
    TakeWhile { set, accept: true, min_one: false, kind: ErrorKind::TakeWhile1 }
}

/// Recognize the longest (at least 1) input slice that matches the pattern
///
/// It will return an `Err(ErrMode::Backtrack(Error::new(_, ErrorKind::TakeWhile1)))` if the pattern wasn't met.
pub fn take_while1<T>(set: T) -> (r: TakeWhile<T>)
    ensures
        r == (TakeWhile { set, accept: true, min_one: true, kind: ErrorKind::TakeWhile1 }),
{
    TakeWhile { set, accept: true, min_one: true, kind: ErrorKind::TakeWhile1 }
}

/// Recognize the longest input slice (if any) till a pattern is met.
pub fn take_till0<T>(set: T) -> (r: TakeWhile<T>)
    ensures
        r == (TakeWhile { set, accept: false, min_one: false, kind: ErrorKind::TakeTill1 }),
{
    TakeWhile { set, accept: false, min_one: false, kind: ErrorKind::TakeTill1 }
}

/// Recognize the longest (at least 1) input slice till a pattern is met.
///
/// It will return `Err(ErrMode::Backtrack(Error::new(_, ErrorKind::TakeTill1)))` if the input is empty or the
/// predicate matches the first input.
pub fn take_till1<T>(set: T) -> (r: TakeWhile<T>)
    ensures
        r == (TakeWhile { set, accept: false, min_one: true, kind: ErrorKind::TakeTill1 }),
{
    TakeWhile { set, accept: false, min_one: true, kind: ErrorKind::TakeTill1 }
}

/// The result `r` of taking everything up to the first occurrence of `needle`: a
/// non-empty prefix when `min_one`.
pub open spec fn take_until_rel<I: Input, E: ParseError<I>>(
    input: I,
    needle: Seq<I::Token>,
    min_one: bool,
    r: IResult<I, I::Slice, E>,
) -> bool {
    match r {
        Ok((rest, o)) => {
            let i = input.tokens().len() - rest.tokens().len();
            first_occurrence(input.tokens(), needle, i) && (min_one ==> i >= 1) && input.advances(
                rest,
                i,
            ) && I::slice_tokens(o) == input.tokens().take(i)
        },
        Err(ErrMode::Incomplete(m)) => input.partial() && m == Needed::Unknown && never_occurs(
            input.tokens(),
            needle,
        ),
        Err(ErrMode::Backtrack(e)) => (!input.partial() && never_occurs(input.tokens(), needle) || (
        min_one && first_occurrence(input.tokens(), needle, 0))) && E::from_error_kind_rel(
            input,
            ErrorKind::TakeUntil,
            e,
        ),
        Err(ErrMode::Cut(_)) => false,
    }
}

/// Recognize the input slice up to the first occurrence of the literal.
pub struct TakeUntil<T> {
    /// The literal to look for
    pub literal: T,
    /// Whether the slice must be non-empty
    pub min_one: bool,
}

/// Recognize the input slice up to the first occurrence of the literal.
///
/// It doesn't consume the pattern.
///
/// *Complete version*: It will return `Err(ErrMode::Backtrack(Error::new(_, ErrorKind::TakeUntil)))`
/// if the pattern wasn't met.
///
/// *Streaming version*: will return a `ErrMode::Incomplete(Needed::new(N))` if the input doesn't
/// contain the pattern or if the input is smaller than the pattern.
pub fn take_until0<T>(literal: T) -> (r: TakeUntil<T>)
    ensures
        r.literal == literal,
        !r.min_one,
{
    TakeUntil { literal, min_one: false }
}

/// Recognize a non-empty input slice up to the first occurrence of the literal.
pub fn take_until1<T>(literal: T) -> (r: TakeUntil<T>)
    ensures
        r.literal == literal,
        r.min_one,
{
    TakeUntil { literal, min_one: true }
}

impl<I: FindSlice<T>, T: Copy, E: ParseError<I>> Parser<I, I::Slice, E> for TakeUntil<T> {
    open spec fn parse_req(&self, input: I) -> bool {
        true
    }

    open spec fn parse_rel(&self, input: I, r: IResult<I, I::Slice, E>) -> bool {
        take_until_rel(input, I::needle(self.literal), self.min_one, r)
    }

    fn parse_next(&mut self, input: I) -> (r: IResult<I, I::Slice, E>) {
        match input.find_slice(self.literal) {
            Some(i) => {
                if self.min_one && i == 0 {
                    Err(ErrMode::Backtrack(E::from_error_kind(input, ErrorKind::TakeUntil)))
                } else {
                    proof {
                        crate::find::lemma_first_occurrence_bound(input.tokens(), I::needle(self.literal), i as int);
                    }
                    let (rest, o) = input.next_tokens(i);
                    proof {
                        input.lemma_advances(rest, i as int);
                    }
                    Ok((rest, o))
                }
            },
            None => {
                if input.is_partial() {
                    Err(ErrMode::Incomplete(Needed::Unknown))
                } else {
                    Err(ErrMode::Backtrack(E::from_error_kind(input, ErrorKind::TakeUntil)))
                }
            },
        }
    }
}

} // verus!
