//! Combinators applying their child parser multiple times
//!
//! A repetition is described by the runs it made: `steps[k]` is the input of the `k`-th run
//! and `outs[k]` its output; every run must shorten the input, else the repetition stops with
//! an error instead of looping forever.
use core::marker::PhantomData;
use vstd::prelude::*;
use crate::error::{ErrMode, ErrorKind, ParseError};
use crate::input::{Accumulate, Input, ToUsize, UpdateSlice};
use crate::token::{take_internal, take_rel};
use crate::combinator::CompleteErr;
use crate::parser::{IResult, Parser};

verus! {

/// `p` ran `outs.len()` times in a row: the `k`-th run took `steps[k]`, returned `outs[k]` and
/// left `steps[k + 1]`, strictly shorter.
pub open spec fn repeated<I: Input, O, E, P: Parser<I, O, E>>(
    p: P,
    steps: Seq<I>,
    outs: Seq<O>,
) -> bool {
    &&& steps.len() == outs.len() + 1
    &&& forall|k: int|
        #![trigger outs[k]]
        0 <= k < outs.len() ==> p.parse_rel(steps[k], Ok((steps[k + 1], outs[k])))
            && steps[k + 1].tokens().len() < steps[k].tokens().len()
}

/// A run record can be extended by one more run.
pub proof fn lemma_repeated_push<I: Input, O, E, P: Parser<I, O, E>>(
    p: P,
    steps: Seq<I>,
    outs: Seq<O>,
    next: I,
    o: O,
)
    requires
        repeated(p, steps, outs),
        p.parse_rel(steps.last(), Ok((next, o))),
        next.tokens().len() < steps.last().tokens().len(),
    ensures
        repeated(p, steps.push(next), outs.push(o)),
        steps.push(next)[0] == steps[0],
        steps.push(next).last() == next,
{
    let s2 = steps.push(next);
    let o2 = outs.push(o);
    assert forall|k: int| #![trigger o2[k]] 0 <= k < o2.len() implies p.parse_rel(
        s2[k],
        Ok((s2[k + 1], o2[k])),
    ) && s2[k + 1].tokens().len() < s2[k].tokens().len() by {
        if k < outs.len() {
            assert(outs[k] == o2[k]);
        }
    }
}

/// Every run of a record shortens the input, so the record is no longer than its input.
pub proof fn lemma_repeated_len<I: Input, O, E, P: Parser<I, O, E>>(
    p: P,
    steps: Seq<I>,
    outs: Seq<O>,
)
    requires
        repeated(p, steps, outs),
    ensures
        outs.len() + steps.last().tokens().len() <= steps[0].tokens().len(),
    decreases outs.len(),
{
    if outs.len() > 0 {
        let s1 = steps.drop_last();
        let o1 = outs.drop_last();
        assert forall|k: int| #![trigger o1[k]] 0 <= k < o1.len() implies p.parse_rel(
            s1[k],
            Ok((s1[k + 1], o1[k])),
        ) && s1[k + 1].tokens().len() < s1[k].tokens().len() by {
            assert(o1[k] == outs[k]);
        }
        lemma_repeated_len(p, s1, o1);
        assert(s1.last() == steps[outs.len() - 1]);
        assert(s1[0] == steps[0]);
        assert(outs[outs.len() - 1] == outs[outs.len() - 1]);
        let k = outs.len() - 1;
        assert(0 <= k < outs.len());
        let ok = outs[k];
        assert(steps[k + 1].tokens().len() < steps[k].tokens().len());
        assert(steps[outs.len() as int].tokens().len() < steps[outs.len() - 1].tokens().len());
        assert(steps.last() == steps[outs.len() as int]);
    }
}

/// How a repetition of `p` ends with `r` once it has recorded the runs `outs` and reached
/// `last`.
///
/// It stops with success after `max` runs, or when `p` fails recoverably after at least
/// `min` runs. A recoverable failure before `min` runs gives an error tagged with `fail`
/// (appended to the child's error, or replacing it when `replace` holds); a run that does not
/// shorten the input gives an error of kind `stall` (see [`stall_error`]), fatal when
/// `stall_cut` holds;
/// other errors of `p` are passed on.
pub open spec fn repeat_end<I: Input, O, C: Accumulate<O>, E: ParseError<I>, P: Parser<I, O, E>>(
    p: P,
    last: I,
    outs: Seq<O>,
    min: int,
    max: int,
    fail: ErrorKind,
    replace: bool,
    stall: ErrorKind,
    stall_cut: bool,
    stall_at_rest: bool,
    r: IResult<I, C, E>,
) -> bool {
    match r {
        Ok((rest, acc)) => rest == last && acc.holds(outs) && min <= outs.len() && (outs.len()
            == max || exists|e: E| #[trigger] p.parse_rel(last, Err(ErrMode::Backtrack(e)))),
        Err(ErrMode::Backtrack(e)) => outs.len() < max && ((outs.len() < min && exists|e1: E|
            #[trigger] p.parse_rel(last, Err(ErrMode::Backtrack(e1))) && if replace {
                E::from_error_kind_rel(last, fail, e)
            } else {
                e1.append_rel(last, fail, e)
            }) || (!stall_cut && stall_error(p, last, stall, stall_at_rest, e))),
        Err(ErrMode::Cut(e)) => outs.len() < max && (p.parse_rel(last, Err(ErrMode::Cut(e))) || (
        stall_cut && stall_error(p, last, stall, stall_at_rest, e))),
        Err(ErrMode::Incomplete(n)) => outs.len() < max && p.parse_rel(
            last,
            Err(ErrMode::Incomplete(n)),
        ),
    }
}

/// `p` may succeed on `last` without shortening it.
pub open spec fn stalled<I: Input, O, E, P: Parser<I, O, E>>(p: P, last: I) -> bool {
    exists|rest: I, o: O|
        #![trigger p.parse_rel(last, Ok((rest, o)))]
        p.parse_rel(last, Ok((rest, o))) && rest.tokens().len() >= last.tokens().len()
}

/// `e` is the error of kind `stall` for a run of `p` from `last` that did not shorten the
/// input: placed at what that run left when `at_rest` holds, else at `last`.
pub open spec fn stall_error<I: Input, O, E: ParseError<I>, P: Parser<I, O, E>>(
    p: P,
    last: I,
    stall: ErrorKind,
    at_rest: bool,
    e: E,
) -> bool {
    exists|rest: I, o: O|
        #![trigger p.parse_rel(last, Ok((rest, o)))]
        p.parse_rel(last, Ok((rest, o))) && rest.tokens().len() >= last.tokens().len()
            && E::from_error_kind_rel(if at_rest { rest } else { last }, stall, e)
}

/// The results a repetition of `p` on `input` may give; see [`repeat_end`].
pub open spec fn repeat_rel<I: Input, O, C: Accumulate<O>, E: ParseError<I>, P: Parser<I, O, E>>(
    p: P,
    input: I,
    min: int,
    max: int,
    fail: ErrorKind,
    replace: bool,
    stall: ErrorKind,
    stall_cut: bool,
    stall_at_rest: bool,
    r: IResult<I, C, E>,
) -> bool {
    exists|steps: Seq<I>, outs: Seq<O>|
        #[trigger] repeated(p, steps, outs) && steps[0] == input && outs.len() <= max
            && repeat_end(p, steps.last(), outs, min, max, fail, replace, stall, stall_cut, stall_at_rest, r)
}

/// The bound of a repetition as an integer: `None` stands for no bound.
pub open spec fn bound(max: Option<usize>) -> int {
    match max {
        Some(m) => m as int,
        None => usize::MAX + 1,
    }
}

/// Runs `f` repeatedly from `input`, at least `min` and at most `max` times.
fn repeat_core<I, O, C, E, F>(
    f: &mut F,
    input: I,
    min: usize,
    max: Option<usize>,
    fail: ErrorKind,
    replace: bool,
    stall: ErrorKind,
    stall_cut: bool,
    stall_at_rest: bool,
) -> (r: IResult<I, C, E>) where
    I: Input,
    C: Accumulate<O>,
    F: Parser<I, O, E>,
    E: ParseError<I>,

    requires
        forall|i: I| #[trigger] old(f).parse_req(i),
        min <= bound(max),
    ensures
        repeat_rel(*old(f), input, min as int, bound(max), fail, replace, stall, stall_cut, stall_at_rest, r),
        *final(f) == *old(f),
{
    let total = input.token_count();
    let mut acc = C::initial(None);
    let mut cur = input;
    let mut count: usize = 0;
    let ghost mut steps: Seq<I> = seq![input];
    let ghost mut outs: Seq<O> = Seq::empty();
    loop
        invariant
            *f == *old(f),
            forall|i: I| #[trigger] f.parse_req(i),
            total == input.tokens().len(),
            repeated(*f, steps, outs),
            steps[0] == input,
            steps.last() == cur,
            count == outs.len(),
            count <= bound(max),
            min <= bound(max),
            acc.holds(outs),
        decreases cur.tokens().len(),
    {
        proof {
            lemma_repeated_len(*f, steps, outs);
        }
        if let Some(m) = max {
            if count == m {
                assert(repeated(*f, steps, outs));
                return Ok((cur, acc));
            }
        }
        let len = cur.token_count();
        match f.parse_next(cur) {
            Ok((tail, v)) => {
                if tail.token_count() >= len {
                    let e = E::from_error_kind(if stall_at_rest { tail } else { cur }, stall);
                    assert(f.parse_rel(cur, Ok((tail, v))));
                    assert(repeated(*f, steps, outs));
                    if stall_cut {
                        return Err(ErrMode::Cut(e));
                    } else {
                        return Err(ErrMode::Backtrack(e));
                    }
                }
                proof {
                    lemma_repeated_push(*f, steps, outs, tail, v);
                    steps = steps.push(tail);
                    outs = outs.push(v);
                }
                acc.accumulate(v);
                count = count + 1;
                cur = tail;
            },
            Err(ErrMode::Backtrack(e)) => {
                assert(f.parse_rel(cur, Err(ErrMode::Backtrack(e))));
                assert(repeated(*f, steps, outs));
                if count < min {
                    if replace {
                        return Err(ErrMode::Backtrack(E::from_error_kind(cur, fail)));
                    } else {
                        return Err(ErrMode::Backtrack(e.append(cur, fail)));
                    }
                } else {
                    return Ok((cur, acc));
                }
            },
            Err(e) => {
                assert(repeated(*f, steps, outs));
                return Err(e);
            },
        }
    }
}

/// Implementation of the repetitions [`repeat0`], [`repeat1`], [`many_m_n`] and their
/// relatives.
pub struct Repeat<F, I, O, C, E> {
    /// The parser repeated
    pub parser: F,
    /// The fewest runs
    pub min: usize,
    /// The most runs, if bounded
    pub max: Option<usize>,
    /// The kind of the error when fewer than `min` runs succeed
    pub fail: ErrorKind,
    /// Whether that error replaces the child's error rather than being appended to it
    pub replace: bool,
    /// The kind of the error when a run does not consume
    pub stall: ErrorKind,
    /// Whether that error is fatal
    pub stall_cut: bool,
    /// Whether that error is placed at what the run left rather than where it started
    pub stall_at_rest: bool,
    /// Marks the types the combinator works with
    pub phantom: PhantomData<(I, O, C, E)>,
}

impl<F, I, O, C, E> Parser<I, C, E> for Repeat<F, I, O, C, E> where
    I: Input,
    C: Accumulate<O>,
    F: Parser<I, O, E>,
    E: ParseError<I>,
 {
    open spec fn parse_req(&self, input: I) -> bool {
        forall|i: I| #[trigger] self.parser.parse_req(i)
    }

    open spec fn parse_rel(&self, input: I, r: IResult<I, C, E>) -> bool {
        if self.min > bound(self.max) {
            r matches Err(ErrMode::Cut(e)) && E::from_error_kind_rel(input, self.fail, e)
        } else {
            repeat_rel(
                self.parser,
                input,
                self.min as int,
                bound(self.max),
                self.fail,
                self.replace,
                self.stall,
                self.stall_cut,
                self.stall_at_rest,
                r,
            )
        }
    }

    fn parse_next(&mut self, input: I) -> (r: IResult<I, C, E>) {
        if let Some(m) = self.max {
            if self.min > m {
                return Err(ErrMode::Cut(E::from_error_kind(input, self.fail)));
            }
        }
        repeat_core(
            &mut self.parser,
            input,
            self.min,
            self.max,
            self.fail,
            self.replace,
            self.stall,
            self.stall_cut,
            self.stall_at_rest,
        )
    }
}

/// Builds a [`Repeat`].
fn repetition<I, O, C, E, F>(
    f: F,
    min: usize,
    max: Option<usize>,
    fail: ErrorKind,
    replace: bool,
    stall: ErrorKind,
    stall_cut: bool,
    stall_at_rest: bool,
) -> (r: Repeat<F, I, O, C, E>)
    ensures
        r.parser == f,
        r.min == min,
        r.max == max,
        r.fail == fail,
        r.replace == replace,
        r.stall == stall,
        r.stall_cut == stall_cut,
        r.stall_at_rest == stall_at_rest,
{
    Repeat { parser: f, min, max, fail, replace, stall, stall_cut, stall_at_rest, phantom: PhantomData }
}

/// Repeats the embedded parser, gathering the results in an [`Accumulate`].
///
/// Stops on the first recoverable error and returns what was gathered; a run that does not
/// consume gives an [`ErrorKind::Many0`] error.
pub fn many0<I, O, C, E, F>(f: F) -> (r: Repeat<F, I, O, C, E>) where
    I: Input,
    C: Accumulate<O>,
    F: Parser<I, O, E>,
    E: ParseError<I>,

    ensures
        r.parser == f,
        r.min == 0,
        r.max == None::<usize>,
        r.fail == ErrorKind::Many0,
        !r.replace,
        r.stall == ErrorKind::Many0,
        !r.stall_cut,
        !r.stall_at_rest,
{
    repetition(f, 0, None, ErrorKind::Many0, false, ErrorKind::Many0, false, false)
}

/// Runs the embedded parser repeatedly, at least once, gathering the results.
///
/// A recoverable failure of the first run is appended an [`ErrorKind::Many1`] entry.
pub fn many1<I, O, C, E, F>(f: F) -> (r: Repeat<F, I, O, C, E>) where
    I: Input,
    C: Accumulate<O>,
    F: Parser<I, O, E>,
    E: ParseError<I>,

    ensures
        r.parser == f,
        r.min == 1,
        r.max == None::<usize>,
        r.fail == ErrorKind::Many1,
        !r.replace,
        r.stall == ErrorKind::Many1,
        !r.stall_cut,
        !r.stall_at_rest,
{
    repetition(f, 1, None, ErrorKind::Many1, false, ErrorKind::Many1, false, false)
}

/// Repeats the embedded parser `m..=n` times
///
/// `min > max` is a fatal [`ErrorKind::ManyMN`] error.
pub fn many_m_n<I, O, C, E, F>(min: usize, max: usize, f: F) -> (r: Repeat<F, I, O, C, E>) where
    I: Input,
    C: Accumulate<O>,
    F: Parser<I, O, E>,
    E: ParseError<I>,

    ensures
        r.parser == f,
        r.min == min,
        r.max == Some(max),
        r.fail == ErrorKind::ManyMN,
        !r.replace,
        r.stall == ErrorKind::ManyMN,
        !r.stall_cut,
        !r.stall_at_rest,
{
    repetition(f, min, Some(max), ErrorKind::ManyMN, false, ErrorKind::ManyMN, false, false)
}

/// Repeats the embedded parser, counting the results
pub fn many0_count<I, O, E, F>(f: F) -> (r: Repeat<F, I, O, usize, E>) where
    I: Input,
    F: Parser<I, O, E>,
    E: ParseError<I>,

    ensures
        r.parser == f,
        r.min == 0,
        r.max == None::<usize>,
        r.fail == ErrorKind::Many0Count,
        !r.replace,
        r.stall == ErrorKind::Many0Count,
        !r.stall_cut,
        !r.stall_at_rest,
{
    repetition(f, 0, None, ErrorKind::Many0Count, false, ErrorKind::Many0Count, false, false)
}

/// Runs the embedded parser repeatedly, at least once, counting the results
///
/// A recoverable failure of the first run gives an [`ErrorKind::Many1Count`] error at the
/// input.
pub fn many1_count<I, O, E, F>(f: F) -> (r: Repeat<F, I, O, usize, E>) where
    I: Input,
    F: Parser<I, O, E>,
    E: ParseError<I>,

    ensures
        r.parser == f,
        r.min == 1,
        r.max == None::<usize>,
        r.fail == ErrorKind::Many1Count,
        r.replace,
        r.stall == ErrorKind::Many1Count,
        !r.stall_cut,
        r.stall_at_rest,
{
    repetition(f, 1, None, ErrorKind::Many1Count, true, ErrorKind::Many1Count, false, true)
}

/// Repeats the embedded parser, gathering the results; [`many0`] under its later name.
pub fn repeat0<I, O, C, E, F>(f: F) -> (r: Repeat<F, I, O, C, E>) where
    I: Input,
    C: Accumulate<O>,
    F: Parser<I, O, E>,
    E: ParseError<I>,

    ensures
        r.parser == f,
        r.min == 0,
        r.max == None::<usize>,
        r.fail == ErrorKind::Many0,
        !r.replace,
        r.stall == ErrorKind::Many0,
        !r.stall_cut,
        !r.stall_at_rest,
{
    many0(f)
}

/// Runs the embedded parser at least once; [`many1`] under its later name.
pub fn repeat1<I, O, C, E, F>(f: F) -> (r: Repeat<F, I, O, C, E>) where
    I: Input,
    C: Accumulate<O>,
    F: Parser<I, O, E>,
    E: ParseError<I>,

    ensures
        r.parser == f,
        r.min == 1,
        r.max == None::<usize>,
        r.fail == ErrorKind::Many1,
        !r.replace,
        r.stall == ErrorKind::Many1,
        !r.stall_cut,
        !r.stall_at_rest,
{
    many1(f)
}

/// Repeats the embedded parser between `min` and `max` times, or at least `min` times when
/// `max` is `None`.
pub fn repeat<I, O, C, E, F>(min: usize, max: Option<usize>, f: F) -> (r: Repeat<F, I, O, C, E>) where
    I: Input,
    C: Accumulate<O>,
    F: Parser<I, O, E>,
    E: ParseError<I>,

    ensures
        r.parser == f,
        r.min == min,
        r.max == max,
        r.fail == ErrorKind::ManyMN,
        !r.replace,
        r.stall == ErrorKind::ManyMN,
        !r.stall_cut,
        !r.stall_at_rest,
{
    repetition(f, min, max, ErrorKind::ManyMN, false, ErrorKind::ManyMN, false, false)
}


/// `p` and `sep` alternated: the `k`-th element was parsed by `p` from `ins[k]` to `ends[k]`
/// with output `outs[k]`, and each separator was parsed by `sep` from `ends[j]` to `ins[j + 1]`,
/// strictly shorter, with output `seps[j]`.
pub open spec fn separated_run<I: Input, O, O2, E, P: Parser<I, O, E>, S: Parser<I, O2, E>>(
    p: P,
    sep: S,
    ins: Seq<I>,
    ends: Seq<I>,
    outs: Seq<O>,
    seps: Seq<O2>,
) -> bool {
    &&& ins.len() == outs.len()
    &&& ends.len() == outs.len()
    &&& seps.len() + 1 == outs.len() || (outs.len() == 0 && seps.len() == 0)
    &&& forall|k: int|
        #![trigger outs[k]]
        0 <= k < outs.len() ==> p.parse_rel(ins[k], Ok((ends[k], outs[k])))
    &&& forall|j: int|
        #![trigger seps[j]]
        0 <= j < seps.len() ==> sep.parse_rel(ends[j], Ok((ins[j + 1], seps[j])))
            && ins[j + 1].tokens().len() < ends[j].tokens().len()
}

/// Where a run of separated elements starting at `input` stands.
pub open spec fn separated_last<I>(input: I, ends: Seq<I>) -> I {
    if ends.len() == 0 {
        input
    } else {
        ends.last()
    }
}

/// A list of elements parsed by `p` and separated by `sep` may stop with success at `last`:
/// the separator, or the element after it, fails recoverably there.
pub open spec fn separated_stop_ok<I: Input, O, O2, E, P: Parser<I, O, E>, S: Parser<I, O2, E>>(
    p: P,
    sep: S,
    last: I,
) -> bool {
    (exists|e: E| #[trigger] sep.parse_rel(last, Err(ErrMode::Backtrack(e)))) || exists|
        m: I,
        s: O2,
        e: E,
    |
        #![trigger sep.parse_rel(last, Ok((m, s))), p.parse_rel(m, Err(ErrMode::Backtrack(e)))]
        sep.parse_rel(last, Ok((m, s))) && m.tokens().len() < last.tokens().len() && p.parse_rel(
            m,
            Err(ErrMode::Backtrack(e)),
        )
}

/// A list of elements parsed by `p` and separated by `sep` may stop at `last` with the error
/// `e`: a non-recoverable error of the separator or of the element after it, or an
/// [`ErrorKind::SeparatedList`] error after a separator that does not consume or that is
/// followed by an element giving back more input than it was handed.
pub open spec fn separated_stop_err<
    I: Input,
    O,
    O2,
    E: ParseError<I>,
    P: Parser<I, O, E>,
    S: Parser<I, O2, E>,
>(p: P, sep: S, last: I, e: ErrMode<E>) -> bool {
    (sep.parse_rel(last, Err(e)) && !(e is Backtrack)) || (exists|m: I, s: O2|
        #![trigger sep.parse_rel(last, Ok((m, s)))]
        sep.parse_rel(last, Ok((m, s))) && ((m.tokens().len() >= last.tokens().len() && (e matches ErrMode::Backtrack(b)
            && E::from_error_kind_rel(m, ErrorKind::SeparatedList, b))) || (m.tokens().len()
            < last.tokens().len() && p.parse_rel(m, Err(e)) && !(e is Backtrack)) || (
        m.tokens().len() < last.tokens().len() && (e matches ErrMode::Backtrack(b)
            && E::from_error_kind_rel(m, ErrorKind::SeparatedList, b)) && exists|rest2: I, o: O|
            #![trigger p.parse_rel(m, Ok((rest2, o)))]
            p.parse_rel(m, Ok((rest2, o))) && rest2.tokens().len() > m.tokens().len())))
}

/// How a list of at least `min` elements parsed by `p`, separated by `sep`, ends with `r`
/// once the elements `outs` have been parsed, up to `last`.
///
/// The list stops with success when the separator or the element after it fails recoverably
/// (the input is then left before that separator); see [`separated_stop_err`] for the
/// errors.
pub open spec fn separated_end<
    I: Input,
    O,
    O2,
    C: Accumulate<O>,
    E: ParseError<I>,
    P: Parser<I, O, E>,
    S: Parser<I, O2, E>,
>(p: P, sep: S, input: I, last: I, outs: Seq<O>, min: int, r: IResult<I, C, E>) -> bool {
    if outs.len() == 0 {
        match r {
            Ok((rest, acc)) => min == 0 && rest == input && acc.holds(outs) && exists|e: E|
                #[trigger] p.parse_rel(input, Err(ErrMode::Backtrack(e))),
            Err(e) => p.parse_rel(input, Err(e)) && (min > 0 || !(e is Backtrack)),
        }
    } else {
        match r {
            Ok((rest, acc)) => rest == last && acc.holds(outs) && separated_stop_ok(p, sep, last),
            Err(e) => separated_stop_err(p, sep, last, e),
        }
    }
}

/// The results a list of at least `min` elements parsed by `p` and separated by `sep` may
/// give on `input`; see [`separated_end`].
pub open spec fn separated_rel<
    I: Input,
    O,
    O2,
    C: Accumulate<O>,
    E: ParseError<I>,
    P: Parser<I, O, E>,
    S: Parser<I, O2, E>,
>(p: P, sep: S, input: I, min: int, r: IResult<I, C, E>) -> bool {
    exists|ins: Seq<I>, ends: Seq<I>, outs: Seq<O>, seps: Seq<O2>|
        #[trigger] separated_run(p, sep, ins, ends, outs, seps) && (outs.len() > 0 ==> ins[0]
            == input) && separated_end(p, sep, input, separated_last(input, ends), outs, min, r)
}

/// Parses a list of elements separated by separators, at least `min` (0 or 1) of them.
fn separated_core<I, O, O2, C, E, P, S>(p: &mut P, sep: &mut S, input: I, min: usize) -> (r: IResult<I, C, E>) where
    I: Input,
    C: Accumulate<O>,
    P: Parser<I, O, E>,
    S: Parser<I, O2, E>,
    E: ParseError<I>,

    requires
        forall|i: I| #[trigger] old(p).parse_req(i),
        forall|i: I| #[trigger] old(sep).parse_req(i),
    ensures
        separated_rel(*old(p), *old(sep), input, min as int, r),
        *final(p) == *old(p),
        *final(sep) == *old(sep),
{
    let mut acc = C::initial(None);
    let ghost mut ins: Seq<I> = Seq::empty();
    let ghost mut ends: Seq<I> = Seq::empty();
    let ghost mut outs: Seq<O> = Seq::empty();
    let ghost mut seps: Seq<O2> = Seq::empty();
    let mut cur = match p.parse_next(input) {
        Err(ErrMode::Backtrack(e)) => {
            assert(p.parse_rel(input, Err(ErrMode::Backtrack(e))));
            assert(separated_run(*p, *sep, ins, ends, outs, seps));
            if min == 0 {
                return Ok((input, acc));
            } else {
                return Err(ErrMode::Backtrack(e));
            }
        },
        Err(e) => {
            assert(separated_run(*p, *sep, ins, ends, outs, seps));
            return Err(e);
        },
        Ok((i1, o)) => {
            proof {
                ins = seq![input];
                ends = seq![i1];
                outs = seq![o];
                assert(outs[0] == o);
            }
            acc.accumulate(o);
            i1
        },
    };
    assert(separated_run(*p, *sep, ins, ends, outs, seps));
    loop
        invariant
            *p == *old(p),
            *sep == *old(sep),
            forall|i: I| #[trigger] p.parse_req(i),
            forall|i: I| #[trigger] sep.parse_req(i),
            separated_run(*p, *sep, ins, ends, outs, seps),
            outs.len() > 0,
            ins[0] == input,
            ends.last() == cur,
            acc.holds(outs),
        decreases cur.tokens().len(),
    {
        let len = cur.token_count();
        match sep.parse_next(cur) {
            Err(ErrMode::Backtrack(e)) => {
                assert(sep.parse_rel(cur, Err(ErrMode::Backtrack(e))));
                return Ok((cur, acc));
            },
            Err(e) => {
                return Err(e);
            },
            Ok((i1, s)) => {
                assert(sep.parse_rel(cur, Ok((i1, s))));
                if i1.token_count() >= len {
                    return Err(ErrMode::Backtrack(E::from_error_kind(i1, ErrorKind::SeparatedList)));
                }
                match p.parse_next(i1) {
                    Err(ErrMode::Backtrack(e)) => {
                        assert(p.parse_rel(i1, Err(ErrMode::Backtrack(e))));
                        return Ok((cur, acc));
                    },
                    Err(e) => {
                        return Err(e);
                    },
                    Ok((i2, o)) => {
                        if i2.token_count() > i1.token_count() {
                            assert(p.parse_rel(i1, Ok((i2, o))));
                            assert(exists|rest2: I, o2: O|
                                #![trigger p.parse_rel(i1, Ok((rest2, o2)))]
                                p.parse_rel(i1, Ok((rest2, o2))) && rest2.tokens().len()
                                    > i1.tokens().len());
                            return Err(
                                ErrMode::Backtrack(E::from_error_kind(i1, ErrorKind::SeparatedList)),
                            );
                        }
                        proof {
                            let ghost ins2 = ins.push(i1);
                            let ghost ends2 = ends.push(i2);
                            let ghost outs2 = outs.push(o);
                            let ghost seps2 = seps.push(s);
                            assert forall|k: int| #![trigger outs2[k]] 0 <= k < outs2.len() implies p.parse_rel(
                                ins2[k],
                                Ok((ends2[k], outs2[k])),
                            ) by {
                                if k < outs.len() {
                                    assert(outs[k] == outs2[k]);
                                }
                            }
                            assert forall|j: int| #![trigger seps2[j]] 0 <= j < seps2.len() implies sep.parse_rel(
                                ends2[j],
                                Ok((ins2[j + 1], seps2[j])),
                            ) && ins2[j + 1].tokens().len() < ends2[j].tokens().len() by {
                                if j < seps.len() {
                                    assert(seps[j] == seps2[j]);
                                } else {
                                    assert(ends2[j] == cur);
                                }
                            }
                            ins = ins2;
                            ends = ends2;
                            outs = outs2;
                            seps = seps2;
                        }
                        acc.accumulate(o);
                        cur = i2;
                    },
                }
            },
        }
    }
}


/// Implementation of [`separated0`] and [`separated1`]
pub struct Separated<P, S, I, O, O2, C, E> {
    /// The element parser
    pub parser: P,
    /// The separator parser
    pub sep: S,
    /// The fewest elements: 0 or 1
    pub min: usize,
    /// Marks the types the combinator works with
    pub phantom: PhantomData<(I, O, O2, C, E)>,
}

impl<P, S, I, O, O2, C, E> Parser<I, C, E> for Separated<P, S, I, O, O2, C, E> where
    I: Input,
    C: Accumulate<O>,
    P: Parser<I, O, E>,
    S: Parser<I, O2, E>,
    E: ParseError<I>,
 {
    open spec fn parse_req(&self, input: I) -> bool {
        (forall|i: I| #[trigger] self.parser.parse_req(i)) && (forall|i: I| #[trigger] self.sep.parse_req(i))
    }

    open spec fn parse_rel(&self, input: I, r: IResult<I, C, E>) -> bool {
        separated_rel(self.parser, self.sep, input, self.min as int, r)
    }

    fn parse_next(&mut self, input: I) -> (r: IResult<I, C, E>) {
        separated_core(&mut self.parser, &mut self.sep, input, self.min)
    }
}

/// Alternates between two parsers to produce a list of elements, possibly empty.
///
/// The separator must consume; the list ends before a separator that is not followed by an
/// element.
pub fn separated0<I, O, O2, C, E, P, S>(parser: P, sep: S) -> (r: Separated<P, S, I, O, O2, C, E>) where
    I: Input,
    C: Accumulate<O>,
    P: Parser<I, O, E>,
    S: Parser<I, O2, E>,
    E: ParseError<I>,

    ensures
        r.parser == parser,
        r.sep == sep,
        r.min == 0,
{
    Separated { parser, sep, min: 0, phantom: PhantomData }
}

/// Alternates between two parsers to produce a list of at least one element.
pub fn separated1<I, O, O2, C, E, P, S>(parser: P, sep: S) -> (r: Separated<P, S, I, O, O2, C, E>) where
    I: Input,
    C: Accumulate<O>,
    P: Parser<I, O, E>,
    S: Parser<I, O2, E>,
    E: ParseError<I>,

    ensures
        r.parser == parser,
        r.sep == sep,
        r.min == 1,
{
    Separated { parser, sep, min: 1, phantom: PhantomData }
}

/// [`separated0`] with the separator given first.
pub fn separated_list0<I, O, O2, C, E, P, S>(sep: S, parser: P) -> (r: Separated<P, S, I, O, O2, C, E>) where
    I: Input,
    C: Accumulate<O>,
    P: Parser<I, O, E>,
    S: Parser<I, O2, E>,
    E: ParseError<I>,

    ensures
        r.parser == parser,
        r.sep == sep,
        r.min == 0,
{
    separated0(parser, sep)
}

/// [`separated1`] with the separator given first.
pub fn separated_list1<I, O, O2, C, E, P, S>(sep: S, parser: P) -> (r: Separated<P, S, I, O, O2, C, E>) where
    I: Input,
    C: Accumulate<O>,
    P: Parser<I, O, E>,
    S: Parser<I, O2, E>,
    E: ParseError<I>,

    ensures
        r.parser == parser,
        r.sep == sep,
        r.min == 1,
{
    separated1(parser, sep)
}


/// `p` ran `outs.len()` times in a row, the `k`-th run taking `steps[k]` and leaving
/// `steps[k + 1]` with output `outs[k]`.
pub open spec fn chained<I: Input, O, E, P: Parser<I, O, E>>(
    p: P,
    steps: Seq<I>,
    outs: Seq<O>,
) -> bool {
    &&& steps.len() == outs.len() + 1
    &&& forall|k: int|
        #![trigger outs[k]]
        0 <= k < outs.len() ==> p.parse_rel(steps[k], Ok((steps[k + 1], outs[k])))
}

/// The results of running `p` exactly `n` times from `input`: any error of `p` ends the run
/// and is appended an entry of the given kind at `input`.
pub open spec fn count_rel<I: Input, O, C: Accumulate<O>, E: ParseError<I>, P: Parser<I, O, E>>(
    p: P,
    input: I,
    n: int,
    kind: ErrorKind,
    r: IResult<I, C, E>,
) -> bool {
    exists|steps: Seq<I>, outs: Seq<O>|
        #[trigger] chained(p, steps, outs) && steps[0] == input && match r {
            Ok((rest, acc)) => outs.len() == n && rest == steps.last() && acc.holds(outs),
            Err(e) => outs.len() < n && exists|e1: ErrMode<E>|
                #[trigger] p.parse_rel(steps.last(), Err(e1)) && e1.append_rel(input, kind, e),
        }
}

/// Runs `f` exactly `n` times.
fn count_core<I, O, C, E, F>(f: &mut F, input: I, n: usize, kind: ErrorKind) -> (r: IResult<I, C, E>) where
    I: Input,
    C: Accumulate<O>,
    F: Parser<I, O, E>,
    E: ParseError<I>,

    requires
        forall|i: I| #[trigger] old(f).parse_req(i),
    ensures
        count_rel(*old(f), input, n as int, kind, r),
        *final(f) == *old(f),
{
    let mut acc = C::initial(Some(n));
    let mut cur = input;
    let mut k: usize = 0;
    let ghost mut steps: Seq<I> = seq![input];
    let ghost mut outs: Seq<O> = Seq::empty();
    while k < n
        invariant
            *f == *old(f),
            forall|i: I| #[trigger] f.parse_req(i),
            chained(*f, steps, outs),
            steps[0] == input,
            steps.last() == cur,
            k == outs.len(),
            k <= n,
            acc.holds(outs),
        decreases n - k,
    {
        match f.parse_next(cur) {
            Ok((tail, v)) => {
                proof {
                    let s2 = steps.push(tail);
                    let o2 = outs.push(v);
                    assert forall|j: int| #![trigger o2[j]] 0 <= j < o2.len() implies f.parse_rel(
                        s2[j],
                        Ok((s2[j + 1], o2[j])),
                    ) by {
                        if j < outs.len() {
                            assert(outs[j] == o2[j]);
                        }
                    }
                    steps = s2;
                    outs = o2;
                }
                acc.accumulate(v);
                cur = tail;
                k = k + 1;
            },
            Err(e) => {
                let ghost ge = e;
                assert(f.parse_rel(steps.last(), Err(ge)));
                assert(chained(*f, steps, outs));
                return Err(e.append(input, kind));
            },
        }
    }
    assert(chained(*f, steps, outs));
    Ok((cur, acc))
}

/// Implementation of [`count`]
pub struct Count<F, I, O, C, E> {
    /// The parser repeated
    pub parser: F,
    /// How many times it runs
    pub times: usize,
    /// Marks the types the combinator works with
    pub phantom: PhantomData<(I, O, C, E)>,
}

impl<F, I, O, C, E> Parser<I, C, E> for Count<F, I, O, C, E> where
    I: Input,
    C: Accumulate<O>,
    F: Parser<I, O, E>,
    E: ParseError<I>,
 {
    open spec fn parse_req(&self, input: I) -> bool {
        forall|i: I| #[trigger] self.parser.parse_req(i)
    }

    open spec fn parse_rel(&self, input: I, r: IResult<I, C, E>) -> bool {
        count_rel(self.parser, input, self.times as int, ErrorKind::Count, r)
    }

    fn parse_next(&mut self, input: I) -> (r: IResult<I, C, E>) {
        count_core(&mut self.parser, input, self.times, ErrorKind::Count)
    }
}

/// Runs the embedded parser `times` times, gathering the results in an [`Accumulate`]
pub fn count<I, O, C, E, F>(f: F, times: usize) -> (r: Count<F, I, O, C, E>) where
    I: Input,
    C: Accumulate<O>,
    F: Parser<I, O, E>,
    E: ParseError<I>,

    ensures
        r.parser == f,
        r.times == times,
{
    Count { parser: f, times, phantom: PhantomData }
}

/// `f` ran `outs.len()` times from `steps[0]`, each run shortening the input, and before each
/// run `g` failed recoverably with `gerrs[k]`.
pub open spec fn till_run<I: Input, O, P2, E, F: Parser<I, O, E>, G: Parser<I, P2, E>>(
    f: F,
    g: G,
    steps: Seq<I>,
    outs: Seq<O>,
    gerrs: Seq<E>,
) -> bool {
    &&& repeated(f, steps, outs)
    &&& gerrs.len() == outs.len()
    &&& forall|k: int|
        #![trigger gerrs[k]]
        0 <= k < gerrs.len() ==> g.parse_rel(steps[k], Err(ErrMode::Backtrack(gerrs[k])))
}

/// How `repeat_till0(f, g)` ends with `r` once it reached `last` after the runs `outs`.
///
/// It succeeds as soon as `g` does; when `g` fails recoverably and `f` fails too, the error of
/// `f` is appended an [`ErrorKind::ManyTill`] entry; a run of `f` that does not consume gives
/// an [`ErrorKind::ManyTill`] error; other errors of `g` are passed on.
pub open spec fn till_end<I: Input, O, P2, C: Accumulate<O>, E: ParseError<I>, F: Parser<I, O, E>, G: Parser<I, P2, E>>(
    f: F,
    g: G,
    last: I,
    outs: Seq<O>,
    r: IResult<I, (C, P2), E>,
) -> bool {
    match r {
        Ok((rest, (acc, o))) => g.parse_rel(last, Ok((rest, o))) && acc.holds(outs),
        Err(e) => (g.parse_rel(last, Err(e)) && !(e is Backtrack)) || exists|ge: E|
            #![trigger g.parse_rel(last, Err(ErrMode::Backtrack(ge)))]
            g.parse_rel(last, Err(ErrMode::Backtrack(ge))) && ((exists|e1: ErrMode<E>|
                #[trigger] f.parse_rel(last, Err(e1)) && e1.append_rel(last, ErrorKind::ManyTill, e))
                || (stalled(f, last) && (e matches ErrMode::Backtrack(b) && E::from_error_kind_rel(
                last,
                ErrorKind::ManyTill,
                b,
            )))),
    }
}

/// Implementation of [`repeat_till0`]
pub struct RepeatTill<F, G, I, O, P2, C, E> {
    /// The parser repeated
    pub parser: F,
    /// The parser that ends the repetition
    pub till: G,
    /// Marks the types the combinator works with
    pub phantom: PhantomData<(I, O, P2, C, E)>,
}

impl<F, G, I, O, P2, C, E> Parser<I, (C, P2), E> for RepeatTill<F, G, I, O, P2, C, E> where
    I: Input,
    C: Accumulate<O>,
    F: Parser<I, O, E>,
    G: Parser<I, P2, E>,
    E: ParseError<I>,
 {
    open spec fn parse_req(&self, input: I) -> bool {
        (forall|i: I| #[trigger] self.parser.parse_req(i)) && (forall|i: I| #[trigger] self.till.parse_req(i))
    }

    open spec fn parse_rel(&self, input: I, r: IResult<I, (C, P2), E>) -> bool {
        exists|steps: Seq<I>, outs: Seq<O>, gerrs: Seq<E>|
            #[trigger] till_run(self.parser, self.till, steps, outs, gerrs) && steps[0] == input
                && till_end(self.parser, self.till, steps.last(), outs, r)
    }

    fn parse_next(&mut self, input: I) -> (r: IResult<I, (C, P2), E>) {
        let mut acc = C::initial(None);
        let mut cur = input;
        let ghost mut steps: Seq<I> = seq![input];
        let ghost mut outs: Seq<O> = Seq::empty();
        let ghost mut gerrs: Seq<E> = Seq::empty();
        loop
            invariant
                self.parser == old(self).parser,
                self.till == old(self).till,
                forall|i: I| #[trigger] self.parser.parse_req(i),
                forall|i: I| #[trigger] self.till.parse_req(i),
                till_run(self.parser, self.till, steps, outs, gerrs),
                steps[0] == input,
                steps.last() == cur,
                acc.holds(outs),
            decreases cur.tokens().len(),
        {
            let len = cur.token_count();
            match self.till.parse_next(cur) {
                Ok((i1, o)) => {
                    assert(self.till.parse_rel(cur, Ok((i1, o))));
                    return Ok((i1, (acc, o)));
                },
                Err(ErrMode::Backtrack(ge)) => {
                    assert(self.till.parse_rel(cur, Err(ErrMode::Backtrack(ge))));
                    match self.parser.parse_next(cur) {
                        Err(e) => {
                            let ghost g1 = e;
                            assert(self.parser.parse_rel(cur, Err(g1)));
                            return Err(e.append(cur, ErrorKind::ManyTill));
                        },
                        Ok((i1, o)) => {
                            assert(self.parser.parse_rel(cur, Ok((i1, o))));
                            if i1.token_count() >= len {
                                return Err(ErrMode::Backtrack(E::from_error_kind(cur, ErrorKind::ManyTill)));
                            }
                            proof {
                                lemma_repeated_push(self.parser, steps, outs, i1, o);
                                let g2 = gerrs.push(ge);
                                let s2 = steps.push(i1);
                                assert forall|k: int| #![trigger g2[k]] 0 <= k < g2.len() implies self.till.parse_rel(
                                    s2[k],
                                    Err(ErrMode::Backtrack(g2[k])),
                                ) by {
                                    if k < gerrs.len() {
                                        assert(gerrs[k] == g2[k]);
                                    }
                                }
                                steps = s2;
                                outs = outs.push(o);
                                gerrs = g2;
                            }
                            acc.accumulate(o);
                            cur = i1;
                        },
                    }
                },
                Err(e) => {
                    return Err(e);
                },
            }
        }
    }
}

/// Applies the parser `f` until the parser `g` produces a result.
///
/// Returns a tuple of the results of `f` in an [`Accumulate`] and the result of `g`.
pub fn repeat_till0<I, O, P2, C, E, F, G>(f: F, g: G) -> (r: RepeatTill<F, G, I, O, P2, C, E>) where
    I: Input,
    C: Accumulate<O>,
    F: Parser<I, O, E>,
    G: Parser<I, P2, E>,
    E: ParseError<I>,

    ensures
        r.parser == f,
        r.till == g,
{
    RepeatTill { parser: f, till: g, phantom: PhantomData }
}

/// [`repeat_till0`] under its earlier name.
pub fn many_till0<I, O, P2, C, E, F, G>(f: F, g: G) -> (r: RepeatTill<F, G, I, O, P2, C, E>) where
    I: Input,
    C: Accumulate<O>,
    F: Parser<I, O, E>,
    G: Parser<I, P2, E>,
    E: ParseError<I>,

    ensures
        r.parser == f,
        r.till == g,
{
    repeat_till0(f, g)
}

/// [`repeat_till0`] under its earlier name.
pub fn many_till<I, O, P2, C, E, F, G>(f: F, g: G) -> (r: RepeatTill<F, G, I, O, P2, C, E>) where
    I: Input,
    C: Accumulate<O>,
    F: Parser<I, O, E>,
    G: Parser<I, P2, E>,
    E: ParseError<I>,

    ensures
        r.parser == f,
        r.till == g,
{
    repeat_till0(f, g)
}


/// `accs` is a run of the fold `g` over `outs`: `accs[k + 1]` is what `g` returned on
/// `accs[k]` and `outs[k]`.
pub open spec fn folded<O, R, G: Fn(R, O) -> R>(g: G, accs: Seq<R>, outs: Seq<O>) -> bool {
    &&& accs.len() == outs.len() + 1
    &&& forall|k: int|
        #![trigger outs[k]]
        0 <= k < outs.len() ==> call_ensures(g, (accs[k], outs[k]), accs[k + 1])
}

/// How a fold of the runs of `p` ends with `r` once it reached `last` after the runs `outs`,
/// having folded them into `acc`; the stopping rules are those of [`repeat_end`].
pub open spec fn fold_end<I: Input, O, R, E: ParseError<I>, P: Parser<I, O, E>>(
    p: P,
    last: I,
    outs: Seq<O>,
    acc: R,
    min: int,
    max: int,
    fail: ErrorKind,
    replace: bool,
    stall: ErrorKind,
    stall_cut: bool,
    stall_at_rest: bool,
    r: IResult<I, R, E>,
) -> bool {
    match r {
        Ok((rest, res)) => rest == last && res == acc && min <= outs.len() && (outs.len() == max
            || exists|e: E| #[trigger] p.parse_rel(last, Err(ErrMode::Backtrack(e)))),
        Err(ErrMode::Backtrack(e)) => outs.len() < max && ((outs.len() < min && exists|e1: E|
            #[trigger] p.parse_rel(last, Err(ErrMode::Backtrack(e1))) && if replace {
                E::from_error_kind_rel(last, fail, e)
            } else {
                e1.append_rel(last, fail, e)
            }) || (!stall_cut && stall_error(p, last, stall, stall_at_rest, e))),
        Err(ErrMode::Cut(e)) => outs.len() < max && (p.parse_rel(last, Err(ErrMode::Cut(e))) || (
        stall_cut && stall_error(p, last, stall, stall_at_rest, e))),
        Err(ErrMode::Incomplete(n)) => outs.len() < max && p.parse_rel(
            last,
            Err(ErrMode::Incomplete(n)),
        ),
    }
}

/// The results a fold of the runs of `p` from `input` may give, starting from what `init`
/// returns and combining with `g`; see [`fold_end`].
pub open spec fn fold_rel<I: Input, O, R, E: ParseError<I>, P: Parser<I, O, E>, H: Fn() -> R, G: Fn(R, O) -> R>(
    p: P,
    init: H,
    g: G,
    input: I,
    min: int,
    max: int,
    fail: ErrorKind,
    replace: bool,
    stall: ErrorKind,
    stall_cut: bool,
    stall_at_rest: bool,
    r: IResult<I, R, E>,
) -> bool {
    exists|steps: Seq<I>, outs: Seq<O>, accs: Seq<R>|
        #![trigger repeated(p, steps, outs), folded(g, accs, outs)]
        repeated(p, steps, outs) && folded(g, accs, outs) && steps[0] == input && call_ensures(
            init,
            (),
            accs[0],
        ) && outs.len() <= max && fold_end(
            p,
            steps.last(),
            outs,
            accs.last(),
            min,
            max,
            fail,
            replace,
            stall,
            stall_cut,
            stall_at_rest,
            r,
        )
}

/// Folds the runs of `f` from `input`, at least `min` and at most `max` of them.
fn fold_core<I, O, R, E, F, H, G>(
    f: &mut F,
    init: &H,
    g: &G,
    input: I,
    min: usize,
    max: Option<usize>,
    fail: ErrorKind,
    replace: bool,
    stall: ErrorKind,
    stall_cut: bool,
    stall_at_rest: bool,
) -> (r: IResult<I, R, E>) where
    I: Input,
    F: Parser<I, O, E>,
    H: Fn() -> R,
    G: Fn(R, O) -> R,
    E: ParseError<I>,

    requires
        forall|i: I| #[trigger] old(f).parse_req(i),
        call_requires(*init, ()),
        forall|a: R, o: O| #[trigger] call_requires(*g, (a, o)),
        min <= bound(max),
    ensures
        fold_rel(*old(f), *init, *g, input, min as int, bound(max), fail, replace, stall, stall_cut, stall_at_rest, r),
        *final(f) == *old(f),
{
    let total = input.token_count();
    let mut acc = init();
    let mut cur = input;
    let mut count: usize = 0;
    let ghost mut steps: Seq<I> = seq![input];
    let ghost mut outs: Seq<O> = Seq::empty();
    let ghost mut accs: Seq<R> = seq![acc];
    loop
        invariant
            *f == *old(f),
            forall|i: I| #[trigger] f.parse_req(i),
            forall|a: R, o: O| #[trigger] call_requires(*g, (a, o)),
            total == input.tokens().len(),
            repeated(*f, steps, outs),
            folded(*g, accs, outs),
            call_ensures(*init, (), accs[0]),
            steps[0] == input,
            steps.last() == cur,
            accs.last() == acc,
            count == outs.len(),
            count <= bound(max),
            min <= bound(max),
        decreases cur.tokens().len(),
    {
        proof {
            lemma_repeated_len(*f, steps, outs);
        }
        if let Some(m) = max {
            if count == m {
                assert(repeated(*f, steps, outs));
                assert(folded(*g, accs, outs));
                return Ok((cur, acc));
            }
        }
        let len = cur.token_count();
        match f.parse_next(cur) {
            Ok((tail, v)) => {
                if tail.token_count() >= len {
                    let e = E::from_error_kind(if stall_at_rest { tail } else { cur }, stall);
                    assert(f.parse_rel(cur, Ok((tail, v))));
                    assert(repeated(*f, steps, outs));
                    assert(folded(*g, accs, outs));
                    if stall_cut {
                        return Err(ErrMode::Cut(e));
                    } else {
                        return Err(ErrMode::Backtrack(e));
                    }
                }
                let ghost gv = v;
                let ghost gacc = acc;
                acc = g(acc, v);
                proof {
                    lemma_repeated_push(*f, steps, outs, tail, gv);
                    let a2 = accs.push(acc);
                    let o2 = outs.push(gv);
                    assert forall|k: int| #![trigger o2[k]] 0 <= k < o2.len() implies call_ensures(
                        *g,
                        (a2[k], o2[k]),
                        a2[k + 1],
                    ) by {
                        if k < outs.len() {
                            assert(outs[k] == o2[k]);
                        }
                    }
                    steps = steps.push(tail);
                    outs = o2;
                    accs = a2;
                }
                count = count + 1;
                cur = tail;
            },
            Err(ErrMode::Backtrack(e)) => {
                assert(f.parse_rel(cur, Err(ErrMode::Backtrack(e))));
                assert(repeated(*f, steps, outs));
                assert(folded(*g, accs, outs));
                if count < min {
                    if replace {
                        return Err(ErrMode::Backtrack(E::from_error_kind(cur, fail)));
                    } else {
                        return Err(ErrMode::Backtrack(e.append(cur, fail)));
                    }
                } else {
                    return Ok((cur, acc));
                }
            },
            Err(e) => {
                assert(repeated(*f, steps, outs));
                assert(folded(*g, accs, outs));
                return Err(e);
            },
        }
    }
}

/// Implementation of [`fold_many0`], [`fold_many1`], [`fold_many_m_n`] and their relatives
pub struct Fold<F, H, G, I, O, R, E> {
    /// The parser repeated
    pub parser: F,
    /// Gives the initial value of the fold
    pub init: H,
    /// Combines the value so far with an output of the parser
    pub g: G,
    /// The fewest runs
    pub min: usize,
    /// The most runs, if bounded
    pub max: Option<usize>,
    /// The kind of the error when fewer than `min` runs succeed
    pub fail: ErrorKind,
    /// Whether that error replaces the child's error rather than being appended to it
    pub replace: bool,
    /// The kind of the error when a run does not consume
    pub stall: ErrorKind,
    /// Whether that error is fatal
    pub stall_cut: bool,
    /// Whether that error is placed at what the run left rather than where it started
    pub stall_at_rest: bool,
    /// Marks the types the combinator works with
    pub phantom: PhantomData<(I, O, R, E)>,
}

impl<F, H, G, I, O, R, E> Parser<I, R, E> for Fold<F, H, G, I, O, R, E> where
    I: Input,
    F: Parser<I, O, E>,
    H: Fn() -> R,
    G: Fn(R, O) -> R,
    E: ParseError<I>,
 {
    open spec fn parse_req(&self, input: I) -> bool {
        &&& forall|i: I| #[trigger] self.parser.parse_req(i)
        &&& call_requires(self.init, ())
        &&& forall|a: R, o: O| #[trigger] call_requires(self.g, (a, o))
    }

    open spec fn parse_rel(&self, input: I, r: IResult<I, R, E>) -> bool {
        if self.min > bound(self.max) {
            r matches Err(ErrMode::Cut(e)) && E::from_error_kind_rel(input, self.fail, e)
        } else {
            fold_rel(
                self.parser,
                self.init,
                self.g,
                input,
                self.min as int,
                bound(self.max),
                self.fail,
                self.replace,
                self.stall,
                self.stall_cut,
                self.stall_at_rest,
                r,
            )
        }
    }

    fn parse_next(&mut self, input: I) -> (r: IResult<I, R, E>) {
        if let Some(m) = self.max {
            if self.min > m {
                return Err(ErrMode::Cut(E::from_error_kind(input, self.fail)));
            }
        }
        fold_core(
            &mut self.parser,
            &self.init,
            &self.g,
            input,
            self.min,
            self.max,
            self.fail,
            self.replace,
            self.stall,
            self.stall_cut,
            self.stall_at_rest,
        )
    }
}

/// Repeats the embedded parser, calling `g` to gather the results, starting from `init()`.
pub fn fold_many0<I, O, R, E, F, H, G>(f: F, init: H, g: G) -> (r: Fold<F, H, G, I, O, R, E>) where
    I: Input,
    F: Parser<I, O, E>,
    H: Fn() -> R,
    G: Fn(R, O) -> R,
    E: ParseError<I>,

    ensures
        r.parser == f,
        r.init == init,
        r.g == g,
        r.min == 0,
        r.max == None::<usize>,
        r.fail == ErrorKind::Many0,
        !r.replace,
        r.stall == ErrorKind::Many0,
        !r.stall_cut,
        !r.stall_at_rest,
{
    Fold {
        parser: f,
        init,
        g,
        min: 0,
        max: None,
        fail: ErrorKind::Many0,
        replace: false,
        stall: ErrorKind::Many0,
        stall_cut: false,
        stall_at_rest: false,
        phantom: PhantomData,
    }
}

/// Repeats the embedded parser at least once, calling `g` to gather the results.
///
/// A recoverable failure of the first run gives an [`ErrorKind::Many1`] error at the input; a
/// run that does not consume gives a fatal one.
pub fn fold_many1<I, O, R, E, F, H, G>(f: F, init: H, g: G) -> (r: Fold<F, H, G, I, O, R, E>) where
    I: Input,
    F: Parser<I, O, E>,
    H: Fn() -> R,
    G: Fn(R, O) -> R,
    E: ParseError<I>,

    ensures
        r.parser == f,
        r.init == init,
        r.g == g,
        r.min == 1,
        r.max == None::<usize>,
        r.fail == ErrorKind::Many1,
        r.replace,
        r.stall == ErrorKind::Many1,
        r.stall_cut,
        r.stall_at_rest,
{
    Fold {
        parser: f,
        init,
        g,
        min: 1,
        max: None,
        fail: ErrorKind::Many1,
        replace: true,
        stall: ErrorKind::Many1,
        stall_cut: true,
        stall_at_rest: true,
        phantom: PhantomData,
    }
}

/// Repeats the embedded parser `m..=n` times, calling `g` to gather the results.
pub fn fold_many_m_n<I, O, R, E, F, H, G>(min: usize, max: usize, f: F, init: H, g: G) -> (r: Fold<
    F,
    H,
    G,
    I,
    O,
    R,
    E,
>) where I: Input, F: Parser<I, O, E>, H: Fn() -> R, G: Fn(R, O) -> R, E: ParseError<I>
    ensures
        r.parser == f,
        r.init == init,
        r.g == g,
        r.min == min,
        r.max == Some(max),
        r.fail == ErrorKind::ManyMN,
        !r.replace,
        r.stall == ErrorKind::ManyMN,
        !r.stall_cut,
        r.stall_at_rest,
{
    Fold {
        parser: f,
        init,
        g,
        min,
        max: Some(max),
        fail: ErrorKind::ManyMN,
        replace: false,
        stall: ErrorKind::ManyMN,
        stall_cut: false,
        stall_at_rest: true,
        phantom: PhantomData,
    }
}

/// [`fold_many0`] under its later name.
pub fn fold_repeat0<I, O, R, E, F, H, G>(f: F, init: H, g: G) -> (r: Fold<F, H, G, I, O, R, E>) where
    I: Input,
    F: Parser<I, O, E>,
    H: Fn() -> R,
    G: Fn(R, O) -> R,
    E: ParseError<I>,

    ensures
        r.parser == f,
        r.init == init,
        r.g == g,
        r.min == 0,
        r.max == None::<usize>,
        r.fail == ErrorKind::Many0,
        !r.replace,
        r.stall == ErrorKind::Many0,
        !r.stall_cut,
        !r.stall_at_rest,
{
    fold_many0(f, init, g)
}

/// [`fold_many1`] under its later name.
pub fn fold_repeat1<I, O, R, E, F, H, G>(f: F, init: H, g: G) -> (r: Fold<F, H, G, I, O, R, E>) where
    I: Input,
    F: Parser<I, O, E>,
    H: Fn() -> R,
    G: Fn(R, O) -> R,
    E: ParseError<I>,

    ensures
        r.parser == f,
        r.init == init,
        r.g == g,
        r.min == 1,
        r.max == None::<usize>,
        r.fail == ErrorKind::Many1,
        r.replace,
        r.stall == ErrorKind::Many1,
        r.stall_cut,
        r.stall_at_rest,
{
    fold_many1(f, init, g)
}

/// Folds between `min` and `max` runs of the embedded parser, or at least `min` runs when
/// `max` is `None`.
pub fn fold_repeat<I, O, R, E, F, H, G>(min: usize, max: Option<usize>, f: F, init: H, g: G) -> (r: Fold<
    F,
    H,
    G,
    I,
    O,
    R,
    E,
>) where I: Input, F: Parser<I, O, E>, H: Fn() -> R, G: Fn(R, O) -> R, E: ParseError<I>
    ensures
        r.parser == f,
        r.init == init,
        r.g == g,
        r.min == min,
        r.max == max,
        r.fail == ErrorKind::ManyMN,
        !r.replace,
        r.stall == ErrorKind::ManyMN,
        !r.stall_cut,
        !r.stall_at_rest,
{
    Fold {
        parser: f,
        init,
        g,
        min,
        max,
        fail: ErrorKind::ManyMN,
        replace: false,
        stall: ErrorKind::ManyMN,
        stall_cut: false,
        stall_at_rest: false,
        phantom: PhantomData,
    }
}


/// `accs` folds the elements `outs` from the left with `op`, each step taking the value so
/// far, the separator output and the next element.
pub open spec fn folded_left<O, O2, Op: Fn(O, O2, O) -> O>(
    op: Op,
    accs: Seq<O>,
    outs: Seq<O>,
    seps: Seq<O2>,
) -> bool {
    &&& accs.len() == outs.len()
    &&& outs.len() > 0
    &&& seps.len() + 1 == outs.len()
    &&& accs[0] == outs[0]
    &&& forall|j: int|
        #![trigger seps[j]]
        0 <= j < seps.len() ==> call_ensures(op, (accs[j], seps[j], outs[j + 1]), accs[j + 1])
}

/// Implementation of [`separated_foldl1`]
pub struct SeparatedFoldl1<P, S, Op, I, O, O2, E> {
    /// The element parser
    pub parser: P,
    /// The separator parser
    pub sep: S,
    /// Combines the value so far, a separator output and the next element
    pub op: Op,
    /// Marks the types the combinator works with
    pub phantom: PhantomData<(I, O, O2, E)>,
}

impl<P, S, Op, I, O, O2, E> Parser<I, O, E> for SeparatedFoldl1<P, S, Op, I, O, O2, E> where
    I: Input,
    P: Parser<I, O, E>,
    S: Parser<I, O2, E>,
    Op: Fn(O, O2, O) -> O,
    E: ParseError<I>,
 {
    open spec fn parse_req(&self, input: I) -> bool {
        &&& forall|i: I| #[trigger] self.parser.parse_req(i)
        &&& forall|i: I| #[trigger] self.sep.parse_req(i)
        &&& forall|a: O, s: O2, b: O| #[trigger] call_requires(self.op, (a, s, b))
    }

    open spec fn parse_rel(&self, input: I, r: IResult<I, O, E>) -> bool {
        match r {
            Ok((rest, v)) => exists|ins: Seq<I>, ends: Seq<I>, outs: Seq<O>, seps: Seq<O2>, accs: Seq<O>|
                #![trigger separated_run(self.parser, self.sep, ins, ends, outs, seps), folded_left(self.op, accs, outs, seps)]
                separated_run(self.parser, self.sep, ins, ends, outs, seps) && folded_left(
                    self.op,
                    accs,
                    outs,
                    seps,
                ) && ins[0] == input && rest == ends.last() && v == accs.last()
                    && separated_stop_ok(self.parser, self.sep, ends.last()),
            Err(e) => self.parser.parse_rel(input, Err(e)) || exists|
                ins: Seq<I>,
                ends: Seq<I>,
                outs: Seq<O>,
                seps: Seq<O2>,
            |
                #![trigger separated_run(self.parser, self.sep, ins, ends, outs, seps)]
                separated_run(self.parser, self.sep, ins, ends, outs, seps) && outs.len() > 0
                    && ins[0] == input && separated_stop_err(self.parser, self.sep, ends.last(), e),
        }
    }

    fn parse_next(&mut self, input: I) -> (r: IResult<I, O, E>) {
        let (mut cur, mut ol) = match self.parser.parse_next(input) {
            Ok(x) => x,
            Err(e) => {
                return Err(e);
            },
        };
        let ghost mut ins: Seq<I> = seq![input];
        let ghost mut ends: Seq<I> = seq![cur];
        let ghost mut outs: Seq<O> = seq![ol];
        let ghost mut seps: Seq<O2> = Seq::empty();
        let ghost mut accs: Seq<O> = seq![ol];
        assert(outs[0] == ol);
        assert(separated_run(self.parser, self.sep, ins, ends, outs, seps));
        loop
            invariant
                self.parser == old(self).parser,
                self.sep == old(self).sep,
                self.op == old(self).op,
                forall|i: I| #[trigger] self.parser.parse_req(i),
                forall|i: I| #[trigger] self.sep.parse_req(i),
                forall|a: O, s: O2, b: O| #[trigger] call_requires(self.op, (a, s, b)),
                separated_run(self.parser, self.sep, ins, ends, outs, seps),
                folded_left(self.op, accs, outs, seps),
                ins[0] == input,
                ends.last() == cur,
                accs.last() == ol,
            decreases cur.tokens().len(),
        {
            let len = cur.token_count();
            match self.sep.parse_next(cur) {
                Err(ErrMode::Backtrack(e)) => {
                    assert(self.sep.parse_rel(cur, Err(ErrMode::Backtrack(e))));
                    return Ok((cur, ol));
                },
                Err(e) => {
                    return Err(e);
                },
                Ok((i1, sv)) => {
                    assert(self.sep.parse_rel(cur, Ok((i1, sv))));
                    if i1.token_count() >= len {
                        return Err(
                            ErrMode::Backtrack(E::from_error_kind(i1, ErrorKind::SeparatedList)),
                        );
                    }
                    match self.parser.parse_next(i1) {
                        Err(ErrMode::Backtrack(e)) => {
                            assert(self.parser.parse_rel(i1, Err(ErrMode::Backtrack(e))));
                            return Ok((cur, ol));
                        },
                        Err(e) => {
                            return Err(e);
                        },
                        Ok((i2, or)) => {
                            if i2.token_count() > i1.token_count() {
                                assert(self.parser.parse_rel(i1, Ok((i2, or))));
                                assert(exists|rest2: I, o2: O|
                                    #![trigger self.parser.parse_rel(i1, Ok((rest2, o2)))]
                                    self.parser.parse_rel(i1, Ok((rest2, o2)))
                                        && rest2.tokens().len() > i1.tokens().len());
                                return Err(
                                    ErrMode::Backtrack(
                                        E::from_error_kind(i1, ErrorKind::SeparatedList),
                                    ),
                                );
                            }
                            let ghost gol = ol;
                            let ghost gor = or;
                            let ghost gsv = sv;
                            ol = (self.op)(ol, sv, or);
                            proof {
                                let ins2 = ins.push(i1);
                                let ends2 = ends.push(i2);
                                let outs2 = outs.push(gor);
                                let seps2 = seps.push(gsv);
                                let accs2 = accs.push(ol);
                                assert forall|k: int| #![trigger outs2[k]] 0 <= k < outs2.len() implies self.parser.parse_rel(
                                    ins2[k],
                                    Ok((ends2[k], outs2[k])),
                                ) by {
                                    if k < outs.len() {
                                        assert(outs[k] == outs2[k]);
                                    }
                                }
                                assert forall|j: int| #![trigger seps2[j]] 0 <= j < seps2.len() implies self.sep.parse_rel(
                                    ends2[j],
                                    Ok((ins2[j + 1], seps2[j])),
                                ) && ins2[j + 1].tokens().len() < ends2[j].tokens().len() by {
                                    if j < seps.len() {
                                        assert(seps[j] == seps2[j]);
                                    } else {
                                        assert(ends2[j] == cur);
                                    }
                                }
                                assert forall|j: int| #![trigger seps2[j]] 0 <= j < seps2.len() implies call_ensures(
                                    self.op,
                                    (accs2[j], seps2[j], outs2[j + 1]),
                                    accs2[j + 1],
                                ) by {
                                    if j < seps.len() {
                                        assert(seps[j] == seps2[j]);
                                    }
                                }
                                ins = ins2;
                                ends = ends2;
                                outs = outs2;
                                seps = seps2;
                                accs = accs2;
                            }
                            cur = i2;
                        },
                    }
                },
            }
        }
    }
}

/// Alternates between two parsers, merging the results (left associative)
///
/// The first element must parse; a list stops as [`separated1`] does.
pub fn separated_foldl1<I, O, O2, E, P, S, Op>(parser: P, sep: S, op: Op) -> (r: SeparatedFoldl1<
    P,
    S,
    Op,
    I,
    O,
    O2,
    E,
>) where I: Input, P: Parser<I, O, E>, S: Parser<I, O2, E>, Op: Fn(O, O2, O) -> O, E: ParseError<I>
    ensures
        r.parser == parser,
        r.sep == sep,
        r.op == op,
{
    SeparatedFoldl1 { parser, sep, op, phantom: PhantomData }
}


/// The `k`-th element of a list made of `first` then the elements of `pairs`.
pub open spec fn element<O, O2>(first: O, pairs: Seq<(O2, O)>, k: int) -> O {
    if k == 0 {
        first
    } else {
        pairs[k - 1].1
    }
}

/// `rs` folds, from the right with `op`, the elements from the `start`-th on of the list made
/// of `first` then `pairs`: `rs[j]` is the value for the list's tail from element
/// `start + j`, and the last value is the last element.
pub open spec fn right_chain<O, O2, Op: Fn(O, O2, O) -> O>(
    op: Op,
    first: O,
    pairs: Seq<(O2, O)>,
    start: int,
    rs: Seq<O>,
) -> bool {
    &&& rs.len() == pairs.len() + 1 - start
    &&& rs.len() > 0
    &&& rs.last() == element(first, pairs, pairs.len() as int)
    &&& forall|j: int|
        #![trigger rs[j]]
        0 <= j < rs.len() - 1 ==> call_ensures(
            op,
            (element(first, pairs, start + j), pairs[start + j].0, rs[j + 1]),
            rs[j],
        )
}

/// Implementation of [`separated_foldr1`]
pub struct SeparatedFoldr1<P, S, Op, I, O, O2, E> {
    /// The separator parser and the element parser
    pub parts: (S, P),
    /// Combines an element, a separator output and the value of the rest of the list
    pub op: Op,
    /// Marks the types the combinator works with
    pub phantom: PhantomData<(I, O, O2, E)>,
}

impl<P, S, Op, I, O, O2, E> Parser<I, O, E> for SeparatedFoldr1<P, S, Op, I, O, O2, E> where
    I: Input,
    P: Parser<I, O, E>,
    S: Parser<I, O2, E>,
    Op: Fn(O, O2, O) -> O,
    E: ParseError<I>,
 {
    open spec fn parse_req(&self, input: I) -> bool {
        &&& forall|i: I| #[trigger] self.parts.1.parse_req(i)
        &&& forall|i: I| #[trigger] self.parts.0.parse_req(i)
        &&& forall|a: O, s: O2, b: O| #[trigger] call_requires(self.op, (a, s, b))
    }

    open spec fn parse_rel(&self, input: I, r: IResult<I, O, E>) -> bool {
        match r {
            Ok((rest, v)) => exists|r1: I, o0: O, pv: Vec<(O2, O)>, vs: Seq<O>|
                #![trigger self.parts.1.parse_rel(input, Ok((r1, o0))), right_chain(self.op, o0, pv@, 0, vs)]
                self.parts.1.parse_rel(input, Ok((r1, o0))) && repeat_rel(
                    self.parts,
                    r1,
                    0,
                    bound(None),
                    ErrorKind::Many0,
                    false,
                    ErrorKind::Many0,
                    false,
                    false,
                    Ok::<(I, Vec<(O2, O)>), ErrMode<E>>((rest, pv)),
                ) && right_chain(self.op, o0, pv@, 0, vs) && v == vs[0],
            Err(e) => self.parts.1.parse_rel(input, Err(e)) || exists|r1: I, o0: O|
                #![trigger self.parts.1.parse_rel(input, Ok((r1, o0)))]
                self.parts.1.parse_rel(input, Ok((r1, o0))) && repeat_rel(
                    self.parts,
                    r1,
                    0,
                    bound(None),
                    ErrorKind::Many0,
                    false,
                    ErrorKind::Many0,
                    false,
                    false,
                    Err::<(I, Vec<(O2, O)>), ErrMode<E>>(e),
                ),
        }
    }

    fn parse_next(&mut self, input: I) -> (r: IResult<I, O, E>) {
        let (i1, o0) = match self.parts.1.parse_next(input) {
            Ok(x) => x,
            Err(e) => {
                return Err(e);
            },
        };
        assert(self.parts.1.parse_rel(input, Ok((i1, o0))));
        let ghost go0 = o0;
        let res: IResult<I, Vec<(O2, O)>, E> = repeat_core(
            &mut self.parts,
            i1,
            0,
            None,
            ErrorKind::Many0,
            false,
            ErrorKind::Many0,
            false,
            false,
        );
        let (i2, pairs) = match res {
            Ok(x) => x,
            Err(e) => {
                return Err(e);
            },
        };
        let ghost full = pairs@;
        let ghost gpv = pairs;
        let mut pairs = pairs;
        if pairs.len() == 0 {
            assert(right_chain(self.op, go0, full, 0, seq![o0]));
            return Ok((i2, o0));
        }
        let (mut s_last, mut acc) = pairs.pop().unwrap();
        let ghost mut rs: Seq<O> = seq![acc];
        assert(right_chain(self.op, go0, full, full.len() as int, rs));
        while pairs.len() > 0
            invariant
                self.op == old(self).op,
                forall|a: O, s: O2, b: O| #[trigger] call_requires(self.op, (a, s, b)),
                full.len() > 0,
                pairs.len() < full.len(),
                pairs@ == full.take(pairs.len() as int),
                right_chain(self.op, go0, full, pairs.len() + 1, rs),
                rs[0] == acc,
                s_last == full[pairs.len() as int].0,
            decreases pairs.len(),
        {
            let ghost m = pairs.len() as int;
            let (s, o) = pairs.pop().unwrap();
            assert(full[m - 1] == (s, o));
            let ghost gacc = acc;
            let ghost gs_last = s_last;
            acc = (self.op)(o, s_last, acc);
            proof {
                let rs2 = seq![acc] + rs;
                assert(element(go0, full, m) == o);
                assert forall|j: int| #![trigger rs2[j]] 0 <= j < rs2.len() - 1 implies call_ensures(
                    self.op,
                    (element(go0, full, m + j), full[m + j].0, rs2[j + 1]),
                    rs2[j],
                ) by {
                    if j > 0 {
                        assert(rs2[j] == rs[j - 1]);
                        assert(rs2[j + 1] == rs[j]);
                    }
                }
                assert(rs2.last() == rs.last());
                rs = rs2;
            }
            s_last = s;
        }
        let ghost gacc = acc;
        let v = (self.op)(o0, s_last, acc);
        proof {
            let vs = seq![v] + rs;
            assert forall|j: int| #![trigger vs[j]] 0 <= j < vs.len() - 1 implies call_ensures(
                self.op,
                (element(go0, full, j), full[j].0, vs[j + 1]),
                vs[j],
            ) by {
                if j > 0 {
                    assert(vs[j] == rs[j - 1]);
                    assert(vs[j + 1] == rs[j]);
                }
            }
            assert(vs.last() == rs.last());
            assert(right_chain(self.op, go0, gpv@, 0, vs));
        }
        Ok((i2, v))
    }
}

/// Alternates between two parsers, merging the results (right associative)
pub fn separated_foldr1<I, O, O2, E, P, S, Op>(parser: P, sep: S, op: Op) -> (r: SeparatedFoldr1<
    P,
    S,
    Op,
    I,
    O,
    O2,
    E,
>) where I: Input, P: Parser<I, O, E>, S: Parser<I, O2, E>, Op: Fn(O, O2, O) -> O, E: ParseError<I>
    ensures
        r.parts == (sep, parser),
        r.op == op,
{
    SeparatedFoldr1 { parts: (sep, parser), op, phantom: PhantomData }
}


/// Implementation of [`length_data`]
pub struct LengthData<F, I, N, E> {
    /// The parser of the length
    pub parser: F,
    /// Marks the types the combinator works with
    pub phantom: PhantomData<(I, N, E)>,
}

impl<F, I, N, E> Parser<I, I::Slice, E> for LengthData<F, I, N, E> where
    I: Input,
    N: ToUsize,
    F: Parser<I, N, E>,
    E: ParseError<I>,
 {
    open spec fn parse_req(&self, input: I) -> bool {
        self.parser.parse_req(input)
    }

    open spec fn parse_rel(&self, input: I, r: IResult<I, I::Slice, E>) -> bool {
        (self.parser.parse_rel(input, Err(r->Err_0)) && r is Err) || exists|r1: I, n: N|
            #![trigger self.parser.parse_rel(input, Ok((r1, n)))]
            self.parser.parse_rel(input, Ok((r1, n))) && take_rel(r1, n.spec_value(), r)
    }

    fn parse_next(&mut self, input: I) -> (r: IResult<I, I::Slice, E>) {
        let (i1, n) = match self.parser.parse_next(input) {
            Ok(x) => x,
            Err(e) => {
                return Err(e);
            },
        };
        assert(self.parser.parse_rel(input, Ok((i1, n))));
        take_internal(i1, n.to_usize())
    }
}

/// Gets a number from the parser and returns a subslice of the input of that size.
pub fn length_data<I, N, E, F>(f: F) -> (r: LengthData<F, I, N, E>) where
    I: Input,
    N: ToUsize,
    F: Parser<I, N, E>,
    E: ParseError<I>,

    ensures
        r.parser == f,
{
    LengthData { parser: f, phantom: PhantomData }
}

/// Implementation of [`length_value`]
pub struct LengthValue<F, G, I, N, O, E> {
    /// Takes the data whose length is parsed first
    pub data: LengthData<F, I, N, E>,
    /// The parser applied to that data, as complete input
    pub value: CompleteErr<G>,
    /// Marks the types the combinator works with
    pub phantom: PhantomData<O>,
}

impl<F, G, I, N, O, E> Parser<I, O, E> for LengthValue<F, G, I, N, O, E> where
    I: UpdateSlice,
    N: ToUsize,
    F: Parser<I, N, E>,
    G: Parser<I, O, E>,
    E: ParseError<I>,
 {
    open spec fn parse_req(&self, input: I) -> bool {
        self.data.parse_req(input) && forall|i: I| #[trigger] self.value.parse_req(i)
    }

    open spec fn parse_rel(&self, input: I, r: IResult<I, O, E>) -> bool {
        match r {
            Ok((rest, o)) => exists|r1: I, s: I::Slice, d: I, rest2: I, o2: O|
                #![trigger self.data.parse_rel(input, Ok((r1, s))), self.value.parse_rel(d, Ok((rest2, o2)))]
                self.data.parse_rel(input, Ok((r1, s))) && d.tokens() == I::slice_tokens(s)
                    && d.partial() == r1.partial() && self.value.parse_rel(d, Ok((rest2, o2)))
                    && o2 == o && r1 == rest,
            Err(e) => self.data.parse_rel(input, Err(e)) || exists|r1: I, s: I::Slice, d: I|
                #![trigger self.data.parse_rel(input, Ok((r1, s))), self.value.parse_rel(d, Err(e))]
                self.data.parse_rel(input, Ok((r1, s))) && d.tokens() == I::slice_tokens(s)
                    && d.partial() == r1.partial() && self.value.parse_rel(d, Err(e)),
        }
    }

    fn parse_next(&mut self, input: I) -> (r: IResult<I, O, E>) {
        let (i1, s) = match self.data.parse_next(input) {
            Ok(x) => x,
            Err(e) => {
                return Err(e);
            },
        };
        assert(self.data.parse_rel(input, Ok((i1, s))));
        let d = i1.update_slice(s);
        match self.value.parse_next(d) {
            Ok((rest2, o)) => {
                assert(self.value.parse_rel(d, Ok((rest2, o))));
                Ok((i1, o))
            },
            Err(e) => {
                assert(self.value.parse_rel(d, Err(e)));
                Err(e)
            },
        }
    }
}

/// Gets a number from the first parser, takes a subslice of the input of that size, then
/// applies the second parser on that subslice, as complete input.
pub fn length_value<I, N, O, E, F, G>(f: F, g: G) -> (r: LengthValue<F, G, I, N, O, E>) where
    I: UpdateSlice,
    N: ToUsize,
    F: Parser<I, N, E>,
    G: Parser<I, O, E>,
    E: ParseError<I>,

    ensures
        r.data.parser == f,
        r.value.f == g,
{
    LengthValue { data: length_data(f), value: CompleteErr::new(g), phantom: PhantomData }
}

/// Implementation of [`length_count`]
pub struct LengthCount<F, G, I, N, O, C, E> {
    /// The parser of the count
    pub count: F,
    /// The parser repeated that many times
    pub parser: G,
    /// Marks the types the combinator works with
    pub phantom: PhantomData<(I, N, O, C, E)>,
}

impl<F, G, I, N, O, C, E> Parser<I, C, E> for LengthCount<F, G, I, N, O, C, E> where
    I: Input,
    N: ToUsize,
    C: Accumulate<O>,
    F: Parser<I, N, E>,
    G: Parser<I, O, E>,
    E: ParseError<I>,
 {
    open spec fn parse_req(&self, input: I) -> bool {
        self.count.parse_req(input) && forall|i: I| #[trigger] self.parser.parse_req(i)
    }

    open spec fn parse_rel(&self, input: I, r: IResult<I, C, E>) -> bool {
        (self.count.parse_rel(input, Err(r->Err_0)) && r is Err) || exists|r1: I, n: N|
            #![trigger self.count.parse_rel(input, Ok((r1, n)))]
            self.count.parse_rel(input, Ok((r1, n))) && count_rel(
                self.parser,
                r1,
                n.spec_value(),
                ErrorKind::Count,
                r,
            )
    }

    fn parse_next(&mut self, input: I) -> (r: IResult<I, C, E>) {
        let (i1, n) = match self.count.parse_next(input) {
            Ok(x) => x,
            Err(e) => {
                return Err(e);
            },
        };
        assert(self.count.parse_rel(input, Ok((i1, n))));
        count_core(&mut self.parser, i1, n.to_usize(), ErrorKind::Count)
    }
}

/// Gets a number from the first parser, then applies the second parser that many times.
pub fn length_count<I, N, O, C, E, F, G>(f: F, g: G) -> (r: LengthCount<F, G, I, N, O, C, E>) where
    I: Input,
    N: ToUsize,
    C: Accumulate<O>,
    F: Parser<I, N, E>,
    G: Parser<I, O, E>,
    E: ParseError<I>,

    ensures
        r.count == f,
        r.parser == g,
{
    LengthCount { count: f, parser: g, phantom: PhantomData }
}


/// The results of [`fill`]: `before` is the buffer it was given, `after` the buffer it
/// leaves; the runs of `p` fill the buffer from its start, and the positions after the last
/// run keep what they held.
pub open spec fn fill_rel<I: Input, O, E: ParseError<I>, P: Parser<I, O, E>>(
    p: P,
    input: I,
    before: Seq<O>,
    after: Seq<O>,
    r: IResult<I, (), E>,
) -> bool {
    exists|steps: Seq<I>, outs: Seq<O>|
        #[trigger] chained(p, steps, outs) && steps[0] == input && outs.len() <= before.len()
            && after == outs + before.skip(outs.len() as int) && match r {
            Ok((rest, _)) => outs.len() == before.len() && rest == steps.last(),
            Err(e) => outs.len() < before.len() && exists|e1: ErrMode<E>|
                #[trigger] p.parse_rel(steps.last(), Err(e1)) && e1.append_rel(
                    input,
                    ErrorKind::Count,
                    e,
                ),
        }
}

/// Runs the embedded parser repeatedly, filling the given slice with results.
///
/// This parser fails if the input runs out before the given slice is full.
pub fn fill<I, O, E, F>(f: &mut F, buf: &mut [O], input: I) -> (r: IResult<I, (), E>) where
    I: Input,
    F: Parser<I, O, E>,
    E: ParseError<I>,

    requires
        forall|i: I| #[trigger] old(f).parse_req(i),
    ensures
        *final(f) == *old(f),
        fill_rel(*old(f), input, old(buf)@, final(buf)@, r),
{
    let n = buf.len();
    let mut cur = input;
    let mut k: usize = 0;
    let ghost mut steps: Seq<I> = seq![input];
    let ghost mut outs: Seq<O> = Seq::empty();
    assert(buf@ =~= outs + old(buf)@.skip(0));
    while k < n
        invariant
            *f == *old(f),
            forall|i: I| #[trigger] f.parse_req(i),
            chained(*f, steps, outs),
            steps[0] == input,
            steps.last() == cur,
            k == outs.len(),
            k <= n,
            n == old(buf)@.len(),
            buf@ == outs + old(buf)@.skip(k as int),
        decreases n - k,
    {
        match f.parse_next(cur) {
            Ok((tail, v)) => {
                proof {
                    let s2 = steps.push(tail);
                    let o2 = outs.push(v);
                    assert forall|j: int| #![trigger o2[j]] 0 <= j < o2.len() implies f.parse_rel(
                        s2[j],
                        Ok((s2[j + 1], o2[j])),
                    ) by {
                        if j < outs.len() {
                            assert(outs[j] == o2[j]);
                        }
                    }
                    steps = s2;
                    outs = o2;
                }
                buf[k] = v;
                cur = tail;
                k = k + 1;
                assert(buf@ =~= outs + old(buf)@.skip(k as int));
            },
            Err(e) => {
                let ghost ge = e;
                assert(f.parse_rel(steps.last(), Err(ge)));
                assert(chained(*f, steps, outs));
                return Err(e.append(input, ErrorKind::Count));
            },
        }
    }
    assert(chained(*f, steps, outs));
    Ok((cur, ()))
}

} // verus!
