//! Properties that relate the parsers and operations of the library to each other
use vstd::prelude::*;
use crate::branch::Alt;
use crate::input::{compare_spec, lower_seq, Accumulate, CaseFold, CompareResult, Compare, Streaming};
use crate::multi::{till_end, till_run, RepeatTill, separated_rel, separated_run, separated_stop_ok, bound, lemma_repeated_len, repeat_rel, repeated, Repeat};
use crate::token::{literal_outcome, literal_rel};
use crate::basic::{iter_finish, iter_step, IterState, Not, Opt, ParserIterator, Peek};
use crate::combinator::{CompleteErr, Recognize};
use crate::error::{backtrack_of, cut_of, ErrMode, ErrorKind, ParseError};
use crate::input::{Input, Located, AsChar, char_is_hex_digit, spec_lowercase_char, spec_lowercase_byte};
use crate::number::{be_value, fixed_rel, le_value};
use crate::parser::{backtrack_at, IResult, Parser};
use crate::token::{take_rel, take_until_rel, take_while_rel};
use crate::find::occurs_at;
use crate::input::ContainsToken;

verus! {

/// Making an error recoverable undoes making it unrecoverable: `e.cut().backtrack()` is
/// `e.backtrack()`, and `e.backtrack().cut()` is `e.cut()`; each is idempotent.
pub proof fn law_cut_backtrack<E>(e: ErrMode<E>)
    ensures
        backtrack_of(cut_of(e)) == backtrack_of(e),
        cut_of(backtrack_of(e)) == cut_of(e),
        cut_of(cut_of(e)) == cut_of(e),
        backtrack_of(backtrack_of(e)) == backtrack_of(e),
{
}

/// `peek(p)` succeeds with what `p` would produce, and leaves the input where it was.
pub proof fn law_peek_keeps_input<I: Input, O, E, F: Parser<I, O, E>>(
    peeked: Peek<F, I, O, E>,
    input: I,
    rest: I,
    o: O,
)
    requires
        peeked.parse_rel(input, Ok((rest, o))),
    ensures
        rest == input,
        exists|rest0: I| #[trigger] peeked.parser.parse_rel(input, Ok((rest0, o))),
{
    let w = choose|rest0: I, o0: O| peeked.parser.parse_rel(input, Ok((rest0, o0))) && o0 == o;
    assert(peeked.parser.parse_rel(input, Ok((w.0, o))));
}

/// `opt(p)` never fails recoverably: where `p` does, it succeeds with `None` and leaves the
/// input where it was.
pub proof fn law_opt_never_backtracks<I: Input, O, E, F: Parser<I, O, E>>(
    optional: Opt<F, I, O, E>,
    input: I,
    r: IResult<I, Option<O>, E>,
)
    requires
        optional.parse_rel(input, r),
    ensures
        !(r matches Err(ErrMode::Backtrack(_))),
        r matches Ok((rest, None)) ==> rest == input,
{
}

/// `not(p)` consumes nothing, and succeeds only where `p` fails recoverably.
pub proof fn law_not_consumes_nothing<I: Input, O, E: ParseError<I>, F: Parser<I, O, E>>(
    negated: Not<F, I, O, E>,
    input: I,
    rest: I,
)
    requires
        negated.parse_rel(input, Ok((rest, ()))),
    ensures
        rest == input,
        exists|e: E| #[trigger] negated.parser.parse_rel(input, Err(ErrMode::Backtrack(e))),
{
}

/// `p.complete_err()` never asks for more input: where `p` does, it fails recoverably
/// with [`ErrorKind::Complete`]; every other result is `p`'s own.
pub proof fn law_complete_never_incomplete<I: Input, O, E: ParseError<I>, F: Parser<I, O, E>>(
    completed: CompleteErr<F>,
    input: I,
    r: IResult<I, O, E>,
)
    requires
        completed.parse_rel(input, r),
    ensures
        !(r matches Err(ErrMode::Incomplete(_))),
        completed.f.parse_rel(input, r) || backtrack_at(r, input, ErrorKind::Complete),
{
}

/// `p.recognize()` returns the input that `p` consumed and leaves the input where `p` left
/// it: where every success of `p` consumes `n` tokens, the slice is the first `n` tokens and
/// the rest is what follows them.
pub proof fn law_recognize_returns_consumed<I: Input, O, E, F: Parser<I, O, E>>(
    recognizing: Recognize<F, I, O, E>,
    input: I,
    rest: I,
    slice: I::Slice,
    n: int,
)
    requires
        recognizing.parse_rel(input, Ok((rest, slice))),
        forall|r2: I, o: O| #[trigger]
            recognizing.parser.parse_rel(input, Ok((r2, o))) ==> input.advances(r2, n),
    ensures
        I::slice_tokens(slice) == input.tokens().take(n),
        rest.tokens() == input.tokens().skip(n),
{
    let w = choose|r1: I, o: O|
        #![trigger recognizing.parser.parse_rel(input, Ok((r1, o)))]
        recognizing.parser.parse_rel(input, Ok((r1, o))) && crate::combinator::recognized(
            input,
            r1,
            rest,
            slice,
        );
    assert(recognizing.parser.parse_rel(input, Ok((w.0, w.1))));
    input.lemma_advances(w.0, n);
    input.lemma_advances(rest, n);
}

/// `take(n)` splits its input: the slice it returns followed by the input it leaves is the
/// input it was given, and the slice holds `n` tokens.
pub proof fn law_take_splits<I: Input, E: ParseError<I>>(
    input: I,
    n: int,
    rest: I,
    slice: I::Slice,
)
    requires
        take_rel::<I, E>(input, n, Ok((rest, slice))),
    ensures
        I::slice_tokens(slice) + rest.tokens() == input.tokens(),
        I::slice_tokens(slice).len() == n,
{
    input.lemma_advances(rest, n);
    assert(input.tokens().take(n) + input.tokens().skip(n) =~= input.tokens());
}

/// Reading bytes least significant first gives what reading them reversed most significant
/// first gives: a little endian parser reads what a big endian one reads of the reversed
/// bytes.
pub proof fn law_le_is_reversed_be(s: Seq<u8>)
    ensures
        le_value(s) == be_value(s.reverse()),
    decreases s.len(),
{
    if s.len() > 0 {
        law_le_is_reversed_be(s.skip(1));
        lemma_be_push_front(s.skip(1).reverse(), s[0]);
        assert(s.skip(1).reverse().push(s[0]) =~= s.reverse());
    }
}

/// Appending a byte to a big endian sequence shifts it and adds the byte.
proof fn lemma_be_push_front(s: Seq<u8>, b: u8)
    ensures
        be_value(s.push(b)) == be_value(s) * 256 + b,
{
    assert(s.push(b).drop_last() =~= s);
}

/// Once a parser iterator has stopped, it stays stopped: a further step yields nothing and
/// changes nothing, and finishing it gives the same result before and after.
pub proof fn law_iterator_stays_stopped<I: Input, O, E, F: Parser<I, O, E>>(
    prev: ParserIterator<I, O, E, F>,
    next: ParserIterator<I, O, E, F>,
    r: Option<O>,
)
    requires
        prev.state != IterState::<E>::Running,
        iter_step(prev, next, r),
    ensures
        r is None,
        next.input == prev.input,
        next.state == prev.state,
        iter_finish(next) == iter_finish(prev),
{
}

/// A step that yields a value keeps the iterator running, and the iterator then finishes
/// on the input that the step left.
pub proof fn law_iterator_yield_keeps_running<I: Input, O, E, F: Parser<I, O, E>>(
    prev: ParserIterator<I, O, E, F>,
    next: ParserIterator<I, O, E, F>,
    o: O,
)
    requires
        iter_step(prev, next, Some(o)),
    ensures
        prev.state == IterState::<E>::Running,
        next.state == IterState::<E>::Running,
        iter_finish(next) == Ok::<(I, ()), ErrMode<E>>((next.input, ())),
        exists|rest: I| #[trigger] prev.iterator.parse_rel(prev.input, Ok((rest, o))) && rest == next.input,
{
    let res = choose|res: IResult<I, O, E>|
        #![trigger prev.iterator.parse_rel(prev.input, res)]
        prev.iterator.parse_rel(prev.input, res) && match res {
            Ok((rest, o1)) => next.input == rest && next.state == IterState::<E>::Running && Some(o)
                == Some(o1),
            Err(ErrMode::Backtrack(_)) => next.input == prev.input && next.state
                == IterState::<E>::Done && Some(o) is None,
            Err(ErrMode::Cut(e)) => next.input == prev.input && next.state == IterState::Failure(
                e,
            ) && Some(o) is None,
            Err(ErrMode::Incomplete(n)) => next.input == prev.input && next.state
                == IterState::<E>::Incomplete(n) && Some(o) is None,
        };
    assert(prev.iterator.parse_rel(prev.input, res));
}

/// Parsing moves a located input's location forward by the offset of the tokens consumed:
/// their number for slices, their length in bytes for text.
pub proof fn law_location_advances<I: Input>(located: Located<I>, rest: Located<I>, n: int)
    requires
        located.advances(rest, n),
    ensures
        rest.spec_location() == located.spec_location() + located.input.offset_of(n),
        rest.initial == located.initial,
{
    located.input.lemma_advances(rest.input, n);
}


/// `alt((p, q))` returns the first success: where `p` succeeds with `v`, and only with
/// `v`, so does the choice.
pub proof fn law_alt_first_success<I: Input, O, E: ParseError<I>, P0: Parser<I, O, E>, P1: Parser<I, O, E>>(
    choice: (P0, P1),
    input: I,
    v: (I, O),
    r: IResult<I, O, E>,
)
    requires
        forall|r0: IResult<I, O, E>| #[trigger] choice.0.parse_rel(input, r0) ==> r0 == Ok::<(I, O), ErrMode<E>>(v),
        choice.choice_rel(input, r),
    ensures
        r == Ok::<(I, O), ErrMode<E>>(v),
{
    if r is Err {
        if let Err(ErrMode::Backtrack(e)) = r {
            let w = choose|e0: E, e1: E, c1: E, f: E|
                #![trigger choice.0.parse_rel(input, Err(ErrMode::Backtrack(e0))), choice.1.parse_rel(input, Err(ErrMode::Backtrack(e1))), e0.or_rel(e1, c1), c1.append_rel(input, ErrorKind::Alt, f)]
                choice.0.parse_rel(input, Err(ErrMode::Backtrack(e0)))
                    && choice.1.parse_rel(input, Err(ErrMode::Backtrack(e1)))
                    && e0.or_rel(e1, c1)
                    && c1.append_rel(input, ErrorKind::Alt, f)
                    && f == e;
            assert(choice.0.parse_rel(input, Err(ErrMode::Backtrack(w.0))));
        } else {
            if !choice.0.parse_rel(input, r) {
                let e0 = choose|e0: E| #![trigger choice.0.parse_rel(input, Err(ErrMode::Backtrack(e0)))]
                    choice.0.parse_rel(input, Err(ErrMode::Backtrack(e0))) && choice.1.parse_rel(input, r);
                assert(choice.0.parse_rel(input, Err(ErrMode::Backtrack(e0))));
            }
        }
    } else {
        if !choice.0.parse_rel(input, r) {
            let e0 = choose|e0: E| #![trigger choice.0.parse_rel(input, Err(ErrMode::Backtrack(e0)))]
                choice.0.parse_rel(input, Err(ErrMode::Backtrack(e0))) && choice.1.parse_rel(input, r);
            assert(choice.0.parse_rel(input, Err(ErrMode::Backtrack(e0))));
        }
    }
}

/// `alt((p, q))` falls back on `q`: where `p` fails recoverably, and only so, every result
/// of the choice that is not a recoverable failure is a result of `q`.
pub proof fn law_alt_falls_back<I: Input, O, E: ParseError<I>, P0: Parser<I, O, E>, P1: Parser<I, O, E>>(
    choice: (P0, P1),
    input: I,
    r: IResult<I, O, E>,
)
    requires
        forall|r0: IResult<I, O, E>| #[trigger] choice.0.parse_rel(input, r0) ==> r0 is Err && r0->Err_0 is Backtrack,
        choice.choice_rel(input, r),
        !(r matches Err(ErrMode::Backtrack(_))),
    ensures
        choice.1.parse_rel(input, r),
{
    if !choice.0.parse_rel(input, r) {
        let e0 = choose|e0: E| #![trigger choice.0.parse_rel(input, Err(ErrMode::Backtrack(e0)))]
            choice.0.parse_rel(input, Err(ErrMode::Backtrack(e0))) && choice.1.parse_rel(input, r);
    }
}

/// A repetition yields no more items than the tokens it consumed: every item it gathers
/// comes from a run of the parser that shortened the input.
pub proof fn law_repetition_bounded_by_input<I: Input, O, C: Accumulate<O>, E: ParseError<I>, P: Parser<I, O, E>>(
    p: P,
    input: I,
    min: int,
    max: int,
    fail: ErrorKind,
    replace: bool,
    stall: ErrorKind,
    stall_cut: bool,
    stall_at_rest: bool,
    rest: I,
    acc: C,
)
    requires
        repeat_rel(p, input, min, max, fail, replace, stall, stall_cut, stall_at_rest, Ok((rest, acc))),
    ensures
        exists|items: Seq<O>| #[trigger] acc.holds(items) && items.len() + rest.tokens().len() <= input.tokens().len(),
{
    let (steps, outs) = choose|steps: Seq<I>, outs: Seq<O>|
        #[trigger] crate::multi::repeated(p, steps, outs) && steps[0] == input && outs.len() <= max
            && crate::multi::repeat_end(p, steps.last(), outs, min, max, fail, replace, stall, stall_cut, stall_at_rest, Ok((rest, acc)));
    lemma_repeated_len(p, steps, outs);
    assert(acc.holds(outs));
}

/// A literal compares the same with a stream whether or not more of it may arrive; they
/// differ only where the stream ends inside the literal, where a complete stream fails
/// with [`ErrorKind::Tag`] and a streaming one asks for the missing tokens.
pub proof fn law_literal_streaming_agrees<I, T, E>(
    input: I,
    t: T,
    no_case: bool,
    r: IResult<I, I::Slice, E>,
    rs: IResult<Streaming<I>, I::Slice, E>,
)
    where I: Compare<T>, I::Token: CaseFold, T: Copy, E: ParseError<I> + ParseError<Streaming<I>>,
    requires
        !input.partial(),
        literal_rel(input, I::literal(t).len() as int, I::literal_units(t), literal_outcome(input, t, no_case), r),
        literal_rel(
            Streaming(input),
            I::literal(t).len() as int,
            I::literal_units(t),
            literal_outcome(Streaming(input), t, no_case),
            rs,
        ),
    ensures
        literal_outcome(Streaming(input), t, no_case) == literal_outcome(input, t, no_case),
        r is Ok <==> rs is Ok,
        (rs matches Err(ErrMode::Incomplete(_))) <==> (literal_outcome(input, t, no_case)
            == crate::input::CompareResult::Incomplete),
        literal_outcome(input, t, no_case) == crate::input::CompareResult::Incomplete ==> backtrack_at(r, input, ErrorKind::Tag),
{
}


/// More data at the end of a stream does not change a comparison that the data at hand
/// already decides.
pub proof fn lemma_compare_more_data<T>(a: Seq<T>, b: Seq<T>, lit: Seq<T>)
    requires
        a.len() <= b.len(),
        b.take(a.len() as int) == a,
        compare_spec(a, lit) != CompareResult::Incomplete,
    ensures
        compare_spec(b, lit) == compare_spec(a, lit),
{
    if a.len() >= lit.len() {
        assert(b.take(lit.len() as int) =~= a.take(lit.len() as int));
    } else {
        if b.len() >= lit.len() && b.take(lit.len() as int) == lit {
            assert(lit.take(a.len() as int) =~= b.take(lit.len() as int).take(a.len() as int));
            assert(b.take(lit.len() as int).take(a.len() as int) =~= b.take(a.len() as int));
        }
        if b.len() < lit.len() && lit.take(b.len() as int) == b {
            assert(lit.take(a.len() as int) =~= lit.take(b.len() as int).take(a.len() as int));
        }
    }
}

/// Streaming gives the same result whether the data comes entirely or in chunks: where a
/// literal on the data at hand does not ask for more, the same literal on that data followed
/// by more gives the same outcome, with the same tokens recognized.
pub proof fn law_literal_more_data<I, T, E>(
    a: I,
    b: I,
    t: T,
    no_case: bool,
    r1: IResult<I, I::Slice, E>,
    r2: IResult<I, I::Slice, E>,
)
    where I: Compare<T>, I::Token: CaseFold, T: Copy, E: ParseError<I>,
    requires
        a.partial(),
        b.partial(),
        a.tokens().len() <= b.tokens().len(),
        b.tokens().take(a.tokens().len() as int) == a.tokens(),
        literal_rel(a, I::literal(t).len() as int, I::literal_units(t), literal_outcome(a, t, no_case), r1),
        literal_rel(b, I::literal(t).len() as int, I::literal_units(t), literal_outcome(b, t, no_case), r2),
        !(r1 matches Err(ErrMode::Incomplete(_))),
    ensures
        literal_outcome(b, t, no_case) == literal_outcome(a, t, no_case),
        r1 is Ok <==> r2 is Ok,
        r1 matches Ok((_, s1)) ==> r2 matches Ok((_, s2)) && I::slice_tokens(s1)
            == I::slice_tokens(s2),
{
    if no_case {
        assert(lower_seq(b.tokens()).take(a.tokens().len() as int) =~= lower_seq(a.tokens()));
        lemma_compare_more_data(lower_seq(a.tokens()), lower_seq(b.tokens()), lower_seq(I::literal(t)));
    } else {
        lemma_compare_more_data(a.tokens(), b.tokens(), I::literal(t));
    }
    let n = I::literal(t).len() as int;
    if literal_outcome(a, t, no_case) == CompareResult::Match {
        if no_case {
            assert(lower_seq(a.tokens()).len() == a.tokens().len());
        }
        assert(b.tokens().take(n) =~= a.tokens().take(n));
    }
}

/// Streaming gives the same result whether the data comes entirely or in chunks: where
/// `take(n)` on the data at hand does not ask for more, it takes the same tokens from that
/// data followed by more.
pub proof fn law_take_more_data<I: Input, E: ParseError<I>>(
    a: I,
    b: I,
    n: int,
    r1: IResult<I, I::Slice, E>,
    r2: IResult<I, I::Slice, E>,
)
    requires
        a.partial(),
        b.partial(),
        a.tokens().len() <= b.tokens().len(),
        b.tokens().take(a.tokens().len() as int) == a.tokens(),
        0 <= n,
        take_rel::<I, E>(a, n, r1),
        take_rel::<I, E>(b, n, r2),
        !(r1 matches Err(ErrMode::Incomplete(_))),
    ensures
        r1 is Ok && r2 is Ok,
        r1 matches Ok((_, s1)) ==> r2 matches Ok((_, s2)) && I::slice_tokens(s1)
            == I::slice_tokens(s2),
{
    assert(b.tokens().take(n) =~= a.tokens().take(n));
}

/// Streaming gives the same result whether the data comes entirely or in chunks: where a
/// number parser on the data at hand does not ask for more, it reads the same value from that
/// data followed by more.
pub proof fn law_number_more_data<I: Input<Token = u8>, T, E: ParseError<I>>(
    a: I,
    b: I,
    n: int,
    value_of: spec_fn(T) -> int,
    r1: IResult<I, T, E>,
    r2: IResult<I, T, E>,
)
    requires
        a.partial(),
        b.partial(),
        0 <= n,
        a.tokens().len() <= b.tokens().len(),
        b.tokens().take(a.tokens().len() as int) == a.tokens(),
        fixed_rel(a, n, r1, value_of, be_value(a.tokens().take(n))),
        fixed_rel(b, n, r2, value_of, be_value(b.tokens().take(n))),
        !(r1 matches Err(ErrMode::Incomplete(_))),
    ensures
        r1 matches Ok((_, v1)) && r2 matches Ok((_, v2)) && value_of(v1) == value_of(v2),
{
    assert(b.tokens().take(n) =~= a.tokens().take(n));
}

/// Streaming gives the same result whether the data comes entirely or in chunks: where a
/// `take_while`/`take_till` run on the data at hand does not ask for more, it stops at the
/// same token, or fails in the same way, on that data followed by more. The set must answer
/// the same for a token each time it is asked.
pub proof fn law_take_while_more_data<I: Input, T: ContainsToken<I::Token>, E: ParseError<I>>(
    a: I,
    b: I,
    set: T,
    accept: bool,
    min_one: bool,
    kind: ErrorKind,
    r1: IResult<I, I::Slice, E>,
    r2: IResult<I, I::Slice, E>,
)
    requires
        a.partial(),
        b.partial(),
        a.tokens().len() <= b.tokens().len(),
        b.tokens().take(a.tokens().len() as int) == a.tokens(),
        forall|t: I::Token, x: bool, y: bool|
            set.contains_rel(t, x) && set.contains_rel(t, y) ==> x == y,
        take_while_rel(a, set, accept, min_one, kind, r1),
        take_while_rel(b, set, accept, min_one, kind, r2),
        !(r1 matches Err(ErrMode::Incomplete(_))),
    ensures
        r1 is Ok <==> r2 is Ok,
        r1 matches Err(ErrMode::Backtrack(_)) <==> r2 matches Err(ErrMode::Backtrack(_)),
        r1 matches Ok((_, s1)) ==> r2 matches Ok((_, s2)) && I::slice_tokens(s1)
            == I::slice_tokens(s2),
{
    let la = a.tokens().len() as int;
    let lb = b.tokens().len() as int;
    assert forall|j: int| 0 <= j < la implies a.tokens()[j] == b.tokens()[j] by {
        assert(b.tokens().take(la)[j] == b.tokens()[j]);
    }
    match r1 {
        Ok((rest1, s1)) => {
            let n = la - rest1.tokens().len();
            assert(n < la);
            assert(set.contains_rel(a.tokens()[n], !accept));
            assert(b.tokens()[n] == a.tokens()[n]);
            match r2 {
                Ok((rest2, s2)) => {
                    let n2 = lb - rest2.tokens().len();
                    if n2 > n {
                        assert(set.contains_rel(b.tokens()[n], accept));
                    } else if n2 < n {
                        assert(set.contains_rel(a.tokens()[n2], accept));
                        assert(b.tokens()[n2] == a.tokens()[n2]);
                        assert(set.contains_rel(b.tokens()[n2], !accept));
                    }
                    assert(n2 == n);
                    assert(b.tokens().take(n) =~= a.tokens().take(n));
                },
                Err(ErrMode::Incomplete(_)) => {
                    assert(set.contains_rel(b.tokens()[n], accept));
                },
                Err(ErrMode::Backtrack(_)) => {
                    assert(set.contains_rel(a.tokens()[0], accept));
                    assert(b.tokens()[0] == a.tokens()[0]);
                    assert(set.contains_rel(b.tokens()[0], !accept));
                },
                Err(ErrMode::Cut(_)) => {},
            }
        },
        Err(ErrMode::Backtrack(_)) => {
            assert(la > 0);
            assert(set.contains_rel(a.tokens()[0], !accept));
            assert(b.tokens()[0] == a.tokens()[0]);
            match r2 {
                Ok((rest2, s2)) => {
                    assert(set.contains_rel(b.tokens()[0], accept));
                },
                Err(ErrMode::Incomplete(_)) => {
                    assert(set.contains_rel(b.tokens()[0], accept));
                },
                _ => {},
            }
        },
        _ => {},
    }
}

/// A window that lies within the data at hand reads the same once more data follows.
proof fn lemma_occurs_at_more_data<T>(a: Seq<T>, b: Seq<T>, needle: Seq<T>, j: int)
    requires
        a.len() <= b.len(),
        b.take(a.len() as int) == a,
        0 <= j,
        j + needle.len() <= a.len(),
    ensures
        occurs_at(a, needle, j) == occurs_at(b, needle, j),
{
    assert(a.subrange(j, j + needle.len()) =~= b.subrange(j, j + needle.len())) by {
        assert forall|k: int| 0 <= k < needle.len() implies #[trigger] a.subrange(j, j + needle.len())[k]
            == b.subrange(j, j + needle.len())[k] by {
            assert(b.take(a.len() as int)[j + k] == b[j + k]);
        }
    }
}

/// Streaming gives the same result whether the data comes entirely or in chunks: where
/// `take_until` on the data at hand does not ask for more, it stops at the same occurrence,
/// or fails in the same way, on that data followed by more.
pub proof fn law_take_until_more_data<I: Input, E: ParseError<I>>(
    a: I,
    b: I,
    needle: Seq<I::Token>,
    min_one: bool,
    r1: IResult<I, I::Slice, E>,
    r2: IResult<I, I::Slice, E>,
)
    requires
        a.partial(),
        b.partial(),
        a.tokens().len() <= b.tokens().len(),
        b.tokens().take(a.tokens().len() as int) == a.tokens(),
        take_until_rel(a, needle, min_one, r1),
        take_until_rel(b, needle, min_one, r2),
        !(r1 matches Err(ErrMode::Incomplete(_))),
    ensures
        r1 is Ok <==> r2 is Ok,
        r1 matches Err(ErrMode::Backtrack(_)) <==> r2 matches Err(ErrMode::Backtrack(_)),
        r1 matches Ok((_, s1)) ==> r2 matches Ok((_, s2)) && I::slice_tokens(s1)
            == I::slice_tokens(s2),
{
    let ta = a.tokens();
    let tb = b.tokens();
    let la = ta.len() as int;
    let lb = tb.len() as int;
    let i = match r1 {
        Ok((rest1, _)) => la - rest1.tokens().len(),
        _ => 0,
    };
    // the occurrence that decides `r1` is an occurrence in `b`, and the first one there
    assert(occurs_at(ta, needle, i));
    lemma_occurs_at_more_data(ta, tb, needle, i);
    assert forall|j: int| 0 <= j < i implies !#[trigger] occurs_at(tb, needle, j) by {
        lemma_occurs_at_more_data(ta, tb, needle, j);
    }
    match r2 {
        Ok((rest2, _)) => {
            let i2 = lb - rest2.tokens().len();
            assert(!occurs_at(tb, needle, i) || i2 <= i);
            if i2 < i {
                assert(occurs_at(tb, needle, i2));
            }
            assert(i2 == i);
            assert(tb.take(i) =~= ta.take(i));
        },
        Err(ErrMode::Incomplete(_)) => {
            assert(occurs_at(tb, needle, i));
        },
        Err(ErrMode::Backtrack(_)) => {
            assert(occurs_at(tb, needle, 0));
        },
        Err(ErrMode::Cut(_)) => {},
    }
}

/// `many0(p)`, with `p` consuming input whenever it succeeds, never fails recoverably: it
/// returns the outputs of the longest run of successes of `p`, in order, with the input that
/// the last of them left, where `p` then fails recoverably; a fatal error or a request for
/// more input from `p` is passed on. (The input is one that fits in memory.)
pub proof fn law_many0_longest_run<I: Input, O, C: Accumulate<O>, E: ParseError<I>, P: Parser<I, O, E>>(
    m: Repeat<P, I, O, C, E>,
    input: I,
    r: IResult<I, C, E>,
)
    requires
        m.min == 0,
        m.max == None::<usize>,
        m.fail == ErrorKind::Many0,
        !m.replace,
        m.stall == ErrorKind::Many0,
        !m.stall_cut,
        !m.stall_at_rest,
        forall|i: I, rest: I, o: O|
            #[trigger] m.parser.parse_rel(i, Ok((rest, o))) ==> rest.tokens().len() < i.tokens().len(),
        input.tokens().len() <= usize::MAX,
        m.parse_rel(input, r),
    ensures
        !(r matches Err(ErrMode::Backtrack(_))),
        r matches Ok((rest, acc)) ==> exists|steps: Seq<I>, outs: Seq<O>|
            #![trigger repeated(m.parser, steps, outs)]
            repeated(m.parser, steps, outs) && steps[0] == input && steps.last() == rest
                && acc.holds(outs) && exists|e: E|
                #[trigger] m.parser.parse_rel(rest, Err(ErrMode::Backtrack(e))),
        r matches Err(x) ==> exists|steps: Seq<I>, outs: Seq<O>|
            #![trigger repeated(m.parser, steps, outs)]
            repeated(m.parser, steps, outs) && steps[0] == input && m.parser.parse_rel(
                steps.last(),
                Err(x),
            ),
{
    let p = m.parser;
    let max = bound(None::<usize>);
    let (steps, outs) = choose|steps: Seq<I>, outs: Seq<O>|
        #[trigger] repeated(p, steps, outs) && steps[0] == input && outs.len() <= max
            && crate::multi::repeat_end(p, steps.last(), outs, 0, max, ErrorKind::Many0, false,
            ErrorKind::Many0, false, false, r);
    lemma_repeated_len(p, steps, outs);
    assert(outs.len() < max);
    assert(!crate::multi::stalled(p, steps.last()));
    match r {
        Ok((rest, acc)) => {},
        Err(ErrMode::Backtrack(e)) => {
            assert(!crate::multi::stall_error(p, steps.last(), ErrorKind::Many0, false, e));
        },
        _ => {},
    }
}

/// A bounded repetition `many_m_n(min, max, p)`, with `p` consuming input whenever it
/// succeeds: where `min > max` it fails fatally at its input without running `p`; otherwise a
/// success holds the outputs of between `min` and `max` consecutive successes of `p`, in order,
/// and a recoverable failure comes from `p` failing recoverably after fewer than `min` of them.
pub proof fn law_many_m_n_range<I: Input, O, C: Accumulate<O>, E: ParseError<I>, P: Parser<I, O, E>>(
    m: Repeat<P, I, O, C, E>,
    max: usize,
    input: I,
    r: IResult<I, C, E>,
)
    requires
        m.max == Some(max),
        forall|i: I, rest: I, o: O|
            #[trigger] m.parser.parse_rel(i, Ok((rest, o))) ==> rest.tokens().len() < i.tokens().len(),
        m.parse_rel(input, r),
    ensures
        m.min > max ==> (r matches Err(ErrMode::Cut(e)) && E::from_error_kind_rel(input, m.fail, e)),
        m.min <= max ==> (r matches Ok((rest, acc)) ==> exists|steps: Seq<I>, outs: Seq<O>|
            #![trigger repeated(m.parser, steps, outs)]
            repeated(m.parser, steps, outs) && steps[0] == input && steps.last() == rest
                && acc.holds(outs) && m.min <= outs.len() <= max),
        m.min <= max ==> (r matches Err(ErrMode::Backtrack(_)) ==> exists|steps: Seq<I>, outs: Seq<O>|
            #![trigger repeated(m.parser, steps, outs)]
            repeated(m.parser, steps, outs) && steps[0] == input && outs.len() < m.min
                && exists|e1: E| #[trigger] m.parser.parse_rel(steps.last(), Err(ErrMode::Backtrack(e1)))),
{
    if m.min <= max {
        let p = m.parser;
        let (steps, outs) = choose|steps: Seq<I>, outs: Seq<O>|
            #[trigger] repeated(p, steps, outs) && steps[0] == input && outs.len() <= max
                && crate::multi::repeat_end(p, steps.last(), outs, m.min as int, max as int, m.fail,
                m.replace, m.stall, m.stall_cut, m.stall_at_rest, r);
        assert(!crate::multi::stalled(p, steps.last()));
        match r {
            Err(ErrMode::Backtrack(e)) => {
                assert(!crate::multi::stall_error(p, steps.last(), m.stall, m.stall_at_rest, e));
            },
            _ => {},
        }
    }
}

/// A separated list never keeps a dangling separator: where it succeeds, it returns the
/// elements in order, separated by separators that each consumed input, and leaves the input
/// at the end of the last element, where the next separator, or the element after it, fails
/// recoverably (an empty list leaves its input where the first element failed recoverably).
pub proof fn law_separated_no_dangling_separator<
    I: Input,
    O,
    O2,
    C: Accumulate<O>,
    E: ParseError<I>,
    P: Parser<I, O, E>,
    S: Parser<I, O2, E>,
>(p: P, sep: S, input: I, min: int, rest: I, acc: C)
    requires
        separated_rel(p, sep, input, min, Ok((rest, acc))),
    ensures
        exists|ins: Seq<I>, ends: Seq<I>, outs: Seq<O>, seps: Seq<O2>|
            #![trigger separated_run(p, sep, ins, ends, outs, seps)]
            separated_run(p, sep, ins, ends, outs, seps) && acc.holds(outs) && if outs.len() == 0 {
                min <= 0 && rest == input && exists|e: E| #[trigger] p.parse_rel(input, Err(ErrMode::Backtrack(e)))
            } else {
                ins[0] == input && rest == ends.last() && separated_stop_ok(p, sep, rest)
            },
{
    let (ins, ends, outs, seps) = choose|ins: Seq<I>, ends: Seq<I>, outs: Seq<O>, seps: Seq<O2>|
        #[trigger] separated_run(p, sep, ins, ends, outs, seps) && (outs.len() > 0 ==> ins[0]
            == input) && crate::multi::separated_end(p, sep, input, crate::multi::separated_last(input, ends), outs, min, Ok((rest, acc)));
    assert(separated_run(p, sep, ins, ends, outs, seps));
}

/// `p` gives at most one result for each input.
pub open spec fn functional<I: Input, O, E, P: Parser<I, O, E>>(p: P) -> bool {
    forall|i: I, r1: IResult<I, O, E>, r2: IResult<I, O, E>|
        #[trigger] p.parse_rel(i, r1) && #[trigger] p.parse_rel(i, r2) ==> r1 == r2
}

/// Two runs of a functional `f` from the same input agree on their first `j` steps.
proof fn lemma_runs_agree<I: Input, O, P2, E, F: Parser<I, O, E>, G: Parser<I, P2, E>>(
    f: F,
    g: G,
    steps: Seq<I>,
    outs: Seq<O>,
    gerrs: Seq<E>,
    steps2: Seq<I>,
    outs2: Seq<O>,
    gerrs2: Seq<E>,
    j: int,
)
    requires
        functional(f),
        till_run(f, g, steps, outs, gerrs),
        till_run(f, g, steps2, outs2, gerrs2),
        steps[0] == steps2[0],
        0 <= j <= outs.len(),
        j <= outs2.len(),
    ensures
        steps[j] == steps2[j],
        outs.take(j) == outs2.take(j),
    decreases j,
{
    if j > 0 {
        lemma_runs_agree(f, g, steps, outs, gerrs, steps2, outs2, gerrs2, j - 1);
        let k = j - 1;
        assert(f.parse_rel(steps[k], Ok((steps[k + 1], outs[k]))));
        assert(f.parse_rel(steps2[k], Ok((steps2[k + 1], outs2[k]))));
        assert(outs.take(j) =~= outs.take(k).push(outs[k]));
        assert(outs2.take(j) =~= outs2.take(k).push(outs2[k]));
    }
}

/// `many_till0(f, g)` with functional `f` and `g` succeeds exactly on the run it describes:
/// where, from its input, `g` fails recoverably and `f` then succeeds, consuming, `k` times
/// over, and `g` then succeeds with `(rest, o)`, the repetition returns `rest` with the `k`
/// outputs of `f`, in order, and `o`.
pub proof fn law_many_till_run<I: Input, O, P2, C: Accumulate<O>, E: ParseError<I>, F: Parser<I, O, E>, G: Parser<I, P2, E>>(
    m: RepeatTill<F, G, I, O, P2, C, E>,
    input: I,
    steps: Seq<I>,
    outs: Seq<O>,
    gerrs: Seq<E>,
    rest: I,
    o: P2,
    r: IResult<I, (C, P2), E>,
)
    requires
        functional(m.parser),
        functional(m.till),
        till_run(m.parser, m.till, steps, outs, gerrs),
        steps[0] == input,
        m.till.parse_rel(steps.last(), Ok((rest, o))),
        m.parse_rel(input, r),
    ensures
        r matches Ok((rest2, (acc, o2))) && rest2 == rest && o2 == o && acc.holds(outs),
{
    let f = m.parser;
    let g = m.till;
    let (steps2, outs2, gerrs2) = choose|steps2: Seq<I>, outs2: Seq<O>, gerrs2: Seq<E>|
        #[trigger] till_run(f, g, steps2, outs2, gerrs2) && steps2[0] == input
            && till_end(f, g, steps2.last(), outs2, r);
    let n = outs.len() as int;
    let n2 = outs2.len() as int;
    if n2 < n {
        lemma_runs_agree(f, g, steps, outs, gerrs, steps2, outs2, gerrs2, n2);
        let last = steps2.last();
        assert(last == steps[n2]);
        assert(g.parse_rel(steps[n2], Err(ErrMode::Backtrack(gerrs[n2]))));
        assert(f.parse_rel(steps[n2], Ok((steps[n2 + 1], outs[n2]))));
        match r {
            Ok((rest2, (acc, o2))) => {
                assert(g.parse_rel(last, Ok((rest2, o2))));
            },
            Err(e) => {
                if g.parse_rel(last, Err(e)) && !(e is Backtrack) {
                } else {
                    let ge = choose|ge: E| #[trigger] g.parse_rel(last, Err(ErrMode::Backtrack(ge)))
                        && ((exists|e1: ErrMode<E>| #[trigger] f.parse_rel(last, Err(e1))
                        && e1.append_rel(last, ErrorKind::ManyTill, e)) || (crate::multi::stalled(f, last) && (e matches ErrMode::Backtrack(b)
                        && E::from_error_kind_rel(last, ErrorKind::ManyTill, b))));
                    if exists|e1: ErrMode<E>| #[trigger] f.parse_rel(last, Err(e1))
                        && e1.append_rel(last, ErrorKind::ManyTill, e) {
                        let e1 = choose|e1: ErrMode<E>| #[trigger] f.parse_rel(last, Err(e1))
                            && e1.append_rel(last, ErrorKind::ManyTill, e);
                        assert(f.parse_rel(last, Err(e1)));
                    } else {
                        let (rs, os) = choose|rs: I, os: O| #[trigger] f.parse_rel(last, Ok((rs, os)))
                            && rs.tokens().len() >= last.tokens().len();
                        assert(f.parse_rel(last, Ok((rs, os))));
                    }
                }
            },
        }
        assert(false);
    } else if n2 > n {
        lemma_runs_agree(f, g, steps, outs, gerrs, steps2, outs2, gerrs2, n);
        assert(g.parse_rel(steps2[n], Err(ErrMode::Backtrack(gerrs2[n]))));
        assert(false);
    } else {
        lemma_runs_agree(f, g, steps, outs, gerrs, steps2, outs2, gerrs2, n);
        assert(outs.take(n) =~= outs);
        assert(outs2.take(n) =~= outs2);
        let last = steps.last();
        match r {
            Ok((rest2, (acc, o2))) => {
                assert(g.parse_rel(last, Ok((rest2, o2))));
            },
            Err(e) => {
                if g.parse_rel(last, Err(e)) && !(e is Backtrack) {
                    assert(false);
                } else {
                    let ge = choose|ge: E| #[trigger] g.parse_rel(last, Err(ErrMode::Backtrack(ge)))
                        && ((exists|e1: ErrMode<E>| #[trigger] f.parse_rel(last, Err(e1))
                        && e1.append_rel(last, ErrorKind::ManyTill, e)) || (crate::multi::stalled(f, last) && (e matches ErrMode::Backtrack(b)
                        && E::from_error_kind_rel(last, ErrorKind::ManyTill, b))));
                    assert(g.parse_rel(last, Err(ErrMode::Backtrack(ge))));
                    assert(false);
                }
            },
        }
    }
}

/// The hexadecimal digits are exactly `0` to `9`, `a` to `f` and `A` to `F`: as characters,
/// and as bytes by their ASCII codes `0x30..=0x39`, `0x41..=0x46` and `0x61..=0x66`. So `F`
/// is a digit as well as `f`, and `g`, `G` and every non-ASCII character are not.
pub proof fn law_hex_digit_class(c: char, b: u8)
    ensures
        char_is_hex_digit(c) <==> ('0' <= c <= '9' || 'a' <= c <= 'f' || 'A' <= c <= 'F'),
        char_is_hex_digit(b.spec_as_char()) <==> (0x30 <= b <= 0x39 || 0x41 <= b <= 0x46 || 0x61 <= b <= 0x66),
{
}

/// Two characters are the same letter up to ASCII case: equal, or an uppercase ASCII letter
/// and the lowercase one 32 code points above it.
pub open spec fn same_up_to_ascii_case(a: char, b: char) -> bool {
    ||| a == b
    ||| ('A' <= a <= 'Z' && b as u32 == a as u32 + 32)
    ||| ('A' <= b <= 'Z' && a as u32 == b as u32 + 32)
}

/// Lowercasing maps each uppercase ASCII letter to the letter 32 code points above it and
/// leaves every other character and byte as it is; so two characters that are the same
/// letter up to ASCII case lowercase alike.
pub proof fn law_lowercase_folds_ascii_letters(c: char, d: char, b: u8)
    ensures
        'A' <= c <= 'Z' ==> spec_lowercase_char(c) as u32 == c as u32 + 32,
        !('A' <= c <= 'Z') ==> spec_lowercase_char(c) == c,
        65 <= b <= 90 ==> spec_lowercase_byte(b) == b + 32,
        !(65 <= b <= 90) ==> spec_lowercase_byte(b) == b,
        same_up_to_ascii_case(c, d) ==> spec_lowercase_char(c) == spec_lowercase_char(d),
{
}

/// Matching a literal without case succeeds on every text that starts with the literal up to
/// ASCII case: `tag_no_case("hello")` matches `"HELLO world"`.
pub proof fn law_no_case_literal_matches<I, T>(input: I, t: T)
    where I: Compare<T> + Input<Token = char>, T: Copy,
    requires
        input.tokens().len() >= I::literal(t).len(),
        forall|j: int| 0 <= j < I::literal(t).len() ==> same_up_to_ascii_case(
            #[trigger] input.tokens()[j],
            I::literal(t)[j],
        ),
    ensures
        literal_outcome(input, t, true) == CompareResult::Match,
{
    let s = input.tokens();
    let l = I::literal(t);
    let ls = lower_seq(s);
    let ll = lower_seq(l);
    assert forall|j: int| 0 <= j < l.len() implies ls.take(l.len() as int)[j] == ll[j] by {
        law_lowercase_folds_ascii_letters(s[j], l[j], 0);
        assert(ls[j] == spec_lowercase_char(s[j]));
        assert(ll[j] == spec_lowercase_char(l[j]));
    }
    assert(ls.take(l.len() as int) =~= ll);
}

} // verus!
