//! Input capability for combinators to parse
//!
//! A stream is a sequence of tokens (`u8` for byte slices, `char` for strings) that a
//! parser consumes from the front; [`Streaming`] marks a stream that may still grow, and
//! [`Located`] tracks how far into the initial input a stream has advanced.
use vstd::prelude::*;
use vstd::string::*;
use crate::error::utf8_width;

verus! {

/// Core definition for parser input state
pub trait Input: Sized + Copy {
    /// The smallest unit being parsed
    type Token: Copy;
    /// Sequence of `Token`s
    type Slice: Copy;

    /// The tokens that remain to be parsed.
    spec fn tokens(&self) -> Seq<Self::Token>;

    /// The tokens of a slice taken out of the stream.
    spec fn slice_tokens(s: Self::Slice) -> Seq<Self::Token>;

    /// Whether more input may still arrive after the tokens at hand.
    spec fn partial(&self) -> bool;

    /// `rest` is this stream once its first `n` tokens have been consumed.
    spec fn advances(&self, rest: Self, n: int) -> bool;

    /// What `advances` says of the tokens and of partiality.
    proof fn lemma_advances(&self, rest: Self, n: int)
        requires
            self.advances(rest, n),
        ensures
            0 <= n <= self.tokens().len(),
            rest.tokens() == self.tokens().skip(n),
            rest.partial() == self.partial(),
            rest.offset_len() == self.offset_len() - self.offset_of(n),
    ;

    /// Any prefix can be consumed.
    proof fn lemma_advances_zero(&self)
        ensures
            self.advances(*self, 0),
    ;

    /// The offset, in units (bytes for text, tokens otherwise), that the first `n` tokens
    /// end at.
    spec fn offset_of(&self, n: int) -> int;

    /// The offset of the end of the input, in units.
    spec fn offset_len(&self) -> int;

    /// Offsets start at 0, grow strictly with each token, and end at the end of the input.
    proof fn lemma_offsets(&self, k: int, n: int)
        requires
            0 <= k <= n <= self.tokens().len(),
        ensures
            self.offset_of(0) == 0,
            self.offset_of(k) <= self.offset_of(n),
            k < n ==> self.offset_of(k) < self.offset_of(n),
            self.offset_of(self.tokens().len() as int) == self.offset_len(),
    ;

    /// What more is needed when `n` tokens are asked for and fewer are at hand.
    spec fn short_by(&self, n: int) -> crate::error::Needed;

    /// Returns the offset to the end of the input: in bytes for text, in tokens otherwise
    fn input_len(&self) -> (n: usize)
        ensures
            n == self.offset_len(),
    ;

    /// Returns the number of tokens to the end of the input
    fn token_count(&self) -> (n: usize)
        ensures
            n == self.tokens().len(),
    ;

    /// Returns the token at position `i`
    fn token_at(&self, i: usize) -> (t: Self::Token)
        requires
            i < self.tokens().len(),
        ensures
            t == self.tokens()[i as int],
    ;

    /// Split off the next token from the input
    fn next_token(&self) -> (r: Option<(Self, Self::Token)>)
        ensures
            r is None <==> self.tokens().len() == 0,
            r matches Some((rest, t)) ==> self.advances(rest, 1) && t == self.tokens()[0],
    ;

    /// The offset for the first `n` tokens, or what more is needed when fewer are at hand
    fn offset_at(&self, n: usize) -> (r: Result<usize, crate::error::Needed>)
        ensures
            n <= self.tokens().len() ==> r == Ok::<usize, crate::error::Needed>(self.offset_of(n as int) as usize)
                && self.offset_of(n as int) <= usize::MAX,
            n > self.tokens().len() ==> r == Err::<usize, crate::error::Needed>(self.short_by(n as int)),
    ;

    /// Split off a slice of the input ending at `offset`, which must lie at the end of a token
    fn next_slice(&self, offset: usize) -> (r: (Self, Self::Slice))
        requires
            exists|n: int| 0 <= n <= self.tokens().len() && #[trigger] self.offset_of(n) == offset,
        ensures
            forall|n: int|
                0 <= n <= self.tokens().len() && #[trigger] self.offset_of(n) == offset ==> self.advances(
                    r.0,
                    n,
                ) && Self::slice_tokens(r.1) == self.tokens().take(n),
    ;

    /// Split off a slice of `n` tokens from the input
    fn next_tokens(&self, n: usize) -> (r: (Self, Self::Slice))
        requires
            n <= self.tokens().len(),
        ensures
            self.advances(r.0, n as int),
            Self::slice_tokens(r.1) == self.tokens().take(n as int),
    {
        proof {
            self.lemma_offsets(0, n as int);
        }
        let o = self.offset_at(n).unwrap();
        assert(self.offset_of(n as int) == o);
        self.next_slice(o)
    }

    /// Report whether the stream is currently partial or complete
    fn is_partial(&self) -> (b: bool)
        ensures
            b == self.partial(),
    ;

    /// Compares two tokens for equality
    fn token_eq(a: Self::Token, b: Self::Token) -> (r: bool)
        ensures
            r == (a == b),
    ;
}

impl<'a> Input for &'a [u8] {
    type Token = u8;

    type Slice = &'a [u8];

    open spec fn tokens(&self) -> Seq<u8> {
        self@
    }

    open spec fn slice_tokens(s: &'a [u8]) -> Seq<u8> {
        s@
    }

    open spec fn partial(&self) -> bool {
        false
    }

    open spec fn advances(&self, rest: Self, n: int) -> bool {
        &&& 0 <= n <= self@.len()
        &&& rest@ == self@.skip(n)
    }

    proof fn lemma_advances(&self, rest: Self, n: int) {
        assert(rest.offset_len() == rest@.len());
        assert(self.offset_len() == self@.len());
        assert(self.offset_of(n) == n);
    }

    proof fn lemma_advances_zero(&self) {
        assert(self@.skip(0) =~= self@);
    }

    open spec fn offset_of(&self, n: int) -> int {
        n
    }

    open spec fn offset_len(&self) -> int {
        self@.len() as int
    }

    proof fn lemma_offsets(&self, k: int, n: int) {
        assert(self.offset_of(0) == 0);
        assert(self.offset_of(k) == k);
        assert(self.offset_of(n) == n);
        assert(self.offset_of(self@.len() as int) == self.offset_len());
    }

    open spec fn short_by(&self, n: int) -> crate::error::Needed {
        crate::error::needed(n - self@.len())
    }

    fn input_len(&self) -> (n: usize) {
        assert(self.offset_len() == self@.len());
        self.len()
    }

    fn token_count(&self) -> (n: usize) {
        self.len()
    }

    fn offset_at(&self, n: usize) -> (r: Result<usize, crate::error::Needed>) {
        assert(self.offset_of(n as int) == n);
        assert(self.short_by(n as int) == crate::error::needed(n - self@.len()));
        if n <= self.len() {
            Ok(n)
        } else {
            Err(crate::error::Needed::new(n - self.len()))
        }
    }

    fn token_at(&self, i: usize) -> (t: u8) {
        self[i]
    }

    fn next_token(&self) -> (r: Option<(Self, u8)>) {
        if self.len() == 0 {
            None
        } else {
            let rest = vstd::slice::slice_subrange(*self, 1, self.len());
            Some((rest, self[0]))
        }
    }

    fn next_slice(&self, offset: usize) -> (r: (Self, Self::Slice)) {
        let rest = vstd::slice::slice_subrange(*self, offset, self.len());
        let head = vstd::slice::slice_subrange(*self, 0, offset);
        assert forall|n: int|
            0 <= n <= self@.len() && #[trigger] self.offset_of(n) == offset implies self.advances(
                rest,
                n,
            ) && head@ == self@.take(n) by {
            assert(self.offset_of(n) == n);
            assert(rest@ =~= self@.skip(n));
            assert(head@ =~= self@.take(n));
        }
        (rest, head)
    }

    fn is_partial(&self) -> (b: bool) {
        false
    }

    fn token_eq(a: u8, b: u8) -> (r: bool) {
        a == b
    }
}

impl<'a> Input for &'a str {
    type Token = char;

    type Slice = &'a str;

    open spec fn tokens(&self) -> Seq<char> {
        self@
    }

    open spec fn slice_tokens(s: &'a str) -> Seq<char> {
        s@
    }

    open spec fn partial(&self) -> bool {
        false
    }

    open spec fn advances(&self, rest: Self, n: int) -> bool {
        &&& 0 <= n <= self@.len()
        &&& rest@ == self@.skip(n)
    }

    proof fn lemma_advances(&self, rest: Self, n: int) {
        assert(self@ =~= self@.take(n) + self@.skip(n));
        crate::error::lemma_utf8_len_concat(self@.take(n), self@.skip(n));
        assert(rest.offset_len() == crate::error::utf8_len(rest@));
        assert(self.offset_len() == crate::error::utf8_len(self@));
        assert(self.offset_of(n) == crate::error::utf8_len(self@.take(n)));
    }

    proof fn lemma_advances_zero(&self) {
        assert(self@.skip(0) =~= self@);
    }

    open spec fn offset_of(&self, n: int) -> int {
        crate::error::utf8_len(self@.take(n)) as int
    }

    open spec fn offset_len(&self) -> int {
        crate::error::utf8_len(self@) as int
    }

    proof fn lemma_offsets(&self, k: int, n: int) {
        assert(self@.take(0) =~= Seq::<char>::empty());
        assert(crate::error::utf8_len(Seq::<char>::empty()) == 0);
        assert(self@.take(self@.len() as int) =~= self@);
        lemma_utf8_len_prefix(self@, k, n);
        if k < n {
            lemma_utf8_len_strict(self@, k, n);
        }
        assert(self.offset_of(0) == crate::error::utf8_len(self@.take(0)));
        assert(self.offset_of(k) == crate::error::utf8_len(self@.take(k)));
        assert(self.offset_of(n) == crate::error::utf8_len(self@.take(n)));
        assert(self.offset_of(self@.len() as int) == crate::error::utf8_len(self@.take(self@.len() as int)));
        assert(self.offset_len() == crate::error::utf8_len(self@));
    }

    open spec fn short_by(&self, n: int) -> crate::error::Needed {
        crate::error::Needed::Unknown
    }

    fn input_len(&self) -> (n: usize) {
        let bytes = self.as_bytes();
        proof {
            lemma_encode_utf8_len(self@);
            assert(self.offset_len() == crate::error::utf8_len(self@));
        }
        bytes.len()
    }

    fn token_count(&self) -> (n: usize) {
        self.unicode_len()
    }

    fn offset_at(&self, n: usize) -> (r: Result<usize, crate::error::Needed>) {
        let len = self.unicode_len();
        if n > len {
            assert(self.short_by(n as int) == crate::error::Needed::Unknown);
            return Err(crate::error::Needed::Unknown);
        }
        let total = self.input_len();
        let ghost cs = self@;
        proof {
            lemma_utf8_len_prefix(cs, n as int, len as int);
            assert(cs.take(len as int) =~= cs);
        }
        let mut acc: usize = 0;
        let mut k: usize = 0;
        assert(cs.take(0) =~= Seq::<char>::empty());
        while k < n
            invariant
                k <= n <= len,
                len == cs.len(),
                cs == self@,
                total == crate::error::utf8_len(cs),
                crate::error::utf8_len(cs.take(n as int)) <= total,
                acc == crate::error::utf8_len(cs.take(k as int)),
            decreases n - k,
        {
            let c = self.get_char(k);
            let w = AsChar::len(c);
            proof {
                assert(cs.take(k + 1).drop_last() =~= cs.take(k as int));
                lemma_utf8_len_prefix(cs, k + 1, n as int);
            }
            acc = acc + w;
            k = k + 1;
        }
        assert(self.offset_of(n as int) == crate::error::utf8_len(cs.take(n as int)));
        Ok(acc)
    }

    fn token_at(&self, i: usize) -> (t: char) {
        self.get_char(i)
    }

    fn next_token(&self) -> (r: Option<(Self, char)>) {
        let len = self.unicode_len();
        if len == 0 {
            None
        } else {
            let c = self.get_char(0);
            let rest = self.substring_char(1, len);
            Some((rest, c))
        }
    }

    fn next_slice(&self, offset: usize) -> (r: (Self, Self::Slice)) {
        let len = self.unicode_len();
        let ghost cs = self@;
        let ghost m = choose|n: int| 0 <= n <= cs.len() && #[trigger] self.offset_of(n) == offset;
        proof {
            assert(self.offset_of(m) == crate::error::utf8_len(cs.take(m)));
            lemma_utf8_len_prefix(cs, m, len as int);
            assert(cs.take(len as int) =~= cs);
        }
        let total = self.input_len();
        let mut acc: usize = 0;
        let mut k: usize = 0;
        assert(cs.take(0) =~= Seq::<char>::empty());
        while acc < offset
            invariant
                k <= m <= len,
                len == cs.len(),
                cs == self@,
                total == crate::error::utf8_len(cs),
                crate::error::utf8_len(cs.take(m)) == offset,
                crate::error::utf8_len(cs.take(m)) <= total,
                acc == crate::error::utf8_len(cs.take(k as int)),
            decreases m - k,
        {
            proof {
                if k == m {
                    assert(false);
                }
            }
            let c = self.get_char(k);
            let w = AsChar::len(c);
            proof {
                assert(cs.take(k + 1).drop_last() =~= cs.take(k as int));
                lemma_utf8_len_prefix(cs, k + 1, m);
            }
            acc = acc + w;
            k = k + 1;
        }
        proof {
            if (k as int) < m {
                lemma_utf8_len_strict(cs, k as int, m);
            }
            assert forall|n: int| 0 <= n <= cs.len() && #[trigger] self.offset_of(n) == offset implies n == k by {
                assert(self.offset_of(n) == crate::error::utf8_len(cs.take(n)));
                if n < k {
                    lemma_utf8_len_strict(cs, n, k as int);
                } else if n > k {
                    lemma_utf8_len_strict(cs, k as int, n);
                }
            }
        }
        let rest = self.substring_char(k, len);
        let head = self.substring_char(0, k);
        assert(rest@ =~= cs.skip(k as int));
        assert(head@ =~= cs.take(k as int));
        (rest, head)
    }

    fn is_partial(&self) -> (b: bool) {
        false
    }

    fn token_eq(a: char, b: char) -> (r: bool) {
        a == b
    }
}

/// Text takes at least one byte per character.
pub proof fn lemma_utf8_len_at_least(s: Seq<char>)
    ensures
        crate::error::utf8_len(s) >= s.len(),
    decreases s.len(),
{
    if s.len() > 0 {
        lemma_utf8_len_at_least(s.drop_last());
    }
}

/// A longer prefix of a text takes at least as many bytes.
pub proof fn lemma_utf8_len_prefix(s: Seq<char>, k: int, n: int)
    requires
        0 <= k <= n <= s.len(),
    ensures
        crate::error::utf8_len(s.take(k)) <= crate::error::utf8_len(s.take(n)),
{
    assert(s.take(n) =~= s.take(k) + s.subrange(k, n));
    crate::error::lemma_utf8_len_concat(s.take(k), s.subrange(k, n));
}

/// A strictly longer prefix of a text takes strictly more bytes.
pub proof fn lemma_utf8_len_strict(s: Seq<char>, k: int, n: int)
    requires
        0 <= k < n <= s.len(),
    ensures
        crate::error::utf8_len(s.take(k)) < crate::error::utf8_len(s.take(n)),
{
    assert(s.take(n) =~= s.take(k) + s.subrange(k, n));
    crate::error::lemma_utf8_len_concat(s.take(k), s.subrange(k, n));
    lemma_utf8_len_at_least(s.subrange(k, n));
}

/// The UTF-8 encoding of a text is as long as the sum of its characters' widths.
pub proof fn lemma_encode_utf8_len(s: Seq<char>)
    ensures
        vstd::utf8::encode_utf8(s).len() == crate::error::utf8_len(s),
    decreases s.len(),
{
    if s.len() > 0 {
        let c = s[0];
        let u = c as u32;
        lemma_encode_utf8_len(s.drop_first());
        vstd::utf8::char_is_scalar(c);
        assert(s =~= seq![c] + s.drop_first());
        crate::error::lemma_utf8_len_concat(seq![c], s.drop_first());
        assert(seq![c].drop_last() =~= Seq::<char>::empty());
        assert(crate::error::utf8_len(Seq::<char>::empty()) == 0);
        assert(crate::error::utf8_len(seq![c]) == utf8_width(c));
        assert(vstd::utf8::encode_scalar(u).len() == utf8_width(c));
        assert(vstd::utf8::encode_utf8(s) == vstd::utf8::encode_scalar(u) + vstd::utf8::encode_utf8(
            s.drop_first(),
        ));
    }
}

/// Mark the input as a partial buffer for streaming input.
///
/// Complete input means that we already have all of the data.  This will be the common case with
/// small files that can be read entirely to memory.
///
/// In contrast, streaming input assumes that we might not have all of the data.
/// This can happen with some network protocol or large file parsers, where the
/// input buffer can be full and need to be resized or refilled.
/// - [`ErrMode::Incomplete`][crate::error::ErrMode::Incomplete] will report how much more data is needed.
/// - [`Parser::complete_err`][crate::parser::Parser::complete_err] transforms
///   [`ErrMode::Incomplete`][crate::error::ErrMode::Incomplete] into
///   [`ErrMode::Backtrack`][crate::error::ErrMode::Backtrack]
#[derive(Copy, Clone, Debug, PartialEq, Eq)]
pub struct Streaming<I>(pub I);

impl<I> Streaming<I> {
    /// Convert to complete counterpart
    pub fn into_complete(self) -> (r: I)
        ensures
            r == self.0,
    {
        self.0
    }
}

impl<I: Input> Input for Streaming<I> {
    type Token = I::Token;

    type Slice = I::Slice;

    open spec fn tokens(&self) -> Seq<I::Token> {
        self.0.tokens()
    }

    open spec fn slice_tokens(s: I::Slice) -> Seq<I::Token> {
        I::slice_tokens(s)
    }

    open spec fn partial(&self) -> bool {
        true
    }

    open spec fn advances(&self, rest: Self, n: int) -> bool {
        self.0.advances(rest.0, n)
    }

    proof fn lemma_advances(&self, rest: Self, n: int) {
        self.0.lemma_advances(rest.0, n);
        assert(rest.offset_len() == rest.0.offset_len());
        assert(self.offset_len() == self.0.offset_len());
        assert(self.offset_of(n) == self.0.offset_of(n));
    }

    proof fn lemma_advances_zero(&self) {
        self.0.lemma_advances_zero();
    }

    open spec fn offset_of(&self, n: int) -> int {
        self.0.offset_of(n)
    }

    open spec fn offset_len(&self) -> int {
        self.0.offset_len()
    }

    proof fn lemma_offsets(&self, k: int, n: int) {
        self.0.lemma_offsets(k, n);
        assert(self.offset_of(0) == self.0.offset_of(0));
        assert(self.offset_of(k) == self.0.offset_of(k));
        assert(self.offset_of(n) == self.0.offset_of(n));
        assert(self.offset_of(self.tokens().len() as int) == self.0.offset_of(self.0.tokens().len() as int));
        assert(self.offset_len() == self.0.offset_len());
    }

    open spec fn short_by(&self, n: int) -> crate::error::Needed {
        self.0.short_by(n)
    }

    fn input_len(&self) -> (n: usize) {
        assert(self.offset_len() == self.0.offset_len());
        self.0.input_len()
    }

    fn token_count(&self) -> (n: usize) {
        self.0.token_count()
    }

    fn offset_at(&self, n: usize) -> (r: Result<usize, crate::error::Needed>) {
        assert(self.offset_of(n as int) == self.0.offset_of(n as int));
        assert(self.short_by(n as int) == self.0.short_by(n as int));
        self.0.offset_at(n)
    }

    fn token_at(&self, i: usize) -> (t: I::Token) {
        self.0.token_at(i)
    }

    fn next_token(&self) -> (r: Option<(Self, I::Token)>) {
        match self.0.next_token() {
            None => None,
            Some((rest, t)) => Some((Streaming(rest), t)),
        }
    }

    fn next_slice(&self, offset: usize) -> (r: (Self, Self::Slice)) {
        let ghost w = choose|n: int| 0 <= n <= self.tokens().len() && #[trigger] self.offset_of(n) == offset;
        assert(self.0.offset_of(w) == offset);
        let (rest, head) = self.0.next_slice(offset);
        let r = (Streaming(rest), head);
        assert forall|n: int|
            0 <= n <= self.tokens().len() && #[trigger] self.offset_of(n) == offset implies self.advances(
                r.0,
                n,
            ) && Self::slice_tokens(r.1) == self.tokens().take(n) by {
            assert(self.0.offset_of(n) == offset);
        }
        r
    }

    fn is_partial(&self) -> (b: bool) {
        true
    }

    fn token_eq(a: I::Token, b: I::Token) -> (r: bool) {
        I::token_eq(a, b)
    }
}

/// Allow collecting the span of a parsed token
///
/// The location is the offset consumed since the input was wrapped: in bytes for text, in
/// tokens otherwise.
#[derive(Copy, Clone, Debug, PartialEq, Eq)]
pub struct Located<I> {
    /// The input as it was when it was wrapped
    pub initial: I,
    /// The input that remains
    pub input: I,
}

impl<I: Input> Located<I> {
    /// Wrap another Input with span tracking
    pub fn new(input: I) -> (r: Self)
        ensures
            r.initial == input,
            r.input == input,
    {
        Located { initial: input, input }
    }

    /// The offset (bytes for text, tokens otherwise) consumed since the input was wrapped
    pub open spec fn spec_location(&self) -> int {
        self.initial.offset_len() - self.input.offset_len()
    }

    /// Offset (bytes for text, tokens otherwise) consumed since the input was wrapped
    pub fn location(&self) -> (r: usize)
        ensures
            r == if self.input.offset_len() <= self.initial.offset_len() {
                self.spec_location()
            } else {
                0
            },
    {
        let a = self.initial.input_len();
        let b = self.input.input_len();
        if b <= a {
            a - b
        } else {
            0
        }
    }
}

impl<I: Input> Input for Located<I> {
    type Token = I::Token;

    type Slice = I::Slice;

    open spec fn tokens(&self) -> Seq<I::Token> {
        self.input.tokens()
    }

    open spec fn slice_tokens(s: I::Slice) -> Seq<I::Token> {
        I::slice_tokens(s)
    }

    open spec fn partial(&self) -> bool {
        self.input.partial()
    }

    open spec fn advances(&self, rest: Self, n: int) -> bool {
        &&& self.input.advances(rest.input, n)
        &&& rest.initial == self.initial
    }

    proof fn lemma_advances(&self, rest: Self, n: int) {
        self.input.lemma_advances(rest.input, n);
        assert(rest.offset_len() == rest.input.offset_len());
        assert(self.offset_len() == self.input.offset_len());
        assert(self.offset_of(n) == self.input.offset_of(n));
    }

    proof fn lemma_advances_zero(&self) {
        self.input.lemma_advances_zero();
    }

    open spec fn offset_of(&self, n: int) -> int {
        self.input.offset_of(n)
    }

    open spec fn offset_len(&self) -> int {
        self.input.offset_len()
    }

    proof fn lemma_offsets(&self, k: int, n: int) {
        self.input.lemma_offsets(k, n);
        assert(self.offset_of(0) == self.input.offset_of(0));
        assert(self.offset_of(k) == self.input.offset_of(k));
        assert(self.offset_of(n) == self.input.offset_of(n));
        assert(self.offset_of(self.tokens().len() as int) == self.input.offset_of(self.input.tokens().len() as int));
        assert(self.offset_len() == self.input.offset_len());
    }

    open spec fn short_by(&self, n: int) -> crate::error::Needed {
        self.input.short_by(n)
    }

    fn input_len(&self) -> (n: usize) {
        assert(self.offset_len() == self.input.offset_len());
        self.input.input_len()
    }

    fn token_count(&self) -> (n: usize) {
        self.input.token_count()
    }

    fn offset_at(&self, n: usize) -> (r: Result<usize, crate::error::Needed>) {
        assert(self.offset_of(n as int) == self.input.offset_of(n as int));
        assert(self.short_by(n as int) == self.input.short_by(n as int));
        self.input.offset_at(n)
    }

    fn token_at(&self, i: usize) -> (t: I::Token) {
        self.input.token_at(i)
    }

    fn next_token(&self) -> (r: Option<(Self, I::Token)>) {
        match self.input.next_token() {
            None => None,
            Some((rest, t)) => Some((Located { initial: self.initial, input: rest }, t)),
        }
    }

    fn next_slice(&self, offset: usize) -> (r: (Self, Self::Slice)) {
        let ghost w = choose|n: int| 0 <= n <= self.tokens().len() && #[trigger] self.offset_of(n) == offset;
        assert(self.input.offset_of(w) == offset);
        let (rest, head) = self.input.next_slice(offset);
        let r = (Located { initial: self.initial, input: rest }, head);
        assert forall|n: int|
            0 <= n <= self.tokens().len() && #[trigger] self.offset_of(n) == offset implies self.advances(
                r.0,
                n,
            ) && Self::slice_tokens(r.1) == self.tokens().take(n) by {
            assert(self.input.offset_of(n) == offset);
        }
        r
    }

    fn is_partial(&self) -> (b: bool) {
        self.input.is_partial()
    }

    fn token_eq(a: I::Token, b: I::Token) -> (r: bool) {
        I::token_eq(a, b)
    }
}


/// Indicates whether a comparison was successful, an error, or
/// if more data was needed
#[derive(Debug, Eq, PartialEq, Clone, Copy)]
pub enum CompareResult {
    /// Comparison was successful
    Match,
    /// We need more data to be sure
    Incomplete,
    /// Comparison failed
    Error,
}

/// How the front of `s` compares with `t`: `Ok` when `s` starts with `t`, `Incomplete`
/// when `s` is a proper prefix of `t`, `Error` otherwise.
pub open spec fn compare_spec<T>(s: Seq<T>, t: Seq<T>) -> CompareResult {
    if s.len() >= t.len() && s.take(t.len() as int) == t {
        CompareResult::Match
    } else if s.len() < t.len() && t.take(s.len() as int) == s {
        CompareResult::Incomplete
    } else {
        CompareResult::Error
    }
}

/// Lowercases an ASCII letter, leaves every other byte as it is.
pub open spec fn spec_lowercase_byte(c: u8) -> u8 {
    if 65 <= c <= 90 {
        (c + 32) as u8
    } else {
        c
    }
}

/// Lowercases an ASCII letter, leaves every other byte as it is.
pub fn lowercase_byte(c: u8) -> (r: u8)
    ensures
        r == spec_lowercase_byte(c),
{
    if 65 <= c && c <= 90 {
        c + 32
    } else {
        c
    }
}

/// Lowercases an ASCII letter, leaves every other char as it is.
pub open spec fn spec_lowercase_char(c: char) -> char {
    if 'A' <= c <= 'Z' {
        ((c as u32) + 32) as char
    } else {
        c
    }
}

/// Lowercases an ASCII letter, leaves every other char as it is.
pub fn lowercase_char(c: char) -> (r: char)
    ensures
        r == spec_lowercase_char(c),
{
    if 'A' <= c && c <= 'Z' {
        let u = c as u32 + 32;
        assert(0x61 <= u <= 0x7a);
        let r = char_from_ascii_u32(u);
        r
    } else {
        c
    }
}

fn char_from_ascii_u32(u: u32) -> (r: char)
    requires
        0x61 <= u <= 0x7a,
    ensures
        r == u as char,
{
    let b: u8 = u as u8;
    b as char
}

/// Tokens whose case can be ignored in comparisons
pub trait CaseFold: Copy {
    /// The token, lowercased
    spec fn spec_lower(self) -> Self;

    /// Lowercases the token
    fn lower(self) -> (r: Self)
        ensures
            r == self.spec_lower(),
    ;
}

impl CaseFold for u8 {
    open spec fn spec_lower(self) -> u8 {
        spec_lowercase_byte(self)
    }

    fn lower(self) -> (r: u8) {
        lowercase_byte(self)
    }
}

impl CaseFold for char {
    open spec fn spec_lower(self) -> char {
        spec_lowercase_char(self)
    }

    fn lower(self) -> (r: char) {
        lowercase_char(self)
    }
}

/// `s` with every token lowercased
pub open spec fn lower_seq<T: CaseFold>(s: Seq<T>) -> Seq<T> {
    s.map_values(|t: T| t.spec_lower())
}

/// Abstracts comparison operations against a literal of type `T`
pub trait Compare<T: Copy>: Input where Self::Token: CaseFold {
    /// The tokens of the literal `t`
    spec fn literal(t: T) -> Seq<Self::Token>;

    /// The number of tokens in the literal
    fn literal_len(t: T) -> (n: usize)
        ensures
            n == Self::literal(t).len(),
    ;

    /// The token of the literal at position `i`
    fn literal_at(t: T, i: usize) -> (c: Self::Token)
        requires
            i < Self::literal(t).len(),
        ensures
            c == Self::literal(t)[i as int],
    ;

    /// The length of the literal in offset units: bytes for text, tokens otherwise
    spec fn literal_units(t: T) -> int;

    /// Returns the length of the literal in offset units
    fn literal_offset_len(t: T) -> (n: usize)
        ensures
            n == Self::literal_units(t),
    ;

    /// Compares self to another value for equality
    fn compare(&self, t: T) -> (r: CompareResult)
        ensures
            r == compare_spec(self.tokens(), Self::literal(t)),
    {
        let n = Self::literal_len(t);
        let len = self.token_count();
        let m = if len < n {
            len
        } else {
            n
        };
        let mut i: usize = 0;
        while i < m
            invariant
                n == Self::literal(t).len(),
                len == self.tokens().len(),
                m <= n,
                m <= len,
                m == n || m == len,
                i <= m,
                forall|j: int| 0 <= j < i ==> self.tokens()[j] == Self::literal(t)[j],
            decreases m - i,
        {
            let a = self.token_at(i);
            let b = Self::literal_at(t, i);
            if !Self::token_eq(a, b) {
                proof {
                    let s = self.tokens();
                    let l = Self::literal(t);
                    if s.len() >= l.len() {
                        assert(s.take(l.len() as int)[i as int] != l[i as int]);
                    } else {
                        assert(l.take(s.len() as int)[i as int] != s[i as int]);
                    }
                }
                return CompareResult::Error;
            }
            i += 1;
        }
        proof {
            let s = self.tokens();
            let l = Self::literal(t);
            if m == n {
                assert(s.take(l.len() as int) =~= l);
            } else {
                assert(l.take(s.len() as int) =~= s);
            }
        }
        if len >= n {
            CompareResult::Match
        } else {
            CompareResult::Incomplete
        }
    }

    /// Compares self to another value for equality independently of the case.
    ///
    /// Only ASCII letters are folded.
    fn compare_no_case(&self, t: T) -> (r: CompareResult)
        ensures
            r == compare_spec(lower_seq(self.tokens()), lower_seq(Self::literal(t))),
    {
        let n = Self::literal_len(t);
        let len = self.token_count();
        let m = if len < n {
            len
        } else {
            n
        };
        let ghost s = lower_seq(self.tokens());
        let ghost l = lower_seq(Self::literal(t));
        let mut i: usize = 0;
        while i < m
            invariant
                n == Self::literal(t).len(),
                len == self.tokens().len(),
                s == lower_seq(self.tokens()),
                l == lower_seq(Self::literal(t)),
                m <= n,
                m <= len,
                m == n || m == len,
                i <= m,
                forall|j: int| 0 <= j < i ==> s[j] == l[j],
            decreases m - i,
        {
            let a = self.token_at(i).lower();
            let b = Self::literal_at(t, i).lower();
            if !Self::token_eq(a, b) {
                proof {
                    assert(s[i as int] == a);
                    assert(l[i as int] == b);
                    if s.len() >= l.len() {
                        assert(s.take(l.len() as int)[i as int] != l[i as int]);
                    } else {
                        assert(l.take(s.len() as int)[i as int] != s[i as int]);
                    }
                }
                return CompareResult::Error;
            }
            proof {
                assert(s[i as int] == a);
                assert(l[i as int] == b);
            }
            i += 1;
        }
        proof {
            if m == n {
                assert(s.take(l.len() as int) =~= l);
            } else {
                assert(l.take(s.len() as int) =~= s);
            }
        }
        if len >= n {
            CompareResult::Match
        } else {
            CompareResult::Incomplete
        }
    }
}

impl<'a, 'b> Compare<&'b [u8]> for &'a [u8] {
    open spec fn literal(t: &'b [u8]) -> Seq<u8> {
        t@
    }

    fn literal_len(t: &'b [u8]) -> (n: usize) {
        t.len()
    }

    fn literal_at(t: &'b [u8], i: usize) -> (c: u8) {
        t[i]
    }

    open spec fn literal_units(t: &'b [u8]) -> int {
        t@.len() as int
    }

    fn literal_offset_len(t: &'b [u8]) -> (n: usize) {
        t.len()
    }
}

impl<'a, 'b> Compare<&'b str> for &'a [u8] {
    open spec fn literal(t: &'b str) -> Seq<u8> {
        t.spec_bytes()
    }

    fn literal_len(t: &'b str) -> (n: usize) {
        t.as_bytes().len()
    }

    fn literal_at(t: &'b str, i: usize) -> (c: u8) {
        t.as_bytes()[i]
    }

    open spec fn literal_units(t: &'b str) -> int {
        t.spec_bytes().len() as int
    }

    fn literal_offset_len(t: &'b str) -> (n: usize) {
        t.as_bytes().len()
    }
}

impl<'a, 'b> Compare<&'b str> for &'a str {
    open spec fn literal(t: &'b str) -> Seq<char> {
        t@
    }

    fn literal_len(t: &'b str) -> (n: usize) {
        t.unicode_len()
    }

    fn literal_at(t: &'b str, i: usize) -> (c: char) {
        t.get_char(i)
    }

    open spec fn literal_units(t: &'b str) -> int {
        crate::error::utf8_len(t@) as int
    }

    fn literal_offset_len(t: &'b str) -> (n: usize) {
        let b = t.as_bytes();
        proof {
            lemma_encode_utf8_len(t@);
        }
        b.len()
    }
}

impl<'a> Compare<u8> for &'a [u8] {
    open spec fn literal(t: u8) -> Seq<u8> {
        seq![t]
    }

    fn literal_len(t: u8) -> (n: usize) {
        1
    }

    fn literal_at(t: u8, i: usize) -> (c: u8) {
        t
    }

    open spec fn literal_units(t: u8) -> int {
        1
    }

    fn literal_offset_len(t: u8) -> (n: usize) {
        1
    }
}

impl<'a> Compare<char> for &'a str {
    open spec fn literal(t: char) -> Seq<char> {
        seq![t]
    }

    fn literal_len(t: char) -> (n: usize) {
        1
    }

    fn literal_at(t: char, i: usize) -> (c: char) {
        t
    }

    open spec fn literal_units(t: char) -> int {
        utf8_width(t) as int
    }

    fn literal_offset_len(t: char) -> (n: usize) {
        AsChar::len(t)
    }
}

impl<I: Compare<T>, T: Copy> Compare<T> for Streaming<I> where I::Token: CaseFold {
    open spec fn literal(t: T) -> Seq<I::Token> {
        I::literal(t)
    }

    fn literal_len(t: T) -> (n: usize) {
        I::literal_len(t)
    }

    fn literal_at(t: T, i: usize) -> (c: I::Token) {
        I::literal_at(t, i)
    }

    open spec fn literal_units(t: T) -> int {
        I::literal_units(t)
    }

    fn literal_offset_len(t: T) -> (n: usize) {
        I::literal_offset_len(t)
    }
}

impl<I: Compare<T>, T: Copy> Compare<T> for Located<I> where I::Token: CaseFold {
    open spec fn literal(t: T) -> Seq<I::Token> {
        I::literal(t)
    }

    fn literal_len(t: T) -> (n: usize) {
        I::literal_len(t)
    }

    fn literal_at(t: T, i: usize) -> (c: I::Token) {
        I::literal_at(t, i)
    }

    open spec fn literal_units(t: T) -> int {
        I::literal_units(t)
    }

    fn literal_offset_len(t: T) -> (n: usize) {
        I::literal_offset_len(t)
    }
}


/// ASCII letter
pub open spec fn char_is_alpha(c: char) -> bool {
    ('a' <= c <= 'z') || ('A' <= c <= 'Z')
}

/// ASCII decimal digit
pub open spec fn char_is_dec_digit(c: char) -> bool {
    '0' <= c <= '9'
}

/// ASCII hexadecimal digit
pub open spec fn char_is_hex_digit(c: char) -> bool {
    ('0' <= c <= '9') || ('a' <= c <= 'f') || ('A' <= c <= 'F')
}

/// ASCII octal digit
pub open spec fn char_is_oct_digit(c: char) -> bool {
    '0' <= c <= '7'
}

/// ASCII letter or digit
pub open spec fn char_is_alphanum(c: char) -> bool {
    char_is_alpha(c) || char_is_dec_digit(c)
}

/// Space or tab
pub open spec fn char_is_space(c: char) -> bool {
    c == ' ' || c == '\t'
}

/// Line feed
pub open spec fn char_is_newline(c: char) -> bool {
    c == '\n'
}

/// Transforms common types to a char for basic token parsing
pub trait AsChar: Copy {
    /// The token as a char
    spec fn spec_as_char(self) -> char;

    /// Makes a char from self
    fn as_char(self) -> (c: char)
        ensures
            c == self.spec_as_char(),
    ;

    /// Tests that self is an alphabetic character
    ///
    /// **Warning:** for `&str` it recognizes alphabetic
    /// characters outside of the 52 ASCII letters
    fn is_alpha(self) -> (b: bool)
        ensures
            b == char_is_alpha(self.spec_as_char()),
    {
        let c = self.as_char();
        ('a' <= c && c <= 'z') || ('A' <= c && c <= 'Z')
    }

    /// Tests that self is an alphabetic character
    /// or a decimal digit
    fn is_alphanum(self) -> (b: bool)
        ensures
            b == char_is_alphanum(self.spec_as_char()),
    {
        self.is_alpha() || self.is_dec_digit()
    }

    /// Tests that self is a decimal digit
    fn is_dec_digit(self) -> (b: bool)
        ensures
            b == char_is_dec_digit(self.spec_as_char()),
    {
        let c = self.as_char();
        '0' <= c && c <= '9'
    }

    /// Tests that self is an hex digit
    fn is_hex_digit(self) -> (b: bool)
        ensures
            b == char_is_hex_digit(self.spec_as_char()),
    {
        let c = self.as_char();
        ('0' <= c && c <= '9') || ('a' <= c && c <= 'f') || ('A' <= c && c <= 'F')
    }

    /// Tests that self is an octal digit
    fn is_oct_digit(self) -> (b: bool)
        ensures
            b == char_is_oct_digit(self.spec_as_char()),
    {
        let c = self.as_char();
        '0' <= c && c <= '7'
    }

    /// The number of bytes that self takes in the input
    spec fn spec_len(self) -> nat;

    /// Gets the len in bytes for self
    fn len(self) -> (n: usize)
        ensures
            n == self.spec_len(),
            1 <= n <= 4,
    ;

    /// Tests that self is ASCII space or tab
    fn is_space(self) -> (b: bool)
        ensures
            b == char_is_space(self.spec_as_char()),
    {
        let c = self.as_char();
        c == ' ' || c == '\t'
    }

    /// Tests if byte is ASCII newline: \n
    fn is_newline(self) -> (b: bool)
        ensures
            b == char_is_newline(self.spec_as_char()),
    {
        self.as_char() == '\n'
    }
}

impl AsChar for u8 {
    open spec fn spec_as_char(self) -> char {
        self as char
    }

    /// A byte is one byte long
    open spec fn spec_len(self) -> nat {
        1
    }

    fn as_char(self) -> (c: char) {
        self as char
    }

    fn len(self) -> (n: usize) {
        1
    }
}

impl AsChar for char {
    open spec fn spec_as_char(self) -> char {
        self
    }

    /// A character is as long as its UTF-8 encoding
    open spec fn spec_len(self) -> nat {
        utf8_width(self)
    }

    fn as_char(self) -> (c: char) {
        self
    }

    fn len(self) -> (n: usize) {
        assert(self.spec_len() == utf8_width(self));
        let u = self as u32;
        if u < 0x80 {
            1
        } else if u < 0x800 {
            2
        } else if u < 0x10000 {
            3
        } else {
            4
        }
    }
}

/// Check if a token in in a set of possible tokens
///
/// `contains_rel(token, r)` states the answers the set may give for `token`; for the sets
/// of this library other than closures, exactly one answer satisfies it.
pub trait ContainsToken<T> {
    /// What the set needs to be asked about `token`
    spec fn contains_req(&self, token: T) -> bool;

    /// The answers the set may give for `token`
    spec fn contains_rel(&self, token: T, r: bool) -> bool;

    /// Returns true if self contains the token
    fn contains_token(&self, token: T) -> (r: bool)
        requires
            self.contains_req(token),
        ensures
            self.contains_rel(token, r),
    ;
}

impl ContainsToken<u8> for u8 {
    open spec fn contains_req(&self, token: u8) -> bool {
        true
    }

    open spec fn contains_rel(&self, token: u8, r: bool) -> bool {
        r == (*self == token)
    }

    fn contains_token(&self, token: u8) -> (r: bool) {
        *self == token
    }
}

impl ContainsToken<char> for u8 {
    open spec fn contains_req(&self, token: char) -> bool {
        true
    }

    open spec fn contains_rel(&self, token: char, r: bool) -> bool {
        r == ((*self as char) == token)
    }

    fn contains_token(&self, token: char) -> (r: bool) {
        self.as_char() == token
    }
}

impl ContainsToken<char> for char {
    open spec fn contains_req(&self, token: char) -> bool {
        true
    }

    open spec fn contains_rel(&self, token: char, r: bool) -> bool {
        r == (*self == token)
    }

    fn contains_token(&self, token: char) -> (r: bool) {
        *self == token
    }
}

impl ContainsToken<u8> for char {
    open spec fn contains_req(&self, token: u8) -> bool {
        true
    }

    open spec fn contains_rel(&self, token: u8, r: bool) -> bool {
        r == (*self == (token as char))
    }

    fn contains_token(&self, token: u8) -> (r: bool) {
        *self == token.as_char()
    }
}

impl<T, F: Fn(T) -> bool> ContainsToken<T> for F {
    open spec fn contains_req(&self, token: T) -> bool {
        call_requires(*self, (token,))
    }

    open spec fn contains_rel(&self, token: T, r: bool) -> bool {
        call_ensures(*self, (token,), r)
    }

    fn contains_token(&self, token: T) -> (r: bool) {
        (self)(token)
    }
}

impl<'a> ContainsToken<u8> for &'a [u8] {
    open spec fn contains_req(&self, token: u8) -> bool {
        true
    }

    open spec fn contains_rel(&self, token: u8, r: bool) -> bool {
        r == self@.contains(token)
    }

    fn contains_token(&self, token: u8) -> (r: bool) {
        match crate::find::first_byte(token, *self) {
            Some(_) => true,
            None => false,
        }
    }
}

impl<'a> ContainsToken<char> for &'a [u8] {
    open spec fn contains_req(&self, token: char) -> bool {
        true
    }

    open spec fn contains_rel(&self, token: char, r: bool) -> bool {
        r == exists|i: int| 0 <= i < self@.len() && (self@[i] as char) == token
    }

    fn contains_token(&self, token: char) -> (r: bool) {
        let mut i: usize = 0;
        while i < self.len()
            invariant
                i <= self@.len(),
                forall|j: int| 0 <= j < i ==> (self@[j] as char) != token,
            decreases self@.len() - i,
        {
            if self[i].as_char() == token {
                return true;
            }
            i += 1;
        }
        false
    }
}

impl<'a> ContainsToken<char> for &'a str {
    open spec fn contains_req(&self, token: char) -> bool {
        true
    }

    open spec fn contains_rel(&self, token: char, r: bool) -> bool {
        r == self@.contains(token)
    }

    fn contains_token(&self, token: char) -> (r: bool) {
        let n = self.unicode_len();
        let mut i: usize = 0;
        while i < n
            invariant
                n == self@.len(),
                i <= n,
                forall|j: int| 0 <= j < i ==> self@[j] != token,
            decreases n - i,
        {
            if self.get_char(i) == token {
                return true;
            }
            i += 1;
        }
        false
    }
}


impl<'a> ContainsToken<u8> for &'a str {
    open spec fn contains_req(&self, token: u8) -> bool {
        true
    }

    open spec fn contains_rel(&self, token: u8, r: bool) -> bool {
        r == self.spec_bytes().contains(token)
    }

    fn contains_token(&self, token: u8) -> (r: bool) {
        let bytes: &[u8] = self.as_bytes();
        bytes.contains_token(token)
    }
}

impl<'a> ContainsToken<char> for &'a [char] {
    open spec fn contains_req(&self, token: char) -> bool {
        true
    }

    open spec fn contains_rel(&self, token: char, r: bool) -> bool {
        r == self@.contains(token)
    }

    fn contains_token(&self, token: char) -> (r: bool) {
        let mut i: usize = 0;
        while i < self.len()
            invariant
                i <= self@.len(),
                forall|j: int| 0 <= j < i ==> self@[j] != token,
            decreases self@.len() - i,
        {
            if self[i] == token {
                return true;
            }
            i += 1;
        }
        false
    }
}

impl<'a> ContainsToken<u8> for &'a [char] {
    open spec fn contains_req(&self, token: u8) -> bool {
        true
    }

    open spec fn contains_rel(&self, token: u8, r: bool) -> bool {
        r == self@.contains(token as char)
    }

    fn contains_token(&self, token: u8) -> (r: bool) {
        self.contains_token(token.as_char())
    }
}

/// The tokens from `start` up to, and not including, `end`, compared as characters
impl<C1: AsChar, C2: AsChar> ContainsToken<C1> for core::ops::Range<C2> {
    open spec fn contains_req(&self, token: C1) -> bool {
        true
    }

    open spec fn contains_rel(&self, token: C1, r: bool) -> bool {
        r == (self.start.spec_as_char() <= token.spec_as_char() && token.spec_as_char()
            < self.end.spec_as_char())
    }

    fn contains_token(&self, token: C1) -> (r: bool) {
        let start = self.start.as_char();
        let end = self.end.as_char();
        let c = token.as_char();
        start <= c && c < end
    }
}

/// The empty set: it holds no token
impl<T> ContainsToken<T> for () {
    open spec fn contains_req(&self, token: T) -> bool {
        true
    }

    open spec fn contains_rel(&self, token: T, r: bool) -> bool {
        r == false
    }

    fn contains_token(&self, token: T) -> (r: bool) {
        false
    }
}

/// A union of sets: a token is in it when one of them holds it. The sets are asked in
/// order, and the first one that holds the token ends the search.
impl<T: Copy, A: ContainsToken<T>, B: ContainsToken<T>> ContainsToken<T> for (A, B) {
    open spec fn contains_req(&self, token: T) -> bool {
        self.0.contains_req(token) && self.1.contains_req(token)
    }

    open spec fn contains_rel(&self, token: T, r: bool) -> bool {
        if r {
            (self.0.contains_rel(token, true))
                || (self.0.contains_rel(token, false) && self.1.contains_rel(token, true))
        } else {
            self.0.contains_rel(token, false) && self.1.contains_rel(token, false)
        }
    }

    fn contains_token(&self, token: T) -> (r: bool) {
        if self.0.contains_token(token) {
            return true;
        }
        if self.1.contains_token(token) {
            return true;
        }
        false
    }
}

/// A union of sets: a token is in it when one of them holds it. The sets are asked in
/// order, and the first one that holds the token ends the search.
impl<T: Copy, A: ContainsToken<T>, B: ContainsToken<T>, C: ContainsToken<T>> ContainsToken<T> for (A, B, C) {
    open spec fn contains_req(&self, token: T) -> bool {
        self.0.contains_req(token) && self.1.contains_req(token) && self.2.contains_req(token)
    }

    open spec fn contains_rel(&self, token: T, r: bool) -> bool {
        if r {
            (self.0.contains_rel(token, true))
                || (self.0.contains_rel(token, false) && self.1.contains_rel(token, true))
                || (self.0.contains_rel(token, false) && self.1.contains_rel(token, false) && self.2.contains_rel(token, true))
        } else {
            self.0.contains_rel(token, false) && self.1.contains_rel(token, false) && self.2.contains_rel(token, false)
        }
    }

    fn contains_token(&self, token: T) -> (r: bool) {
        if self.0.contains_token(token) {
            return true;
        }
        if self.1.contains_token(token) {
            return true;
        }
        if self.2.contains_token(token) {
            return true;
        }
        false
    }
}

/// A union of sets: a token is in it when one of them holds it. The sets are asked in
/// order, and the first one that holds the token ends the search.
impl<T: Copy, A: ContainsToken<T>, B: ContainsToken<T>, C: ContainsToken<T>, D: ContainsToken<T>> ContainsToken<T> for (A, B, C, D) {
    open spec fn contains_req(&self, token: T) -> bool {
        self.0.contains_req(token) && self.1.contains_req(token) && self.2.contains_req(token) && self.3.contains_req(token)
    }

    open spec fn contains_rel(&self, token: T, r: bool) -> bool {
        if r {
            (self.0.contains_rel(token, true))
                || (self.0.contains_rel(token, false) && self.1.contains_rel(token, true))
                || (self.0.contains_rel(token, false) && self.1.contains_rel(token, false) && self.2.contains_rel(token, true))
                || (self.0.contains_rel(token, false) && self.1.contains_rel(token, false) && self.2.contains_rel(token, false) && self.3.contains_rel(token, true))
        } else {
            self.0.contains_rel(token, false) && self.1.contains_rel(token, false) && self.2.contains_rel(token, false) && self.3.contains_rel(token, false)
        }
    }

    fn contains_token(&self, token: T) -> (r: bool) {
        if self.0.contains_token(token) {
            return true;
        }
        if self.1.contains_token(token) {
            return true;
        }
        if self.2.contains_token(token) {
            return true;
        }
        if self.3.contains_token(token) {
            return true;
        }
        false
    }
}

/// A union of sets: a token is in it when one of them holds it. The sets are asked in
/// order, and the first one that holds the token ends the search.
impl<T: Copy, A: ContainsToken<T>, B: ContainsToken<T>, C: ContainsToken<T>, D: ContainsToken<T>, E: ContainsToken<T>> ContainsToken<T> for (A, B, C, D, E) {
    open spec fn contains_req(&self, token: T) -> bool {
        self.0.contains_req(token) && self.1.contains_req(token) && self.2.contains_req(token) && self.3.contains_req(token) && self.4.contains_req(token)
    }

    open spec fn contains_rel(&self, token: T, r: bool) -> bool {
        if r {
            (self.0.contains_rel(token, true))
                || (self.0.contains_rel(token, false) && self.1.contains_rel(token, true))
                || (self.0.contains_rel(token, false) && self.1.contains_rel(token, false) && self.2.contains_rel(token, true))
                || (self.0.contains_rel(token, false) && self.1.contains_rel(token, false) && self.2.contains_rel(token, false) && self.3.contains_rel(token, true))
                || (self.0.contains_rel(token, false) && self.1.contains_rel(token, false) && self.2.contains_rel(token, false) && self.3.contains_rel(token, false) && self.4.contains_rel(token, true))
        } else {
            self.0.contains_rel(token, false) && self.1.contains_rel(token, false) && self.2.contains_rel(token, false) && self.3.contains_rel(token, false) && self.4.contains_rel(token, false)
        }
    }

    fn contains_token(&self, token: T) -> (r: bool) {
        if self.0.contains_token(token) {
            return true;
        }
        if self.1.contains_token(token) {
            return true;
        }
        if self.2.contains_token(token) {
            return true;
        }
        if self.3.contains_token(token) {
            return true;
        }
        if self.4.contains_token(token) {
            return true;
        }
        false
    }
}


/// Look for a slice in self
pub trait FindSlice<T>: Input {
    /// The tokens that are looked for
    spec fn needle(t: T) -> Seq<Self::Token>;

    /// Returns the offset of the slice if it is found
    fn find_slice(&self, t: T) -> (r: Option<usize>)
        ensures
            r is None ==> crate::find::never_occurs(self.tokens(), Self::needle(t)),
            r matches Some(i) ==> crate::find::first_occurrence(self.tokens(), Self::needle(t), i as int),
    ;
}

impl<'a, 'b> FindSlice<&'b [u8]> for &'a [u8] {
    open spec fn needle(t: &'b [u8]) -> Seq<u8> {
        t@
    }

    fn find_slice(&self, t: &'b [u8]) -> (r: Option<usize>) {
        crate::find::first_slice(*self, t)
    }
}

impl<'a, 'b> FindSlice<&'b str> for &'a [u8] {
    open spec fn needle(t: &'b str) -> Seq<u8> {
        t.spec_bytes()
    }

    fn find_slice(&self, t: &'b str) -> (r: Option<usize>) {
        crate::find::first_slice(*self, t.as_bytes())
    }
}

impl<'a> FindSlice<u8> for &'a [u8] {
    open spec fn needle(t: u8) -> Seq<u8> {
        seq![t]
    }

    fn find_slice(&self, t: u8) -> (r: Option<usize>) {
        let r = crate::find::first_byte(t, *self);
        proof {
            let s = self@;
            let nd = seq![t];
            match r {
                Some(i) => {
                    assert(s.subrange(i as int, i + 1) =~= nd);
                    assert forall|j: int| 0 <= j < i implies !#[trigger] crate::find::occurs_at(s, nd, j) by {
                        if crate::find::occurs_at(s, nd, j) {
                            assert(s.subrange(j, j + 1)[0] == s[j]);
                        }
                    }
                },
                None => {
                    assert forall|j: int| !#[trigger] crate::find::occurs_at(s, nd, j) by {
                        if crate::find::occurs_at(s, nd, j) {
                            assert(s.subrange(j, j + 1)[0] == s[j]);
                            assert(s.contains(t));
                        }
                    }
                },
            }
        }
        r
    }
}

/// Searches `hay` for `needle` token by token.
fn find_tokens<I: Compare<T>, T: Copy>(hay: I, t: T) -> (r: Option<usize>)
    where I::Token: CaseFold,
    ensures
        r is None ==> crate::find::never_occurs(hay.tokens(), I::literal(t)),
        r matches Some(i) ==> crate::find::first_occurrence(hay.tokens(), I::literal(t), i as int),
{
    let len = hay.token_count();
    let n = I::literal_len(t);
    let ghost s = hay.tokens();
    let ghost nd = I::literal(t);
    if n > len {
        proof {
            assert forall|j: int| !#[trigger] crate::find::occurs_at(s, nd, j) by {
            }
        }
        return None;
    }
    let mut i: usize = 0;
    let mut cur = hay;
    proof {
        hay.lemma_advances_zero();
    }
    while i <= len - n
        invariant
            len == s.len(),
            n == nd.len(),
            n <= len,
            s == hay.tokens(),
            nd == I::literal(t),
            i <= len,
            cur.tokens() == s.skip(i as int),
            forall|j: int| 0 <= j < i ==> !#[trigger] crate::find::occurs_at(s, nd, j),
        decreases len - i,
    {
        let c = cur.compare(t);
        proof {
            assert(cur.tokens().take(n as int) =~= s.subrange(i as int, i + n));
        }
        match c {
            CompareResult::Match => {
                return Some(i);
            },
            _ => {},
        }
        proof {
            if n == 0 {
                assert(cur.tokens().take(0) =~= nd);
            }
        }
        let (next, _) = cur.next_tokens(1);
        proof {
            cur.lemma_advances(next, 1);
            assert(next.tokens() =~= s.skip(i + 1));
        }
        cur = next;
        i += 1;
    }
    proof {
        assert forall|j: int| !#[trigger] crate::find::occurs_at(s, nd, j) by {
            if 0 <= j && j < i {
            }
        }
    }
    None
}

impl<'a, 'b> FindSlice<&'b str> for &'a str {
    open spec fn needle(t: &'b str) -> Seq<char> {
        t@
    }

    fn find_slice(&self, t: &'b str) -> (r: Option<usize>) {
        find_tokens(*self, t)
    }
}

impl<'a> FindSlice<char> for &'a str {
    open spec fn needle(t: char) -> Seq<char> {
        seq![t]
    }

    fn find_slice(&self, t: char) -> (r: Option<usize>) {
        find_tokens(*self, t)
    }
}

impl<I: FindSlice<T>, T> FindSlice<T> for Streaming<I> {
    open spec fn needle(t: T) -> Seq<I::Token> {
        I::needle(t)
    }

    fn find_slice(&self, t: T) -> (r: Option<usize>) {
        self.0.find_slice(t)
    }
}

impl<I: FindSlice<T>, T> FindSlice<T> for Located<I> {
    open spec fn needle(t: T) -> Seq<I::Token> {
        I::needle(t)
    }

    fn find_slice(&self, t: T) -> (r: Option<usize>) {
        self.input.find_slice(t)
    }
}

/// Used to integrate `str`'s `parse()` method
pub trait ParseSlice<R> {
    /// What parsing the slice gives: `None` when it fails
    spec fn parsed(&self) -> Option<R>;

    /// Succeeds if `parse()` succeeded. The byte slice implementation
    /// will first convert it to a `&str`, then apply the `parse()` function
    fn parse_slice(&self) -> (r: Option<R>)
        ensures
            r == self.parsed(),
    ;
}

/// The value of a run of ASCII decimal digits, most significant first.
pub open spec fn digits_value(s: Seq<char>) -> int
    decreases s.len(),
{
    if s.len() == 0 {
        0
    } else {
        digits_value(s.drop_last()) * 10 + (s.last() as u32 - 48)
    }
}

/// Whether `s` is one or more ASCII decimal digits.
pub open spec fn all_digits(s: Seq<char>) -> bool {
    s.len() > 0 && forall|i: int| 0 <= i < s.len() ==> '0' <= #[trigger] s[i] <= '9'
}

/// The integer that decimal text denotes: an optional sign (`-` only where `signed`) and
/// one or more ASCII digits; `None` for anything else.
pub open spec fn decimal_text(s: Seq<char>, signed: bool) -> Option<int> {
    if s.len() > 0 && s[0] == '+' {
        if all_digits(s.skip(1)) {
            Some(digits_value(s.skip(1)))
        } else {
            None
        }
    } else if signed && s.len() > 0 && s[0] == '-' {
        if all_digits(s.skip(1)) {
            Some(-digits_value(s.skip(1)))
        } else {
            None
        }
    } else if all_digits(s) {
        Some(digits_value(s))
    } else {
        None
    }
}

/// What `core::str::from_utf8` makes of `bytes`: the text they encode, or `None` when they
/// are not valid UTF-8.
pub uninterp spec fn utf8_decoded(bytes: Seq<u8>) -> Option<Seq<char>>;

/// Decodes `bytes` as UTF-8 through `core::str::from_utf8`.
///
/// The contract names the outcome `utf8_decoded(bytes@)`, and states what the
/// documentation gives for ASCII, which is valid UTF-8: each byte is one character.
#[verifier::external_body]
fn utf8_text<'a>(bytes: &'a [u8]) -> (r: Option<&'a str>)
    ensures
        r is Some <==> utf8_decoded(bytes@) is Some,
        r is Some ==> utf8_decoded(bytes@) == Some(r.unwrap()@),
        (forall|i: int| 0 <= i < bytes@.len() ==> #[trigger] bytes@[i] < 128) ==> r is Some
            && r.unwrap()@ == bytes@.map_values(|b: u8| b as char),
{
    core::str::from_utf8(bytes).ok()
}

/// What `str::parse::<i8>` gives for `s`: the decimal value, where it fits in `i8`.
pub open spec fn parsed_i8(s: Seq<char>) -> Option<i8> {
    match decimal_text(s, true) {
        Some(v) => if i8::MIN <= v && v <= i8::MAX {
            Some(v as i8)
        } else {
            None
        },
        None => None,
    }
}

/// Parses `s` with `str::parse::<i8>`.
///
/// The contract claims what the documentation of `i8::from_str` states: an optional sign
/// (`+`, or `-` for a signed type) and one or more ASCII digits give their value when it
/// fits in `i8`; anything else fails.
#[verifier::external_body]
fn parse_i8(s: &str) -> (r: Option<i8>)
    ensures
        r == parsed_i8(s@),
{
    s.parse::<i8>().ok()
}

impl<'a> ParseSlice<i8> for &'a [u8] {
    open spec fn parsed(&self) -> Option<i8> {
        match utf8_decoded(self@) {
            Some(text) => parsed_i8(text),
            None => None,
        }
    }

    fn parse_slice(&self) -> (r: Option<i8>) {
        match utf8_text(*self) {
            Some(s) => parse_i8(s),
            None => None,
        }
    }
}

impl<'a> ParseSlice<i8> for &'a str {
    open spec fn parsed(&self) -> Option<i8> {
        parsed_i8(self@)
    }

    fn parse_slice(&self) -> (r: Option<i8>) {
        parse_i8(*self)
    }
}

/// What `str::parse::<i16>` gives for `s`: the decimal value, where it fits in `i16`.
pub open spec fn parsed_i16(s: Seq<char>) -> Option<i16> {
    match decimal_text(s, true) {
        Some(v) => if i16::MIN <= v && v <= i16::MAX {
            Some(v as i16)
        } else {
            None
        },
        None => None,
    }
}

/// Parses `s` with `str::parse::<i16>`.
///
/// The contract claims what the documentation of `i16::from_str` states: an optional sign
/// (`+`, or `-` for a signed type) and one or more ASCII digits give their value when it
/// fits in `i16`; anything else fails.
#[verifier::external_body]
fn parse_i16(s: &str) -> (r: Option<i16>)
    ensures
        r == parsed_i16(s@),
{
    s.parse::<i16>().ok()
}

impl<'a> ParseSlice<i16> for &'a [u8] {
    open spec fn parsed(&self) -> Option<i16> {
        match utf8_decoded(self@) {
            Some(text) => parsed_i16(text),
            None => None,
        }
    }

    fn parse_slice(&self) -> (r: Option<i16>) {
        match utf8_text(*self) {
            Some(s) => parse_i16(s),
            None => None,
        }
    }
}

impl<'a> ParseSlice<i16> for &'a str {
    open spec fn parsed(&self) -> Option<i16> {
        parsed_i16(self@)
    }

    fn parse_slice(&self) -> (r: Option<i16>) {
        parse_i16(*self)
    }
}

/// What `str::parse::<i32>` gives for `s`: the decimal value, where it fits in `i32`.
pub open spec fn parsed_i32(s: Seq<char>) -> Option<i32> {
    match decimal_text(s, true) {
        Some(v) => if i32::MIN <= v && v <= i32::MAX {
            Some(v as i32)
        } else {
            None
        },
        None => None,
    }
}

/// Parses `s` with `str::parse::<i32>`.
///
/// The contract claims what the documentation of `i32::from_str` states: an optional sign
/// (`+`, or `-` for a signed type) and one or more ASCII digits give their value when it
/// fits in `i32`; anything else fails.
#[verifier::external_body]
fn parse_i32(s: &str) -> (r: Option<i32>)
    ensures
        r == parsed_i32(s@),
{
    s.parse::<i32>().ok()
}

impl<'a> ParseSlice<i32> for &'a [u8] {
    open spec fn parsed(&self) -> Option<i32> {
        match utf8_decoded(self@) {
            Some(text) => parsed_i32(text),
            None => None,
        }
    }

    fn parse_slice(&self) -> (r: Option<i32>) {
        match utf8_text(*self) {
            Some(s) => parse_i32(s),
            None => None,
        }
    }
}

impl<'a> ParseSlice<i32> for &'a str {
    open spec fn parsed(&self) -> Option<i32> {
        parsed_i32(self@)
    }

    fn parse_slice(&self) -> (r: Option<i32>) {
        parse_i32(*self)
    }
}

/// What `str::parse::<i64>` gives for `s`: the decimal value, where it fits in `i64`.
pub open spec fn parsed_i64(s: Seq<char>) -> Option<i64> {
    match decimal_text(s, true) {
        Some(v) => if i64::MIN <= v && v <= i64::MAX {
            Some(v as i64)
        } else {
            None
        },
        None => None,
    }
}

/// Parses `s` with `str::parse::<i64>`.
///
/// The contract claims what the documentation of `i64::from_str` states: an optional sign
/// (`+`, or `-` for a signed type) and one or more ASCII digits give their value when it
/// fits in `i64`; anything else fails.
#[verifier::external_body]
fn parse_i64(s: &str) -> (r: Option<i64>)
    ensures
        r == parsed_i64(s@),
{
    s.parse::<i64>().ok()
}

impl<'a> ParseSlice<i64> for &'a [u8] {
    open spec fn parsed(&self) -> Option<i64> {
        match utf8_decoded(self@) {
            Some(text) => parsed_i64(text),
            None => None,
        }
    }

    fn parse_slice(&self) -> (r: Option<i64>) {
        match utf8_text(*self) {
            Some(s) => parse_i64(s),
            None => None,
        }
    }
}

impl<'a> ParseSlice<i64> for &'a str {
    open spec fn parsed(&self) -> Option<i64> {
        parsed_i64(self@)
    }

    fn parse_slice(&self) -> (r: Option<i64>) {
        parse_i64(*self)
    }
}

/// What `str::parse::<i128>` gives for `s`: the decimal value, where it fits in `i128`.
pub open spec fn parsed_i128(s: Seq<char>) -> Option<i128> {
    match decimal_text(s, true) {
        Some(v) => if i128::MIN <= v && v <= i128::MAX {
            Some(v as i128)
        } else {
            None
        },
        None => None,
    }
}

/// Parses `s` with `str::parse::<i128>`.
///
/// The contract claims what the documentation of `i128::from_str` states: an optional sign
/// (`+`, or `-` for a signed type) and one or more ASCII digits give their value when it
/// fits in `i128`; anything else fails.
#[verifier::external_body]
fn parse_i128(s: &str) -> (r: Option<i128>)
    ensures
        r == parsed_i128(s@),
{
    s.parse::<i128>().ok()
}

impl<'a> ParseSlice<i128> for &'a [u8] {
    open spec fn parsed(&self) -> Option<i128> {
        match utf8_decoded(self@) {
            Some(text) => parsed_i128(text),
            None => None,
        }
    }

    fn parse_slice(&self) -> (r: Option<i128>) {
        match utf8_text(*self) {
            Some(s) => parse_i128(s),
            None => None,
        }
    }
}

impl<'a> ParseSlice<i128> for &'a str {
    open spec fn parsed(&self) -> Option<i128> {
        parsed_i128(self@)
    }

    fn parse_slice(&self) -> (r: Option<i128>) {
        parse_i128(*self)
    }
}

/// What `str::parse::<isize>` gives for `s`: the decimal value, where it fits in `isize`.
pub open spec fn parsed_isize(s: Seq<char>) -> Option<isize> {
    match decimal_text(s, true) {
        Some(v) => if isize::MIN <= v && v <= isize::MAX {
            Some(v as isize)
        } else {
            None
        },
        None => None,
    }
}

/// Parses `s` with `str::parse::<isize>`.
///
/// The contract claims what the documentation of `isize::from_str` states: an optional sign
/// (`+`, or `-` for a signed type) and one or more ASCII digits give their value when it
/// fits in `isize`; anything else fails.
#[verifier::external_body]
fn parse_isize(s: &str) -> (r: Option<isize>)
    ensures
        r == parsed_isize(s@),
{
    s.parse::<isize>().ok()
}

impl<'a> ParseSlice<isize> for &'a [u8] {
    open spec fn parsed(&self) -> Option<isize> {
        match utf8_decoded(self@) {
            Some(text) => parsed_isize(text),
            None => None,
        }
    }

    fn parse_slice(&self) -> (r: Option<isize>) {
        match utf8_text(*self) {
            Some(s) => parse_isize(s),
            None => None,
        }
    }
}

impl<'a> ParseSlice<isize> for &'a str {
    open spec fn parsed(&self) -> Option<isize> {
        parsed_isize(self@)
    }

    fn parse_slice(&self) -> (r: Option<isize>) {
        parse_isize(*self)
    }
}

/// What `str::parse::<u8>` gives for `s`: the decimal value, where it fits in `u8`.
pub open spec fn parsed_u8(s: Seq<char>) -> Option<u8> {
    match decimal_text(s, false) {
        Some(v) => if u8::MIN <= v && v <= u8::MAX {
            Some(v as u8)
        } else {
            None
        },
        None => None,
    }
}

/// Parses `s` with `str::parse::<u8>`.
///
/// The contract claims what the documentation of `u8::from_str` states: an optional sign
/// (`+`, or `-` for a signed type) and one or more ASCII digits give their value when it
/// fits in `u8`; anything else fails.
#[verifier::external_body]
fn parse_u8(s: &str) -> (r: Option<u8>)
    ensures
        r == parsed_u8(s@),
{
    s.parse::<u8>().ok()
}

impl<'a> ParseSlice<u8> for &'a [u8] {
    open spec fn parsed(&self) -> Option<u8> {
        match utf8_decoded(self@) {
            Some(text) => parsed_u8(text),
            None => None,
        }
    }

    fn parse_slice(&self) -> (r: Option<u8>) {
        match utf8_text(*self) {
            Some(s) => parse_u8(s),
            None => None,
        }
    }
}

impl<'a> ParseSlice<u8> for &'a str {
    open spec fn parsed(&self) -> Option<u8> {
        parsed_u8(self@)
    }

    fn parse_slice(&self) -> (r: Option<u8>) {
        parse_u8(*self)
    }
}

/// What `str::parse::<u16>` gives for `s`: the decimal value, where it fits in `u16`.
pub open spec fn parsed_u16(s: Seq<char>) -> Option<u16> {
    match decimal_text(s, false) {
        Some(v) => if u16::MIN <= v && v <= u16::MAX {
            Some(v as u16)
        } else {
            None
        },
        None => None,
    }
}

/// Parses `s` with `str::parse::<u16>`.
///
/// The contract claims what the documentation of `u16::from_str` states: an optional sign
/// (`+`, or `-` for a signed type) and one or more ASCII digits give their value when it
/// fits in `u16`; anything else fails.
#[verifier::external_body]
fn parse_u16(s: &str) -> (r: Option<u16>)
    ensures
        r == parsed_u16(s@),
{
    s.parse::<u16>().ok()
}

impl<'a> ParseSlice<u16> for &'a [u8] {
    open spec fn parsed(&self) -> Option<u16> {
        match utf8_decoded(self@) {
            Some(text) => parsed_u16(text),
            None => None,
        }
    }

    fn parse_slice(&self) -> (r: Option<u16>) {
        match utf8_text(*self) {
            Some(s) => parse_u16(s),
            None => None,
        }
    }
}

impl<'a> ParseSlice<u16> for &'a str {
    open spec fn parsed(&self) -> Option<u16> {
        parsed_u16(self@)
    }

    fn parse_slice(&self) -> (r: Option<u16>) {
        parse_u16(*self)
    }
}

/// What `str::parse::<u32>` gives for `s`: the decimal value, where it fits in `u32`.
pub open spec fn parsed_u32(s: Seq<char>) -> Option<u32> {
    match decimal_text(s, false) {
        Some(v) => if u32::MIN <= v && v <= u32::MAX {
            Some(v as u32)
        } else {
            None
        },
        None => None,
    }
}

/// Parses `s` with `str::parse::<u32>`.
///
/// The contract claims what the documentation of `u32::from_str` states: an optional sign
/// (`+`, or `-` for a signed type) and one or more ASCII digits give their value when it
/// fits in `u32`; anything else fails.
#[verifier::external_body]
fn parse_u32(s: &str) -> (r: Option<u32>)
    ensures
        r == parsed_u32(s@),
{
    s.parse::<u32>().ok()
}

impl<'a> ParseSlice<u32> for &'a [u8] {
    open spec fn parsed(&self) -> Option<u32> {
        match utf8_decoded(self@) {
            Some(text) => parsed_u32(text),
            None => None,
        }
    }

    fn parse_slice(&self) -> (r: Option<u32>) {
        match utf8_text(*self) {
            Some(s) => parse_u32(s),
            None => None,
        }
    }
}

impl<'a> ParseSlice<u32> for &'a str {
    open spec fn parsed(&self) -> Option<u32> {
        parsed_u32(self@)
    }

    fn parse_slice(&self) -> (r: Option<u32>) {
        parse_u32(*self)
    }
}

/// What `str::parse::<u64>` gives for `s`: the decimal value, where it fits in `u64`.
pub open spec fn parsed_u64(s: Seq<char>) -> Option<u64> {
    match decimal_text(s, false) {
        Some(v) => if u64::MIN <= v && v <= u64::MAX {
            Some(v as u64)
        } else {
            None
        },
        None => None,
    }
}

/// Parses `s` with `str::parse::<u64>`.
///
/// The contract claims what the documentation of `u64::from_str` states: an optional sign
/// (`+`, or `-` for a signed type) and one or more ASCII digits give their value when it
/// fits in `u64`; anything else fails.
#[verifier::external_body]
fn parse_u64(s: &str) -> (r: Option<u64>)
    ensures
        r == parsed_u64(s@),
{
    s.parse::<u64>().ok()
}

impl<'a> ParseSlice<u64> for &'a [u8] {
    open spec fn parsed(&self) -> Option<u64> {
        match utf8_decoded(self@) {
            Some(text) => parsed_u64(text),
            None => None,
        }
    }

    fn parse_slice(&self) -> (r: Option<u64>) {
        match utf8_text(*self) {
            Some(s) => parse_u64(s),
            None => None,
        }
    }
}

impl<'a> ParseSlice<u64> for &'a str {
    open spec fn parsed(&self) -> Option<u64> {
        parsed_u64(self@)
    }

    fn parse_slice(&self) -> (r: Option<u64>) {
        parse_u64(*self)
    }
}

/// What `str::parse::<u128>` gives for `s`: the decimal value, where it fits in `u128`.
pub open spec fn parsed_u128(s: Seq<char>) -> Option<u128> {
    match decimal_text(s, false) {
        Some(v) => if u128::MIN <= v && v <= u128::MAX {
            Some(v as u128)
        } else {
            None
        },
        None => None,
    }
}

/// Parses `s` with `str::parse::<u128>`.
///
/// The contract claims what the documentation of `u128::from_str` states: an optional sign
/// (`+`, or `-` for a signed type) and one or more ASCII digits give their value when it
/// fits in `u128`; anything else fails.
#[verifier::external_body]
fn parse_u128(s: &str) -> (r: Option<u128>)
    ensures
        r == parsed_u128(s@),
{
    s.parse::<u128>().ok()
}

impl<'a> ParseSlice<u128> for &'a [u8] {
    open spec fn parsed(&self) -> Option<u128> {
        match utf8_decoded(self@) {
            Some(text) => parsed_u128(text),
            None => None,
        }
    }

    fn parse_slice(&self) -> (r: Option<u128>) {
        match utf8_text(*self) {
            Some(s) => parse_u128(s),
            None => None,
        }
    }
}

impl<'a> ParseSlice<u128> for &'a str {
    open spec fn parsed(&self) -> Option<u128> {
        parsed_u128(self@)
    }

    fn parse_slice(&self) -> (r: Option<u128>) {
        parse_u128(*self)
    }
}

/// What `str::parse::<usize>` gives for `s`: the decimal value, where it fits in `usize`.
pub open spec fn parsed_usize(s: Seq<char>) -> Option<usize> {
    match decimal_text(s, false) {
        Some(v) => if usize::MIN <= v && v <= usize::MAX {
            Some(v as usize)
        } else {
            None
        },
        None => None,
    }
}

/// Parses `s` with `str::parse::<usize>`.
///
/// The contract claims what the documentation of `usize::from_str` states: an optional sign
/// (`+`, or `-` for a signed type) and one or more ASCII digits give their value when it
/// fits in `usize`; anything else fails.
#[verifier::external_body]
fn parse_usize(s: &str) -> (r: Option<usize>)
    ensures
        r == parsed_usize(s@),
{
    s.parse::<usize>().ok()
}

impl<'a> ParseSlice<usize> for &'a [u8] {
    open spec fn parsed(&self) -> Option<usize> {
        match utf8_decoded(self@) {
            Some(text) => parsed_usize(text),
            None => None,
        }
    }

    fn parse_slice(&self) -> (r: Option<usize>) {
        match utf8_text(*self) {
            Some(s) => parse_usize(s),
            None => None,
        }
    }
}

impl<'a> ParseSlice<usize> for &'a str {
    open spec fn parsed(&self) -> Option<usize> {
        parsed_usize(self@)
    }

    fn parse_slice(&self) -> (r: Option<usize>) {
        parse_usize(*self)
    }
}


/// Abstracts slices that can be restored to an input
pub trait UpdateSlice: Input {
    /// Convert an `Output` type to be used as `Input`
    fn update_slice(self, inner: Self::Slice) -> (r: Self)
        ensures
            r.tokens() == Self::slice_tokens(inner),
            r.partial() == self.partial(),
    ;
}

impl<'a> UpdateSlice for &'a [u8] {
    fn update_slice(self, inner: Self::Slice) -> (r: Self) {
        inner
    }
}

impl<'a> UpdateSlice for &'a str {
    fn update_slice(self, inner: Self::Slice) -> (r: Self) {
        inner
    }
}

impl<I: UpdateSlice> UpdateSlice for Streaming<I> {
    fn update_slice(self, inner: Self::Slice) -> (r: Self) {
        Streaming(self.0.update_slice(inner))
    }
}

impl<I: UpdateSlice> UpdateSlice for Located<I> {
    fn update_slice(self, inner: Self::Slice) -> (r: Self) {
        Located { initial: self.initial, input: self.input.update_slice(inner) }
    }
}

/// Abstracts something which can extend an `Extend`.
/// Used to build modified input slices in `escaped_transform`
///
/// `holds(items)` states that the accumulator is what accumulating `items`, in order, into
/// an initial accumulator gives.
pub trait Accumulate<T>: Sized {
    /// `self` is the accumulation of `items`
    spec fn holds(&self, items: Seq<T>) -> bool;

    /// Create a new `Extend` of the correct type
    fn initial(capacity: Option<usize>) -> (r: Self)
        ensures
            r.holds(Seq::empty()),
    ;

    /// Accumulate the input into an accumulator
    fn accumulate(&mut self, acc: T)
        ensures
            forall|items: Seq<T>| old(self).holds(items) ==> #[trigger] final(self).holds(items.push(acc)),
    ;
}

impl<T> Accumulate<T> for () {
    open spec fn holds(&self, items: Seq<T>) -> bool {
        true
    }

    fn initial(capacity: Option<usize>) -> (r: Self) {
    }

    fn accumulate(&mut self, acc: T) {
    }
}

/// Counts the items, saturating at `usize::MAX`.
impl<T> Accumulate<T> for usize {
    open spec fn holds(&self, items: Seq<T>) -> bool {
        *self == if items.len() < usize::MAX {
            items.len() as int
        } else {
            usize::MAX as int
        }
    }

    fn initial(capacity: Option<usize>) -> (r: Self) {
        0
    }

    fn accumulate(&mut self, acc: T) {
        *self = self.saturating_add(1);
    }
}

impl<T> Accumulate<T> for Vec<T> {
    open spec fn holds(&self, items: Seq<T>) -> bool {
        self@ == items
    }

    fn initial(capacity: Option<usize>) -> (r: Self) {
        Vec::new()
    }

    fn accumulate(&mut self, acc: T) {
        self.push(acc);
    }
}

/// Appends `c` to `s` with `String::push`.
///
/// The contract claims that the text of `s` gains `c` at its end.
#[verifier::external_body]
pub(crate) fn push_char(s: &mut String, c: char)
    ensures
        final(s)@ == old(s)@.push(c),
{
    s.push(c);
}

/// Collects the characters into a `String`.
impl Accumulate<char> for String {
    open spec fn holds(&self, items: Seq<char>) -> bool {
        self@ == items
    }

    fn initial(capacity: Option<usize>) -> (r: Self) {
        String::new()
    }

    fn accumulate(&mut self, acc: char) {
        push_char(self, acc);
    }
}

/// The texts of `items`, one after the other.
pub open spec fn joined(items: Seq<&str>) -> Seq<char>
    decreases items.len(),
{
    if items.len() == 0 {
        Seq::empty()
    } else {
        joined(items.drop_last()) + items.last()@
    }
}

/// Joins the text slices into a `String`.
impl<'i> Accumulate<&'i str> for String {
    open spec fn holds(&self, items: Seq<&'i str>) -> bool {
        self@ == joined(items)
    }

    fn initial(capacity: Option<usize>) -> (r: Self) {
        String::new()
    }

    fn accumulate(&mut self, acc: &'i str) {
        let n = acc.unicode_len();
        let mut k: usize = 0;
        while k < n
            invariant
                k <= n,
                n == acc@.len(),
                self@ == old(self)@ + acc@.take(k as int),
            decreases n - k,
        {
            push_char(self, acc.get_char(k));
            k += 1;
            assert(self@ =~= old(self)@ + acc@.take(k as int));
        }
        assert(acc@.take(n as int) =~= acc@);
        assert forall|items: Seq<&'i str>| old(self).holds(items) implies #[trigger] self.holds(items.push(acc)) by {
            assert(items.push(acc).drop_last() =~= items);
        }
    }
}

/// The map that inserting `items`, in order, into an empty map gives: a later pair
/// replaces an earlier one with the same key.
pub open spec fn inserted_all<K, V>(items: Seq<(K, V)>) -> Map<K, V>
    decreases items.len(),
{
    if items.len() == 0 {
        Map::empty()
    } else {
        inserted_all(items.drop_last()).insert(items.last().0, items.last().1)
    }
}

/// Inserts the pairs into a `BTreeMap`; what the map holds is stated for keys whose
/// comparison behaves as a total order.
impl<K: Ord, V> Accumulate<(K, V)> for std::collections::BTreeMap<K, V> {
    open spec fn holds(&self, items: Seq<(K, V)>) -> bool {
        vstd::laws_cmp::obeys_cmp::<K>() ==> self@ == inserted_all(items)
    }

    fn initial(capacity: Option<usize>) -> (r: Self) {
        std::collections::BTreeMap::new()
    }

    fn accumulate(&mut self, acc: (K, V)) {
        let (key, value) = acc;
        self.insert(key, value);
        assert forall|items: Seq<(K, V)>| old(self).holds(items) implies #[trigger] self.holds(items.push(acc)) by {
            assert(items.push(acc).drop_last() =~= items);
        }
    }
}

/// Inserts the pairs into a `HashMap`; what the map holds is stated for keys whose
/// hashing and equality follow the key model.
impl<K: Eq + core::hash::Hash, V> Accumulate<(K, V)> for std::collections::HashMap<K, V> {
    open spec fn holds(&self, items: Seq<(K, V)>) -> bool {
        vstd::std_specs::hash::obeys_key_model::<K>() ==> self@ == inserted_all(items)
    }

    fn initial(capacity: Option<usize>) -> (r: Self) {
        std::collections::HashMap::new()
    }

    fn accumulate(&mut self, acc: (K, V)) {
        let (key, value) = acc;
        proof {
            broadcast use vstd::std_specs::hash::axiom_random_state_builds_valid_hashers;
        }
        self.insert(key, value);
        assert forall|items: Seq<(K, V)>| old(self).holds(items) implies #[trigger] self.holds(items.push(acc)) by {
            assert(items.push(acc).drop_last() =~= items);
        }
    }
}

/// Helper trait to convert numbers to usize.
pub trait ToUsize: Copy {
    /// The value as an integer
    spec fn spec_value(self) -> int;

    /// converts self to usize
    fn to_usize(&self) -> (r: usize)
        ensures
            r == self.spec_value(),
    ;
}

impl ToUsize for u8 {
    open spec fn spec_value(self) -> int {
        self as int
    }

    fn to_usize(&self) -> (r: usize) {
        *self as usize
    }
}

impl ToUsize for u16 {
    open spec fn spec_value(self) -> int {
        self as int
    }

    fn to_usize(&self) -> (r: usize) {
        *self as usize
    }
}

impl ToUsize for usize {
    open spec fn spec_value(self) -> int {
        self as int
    }

    fn to_usize(&self) -> (r: usize) {
        *self
    }
}

impl ToUsize for u32 {
    open spec fn spec_value(self) -> int {
        self as usize as int
    }

    fn to_usize(&self) -> (r: usize) {
        *self as usize
    }
}

impl ToUsize for u64 {
    open spec fn spec_value(self) -> int {
        self as usize as int
    }

    fn to_usize(&self) -> (r: usize) {
        *self as usize
    }
}


/// Thread global state through your parsers
///
/// The state is carried along with the input: parsers see and consume the input, and the
/// state stays as it was given.
#[derive(Clone, Copy, Debug, Eq, PartialEq)]
pub struct Stateful<I, S> {
    /// Inner input being wrapped in state
    pub input: I,
    /// User-provided state
    pub state: S,
}

impl<I: Input, S: Copy> Input for Stateful<I, S> {
    type Token = I::Token;

    type Slice = I::Slice;

    open spec fn tokens(&self) -> Seq<I::Token> {
        self.input.tokens()
    }

    open spec fn slice_tokens(s: I::Slice) -> Seq<I::Token> {
        I::slice_tokens(s)
    }

    open spec fn partial(&self) -> bool {
        self.input.partial()
    }

    open spec fn advances(&self, rest: Self, n: int) -> bool {
        &&& self.input.advances(rest.input, n)
        &&& rest.state == self.state
    }

    proof fn lemma_advances(&self, rest: Self, n: int) {
        self.input.lemma_advances(rest.input, n);
        assert(rest.offset_len() == rest.input.offset_len());
        assert(self.offset_len() == self.input.offset_len());
        assert(self.offset_of(n) == self.input.offset_of(n));
    }

    proof fn lemma_advances_zero(&self) {
        self.input.lemma_advances_zero();
    }

    open spec fn offset_of(&self, n: int) -> int {
        self.input.offset_of(n)
    }

    open spec fn offset_len(&self) -> int {
        self.input.offset_len()
    }

    proof fn lemma_offsets(&self, k: int, n: int) {
        self.input.lemma_offsets(k, n);
        assert(self.offset_of(0) == self.input.offset_of(0));
        assert(self.offset_of(k) == self.input.offset_of(k));
        assert(self.offset_of(n) == self.input.offset_of(n));
        assert(self.offset_of(self.tokens().len() as int) == self.input.offset_of(self.input.tokens().len() as int));
        assert(self.offset_len() == self.input.offset_len());
    }

    open spec fn short_by(&self, n: int) -> crate::error::Needed {
        self.input.short_by(n)
    }

    fn input_len(&self) -> (n: usize) {
        assert(self.offset_len() == self.input.offset_len());
        self.input.input_len()
    }

    fn token_count(&self) -> (n: usize) {
        self.input.token_count()
    }

    fn offset_at(&self, n: usize) -> (r: Result<usize, crate::error::Needed>) {
        assert(self.offset_of(n as int) == self.input.offset_of(n as int));
        assert(self.short_by(n as int) == self.input.short_by(n as int));
        self.input.offset_at(n)
    }

    fn token_at(&self, i: usize) -> (t: I::Token) {
        self.input.token_at(i)
    }

    fn next_token(&self) -> (r: Option<(Self, I::Token)>) {
        match self.input.next_token() {
            None => None,
            Some((rest, t)) => Some((Stateful { input: rest, state: self.state }, t)),
        }
    }

    fn next_slice(&self, offset: usize) -> (r: (Self, Self::Slice)) {
        let ghost w = choose|n: int| 0 <= n <= self.tokens().len() && #[trigger] self.offset_of(n) == offset;
        assert(self.input.offset_of(w) == offset);
        let (rest, head) = self.input.next_slice(offset);
        let r = (Stateful { input: rest, state: self.state }, head);
        assert forall|n: int|
            0 <= n <= self.tokens().len() && #[trigger] self.offset_of(n) == offset implies self.advances(
                r.0,
                n,
            ) && Self::slice_tokens(r.1) == self.tokens().take(n) by {
            assert(self.input.offset_of(n) == offset);
        }
        r
    }

    fn is_partial(&self) -> (b: bool) {
        self.input.is_partial()
    }

    fn token_eq(a: I::Token, b: I::Token) -> (r: bool) {
        I::token_eq(a, b)
    }
}

impl<I: Compare<T>, T: Copy, S: Copy> Compare<T> for Stateful<I, S> where I::Token: CaseFold {
    open spec fn literal(t: T) -> Seq<I::Token> {
        I::literal(t)
    }

    fn literal_len(t: T) -> (n: usize) {
        I::literal_len(t)
    }

    fn literal_at(t: T, i: usize) -> (c: I::Token) {
        I::literal_at(t, i)
    }

    open spec fn literal_units(t: T) -> int {
        I::literal_units(t)
    }

    fn literal_offset_len(t: T) -> (n: usize) {
        I::literal_offset_len(t)
    }
}

impl<I: FindSlice<T>, T, S: Copy> FindSlice<T> for Stateful<I, S> {
    open spec fn needle(t: T) -> Seq<I::Token> {
        I::needle(t)
    }

    fn find_slice(&self, t: T) -> (r: Option<usize>) {
        self.input.find_slice(t)
    }
}

/// Abstract method to calculate the input length
pub trait SliceLen {
    /// The length that `slice_len` reports
    spec fn spec_slice_len(&self) -> nat;

    /// Calculates the input length, as indicated by its name,
    /// and the name of the trait itself
    fn slice_len(&self) -> (n: usize)
        ensures
            n == self.spec_slice_len(),
    ;
}

impl<'a, T> SliceLen for &'a [T] {
    open spec fn spec_slice_len(&self) -> nat {
        self@.len()
    }

    fn slice_len(&self) -> (n: usize) {
        self.len()
    }
}

impl<'a> SliceLen for &'a str {
    open spec fn spec_slice_len(&self) -> nat {
        self.spec_bytes().len() as usize as nat
    }

    fn slice_len(&self) -> (n: usize) {
        self.len()
    }
}

impl<I: SliceLen> SliceLen for Located<I> {
    open spec fn spec_slice_len(&self) -> nat {
        self.input.spec_slice_len()
    }

    fn slice_len(&self) -> (n: usize) {
        self.input.slice_len()
    }
}

impl<I: SliceLen, S> SliceLen for Stateful<I, S> {
    open spec fn spec_slice_len(&self) -> nat {
        self.input.spec_slice_len()
    }

    fn slice_len(&self) -> (n: usize) {
        self.input.slice_len()
    }
}

impl<I: SliceLen> SliceLen for Streaming<I> {
    open spec fn spec_slice_len(&self) -> nat {
        self.0.spec_slice_len()
    }

    fn slice_len(&self) -> (n: usize) {
        self.0.slice_len()
    }
}

/// Number of indices input has advanced since start of parsing
pub trait Location {
    /// The location that `location` reports
    spec fn spec_loc(&self) -> int;

    /// Number of indices input has advanced since start of parsing
    fn location(&self) -> (r: usize)
        ensures
            r == self.spec_loc(),
    ;
}

impl<I: Input> Location for Located<I> {
    open spec fn spec_loc(&self) -> int {
        if self.input.offset_len() <= self.initial.offset_len() {
            self.spec_location()
        } else {
            0
        }
    }

    fn location(&self) -> (r: usize) {
        let r = Located::location(self);
        assert(r == self.spec_loc());
        r
    }
}

impl<I: Location, S> Location for Stateful<I, S> {
    open spec fn spec_loc(&self) -> int {
        self.input.spec_loc()
    }

    fn location(&self) -> (r: usize) {
        self.input.location()
    }
}

impl<I: Location> Location for Streaming<I> {
    open spec fn spec_loc(&self) -> int {
        self.0.spec_loc()
    }

    fn location(&self) -> (r: usize) {
        self.0.location()
    }
}

/// Whether `t` is what remains of `s` once some of its front is consumed.
pub open spec fn seq_is_suffix<T>(t: Seq<T>, s: Seq<T>) -> bool {
    t.len() <= s.len() && s.skip(s.len() - t.len()) == t
}

/// Useful functions to calculate the offset between slices
///
/// The offset is measured in the units of the input: elements for slices, bytes for
/// strings. The second input must be what remains of the first once some of it is consumed.
pub trait Offset {
    /// The units that offsets count
    spec fn offset_units(&self) -> int;

    /// Whether `second` is what remains of `self` once some of it is consumed
    spec fn within(&self, second: &Self) -> bool;

    /// Offset between the first byte of self and the first byte of the argument
    fn offset_to(&self, second: &Self) -> (r: usize)
        requires
            self.within(second),
        ensures
            r == self.offset_units() - second.offset_units(),
    ;
}

impl<'a, T> Offset for &'a [T] {
    open spec fn offset_units(&self) -> int {
        self@.len() as int
    }

    open spec fn within(&self, second: &Self) -> bool {
        seq_is_suffix(second@, self@)
    }

    fn offset_to(&self, second: &Self) -> (r: usize) {
        self.len() - second.len()
    }
}

impl<'a> Offset for &'a str {
    open spec fn offset_units(&self) -> int {
        self.spec_bytes().len() as int
    }

    open spec fn within(&self, second: &Self) -> bool {
        seq_is_suffix(second.spec_bytes(), self.spec_bytes()) && self.spec_bytes().len()
            <= usize::MAX
    }

    fn offset_to(&self, second: &Self) -> (r: usize) {
        self.len() - second.len()
    }
}

impl<I: Offset> Offset for Located<I> {
    open spec fn offset_units(&self) -> int {
        self.input.offset_units()
    }

    open spec fn within(&self, second: &Self) -> bool {
        self.input.within(&second.input)
    }

    fn offset_to(&self, second: &Self) -> (r: usize) {
        self.input.offset_to(&second.input)
    }
}

impl<I: Offset, S> Offset for Stateful<I, S> {
    open spec fn offset_units(&self) -> int {
        self.input.offset_units()
    }

    open spec fn within(&self, second: &Self) -> bool {
        self.input.within(&second.input)
    }

    fn offset_to(&self, second: &Self) -> (r: usize) {
        self.input.offset_to(&second.input)
    }
}

impl<I: Offset> Offset for Streaming<I> {
    open spec fn offset_units(&self) -> int {
        self.0.offset_units()
    }

    open spec fn within(&self, second: &Self) -> bool {
        self.0.within(&second.0)
    }

    fn offset_to(&self, second: &Self) -> (r: usize) {
        self.0.offset_to(&second.0)
    }
}

/// Helper trait for types that can be viewed as a byte slice
pub trait AsBytes {
    /// The bytes viewed
    spec fn spec_as_bytes(&self) -> Seq<u8>;

    /// Casts the input type to a byte slice
    fn as_bytes(&self) -> (r: &[u8])
        ensures
            r@ == self.spec_as_bytes(),
    ;
}

impl<'a> AsBytes for &'a [u8] {
    open spec fn spec_as_bytes(&self) -> Seq<u8> {
        self@
    }

    fn as_bytes(&self) -> (r: &[u8]) {
        *self
    }
}

impl<I: AsBytes> AsBytes for Located<I> {
    open spec fn spec_as_bytes(&self) -> Seq<u8> {
        self.input.spec_as_bytes()
    }

    fn as_bytes(&self) -> (r: &[u8]) {
        self.input.as_bytes()
    }
}

impl<I: AsBytes, S> AsBytes for Stateful<I, S> {
    open spec fn spec_as_bytes(&self) -> Seq<u8> {
        self.input.spec_as_bytes()
    }

    fn as_bytes(&self) -> (r: &[u8]) {
        self.input.as_bytes()
    }
}

impl<I: AsBytes> AsBytes for Streaming<I> {
    open spec fn spec_as_bytes(&self) -> Seq<u8> {
        self.0.spec_as_bytes()
    }

    fn as_bytes(&self) -> (r: &[u8]) {
        self.0.as_bytes()
    }
}

/// Helper trait for types that can be viewed as a byte slice
pub trait AsBStr {
    /// The bytes viewed
    spec fn spec_as_bstr(&self) -> Seq<u8>;

    /// Casts the input type to a byte slice
    fn as_bstr(&self) -> (r: &[u8])
        ensures
            r@ == self.spec_as_bstr(),
    ;
}

impl<'a> AsBStr for &'a [u8] {
    open spec fn spec_as_bstr(&self) -> Seq<u8> {
        self@
    }

    fn as_bstr(&self) -> (r: &[u8]) {
        *self
    }
}

impl<'a> AsBStr for &'a str {
    open spec fn spec_as_bstr(&self) -> Seq<u8> {
        self.spec_bytes()
    }

    fn as_bstr(&self) -> (r: &[u8]) {
        (*self).as_bytes()
    }
}

impl<I: AsBStr> AsBStr for Located<I> {
    open spec fn spec_as_bstr(&self) -> Seq<u8> {
        self.input.spec_as_bstr()
    }

    fn as_bstr(&self) -> (r: &[u8]) {
        self.input.as_bstr()
    }
}

impl<I: AsBStr, S> AsBStr for Stateful<I, S> {
    open spec fn spec_as_bstr(&self) -> Seq<u8> {
        self.input.spec_as_bstr()
    }

    fn as_bstr(&self) -> (r: &[u8]) {
        self.input.as_bstr()
    }
}

impl<I: AsBStr> AsBStr for Streaming<I> {
    open spec fn spec_as_bstr(&self) -> Seq<u8> {
        self.0.spec_as_bstr()
    }

    fn as_bstr(&self) -> (r: &[u8]) {
        self.0.as_bstr()
    }
}


/// Marks the input as being the complete buffer or a partial buffer for streaming input
///
/// See [`Streaming`] for marking a presumed complete buffer type as a streaming buffer.
pub trait InputIsStreaming<const YES: bool>: Sized {
    /// Complete counterpart
    type Complete;
    /// Streaming counterpart
    type Streaming;

    /// The complete counterpart of `self`
    spec fn spec_complete(self) -> Self::Complete;

    /// The streaming counterpart of `self`
    spec fn spec_streaming(self) -> Self::Streaming;

    /// Convert to complete counterpart
    fn into_complete(self) -> (r: Self::Complete)
        ensures
            r == self.spec_complete(),
    ;

    /// Convert to streaming counterpart
    fn into_streaming(self) -> (r: Self::Streaming)
        ensures
            r == self.spec_streaming(),
    ;
}

impl<'a, T> InputIsStreaming<false> for &'a [T] {
    type Complete = Self;

    type Streaming = Streaming<Self>;

    open spec fn spec_complete(self) -> Self {
        self
    }

    open spec fn spec_streaming(self) -> Streaming<Self> {
        Streaming(self)
    }

    fn into_complete(self) -> (r: Self) {
        self
    }

    fn into_streaming(self) -> (r: Streaming<Self>) {
        Streaming(self)
    }
}

impl<'a> InputIsStreaming<false> for &'a str {
    type Complete = Self;

    type Streaming = Streaming<Self>;

    open spec fn spec_complete(self) -> Self {
        self
    }

    open spec fn spec_streaming(self) -> Streaming<Self> {
        Streaming(self)
    }

    fn into_complete(self) -> (r: Self) {
        self
    }

    fn into_streaming(self) -> (r: Streaming<Self>) {
        Streaming(self)
    }
}

impl<I> InputIsStreaming<true> for Streaming<I> {
    type Complete = I;

    type Streaming = Self;

    open spec fn spec_complete(self) -> I {
        self.0
    }

    open spec fn spec_streaming(self) -> Self {
        self
    }

    fn into_complete(self) -> (r: I) {
        self.0
    }

    fn into_streaming(self) -> (r: Self) {
        self
    }
}

impl<I: InputIsStreaming<true>> InputIsStreaming<true> for Located<I> {
    type Complete = Located<I::Complete>;

    type Streaming = Self;

    open spec fn spec_complete(self) -> Located<I::Complete> {
        Located { initial: self.initial.spec_complete(), input: self.input.spec_complete() }
    }

    open spec fn spec_streaming(self) -> Self {
        self
    }

    fn into_complete(self) -> (r: Located<I::Complete>) {
        Located { initial: self.initial.into_complete(), input: self.input.into_complete() }
    }

    fn into_streaming(self) -> (r: Self) {
        self
    }
}

impl<I: InputIsStreaming<false>> InputIsStreaming<false> for Located<I> {
    type Complete = Self;

    type Streaming = Located<I::Streaming>;

    open spec fn spec_complete(self) -> Self {
        self
    }

    open spec fn spec_streaming(self) -> Located<I::Streaming> {
        Located { initial: self.initial.spec_streaming(), input: self.input.spec_streaming() }
    }

    fn into_complete(self) -> (r: Self) {
        self
    }

    fn into_streaming(self) -> (r: Located<I::Streaming>) {
        Located { initial: self.initial.into_streaming(), input: self.input.into_streaming() }
    }
}

impl<I: InputIsStreaming<true>, S> InputIsStreaming<true> for Stateful<I, S> {
    type Complete = Stateful<I::Complete, S>;

    type Streaming = Self;

    open spec fn spec_complete(self) -> Stateful<I::Complete, S> {
        Stateful { input: self.input.spec_complete(), state: self.state }
    }

    open spec fn spec_streaming(self) -> Self {
        self
    }

    fn into_complete(self) -> (r: Stateful<I::Complete, S>) {
        Stateful { input: self.input.into_complete(), state: self.state }
    }

    fn into_streaming(self) -> (r: Self) {
        self
    }
}

impl<I: InputIsStreaming<false>, S> InputIsStreaming<false> for Stateful<I, S> {
    type Complete = Self;

    type Streaming = Stateful<I::Streaming, S>;

    open spec fn spec_complete(self) -> Self {
        self
    }

    open spec fn spec_streaming(self) -> Stateful<I::Streaming, S> {
        Stateful { input: self.input.spec_streaming(), state: self.state }
    }

    fn into_complete(self) -> (r: Self) {
        self
    }

    fn into_streaming(self) -> (r: Stateful<I::Streaming, S>) {
        Stateful { input: self.input.into_streaming(), state: self.state }
    }
}

} // verus!
