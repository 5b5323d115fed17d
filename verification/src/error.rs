//! Error management: the kinds of failure, how much more input is needed, and the
//! error types that parsers report.
use vstd::prelude::*;
use vstd::string::*;
use crate::input::{push_char, Input};
use crate::parser::Parser;

verus! {


/// How many more tokens a parser needs before it can decide, as `Needed::new` builds it.
pub open spec fn needed(n: int) -> Needed {
    if n <= 0 {
        Needed::Unknown
    } else {
        Needed::Size(n as usize)
    }
}

/// Contains information on needed data if a parser returned `Incomplete`
///
/// `Size` always holds a positive count.
#[derive(Debug, PartialEq, Eq, Clone, Copy)]
pub enum Needed {
    /// Needs more data, but we do not know how much
    Unknown,
    /// Contains the required data size in tokens
    Size(usize),
}

impl Needed {
    /// Creates `Needed` instance, returns `Needed::Unknown` if the argument is zero
    pub fn new(s: usize) -> (r: Needed)
        ensures
            r == needed(s as int),
    {
        if s == 0 {
            Needed::Unknown
        } else {
            Needed::Size(s)
        }
    }

    /// Indicates if we know how many bytes we need
    pub fn is_known(&self) -> (r: bool)
        ensures
            r == (*self !is Unknown),
    {
        match self {
            Needed::Unknown => false,
            Needed::Size(_) => true,
        }
    }

    /// Maps a `Needed` to `Needed` by applying a function to a contained `Size` value.
    pub fn map<F: Fn(usize) -> usize>(self, f: F) -> (r: Needed)
        requires
            self matches Needed::Size(n) ==> call_requires(f, (n,)),
        ensures
            self is Unknown ==> r is Unknown,
            self matches Needed::Size(n) ==> exists|m: usize| call_ensures(f, (n,), m) && r == needed(m as int),
    {
        match self {
            Needed::Unknown => Needed::Unknown,
            Needed::Size(n) => {
                let m = f(n);
                Needed::new(m)
            },
        }
    }
}

/// `e` made unrecoverable: a recoverable error becomes unrecoverable, any other stays.
pub open spec fn cut_of<E>(e: ErrMode<E>) -> ErrMode<E> {
    match e {
        ErrMode::Backtrack(x) => ErrMode::Cut(x),
        other => other,
    }
}

/// `e` made recoverable: an unrecoverable error becomes recoverable, any other stays.
pub open spec fn backtrack_of<E>(e: ErrMode<E>) -> ErrMode<E> {
    match e {
        ErrMode::Cut(x) => ErrMode::Backtrack(x),
        other => other,
    }
}

/// The `Err` side of a parse result: not enough data, a recoverable error, or an
/// unrecoverable one.
#[derive(Debug, Clone, PartialEq)]
pub enum ErrMode<E> {
    /// There was not enough data
    Incomplete(Needed),
    /// The parser failed with a recoverable error (the default)
    Backtrack(E),
    /// The parser had an unrecoverable error: other branches should not be tried
    Cut(E),
}

impl<E> ErrMode<E> {
    /// Tests if the result is Incomplete
    pub fn is_incomplete(&self) -> (r: bool)
        ensures
            r == (*self is Incomplete),
    {
        match self {
            ErrMode::Incomplete(_) => true,
            _ => false,
        }
    }

    /// Prevent backtracking, bubbling the error up to the top
    pub fn cut(self) -> (r: Self)
        ensures
            r == cut_of(self),
    {
        match self {
            ErrMode::Backtrack(e) => ErrMode::Cut(e),
            rest => rest,
        }
    }

    /// Enable backtracking support
    pub fn backtrack(self) -> (r: Self)
        ensures
            r == backtrack_of(self),
    {
        match self {
            ErrMode::Cut(e) => ErrMode::Backtrack(e),
            rest => rest,
        }
    }

    /// Applies the given function to the inner error
    pub fn map<E2, F: FnOnce(E) -> E2>(self, f: F) -> (r: ErrMode<E2>)
        requires
            self matches ErrMode::Backtrack(e) ==> call_requires(f, (e,)),
            self matches ErrMode::Cut(e) ==> call_requires(f, (e,)),
        ensures
            self matches ErrMode::Incomplete(n) ==> r == ErrMode::<E2>::Incomplete(n),
            self matches ErrMode::Backtrack(e) ==> (r matches ErrMode::Backtrack(e2) && call_ensures(f, (e,), e2)),
            self matches ErrMode::Cut(e) ==> (r matches ErrMode::Cut(e2) && call_ensures(f, (e,), e2)),
    {
        match self {
            ErrMode::Incomplete(n) => ErrMode::Incomplete(n),
            ErrMode::Cut(t) => ErrMode::Cut(f(t)),
            ErrMode::Backtrack(t) => ErrMode::Backtrack(f(t)),
        }
    }

    /// Automatically converts between errors if the underlying type supports it
    pub fn convert<F>(self) -> (r: ErrMode<F>)
        where E: ErrorConvert<F>,
        ensures
            self matches ErrMode::Incomplete(n) ==> r == ErrMode::<F>::Incomplete(n),
            self matches ErrMode::Backtrack(e) ==> (r matches ErrMode::Backtrack(e2) && e.convert_rel(e2)),
            self matches ErrMode::Cut(e) ==> (r matches ErrMode::Cut(e2) && e.convert_rel(e2)),
    {
        match self {
            ErrMode::Incomplete(n) => ErrMode::Incomplete(n),
            ErrMode::Cut(t) => ErrMode::Cut(t.convert()),
            ErrMode::Backtrack(t) => ErrMode::Backtrack(t.convert()),
        }
    }
}

impl<T> ErrMode<Error<T>> {
    /// Maps `ErrMode<Error<T>>` to `ErrMode<Error<U>>` with the given `F: T -> U`
    pub fn map_input<U, F: FnOnce(T) -> U>(self, f: F) -> (r: ErrMode<Error<U>>)
        requires
            self matches ErrMode::Backtrack(e) ==> call_requires(f, (e.input,)),
            self matches ErrMode::Cut(e) ==> call_requires(f, (e.input,)),
        ensures
            self matches ErrMode::Incomplete(n) ==> r == ErrMode::<Error<U>>::Incomplete(n),
            self matches ErrMode::Backtrack(e) ==> (r matches ErrMode::Backtrack(e2) && e2.kind
                == e.kind && call_ensures(f, (e.input,), e2.input)),
            self matches ErrMode::Cut(e) ==> (r matches ErrMode::Cut(e2) && e2.kind == e.kind
                && call_ensures(f, (e.input,), e2.input)),
    {
        match self {
            ErrMode::Incomplete(n) => ErrMode::Incomplete(n),
            ErrMode::Cut(Error { input, kind }) => ErrMode::Cut(Error { input: f(input), kind }),
            ErrMode::Backtrack(Error { input, kind }) => ErrMode::Backtrack(
                Error { input: f(input), kind },
            ),
        }
    }
}

impl<'a> ErrMode<Error<&'a [u8]>> {
    /// Takes ownership of the input that the error points at; see [`Error::into_owned`]
    pub fn to_owned(self) -> (r: ErrMode<Error<Vec<u8>>>)
        ensures
            self matches ErrMode::Incomplete(n) ==> r == ErrMode::<Error<Vec<u8>>>::Incomplete(n),
            self matches ErrMode::Backtrack(e) ==> (r matches ErrMode::Backtrack(e2) && e2.kind
                == e.kind && e2.input@ == e.input@),
            self matches ErrMode::Cut(e) ==> (r matches ErrMode::Cut(e2) && e2.kind == e.kind
                && e2.input@ == e.input@),
    {
        match self {
            ErrMode::Incomplete(n) => ErrMode::Incomplete(n),
            ErrMode::Cut(e) => ErrMode::Cut(e.into_owned()),
            ErrMode::Backtrack(e) => ErrMode::Backtrack(e.into_owned()),
        }
    }
}

impl<'a> ErrMode<Error<&'a str>> {
    /// Takes ownership of the input that the error points at; see [`Error::into_owned`]
    pub fn to_owned(self) -> (r: ErrMode<Error<String>>)
        ensures
            self matches ErrMode::Incomplete(n) ==> r == ErrMode::<Error<String>>::Incomplete(n),
            self matches ErrMode::Backtrack(e) ==> (r matches ErrMode::Backtrack(e2) && e2.kind
                == e.kind && e2.input@ == e.input@),
            self matches ErrMode::Cut(e) ==> (r matches ErrMode::Cut(e2) && e2.kind == e.kind
                && e2.input@ == e.input@),
    {
        match self {
            ErrMode::Incomplete(n) => ErrMode::Incomplete(n),
            ErrMode::Cut(e) => ErrMode::Cut(e.into_owned()),
            ErrMode::Backtrack(e) => ErrMode::Backtrack(e.into_owned()),
        }
    }
}

/// A copy of `k`.
fn copy_verbose_kind(k: &VerboseErrorKind) -> (r: VerboseErrorKind)
    ensures
        r == *k,
{
    match k {
        VerboseErrorKind::Context(c) => VerboseErrorKind::Context(*c),
        VerboseErrorKind::Nom(e) => VerboseErrorKind::Nom(*e),
    }
}

impl<'a> VerboseError<&'a [u8]> {
    /// Obtaining ownership
    pub fn into_owned(self) -> (r: VerboseError<Vec<u8>>)
        ensures
            r.errors@.len() == self.errors@.len(),
            forall|i: int| 0 <= i < self.errors@.len() ==> (#[trigger] r.errors@[i]).0@
                == self.errors@[i].0@ && r.errors@[i].1 == self.errors@[i].1,
    {
        let mut errors: Vec<(Vec<u8>, VerboseErrorKind)> = Vec::new();
        let n = self.errors.len();
        let mut k: usize = 0;
        while k < n
            invariant
                k <= n,
                n == self.errors@.len(),
                errors@.len() == k,
                forall|i: int| 0 <= i < k ==> (#[trigger] errors@[i]).0@ == self.errors@[i].0@
                    && errors@[i].1 == self.errors@[i].1,
            decreases n - k,
        {
            let entry = &self.errors[k];
            let owned = vstd::slice::slice_to_vec(entry.0);
            errors.push((owned, copy_verbose_kind(&entry.1)));
            k += 1;
        }
        VerboseError { errors }
    }
}

impl<'a> VerboseError<&'a str> {
    /// Obtaining ownership
    pub fn into_owned(self) -> (r: VerboseError<String>)
        ensures
            r.errors@.len() == self.errors@.len(),
            forall|i: int| 0 <= i < self.errors@.len() ==> (#[trigger] r.errors@[i]).0@
                == self.errors@[i].0@ && r.errors@[i].1 == self.errors@[i].1,
    {
        let mut errors: Vec<(String, VerboseErrorKind)> = Vec::new();
        let n = self.errors.len();
        let mut k: usize = 0;
        while k < n
            invariant
                k <= n,
                n == self.errors@.len(),
                errors@.len() == k,
                forall|i: int| 0 <= i < k ==> (#[trigger] errors@[i]).0@ == self.errors@[i].0@
                    && errors@[i].1 == self.errors@[i].1,
            decreases n - k,
        {
            let entry = &self.errors[k];
            let owned = entry.0.to_owned();
            errors.push((owned, copy_verbose_kind(&entry.1)));
            k += 1;
        }
        VerboseError { errors }
    }
}

/// Adds the context `ctx` to the errors of `f`, at the input `f` was given.
///
/// Where `f` fails recoverably or fatally, the error gets `ctx` through
/// [`ContextError::add_context`]; success and `Incomplete` pass through.
pub fn context<I, E, F, O>(ctx: &'static str, f: F) -> (r: crate::combinator::Context<
    F,
    I,
    O,
    E,
    &'static str,
>) where I: Input, F: Parser<I, O, E>, E: ContextError<I, &'static str>
    ensures
        r.parser == f,
        r.context == ctx,
{
    crate::combinator::Context::new(f, ctx)
}

/// This trait must be implemented by the error type of a parser.
///
/// Each operation comes with a relation that states what it builds; the library's
/// contracts speak through these relations.
pub trait ParseError<I>: Sized {
    /// `e` is what `from_error_kind(input, kind)` builds; an error type that states
    /// nothing of it keeps this default.
    open spec fn from_error_kind_rel(input: I, kind: ErrorKind, e: Self) -> bool {
        true
    }

    /// `e` is what `self.append(input, kind)` builds; an error type that states nothing of
    /// it keeps this default.
    open spec fn append_rel(self, input: I, kind: ErrorKind, e: Self) -> bool {
        true
    }

    /// `e` is what `self.or(other)` builds; an error type that states nothing of it keeps
    /// this default.
    open spec fn or_rel(self, other: Self, e: Self) -> bool {
        true
    }

    /// Creates an error from the input position and an [`ErrorKind`]
    fn from_error_kind(input: I, kind: ErrorKind) -> (e: Self)
        ensures
            Self::from_error_kind_rel(input, kind, e),
    ;

    /// Combines an existing error with a new one created from the input
    /// position and an [`ErrorKind`]. This is useful when backtracking
    /// through a parse tree, accumulating error context on the way
    fn append(self, input: I, kind: ErrorKind) -> (e: Self)
        ensures
            self.append_rel(input, kind, e),
    ;

    /// Combines two existing errors. This function is used to compare errors
    /// generated in various branches of `alt`.
    fn or(self, other: Self) -> (e: Self)
        ensures
            self.or_rel(other, e),
    ;
}

/// Used by [`Parser::context`][crate::Parser::context] to add custom data to error while backtracking
pub trait ContextError<I, C>: Sized {
    /// `e` is what `self.add_context(input, ctx)` builds; an error type that states nothing
    /// of it keeps this default.
    open spec fn add_context_rel(self, input: I, ctx: C, e: Self) -> bool {
        true
    }

    /// Append to an existing error custom data
    fn add_context(self, input: I, ctx: C) -> (e: Self)
        ensures
            self.add_context_rel(input, ctx, e),
    ;
}

/// Create a new error with an external error, from [`std::str::FromStr`]
pub trait FromExternalError<I, E>: Sized {
    /// `r` is what `from_external_error(input, kind, e)` builds; an error type that states
    /// nothing of it keeps this default.
    open spec fn from_external_error_rel(input: I, kind: ErrorKind, e: E, r: Self) -> bool {
        true
    }

    /// Like [`ParseError::from_error_kind`] but also include an external error.
    fn from_external_error(input: I, kind: ErrorKind, e: E) -> (r: Self)
        ensures
            Self::from_external_error_rel(input, kind, e, r),
    ;
}

/// Equivalent of `From` implementation to avoid orphan rules in bits parsers
pub trait ErrorConvert<E>: Sized {
    /// `e` is what `self.convert()` builds; an error type that states nothing of it keeps
    /// this default.
    open spec fn convert_rel(self, e: E) -> bool {
        true
    }

    /// Transform to another error type
    fn convert(self) -> (e: E)
        ensures
            self.convert_rel(e),
    ;
}

/// Default error type, only contains the error' location and kind
///
/// This is a low-overhead error that only provides basic information.
#[derive(Debug, Eq, PartialEq, Clone, Copy)]
pub struct Error<I> {
    /// The input stream, pointing to the location where the error occurred
    pub input: I,
    /// A rudimentary error kind
    pub kind: ErrorKind,
}

impl<I> Error<I> {
    /// Creates a new basic error
    pub fn new(input: I, kind: ErrorKind) -> (r: Error<I>)
        ensures
            r == (Error { input, kind }),
    {
        Error { input, kind }
    }
}

impl<'a> Error<&'a [u8]> {
    /// Obtaining ownership
    pub fn into_owned(self) -> (r: Error<Vec<u8>>)
        ensures
            r.input@ == self.input@,
            r.kind == self.kind,
    {
        Error { input: vstd::slice::slice_to_vec(self.input), kind: self.kind }
    }
}

impl<'a> Error<&'a str> {
    /// Obtaining ownership
    pub fn into_owned(self) -> (r: Error<String>)
        ensures
            r.input@ == self.input@,
            r.kind == self.kind,
    {
        Error { input: self.input.to_owned(), kind: self.kind }
    }
}

impl<I> ParseError<I> for Error<I> {
    open spec fn from_error_kind_rel(input: I, kind: ErrorKind, e: Self) -> bool {
        e == (Error { input, kind })
    }

    open spec fn append_rel(self, input: I, kind: ErrorKind, e: Self) -> bool {
        e == self
    }

    fn from_error_kind(input: I, kind: ErrorKind) -> (e: Self) {
        Error { input, kind }
    }

    fn append(self, input: I, kind: ErrorKind) -> (e: Self) {
        self
    }

    open spec fn or_rel(self, other: Self, e: Self) -> bool {
        e == other
    }

    fn or(self, other: Self) -> (e: Self) {
        other
    }
}

impl<I, C> ContextError<I, C> for Error<I> {
    open spec fn add_context_rel(self, input: I, ctx: C, e: Self) -> bool {
        e == self
    }

    fn add_context(self, input: I, ctx: C) -> (e: Self) {
        self
    }
}

impl<I, E> FromExternalError<I, E> for Error<I> {
    open spec fn from_external_error_rel(input: I, kind: ErrorKind, e: E, r: Self) -> bool {
        r == (Error { input, kind })
    }

    fn from_external_error(input: I, kind: ErrorKind, e: E) -> (r: Self) {
        Error { input, kind }
    }
}

impl<I> ErrorConvert<Error<(I, usize)>> for Error<I> {
    open spec fn convert_rel(self, e: Error<(I, usize)>) -> bool {
        e == (Error { input: (self.input, 0usize), kind: self.kind })
    }

    fn convert(self) -> (e: Error<(I, usize)>) {
        Error { input: (self.input, 0), kind: self.kind }
    }
}

impl<I> ErrorConvert<Error<I>> for Error<(I, usize)> {
    open spec fn convert_rel(self, e: Error<I>) -> bool {
        e == (Error { input: self.input.0, kind: self.kind })
    }

    fn convert(self) -> (e: Error<I>) {
        Error { input: self.input.0, kind: self.kind }
    }
}

/// Pairs each input of a verbose error with the position 0.
impl<I> ErrorConvert<VerboseError<(I, usize)>> for VerboseError<I> {
    open spec fn convert_rel(self, e: VerboseError<(I, usize)>) -> bool {
        e.errors@ == self.errors@.map_values(|p: (I, VerboseErrorKind)| ((p.0, 0usize), p.1))
    }

    fn convert(self) -> (e: VerboseError<(I, usize)>) {
        let ghost orig = self.errors@;
        let mut rest = self.errors;
        let mut out: Vec<((I, usize), VerboseErrorKind)> = Vec::new();
        while rest.len() > 0
            invariant
                out@.len() + rest@.len() == orig.len(),
                rest@ == orig.skip(out@.len() as int),
                out@ == orig.take(out@.len() as int).map_values(
                    |p: (I, VerboseErrorKind)| ((p.0, 0usize), p.1),
                ),
            decreases rest@.len(),
        {
            let ghost k = out@.len() as int;
            let (i, kind) = rest.remove(0);
            out.push(((i, 0), kind));
            assert(rest@ =~= orig.skip(k + 1));
            assert(out@ =~= orig.take(k + 1).map_values(
                |p: (I, VerboseErrorKind)| ((p.0, 0usize), p.1),
            ));
        }
        assert(orig.take(orig.len() as int) =~= orig);
        VerboseError { errors: out }
    }
}

/// Drops the position paired with each input of a verbose error.
impl<I> ErrorConvert<VerboseError<I>> for VerboseError<(I, usize)> {
    open spec fn convert_rel(self, e: VerboseError<I>) -> bool {
        e.errors@ == self.errors@.map_values(|p: ((I, usize), VerboseErrorKind)| (p.0.0, p.1))
    }

    fn convert(self) -> (e: VerboseError<I>) {
        let ghost orig = self.errors@;
        let mut rest = self.errors;
        let mut out: Vec<(I, VerboseErrorKind)> = Vec::new();
        while rest.len() > 0
            invariant
                out@.len() + rest@.len() == orig.len(),
                rest@ == orig.skip(out@.len() as int),
                out@ == orig.take(out@.len() as int).map_values(
                    |p: ((I, usize), VerboseErrorKind)| (p.0.0, p.1),
                ),
            decreases rest@.len(),
        {
            let ghost k = out@.len() as int;
            let ((i, _), kind) = rest.remove(0);
            out.push((i, kind));
            assert(rest@ =~= orig.skip(k + 1));
            assert(out@ =~= orig.take(k + 1).map_values(|p: ((I, usize), VerboseErrorKind)| (p.0.0, p.1)));
        }
        assert(orig.take(orig.len() as int) =~= orig);
        VerboseError { errors: out }
    }
}

impl<I> ParseError<I> for () {
    open spec fn from_error_kind_rel(input: I, kind: ErrorKind, e: Self) -> bool {
        true
    }

    open spec fn append_rel(self, input: I, kind: ErrorKind, e: Self) -> bool {
        true
    }

    fn from_error_kind(input: I, kind: ErrorKind) -> (e: Self) {
    }

    fn append(self, input: I, kind: ErrorKind) -> (e: Self) {
    }

    open spec fn or_rel(self, other: Self, e: Self) -> bool {
        true
    }

    fn or(self, other: Self) -> (e: Self) {
    }
}

impl<I, C> ContextError<I, C> for () {
    open spec fn add_context_rel(self, input: I, ctx: C, e: Self) -> bool {
        true
    }

    fn add_context(self, input: I, ctx: C) -> (e: Self) {
    }
}

impl<I, E> FromExternalError<I, E> for () {
    open spec fn from_external_error_rel(input: I, kind: ErrorKind, e: E, r: Self) -> bool {
        true
    }

    fn from_external_error(input: I, kind: ErrorKind, e: E) -> (r: Self) {
    }
}

impl ErrorConvert<()> for () {
    open spec fn convert_rel(self, e: ()) -> bool {
        true
    }

    fn convert(self) -> (e: ()) {
    }
}

impl<I, E: ParseError<I>> ParseError<I> for ErrMode<E> {
    open spec fn from_error_kind_rel(input: I, kind: ErrorKind, e: Self) -> bool {
        e matches ErrMode::Backtrack(inner) && E::from_error_kind_rel(input, kind, inner)
    }

    open spec fn append_rel(self, input: I, kind: ErrorKind, e: Self) -> bool {
        match self {
            ErrMode::Backtrack(b) => e matches ErrMode::Backtrack(inner) && b.append_rel(
                input,
                kind,
                inner,
            ),
            other => e == other,
        }
    }

    open spec fn or_rel(self, other: Self, e: Self) -> bool {
        match (self, other) {
            (ErrMode::Backtrack(a), ErrMode::Backtrack(b)) => e matches ErrMode::Backtrack(inner)
                && a.or_rel(b, inner),
            (ErrMode::Incomplete(n), _) => e == ErrMode::<E>::Incomplete(n),
            (_, ErrMode::Incomplete(n)) => e == ErrMode::<E>::Incomplete(n),
            (ErrMode::Cut(c), _) => e == ErrMode::<E>::Cut(c),
            (_, ErrMode::Cut(c)) => e == ErrMode::<E>::Cut(c),
        }
    }

    fn from_error_kind(input: I, kind: ErrorKind) -> (e: Self) {
        ErrMode::Backtrack(E::from_error_kind(input, kind))
    }

    fn append(self, input: I, kind: ErrorKind) -> (e: Self) {
        match self {
            ErrMode::Backtrack(e) => ErrMode::Backtrack(e.append(input, kind)),
            e => e,
        }
    }

    fn or(self, other: Self) -> (e: Self) {
        match (self, other) {
            (ErrMode::Backtrack(e), ErrMode::Backtrack(o)) => ErrMode::Backtrack(e.or(o)),
            (ErrMode::Incomplete(e), _) => ErrMode::Incomplete(e),
            (_, ErrMode::Incomplete(e)) => ErrMode::Incomplete(e),
            (ErrMode::Cut(e), _) => ErrMode::Cut(e),
            (_, ErrMode::Cut(e)) => ErrMode::Cut(e),
        }
    }
}

impl<I, EXT, E: FromExternalError<I, EXT>> FromExternalError<I, EXT> for ErrMode<E> {
    open spec fn from_external_error_rel(input: I, kind: ErrorKind, e: EXT, r: Self) -> bool {
        r matches ErrMode::Backtrack(inner) && E::from_external_error_rel(input, kind, e, inner)
    }

    fn from_external_error(input: I, kind: ErrorKind, e: EXT) -> (r: Self) {
        ErrMode::Backtrack(E::from_external_error(input, kind, e))
    }
}

/// Creates an error from the input position and an [`ErrorKind`]
pub fn make_error<I, E: ParseError<I>>(input: I, kind: ErrorKind) -> (e: E)
    ensures
        E::from_error_kind_rel(input, kind, e),
{
    E::from_error_kind(input, kind)
}

/// Combines an existing error with a new one created from the input
/// position and an [`ErrorKind`].
pub fn append_error<I, E: ParseError<I>>(input: I, kind: ErrorKind, other: E) -> (e: E)
    ensures
        other.append_rel(input, kind, e),
{
    other.append(input, kind)
}

/// Error context for `VerboseError`
#[derive(Clone, Debug, Eq, PartialEq)]
pub enum VerboseErrorKind {
    /// Static string added by the `context` function
    Context(&'static str),
    /// Error kind given by various parsers
    Nom(ErrorKind),
}

/// Accumulates error information while backtracking
///
/// The oldest entry comes first: the place where parsing failed, followed by the
/// contexts that it was reached through.
#[derive(Clone, Debug, Eq, PartialEq)]
pub struct VerboseError<I> {
    /// List of errors accumulated by `VerboseError`, containing the affected
    /// part of input data, and some context
    pub errors: Vec<(I, VerboseErrorKind)>,
}

impl<I> ParseError<I> for VerboseError<I> {
    open spec fn from_error_kind_rel(input: I, kind: ErrorKind, e: Self) -> bool {
        e.errors@ == seq![(input, VerboseErrorKind::Nom(kind))]
    }

    open spec fn append_rel(self, input: I, kind: ErrorKind, e: Self) -> bool {
        e.errors@ == self.errors@.push((input, VerboseErrorKind::Nom(kind)))
    }

    fn from_error_kind(input: I, kind: ErrorKind) -> (e: Self) {
        let mut errors = Vec::new();
        errors.push((input, VerboseErrorKind::Nom(kind)));
        VerboseError { errors }
    }

    fn append(self, input: I, kind: ErrorKind) -> (e: Self) {
        let mut s = self;
        s.errors.push((input, VerboseErrorKind::Nom(kind)));
        s
    }

    open spec fn or_rel(self, other: Self, e: Self) -> bool {
        e == other
    }

    fn or(self, other: Self) -> (e: Self) {
        other
    }
}

impl<I> ContextError<I, &'static str> for VerboseError<I> {
    open spec fn add_context_rel(self, input: I, ctx: &'static str, e: Self) -> bool {
        e.errors@ == self.errors@.push((input, VerboseErrorKind::Context(ctx)))
    }

    fn add_context(self, input: I, ctx: &'static str) -> (e: Self) {
        let mut s = self;
        s.errors.push((input, VerboseErrorKind::Context(ctx)));
        s
    }
}

impl<I, E> FromExternalError<I, E> for VerboseError<I> {
    open spec fn from_external_error_rel(input: I, kind: ErrorKind, e: E, r: Self) -> bool {
        r.errors@ == seq![(input, VerboseErrorKind::Nom(kind))]
    }

    fn from_external_error(input: I, kind: ErrorKind, e: E) -> (r: Self) {
        Self::from_error_kind(input, kind)
    }
}

/// Why a parser failed, as reported inside an [`Error`].
#[derive(Debug, PartialEq, Eq, Hash, Clone, Copy)]
pub enum ErrorKind {
    Tag,
    MapRes,
    Alt,
    IsNot,
    IsA,
    SeparatedList,
    SeparatedNonEmptyList,
    Many0,
    Many1,
    ManyTill,
    Count,
    TakeUntil,
    LengthValue,
    TagClosure,
    Alpha,
    Digit,
    HexDigit,
    OctDigit,
    AlphaNumeric,
    Space,
    MultiSpace,
    LengthValueFn,
    Eof,
    Switch,
    TagBits,
    OneOf,
    NoneOf,
    Char,
    CrLf,
    RegexpMatch,
    RegexpMatches,
    RegexpFind,
    RegexpCapture,
    RegexpCaptures,
    TakeWhile1,
    Complete,
    Fix,
    Escaped,
    EscapedTransform,
    NonEmpty,
    ManyMN,
    Not,
    Permutation,
    Verify,
    TakeTill1,
    TakeWhileMN,
    TooLarge,
    Many0Count,
    Many1Count,
    Float,
    Satisfy,
    Fail,
    Token,
}

/// The human readable description of each kind, as [`ErrorKind::description`] returns it.
pub open spec fn kind_description(kind: ErrorKind) -> Seq<char> {
    match kind {
        ErrorKind::Tag => "Tag"@,
        ErrorKind::MapRes => "Map on Result"@,
        ErrorKind::Alt => "Alternative"@,
        ErrorKind::IsNot => "IsNot"@,
        ErrorKind::IsA => "IsA"@,
        ErrorKind::SeparatedList => "Separated list"@,
        ErrorKind::SeparatedNonEmptyList => "Separated non empty list"@,
        ErrorKind::Many0 => "Many0"@,
        ErrorKind::Many1 => "Many1"@,
        ErrorKind::Count => "Count"@,
        ErrorKind::TakeUntil => "Take until"@,
        ErrorKind::LengthValue => "Length followed by value"@,
        ErrorKind::TagClosure => "Tag closure"@,
        ErrorKind::Alpha => "Alphabetic"@,
        ErrorKind::Digit => "Digit"@,
        ErrorKind::AlphaNumeric => "AlphaNumeric"@,
        ErrorKind::Space => "Space"@,
        ErrorKind::MultiSpace => "Multiple spaces"@,
        ErrorKind::LengthValueFn => "LengthValueFn"@,
        ErrorKind::Eof => "End of file"@,
        ErrorKind::Switch => "Switch"@,
        ErrorKind::TagBits => "Tag on bitstream"@,
        ErrorKind::OneOf => "OneOf"@,
        ErrorKind::NoneOf => "NoneOf"@,
        ErrorKind::Char => "Char"@,
        ErrorKind::CrLf => "CrLf"@,
        ErrorKind::RegexpMatch => "RegexpMatch"@,
        ErrorKind::RegexpMatches => "RegexpMatches"@,
        ErrorKind::RegexpFind => "RegexpFind"@,
        ErrorKind::RegexpCapture => "RegexpCapture"@,
        ErrorKind::RegexpCaptures => "RegexpCaptures"@,
        ErrorKind::TakeWhile1 => "TakeWhile1"@,
        ErrorKind::Complete => "Complete"@,
        ErrorKind::Fix => "Fix"@,
        ErrorKind::Escaped => "Escaped"@,
        ErrorKind::EscapedTransform => "EscapedTransform"@,
        ErrorKind::NonEmpty => "NonEmpty"@,
        ErrorKind::ManyMN => "Many(m, n)"@,
        ErrorKind::HexDigit => "Hexadecimal Digit"@,
        ErrorKind::OctDigit => "Octal digit"@,
        ErrorKind::Not => "Negation"@,
        ErrorKind::Permutation => "Permutation"@,
        ErrorKind::ManyTill => "ManyTill"@,
        ErrorKind::Verify => "predicate verification"@,
        ErrorKind::TakeTill1 => "TakeTill1"@,
        ErrorKind::TakeWhileMN => "TakeWhileMN"@,
        ErrorKind::TooLarge => "Needed data size is too large"@,
        ErrorKind::Many0Count => "Count occurrence of >=0 patterns"@,
        ErrorKind::Many1Count => "Count occurrence of >=1 patterns"@,
        ErrorKind::Float => "Float"@,
        ErrorKind::Satisfy => "Satisfy"@,
        ErrorKind::Fail => "Fail"@,
        ErrorKind::Token => "Token"@,
    }
}


/// The kind whose description is `s`, if any: descriptions differ in their length, their
/// first or last character, or, for the two longest, the count they mention.
spec fn described_kind(s: Seq<char>) -> Option<ErrorKind> {
    if s.len() == 3 && s[0] == 'T' && s[2] == 'g' {
        Some(ErrorKind::Tag)
    } else if s.len() == 13 && s[0] == 'M' && s[12] == 't' {
        Some(ErrorKind::MapRes)
    } else if s.len() == 11 && s[0] == 'A' && s[10] == 'e' {
        Some(ErrorKind::Alt)
    } else if s.len() == 5 && s[0] == 'I' && s[4] == 't' {
        Some(ErrorKind::IsNot)
    } else if s.len() == 3 && s[0] == 'I' && s[2] == 'A' {
        Some(ErrorKind::IsA)
    } else if s.len() == 14 && s[0] == 'S' && s[13] == 't' {
        Some(ErrorKind::SeparatedList)
    } else if s.len() == 24 && s[0] == 'S' && s[23] == 't' {
        Some(ErrorKind::SeparatedNonEmptyList)
    } else if s.len() == 5 && s[0] == 'M' && s[4] == '0' {
        Some(ErrorKind::Many0)
    } else if s.len() == 5 && s[0] == 'M' && s[4] == '1' {
        Some(ErrorKind::Many1)
    } else if s.len() == 5 && s[0] == 'C' && s[4] == 't' {
        Some(ErrorKind::Count)
    } else if s.len() == 10 && s[0] == 'T' && s[9] == 'l' {
        Some(ErrorKind::TakeUntil)
    } else if s.len() == 24 && s[0] == 'L' && s[23] == 'e' {
        Some(ErrorKind::LengthValue)
    } else if s.len() == 11 && s[0] == 'T' && s[10] == 'e' {
        Some(ErrorKind::TagClosure)
    } else if s.len() == 10 && s[0] == 'A' && s[9] == 'c' {
        Some(ErrorKind::Alpha)
    } else if s.len() == 5 && s[0] == 'D' && s[4] == 't' {
        Some(ErrorKind::Digit)
    } else if s.len() == 12 && s[0] == 'A' && s[11] == 'c' {
        Some(ErrorKind::AlphaNumeric)
    } else if s.len() == 5 && s[0] == 'S' && s[4] == 'e' {
        Some(ErrorKind::Space)
    } else if s.len() == 15 && s[0] == 'M' && s[14] == 's' {
        Some(ErrorKind::MultiSpace)
    } else if s.len() == 13 && s[0] == 'L' && s[12] == 'n' {
        Some(ErrorKind::LengthValueFn)
    } else if s.len() == 11 && s[0] == 'E' && s[10] == 'e' {
        Some(ErrorKind::Eof)
    } else if s.len() == 6 && s[0] == 'S' && s[5] == 'h' {
        Some(ErrorKind::Switch)
    } else if s.len() == 16 && s[0] == 'T' && s[15] == 'm' {
        Some(ErrorKind::TagBits)
    } else if s.len() == 5 && s[0] == 'O' && s[4] == 'f' {
        Some(ErrorKind::OneOf)
    } else if s.len() == 6 && s[0] == 'N' && s[5] == 'f' {
        Some(ErrorKind::NoneOf)
    } else if s.len() == 4 && s[0] == 'C' && s[3] == 'r' {
        Some(ErrorKind::Char)
    } else if s.len() == 4 && s[0] == 'C' && s[3] == 'f' {
        Some(ErrorKind::CrLf)
    } else if s.len() == 11 && s[0] == 'R' && s[10] == 'h' {
        Some(ErrorKind::RegexpMatch)
    } else if s.len() == 13 && s[0] == 'R' && s[12] == 's' {
        Some(ErrorKind::RegexpMatches)
    } else if s.len() == 10 && s[0] == 'R' && s[9] == 'd' {
        Some(ErrorKind::RegexpFind)
    } else if s.len() == 13 && s[0] == 'R' && s[12] == 'e' {
        Some(ErrorKind::RegexpCapture)
    } else if s.len() == 14 && s[0] == 'R' && s[13] == 's' {
        Some(ErrorKind::RegexpCaptures)
    } else if s.len() == 10 && s[0] == 'T' && s[9] == '1' {
        Some(ErrorKind::TakeWhile1)
    } else if s.len() == 8 && s[0] == 'C' && s[7] == 'e' {
        Some(ErrorKind::Complete)
    } else if s.len() == 3 && s[0] == 'F' && s[2] == 'x' {
        Some(ErrorKind::Fix)
    } else if s.len() == 7 && s[0] == 'E' && s[6] == 'd' {
        Some(ErrorKind::Escaped)
    } else if s.len() == 16 && s[0] == 'E' && s[15] == 'm' {
        Some(ErrorKind::EscapedTransform)
    } else if s.len() == 8 && s[0] == 'N' && s[7] == 'y' {
        Some(ErrorKind::NonEmpty)
    } else if s.len() == 10 && s[0] == 'M' && s[9] == ')' {
        Some(ErrorKind::ManyMN)
    } else if s.len() == 17 && s[0] == 'H' && s[16] == 't' {
        Some(ErrorKind::HexDigit)
    } else if s.len() == 11 && s[0] == 'O' && s[10] == 't' {
        Some(ErrorKind::OctDigit)
    } else if s.len() == 8 && s[0] == 'N' && s[7] == 'n' {
        Some(ErrorKind::Not)
    } else if s.len() == 11 && s[0] == 'P' && s[10] == 'n' {
        Some(ErrorKind::Permutation)
    } else if s.len() == 8 && s[0] == 'M' && s[7] == 'l' {
        Some(ErrorKind::ManyTill)
    } else if s.len() == 22 && s[0] == 'p' && s[21] == 'n' {
        Some(ErrorKind::Verify)
    } else if s.len() == 9 && s[0] == 'T' && s[8] == '1' {
        Some(ErrorKind::TakeTill1)
    } else if s.len() == 11 && s[0] == 'T' && s[10] == 'N' {
        Some(ErrorKind::TakeWhileMN)
    } else if s.len() == 29 && s[0] == 'N' && s[28] == 'e' {
        Some(ErrorKind::TooLarge)
    } else if s.len() == 32 && s[0] == 'C' && s[31] == 's' && s[22] == '0' {
        Some(ErrorKind::Many0Count)
    } else if s.len() == 32 && s[0] == 'C' && s[31] == 's' && s[22] == '1' {
        Some(ErrorKind::Many1Count)
    } else if s.len() == 5 && s[0] == 'F' && s[4] == 't' {
        Some(ErrorKind::Float)
    } else if s.len() == 7 && s[0] == 'S' && s[6] == 'y' {
        Some(ErrorKind::Satisfy)
    } else if s.len() == 4 && s[0] == 'F' && s[3] == 'l' {
        Some(ErrorKind::Fail)
    } else if s.len() == 5 && s[0] == 'T' && s[4] == 'n' {
        Some(ErrorKind::Token)
    } else {
        None
    }
}

/// Reading the kind back from its description gives the kind.
proof fn lemma_described_kind(k: ErrorKind)
    ensures
        described_kind(kind_description(k)) == Some(k),
        kind_description(k).len() > 0,
{
    reveal_strlit("Tag");
    reveal_strlit("Map on Result");
    reveal_strlit("Alternative");
    reveal_strlit("IsNot");
    reveal_strlit("IsA");
    reveal_strlit("Separated list");
    reveal_strlit("Separated non empty list");
    reveal_strlit("Many0");
    reveal_strlit("Many1");
    reveal_strlit("Count");
    reveal_strlit("Take until");
    reveal_strlit("Length followed by value");
    reveal_strlit("Tag closure");
    reveal_strlit("Alphabetic");
    reveal_strlit("Digit");
    reveal_strlit("AlphaNumeric");
    reveal_strlit("Space");
    reveal_strlit("Multiple spaces");
    reveal_strlit("LengthValueFn");
    reveal_strlit("End of file");
    reveal_strlit("Switch");
    reveal_strlit("Tag on bitstream");
    reveal_strlit("OneOf");
    reveal_strlit("NoneOf");
    reveal_strlit("Char");
    reveal_strlit("CrLf");
    reveal_strlit("RegexpMatch");
    reveal_strlit("RegexpMatches");
    reveal_strlit("RegexpFind");
    reveal_strlit("RegexpCapture");
    reveal_strlit("RegexpCaptures");
    reveal_strlit("TakeWhile1");
    reveal_strlit("Complete");
    reveal_strlit("Fix");
    reveal_strlit("Escaped");
    reveal_strlit("EscapedTransform");
    reveal_strlit("NonEmpty");
    reveal_strlit("Many(m, n)");
    reveal_strlit("Hexadecimal Digit");
    reveal_strlit("Octal digit");
    reveal_strlit("Negation");
    reveal_strlit("Permutation");
    reveal_strlit("ManyTill");
    reveal_strlit("predicate verification");
    reveal_strlit("TakeTill1");
    reveal_strlit("TakeWhileMN");
    reveal_strlit("Needed data size is too large");
    reveal_strlit("Count occurrence of >=0 patterns");
    reveal_strlit("Count occurrence of >=1 patterns");
    reveal_strlit("Float");
    reveal_strlit("Satisfy");
    reveal_strlit("Fail");
    reveal_strlit("Token");
    match k {
        ErrorKind::Tag => assert(described_kind(kind_description(k)) == Some(k)),
        ErrorKind::MapRes => assert(described_kind(kind_description(k)) == Some(k)),
        ErrorKind::Alt => assert(described_kind(kind_description(k)) == Some(k)),
        ErrorKind::IsNot => assert(described_kind(kind_description(k)) == Some(k)),
        ErrorKind::IsA => assert(described_kind(kind_description(k)) == Some(k)),
        ErrorKind::SeparatedList => assert(described_kind(kind_description(k)) == Some(k)),
        ErrorKind::SeparatedNonEmptyList => assert(described_kind(kind_description(k)) == Some(k)),
        ErrorKind::Many0 => assert(described_kind(kind_description(k)) == Some(k)),
        ErrorKind::Many1 => assert(described_kind(kind_description(k)) == Some(k)),
        ErrorKind::Count => assert(described_kind(kind_description(k)) == Some(k)),
        ErrorKind::TakeUntil => assert(described_kind(kind_description(k)) == Some(k)),
        ErrorKind::LengthValue => assert(described_kind(kind_description(k)) == Some(k)),
        ErrorKind::TagClosure => assert(described_kind(kind_description(k)) == Some(k)),
        ErrorKind::Alpha => assert(described_kind(kind_description(k)) == Some(k)),
        ErrorKind::Digit => assert(described_kind(kind_description(k)) == Some(k)),
        ErrorKind::AlphaNumeric => assert(described_kind(kind_description(k)) == Some(k)),
        ErrorKind::Space => assert(described_kind(kind_description(k)) == Some(k)),
        ErrorKind::MultiSpace => assert(described_kind(kind_description(k)) == Some(k)),
        ErrorKind::LengthValueFn => assert(described_kind(kind_description(k)) == Some(k)),
        ErrorKind::Eof => assert(described_kind(kind_description(k)) == Some(k)),
        ErrorKind::Switch => assert(described_kind(kind_description(k)) == Some(k)),
        ErrorKind::TagBits => assert(described_kind(kind_description(k)) == Some(k)),
        ErrorKind::OneOf => assert(described_kind(kind_description(k)) == Some(k)),
        ErrorKind::NoneOf => assert(described_kind(kind_description(k)) == Some(k)),
        ErrorKind::Char => assert(described_kind(kind_description(k)) == Some(k)),
        ErrorKind::CrLf => assert(described_kind(kind_description(k)) == Some(k)),
        ErrorKind::RegexpMatch => assert(described_kind(kind_description(k)) == Some(k)),
        ErrorKind::RegexpMatches => assert(described_kind(kind_description(k)) == Some(k)),
        ErrorKind::RegexpFind => assert(described_kind(kind_description(k)) == Some(k)),
        ErrorKind::RegexpCapture => assert(described_kind(kind_description(k)) == Some(k)),
        ErrorKind::RegexpCaptures => assert(described_kind(kind_description(k)) == Some(k)),
        ErrorKind::TakeWhile1 => assert(described_kind(kind_description(k)) == Some(k)),
        ErrorKind::Complete => assert(described_kind(kind_description(k)) == Some(k)),
        ErrorKind::Fix => assert(described_kind(kind_description(k)) == Some(k)),
        ErrorKind::Escaped => assert(described_kind(kind_description(k)) == Some(k)),
        ErrorKind::EscapedTransform => assert(described_kind(kind_description(k)) == Some(k)),
        ErrorKind::NonEmpty => assert(described_kind(kind_description(k)) == Some(k)),
        ErrorKind::ManyMN => assert(described_kind(kind_description(k)) == Some(k)),
        ErrorKind::HexDigit => assert(described_kind(kind_description(k)) == Some(k)),
        ErrorKind::OctDigit => assert(described_kind(kind_description(k)) == Some(k)),
        ErrorKind::Not => assert(described_kind(kind_description(k)) == Some(k)),
        ErrorKind::Permutation => assert(described_kind(kind_description(k)) == Some(k)),
        ErrorKind::ManyTill => assert(described_kind(kind_description(k)) == Some(k)),
        ErrorKind::Verify => assert(described_kind(kind_description(k)) == Some(k)),
        ErrorKind::TakeTill1 => assert(described_kind(kind_description(k)) == Some(k)),
        ErrorKind::TakeWhileMN => assert(described_kind(kind_description(k)) == Some(k)),
        ErrorKind::TooLarge => assert(described_kind(kind_description(k)) == Some(k)),
        ErrorKind::Many0Count => assert(described_kind(kind_description(k)) == Some(k)),
        ErrorKind::Many1Count => assert(described_kind(kind_description(k)) == Some(k)),
        ErrorKind::Float => assert(described_kind(kind_description(k)) == Some(k)),
        ErrorKind::Satisfy => assert(described_kind(kind_description(k)) == Some(k)),
        ErrorKind::Fail => assert(described_kind(kind_description(k)) == Some(k)),
        ErrorKind::Token => assert(described_kind(kind_description(k)) == Some(k)),
    }
}

/// Each kind of error has its own description, and none is empty: the description tells the
/// kind apart.
pub proof fn law_description_identifies_kind(k1: ErrorKind, k2: ErrorKind)
    ensures
        kind_description(k1).len() > 0,
        k1 != k2 ==> kind_description(k1) != kind_description(k2),
{
    lemma_described_kind(k1);
    lemma_described_kind(k2);
}


impl ErrorKind {
    /// Converts an `ErrorKind` to a text description.
    pub fn description(&self) -> (r: &'static str)
        ensures
            r@ == kind_description(*self),
    {
        match *self {
            ErrorKind::Tag => "Tag",
            ErrorKind::MapRes => "Map on Result",
            ErrorKind::Alt => "Alternative",
            ErrorKind::IsNot => "IsNot",
            ErrorKind::IsA => "IsA",
            ErrorKind::SeparatedList => "Separated list",
            ErrorKind::SeparatedNonEmptyList => "Separated non empty list",
            ErrorKind::Many0 => "Many0",
            ErrorKind::Many1 => "Many1",
            ErrorKind::Count => "Count",
            ErrorKind::TakeUntil => "Take until",
            ErrorKind::LengthValue => "Length followed by value",
            ErrorKind::TagClosure => "Tag closure",
            ErrorKind::Alpha => "Alphabetic",
            ErrorKind::Digit => "Digit",
            ErrorKind::AlphaNumeric => "AlphaNumeric",
            ErrorKind::Space => "Space",
            ErrorKind::MultiSpace => "Multiple spaces",
            ErrorKind::LengthValueFn => "LengthValueFn",
            ErrorKind::Eof => "End of file",
            ErrorKind::Switch => "Switch",
            ErrorKind::TagBits => "Tag on bitstream",
            ErrorKind::OneOf => "OneOf",
            ErrorKind::NoneOf => "NoneOf",
            ErrorKind::Char => "Char",
            ErrorKind::CrLf => "CrLf",
            ErrorKind::RegexpMatch => "RegexpMatch",
            ErrorKind::RegexpMatches => "RegexpMatches",
            ErrorKind::RegexpFind => "RegexpFind",
            ErrorKind::RegexpCapture => "RegexpCapture",
            ErrorKind::RegexpCaptures => "RegexpCaptures",
            ErrorKind::TakeWhile1 => "TakeWhile1",
            ErrorKind::Complete => "Complete",
            ErrorKind::Fix => "Fix",
            ErrorKind::Escaped => "Escaped",
            ErrorKind::EscapedTransform => "EscapedTransform",
            ErrorKind::NonEmpty => "NonEmpty",
            ErrorKind::ManyMN => "Many(m, n)",
            ErrorKind::HexDigit => "Hexadecimal Digit",
            ErrorKind::OctDigit => "Octal digit",
            ErrorKind::Not => "Negation",
            ErrorKind::Permutation => "Permutation",
            ErrorKind::ManyTill => "ManyTill",
            ErrorKind::Verify => "predicate verification",
            ErrorKind::TakeTill1 => "TakeTill1",
            ErrorKind::TakeWhileMN => "TakeWhileMN",
            ErrorKind::TooLarge => "Needed data size is too large",
            ErrorKind::Many0Count => "Count occurrence of >=0 patterns",
            ErrorKind::Many1Count => "Count occurrence of >=1 patterns",
            ErrorKind::Float => "Float",
            ErrorKind::Satisfy => "Satisfy",
            ErrorKind::Fail => "Fail",
            ErrorKind::Token => "Token",
        }
    }
}


/// The name of each kind, as its `Debug` form writes it.
pub open spec fn kind_name(kind: ErrorKind) -> Seq<char> {
    match kind {
        ErrorKind::Tag => "Tag"@,
        ErrorKind::MapRes => "MapRes"@,
        ErrorKind::Alt => "Alt"@,
        ErrorKind::IsNot => "IsNot"@,
        ErrorKind::IsA => "IsA"@,
        ErrorKind::SeparatedList => "SeparatedList"@,
        ErrorKind::SeparatedNonEmptyList => "SeparatedNonEmptyList"@,
        ErrorKind::Many0 => "Many0"@,
        ErrorKind::Many1 => "Many1"@,
        ErrorKind::ManyTill => "ManyTill"@,
        ErrorKind::Count => "Count"@,
        ErrorKind::TakeUntil => "TakeUntil"@,
        ErrorKind::LengthValue => "LengthValue"@,
        ErrorKind::TagClosure => "TagClosure"@,
        ErrorKind::Alpha => "Alpha"@,
        ErrorKind::Digit => "Digit"@,
        ErrorKind::HexDigit => "HexDigit"@,
        ErrorKind::OctDigit => "OctDigit"@,
        ErrorKind::AlphaNumeric => "AlphaNumeric"@,
        ErrorKind::Space => "Space"@,
        ErrorKind::MultiSpace => "MultiSpace"@,
        ErrorKind::LengthValueFn => "LengthValueFn"@,
        ErrorKind::Eof => "Eof"@,
        ErrorKind::Switch => "Switch"@,
        ErrorKind::TagBits => "TagBits"@,
        ErrorKind::OneOf => "OneOf"@,
        ErrorKind::NoneOf => "NoneOf"@,
        ErrorKind::Char => "Char"@,
        ErrorKind::CrLf => "CrLf"@,
        ErrorKind::RegexpMatch => "RegexpMatch"@,
        ErrorKind::RegexpMatches => "RegexpMatches"@,
        ErrorKind::RegexpFind => "RegexpFind"@,
        ErrorKind::RegexpCapture => "RegexpCapture"@,
        ErrorKind::RegexpCaptures => "RegexpCaptures"@,
        ErrorKind::TakeWhile1 => "TakeWhile1"@,
        ErrorKind::Complete => "Complete"@,
        ErrorKind::Fix => "Fix"@,
        ErrorKind::Escaped => "Escaped"@,
        ErrorKind::EscapedTransform => "EscapedTransform"@,
        ErrorKind::NonEmpty => "NonEmpty"@,
        ErrorKind::ManyMN => "ManyMN"@,
        ErrorKind::Not => "Not"@,
        ErrorKind::Permutation => "Permutation"@,
        ErrorKind::Verify => "Verify"@,
        ErrorKind::TakeTill1 => "TakeTill1"@,
        ErrorKind::TakeWhileMN => "TakeWhileMN"@,
        ErrorKind::TooLarge => "TooLarge"@,
        ErrorKind::Many0Count => "Many0Count"@,
        ErrorKind::Many1Count => "Many1Count"@,
        ErrorKind::Float => "Float"@,
        ErrorKind::Satisfy => "Satisfy"@,
        ErrorKind::Fail => "Fail"@,
        ErrorKind::Token => "Token"@,
    }
}

impl ErrorKind {
    /// The name of the kind, as its `Debug` form writes it
    fn name(&self) -> (r: &'static str)
        ensures
            r@ == kind_name(*self),
    {
        match *self {
            ErrorKind::Tag => "Tag",
            ErrorKind::MapRes => "MapRes",
            ErrorKind::Alt => "Alt",
            ErrorKind::IsNot => "IsNot",
            ErrorKind::IsA => "IsA",
            ErrorKind::SeparatedList => "SeparatedList",
            ErrorKind::SeparatedNonEmptyList => "SeparatedNonEmptyList",
            ErrorKind::Many0 => "Many0",
            ErrorKind::Many1 => "Many1",
            ErrorKind::ManyTill => "ManyTill",
            ErrorKind::Count => "Count",
            ErrorKind::TakeUntil => "TakeUntil",
            ErrorKind::LengthValue => "LengthValue",
            ErrorKind::TagClosure => "TagClosure",
            ErrorKind::Alpha => "Alpha",
            ErrorKind::Digit => "Digit",
            ErrorKind::HexDigit => "HexDigit",
            ErrorKind::OctDigit => "OctDigit",
            ErrorKind::AlphaNumeric => "AlphaNumeric",
            ErrorKind::Space => "Space",
            ErrorKind::MultiSpace => "MultiSpace",
            ErrorKind::LengthValueFn => "LengthValueFn",
            ErrorKind::Eof => "Eof",
            ErrorKind::Switch => "Switch",
            ErrorKind::TagBits => "TagBits",
            ErrorKind::OneOf => "OneOf",
            ErrorKind::NoneOf => "NoneOf",
            ErrorKind::Char => "Char",
            ErrorKind::CrLf => "CrLf",
            ErrorKind::RegexpMatch => "RegexpMatch",
            ErrorKind::RegexpMatches => "RegexpMatches",
            ErrorKind::RegexpFind => "RegexpFind",
            ErrorKind::RegexpCapture => "RegexpCapture",
            ErrorKind::RegexpCaptures => "RegexpCaptures",
            ErrorKind::TakeWhile1 => "TakeWhile1",
            ErrorKind::Complete => "Complete",
            ErrorKind::Fix => "Fix",
            ErrorKind::Escaped => "Escaped",
            ErrorKind::EscapedTransform => "EscapedTransform",
            ErrorKind::NonEmpty => "NonEmpty",
            ErrorKind::ManyMN => "ManyMN",
            ErrorKind::Not => "Not",
            ErrorKind::Permutation => "Permutation",
            ErrorKind::Verify => "Verify",
            ErrorKind::TakeTill1 => "TakeTill1",
            ErrorKind::TakeWhileMN => "TakeWhileMN",
            ErrorKind::TooLarge => "TooLarge",
            ErrorKind::Many0Count => "Many0Count",
            ErrorKind::Many1Count => "Many1Count",
            ErrorKind::Float => "Float",
            ErrorKind::Satisfy => "Satisfy",
            ErrorKind::Fail => "Fail",
            ErrorKind::Token => "Token",
        }
    }
}

/// What a report on an error names it by: the context text, or the kind's name.
pub open spec fn error_label(kind: VerboseErrorKind) -> Seq<char> {
    match kind {
        VerboseErrorKind::Context(s) => s@,
        VerboseErrorKind::Nom(k) => kind_name(k),
    }
}

/// The number of line feeds in `s`.
pub open spec fn newline_count(s: Seq<char>) -> nat
    decreases s.len(),
{
    if s.len() == 0 {
        0
    } else if s.last() == '\n' {
        newline_count(s.drop_last()) + 1
    } else {
        newline_count(s.drop_last())
    }
}

/// Where the line that ends `prefix` starts: just after its last line feed, or at 0.
pub open spec fn line_start(prefix: Seq<char>) -> nat
    decreases prefix.len(),
{
    if prefix.len() == 0 {
        0
    } else if prefix.last() == '\n' {
        prefix.len()
    } else {
        line_start(prefix.drop_last())
    }
}

/// Where the line of `s` that holds position `from` ends: at the next line feed, or at
/// the end of `s`.
pub open spec fn line_end(s: Seq<char>, from: int) -> int
    decreases s.len() - from,
{
    if from >= s.len() {
        s.len() as int
    } else if s[from] == '\n' {
        from
    } else {
        line_end(s, from + 1)
    }
}

/// Whether `c` has the Unicode `White_Space` property.
pub open spec fn is_white_space(c: char) -> bool {
    let n = c as u32;
    (0x9 <= n <= 0xd) || n == 0x20 || n == 0x85 || n == 0xa0 || n == 0x1680 || (0x2000 <= n
        <= 0x200a) || n == 0x2028 || n == 0x2029 || n == 0x202f || n == 0x205f || n == 0x3000
}

/// `s` without the white space at its end.
pub open spec fn trimmed_end(s: Seq<char>) -> Seq<char>
    decreases s.len(),
{
    if s.len() > 0 && is_white_space(s.last()) {
        trimmed_end(s.drop_last())
    } else {
        s
    }
}

/// The number of bytes that `c` takes in UTF-8.
pub open spec fn utf8_width(c: char) -> nat {
    let n = c as u32;
    if n < 0x80 {
        1
    } else if n < 0x800 {
        2
    } else if n < 0x10000 {
        3
    } else {
        4
    }
}

/// The number of bytes that `s` takes in UTF-8.
pub open spec fn utf8_len(s: Seq<char>) -> nat
    decreases s.len(),
{
    if s.len() == 0 {
        0
    } else {
        utf8_len(s.drop_last()) + utf8_width(s.last())
    }
}

/// The character of the decimal digit `d`.
pub open spec fn digit_char(d: nat) -> char {
    ((48 + d) as u8) as char
}

/// The decimal digits of `n`, most significant first.
pub open spec fn decimal(n: nat) -> Seq<char>
    decreases n,
{
    if n < 10 {
        seq![digit_char(n)]
    } else {
        decimal(n / 10).push(digit_char(n % 10))
    }
}

/// The report on the error numbered `index`, found `offset` characters into `input`: its
/// line number, the line itself, and a caret under the column (counted in bytes) where
/// it was found.
pub open spec fn error_entry(index: nat, input: Seq<char>, offset: int, kind: VerboseErrorKind) -> Seq<char> {
    if input.len() == 0 {
        decimal(index) + ": in "@ + error_label(kind) + ", got empty input\n\n"@
    } else {
        let prefix = input.take(offset);
        let start = line_start(prefix) as int;
        let line = trimmed_end(input.subrange(start, line_end(input, start)));
        decimal(index) + ": at line "@ + decimal(newline_count(prefix) + 1) + ", in "@
            + error_label(kind) + ":\n"@ + line + "\n"@ + Seq::new(
            utf8_len(input.subrange(start, offset)),
            |j: int| ' ',
        ) + "^\n\n"@
    }
}

/// Whether `t` is a suffix of `s`: what remains of `s` after some tokens were consumed.
pub open spec fn is_suffix(t: Seq<char>, s: Seq<char>) -> bool {
    t.len() <= s.len() && s.skip(s.len() - t.len()) == t
}

/// The reports on the first `n` errors of `errors`, in order.
pub open spec fn error_report(input: Seq<char>, errors: Seq<(&str, VerboseErrorKind)>, n: nat) -> Seq<char>
    decreases n,
{
    if n == 0 {
        Seq::empty()
    } else {
        let k = (n - 1) as nat;
        error_report(input, errors, k) + error_entry(
            k,
            input,
            input.len() - errors[k as int].0@.len(),
            errors[k as int].1,
        )
    }
}

/// The report of `convert_error` is one block per error, in order: no errors give no text,
/// and the block of the error at index `k` starts with `k` in decimal and `": "` and ends
/// with an empty line; for an empty input it is `"{k}: in {label}, got empty input"`.
pub proof fn law_report_blocks(
    input: Seq<char>,
    errors: Seq<(&str, VerboseErrorKind)>,
    k: nat,
    offset: int,
    kind: VerboseErrorKind,
)
    ensures
        error_report(input, errors, 0) == Seq::<char>::empty(),
        error_report(input, errors, k + 1) == error_report(input, errors, k) + error_entry(
            k,
            input,
            input.len() - errors[k as int].0@.len(),
            errors[k as int].1,
        ),
        error_entry(k, input, offset, kind).take(decimal(k).len() as int + 2) == decimal(k) + ": "@,
        error_entry(k, input, offset, kind).len() >= decimal(k).len() + 4,
        error_entry(k, input, offset, kind).skip(error_entry(k, input, offset, kind).len() - 2)
            == "\n\n"@,
        input.len() == 0 ==> error_entry(k, input, offset, kind) == decimal(k) + ": in "@
            + error_label(kind) + ", got empty input\n\n"@,
{
    reveal_strlit(": ");
    reveal_strlit(": in ");
    reveal_strlit(", got empty input\n\n");
    reveal_strlit(": at line ");
    reveal_strlit(", in ");
    reveal_strlit(":\n");
    reveal_strlit("\n");
    reveal_strlit("^\n\n");
    reveal_strlit("\n\n");
    let e = error_entry(k, input, offset, kind);
    let d = decimal(k);
    if input.len() == 0 {
        let tail = ", got empty input\n\n"@;
        assert(e == d + ": in "@ + error_label(kind) + tail);
        assert(e.take(d.len() as int + 2) =~= d + ": "@);
        assert(e.skip(e.len() - 2) =~= "\n\n"@);
    } else {
        let prefix = input.take(offset);
        let start = line_start(prefix) as int;
        let line = trimmed_end(input.subrange(start, line_end(input, start)));
        let mid = ": at line "@ + decimal(newline_count(prefix) + 1) + ", in "@ + error_label(kind)
            + ":\n"@ + line + "\n"@ + Seq::new(utf8_len(input.subrange(start, offset)), |j: int| ' ');
        assert(e =~= d + mid + "^\n\n"@);
        assert(e.take(d.len() as int + 2) =~= d + ": "@);
        assert(e.skip(e.len() - 2) =~= "\n\n"@);
    }
}

/// The characters of `s`, in order.
fn text_chars(s: &str) -> (r: Vec<char>)
    ensures
        r@ == s@,
{
    let n = s.unicode_len();
    let mut v: Vec<char> = Vec::new();
    let mut i: usize = 0;
    while i < n
        invariant
            i <= n,
            n == s@.len(),
            v@ == s@.take(i as int),
        decreases n - i,
    {
        v.push(s.get_char(i));
        i += 1;
        assert(v@ =~= s@.take(i as int));
    }
    assert(v@ =~= s@);
    v
}

/// Whether `c` is white space, as [`is_white_space`] states it.
fn white_space(c: char) -> (r: bool)
    ensures
        r == is_white_space(c),
{
    let n = c as u32;
    (0x9 <= n && n <= 0xd) || n == 0x20 || n == 0x85 || n == 0xa0 || n == 0x1680 || (0x2000 <= n
        && n <= 0x200a) || n == 0x2028 || n == 0x2029 || n == 0x202f || n == 0x205f || n == 0x3000
}

/// Appends the decimal digits of `n`.
fn push_decimal(out: &mut String, n: usize)
    ensures
        final(out)@ == old(out)@ + decimal(n as nat),
    decreases n,
{
    if n >= 10 {
        push_decimal(out, n / 10);
    }
    let d: u8 = (n % 10) as u8;
    let c: char = (48u8 + d) as char;
    assert(c == digit_char((n % 10) as nat));
    let ghost before = out@;
    push_char(out, c);
    assert(out@ =~= old(out)@ + decimal(n as nat));
}

/// The number of line feeds among the first `end` characters of `cs`.
fn count_newlines(cs: &Vec<char>, end: usize) -> (r: usize)
    requires
        end <= cs@.len(),
    ensures
        r == newline_count(cs@.take(end as int)),
        r <= end,
{
    let mut count: usize = 0;
    let mut i: usize = 0;
    while i < end
        invariant
            i <= end,
            end <= cs@.len(),
            count <= i,
            count == newline_count(cs@.take(i as int)),
        decreases end - i,
    {
        assert(cs@.take(i + 1).drop_last() =~= cs@.take(i as int));
        if cs[i] == '\n' {
            count += 1;
        }
        i += 1;
    }
    count
}

/// Where the line that ends the first `end` characters of `cs` starts.
fn find_line_start(cs: &Vec<char>, end: usize) -> (r: usize)
    requires
        end <= cs@.len(),
    ensures
        r == line_start(cs@.take(end as int)),
        r <= end,
{
    let mut j: usize = end;
    while j > 0 && cs[j - 1] != '\n'
        invariant
            j <= end,
            end <= cs@.len(),
            line_start(cs@.take(end as int)) == line_start(cs@.take(j as int)),
        decreases j,
    {
        assert(cs@.take(j as int).drop_last() =~= cs@.take(j - 1));
        j -= 1;
    }
    if j > 0 {
        assert(cs@.take(j as int).last() == '\n');
    }
    j
}

/// Where the line of `cs` that holds position `from` ends.
fn find_line_end(cs: &Vec<char>, from: usize) -> (r: usize)
    requires
        from <= cs@.len(),
    ensures
        r == line_end(cs@, from as int),
        from <= r <= cs@.len(),
{
    let mut k: usize = from;
    while k < cs.len() && cs[k] != '\n'
        invariant
            from <= k <= cs@.len(),
            line_end(cs@, from as int) == line_end(cs@, k as int),
        decreases cs@.len() - k,
    {
        k += 1;
    }
    k
}

/// Where the characters of `cs` from `start` to `end` end once the white space at their
/// end is dropped.
fn trim_line_end(cs: &Vec<char>, start: usize, end: usize) -> (r: usize)
    requires
        start <= end <= cs@.len(),
    ensures
        start <= r <= end,
        cs@.subrange(start as int, r as int) == trimmed_end(cs@.subrange(start as int, end as int)),
{
    let mut e: usize = end;
    while e > start && white_space(cs[e - 1])
        invariant
            start <= e <= end,
            end <= cs@.len(),
            trimmed_end(cs@.subrange(start as int, end as int)) == trimmed_end(
                cs@.subrange(start as int, e as int),
            ),
        decreases e,
    {
        assert(cs@.subrange(start as int, e as int).drop_last() =~= cs@.subrange(
            start as int,
            e - 1,
        ));
        e -= 1;
    }
    e
}

/// The UTF-8 length of a concatenation is the sum of the lengths.
pub proof fn lemma_utf8_len_concat(a: Seq<char>, b: Seq<char>)
    ensures
        utf8_len(a + b) == utf8_len(a) + utf8_len(b),
    decreases b.len(),
{
    if b.len() > 0 {
        lemma_utf8_len_concat(a, b.drop_last());
        assert((a + b).drop_last() =~= a + b.drop_last());
    } else {
        assert(a + b =~= a);
    }
}

/// The UTF-8 length of the characters of `cs` from `start` to `end`.
fn utf8_count(cs: &Vec<char>, start: usize, end: usize) -> (r: usize)
    requires
        start <= end <= cs@.len(),
        utf8_len(cs@) <= usize::MAX,
    ensures
        r == utf8_len(cs@.subrange(start as int, end as int)),
{
    proof {
        lemma_utf8_len_concat(cs@.take(start as int), cs@.subrange(start as int, end as int));
        lemma_utf8_len_concat(cs@.take(end as int), cs@.skip(end as int));
        assert(cs@.take(start as int) + cs@.subrange(start as int, end as int) =~= cs@.take(
            end as int,
        ));
        assert(cs@.take(end as int) + cs@.skip(end as int) =~= cs@);
    }
    let mut total: usize = 0;
    let mut i: usize = start;
    while i < end
        invariant
            start <= i <= end,
            end <= cs@.len(),
            total == utf8_len(cs@.subrange(start as int, i as int)),
            utf8_len(cs@.subrange(start as int, end as int)) <= usize::MAX,
        decreases end - i,
    {
        proof {
            lemma_utf8_len_concat(cs@.subrange(start as int, i + 1), cs@.subrange(i + 1, end as int));
            assert(cs@.subrange(start as int, i + 1) + cs@.subrange(i + 1, end as int)
                =~= cs@.subrange(start as int, end as int));
            assert(cs@.subrange(start as int, i + 1).drop_last() =~= cs@.subrange(
                start as int,
                i as int,
            ));
        }
        let n = cs[i] as u32;
        let w: usize = if n < 0x80 {
            1
        } else if n < 0x800 {
            2
        } else if n < 0x10000 {
            3
        } else {
            4
        };
        total = total + w;
        i += 1;
    }
    total
}

/// Appends the characters of `cs` from `start` to `end`.
fn push_chars(out: &mut String, cs: &Vec<char>, start: usize, end: usize)
    requires
        start <= end <= cs@.len(),
    ensures
        final(out)@ == old(out)@ + cs@.subrange(start as int, end as int),
{
    let mut k: usize = start;
    while k < end
        invariant
            start <= k <= end,
            end <= cs@.len(),
            out@ == old(out)@ + cs@.subrange(start as int, k as int),
        decreases end - k,
    {
        push_char(out, cs[k]);
        k += 1;
        assert(out@ =~= old(out)@ + cs@.subrange(start as int, k as int));
    }
}

/// Appends `n` spaces.
fn push_spaces(out: &mut String, n: usize)
    ensures
        final(out)@ == old(out)@ + Seq::new(n as nat, |j: int| ' '),
{
    let mut k: usize = 0;
    while k < n
        invariant
            k <= n,
            out@ == old(out)@ + Seq::new(k as nat, |j: int| ' '),
        decreases n - k,
    {
        push_char(out, ' ');
        k += 1;
        assert(out@ =~= old(out)@ + Seq::new(k as nat, |j: int| ' '));
    }
}

/// Appends what an error is named by.
fn push_label(out: &mut String, kind: &VerboseErrorKind)
    ensures
        final(out)@ == old(out)@ + error_label(*kind),
{
    match kind {
        VerboseErrorKind::Context(s) => out.append(s),
        VerboseErrorKind::Nom(k) => out.append(k.name()),
    }
}

/// A sequence of characters takes at least as many bytes as it has characters.
proof fn lemma_utf8_len_bound(s: Seq<char>)
    ensures
        s.len() <= utf8_len(s),
    decreases s.len(),
{
    if s.len() > 0 {
        lemma_utf8_len_bound(s.drop_last());
    }
}

/// Appends the report on the error numbered `index`, found `offset` characters into `cs`.
fn push_error_entry(out: &mut String, index: usize, cs: &Vec<char>, offset: usize, kind: &VerboseErrorKind)
    requires
        offset <= cs@.len(),
        utf8_len(cs@) <= isize::MAX,
    ensures
        final(out)@ == old(out)@ + error_entry(index as nat, cs@, offset as int, *kind),
{
    let ghost base = out@;
    if cs.len() == 0 {
        push_decimal(out, index);
        out.append(": in ");
        push_label(out, kind);
        out.append(", got empty input\n\n");
        assert(out@ =~= base + error_entry(index as nat, cs@, offset as int, *kind));
    } else {
        proof {
            lemma_utf8_len_bound(cs@);
        }
        let start = find_line_start(cs, offset);
        let stop = find_line_end(cs, start);
        let trimmed = trim_line_end(cs, start, stop);
        let newlines = count_newlines(cs, offset);
        let column = utf8_count(cs, start, offset);
        push_decimal(out, index);
        out.append(": at line ");
        push_decimal(out, newlines + 1);
        out.append(", in ");
        push_label(out, kind);
        out.append(":\n");
        push_chars(out, cs, start, trimmed);
        out.append("\n");
        push_spaces(out, column);
        out.append("^\n\n");
        assert(out@ =~= base + error_entry(index as nat, cs@, offset as int, *kind));
    }
}

/// Transforms a `VerboseError` into a trace with input position information
///
/// Each error, in order, is reported on lines of its own: its number, its line number in
/// `input`, the context or kind it names, the line itself, and a caret under the column
/// where it was found.
pub fn convert_error(input: &str, e: VerboseError<&str>) -> (r: String)
    requires
        utf8_len(input@) <= isize::MAX,
        forall|i: int| 0 <= i < e.errors@.len() ==> is_suffix(#[trigger] e.errors@[i].0@, input@),
    ensures
        r@ == error_report(input@, e.errors@, e.errors@.len()),
{
    let cs = text_chars(input);
    let mut result = String::new();
    let n = e.errors.len();
    let mut i: usize = 0;
    while i < n
        invariant
            i <= n,
            n == e.errors@.len(),
            cs@ == input@,
            utf8_len(input@) <= isize::MAX,
            forall|j: int| 0 <= j < e.errors@.len() ==> is_suffix(#[trigger] e.errors@[j].0@, input@),
            result@ == error_report(input@, e.errors@, i as nat),
        decreases n - i,
    {
        let at: &str = e.errors[i].0;
        assert(is_suffix(e.errors@[i as int].0@, input@));
        let offset = cs.len() - at.unicode_len();
        push_error_entry(&mut result, i, &cs, offset, &e.errors[i].1);
        i += 1;
    }
    result
}

} // verus!
