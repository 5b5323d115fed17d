//! Searching byte slices, through the `memchr` crate.
use vstd::prelude::*;

verus! {

/// `needle` occurs in `haystack` starting at position `i`.
pub open spec fn occurs_at<T>(haystack: Seq<T>, needle: Seq<T>, i: int) -> bool {
    0 <= i && i + needle.len() <= haystack.len() && haystack.subrange(i, i + needle.len())
        == needle
}

/// Finds the first position of `needle` in `haystack`, through `memchr::memchr`.
///
/// The contract states what memchr's documentation promises: the index of the first
/// occurrence of the byte, or `None` when it does not occur.
#[verifier::external_body]
pub(crate) fn first_byte(needle: u8, haystack: &[u8]) -> (r: Option<usize>)
    ensures
        r is None ==> !haystack@.contains(needle),
        r matches Some(i) ==> i < haystack@.len() && haystack@[i as int] == needle && forall|j: int|
            0 <= j < i ==> haystack@[j] != needle,
{
    memchr::memchr(needle, haystack)
}

/// Finds the first occurrence of `needle` in `haystack`, through `memchr::memmem::find`.
///
/// The contract states what memchr's documentation promises: the index of the first
/// occurrence of the needle, or `None` when it does not occur.
#[verifier::external_body]
pub(crate) fn first_slice(haystack: &[u8], needle: &[u8]) -> (r: Option<usize>)
    ensures
        r is None ==> forall|i: int| !#[trigger] occurs_at(haystack@, needle@, i),
        r matches Some(i) ==> occurs_at(haystack@, needle@, i as int) && forall|j: int|
            0 <= j < i ==> !#[trigger] occurs_at(haystack@, needle@, j),
{
    memchr::memmem::find(haystack, needle)
}

/// `i` is the first position at which `needle` occurs in `haystack`.
pub open spec fn first_occurrence<T>(haystack: Seq<T>, needle: Seq<T>, i: int) -> bool {
    occurs_at(haystack, needle, i) && forall|j: int| 0 <= j < i ==> !#[trigger] occurs_at(haystack, needle, j)
}

/// `needle` occurs nowhere in `haystack`.
pub open spec fn never_occurs<T>(haystack: Seq<T>, needle: Seq<T>) -> bool {
    forall|i: int| !#[trigger] occurs_at(haystack, needle, i)
}

/// A first occurrence lies within the haystack.
pub proof fn lemma_first_occurrence_bound<T>(haystack: Seq<T>, needle: Seq<T>, i: int)
    requires
        first_occurrence(haystack, needle, i),
    ensures
        0 <= i <= haystack.len(),
{
}

} // verus!
