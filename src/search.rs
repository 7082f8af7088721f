//! Byte searches backed by `memchr`.

use vstd::prelude::*;

verus! {

/// `i` is the first position of `s` that holds `a`.
pub open spec fn is_first_of1(s: Seq<u8>, a: u8, i: int) -> bool {
    0 <= i < s.len() && s[i] == a && forall|j: int| 0 <= j < i ==> s[j] != a
}

/// `i` is the first position of `s` that holds `a` or `b`.
pub open spec fn is_first_of2(s: Seq<u8>, a: u8, b: u8, i: int) -> bool {
    0 <= i < s.len() && (s[i] == a || s[i] == b) && forall|j: int|
        0 <= j < i ==> s[j] != a && s[j] != b
}

/// `i` is the first position of `s` that holds `a`, `b` or `c`.
pub open spec fn is_first_of3(s: Seq<u8>, a: u8, b: u8, c: u8, i: int) -> bool {
    0 <= i < s.len() && (s[i] == a || s[i] == b || s[i] == c) && forall|j: int|
        0 <= j < i ==> s[j] != a && s[j] != b && s[j] != c
}

/// Relies on `memchr::memchr`: the index of the first occurrence of `needle`
/// in `haystack`, or `None` when it does not occur.
#[verifier::external_body]
pub(crate) fn find_byte(needle: u8, haystack: &[u8]) -> (r: Option<usize>)
    ensures
        match r {
            Some(i) => is_first_of1(haystack@, needle, i as int),
            None => forall|j: int| 0 <= j < haystack@.len() ==> haystack@[j] != needle,
        },
{
    memchr::memchr(needle, haystack)
}

/// Relies on `memchr::memchr2`: the index of the first byte of `haystack`
/// that equals either needle, or `None` when there is none.
#[verifier::external_body]
pub(crate) fn find_byte2(n1: u8, n2: u8, haystack: &[u8]) -> (r: Option<usize>)
    ensures
        match r {
            Some(i) => is_first_of2(haystack@, n1, n2, i as int),
            None => forall|j: int|
                0 <= j < haystack@.len() ==> haystack@[j] != n1 && haystack@[j] != n2,
        },
{
    memchr::memchr2(n1, n2, haystack)
}

/// Relies on `memchr::memchr3`: the index of the first byte of `haystack`
/// that equals one of the three needles, or `None` when there is none.
#[verifier::external_body]
pub(crate) fn find_byte3(n1: u8, n2: u8, n3: u8, haystack: &[u8]) -> (r: Option<usize>)
    ensures
        match r {
            Some(i) => is_first_of3(haystack@, n1, n2, n3, i as int),
            None => forall|j: int|
                0 <= j < haystack@.len() ==> haystack@[j] != n1 && haystack@[j] != n2
                    && haystack@[j] != n3,
        },
{
    memchr::memchr3(n1, n2, n3, haystack)
}

} // verus!
