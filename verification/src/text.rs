//! Substring matching on text, used by the product-name search.
//!
//! The needle is taken literally: no character of it acts as a wildcard or
//! pattern metacharacter. This closes, rather than reproduces, the classic
//! gap of feeding raw user input into a pattern match.

use vstd::prelude::*;

verus! {

/// The needle occurs contiguously somewhere inside the haystack.
/// An empty needle occurs in every haystack.
pub open spec fn is_substring(needle: Seq<char>, hay: Seq<char>) -> bool {
    exists|i: int| matches_at(needle, hay, i)
}

/// The needle occurs in the haystack starting exactly at position `at`.
pub open spec fn matches_at(needle: Seq<char>, hay: Seq<char>, at: int) -> bool {
    &&& 0 <= at
    &&& at + needle.len() <= hay.len()
    &&& hay.subrange(at, at + needle.len() as int) == needle
}

/// Whether the needle occurs in the haystack starting exactly at `at`.
fn str_matches_at(hay: &str, needle: &str, at: usize, hay_len: usize, needle_len: usize) -> (r:
    bool)
    requires
        hay_len == hay@.len(),
        needle_len == needle@.len(),
        at + needle_len <= hay_len,
    ensures
        r == matches_at(needle@, hay@, at as int),
{
    let mut j: usize = 0;
    while j < needle_len
        invariant
            hay_len == hay@.len(),
            needle_len == needle@.len(),
            at + needle_len <= hay_len,
            j <= needle_len,
            forall|y: int| 0 <= y < j ==> hay@[at + y] == needle@[y],
        decreases needle_len - j,
    {
        if hay.get_char(at + j) != needle.get_char(j) {
            assert(hay@.subrange(at as int, at + needle@.len() as int)[j as int] != needle@[
                j as int
            ]);
            return false;
        }
        j += 1;
    }
    assert(hay@.subrange(at as int, at + needle@.len() as int) =~= needle@);
    true
}

/// Literal substring search: whether `needle` occurs anywhere in `hay`.
pub fn str_contains(hay: &str, needle: &str) -> (r: bool)
    ensures
        r == is_substring(needle@, hay@),
{
    let hay_len = hay.unicode_len();
    let needle_len = needle.unicode_len();
    if needle_len > hay_len {
        return false;
    }
    if needle_len == 0 {
        assert(hay@.subrange(0, 0) =~= needle@);
        assert(matches_at(needle@, hay@, 0));
        return true;
    }
    let mut i: usize = 0;
    while i <= hay_len - needle_len
        invariant
            hay_len == hay@.len(),
            needle_len == needle@.len(),
            0 < needle_len <= hay_len,
            i <= hay_len - needle_len + 1,
            forall|x: int| 0 <= x < i ==> !matches_at(needle@, hay@, x),
        decreases hay_len + 1 - needle_len - i,
    {
        if str_matches_at(hay, needle, i, hay_len, needle_len) {
            return true;
        }
        i += 1;
    }
    assert(forall|x: int| matches_at(needle@, hay@, x) ==> 0 <= x < hay_len - needle_len + 1);
    false
}

} // verus!
