//! Literal substring containment over character sequences.
//!
//! A line matches a filter exactly when the filter string occurs in the
//! line as a contiguous run of characters; this module defines that notion
//! once, as a specification, and provides the executable search the
//! classifier uses.

use vstd::prelude::*;

verus! {

/// The pattern `pat` occurs in `text` starting at character position `i`.
pub open spec fn matches_at(text: Seq<char>, pat: Seq<char>, i: int) -> bool {
    &&& 0 <= i
    &&& i + pat.len() <= text.len()
    &&& forall|k: int| 0 <= k < pat.len() ==> text[i + k] == pat[k]
}

/// `pat` occurs somewhere in `text` as a contiguous substring.
pub open spec fn contains_seq(text: Seq<char>, pat: Seq<char>) -> bool {
    exists|i: int| matches_at(text, pat, i)
}

/// Whether `pat` occurs in `text` starting exactly at position `i`.
fn match_at(text: &str, pat: &str, i: usize) -> (b: bool)
    requires
        text@.len() <= usize::MAX,
        i + pat@.len() <= text@.len(),
    ensures
        b == matches_at(text@, pat@, i as int),
{
    let m = pat.unicode_len();
    let mut j: usize = 0;
    while j < m
        invariant
            j <= m,
            m == pat@.len(),
            i + m <= text@.len(),
            text@.len() <= usize::MAX,
            forall|k: int| 0 <= k < j ==> text@[i + k] == pat@[k],
        decreases m - j,
    {
        if text.get_char(i + j) != pat.get_char(j) {
            assert(!matches_at(text@, pat@, i as int));
            return false;
        }
        j = j + 1;
    }
    true
}

/// Substring search: whether the filter string `pat` occurs anywhere in
/// `text`.
pub fn str_contains(text: &str, pat: &str) -> (b: bool)
    ensures
        b == contains_seq(text@, pat@),
{
    let n = text.unicode_len();
    let m = pat.unicode_len();
    if m > n {
        assert(!contains_seq(text@, pat@));
        return false;
    }
    let mut i: usize = 0;
    while i <= n - m
        invariant
            m <= n,
            n == text@.len(),
            m == pat@.len(),
            i <= n - m + 1,
            forall|i0: int| 0 <= i0 < i ==> !matches_at(text@, pat@, i0),
        decreases n - m - i + 1,
    {
        if match_at(text, pat, i) {
            return true;
        }
        i = i + 1;
    }
    assert forall|i0: int| !matches_at(text@, pat@, i0) by {
        if 0 <= i0 <= n - m {
            assert(!matches_at(text@, pat@, i0));
        }
    }
    false
}

} // verus!
