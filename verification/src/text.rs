//! Verified character-level helpers on string slices: equality, prefix and
//! suffix tests, and substring containment.

use vstd::prelude::*;
use vstd::string::StrSliceExecFns;

verus! {

/// `needle` occurs in `hay` as a contiguous run of characters.
pub open spec fn seq_contains(hay: Seq<char>, needle: Seq<char>) -> bool {
    exists|i: int|
        0 <= i && i + needle.len() <= hay.len() && #[trigger] hay.subrange(i, i + needle.len())
            == needle
}

/// `p` is a prefix of `s`.
pub open spec fn spec_starts_with(s: Seq<char>, p: Seq<char>) -> bool {
    p.len() <= s.len() && s.take(p.len() as int) == p
}

/// `p` is a suffix of `s`.
pub open spec fn spec_ends_with(s: Seq<char>, p: Seq<char>) -> bool {
    p.len() <= s.len() && s.skip(s.len() - p.len()) == p
}

/// The two slices hold the same characters.
pub fn str_eq(a: &str, b: &str) -> (r: bool)
    ensures
        r == (a@ == b@),
{
    let a_len = a.unicode_len();
    let b_len = b.unicode_len();
    if a_len != b_len {
        return false;
    }
    let mut i: usize = 0;
    while i < a_len
        invariant
            a_len == a@.len(),
            b_len == b@.len(),
            a_len == b_len,
            i <= a_len,
            forall|j: int| 0 <= j < i ==> a@[j] == b@[j],
        decreases a_len - i,
    {
        if a.get_char(i) != b.get_char(i) {
            return false;
        }
        i = i + 1;
    }
    proof {
        assert(a@ =~= b@);
    }
    true
}

/// The characters of `needle` stand in `hay` beginning at `at`.
fn match_at(hay: &str, needle: &str, at: usize) -> (r: bool)
    requires
        at + needle@.len() <= hay@.len(),
    ensures
        r == (hay@.subrange(at as int, at + needle@.len()) == needle@),
{
    let n_len = needle.unicode_len();
    let h_len = hay.unicode_len();
    let ghost piece = hay@.subrange(at as int, at + needle@.len());
    let mut j: usize = 0;
    while j < n_len
        invariant
            n_len == needle@.len(),
            h_len == hay@.len(),
            at + n_len <= h_len,
            j <= n_len,
            piece == hay@.subrange(at as int, at + needle@.len()),
            forall|l: int| 0 <= l < j ==> hay@[at + l] == needle@[l],
        decreases n_len - j,
    {
        if hay.get_char(at + j) != needle.get_char(j) {
            proof {
                assert(piece[j as int] == hay@[at + j]);
            }
            return false;
        }
        j = j + 1;
    }
    proof {
        assert(piece =~= needle@);
    }
    true
}

/// `needle` occurs somewhere in `hay`.
pub fn contains_str(hay: &str, needle: &str) -> (r: bool)
    ensures
        r == seq_contains(hay@, needle@),
{
    let h_len = hay.unicode_len();
    let n_len = needle.unicode_len();
    if n_len > h_len {
        return false;
    }
    let bound = h_len - n_len;
    let mut i: usize = 0;
    while i < bound
        invariant
            h_len == hay@.len(),
            n_len == needle@.len(),
            n_len <= h_len,
            bound == h_len - n_len,
            i <= bound,
            forall|k: int|
                0 <= k < i ==> #[trigger] hay@.subrange(k, k + needle@.len()) != needle@,
        decreases bound - i,
    {
        if match_at(hay, needle, i) {
            return true;
        }
        i = i + 1;
    }
    if match_at(hay, needle, bound) {
        return true;
    }
    false
}

/// `s` begins with the characters of `p`.
pub fn str_starts_with(s: &str, p: &str) -> (r: bool)
    ensures
        r == spec_starts_with(s@, p@),
{
    let s_len = s.unicode_len();
    let p_len = p.unicode_len();
    if p_len > s_len {
        return false;
    }
    let head = s.substring_char(0, p_len);
    str_eq(head, p)
}

/// `s` ends with the characters of `p`.
pub fn str_ends_with(s: &str, p: &str) -> (r: bool)
    ensures
        r == spec_ends_with(s@, p@),
{
    let s_len = s.unicode_len();
    let p_len = p.unicode_len();
    if p_len > s_len {
        return false;
    }
    let tail = s.substring_char(s_len - p_len, s_len);
    str_eq(tail, p)
}

} // verus!
