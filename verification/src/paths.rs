//! Canonical-path predicates: prefix tests on path-segment boundaries,
//! prefix replacement, and substring search, each pinned to a sequence-level
//! specification.

use vstd::prelude::*;

verus! {

/// `p` is a (raw) prefix of `s`.
pub open spec fn is_prefix_of(p: Seq<char>, s: Seq<char>) -> bool {
    p.len() <= s.len() && s.subrange(0, p.len() as int) == p
}

/// `p` is a prefix of `s` on a path-segment boundary: either the whole of
/// `s`, or the character of `s` right after `p` is a separator. This is what
/// keeps `/data/show` from matching `/data/show2`.
pub open spec fn is_segment_prefix(p: Seq<char>, s: Seq<char>) -> bool {
    is_prefix_of(p, s) && (p.len() == s.len() || s[p.len() as int] == '/')
}

/// `needle` occurs in `hay` starting at index `i`.
pub open spec fn is_match_at(hay: Seq<char>, needle: Seq<char>, i: int) -> bool {
    0 <= i && i + needle.len() <= hay.len() && hay.subrange(i, i + needle.len()) == needle
}

/// `needle` occurs somewhere in `hay`.
pub open spec fn contains_seq(hay: Seq<char>, needle: Seq<char>) -> bool {
    exists|i: int| is_match_at(hay, needle, i)
}

/// Character-for-character string equality, pinned to view equality.
pub fn str_eq(a: &str, b: &str) -> (r: bool)
    ensures
        r == (a@ == b@),
{
    let n = a.unicode_len();
    if n != b.unicode_len() {
        assert(a@ != b@);
        return false;
    }
    let mut i: usize = 0;
    while i < n
        invariant
            n == a@.len(),
            n == b@.len(),
            i <= n,
            forall|k: int| 0 <= k < i ==> a@[k] == b@[k],
        decreases n - i,
    {
        if a.get_char(i) != b.get_char(i) {
            assert(a@ != b@);
            return false;
        }
        i = i + 1;
    }
    assert(a@ =~= b@);
    true
}

/// Raw prefix test, pinned to [`is_prefix_of`].
pub fn str_is_prefix(p: &str, s: &str) -> (r: bool)
    ensures
        r == is_prefix_of(p@, s@),
{
    let m = p.unicode_len();
    let n = s.unicode_len();
    if m > n {
        return false;
    }
    let mut i: usize = 0;
    while i < m
        invariant
            m == p@.len(),
            n == s@.len(),
            m <= n,
            i <= m,
            forall|k: int| 0 <= k < i ==> p@[k] == s@[k],
        decreases m - i,
    {
        if p.get_char(i) != s.get_char(i) {
            assert(s@.subrange(0, m as int)[i as int] != p@[i as int]);
            return false;
        }
        i = i + 1;
    }
    assert(s@.subrange(0, m as int) =~= p@);
    true
}

/// Segment-boundary prefix test, pinned to [`is_segment_prefix`].
pub fn segment_prefix(p: &str, s: &str) -> (r: bool)
    ensures
        r == is_segment_prefix(p@, s@),
{
    if !str_is_prefix(p, s) {
        return false;
    }
    let m = p.unicode_len();
    let n = s.unicode_len();
    if m == n {
        true
    } else {
        s.get_char(m) == '/'
    }
}

/// Replaces the prefix `client_dir` of `path` with `manager_dir`:
/// the result is `manager_dir` followed by the rest of `path`.
pub fn replace_prefix(client_dir: &str, manager_dir: &str, path: &str) -> (r: String)
    requires
        is_prefix_of(client_dir@, path@),
    ensures
        r@ == manager_dir@ + path@.skip(client_dir@.len() as int),
{
    let m = client_dir.unicode_len();
    let n = path.unicode_len();
    let suffix = path.substring_char(m, n);
    let r = String::from_str(manager_dir).concat(suffix);
    assert(path@.subrange(m as int, n as int) =~= path@.skip(m as int));
    r
}

/// Substring search, pinned to [`contains_seq`].
pub fn contains_str(hay: &str, needle: &str) -> (r: bool)
    ensures
        r == contains_seq(hay@, needle@),
{
    let m = needle.unicode_len();
    let n = hay.unicode_len();
    if m > n {
        assert(forall|i: int| !is_match_at(hay@, needle@, i));
        return false;
    }
    if m == 0 {
        assert(hay@.subrange(0, 0) =~= needle@);
        assert(is_match_at(hay@, needle@, 0));
        return true;
    }
    let mut i: usize = 0;
    while i <= n - m
        invariant
            m == needle@.len(),
            n == hay@.len(),
            0 < m <= n,
            i <= n - m + 1,
            forall|k: int| 0 <= k < i ==> !is_match_at(hay@, needle@, k),
        decreases n - m + 1 - i,
    {
        let mut j: usize = 0;
        let mut mismatch = false;
        while j < m
            invariant
                m == needle@.len(),
                n == hay@.len(),
                i + m <= n,
                j <= m,
                !mismatch ==> forall|k: int| 0 <= k < j ==> hay@[i + k] == needle@[k],
                mismatch ==> !is_match_at(hay@, needle@, i as int),
            decreases m - j,
        {
            if hay.get_char(i + j) != needle.get_char(j) {
                assert(hay@.subrange(i as int, i + m) != needle@) by {
                    assert(hay@.subrange(i as int, i + m)[j as int] == hay@[i + j]);
                };
                mismatch = true;
                j = m;
            } else {
                j = j + 1;
            }
        }
        if !mismatch {
            assert(hay@.subrange(i as int, i + m) =~= needle@);
            assert(is_match_at(hay@, needle@, i as int));
            return true;
        }
        i = i + 1;
    }
    assert(!contains_seq(hay@, needle@));
    false
}

} // verus!
