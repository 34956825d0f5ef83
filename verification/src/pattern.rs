//! Plain substring search: whether one sequence of characters occurs
//! inside another as a contiguous run.

use vstd::prelude::*;

verus! {

/// `needle` occurs in `hay` as a contiguous run of characters. The empty
/// sequence occurs in every sequence.
pub open spec fn is_substring(needle: Seq<char>, hay: Seq<char>) -> bool {
    exists|i: int| occurs_at(needle, hay, i)
}

/// `needle` occurs in `hay` at position `i`.
pub open spec fn occurs_at(needle: Seq<char>, hay: Seq<char>, i: int) -> bool {
    &&& 0 <= i
    &&& i + needle.len() <= hay.len()
    &&& hay.subrange(i, i + needle.len()) == needle
}

/// A part of a part of a text is a part of that text.
pub proof fn lemma_substring_is_transitive(inner: Seq<char>, middle: Seq<char>, outer: Seq<char>)
    requires
        is_substring(inner, middle),
        is_substring(middle, outer),
    ensures
        is_substring(inner, outer),
{
    let i = choose|i: int| occurs_at(inner, middle, i);
    let j = choose|j: int| occurs_at(middle, outer, j);
    assert(outer.subrange(j + i, j + i + inner.len()) =~= outer.subrange(
        j,
        j + middle.len(),
    ).subrange(i, i + inner.len()));
    assert(occurs_at(inner, outer, j + i));
}

/// The characters of `s`, in order.
pub fn chars_of(s: &str) -> (out: Vec<char>)
    ensures
        out@ == s@,
{
    let mut out: Vec<char> = Vec::new();
    for c in it: s.chars()
        invariant
            it.seq() == s@,
            out@ == s@.take(it.index()),
    {
        out.push(c);
    }
    out
}

/// Whether `needle` stands in `hay` at position `at`.
fn matches_at(needle: &[char], hay: &[char], at: usize) -> (same: bool)
    requires
        at + needle@.len() <= hay@.len(),
    ensures
        same == occurs_at(needle@, hay@, at as int),
{
    let m = needle.len();
    let n = hay.len();
    let mut j: usize = 0;
    while j < m
        invariant
            j <= m,
            m == needle@.len(),
            n == hay@.len(),
            at + m <= n,
            forall|k: int| 0 <= k < j ==> hay@[at + k] == needle@[k],
        decreases m - j,
    {
        if hay[at + j] != needle[j] {
            proof {
                assert(hay@.subrange(at as int, at + m)[j as int] == hay@[at + j]);
            }
            return false;
        }
        j += 1;
    }
    proof {
        assert(hay@.subrange(at as int, at + m) =~= needle@);
    }
    true
}

/// Whether `needle` occurs in `hay`.
pub fn occurs_in(needle: &[char], hay: &[char]) -> (found: bool)
    ensures
        found == is_substring(needle@, hay@),
{
    let m = needle.len();
    let n = hay.len();
    if m > n {
        return false;
    }
    let last = n - m;
    let mut i: usize = 0;
    loop
        invariant
            m == needle@.len(),
            n == hay@.len(),
            last == n - m,
            i <= last,
            forall|k: int| 0 <= k < i ==> !occurs_at(needle@, hay@, k),
        decreases last - i,
    {
        if matches_at(needle, hay, i) {
            return true;
        }
        if i == last {
            return false;
        }
        i += 1;
    }
}

/// Whether the string `needle` occurs in the string `hay`.
pub fn contains(hay: &str, needle: &str) -> (found: bool)
    ensures
        found == is_substring(needle@, hay@),
{
    let needle_chars = chars_of(needle);
    let hay_chars = chars_of(hay);
    occurs_in(needle_chars.as_slice(), hay_chars.as_slice())
}

} // verus!
