//! Trimming: a text without the white space at its two ends.

use vstd::prelude::*;
use vstd::string::*;
use crate::pattern::{chars_of, is_substring, occurs_at};

verus! {

/// The characters that Unicode gives the property `White_Space`: the
/// controls from tab to carriage return, the space, next line, the
/// no-break space, the Ogham space mark, the spaces from en quad to hair
/// space, the line and paragraph separators, the narrow no-break space,
/// the medium mathematical space and the ideographic space.
pub open spec fn is_white_space(c: char) -> bool {
    let v = c as u32;
    ||| 0x0009 <= v <= 0x000D
    ||| v == 0x0020
    ||| v == 0x0085
    ||| v == 0x00A0
    ||| v == 0x1680
    ||| 0x2000 <= v <= 0x200A
    ||| v == 0x2028
    ||| v == 0x2029
    ||| v == 0x202F
    ||| v == 0x205F
    ||| v == 0x3000
}

/// `s` without the white space at its start.
pub open spec fn trim_start(s: Seq<char>) -> Seq<char>
    decreases s.len(),
{
    if s.len() > 0 && is_white_space(s.first()) {
        trim_start(s.drop_first())
    } else {
        s
    }
}

/// `s` without the white space at its end.
pub open spec fn trim_end(s: Seq<char>) -> Seq<char>
    decreases s.len(),
{
    if s.len() > 0 && is_white_space(s.last()) {
        trim_end(s.drop_last())
    } else {
        s
    }
}

/// `s` without the white space at its two ends.
pub open spec fn trimmed(s: Seq<char>) -> Seq<char> {
    trim_end(trim_start(s))
}

/// Where `s` holds white space up to position `k` and none at `k`,
/// `trim_start` removes exactly the first `k` characters.
pub proof fn lemma_trim_start_is_skip(s: Seq<char>, k: int)
    requires
        0 <= k <= s.len(),
        forall|i: int| 0 <= i < k ==> is_white_space(#[trigger] s[i]),
        k < s.len() ==> !is_white_space(s[k]),
    ensures
        trim_start(s) == s.skip(k),
    decreases k,
{
    if k == 0 {
        assert(s.skip(0) =~= s);
    } else {
        let rest = s.drop_first();
        assert(is_white_space(s[0]));
        assert forall|i: int| 0 <= i < k - 1 implies is_white_space(#[trigger] rest[i]) by {
            assert(rest[i] == s[i + 1]);
        }
        lemma_trim_start_is_skip(rest, k - 1);
        assert(rest.skip(k - 1) =~= s.skip(k));
    }
}

/// Where `s` holds white space from position `k` on and none before it,
/// `trim_end` keeps exactly the first `k` characters.
pub proof fn lemma_trim_end_is_take(s: Seq<char>, k: int)
    requires
        0 <= k <= s.len(),
        forall|i: int| k <= i < s.len() ==> is_white_space(#[trigger] s[i]),
        k > 0 ==> !is_white_space(s[k - 1]),
    ensures
        trim_end(s) == s.take(k),
    decreases s.len() - k,
{
    if k == s.len() {
        assert(s.take(k) =~= s);
    } else {
        let rest = s.drop_last();
        assert(is_white_space(s[s.len() - 1]));
        lemma_trim_end_is_take(rest, k);
        assert(rest.take(k) =~= s.take(k));
    }
}

/// What `trim_start` leaves is the end of the text and starts with no
/// white space, and what it removes is white space.
pub proof fn lemma_trim_start(s: Seq<char>)
    ensures
        trim_start(s).len() <= s.len(),
        trim_start(s) == s.skip(s.len() - trim_start(s).len()),
        trim_start(s).len() > 0 ==> !is_white_space(trim_start(s).first()),
        forall|k: int| 0 <= k < s.len() - trim_start(s).len() ==> is_white_space(#[trigger] s[k]),
    decreases s.len(),
{
    if s.len() > 0 && is_white_space(s.first()) {
        let rest = s.drop_first();
        lemma_trim_start(rest);
        assert(rest.skip(rest.len() - trim_start(rest).len()) =~= s.skip(
            s.len() - trim_start(s).len(),
        ));
        assert forall|k: int| 0 <= k < s.len() - trim_start(s).len() implies is_white_space(
            #[trigger] s[k],
        ) by {
            if k > 0 {
                assert(s[k] == rest[k - 1]);
            }
        }
    } else {
        assert(s.skip(0) =~= s);
    }
}

/// What `trim_end` leaves is the start of the text and ends with no white
/// space, and what it removes is white space.
pub proof fn lemma_trim_end(s: Seq<char>)
    ensures
        trim_end(s).len() <= s.len(),
        trim_end(s) == s.take(trim_end(s).len() as int),
        trim_end(s).len() > 0 ==> !is_white_space(trim_end(s).last()),
        forall|k: int| trim_end(s).len() <= k < s.len() ==> is_white_space(#[trigger] s[k]),
    decreases s.len(),
{
    if s.len() > 0 && is_white_space(s.last()) {
        let rest = s.drop_last();
        lemma_trim_end(rest);
        assert(rest.take(trim_end(rest).len() as int) =~= s.take(trim_end(s).len() as int));
        assert forall|k: int| trim_end(s).len() <= k < s.len() implies is_white_space(
            #[trigger] s[k],
        ) by {
            if k < rest.len() {
                assert(s[k] == rest[k]);
            }
        }
    } else {
        assert(s.take(s.len() as int) =~= s);
    }
}

/// A trimmed text is a part of the text, and neither starts nor ends with
/// white space.
pub proof fn lemma_trimmed(s: Seq<char>)
    ensures
        is_substring(trimmed(s), s),
        trimmed(s).len() > 0 ==> !is_white_space(trimmed(s).first()) && !is_white_space(
            trimmed(s).last(),
        ),
{
    let kept = trim_start(s);
    let from = s.len() - kept.len();
    lemma_trim_start(s);
    lemma_trim_end(kept);
    assert(s.subrange(from, from + trimmed(s).len()) =~= trimmed(s));
    assert(occurs_at(trimmed(s), s, from));
    if trimmed(s).len() > 0 {
        assert(trimmed(s).first() == kept.first());
    }
}

/// A text with no white space at its ends.
pub open spec fn has_bare_ends(s: Seq<char>) -> bool {
    s.len() > 0 ==> !is_white_space(s.first()) && !is_white_space(s.last())
}

/// Trimming a text loses no occurrence of a text with no white space at
/// its ends.
pub proof fn lemma_trimming_keeps_bare_part(needle: Seq<char>, hay: Seq<char>)
    requires
        has_bare_ends(needle),
        is_substring(needle, hay),
    ensures
        is_substring(needle, trimmed(hay)),
{
    let kept = trim_start(hay);
    let from = hay.len() - kept.len();
    let to = from + trimmed(hay).len();
    lemma_trim_start(hay);
    lemma_trim_end(kept);
    if needle.len() == 0 {
        assert(trimmed(hay).subrange(0, 0) =~= needle);
        assert(occurs_at(needle, trimmed(hay), 0));
    } else {
        let at = choose|at: int| occurs_at(needle, hay, at);
        let found = hay.subrange(at, at + needle.len());
        assert(found.first() == hay[at]);
        assert(found.last() == hay[at + needle.len() - 1]);
        assert(from <= at);
        if at + needle.len() > to {
            assert(hay[at + needle.len() - 1] == kept[at + needle.len() - 1 - from]);
        }
        assert(trimmed(hay).subrange(at - from, at - from + needle.len()) =~= found);
        assert(occurs_at(needle, trimmed(hay), at - from));
    }
}

/// Whether `c` is white space.
pub fn is_whitespace(c: char) -> (white: bool)
    ensures
        white == is_white_space(c),
{
    let v: u32 = c as u32;
    (0x0009 <= v && v <= 0x000D) || v == 0x0020 || v == 0x0085 || v == 0x00A0 || v == 0x1680
        || (0x2000 <= v && v <= 0x200A) || v == 0x2028 || v == 0x2029 || v == 0x202F
        || v == 0x205F || v == 0x3000
}

/// The two positions between which the trimmed text stands in `chars`.
pub fn trim_bounds(chars: &[char]) -> (bounds: (usize, usize))
    ensures
        bounds.0 <= bounds.1 <= chars@.len(),
        chars@.subrange(bounds.0 as int, bounds.1 as int) == trimmed(chars@),
{
    let n = chars.len();
    let mut from: usize = 0;
    while from < n && is_whitespace(chars[from])
        invariant
            from <= n,
            n == chars@.len(),
            forall|i: int| 0 <= i < from ==> is_white_space(#[trigger] chars@[i]),
        decreases n - from,
    {
        from += 1;
    }
    let mut to: usize = n;
    while to > from && is_whitespace(chars[to - 1])
        invariant
            from <= to <= n,
            n == chars@.len(),
            forall|i: int| to <= i < n ==> is_white_space(#[trigger] chars@[i]),
        decreases to,
    {
        to -= 1;
    }
    proof {
        let kept = chars@.skip(from as int);
        lemma_trim_start_is_skip(chars@, from as int);
        assert forall|i: int| to - from <= i < kept.len() implies is_white_space(
            #[trigger] kept[i],
        ) by {
            assert(kept[i] == chars@[from + i]);
        }
        lemma_trim_end_is_take(kept, to - from);
        assert(kept.take(to - from) =~= chars@.subrange(from as int, to as int));
    }
    (from, to)
}

/// `s` without the white space at its two ends, as a slice of `s`.
pub fn trim<'a>(s: &'a str) -> (out: &'a str)
    ensures
        out@ == trimmed(s@),
{
    let chars = chars_of(s);
    let (from, to) = trim_bounds(chars.as_slice());
    s.substring_char(from, to)
}

} // verus!
