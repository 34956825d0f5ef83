//! The lines of a text. A line ends at a line feed or at the end of the
//! text; the line feed belongs to no line, and a text that ends in one has
//! no further, empty line after it.

use vstd::prelude::*;
use vstd::string::*;
use vstd::utf8::*;
use crate::encoding::{
    free_of_line_feed, lemma_leading_line_feed_byte, lemma_no_line_feed_byte, LINE_FEED,
};
use crate::pattern::{is_substring, occurs_at};

verus! {

/// The number of characters that stand before the first line feed of
/// `text`; the length of `text` where it holds none.
pub open spec fn line_len(text: Seq<char>) -> nat
    decreases text.len(),
{
    if text.len() == 0 || text[0] == '\n' {
        0
    } else {
        1 + line_len(text.drop_first())
    }
}

/// The first line of `text`, without its line feed.
pub open spec fn first_line(text: Seq<char>) -> Seq<char> {
    text.take(line_len(text) as int)
}

/// What follows the first line of `text` and its line feed.
pub open spec fn after_first_line(text: Seq<char>) -> Seq<char> {
    if line_len(text) < text.len() {
        text.skip(line_len(text) as int + 1)
    } else {
        Seq::empty()
    }
}

/// The lines of `text`, in order.
pub open spec fn lines_of(text: Seq<char>) -> Seq<Seq<char>>
    decreases text.len(),
{
    if text.len() == 0 {
        Seq::empty()
    } else {
        seq![first_line(text)] + lines_of(after_first_line(text))
    }
}

/// `line_len(text)` is the position of the first line feed.
pub proof fn lemma_line_len(text: Seq<char>)
    ensures
        line_len(text) <= text.len(),
        forall|i: int| 0 <= i < line_len(text) ==> text[i] != '\n',
        line_len(text) < text.len() ==> text[line_len(text) as int] == '\n',
    decreases text.len(),
{
    if text.len() == 0 || text[0] == '\n' {
    } else {
        let rest = text.drop_first();
        lemma_line_len(rest);
        assert forall|i: int| 0 <= i < line_len(text) implies text[i] != '\n' by {
            if i > 0 {
                assert(text[i] == rest[i - 1]);
            }
        }
    }
}

/// The position of the first line feed is `line_len(text)`.
pub proof fn lemma_line_len_is(text: Seq<char>, k: int)
    requires
        0 <= k <= text.len(),
        forall|i: int| 0 <= i < k ==> text[i] != '\n',
        k < text.len() ==> text[k] == '\n',
    ensures
        line_len(text) == k,
{
    lemma_line_len(text);
    if line_len(text) < k {
    } else if k < line_len(text) {
    }
}

/// The lines, each followed by a line feed, one after the other.
pub open spec fn terminated(lines: Seq<Seq<char>>) -> Seq<char>
    decreases lines.len(),
{
    if lines.len() == 0 {
        Seq::empty()
    } else {
        lines.first().push('\n') + terminated(lines.drop_first())
    }
}

/// No line holds a line feed.
pub proof fn lemma_lines_hold_no_line_feed(text: Seq<char>, j: int, k: int)
    requires
        0 <= j < lines_of(text).len(),
        0 <= k < lines_of(text)[j].len(),
    ensures
        lines_of(text)[j][k] != '\n',
    decreases text.len(),
{
    lemma_line_len(text);
    if j > 0 {
        lemma_lines_hold_no_line_feed(after_first_line(text), j - 1, k);
    }
}

/// The lines of a text, each followed by a line feed, give the text back,
/// with a line feed at its end where it had none.
pub proof fn lemma_lines_rebuild_text(text: Seq<char>)
    ensures
        terminated(lines_of(text)) == if text.len() == 0 || text.last() == '\n' {
            text
        } else {
            text.push('\n')
        },
    decreases text.len(),
{
    if text.len() > 0 {
        let first = first_line(text);
        let rest = after_first_line(text);
        let lines = lines_of(text);
        lemma_line_len(text);
        lemma_lines_rebuild_text(rest);
        assert(lines.first() == first);
        assert(lines.drop_first() =~= lines_of(rest));
        if line_len(text) < text.len() {
            assert(first.push('\n') =~= text.take(line_len(text) as int + 1));
            if rest.len() == 0 {
                assert(terminated(lines) =~= text);
            } else if rest.last() == '\n' {
                assert(terminated(lines) =~= text);
            } else {
                assert(terminated(lines) =~= text.push('\n'));
            }
        } else {
            assert(first =~= text);
            assert(terminated(lines) =~= text.push('\n'));
        }
    } else {
        assert(terminated(lines_of(text)) =~= text);
    }
}

/// Every line of a text is a part of the text.
pub proof fn lemma_line_is_part_of_text(text: Seq<char>, j: int)
    requires
        0 <= j < lines_of(text).len(),
    ensures
        is_substring(lines_of(text)[j], text),
    decreases text.len(),
{
    lemma_line_len(text);
    if j == 0 {
        assert(text.subrange(0, first_line(text).len() as int) =~= first_line(text));
        assert(occurs_at(first_line(text), text, 0));
    } else {
        let rest = after_first_line(text);
        let line = lines_of(rest)[j - 1];
        lemma_line_is_part_of_text(rest, j - 1);
        let at = choose|at: int| occurs_at(line, rest, at);
        let shift = line_len(text) + 1;
        assert(text.subrange(shift + at, shift + at + line.len()) =~= rest.subrange(
            at,
            at + line.len(),
        ));
        assert(occurs_at(line, text, shift + at));
    }
}

/// Cuts `text` after its first line: the line without its line feed, and
/// what follows the line feed.
pub fn split_first_line<'a>(text: &'a str) -> (parts: (&'a str, &'a str))
    ensures
        parts.0@ == first_line(text@),
        parts.1@ == after_first_line(text@),
{
    let bytes = text.as_bytes();
    let n = bytes.len();
    let mut i: usize = 0;
    while i < n && bytes[i] != LINE_FEED
        invariant
            i <= n,
            n == bytes@.len(),
            free_of_line_feed(bytes@.take(i as int)),
        decreases n - i,
    {
        i += 1;
    }
    proof {
        encode_utf8_valid_utf8(text@);
        encode_utf8_decode_utf8(text@);
    }
    if i == n {
        proof {
            reveal_strlit("");
            assert(bytes@.take(n as int) =~= encode_utf8(text@));
            lemma_no_line_feed_byte(text@);
            lemma_line_len_is(text@, text@.len() as int);
            assert(text@.take(text@.len() as int) =~= text@);
            assert(""@ =~= Seq::<char>::empty());
        }
        (text, "")
    } else {
        proof {
            is_char_boundary_iff_not_is_continuation_byte(bytes@, i as int);
            decode_utf8_split(bytes@, i as int);
        }
        let (line, tail) = text.split_at(i);
        proof {
            encode_utf8_decode_utf8(line@);
            encode_utf8_decode_utf8(tail@);
            encode_utf8_valid_utf8(tail@);
            assert(text@ =~= line@ + tail@);
            lemma_no_line_feed_byte(line@);
            lemma_leading_line_feed_byte(tail@);
            reveal_with_fuel(is_char_boundary, 2);
            reveal_with_fuel(valid_utf8, 2);
            assert(is_char_boundary(tail.spec_bytes(), 1));
        }
        let (_, rest) = tail.split_at(1);
        proof {
            encode_utf8_decode_utf8(rest@);
            encode_utf8_decode_utf8(tail@.drop_first());
            assert(rest@ == tail@.drop_first());
            assert forall|k: int| 0 <= k < line@.len() implies text@[k] != '\n' by {
                assert(text@[k] == line@[k]);
            }
            assert(text@[line@.len() as int] == tail@[0]);
            lemma_line_len_is(text@, line@.len() as int);
            assert(text@.take(line@.len() as int) =~= line@);
            assert(text@.skip(line@.len() as int + 1) =~= tail@.drop_first());
        }
        (line, rest)
    }
}

} // verus!
