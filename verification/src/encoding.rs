//! How the line feed shows in the UTF-8 bytes of a text: as the byte
//! `0x0A`, and nowhere else. This is what lets a text be cut into lines
//! by looking at its bytes alone.

use vstd::prelude::*;
use vstd::utf8::*;

verus! {

/// The byte that encodes the line feed character.
pub const LINE_FEED: u8 = 0x0A;

/// No byte of `bytes` is the line feed byte.
pub open spec fn free_of_line_feed(bytes: Seq<u8>) -> bool {
    forall|j: int| 0 <= j < bytes.len() ==> #[trigger] bytes[j] != LINE_FEED
}

/// The leading byte of a scalar's encoding is the line feed byte only for
/// the line feed itself.
proof fn lemma_leading_byte_of_scalar(v: u32)
    by (bit_vector)
    ensures
        v <= 0x7F ==> ((v & 0x7F) as u8 == 0x0Au8 <==> v == 0x0Au32),
        (0xC0u8 | ((v >> 6) & 0x1F) as u8) != 0x0Au8,
        (0xE0u8 | ((v >> 12) & 0x0F) as u8) != 0x0Au8,
        (0xF0u8 | ((v >> 18) & 0x7) as u8) != 0x0Au8,
        (0x80u8 | (v & 0x3F) as u8) != 0x0Au8,
        (0x80u8 | ((v >> 6) & 0x3F) as u8) != 0x0Au8,
        (0x80u8 | ((v >> 12) & 0x3F) as u8) != 0x0Au8,
{
}

/// A character's encoding holds the line feed byte exactly when the
/// character is the line feed, and then it is that one byte.
pub proof fn lemma_encode_line_feed(c: char)
    ensures
        encode_scalar(c as u32).len() >= 1,
        c == '\n' ==> encode_scalar(c as u32) == seq![LINE_FEED],
        c != '\n' ==> free_of_line_feed(encode_scalar(c as u32)),
{
    lemma_leading_byte_of_scalar(c as u32);
    if c == '\n' {
        assert(encode_scalar(c as u32) =~= seq![LINE_FEED]);
    }
}

/// A text without the line feed byte in its encoding holds no line feed.
pub proof fn lemma_no_line_feed_byte(chars: Seq<char>)
    requires
        free_of_line_feed(encode_utf8(chars)),
    ensures
        forall|k: int| 0 <= k < chars.len() ==> chars[k] != '\n',
    decreases chars.len(),
{
    if chars.len() > 0 {
        let head = encode_scalar(chars[0] as u32);
        let tail = encode_utf8(chars.drop_first());
        lemma_encode_line_feed(chars[0]);
        assert(encode_utf8(chars) == head + tail);
        assert(encode_utf8(chars)[0] == head[0]);
        assert forall|j: int| 0 <= j < tail.len() implies #[trigger] tail[j] != LINE_FEED by {
            assert(encode_utf8(chars)[head.len() + j] == tail[j]);
        }
        lemma_no_line_feed_byte(chars.drop_first());
        assert forall|k: int| 0 <= k < chars.len() implies chars[k] != '\n' by {
            if k > 0 {
                assert(chars[k] == chars.drop_first()[k - 1]);
            }
        }
    }
}

/// A text whose encoding starts with the line feed byte starts with the
/// line feed, and the bytes after it encode the rest of the text.
pub proof fn lemma_leading_line_feed_byte(chars: Seq<char>)
    requires
        encode_utf8(chars).len() > 0,
        encode_utf8(chars)[0] == LINE_FEED,
    ensures
        chars.len() > 0,
        chars[0] == '\n',
        encode_utf8(chars).subrange(1, encode_utf8(chars).len() as int) == encode_utf8(
            chars.drop_first(),
        ),
{
    let head = encode_scalar(chars[0] as u32);
    let tail = encode_utf8(chars.drop_first());
    lemma_encode_line_feed(chars[0]);
    assert(encode_utf8(chars) == head + tail);
    assert(encode_utf8(chars)[0] == head[0]);
    assert((head + tail).subrange(1, (head + tail).len() as int) =~= tail);
}

} // verus!
