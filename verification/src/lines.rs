//! Lines: where they begin and end in the stored text, and how they are
//! numbered.

use crate::encoding::{
    is_boundary, lemma_boundary_by_byte, lemma_boundary_in_range, lemma_text_between_split,
    text_between,
};
use vstd::prelude::*;
use vstd::utf8::*;

verus! {

/// The byte that ends a line.
pub const LINE_FEED: u8 = 10;

/// How many line feed characters `text` holds.
pub open spec fn line_feeds(text: Seq<char>) -> nat {
    text.filter(|c: char| c == '\n').len()
}

/// How many line feed bytes `bytes` holds.
pub open spec fn feed_bytes(bytes: Seq<u8>) -> nat {
    bytes.filter(|b: u8| b == LINE_FEED).len()
}

/// The line number, counted from one, of the byte offset `offset` in `text`.
pub open spec fn line_at(text: Seq<char>, offset: int) -> nat {
    1 + line_feeds(text_between(text, 0, offset))
}

/// The byte offset just after the nearest line feed before `at`, or zero
/// where no line feed comes before `at`.
pub open spec fn line_start(bytes: Seq<u8>, at: int) -> int
    decreases at,
{
    if at <= 0 {
        0
    } else if bytes[at - 1] == LINE_FEED {
        at
    } else {
        line_start(bytes, at - 1)
    }
}

/// The byte offset of the first line feed at or after `at`, or the length
/// of `bytes` where none follows.
pub open spec fn line_end(bytes: Seq<u8>, at: int) -> int
    decreases bytes.len() - at,
{
    if at >= bytes.len() {
        bytes.len() as int
    } else if bytes[at] == LINE_FEED {
        at
    } else {
        line_end(bytes, at + 1)
    }
}

/// One more byte adds one to the count exactly when it is a line feed.
pub proof fn lemma_feed_bytes_push(bytes: Seq<u8>, byte: u8)
    ensures
        feed_bytes(bytes.push(byte)) == feed_bytes(bytes) + if byte == LINE_FEED {
            1nat
        } else {
            0nat
        },
{
    reveal(Seq::filter);
    assert(bytes.push(byte).drop_last() =~= bytes);
}

/// Bytes that hold no line feed count as none.
pub proof fn lemma_feed_bytes_none(bytes: Seq<u8>)
    requires
        forall|i: int| 0 <= i < bytes.len() ==> bytes[i] != LINE_FEED,
    ensures
        feed_bytes(bytes) == 0,
    decreases bytes.len(),
{
    reveal(Seq::filter);
    if bytes.len() > 0 {
        lemma_feed_bytes_none(bytes.drop_last());
    }
}

/// A single character stores one line feed byte if it is the line feed, and
/// none otherwise.
pub proof fn lemma_scalar_feed_bytes(c: char)
    ensures
        feed_bytes(encode_scalar(c as u32)) == line_feeds(seq![c]),
        line_feeds(seq![c]) == if c == '\n' {
            1nat
        } else {
            0nat
        },
{
    let v = c as u32;
    let bytes = encode_scalar(v);
    assert(line_feeds(seq![c]) == if c == '\n' { 1nat } else { 0nat }) by {
        reveal_with_fuel(Seq::filter, 2);
    }
    assert(v <= 0x7f ==> ((v & 0x7F) as u8 == 10u8 <==> v == 10u32)) by (bit_vector);
    assert((0xC0 | ((v >> 6) & 0x1F) as u8) != 10u8) by (bit_vector);
    assert((0xE0 | ((v >> 12) & 0x0F) as u8) != 10u8) by (bit_vector);
    assert((0xF0 | ((v >> 18) & 0x7) as u8) != 10u8) by (bit_vector);
    assert((0x80 | (v & 0x3F) as u8) != 10u8) by (bit_vector);
    assert((0x80 | ((v >> 6) & 0x3F) as u8) != 10u8) by (bit_vector);
    assert((0x80 | ((v >> 12) & 0x3F) as u8) != 10u8) by (bit_vector);
    if c == '\n' {
        lemma_feed_bytes_push(Seq::<u8>::empty(), LINE_FEED);
    } else {
        lemma_feed_bytes_none(bytes);
    }
}

/// The stored form of a text holds as many line feed bytes as the text
/// holds line feed characters.
pub proof fn lemma_feed_bytes_of_text(text: Seq<char>)
    ensures
        feed_bytes(encode_utf8(text)) == line_feeds(text),
    decreases text.len(),
{
    if text.len() == 0 {
        assert(line_feeds(text) <= text.len());
    } else {
        assert(text =~= seq![text[0]] + text.drop_first());
        lemma_scalar_feed_bytes(text[0]);
        lemma_feed_bytes_of_text(text.drop_first());
    }
}

/// The line number of an offset is one more than the number of line feed
/// bytes stored before it, so it is never more than the offset plus one.
pub proof fn lemma_line_at(text: Seq<char>, offset: int)
    requires
        is_boundary(text, offset),
    ensures
        line_at(text, offset) == 1 + feed_bytes(encode_utf8(text).subrange(0, offset)),
        line_at(text, offset) <= offset + 1,
{
    lemma_boundary_in_range(text, offset);
    let head = encode_utf8(text).subrange(0, offset);
    decode_utf8_encode_utf8(head);
    lemma_feed_bytes_of_text(decode_utf8(head));
}

/// From one offset between characters to a later one the line number grows
/// by the number of line feeds that lie between the two.
pub proof fn lemma_line_at_step(text: Seq<char>, from: int, to: int)
    requires
        from <= to,
        is_boundary(text, from),
        is_boundary(text, to),
    ensures
        line_at(text, to) == line_at(text, from) + line_feeds(text_between(text, from, to)),
        line_feeds(text_between(text, from, to)) == feed_bytes(
            encode_utf8(text).subrange(from, to),
        ),
{
    lemma_boundary_in_range(text, to);
    lemma_text_between_split(text, 0, from, to);
    lemma_text_between_split(text, from, from, to);
    lemma_feed_bytes_of_text(text_between(text, from, to));
}

/// What `line_start` picks out: an offset at the very beginning or right
/// after a line feed, with no line feed from there up to `at`.
pub proof fn lemma_line_start(bytes: Seq<u8>, at: int)
    requires
        0 <= at <= bytes.len(),
    ensures
        0 <= line_start(bytes, at) <= at,
        line_start(bytes, at) == 0 || bytes[line_start(bytes, at) - 1] == LINE_FEED,
        forall|j: int| line_start(bytes, at) <= j < at ==> bytes[j] != LINE_FEED,
        (at == 0 || bytes[at - 1] == LINE_FEED) ==> line_start(bytes, at) == at,
    decreases at,
{
    if at > 0 && bytes[at - 1] != LINE_FEED {
        lemma_line_start(bytes, at - 1);
    }
}

/// What `line_end` picks out: the offset of a line feed or the end of the
/// bytes, with no line feed from `at` up to there.
pub proof fn lemma_line_end(bytes: Seq<u8>, at: int)
    requires
        0 <= at <= bytes.len(),
    ensures
        at <= line_end(bytes, at) <= bytes.len(),
        line_end(bytes, at) == bytes.len() || bytes[line_end(bytes, at)] == LINE_FEED,
        forall|j: int| at <= j < line_end(bytes, at) ==> bytes[j] != LINE_FEED,
    decreases bytes.len() - at,
{
    if at < bytes.len() && bytes[at] != LINE_FEED {
        lemma_line_end(bytes, at + 1);
    }
}

/// In well-formed UTF-8 the offset right after a line feed byte falls
/// between characters, and so does the offset of the line feed itself.
pub proof fn lemma_feed_boundaries(bytes: Seq<u8>, at: int)
    requires
        valid_utf8(bytes),
        0 <= at < bytes.len(),
        bytes[at] == LINE_FEED,
    ensures
        is_char_boundary(bytes, at),
        is_char_boundary(bytes, at + 1),
{
    lemma_boundary_by_byte(bytes, at);
    valid_utf8_split(bytes, at);
    assert(valid_utf8(pop_first_scalar(bytes.subrange(at, bytes.len() as int))));
    lemma_boundary_by_byte(bytes, at + 1);
}

/// The line that holds a given offset begins and ends between characters.
pub proof fn lemma_line_boundaries(text: Seq<char>, at: int)
    requires
        0 <= at <= encode_utf8(text).len(),
    ensures
        is_boundary(text, line_start(encode_utf8(text), at)),
        is_boundary(text, line_end(encode_utf8(text), at)),
        0 <= line_start(encode_utf8(text), at) <= at <= line_end(encode_utf8(text), at)
            <= encode_utf8(text).len(),
{
    let bytes = encode_utf8(text);
    encode_utf8_valid_utf8(text);
    lemma_line_start(bytes, at);
    lemma_line_end(bytes, at);
    let begin = line_start(bytes, at);
    let end = line_end(bytes, at);
    if begin > 0 {
        lemma_feed_boundaries(bytes, begin - 1);
    }
    if end < bytes.len() {
        lemma_feed_boundaries(bytes, end);
    } else {
        is_char_boundary_start_end_of_seq(bytes);
    }
}

/// Counts the line feed bytes among `bytes[from..to]`.
pub fn count_feeds(bytes: &[u8], from: usize, to: usize) -> (count: usize)
    requires
        from <= to <= bytes@.len(),
    ensures
        count == feed_bytes(bytes@.subrange(from as int, to as int)),
        count <= to - from,
{
    let mut count: usize = 0;
    let mut at: usize = from;
    while at < to
        invariant
            from <= at <= to <= bytes@.len(),
            count == feed_bytes(bytes@.subrange(from as int, at as int)),
            count <= at - from,
        decreases to - at,
    {
        proof {
            lemma_feed_bytes_push(bytes@.subrange(from as int, at as int), bytes@[at as int]);
            assert(bytes@.subrange(from as int, at as int).push(bytes@[at as int])
                =~= bytes@.subrange(from as int, at + 1));
        }
        if bytes[at] == LINE_FEED {
            count = count + 1;
        }
        at = at + 1;
    }
    count
}

/// Finds where the line that holds the offset `at` begins.
pub fn find_line_start(bytes: &[u8], at: usize) -> (begin: usize)
    requires
        at <= bytes@.len(),
    ensures
        begin == line_start(bytes@, at as int),
        begin <= at,
{
    let mut begin: usize = at;
    while begin > 0 && bytes[begin - 1] != LINE_FEED
        invariant
            begin <= at <= bytes@.len(),
            line_start(bytes@, at as int) == line_start(bytes@, begin as int),
        decreases begin,
    {
        begin = begin - 1;
    }
    begin
}

/// Finds where the line that holds the offset `at` ends.
pub fn find_line_end(bytes: &[u8], at: usize) -> (end: usize)
    requires
        at <= bytes@.len(),
    ensures
        end == line_end(bytes@, at as int),
        at <= end <= bytes@.len(),
{
    let mut end: usize = at;
    while end < bytes.len() && bytes[end] != LINE_FEED
        invariant
            at <= end <= bytes@.len(),
            line_end(bytes@, at as int) == line_end(bytes@, end as int),
        decreases bytes@.len() - end,
    {
        end = end + 1;
    }
    end
}

} // verus!
