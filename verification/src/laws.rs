//! What holds between cursors, matches and range markers.

use crate::encoding::{lemma_boundary_in_range, lemma_text_between_split, text_between};
use crate::input::InputView;
use crate::lines::{
    feed_bytes, lemma_line_at, lemma_line_start, lemma_scalar_feed_bytes, line_feeds, LINE_FEED,
};
use crate::span::SpanView;
use vstd::prelude::*;
use vstd::utf8::*;

verus! {

/// The line number of a cursor is one more than the number of line feeds in
/// the text before it, whether they are counted as characters or as bytes.
pub proof fn lemma_cursor_line(cursor: InputView)
    requires
        cursor.wf(),
    ensures
        cursor.line == 1 + line_feeds(text_between(cursor.text, 0, cursor.index)),
        cursor.line == 1 + feed_bytes(encode_utf8(cursor.text).subrange(0, cursor.index)),
        1 <= cursor.line <= cursor.index + 1,
        0 <= cursor.index <= cursor.len(),
{
    lemma_boundary_in_range(cursor.text, cursor.index);
    lemma_line_at(cursor.text, cursor.index);
}

/// A match never moves a cursor backwards. It moves the offset on by the
/// number of bytes that store what it has taken, and the line number by
/// the number of line feeds in it; what it has taken and what it has left
/// make up what lay ahead.
pub proof fn lemma_match_moves_on(before: InputView, after: InputView)
    requires
        before.wf(),
        before.leads_to(after),
    ensures
        before.index <= after.index <= before.len(),
        before.line <= after.line,
        after.index - before.index == encode_utf8(before.taken(after.rest())).len(),
        after.line - before.line == line_feeds(before.taken(after.rest())),
        before.rest() == before.taken(after.rest()) + after.rest(),
        after.index == before.index <==> before.taken(after.rest()).len() == 0,
{
    lemma_boundary_in_range(before.text, after.index);
}

/// A match that takes one character moves the cursor on by the one to four
/// bytes that store the character, and on to the next line exactly when the
/// character is a line feed.
pub proof fn lemma_match_of_one(before: InputView, after: InputView)
    requires
        before.wf(),
        before.leads_to(after),
        before.rest().len() > 0,
        after.rest() == before.rest().drop_first(),
    ensures
        before.taken(after.rest()) == seq![before.rest()[0]],
        after.index - before.index == encode_scalar(before.rest()[0] as u32).len(),
        1 <= after.index - before.index <= 4,
        after.line == before.line + if before.rest()[0] == '\n' {
            1nat
        } else {
            0nat
        },
{
    let first = before.rest()[0];
    assert(before.taken(after.rest()) =~= seq![first]);
    assert(encode_utf8(seq![first]) =~= encode_scalar(first as u32)) by {
        reveal_with_fuel(encode_utf8, 2);
    }
    lemma_scalar_feed_bytes(first);
}

/// A match that takes a given string moves the cursor on by the bytes that
/// store the string, and down by the line feeds in it.
pub proof fn lemma_match_of_string(before: InputView, after: InputView, pattern: Seq<char>)
    requires
        before.wf(),
        before.leads_to(after),
        pattern.is_prefix_of(before.rest()),
        after.rest() == before.rest().skip(pattern.len() as int),
    ensures
        before.taken(after.rest()) == pattern,
        after.index - before.index == encode_utf8(pattern).len(),
        after.line == before.line + line_feeds(pattern),
{
}

/// The range between a cursor and the cursor that a match led to covers
/// exactly the text that the match has taken: followed by what the match
/// left, it is what lay ahead of the first cursor.
pub proof fn lemma_span_of_match(before: InputView, after: InputView)
    requires
        before.wf(),
        before.leads_to(after),
    ensures
        SpanView::between(before, after).wf(),
        SpanView::between(before, after).covered() == before.taken(after.rest()),
        SpanView::between(before, after).covered() + after.rest() == before.rest(),
        before.upto(after) == before.taken(after.rest()),
{
    lemma_boundary_in_range(before.text, after.index);
    is_char_boundary_start_end_of_seq(encode_utf8(before.text));
    lemma_text_between_split(before.text, before.index, after.index, before.len());
}

/// A column is never less than one, and it is one for a range that begins
/// at the beginning of the text or right after a line feed.
pub proof fn lemma_column(span: SpanView)
    requires
        span.wf(),
    ensures
        span.column() >= 1,
        span.column() <= span.start + 1,
        (span.start == 0 || span.bytes()[span.start - 1] == LINE_FEED) ==> span.column() == 1,
{
    lemma_boundary_in_range(span.text, span.start);
    lemma_line_start(span.bytes(), span.start);
}

} // verus!
