//! The range marker: a stretch of a source text, and the message that
//! points at it.

use crate::encoding::{is_boundary, lemma_boundary_in_range, slice_between, text_between};
use crate::input::{Input, InputView};
use crate::lines::{
    count_feeds, find_line_end, find_line_start, lemma_line_at, lemma_line_boundaries, line_at,
    line_end, line_start, LINE_FEED,
};
use crate::render::{decimal, push_decimal, push_repeated, put, quote, quoted, repeated};
use vstd::prelude::*;
use vstd::utf8::*;

verus! {

/// A range marker as a plain value: the whole text, the byte offsets where
/// the range begins and ends, and the number of the line it begins on.
pub struct SpanView {
    pub text: Seq<char>,
    pub start: int,
    pub end: int,
    pub line: nat,
}

impl SpanView {
    /// The text as it is stored.
    pub open spec fn bytes(self) -> Seq<u8> {
        encode_utf8(self.text)
    }

    /// What holds of every range marker: it does not end before it begins,
    /// both ends fall between characters of the text, the line number is
    /// that of its beginning, and the text is short enough for every line
    /// and column number in it to be a `usize`.
    pub open spec fn wf(self) -> bool {
        &&& self.bytes().len() < usize::MAX
        &&& self.start <= self.end
        &&& is_boundary(self.text, self.start)
        &&& is_boundary(self.text, self.end)
        &&& self.line == line_at(self.text, self.start)
    }

    /// The range that lies between two cursors in one text.
    pub open spec fn between(before: InputView, after: InputView) -> SpanView {
        SpanView { text: before.text, start: before.index, end: after.index, line: before.line }
    }

    /// The text that the range covers.
    pub open spec fn covered(self) -> Seq<char> {
        text_between(self.text, self.start, self.end)
    }

    /// The column of the beginning of the range, counted from one in bytes
    /// from the beginning of its line.
    pub open spec fn column(self) -> int {
        self.start - line_start(self.bytes(), self.start) + 1
    }

    /// The whole line that the range begins on, without its line feed.
    pub open spec fn source_line(self) -> Seq<char> {
        text_between(
            self.text,
            line_start(self.bytes(), self.start),
            line_end(self.bytes(), self.start),
        )
    }

    /// The message that points at the range: a header with line, column and
    /// `message`; the line that the range begins on; and under it one caret
    /// for each byte of the range, moved in to the range's column.
    pub open spec fn report(self, message: Seq<char>) -> Seq<char> {
        "[Error "@ + decimal(self.line) + ":"@ + decimal(self.column() as nat) + "] "@ + message
            + "\n"@ + self.source_line() + "\n"@ + repeated(" "@, (self.column() - 1) as nat)
            + repeated("^"@, (self.end - self.start) as nat)
    }

    /// How a range marker shows itself: its offsets, its line number in
    /// brackets, and the text it covers in quotes.
    pub open spec fn shown(self) -> Seq<char> {
        shown_range(self.start as nat, self.end as nat, self.line, quoted(self.covered()))
    }
}

/// The layout in which a range marker is shown, around a text that is
/// already in quotes.
pub open spec fn shown_range(start: nat, end: nat, line: nat, covered: Seq<char>) -> Seq<char> {
    "Span("@ + decimal(start) + ".."@ + decimal(end) + " ("@ + decimal(line) + ") "@ + covered
        + ")"@
}

/// A stretch of a source text. A range marker borrows the text and never
/// changes it.
#[derive(Clone, Copy, PartialEq)]
pub struct Span<'a> {
    string: &'a str,
    start: usize,
    end: usize,
    line: usize,
}

impl<'a> View for Span<'a> {
    type V = SpanView;

    closed spec fn view(&self) -> SpanView {
        SpanView {
            text: self.string@,
            start: self.start as int,
            end: self.end as int,
            line: self.line as nat,
        }
    }
}

impl<'a> Span<'a> {
    #[verifier::type_invariant]
    spec fn inv(self) -> bool {
        self@.wf()
    }

    /// The range of `string` from the byte offset `start` to the byte
    /// offset `end`, with the number of the line that `start` lies on.
    /// There is none where `end` comes before `start`, where one of them
    /// does not fall between characters of `string`, or where `string`
    /// takes up `usize::MAX` bytes.
    pub fn new(string: &'a str, start: usize, end: usize) -> (found: Option<Self>)
        ensures
            found is Some <==> start <= end && is_boundary(string@, start as int) && is_boundary(
                string@,
                end as int,
            ) && encode_utf8(string@).len() < usize::MAX,
            found matches Some(span) ==> span@.wf() && span@ == (SpanView {
                text: string@,
                start: start as int,
                end: end as int,
                line: line_at(string@, start as int),
            }),
    {
        let bytes = string.as_bytes();
        if bytes.len() == usize::MAX || start > end || !string.is_char_boundary(start)
            || !string.is_char_boundary(end) {
            return None;
        }
        proof {
            lemma_boundary_in_range(string@, start as int);
            lemma_line_at(string@, start as int);
        }
        let feeds: usize = count_feeds(bytes, 0, start);
        Some(Span { string, start, end, line: 1 + feeds })
    }

    /// The range from the cursor `before` to the cursor `after`, which
    /// stands in the same text and not before it.
    pub fn between(before: &Input<'a>, after: &Input<'a>) -> (span: Self)
        requires
            before@.text == after@.text,
            before@.index <= after@.index,
        ensures
            span@ == SpanView::between(before@, after@),
            span@.wf(),
    {
        Span {
            string: before.string(),
            start: before.index(),
            end: after.index(),
            line: before.line(),
        }
    }

    /// The text that the range marker belongs to.
    pub fn string(&self) -> (string: &'a str)
        ensures
            string@ == self@.text,
            self@.wf(),
    {
        proof {
            use_type_invariant(self);
        }
        self.string
    }

    /// The byte offset where the range begins.
    pub fn start(&self) -> (start: usize)
        ensures
            start == self@.start,
            self@.wf(),
    {
        proof {
            use_type_invariant(self);
        }
        self.start
    }

    /// The byte offset where the range ends.
    pub fn end(&self) -> (end: usize)
        ensures
            end == self@.end,
            self@.wf(),
    {
        proof {
            use_type_invariant(self);
        }
        self.end
    }

    /// The number of the line that the range begins on, counted from one.
    pub fn line(&self) -> (line: usize)
        ensures
            line == self@.line,
            self@.wf(),
    {
        proof {
            use_type_invariant(self);
        }
        self.line
    }

    /// The text that the range covers, byte for byte.
    pub fn slice(&self) -> (part: &'a str)
        ensures
            part@ == self@.covered(),
            encode_utf8(part@) == self@.bytes().subrange(self@.start, self@.end),
    {
        proof {
            use_type_invariant(self);
        }
        slice_between(self.string, self.start, self.end)
    }

    /// The column of the beginning of the range: one at the beginning of
    /// the text and right after a line feed, and one more for each byte
    /// from there on.
    pub fn column(&self) -> (column: usize)
        ensures
            column == self@.column(),
            column >= 1,
            (self@.start == 0 || self@.bytes()[self@.start - 1] == LINE_FEED) ==> column == 1,
    {
        proof {
            use_type_invariant(self);
            lemma_boundary_in_range(self@.text, self@.start);
        }
        let begin: usize = find_line_start(self.string.as_bytes(), self.start);
        self.start - begin + 1
    }

    /// The message that points at the range, with `message` in its header.
    pub fn error(&self, message: &str) -> (report: String)
        ensures
            report@ == self@.report(message@),
    {
        proof {
            use_type_invariant(self);
            lemma_boundary_in_range(self@.text, self@.start);
            lemma_line_boundaries(self@.text, self@.start);
        }
        let bytes = self.string.as_bytes();
        let begin: usize = find_line_start(bytes, self.start);
        let end: usize = find_line_end(bytes, self.start);
        let content = slice_between(self.string, begin, end);
        let column: usize = self.column();
        let mut report = String::from_str("[Error ");
        push_decimal(&mut report, self.line);
        report.append(":");
        push_decimal(&mut report, column);
        report.append("] ");
        report.append(message);
        report.append("\n");
        report.append(content);
        report.append("\n");
        push_repeated(&mut report, " ", column - 1);
        push_repeated(&mut report, "^", self.end - self.start);
        report
    }

    /// Lays out what a range marker shows of itself, around a text that is
    /// already in quotes.
    pub fn lay_out(start: usize, end: usize, line: usize, covered: &str) -> (out: String)
        ensures
            out@ == shown_range(start as nat, end as nat, line as nat, covered@),
    {
        let mut out = String::from_str("Span(");
        push_decimal(&mut out, start);
        out.append("..");
        push_decimal(&mut out, end);
        out.append(" (");
        push_decimal(&mut out, line);
        out.append(") ");
        out.append(covered);
        out.append(")");
        out
    }

    /// What the range marker shows of itself: its offsets, its line number,
    /// and the text it covers, in quotes.
    pub fn show(&self) -> (out: String)
        ensures
            out@ == self@.shown(),
    {
        let covered = quote(self.slice());
        Self::lay_out(self.start, self.end, self.line, covered.as_str())
    }
}

impl<'a> core::fmt::Debug for Span<'a> {
    /// Writes what `show` gives.
    fn fmt(&self, f: &mut core::fmt::Formatter<'_>) -> (done: core::fmt::Result) {
        let text = self.show();
        put(f, text.as_str())
    }
}

} // verus!
