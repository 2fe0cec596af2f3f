//! The cursor: a place in a source text, with the number of its line.

use crate::encoding::{
    is_boundary, leading, lemma_boundary_by_byte, lemma_boundary_in_range,
    lemma_ends_are_boundaries, lemma_tail_boundary, slice_between, text_between,
};
use crate::lines::{count_feeds, lemma_line_at, lemma_line_at_step, line_at, line_feeds};
use crate::pattern::Exact;
use crate::render::{decimal, push_decimal, put, quote, quoted};
use vstd::prelude::*;
use vstd::utf8::*;

verus! {

/// How many characters of the text ahead a cursor shows of itself.
pub const EXCERPT_CHARS: usize = 15;

/// A cursor as a plain value: the whole text, the byte offset the cursor
/// stands at, and the number of the line that the offset lies on.
pub struct InputView {
    pub text: Seq<char>,
    pub index: int,
    pub line: nat,
}

impl InputView {
    /// The length in bytes of the stored text.
    pub open spec fn len(self) -> int {
        encode_utf8(self.text).len() as int
    }

    /// What holds of every cursor: the offset falls between characters of
    /// the text, the line number is one more than the number of line feeds
    /// before the offset, and the text is short enough for every line
    /// number in it to be a `usize`.
    pub open spec fn wf(self) -> bool {
        &&& self.len() < usize::MAX
        &&& is_boundary(self.text, self.index)
        &&& self.line == line_at(self.text, self.index)
    }

    /// The text from the cursor to the end.
    pub open spec fn rest(self) -> Seq<char> {
        text_between(self.text, self.index, self.len())
    }

    /// The text from this cursor up to the cursor `next`.
    pub open spec fn upto(self, next: InputView) -> Seq<char> {
        text_between(self.text, self.index, next.index)
    }

    /// The part of `rest` that a match has taken when it leaves `tail`.
    pub open spec fn taken(self, tail: Seq<char>) -> Seq<char> {
        self.rest().take(self.rest().len() - tail.len())
    }

    /// Whether `next` is where a match at this cursor arrives: a cursor in
    /// the same text whose remaining text ends this cursor's remaining
    /// text, moved on by the bytes of what was taken and down by the line
    /// feeds in it.
    pub open spec fn leads_to(self, next: InputView) -> bool {
        &&& next.wf()
        &&& next.text == self.text
        &&& next.rest().is_suffix_of(self.rest())
        &&& next.index == self.index + encode_utf8(self.taken(next.rest())).len()
        &&& next.line == self.line + line_feeds(self.taken(next.rest()))
    }

    /// The characters that a cursor shows of the text ahead.
    pub open spec fn excerpt(self) -> Seq<char> {
        self.rest().take(
            if EXCERPT_CHARS <= self.rest().len() {
                EXCERPT_CHARS as int
            } else {
                self.rest().len() as int
            },
        )
    }

    /// How a cursor shows itself: offset, line number in brackets, and the
    /// excerpt in quotes.
    pub open spec fn shown(self) -> Seq<char> {
        shown_cursor(self.index as nat, self.line, quoted(self.excerpt()))
    }
}

/// The layout in which a cursor is shown, around an excerpt that is
/// already in quotes.
pub open spec fn shown_cursor(index: nat, line: nat, excerpt: Seq<char>) -> Seq<char> {
    "Input("@ + decimal(index) + " ("@ + decimal(line) + ") "@ + excerpt + ")"@
}

/// A place in a source text. A cursor borrows the text and never changes
/// it; a match makes a new cursor.
#[derive(Clone, Copy, PartialEq)]
pub struct Input<'a> {
    string: &'a str,
    index: usize,
    line: usize,
}

impl<'a> View for Input<'a> {
    type V = InputView;

    closed spec fn view(&self) -> InputView {
        InputView { text: self.string@, index: self.index as int, line: self.line as nat }
    }
}

impl<'a> Input<'a> {
    #[verifier::type_invariant]
    spec fn inv(self) -> bool {
        self@.wf()
    }

    /// A cursor at the very beginning of `string`, on line one. The text
    /// must take up fewer than `usize::MAX` bytes, so that every line
    /// number in it is a `usize`; `at` tests that itself.
    pub fn new(string: &'a str) -> (input: Self)
        requires
            encode_utf8(string@).len() < usize::MAX,
        ensures
            input@ == (InputView { text: string@, index: 0, line: 1 }),
            input@.wf(),
    {
        proof {
            lemma_ends_are_boundaries(string@);
        }
        Input { string, index: 0, line: 1 }
    }

    /// A cursor at the byte offset `index` of `string`, on the line that
    /// the offset lies on. There is none where the offset does not fall
    /// between characters of `string`, or where `string` takes up
    /// `usize::MAX` bytes.
    pub fn at(string: &'a str, index: usize) -> (found: Option<Self>)
        ensures
            found is Some <==> is_boundary(string@, index as int) && encode_utf8(string@).len()
                < usize::MAX,
            found matches Some(input) ==> input@.wf() && input@ == (InputView {
                text: string@,
                index: index as int,
                line: line_at(string@, index as int),
            }),
    {
        let bytes = string.as_bytes();
        if bytes.len() == usize::MAX || !string.is_char_boundary(index) {
            return None;
        }
        proof {
            lemma_boundary_in_range(string@, index as int);
            lemma_line_at(string@, index as int);
        }
        let feeds: usize = count_feeds(bytes, 0, index);
        Some(Input { string, index, line: 1 + feeds })
    }

    /// The text that the cursor belongs to.
    pub fn string(&self) -> (string: &'a str)
        ensures
            string@ == self@.text,
            self@.wf(),
    {
        proof {
            use_type_invariant(self);
        }
        self.string
    }

    /// The byte offset that the cursor stands at.
    pub fn index(&self) -> (index: usize)
        ensures
            index == self@.index,
            self@.wf(),
    {
        proof {
            use_type_invariant(self);
        }
        self.index
    }

    /// The number of the line that the cursor stands on, counted from one.
    pub fn line(&self) -> (line: usize)
        ensures
            line == self@.line,
            self@.wf(),
    {
        proof {
            use_type_invariant(self);
        }
        self.line
    }

    /// The text from the cursor to the end.
    fn curr(&self) -> (rest: &'a str)
        ensures
            rest@ == self@.rest(),
            encode_utf8(rest@) == encode_utf8(self@.text).subrange(self@.index, self@.len()),
            self@.wf(),
    {
        proof {
            use_type_invariant(self);
            lemma_ends_are_boundaries(self@.text);
            lemma_boundary_in_range(self@.text, self@.index);
        }
        slice_between(self.string, self.index, self.string.as_bytes().len())
    }

    /// Tests `pattern` against the text at the cursor. Where it matches,
    /// the result is the cursor just after the match; where it does not,
    /// there is no result. The cursor itself stays as it is either way.
    ///
    /// A character, a string and a range may be asked about any text. A
    /// predicate must accept the character at the cursor as its argument,
    /// which `lemma_predicate_pattern` turns into a statement about the
    /// predicate itself.
    pub fn exact<E: Exact>(&self, pattern: E) -> (found: Option<(Self, ())>)
        requires
            pattern.defined_on(self@.rest()),
        ensures
            pattern.outcome(
                self@.rest(),
                match found {
                    Some((next, _)) => Some(next@.rest()),
                    None => None,
                },
            ),
            found matches Some((next, _)) ==> self@.leads_to(next@) && self@.index <= next@.index
                && self@.line <= next@.line,
    {
        let curr = self.curr();
        match pattern.exact(curr) {
            Some(rest) => {
                proof {
                    let view = self@;
                    let bytes = encode_utf8(view.text);
                    let ahead = encode_utf8(curr@);
                    let taken = view.taken(rest@);
                    lemma_tail_boundary(curr@, rest@);
                    lemma_boundary_in_range(view.text, view.index);
                    let delta = ahead.len() - encode_utf8(rest@).len();
                    lemma_boundary_by_byte(ahead, delta);
                    lemma_boundary_by_byte(bytes, view.index + delta);
                    assert(bytes.subrange(view.index, view.index + delta) =~= encode_utf8(taken));
                    assert(ahead.subrange(delta, ahead.len() as int) =~= encode_utf8(rest@));
                    assert(bytes.subrange(view.index + delta, view.len()) =~= ahead.subrange(
                        delta,
                        ahead.len() as int,
                    ));
                    encode_utf8_decode_utf8(taken);
                    encode_utf8_decode_utf8(rest@);
                    lemma_line_at_step(view.text, view.index, view.index + delta);
                    lemma_line_at(view.text, view.index + delta);
                }
                let delta: usize = curr.as_bytes().len() - rest.as_bytes().len();
                let feeds: usize = count_feeds(
                    self.string.as_bytes(),
                    self.index,
                    self.index + delta,
                );
                let next = Input {
                    string: self.string,
                    index: self.index + delta,
                    line: self.line + feeds,
                };
                Some((next, ()))
            },
            None => None,
        }
    }

    /// Lays out what a cursor shows of itself, around an excerpt that is
    /// already in quotes.
    pub fn lay_out(index: usize, line: usize, excerpt: &str) -> (out: String)
        ensures
            out@ == shown_cursor(index as nat, line as nat, excerpt@),
    {
        let mut out = String::from_str("Input(");
        push_decimal(&mut out, index);
        out.append(" (");
        push_decimal(&mut out, line);
        out.append(") ");
        out.append(excerpt);
        out.append(")");
        out
    }

    /// What the cursor shows of itself: its offset, its line number, and
    /// the next few characters of the text, in quotes.
    pub fn show(&self) -> (out: String)
        ensures
            out@ == self@.shown(),
    {
        let excerpt = quote(leading(self.curr(), EXCERPT_CHARS));
        Self::lay_out(self.index, self.line, excerpt.as_str())
    }
}

impl<'a> core::fmt::Debug for Input<'a> {
    /// Writes what `show` gives.
    fn fmt(&self, f: &mut core::fmt::Formatter<'_>) -> (done: core::fmt::Result) {
        let text = self.show();
        put(f, text.as_str())
    }
}

} // verus!
