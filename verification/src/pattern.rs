//! Patterns: rules that decide whether a text begins in a certain way and,
//! if it does, say what follows the beginning.

use crate::encoding::{split_first, strip_prefix};
use core::ops::RangeInclusive;
use vstd::prelude::*;
use vstd::std_specs::range::RangeInclusiveView;

verus! {

/// What a pattern's answer says in terms of text: the text left over by a
/// match, or nothing.
pub open spec fn left_over(rest: Option<&str>) -> Option<Seq<char>> {
    match rest {
        Some(tail) => Some(tail@),
        None => None,
    }
}

/// A rule that is tested against the very beginning of a text. It looks at
/// nothing but the text it is given and keeps no state between calls.
pub trait Exact {
    /// Whether the pattern may be asked about `view`. The patterns that
    /// need no more than the text may be asked about every `view`.
    spec fn defined_on(&self, view: Seq<char>) -> bool;

    /// Whether the pattern may answer `rest` when asked about `view`:
    /// `Some(tail)` for a match that leaves `tail`, `None` for no match.
    spec fn outcome(&self, view: Seq<char>, rest: Option<Seq<char>>) -> bool;

    /// Tests the pattern against the beginning of `input`. A match hands
    /// back the part of `input` that follows what was matched.
    fn exact<'a>(&self, input: &'a str) -> (rest: Option<&'a str>)
        requires
            self.defined_on(input@),
        ensures
            self.outcome(input@, left_over(rest)),
            rest matches Some(tail) ==> tail@.is_suffix_of(input@),
    ;
}

/// A character matches a text that begins with that character.
impl Exact for char {
    open spec fn defined_on(&self, view: Seq<char>) -> bool {
        true
    }

    open spec fn outcome(&self, view: Seq<char>, rest: Option<Seq<char>>) -> bool {
        rest == if view.len() > 0 && view[0] == *self {
            Some(view.drop_first())
        } else {
            None
        }
    }

    fn exact<'a>(&self, input: &'a str) -> (rest: Option<&'a str>) {
        match split_first(input) {
            Some((first, tail)) => if first == *self {
                Some(tail)
            } else {
                None
            },
            None => None,
        }
    }
}

/// A string matches a text that begins with the whole string.
impl<'p> Exact for &'p str {
    open spec fn defined_on(&self, view: Seq<char>) -> bool {
        true
    }

    open spec fn outcome(&self, view: Seq<char>, rest: Option<Seq<char>>) -> bool {
        rest == if self@.is_prefix_of(view) {
            Some(view.skip(self@.len() as int))
        } else {
            None
        }
    }

    fn exact<'a>(&self, input: &'a str) -> (rest: Option<&'a str>) {
        strip_prefix(input, *self)
    }
}

/// Whether `range` holds `c`: `c` lies between the two ends, both of them
/// counted in, unless the range has been walked to its end as an iterator.
pub open spec fn range_holds(range: RangeInclusiveView<char>, c: char) -> bool {
    range.start <= c && if range.exhausted {
        c < range.end
    } else {
        c <= range.end
    }
}

/// `RangeInclusive::contains` on characters. The result is taken to be the
/// test that the standard library documents: the item is not below the
/// start and not above the end, the end counted in as long as the range has
/// not been walked to its end.
#[verifier::external_body]
fn range_contains(range: &RangeInclusive<char>, c: char) -> (inside: bool)
    ensures
        inside == range_holds(range@, c),
{
    range.contains(&c)
}

/// A closed range of characters matches a text that begins with any one
/// character of the range.
impl Exact for RangeInclusive<char> {
    open spec fn defined_on(&self, view: Seq<char>) -> bool {
        true
    }

    open spec fn outcome(&self, view: Seq<char>, rest: Option<Seq<char>>) -> bool {
        rest == if view.len() > 0 && range_holds(self@, view[0]) {
            Some(view.drop_first())
        } else {
            None
        }
    }

    fn exact<'a>(&self, input: &'a str) -> (rest: Option<&'a str>) {
        match split_first(input) {
            Some((first, tail)) => if range_contains(self, first) {
                Some(tail)
            } else {
                None
            },
            None => None,
        }
    }
}

/// Whether a predicate on characters may be asked about `view`: it must
/// accept the first character of a `view` that has one as its argument.
pub open spec fn predicate_defined_on<F: Fn(char) -> bool>(
    predicate: F,
    view: Seq<char>,
) -> bool {
    view.len() > 0 ==> call_requires(predicate, (view[0],))
}

/// Whether a predicate on characters may answer `rest` when asked about
/// `view`: no match on an empty `view`; otherwise a match that leaves all
/// but the first character where the predicate may hold of it, and no match
/// where the predicate may fail of it.
pub open spec fn predicate_outcome<F: Fn(char) -> bool>(
    predicate: F,
    view: Seq<char>,
    rest: Option<Seq<char>>,
) -> bool {
    if view.len() == 0 {
        rest is None
    } else {
        ||| rest == Some(view.drop_first()) && call_ensures(predicate, (view[0],), true)
        ||| rest is None && call_ensures(predicate, (view[0],), false)
    }
}

/// A predicate on characters matches a text whose first character it holds
/// of. It is not run on an empty text.
impl<F: Fn(char) -> bool> Exact for F {
    open spec fn defined_on(&self, view: Seq<char>) -> bool {
        predicate_defined_on(*self, view)
    }

    open spec fn outcome(&self, view: Seq<char>, rest: Option<Seq<char>>) -> bool {
        predicate_outcome(*self, view, rest)
    }

    fn exact<'a>(&self, input: &'a str) -> (rest: Option<&'a str>) {
        match split_first(input) {
            Some((first, tail)) => if self(first) {
                Some(tail)
            } else {
                None
            },
            None => None,
        }
    }
}

/// What a predicate on characters means as a pattern, for any predicate: a
/// closure or a named function. A caller that holds one particular
/// predicate learns here what `defined_on` and `outcome` say of it.
pub proof fn lemma_predicate_pattern<F: Fn(char) -> bool>(predicate: F, view: Seq<char>)
    ensures
        predicate.defined_on(view) <==> predicate_defined_on(predicate, view),
        forall|rest: Option<Seq<char>>| #[trigger]
            predicate.outcome(view, rest) <==> predicate_outcome(predicate, view, rest),
{
}

} // verus!
