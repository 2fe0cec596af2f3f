//! Text as it is stored: a sequence of characters kept as UTF-8 and
//! addressed by byte offsets that fall between characters.

use vstd::prelude::*;
use vstd::string::StringSliceAdditionalSpecFns;
use vstd::utf8::*;

verus! {

/// Whether `offset` is a byte offset into the stored form of `text` that
/// falls between two characters, at its start or at its end.
pub open spec fn is_boundary(text: Seq<char>, offset: int) -> bool {
    is_char_boundary(encode_utf8(text), offset)
}

/// The characters stored in the bytes `from..to` of `text`.
pub open spec fn text_between(text: Seq<char>, from: int, to: int) -> Seq<char> {
    decode_utf8(encode_utf8(text).subrange(from, to))
}

/// Encoding a concatenation gives the concatenation of the encodings.
pub proof fn lemma_encode_concat(a: Seq<char>, b: Seq<char>)
    ensures
        encode_utf8(a + b) == encode_utf8(a) + encode_utf8(b),
    decreases a.len(),
{
    if a.len() > 0 {
        lemma_encode_concat(a.drop_first(), b);
        assert((a + b).drop_first() =~= a.drop_first() + b);
    }
}

/// In well-formed UTF-8 a byte offset falls between characters exactly when
/// it is the end of the bytes or the byte there does not continue a
/// character.
pub proof fn lemma_boundary_by_byte(bytes: Seq<u8>, offset: int)
    requires
        valid_utf8(bytes),
        0 <= offset <= bytes.len(),
    ensures
        is_char_boundary(bytes, offset) <==> (offset == bytes.len() || !is_continuation_byte(
            bytes[offset],
        )),
{
    if offset == bytes.len() {
        is_char_boundary_start_end_of_seq(bytes);
    } else {
        is_char_boundary_iff_not_is_continuation_byte(bytes, offset);
    }
}

/// An offset that falls between characters lies within the stored text, and
/// the bytes on either side of it are well-formed UTF-8.
pub proof fn lemma_boundary_in_range(text: Seq<char>, offset: int)
    requires
        is_boundary(text, offset),
    ensures
        0 <= offset <= encode_utf8(text).len(),
        valid_utf8(encode_utf8(text)),
        valid_utf8(encode_utf8(text).subrange(0, offset)),
        valid_utf8(encode_utf8(text).subrange(offset, encode_utf8(text).len() as int)),
{
    encode_utf8_valid_utf8(text);
    valid_utf8_split(encode_utf8(text), offset);
}

/// The beginning and the end of a stored text fall between characters.
pub proof fn lemma_ends_are_boundaries(text: Seq<char>)
    ensures
        is_boundary(text, 0),
        is_boundary(text, encode_utf8(text).len() as int),
        text_between(text, 0, encode_utf8(text).len() as int) == text,
        text_between(text, 0, 0) == Seq::<char>::empty(),
{
    let bytes = encode_utf8(text);
    encode_utf8_valid_utf8(text);
    is_char_boundary_start_end_of_seq(bytes);
    assert(bytes.subrange(0, bytes.len() as int) =~= bytes);
    encode_utf8_decode_utf8(text);
}

/// The stored form of a text that ends in `tail` ends in the stored form of
/// `tail`, and the offset where that begins falls between characters.
pub proof fn lemma_tail_boundary(whole: Seq<char>, tail: Seq<char>)
    requires
        tail.is_suffix_of(whole),
    ensures
        encode_utf8(whole) == encode_utf8(whole.take(whole.len() - tail.len())) + encode_utf8(tail),
        encode_utf8(tail).len() <= encode_utf8(whole).len(),
        is_boundary(whole, encode_utf8(whole).len() - encode_utf8(tail).len()),
{
    let head = whole.take(whole.len() - tail.len());
    assert(whole =~= head + tail);
    lemma_encode_concat(head, tail);
    let bytes = encode_utf8(whole);
    let at = encode_utf8(head).len() as int;
    encode_utf8_valid_utf8(whole);
    if tail.len() > 0 {
        encode_utf8_first_scalar(tail);
    }
    lemma_boundary_by_byte(bytes, at);
}

/// Where one well-formed UTF-8 sequence begins with another, the end of the
/// shorter one falls between characters of the longer one.
pub proof fn lemma_prefix_boundary(prefix: Seq<u8>, bytes: Seq<u8>)
    requires
        valid_utf8(prefix),
        valid_utf8(bytes),
        prefix.is_prefix_of(bytes),
    ensures
        is_char_boundary(bytes, prefix.len() as int),
    decreases prefix.len(),
{
    if prefix.len() > 0 {
        lemma_prefix_boundary(pop_first_scalar(prefix), pop_first_scalar(bytes));
    }
}

/// A text that begins with another is stored in bytes that begin with the
/// bytes of the other.
pub proof fn lemma_prefix_stored(prefix: Seq<char>, text: Seq<char>)
    requires
        prefix.is_prefix_of(text),
    ensures
        encode_utf8(prefix).is_prefix_of(encode_utf8(text)),
{
    let rest = text.skip(prefix.len() as int);
    assert(text =~= prefix + rest);
    lemma_encode_concat(prefix, rest);
}

/// A text whose bytes begin with the bytes of another begins with the
/// other, and what follows those bytes is what follows the other.
pub proof fn lemma_prefix_read(prefix: Seq<char>, text: Seq<char>)
    requires
        encode_utf8(prefix).is_prefix_of(encode_utf8(text)),
    ensures
        prefix.is_prefix_of(text),
        is_boundary(text, encode_utf8(prefix).len() as int),
        text_between(text, encode_utf8(prefix).len() as int, encode_utf8(text).len() as int)
            == text.skip(prefix.len() as int),
{
    let bytes = encode_utf8(text);
    let k = encode_utf8(prefix).len() as int;
    encode_utf8_valid_utf8(text);
    encode_utf8_valid_utf8(prefix);
    lemma_prefix_boundary(encode_utf8(prefix), bytes);
    decode_utf8_split(bytes, k);
    encode_utf8_decode_utf8(prefix);
    encode_utf8_decode_utf8(text);
}

/// Offsets that fall between characters of a text still do so within the
/// part of the text that lies between two such offsets.
pub proof fn lemma_boundary_within(bytes: Seq<u8>, from: int, at: int, to: int)
    requires
        valid_utf8(bytes),
        0 <= from <= at <= to <= bytes.len(),
        is_char_boundary(bytes, from),
        is_char_boundary(bytes, at),
        is_char_boundary(bytes, to),
    ensures
        valid_utf8(bytes.subrange(from, to)),
        is_char_boundary(bytes.subrange(from, to), at - from),
{
    valid_utf8_split(bytes, to);
    let head = bytes.subrange(0, to);
    lemma_boundary_by_byte(bytes, from);
    lemma_boundary_by_byte(head, from);
    valid_utf8_split(head, from);
    let part = head.subrange(from, to);
    assert(part =~= bytes.subrange(from, to));
    lemma_boundary_by_byte(bytes, at);
    lemma_boundary_by_byte(part, at - from);
}

/// A text read up to an offset between characters, followed by the text
/// read from there on, is the text read across both parts.
pub proof fn lemma_text_between_split(text: Seq<char>, from: int, at: int, to: int)
    requires
        0 <= from <= at <= to <= encode_utf8(text).len(),
        is_boundary(text, from),
        is_boundary(text, at),
        is_boundary(text, to),
    ensures
        text_between(text, from, to) == text_between(text, from, at) + text_between(text, at, to),
        encode_utf8(text_between(text, from, to)) == encode_utf8(text).subrange(from, to),
{
    let bytes = encode_utf8(text);
    encode_utf8_valid_utf8(text);
    lemma_boundary_within(bytes, from, at, to);
    let part = bytes.subrange(from, to);
    decode_utf8_split(part, at - from);
    assert(part.subrange(0, at - from) =~= bytes.subrange(from, at));
    assert(part.subrange(at - from, part.len() as int) =~= bytes.subrange(at, to));
    decode_utf8_encode_utf8(part);
}

/// The number of bytes that store the character `c`.
pub fn encoded_width(c: char) -> (width: usize)
    ensures
        width == encode_scalar(c as u32).len(),
        1 <= width <= 4,
{
    let code: u32 = c as u32;
    if code < 0x80 {
        1
    } else if code < 0x800 {
        2
    } else if code < 0x10000 {
        3
    } else {
        4
    }
}

/// The part of `string` that lies between two offsets that fall between
/// characters.
pub fn slice_between<'a>(string: &'a str, from: usize, to: usize) -> (part: &'a str)
    requires
        from <= to,
        is_boundary(string@, from as int),
        is_boundary(string@, to as int),
    ensures
        encode_utf8(part@) == encode_utf8(string@).subrange(from as int, to as int),
        part@ == text_between(string@, from as int, to as int),
{
    proof {
        encode_utf8_valid_utf8(string@);
        lemma_boundary_within(string.spec_bytes(), 0, from as int, to as int);
    }
    let (head, _) = string.split_at(to);
    let (_, part) = head.split_at(from);
    proof {
        encode_utf8_decode_utf8(part@);
    }
    part
}

/// Takes the first character off `input`: the character and what follows
/// it, or nothing where `input` is empty.
pub fn split_first<'a>(input: &'a str) -> (parts: Option<(char, &'a str)>)
    ensures
        match parts {
            Some((first, rest)) => input@.len() > 0 && first == input@[0] && rest@
                == input@.drop_first(),
            None => input@.len() == 0,
        },
{
    if input.is_empty() {
        return None;
    }
    let first = input.get_char(0);
    let width = encoded_width(first);
    proof {
        let bytes = input.spec_bytes();
        encode_utf8_valid_utf8(input@);
        encode_utf8_first_scalar(input@);
        assert(is_char_boundary(pop_first_scalar(bytes), 0));
    }
    let (_, rest) = input.split_at(width);
    proof {
        assert(rest.spec_bytes() =~= encode_utf8(input@.drop_first()));
        encode_utf8_decode_utf8(rest@);
        encode_utf8_decode_utf8(input@.drop_first());
    }
    Some((first, rest))
}

/// Takes `prefix` off the front of `input`: what follows it, or nothing
/// where `input` does not begin with `prefix`.
pub fn strip_prefix<'a>(input: &'a str, prefix: &str) -> (rest: Option<&'a str>)
    ensures
        match rest {
            Some(tail) => prefix@.is_prefix_of(input@) && tail@ == input@.skip(
                prefix@.len() as int,
            ),
            None => !prefix@.is_prefix_of(input@),
        },
{
    let whole = input.as_bytes();
    let wanted = prefix.as_bytes();
    proof {
        if prefix@.is_prefix_of(input@) {
            lemma_prefix_stored(prefix@, input@);
        }
    }
    if wanted.len() > whole.len() {
        return None;
    }
    let mut at: usize = 0;
    while at < wanted.len()
        invariant
            at <= wanted@.len() <= whole@.len(),
            whole@ == encode_utf8(input@),
            wanted@ == encode_utf8(prefix@),
            prefix@.is_prefix_of(input@) ==> wanted@.is_prefix_of(whole@),
            forall|j: int| 0 <= j < at ==> whole@[j] == wanted@[j],
        decreases wanted@.len() - at,
    {
        if whole[at] != wanted[at] {
            return None;
        }
        at = at + 1;
    }
    proof {
        lemma_prefix_read(prefix@, input@);
    }
    let (_, tail) = input.split_at(wanted.len());
    proof {
        encode_utf8_decode_utf8(tail@);
    }
    Some(tail)
}

/// The first `limit` characters of `input`, or all of it where it has
/// fewer.
pub fn leading<'a>(input: &'a str, limit: usize) -> (head: &'a str)
    ensures
        head@ == input@.take(
            if limit <= input@.len() {
                limit as int
            } else {
                input@.len() as int
            },
        ),
{
    let mut tail = input;
    let mut taken: usize = 0;
    let mut more = true;
    while more && taken < limit
        invariant
            taken <= limit,
            taken <= input@.len(),
            tail@ == input@.skip(taken as int),
            !more ==> taken == input@.len(),
        decreases (if more { 1int } else { 0int }) + limit - taken,
    {
        match split_first(tail) {
            Some((_, rest)) => {
                tail = rest;
                taken = taken + 1;
            },
            None => {
                more = false;
            },
        }
    }
    proof {
        lemma_tail_boundary(input@, tail@);
        lemma_ends_are_boundaries(input@);
        encode_utf8_decode_utf8(input@.take(taken as int));
        assert(encode_utf8(input@).subrange(0, encode_utf8(input@).len() - encode_utf8(tail@).len())
            =~= encode_utf8(input@.take(taken as int)));
    }
    let cut: usize = input.as_bytes().len() - tail.as_bytes().len();
    slice_between(input, 0, cut)
}

} // verus!
