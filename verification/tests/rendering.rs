use scanner::render::{push_decimal, push_repeated};
use scanner::encoding::{encoded_width, leading, slice_between, split_first, strip_prefix};
use scanner::lines::{count_feeds, find_line_end, find_line_start};

#[test]
fn decimal_notation() {
    for n in [0usize, 1, 9, 10, 11, 99, 100, 101, 12345, 1000000, usize::MAX] {
        let mut out = String::from("n=");
        push_decimal(&mut out, n);
        assert_eq!(out, format!("n={}", n));
    }
}

#[test]
fn repeated_text() {
    let mut out = String::from("[");
    push_repeated(&mut out, "^", 3);
    push_repeated(&mut out, " ", 0);
    push_repeated(&mut out, "ab", 2);
    push_repeated(&mut out, "", 5);
    assert_eq!(out, "[^^^abab");
}

#[test]
fn line_feeds_are_counted_between_offsets() {
    let bytes = "a\n\nb\nc".as_bytes();
    assert_eq!(bytes.len(), 6);
    assert_eq!(count_feeds(bytes, 0, 6), 3);
    assert_eq!(count_feeds(bytes, 0, 0), 0);
    assert_eq!(count_feeds(bytes, 1, 2), 1);
    assert_eq!(count_feeds(bytes, 2, 5), 2);
    assert_eq!(count_feeds(bytes, 5, 6), 0);
}

#[test]
fn lines_begin_after_a_line_feed_and_end_before_one() {
    let bytes = "ab\ncd\n\nef".as_bytes();
    assert_eq!(find_line_start(bytes, 0), 0);
    assert_eq!(find_line_start(bytes, 2), 0);
    assert_eq!(find_line_start(bytes, 3), 3);
    assert_eq!(find_line_start(bytes, 5), 3);
    assert_eq!(find_line_start(bytes, 6), 6);
    assert_eq!(find_line_start(bytes, 9), 7);
    assert_eq!(find_line_end(bytes, 0), 2);
    assert_eq!(find_line_end(bytes, 2), 2);
    assert_eq!(find_line_end(bytes, 3), 5);
    assert_eq!(find_line_end(bytes, 6), 6);
    assert_eq!(find_line_end(bytes, 7), 9);
    assert_eq!(find_line_end(bytes, 9), 9);
}

#[test]
fn characters_take_one_to_four_bytes() {
    for c in ['\0', 'a', '\u{7f}', '\u{80}', '\u{e9}', '\u{7ff}', '\u{800}', '\u{4e16}',
        '\u{d7ff}', '\u{e000}', '\u{ffff}', '\u{10000}', '\u{1f600}', '\u{10ffff}'] {
        assert_eq!(encoded_width(c), c.len_utf8());
    }
}

#[test]
fn first_character_and_what_follows() {
    assert_eq!(split_first("abc"), Some(('a', "bc")));
    assert_eq!(split_first("\u{4e16}\u{754c}"), Some(('\u{4e16}', "\u{754c}")));
    assert_eq!(split_first("x"), Some(('x', "")));
    assert_eq!(split_first(""), None);
}

#[test]
fn prefix_is_taken_off_whole_or_not_at_all() {
    assert_eq!(strip_prefix("foobar", "foo"), Some("bar"));
    assert_eq!(strip_prefix("foobar", "bar"), None);
    assert_eq!(strip_prefix("foo", "foobar"), None);
    assert_eq!(strip_prefix("foo", ""), Some("foo"));
    assert_eq!(strip_prefix("\u{e9}a", "\u{e9}"), Some("a"));
}

#[test]
fn leading_characters() {
    assert_eq!(leading("hello", 2), "he");
    assert_eq!(leading("hello", 5), "hello");
    assert_eq!(leading("hello", 9), "hello");
    assert_eq!(leading("hello", 0), "");
    assert_eq!(leading("", 3), "");
    assert_eq!(leading("\u{e9}\u{4e16}x", 2), "\u{e9}\u{4e16}");
}

#[test]
fn text_between_two_offsets() {
    assert_eq!(slice_between("hello", 1, 3), "el");
    assert_eq!(slice_between("hello", 0, 5), "hello");
    assert_eq!(slice_between("hello", 5, 5), "");
    assert_eq!(slice_between("a\u{e9}b", 1, 3), "\u{e9}");
}
