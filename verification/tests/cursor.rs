use scanner::Input;

#[test]
fn test_debug_input() {
    let string = "word\nword\nword";
    let index: usize = 5;
    let line: usize = 2;
    let input = Input::at(string, index).unwrap();
    assert_eq!(input.line(), line);
    assert_eq!(format!("{:?}", &input), "Input(5 (2) \"word\\nword\")".to_string());
}

#[test]
fn test_exact() {
    let input = Input::new("1234");
    let out = Input::at("1234", input.index() + 1).unwrap();
    assert_eq!(input.exact('0'..='9'), Some((out, ())));

    let input = Input::new("Hello");
    let out = Input::at("Hello", input.index() + 1).unwrap();
    assert_eq!(input.exact('H'), Some((out, ())));

    let input = Input::new("Hello");
    let out = Input::at("Hello", input.index() + 5).unwrap();
    assert_eq!(input.exact("Hello"), Some((out, ())));
}

#[test]
fn new_cursor_stands_at_the_start_on_line_one() {
    let input = Input::new("some\ntext");
    assert_eq!(input.index(), 0);
    assert_eq!(input.line(), 1);
    assert_eq!(input.string(), "some\ntext");
    let empty = Input::new("");
    assert_eq!(empty.index(), 0);
    assert_eq!(empty.line(), 1);
}

#[test]
fn digit_range_moves_one_byte_and_keeps_the_line() {
    let input = Input::new("1234");
    let (next, ()) = input.exact('0'..='9').unwrap();
    assert_eq!(next.index(), 1);
    assert_eq!(next.line(), 1);
    assert_eq!(next.string(), "1234");
}

#[test]
fn character_moves_one_byte() {
    let input = Input::new("Hello");
    let (next, ()) = input.exact('H').unwrap();
    assert_eq!(next.index(), 1);
    assert_eq!(next.line(), 1);
}

#[test]
fn string_moves_by_its_length() {
    let input = Input::new("Hello");
    let (next, ()) = input.exact("Hello").unwrap();
    assert_eq!(next.index(), 5);
    assert_eq!(next.line(), 1);
    assert_eq!(next.exact('H'), None);
    assert_eq!(next.exact(""), Some((next, ())));
}

#[test]
fn failed_match_gives_nothing_and_leaves_the_cursor() {
    let input = Input::at("word\nword", 5).unwrap();
    let copy = input;
    assert_eq!(input.exact('x'), None);
    assert_eq!(input.exact("world"), None);
    assert_eq!(input.exact('0'..='9'), None);
    assert_eq!(input.exact(|c: char| c.is_uppercase()), None);
    assert!(input == copy);
    assert_eq!(input.index(), 5);
    assert_eq!(input.line(), 2);
}

#[test]
fn digit_range_fails_on_an_empty_rest() {
    let input = Input::at("12", 2).unwrap();
    assert_eq!(input.exact('0'..='9'), None);
    assert_eq!(input.index(), 2);
    let empty = Input::new("");
    assert_eq!(empty.exact('0'..='9'), None);
    assert_eq!(empty.exact('a'), None);
    assert_eq!(empty.exact("a"), None);
    assert_eq!(empty.exact(|_c: char| true), None);
}

#[test]
fn line_feeds_in_a_match_move_the_line_number() {
    let input = Input::new("a\nb\nc");
    let (next, ()) = input.exact("a\nb\n").unwrap();
    assert_eq!(next.index(), 4);
    assert_eq!(next.line(), 3);
    let (last, ()) = next.exact('c').unwrap();
    assert_eq!(last.index(), 5);
    assert_eq!(last.line(), 3);

    let input = Input::new("\n\n");
    let (one, ()) = input.exact('\n').unwrap();
    assert_eq!((one.index(), one.line()), (1, 2));
    let (two, ()) = one.exact(|c: char| c == '\n').unwrap();
    assert_eq!((two.index(), two.line()), (2, 3));
    assert_eq!(two.exact('\n'), None);
}

#[test]
fn matches_never_move_backwards() {
    let text = "ab\ncd\n\nef";
    let mut input = Input::new(text);
    let mut steps: usize = 0;
    while let Some((next, ())) = input.exact(|_c: char| true) {
        assert!(next.index() > input.index());
        assert!(next.line() >= input.line());
        input = next;
        steps += 1;
    }
    assert_eq!(steps, 9);
    assert_eq!(input.index(), text.len());
    assert_eq!(input.line(), 4);
}

#[test]
fn a_match_moves_by_the_bytes_of_what_it_took() {
    let text = "h\u{e9}\u{4e16}\u{1f600}!";
    let input = Input::new(text);
    let (a, ()) = input.exact('h').unwrap();
    assert_eq!(a.index(), 1);
    let (b, ()) = a.exact('\u{e9}').unwrap();
    assert_eq!(b.index(), 3);
    let (c, ()) = b.exact('\u{4e00}'..='\u{9fff}').unwrap();
    assert_eq!(c.index(), 6);
    let (d, ()) = c.exact(|c: char| !c.is_ascii()).unwrap();
    assert_eq!(d.index(), 10);
    let (e, ()) = d.exact("!").unwrap();
    assert_eq!(e.index(), 11);
    assert_eq!(e.index(), text.len());
    let (whole, ()) = input.exact("h\u{e9}\u{4e16}").unwrap();
    assert_eq!(whole.index(), 6);
    assert_eq!(whole, c);
}

#[test]
fn line_number_at_every_offset_counts_the_line_feeds_before_it() {
    let text = "one\n\u{e9}two\n\nthree\n";
    for index in 0..=text.len() + 1 {
        let found = Input::at(text, index);
        if text.is_char_boundary(index) {
            let input = found.unwrap();
            let feeds = text[..index].chars().filter(|c| *c == '\n').count();
            assert_eq!(input.index(), index);
            assert_eq!(input.line(), 1 + feeds);
            assert_eq!(input.string(), text);
        } else {
            assert!(found.is_none());
        }
    }
}

#[test]
fn cursor_at_an_offset_needs_a_character_boundary() {
    assert!(Input::at("\u{e9}", 0).is_some());
    assert!(Input::at("\u{e9}", 1).is_none());
    assert!(Input::at("\u{e9}", 2).is_some());
    assert!(Input::at("\u{e9}", 3).is_none());
    assert!(Input::at("", 0).is_some());
    assert!(Input::at("", 1).is_none());
    assert_eq!(Input::at("abc", 0).unwrap(), Input::new("abc"));
}

#[test]
fn cursors_are_equal_when_text_offset_and_line_are() {
    let a = Input::at("ab", 1).unwrap();
    let b = Input::new("ab").exact('a').unwrap().0;
    assert!(a == b);
    assert!(a != Input::new("ab"));
    assert!(Input::new("ab") != Input::new("abc"));
}

#[test]
fn cursor_shows_at_most_fifteen_characters() {
    let input = Input::new("abcdefghijklmnopqrstuvwxyz");
    assert_eq!(format!("{:?}", input), "Input(0 (1) \"abcdefghijklmno\")");
    assert_eq!(input.show(), "Input(0 (1) \"abcdefghijklmno\")");
    let later = Input::at("abcdefghijklmnopqrstuvwxyz", 20).unwrap();
    assert_eq!(later.show(), "Input(20 (1) \"uvwxyz\")");
    let end = Input::at("abc", 3).unwrap();
    assert_eq!(end.show(), "Input(3 (1) \"\")");
    let wide = Input::new("\u{e9}\u{e9}\u{e9}\u{e9}\u{e9}\u{e9}\u{e9}\u{e9}\u{e9}\u{e9}\u{e9}\u{e9}\u{e9}\u{e9}\u{e9}\u{e9}\u{e9}");
    assert_eq!(
        wide.show(),
        "Input(0 (1) \"\u{e9}\u{e9}\u{e9}\u{e9}\u{e9}\u{e9}\u{e9}\u{e9}\u{e9}\u{e9}\u{e9}\u{e9}\u{e9}\u{e9}\u{e9}\")"
    );
}

#[test]
fn cursor_shows_its_excerpt_in_quotes_with_escapes() {
    let input = Input::new("a\"b\tc\\");
    assert_eq!(input.show(), "Input(0 (1) \"a\\\"b\\tc\\\\\")");
    assert_eq!(Input::lay_out(12, 340, "'x'"), "Input(12 (340) 'x')");
    assert_eq!(Input::lay_out(0, 1, ""), "Input(0 (1) )");
}

#[test]
fn cursor_shows_large_numbers_in_decimal() {
    let mut text = String::new();
    for _ in 0..1234 {
        text.push('\n');
    }
    text.push_str("end");
    let input = Input::at(&text, 1234).unwrap();
    assert_eq!(input.line(), 1235);
    assert_eq!(input.show(), "Input(1234 (1235) \"end\")");
    assert_eq!(
        Input::lay_out(usize::MAX, 1000, "\"\""),
        format!("Input({} (1000) \"\")", usize::MAX)
    );
}
