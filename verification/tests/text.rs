use lan_terminal_chat::bidi::{rtl_visual, shown_line};
use lan_terminal_chat::clock::{clock, clock_at, now, unix_seconds};
use lan_terminal_chat::order::{bytes_at_most, text_at_most};
use lan_terminal_chat::text::{
    chars_of, is_white_space, join_lines, push_decimal, push_two_digits, same_text, split_lines,
    string_of, to_hex, trim,
};

#[test]
fn white_space_is_that_of_unicode() {
    for value in 0..0x11_0000u32 {
        if let Some(c) = char::from_u32(value) {
            assert_eq!(is_white_space(c), c.is_whitespace(), "{value:x}");
        }
    }
}

#[test]
fn trim_takes_white_space_off_both_ends() {
    for text in ["", " ", "a", "  a b\t\n", "\u{a0}سلام\u{3000}", "\r\n/files\r\n", "q "] {
        assert_eq!(trim(text), text.trim());
        assert_eq!(trim(&trim(text)), trim(text));
    }
}

#[test]
fn lines_end_at_line_feeds() {
    for text in [
        "", "\n", "a", "a\n", "a\nb", "a\r\nb\r\n", "\r", "a\r", "\n\n", "a\n\nb", "\r\r\n", "x\ry\n",
    ] {
        let expected: Vec<String> = text.lines().map(|l| l.to_string()).collect();
        assert_eq!(split_lines(text), expected, "{text:?}");
        assert_eq!(join_lines(&split_lines(text)), expected.join("\n"));
    }
}

#[test]
fn text_without_carriage_returns_is_its_lines() {
    let text = "first\n\nthird";
    assert_eq!(join_lines(&split_lines(text)), text);
    assert_eq!(join_lines(&split_lines("ends\n")), "ends");
    assert_eq!(join_lines(&split_lines("ends\n\n")), "ends\n");
    assert_eq!(join_lines(&split_lines("a\rb\r")), "a\rb\r");
}

#[test]
fn characters_go_in_and_out_of_strings() {
    let chars = chars_of("aé✓");
    assert_eq!(chars, vec!['a', 'é', '✓']);
    assert_eq!(string_of(&chars, 1, 3), "é✓");
    assert_eq!(string_of(&chars, 2, 2), "");
    assert!(same_text("aé✓", "aé✓"));
    assert!(!same_text("a", "b"));
}

#[test]
fn numbers_are_written_in_decimal() {
    for n in [0u64, 7, 10, 99, 100, 45455, u64::MAX] {
        let mut out = String::from("n");
        push_decimal(&mut out, n);
        assert_eq!(out, format!("n{n}"));
    }
    for n in [0u64, 5, 10, 59, 99] {
        let mut out = String::new();
        push_two_digits(&mut out, n);
        assert_eq!(out, format!("{n:02}"));
    }
}

#[test]
fn bytes_are_written_in_hexadecimal() {
    assert_eq!(to_hex(&[0, 1, 0x0f, 0xa0, 0xff, 0x9b]), "00010fa0ff9b");
    assert_eq!(to_hex(&[]), "");
}

#[test]
fn order_is_that_of_bytes_and_texts() {
    for (a, b) in [("", ""), ("", "a"), ("a", "b"), ("ab", "a"), ("é", "z"), ("z", "é"), ("😀", "\u{ffff}")] {
        assert_eq!(text_at_most(a, b), a <= b, "{a} {b}");
        assert_eq!(bytes_at_most(a.as_bytes(), b.as_bytes()), a.as_bytes() <= b.as_bytes());
    }
}

#[test]
fn clock_shows_hours_minutes_and_seconds() {
    assert_eq!(clock_at(0), "00:00:00");
    assert_eq!(clock_at(59), "00:00:59");
    assert_eq!(clock_at(3_661), "01:01:01");
    assert_eq!(clock_at(86_399), "23:59:59");
    assert_eq!(clock_at(86_400), "00:00:00");
    assert_eq!(clock_at(1_700_000_000), "22:13:20");
    assert_eq!(clock_at(u64::MAX), clock_at(u64::MAX % 86_400));
}

#[test]
fn clock_repeats_every_day() {
    for days in 0..5u64 {
        assert_eq!(clock_at(45_296 + days * 86_400), "12:34:56");
    }
}

#[test]
fn clock_before_the_epoch_counts_as_the_epoch() {
    assert_eq!(unix_seconds(None), 0);
    assert_eq!(unix_seconds(Some(12)), 12);
}

#[test]
fn now_is_the_system_clock() {
    let before = std::time::SystemTime::now()
        .duration_since(std::time::UNIX_EPOCH)
        .unwrap()
        .as_secs();
    let shown = now();
    assert!(shown >= before);
    assert!(shown <= before + 60);
    assert_eq!(clock().len(), 8);
}

#[test]
fn left_to_right_text_is_kept() {
    assert_eq!(rtl_visual("hello"), "hello");
    assert_eq!(rtl_visual("two\n\nlines"), "two\n\nlines");
    assert_eq!(rtl_visual(""), "");
    assert_eq!(rtl_visual("ends in a line feed\r\n"), "ends in a line feed");
}

#[test]
fn right_to_left_text_is_reordered() {
    assert_eq!(rtl_visual("سلام"), "مالس");
    assert_eq!(rtl_visual("שלום"), "םולש");
    assert_eq!(rtl_visual("abc سلام"), "abc مالس");
    assert_eq!(rtl_visual("plain\nسلام"), "plain\nمالس");
    let words = rtl_visual("سلام علی");
    let reversed: String = "سلام علی".chars().rev().collect();
    assert_eq!(words, reversed);
}

#[test]
fn right_to_left_text_keeps_its_characters() {
    for line in ["سلام علی 123 (abc)", "abc שלום xyz", "\u{202e}left", "é سلام e\u{301}"] {
        let mut expected: Vec<char> = line.chars().collect();
        let mut shown: Vec<char> = rtl_visual(line).chars().collect();
        expected.sort();
        shown.sort();
        assert_eq!(shown, expected, "{line:?}");
    }
}

#[test]
fn only_the_first_paragraph_of_a_right_to_left_line_is_shown() {
    for end in ['\r', '\u{1c}', '\u{1d}', '\u{1e}', '\u{85}', '\u{2029}'] {
        let mut shown: Vec<char> = rtl_visual(&format!("سلام{end}more")).chars().collect();
        let mut expected: Vec<char> = format!("سلام{end}").chars().collect();
        expected.sort();
        shown.sort();
        assert_eq!(shown, expected, "{end:?}");
    }
    let mut shown: Vec<char> = rtl_visual("سلام\u{2028}x").chars().collect();
    shown.sort();
    assert_eq!(shown.len(), 6);
}

#[test]
fn left_to_right_text_loses_only_a_final_line_feed() {
    assert_eq!(rtl_visual("a\nb\n"), "a\nb");
    assert_eq!(rtl_visual("\n"), "");
    assert_eq!(rtl_visual("a\n\n"), "a\n");
    assert_eq!(rtl_visual("a\rb"), "a\rb");
}

#[test]
fn every_character_below_hebrew_is_left_to_right() {
    for value in 0..0x590u32 {
        if let Some(c) = char::from_u32(value) {
            if c != '\n' && c != '\r' {
                let line = format!("a{c}1{c}");
                assert_eq!(rtl_visual(&line), line, "{value:x}");
            }
        }
    }
}

#[test]
fn every_hebrew_arabic_and_persian_letter_is_right_to_left() {
    let letters = (0x5d0..=0x5eau32).chain(0x620..=0x64a).chain(0x671..=0x6d3);
    for c in letters.filter_map(char::from_u32) {
        assert_eq!(rtl_visual(&format!("{c}!")), format!("!{c}"), "{c:?}");
        assert_eq!(rtl_visual(&format!("a {c}{c}b")), format!("a {c}{c}b"));
        assert_eq!(rtl_visual(&format!("a {c}.{c}\u{5d0}")), format!("a \u{5d0}{c}.{c}"));
    }
}

#[test]
fn line_is_shown_reordered_where_it_has_such_an_order() {
    assert_eq!(shown_line("line", None), "line");
    assert_eq!(shown_line("line", Some("enil".to_string())), "enil");
}
