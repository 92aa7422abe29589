use rush::number::{parse_i32, push_decimal, push_padded};
use rush::text::{
    char_is_whitespace, chars_of, join_strings, same_text, split_at_char, split_words,
    strip_line_end,
};

fn strings(items: &[&str]) -> Vec<String> {
    items.iter().map(|s| s.to_string()).collect()
}

#[test]
fn white_space_is_what_std_says() {
    let mut code: u32 = 0;
    while code <= 0x10FFFF {
        if let Some(c) = char::from_u32(code) {
            assert_eq!(char_is_whitespace(c), c.is_whitespace(), "{:x}", code);
        }
        code += 1;
    }
}

#[test]
fn split_keeps_empty_pieces() {
    assert_eq!(split_at_char("a|b", '|'), strings(&["a", "b"]));
    assert_eq!(split_at_char("a||b", '|'), strings(&["a", "", "b"]));
    assert_eq!(split_at_char("|a|", '|'), strings(&["", "a", ""]));
    assert_eq!(split_at_char("", '|'), strings(&[""]));
    assert_eq!(split_at_char("abc", '|'), strings(&["abc"]));
}

#[test]
fn split_agrees_with_std() {
    for text in ["", "|", "||", "a", "a|", "|a", "ab|cd|ef", " x | y ", "é|ü"] {
        let expected: Vec<String> = text.split('|').map(|s| s.to_string()).collect();
        assert_eq!(split_at_char(text, '|'), expected, "{:?}", text);
    }
}

#[test]
fn words_are_runs_without_white_space() {
    assert_eq!(split_words("ls -la"), strings(&["ls", "-la"]));
    assert_eq!(split_words("  ls \t -la\n"), strings(&["ls", "-la"]));
    assert_eq!(split_words(""), Vec::<String>::new());
    assert_eq!(split_words(" \t "), Vec::<String>::new());
    assert_eq!(split_words("a\u{3000}b\u{a0}c"), strings(&["a", "b", "c"]));
    assert_eq!(split_words("x"), strings(&["x"]));
}

#[test]
fn words_agree_with_std() {
    for text in ["", " ", "a", " a", "a ", "a b", "a  b", "\ta\r\nb c  ", "é ü\u{2003}z"] {
        let expected: Vec<String> = text.split_whitespace().map(|s| s.to_string()).collect();
        assert_eq!(split_words(text), expected, "{:?}", text);
    }
}

#[test]
fn join_puts_the_separator_between() {
    assert_eq!(join_strings(&strings(&["a", "b", "c"]), " | "), "a | b | c");
    assert_eq!(join_strings(&strings(&["a"]), " "), "a");
    assert_eq!(join_strings(&strings(&[]), " "), "");
    assert_eq!(join_strings(&strings(&["", ""]), "-"), "-");
}

#[test]
fn characters_in_order() {
    assert_eq!(chars_of("héllo"), vec!['h', 'é', 'l', 'l', 'o']);
    assert_eq!(chars_of(""), Vec::<char>::new());
}

#[test]
fn pieces_keep_every_character() {
    assert_eq!(split_at_char("héllo|wörld", '|'), strings(&["héllo", "wörld"]));
    assert_eq!(split_words(" héllo  wörld "), strings(&["héllo", "wörld"]));
    assert_eq!(strip_line_end("héllo\n"), "héllo");
}

#[test]
fn same_text_compares_characters() {
    assert!(same_text("abc", "abc"));
    assert!(same_text("", ""));
    assert!(!same_text("abc", "abd"));
    assert!(!same_text("abc", "ab"));
    assert!(!same_text("", "a"));
}

#[test]
fn line_ending_is_dropped() {
    assert_eq!(strip_line_end("ls\n"), "ls");
    assert_eq!(strip_line_end("ls\r\n"), "ls");
    assert_eq!(strip_line_end("ls"), "ls");
    assert_eq!(strip_line_end("ls\n\n"), "ls");
    assert_eq!(strip_line_end("ls\r\n\r\n"), "ls");
    assert_eq!(strip_line_end("ls\r\n\n"), "ls\r");
    assert_eq!(strip_line_end("ls\n\r\n"), "ls");
    assert_eq!(strip_line_end("\n"), "");
    assert_eq!(strip_line_end(""), "");
    assert_eq!(strip_line_end("a\nb\n"), "a\nb");
    assert_eq!(strip_line_end("ls\r"), "ls\r");
}

#[test]
fn decimal_rendering() {
    for (n, text) in [(0usize, "0"), (7, "7"), (10, "10"), (99, "99"), (100, "100"), (12345, "12345")] {
        let mut out = String::from("x");
        push_decimal(&mut out, n);
        assert_eq!(out, format!("x{}", text));
    }
    let mut out = String::new();
    push_decimal(&mut out, usize::MAX);
    assert_eq!(out, usize::MAX.to_string());
}

#[test]
fn padded_rendering() {
    for n in [0usize, 1, 9, 10, 99999, 100000, 1234567] {
        let mut out = String::from(">");
        push_padded(&mut out, n, 5);
        assert_eq!(out, format!(">{:5}", n));
    }
    let mut out = String::new();
    push_padded(&mut out, 42, 0);
    assert_eq!(out, "42");
}

#[test]
fn integers_are_read_as_std_reads_them() {
    for text in [
        "0", "1", "-1", "+1", "42", "007", "-0", "+0", "2147483647", "2147483648", "-2147483648",
        "-2147483649", "99999999999999999999", "", "+", "-", "--1", "+-1", "1 ", " 1", "1a", "a1",
        "1.0", "0x10", "１２", "1_000",
    ] {
        assert_eq!(parse_i32(text), text.parse::<i32>().ok(), "{:?}", text);
    }
    assert_eq!(parse_i32("123"), Some(123));
    assert_eq!(parse_i32("-2147483648"), Some(i32::MIN));
    assert_eq!(parse_i32("2147483648"), None);
    assert_eq!(parse_i32("abc"), None);
}

#[test]
fn rendered_numbers_read_back() {
    for n in [0usize, 1, 9, 10, 11, 100, 65535, 2147483647] {
        let mut text = String::new();
        push_decimal(&mut text, n);
        assert_eq!(parse_i32(&text), Some(n as i32));
    }
    let mut text = String::new();
    push_decimal(&mut text, 2147483648);
    assert_eq!(parse_i32(&text), None);
}
