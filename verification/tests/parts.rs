use minigrep::decimal::push_decimal;
use minigrep::lines::{chars_of, cut_first_line};
use minigrep::matcher::{report, Match};
use minigrep::pattern::{contains_in, fold_str};
use minigrep::slicing::utf8_width;

fn chars(s: &str) -> Vec<char> {
    s.chars().collect()
}

#[test]
fn decimal_of_small_and_large_numbers() {
    for n in [0usize, 1, 9, 10, 11, 99, 100, 101, 1000, 65535, 1234567890, usize::MAX] {
        let mut out = String::new();
        push_decimal(&mut out, n);
        assert_eq!(out, n.to_string());
    }
}

#[test]
fn decimal_is_appended() {
    let mut out = String::from("line ");
    push_decimal(&mut out, 42);
    push_decimal(&mut out, 0);
    assert_eq!(out, "line 420");
}

#[test]
fn report_joins_number_and_text() {
    assert_eq!(report(&Match { line_number: 7, text: "seven" }), "7# seven");
    assert_eq!(report(&Match { line_number: 120, text: "" }), "120# ");
    assert_eq!(report(&Match { line_number: 1, text: "# #" }), "1# # #");
}

#[test]
fn fold_str_lowers_case() {
    assert_eq!(fold_str("ABC def"), "abc def");
    assert_eq!(fold_str(""), "");
    assert_eq!(fold_str("STRASSE ẞ"), "strasse ß");
    assert_eq!(fold_str("İ").chars().count(), 2);
}

#[test]
fn contains_in_looks_only_at_the_part() {
    let hay = chars("abcabd");
    assert!(contains_in(&hay, 0, 6, &chars("abd")));
    assert!(!contains_in(&hay, 0, 5, &chars("abd")));
    assert!(!contains_in(&hay, 4, 6, &chars("abd")));
    assert!(contains_in(&hay, 3, 6, &chars("abd")));
    assert!(contains_in(&hay, 2, 2, &chars("")));
    assert!(contains_in(&hay, 6, 6, &chars("")));
    assert!(!contains_in(&hay, 6, 6, &chars("a")));
    assert!(contains_in(&hay, 0, 6, &chars("abcabd")));
    assert!(!contains_in(&hay, 0, 6, &chars("abcabda")));
}

#[test]
fn chars_of_keeps_every_character() {
    for s in ["", "abc", "naïve 日本 🦀\r\n"] {
        assert_eq!(chars_of(s), chars(s));
    }
}

#[test]
fn utf8_width_is_the_encoded_length() {
    for c in ['\0', 'a', '\u{7f}', '\u{80}', 'é', '\u{7ff}', '\u{800}', '日', '\u{ffff}', '\u{10000}', '🦀', '\u{10ffff}'] {
        assert_eq!(utf8_width(c), c.len_utf8());
    }
}

#[test]
fn cut_first_line_gives_positions_and_bytes() {
    let text = chars("é\r\n日本\nend");
    let cut = cut_first_line(&text, 0);
    assert_eq!((cut.end, cut.next, cut.end_width, cut.next_width), (1, 3, 2, 4));
    let cut = cut_first_line(&text, 3);
    assert_eq!((cut.end, cut.next, cut.end_width, cut.next_width), (5, 6, 6, 7));
    let cut = cut_first_line(&text, 6);
    assert_eq!((cut.end, cut.next, cut.end_width, cut.next_width), (9, 9, 3, 3));
    let cut = cut_first_line(&text, 2);
    assert_eq!((cut.end, cut.next, cut.end_width, cut.next_width), (2, 3, 0, 1));
}
