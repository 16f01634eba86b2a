//! A message's source drawn as text: its bytes as themselves, and what cannot be drawn named.

use mail_app::source::{as_text, hides_or_reorders};

#[test]
fn the_bytes_are_drawn_as_themselves_and_what_cannot_be_is_named() {
    const CASES: &[(&str, &[u8], &str, usize)] = &[
        ("CRLF ends a line", b"A: 1\r\nB: 2\r\n", "A: 1\nB: 2\n", 0),
        ("so does a bare LF", b"A: 1\nB: 2", "A: 1\nB: 2", 0),
        ("a bare CR is seen", b"A\rB\r", "A\u{240D}B\u{240D}", 0),
        ("an escape is seen", b"\x1b[31mred", "\u{241B}[31mred", 0),
        ("a tab stays", b"\tx", "\tx", 0),
        ("a bidi override cannot reorder", "a\u{202E}cba".as_bytes(), "a<U+202E>cba", 0),
        ("markup is text", b"<b>hi</b>", "<b>hi</b>", 0),
        ("UTF-8 is itself", "caf\u{e9}".as_bytes(), "caf\u{e9}", 0),
        ("Latin-1 is not UTF-8", b"caf\xe9!", "caf\u{FFFD}!", 1),
        ("a CR before a bad byte", b"a\r\xff", "a\u{240D}\u{FFFD}", 1),
    ];
    for (name, raw, text, bad) in CASES {
        assert_eq!(as_text(raw, 1024), ((*text).to_owned(), *bad), "{name}");
    }
}

#[test]
fn a_long_message_is_cut_at_a_line_end_within_the_limit() {
    let raw = b"Subject: one\r\nSubject: two\r\nSubject: three\r\n";
    let (text, _) = as_text(raw, 30);
    assert_eq!(text, "Subject: one\nSubject: two\n");
}

#[test]
fn a_cut_with_no_line_end_keeps_the_limit() {
    let (text, bad) = as_text(b"abcdefgh", 3);
    assert_eq!((text.as_str(), bad), ("abc", 0));
}

#[test]
fn a_c1_control_is_named_and_a_zero_width_joiner_too() {
    let (text, _) = as_text("x\u{85}y\u{200D}z".as_bytes(), 64);
    assert_eq!(text, "x<U+0085>y<U+200D>z");
    assert!(hides_or_reorders('\u{202E}'));
    assert!(!hides_or_reorders('a'));
}
