use weave_test::protocol::{char_is_whitespace, classify_line, strip_prefix, trim, Marker};

#[test]
fn print_line_is_classified_with_trimmed_text() {
    assert_eq!(
        classify_line("WEAVE-TEST:PRINT:  hello world \t"),
        Marker::Print("hello world".to_string())
    );
}

#[test]
fn fail_line_is_classified_with_trimmed_message() {
    assert_eq!(
        classify_line("WEAVE-TEST:FAIL: broken "),
        Marker::Fail("broken".to_string())
    );
}

#[test]
fn pass_line_is_classified_with_trimmed_message() {
    assert_eq!(classify_line("WEAVE-TEST:PASS:ok"), Marker::Pass("ok".to_string()));
}

#[test]
fn pass_line_with_empty_payload() {
    assert_eq!(classify_line("WEAVE-TEST:PASS:"), Marker::Pass(String::new()));
    assert_eq!(classify_line("WEAVE-TEST:PASS:   "), Marker::Pass(String::new()));
}

#[test]
fn unmarked_lines_are_ignored() {
    assert_eq!(classify_line("hello"), Marker::Other);
    assert_eq!(classify_line(""), Marker::Other);
    assert_eq!(classify_line("WEAVE-TEST:"), Marker::Other);
    assert_eq!(classify_line("WEAVE-TEST:PASS"), Marker::Other);
}

#[test]
fn prefixes_are_case_sensitive() {
    assert_eq!(classify_line("weave-test:pass:ok"), Marker::Other);
    assert_eq!(classify_line("WEAVE-TEST:Pass:ok"), Marker::Other);
}

#[test]
fn prefix_must_start_the_line() {
    assert_eq!(classify_line(" WEAVE-TEST:PASS:ok"), Marker::Other);
    assert_eq!(classify_line("xWEAVE-TEST:FAIL:no"), Marker::Other);
}

#[test]
fn payload_keeps_inner_whitespace_and_non_ascii() {
    assert_eq!(
        classify_line("WEAVE-TEST:PASS:\u{3000}gr\u{fc}n  ok\u{a0}"),
        Marker::Pass("gr\u{fc}n  ok".to_string())
    );
}

#[test]
fn trim_removes_surrounding_whitespace_only() {
    assert_eq!(trim("  a b  "), "a b");
    assert_eq!(trim("\t\n x \r\n"), "x");
    assert_eq!(trim(""), "");
    assert_eq!(trim("   "), "");
    assert_eq!(trim("abc"), "abc");
}

#[test]
fn trim_agrees_with_std_on_samples() {
    for s in [" a ", "\u{2003}wide\u{2009}", "\u{85}next\u{1680}", "\u{200b}zero", "x\u{feff}"] {
        assert_eq!(trim(s), s.trim());
    }
}

#[test]
fn whitespace_agrees_with_std_on_every_char() {
    let mut n: u32 = 0;
    while n <= 0x10ffff {
        if let Some(c) = char::from_u32(n) {
            assert_eq!(char_is_whitespace(c), c.is_whitespace());
        }
        n += 1;
    }
}

#[test]
fn strip_prefix_gives_the_rest() {
    assert_eq!(strip_prefix("abcdef", "abc"), Some("def"));
    assert_eq!(strip_prefix("abc", "abc"), Some(""));
    assert_eq!(strip_prefix("abc", ""), Some("abc"));
    assert_eq!(strip_prefix("ab", "abc"), None);
    assert_eq!(strip_prefix("abd", "abc"), None);
    assert_eq!(strip_prefix("\u{e9}t\u{e9}", "\u{e9}"), Some("t\u{e9}"));
}
