use chatmail_control::text::{ascii_lowercase, contains_str, lines_str, starts_with_str, trim_str};

#[test]
fn trims_unicode_whitespace() {
    assert_eq!(trim_str("\u{3000} a b \n\t"), "a b");
    assert_eq!(trim_str("   "), "");
    assert_eq!(trim_str("x"), "x");
}

#[test]
fn splits_lines_like_std() {
    for s in ["", "a", "a\n", "a\r\nb", "foo\nbar\n\r\nbaz\r", "\n\n", "x\r"] {
        let want: Vec<String> = s.lines().map(|l| l.to_string()).collect();
        assert_eq!(lines_str(s), want, "input {s:?}");
    }
}

#[test]
fn searches_and_lowercases() {
    assert!(contains_str("Mail queue is empty", "queue"));
    assert!(!contains_str("abc", "abd"));
    assert!(contains_str("abc", ""));
    assert!(starts_with_str("v=spf1 -all", "v=spf1"));
    assert!(!starts_with_str("v=", "v=spf1"));
    assert_eq!(ascii_lowercase("ÄbC"), "Äbc");
}
