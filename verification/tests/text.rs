use flashboy::text::{decimal, lines, trim};

#[test]
fn lines_follow_str_lines() {
    for s in ["", "\n", "a", "a\n", "a\r\nb", "a\rb", "a\r", "\n\nx", "x\n\n"] {
        let expected: Vec<String> = s.lines().map(|l| l.to_string()).collect();
        assert_eq!(lines(s), expected, "input {s:?}");
    }
}

#[test]
fn trim_matches_str_trim() {
    for s in ["", "  a b  ", "\t\nx\r\n", "\u{a0}y\u{3000}", "plain"] {
        assert_eq!(trim(s), s.trim());
    }
}

#[test]
fn decimal_digits() {
    assert_eq!(decimal(0), "0");
    assert_eq!(decimal(7), "7");
    assert_eq!(decimal(10), "10");
    assert_eq!(decimal(1234567890), "1234567890");
}

