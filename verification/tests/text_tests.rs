use tavern::text::{contains_text, find_char, lines_of, parse_u64, remove_spaces, u64_to_decimal};

#[test]
fn parse_u64_accepts_what_std_accepts() {
    assert_eq!(parse_u64("0"), Some(0));
    assert_eq!(parse_u64("123"), Some(123));
    assert_eq!(parse_u64("+123"), Some(123));
    assert_eq!(parse_u64("007"), Some(7));
    assert_eq!(parse_u64("18446744073709551615"), Some(u64::MAX));
}

#[test]
fn parse_u64_rejects_what_std_rejects() {
    assert_eq!(parse_u64(""), None);
    assert_eq!(parse_u64("+"), None);
    assert_eq!(parse_u64("-1"), None);
    assert_eq!(parse_u64("++1"), None);
    assert_eq!(parse_u64("12a"), None);
    assert_eq!(parse_u64(" 1"), None);
    assert_eq!(parse_u64("18446744073709551616"), None);
    assert_eq!(parse_u64("99999999999999999999999x"), None);
}

#[test]
fn parse_u64_agrees_with_std() {
    for s in ["1", "+0", "", "x", "4294967296", "-0", "１", "000000000000000000000001"] {
        assert_eq!(parse_u64(s), s.parse::<u64>().ok(), "input {:?}", s);
    }
}

#[test]
fn decimal_text() {
    assert_eq!(u64_to_decimal(0), "0");
    assert_eq!(u64_to_decimal(9), "9");
    assert_eq!(u64_to_decimal(10), "10");
    assert_eq!(u64_to_decimal(1234567890), "1234567890");
    assert_eq!(u64_to_decimal(u64::MAX), u64::MAX.to_string());
}

#[test]
fn decimal_reads_back() {
    for n in [0u64, 1, 42, 1000, u64::MAX] {
        assert_eq!(parse_u64(&u64_to_decimal(n)), Some(n));
    }
}

#[test]
fn lines_like_std() {
    for s in ["", "a", "a\n", "\n", "a\r\nb\n\nc\r", "x\ny", "\r\n", "a\n\n"] {
        let mine: Vec<&str> = lines_of(s);
        let std_lines: Vec<&str> = s.lines().collect();
        assert_eq!(mine, std_lines, "input {:?}", s);
    }
}

#[test]
fn lines_of_terminated_rows() {
    assert_eq!(lines_of("one\ntwo\nthree\n"), vec!["one", "two", "three"]);
}

#[test]
fn substring_search() {
    assert!(contains_text("hello world", "lo w"));
    assert!(contains_text("abc", ""));
    assert!(contains_text("abc", "abc"));
    assert!(!contains_text("abc", "abcd"));
    assert!(!contains_text("abc", "ac"));
    assert!(!contains_text("", "a"));
}

#[test]
fn spaces_removed() {
    assert_eq!(remove_spaces(" a b  c "), "abc");
    assert_eq!(remove_spaces(""), "");
    assert_eq!(remove_spaces("żółw ok"), "żółwok");
}

#[test]
fn find_first_char() {
    assert_eq!(find_char("a;b;c", ';'), Some(1));
    assert_eq!(find_char("ąę;x", ';'), Some(2));
    assert_eq!(find_char("abc", ';'), None);
}
