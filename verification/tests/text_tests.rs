use duallink::text::{
    decimal_string, find_chars, parse_digits, parse_u32, push_padded_decimal, split_lines,
    trim_chars,
};

fn cs(s: &str) -> Vec<char> {
    s.chars().collect()
}

#[test]
fn trimming() {
    assert_eq!(trim_chars(&cs("  ab c \t\n")), cs("ab c"));
    assert_eq!(trim_chars(&cs(" \u{2003} ")), cs(""));
    assert_eq!(trim_chars(&cs("x")), cs("x"));
}

#[test]
fn searching() {
    assert_eq!(find_chars(&cs("abcabc"), &cs("ca"), 0), Some(2));
    assert_eq!(find_chars(&cs("abcabc"), &cs("bc"), 2), Some(4));
    assert_eq!(find_chars(&cs("abc"), &cs("x"), 0), None);
    assert_eq!(find_chars(&cs("ab"), &cs("abc"), 0), None);
}

#[test]
fn line_splitting_matches_str_lines() {
    for text in ["", "\n", "a", "a\n", "a\r\nb", "a\r\n\r\nb\r", "\r\n\nx\n\ny\r\n", "a\rb\n"] {
        let mine: Vec<Vec<char>> = split_lines(&cs(text));
        let std: Vec<Vec<char>> = text.lines().map(cs).collect();
        assert_eq!(mine, std, "text {:?}", text);
    }
}

#[test]
fn decimal_reading_and_writing() {
    assert_eq!(decimal_string(0), "0");
    assert_eq!(decimal_string(1234567890), "1234567890");
    assert_eq!(decimal_string(u64::MAX), "18446744073709551615");
    let mut s = String::from("x");
    push_padded_decimal(&mut s, 7, 4);
    assert_eq!(s, "x0007");
    let mut t = String::new();
    push_padded_decimal(&mut t, 12345, 2);
    assert_eq!(t, "12345");
    assert_eq!(parse_digits(&cs("18446744073709551615")), Some(u64::MAX));
    assert_eq!(parse_digits(&cs("18446744073709551616")), None);
    assert_eq!(parse_digits(&cs("")), None);
    assert_eq!(parse_digits(&cs("007")), Some(7));
    assert_eq!(parse_u32(&cs("+0")), Some(0));
    assert_eq!(parse_u32(&cs(" 1")), None);
}
