use email_server::text::{
    chars_eq_ignore_ascii_case, find_char, is_whitespace, parse_u32_chars, push_decimal,
    split_chars, string_from_chars, to_chars, trim_str,
};

#[test]
fn whitespace_matches_std_for_every_char() {
    for u in 0u32..0x11_0000 {
        if let Some(c) = char::from_u32(u) {
            assert_eq!(is_whitespace(c), c.is_whitespace(), "U+{:04X}", u);
        }
    }
}

#[test]
fn trim_matches_std() {
    let samples = [
        "",
        "   ",
        "  abc  ",
        "\t\r\nx y\r\n",
        "\u{3000}全角\u{3000}",
        "\u{85}a\u{a0}",
        "no-space",
        " +OK ready\r\n",
    ];
    for s in samples {
        assert_eq!(trim_str(s), s.trim(), "{:?}", s);
    }
}

#[test]
fn parse_u32_matches_std() {
    let samples = [
        "", "0", "7", "+7", "+", "-1", "42", "0042", "4294967295", "4294967296",
        "99999999999999999999", "12a", " 1", "١", "+-1",
    ];
    for s in samples {
        let v = to_chars(s);
        assert_eq!(parse_u32_chars(&v, 0, v.len()), s.parse::<u32>().ok(), "{:?}", s);
    }
}

#[test]
fn decimal_matches_to_string() {
    for n in [0u64, 1, 9, 10, 99, 100, 12345, u32::MAX as u64, u64::MAX] {
        let mut s = String::from("x");
        push_decimal(&mut s, n);
        assert_eq!(s, format!("x{}", n));
    }
}

#[test]
fn split_matches_std() {
    for s in ["", ",", "a", "a,b", ",a,,b,", "key1,key2"] {
        let v = to_chars(s);
        let pieces: Vec<String> = split_chars(&v, ',').iter().map(|p| p.iter().collect()).collect();
        let expected: Vec<String> = s.split(',').map(|p| p.to_string()).collect();
        assert_eq!(pieces, expected, "{:?}", s);
    }
}

#[test]
fn ascii_case_comparison_matches_std() {
    let pairs = [
        ("Subject", "subject"),
        ("SUBJECT", "subject"),
        ("Subjecт", "subject"),
        ("From", "from "),
        ("ÄB", "äb"),
        ("", ""),
    ];
    for (a, b) in pairs {
        assert_eq!(
            chars_eq_ignore_ascii_case(&to_chars(a), &to_chars(b)),
            a.eq_ignore_ascii_case(b),
            "{:?} {:?}",
            a,
            b
        );
    }
}

#[test]
fn find_char_and_substring() {
    let v = to_chars("1 abc def");
    assert_eq!(find_char(&v, ' ', 0), Some(1));
    assert_eq!(find_char(&v, ' ', 2), Some(5));
    assert_eq!(find_char(&v, '#', 0), None);
    assert_eq!(string_from_chars(&v, 2, 5), "abc");
}
