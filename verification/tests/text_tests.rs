use limen::text::{chars_of, lower_chars, parse_u32_chars, push_decimal, trimmed};

#[test]
fn trimmed_matches_str_trim() {
    for s in ["", "   ", " a ", "\t\nOption+Space\u{3000}", "a b", "\u{a0}x\u{2028}", "x"] {
        assert_eq!(trimmed(s), s.trim());
    }
}

#[test]
fn lowercase_is_ascii_only() {
    let v = lower_chars(&chars_of("ABC-xyz-ÄÖ"));
    assert_eq!(v.iter().collect::<String>(), "abc-xyz-ÄÖ");
}

#[test]
fn decimal_formatting() {
    for n in [0u64, 7, 10, 1970, 4294967295, u64::MAX] {
        let mut s = String::from("#");
        push_decimal(&mut s, n);
        assert_eq!(s, format!("#{n}"));
    }
}

#[test]
fn parse_u32_matches_std() {
    for s in ["0", "9", "+5", "42", "007", "4294967295", "4294967296", "", "+", "-1", "1a", " 1", "99999999999"] {
        assert_eq!(parse_u32_chars(&chars_of(s)), s.parse::<u32>().ok(), "{s:?}");
    }
}
