use task_bot::text::{parse_i64, parse_u32, parse_u64, split_str};

#[test]
fn parse_signed_numbers_like_std() {
    for s in ["0", "-0", "+7", "-42", "9223372036854775807", "-9223372036854775808", "007"] {
        assert_eq!(parse_i64(s), s.parse::<i64>().ok(), "{}", s);
    }
    for s in ["", "+", "-", "9223372036854775808", "-9223372036854775809", " 1", "1 ", "1a", "--1", "+-1"] {
        assert_eq!(parse_i64(s), None, "{}", s);
    }
}

#[test]
fn parse_unsigned_numbers_like_std() {
    for s in ["0", "+5", "4294967295", "18446744073709551615"] {
        assert_eq!(parse_u64(s), s.parse::<u64>().ok(), "{}", s);
    }
    assert_eq!(parse_u64("-0"), None);
    assert_eq!(parse_u64("18446744073709551616"), None);
    assert_eq!(parse_u32("4294967295"), Some(u32::MAX));
    assert_eq!(parse_u32("4294967296"), None);
    assert_eq!(parse_u32("12x"), None);
}

#[test]
fn split_str_like_std() {
    assert_eq!(split_str("a:::b:::", ":::"), vec!["a".to_string(), "b".to_string(), String::new()]);
    assert_eq!(split_str("", ","), vec![String::new()]);
}
