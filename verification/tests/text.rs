use task_bot::text::{
    chars_of, contains_str, i64_to_string, replace_str, split_chars, string_of, tail_chars,
    trim_str, u64_to_string,
};

fn chars(s: &str) -> Vec<char> {
    s.chars().collect()
}

#[test]
fn replace_str_replaces_every_occurrence() {
    assert_eq!(replace_str("a//b//c", "//", "/"), "a/b/c");
    assert_eq!(replace_str("my folder", " ", "%C2%A0"), "my%C2%A0folder");
    assert_eq!(replace_str("aaa", "aa", "b"), "ba");
    assert_eq!(replace_str("nothing here", "xyz", "q"), "nothing here");
}

#[test]
fn contains_str_finds_substrings() {
    assert!(contains_str("hello world", "lo w"));
    assert!(contains_str("abc", ""));
    assert!(!contains_str("abc", "abcd"));
    assert!(!contains_str("", "a"));
}

#[test]
fn trim_str_drops_outer_white_space() {
    assert_eq!(trim_str("  folder/ \n\t"), "folder/");
    assert_eq!(trim_str("   "), "");
    assert_eq!(trim_str("x"), "x");
}

#[test]
fn split_chars_keeps_empty_pieces() {
    let parts = split_chars(&chars("db:::folder:::"), &chars(":::"));
    let parts: Vec<String> = parts.iter().map(|p| p.iter().collect()).collect();
    assert_eq!(parts, vec!["db".to_string(), "folder".to_string(), String::new()]);
    let one = split_chars(&chars("plain"), &chars(":::"));
    assert_eq!(one.len(), 1);
}

#[test]
fn tail_chars_takes_the_last_characters() {
    let t: String = tail_chars(&chars("abcdef"), 2).iter().collect();
    assert_eq!(t, "ef");
    let all: String = tail_chars(&chars("ab"), 5).iter().collect();
    assert_eq!(all, "ab");
}

#[test]
fn numbers_print_in_decimal() {
    assert_eq!(u64_to_string(0), "0");
    assert_eq!(u64_to_string(1234567890123), "1234567890123");
    assert_eq!(u64_to_string(u64::MAX), u64::MAX.to_string());
    assert_eq!(i64_to_string(-42), "-42");
    assert_eq!(i64_to_string(i64::MIN), i64::MIN.to_string());
    assert_eq!(i64_to_string(7), "7");
}

#[test]
fn strings_round_trip_through_chars() {
    let s = "žluťoučký кот";
    assert_eq!(string_of(&chars_of(s)), s);
}
