use kerf::strings::{
    single_char, string_contains, string_ends_with, string_index_of, string_length, string_starts_with,
    string_substring,
};

#[test]
fn lengths_count_characters() {
    assert_eq!(string_length("héllo"), 5);
    assert_eq!(string_length(""), 0);
}

#[test]
fn substrings_by_character_positions() {
    assert_eq!(string_substring("héllo", 1, 3).unwrap(), "él");
    assert_eq!(string_substring("abc", 3, 3).unwrap(), "");
    assert_eq!(string_substring("abc", 2, 5).unwrap_err(), "string-substring 索引越界：2..5（长度 3）");
    assert_eq!(string_substring("abc", -1, 2).unwrap_err(), "string-substring 索引越界：-1..2（长度 3）");
    assert_eq!(string_substring("abc", 2, 1).unwrap_err(), "string-substring 索引越界：2..1（长度 3）");
}

#[test]
fn index_of_counts_characters() {
    assert_eq!(string_index_of("héllo", "llo"), Some(2));
    assert_eq!(string_index_of("abab", "ab"), Some(0));
    assert_eq!(string_index_of("abab", "ba"), Some(1));
    assert_eq!(string_index_of("abc", ""), Some(0));
    assert_eq!(string_index_of("abc", "abcd"), None);
    assert_eq!(string_index_of("abc", "x"), None);
}

#[test]
fn contains_prefix_suffix() {
    assert!(string_contains("hello", "ell"));
    assert!(!string_contains("hello", "elo"));
    assert!(string_starts_with("hello", "he"));
    assert!(!string_starts_with("he", "hello"));
    assert!(string_ends_with("hello", "llo"));
    assert!(string_ends_with("hello", ""));
    assert!(!string_ends_with("hello", "he"));
}

#[test]
fn single_characters() {
    assert_eq!(single_char("é"), Some('é'));
    assert_eq!(single_char(""), None);
    assert_eq!(single_char("ab"), None);
}
