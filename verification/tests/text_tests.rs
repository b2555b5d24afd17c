use memo_repo::text::str_contains;

#[test]
fn finds_substring_at_each_position() {
    assert!(str_contains("hello world", "hello"));
    assert!(str_contains("hello world", "world"));
    assert!(str_contains("hello world", "o w"));
    assert!(str_contains("hello world", "hello world"));
}

#[test]
fn rejects_absent_substring() {
    assert!(!str_contains("hello world", "worlds"));
    assert!(!str_contains("hello", "hello world"));
    assert!(!str_contains("abc", "ac"));
    assert!(!str_contains("", "a"));
}

#[test]
fn empty_needle_is_everywhere() {
    assert!(str_contains("", ""));
    assert!(str_contains("abc", ""));
}

#[test]
fn needs_contiguous_match() {
    assert!(str_contains("aab", "ab"));
    assert!(!str_contains("a b", "ab"));
}
