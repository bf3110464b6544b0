use underclass::text::{chars_of, join_text, owned, same_text, starts_with, string_of_chars};

#[test]
fn string_helpers() {
    assert_eq!(chars_of("héllo"), vec!['h', 'é', 'l', 'l', 'o']);
    assert_eq!(string_of_chars(&['a', 'ß', 'c']), "aßc");
    assert_eq!(owned("x"), "x");
    assert_eq!(join_text("ab", "cd"), "abcd");
    assert!(starts_with("underclass/gpt", "underclass/"));
    assert!(!starts_with("under", "underclass/"));
    assert!(starts_with("x", ""));
    assert!(same_text("é", "é"));
    assert!(!same_text("a", "ab"));
}
