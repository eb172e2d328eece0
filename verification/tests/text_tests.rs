use tbe_parser::text::{second_token_str, split_commas_str, str_eq, trim_str};

#[test]
fn trim_removes_surrounding_whitespace() {
    assert_eq!(trim_str("  hello \t "), "hello");
    assert_eq!(trim_str("hello"), "hello");
    assert_eq!(trim_str("   "), "");
    assert_eq!(trim_str(""), "");
    assert_eq!(trim_str("\u{00A0}a b\u{3000}"), "a b");
}

#[test]
fn split_keeps_empty_fields() {
    assert_eq!(split_commas_str("a,b"), vec!["a".to_string(), "b".to_string()]);
    assert_eq!(split_commas_str(""), vec!["".to_string()]);
    assert_eq!(
        split_commas_str("a,,b,"),
        vec!["a".to_string(), "".to_string(), "b".to_string(), "".to_string()]
    );
    assert_eq!(split_commas_str("one"), vec!["one".to_string()]);
}

#[test]
fn second_token_picks_the_second_word() {
    assert_eq!(second_token_str("TBL Sites"), "Sites");
    assert_eq!(second_token_str("  TBL   Sites  extra"), "Sites");
    assert_eq!(second_token_str("TBL"), "");
    assert_eq!(second_token_str(""), "");
    assert_eq!(second_token_str("   "), "");
}

#[test]
fn str_eq_compares_by_characters() {
    assert!(str_eq("abc", "abc"));
    assert!(!str_eq("abc", "abd"));
    assert!(!str_eq("abc", "ab"));
    assert!(str_eq("", ""));
}
