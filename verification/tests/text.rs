use wks::text::{split_address, str_eq};

#[test]
fn splits_at_the_first_at_sign() {
    assert_eq!(
        split_address("alice@example.com"),
        Some(("alice".to_string(), "example.com".to_string()))
    );
    assert_eq!(split_address("a@b@c"), Some(("a".to_string(), "b@c".to_string())));
}

#[test]
fn splits_with_empty_parts() {
    assert_eq!(split_address("@"), Some((String::new(), String::new())));
    assert_eq!(split_address("@example.com"), Some((String::new(), "example.com".to_string())));
    assert_eq!(split_address("alice@"), Some(("alice".to_string(), String::new())));
}

#[test]
fn splits_text_beyond_ascii() {
    assert_eq!(
        split_address("j\u{fc}rgen@m\u{fc}nchen.example"),
        Some(("j\u{fc}rgen".to_string(), "m\u{fc}nchen.example".to_string()))
    );
}

#[test]
fn does_not_split_without_an_at_sign() {
    assert_eq!(split_address("alice"), None);
    assert_eq!(split_address(""), None);
}

#[test]
fn compares_strings_by_their_characters() {
    assert!(str_eq("", ""));
    assert!(str_eq("alice", "alice"));
    assert!(!str_eq("alice", "alicf"));
    assert!(!str_eq("alice", "alic"));
    assert!(!str_eq("Alice", "alice"));
    assert!(str_eq("m\u{fc}nchen", "m\u{fc}nchen"));
}
