use trash_targets::text::{last_char, same};

#[test]
fn same_strings_are_the_same() {
    assert!(same("", ""));
    assert!(same("target", "target"));
    assert!(same("Cargo.toml", "Cargo.toml"));
    assert!(same("caf\u{e9}", "caf\u{e9}"));
}

#[test]
fn different_strings_are_not_the_same() {
    assert!(!same("target", "targes"));
    assert!(!same("target", "Target"));
    assert!(!same("target", "targe"));
    assert!(!same("targe", "target"));
    assert!(!same("", "a"));
    assert!(!same("a", ""));
    assert!(!same("cafe", "caf\u{e9}"));
}

#[test]
fn last_char_of_a_string() {
    assert_eq!(last_char(""), None);
    assert_eq!(last_char("/"), Some('/'));
    assert_eq!(last_char("a/b"), Some('b'));
    assert_eq!(last_char("a/b/"), Some('/'));
    assert_eq!(last_char("caf\u{e9}"), Some('\u{e9}'));
}
