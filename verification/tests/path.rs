use trash_targets::path::join;

#[test]
fn join_puts_one_separator_between() {
    assert_eq!(join("proj", "target"), "proj/target");
    assert_eq!(join("/home/me/proj", "target"), "/home/me/proj/target");
    assert_eq!(join("a/b", "c"), "a/b/c");
}

#[test]
fn join_adds_no_separator_after_one() {
    assert_eq!(join("/", "target"), "/target");
    assert_eq!(join("proj/", "target"), "proj/target");
}

#[test]
fn join_adds_no_separator_to_the_empty_path() {
    assert_eq!(join("", "target"), "target");
}

#[test]
fn join_counts_characters_not_bytes() {
    assert_eq!(join("caf\u{e9}", "target"), "caf\u{e9}/target");
    assert_eq!(join("\u{65e5}\u{672c}", "\u{8a9e}"), "\u{65e5}\u{672c}/\u{8a9e}");
}

#[test]
fn join_with_an_empty_name_ends_in_the_separator() {
    assert_eq!(join("a", ""), "a/");
}
