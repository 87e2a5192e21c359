use trash_targets::filter::{
    artifact_dir, classify, enters, hidden, manifest_file, EntryClass, EntryKind,
};

fn class(name: &str, kind: EntryKind) -> EntryClass {
    classify(name, kind)
}

#[test]
fn marker_names() {
    assert_eq!(artifact_dir(), "target");
    assert_eq!(manifest_file(), "Cargo.toml");
}

#[test]
fn hidden_names_start_with_a_dot() {
    assert!(hidden(".git"));
    assert!(hidden("."));
    assert!(hidden(".target"));
    assert!(!hidden("target"));
    assert!(!hidden("a.b"));
    assert!(!hidden(""));
}

#[test]
fn hidden_wins_over_everything() {
    assert_eq!(class(".hidden", EntryKind::File), EntryClass::SkipHidden);
    assert_eq!(class(".hidden", EntryKind::Directory), EntryClass::SkipHidden);
    assert_eq!(class(".hidden", EntryKind::Symlink), EntryClass::SkipHidden);
    assert_eq!(class(".hidden", EntryKind::Other), EntryClass::SkipHidden);
    assert_eq!(class(".Cargo.toml", EntryKind::File), EntryClass::SkipHidden);
}

#[test]
fn symlinks_are_skipped_whatever_their_name() {
    assert_eq!(class("target", EntryKind::Symlink), EntryClass::SkipSymlink);
    assert_eq!(class("Cargo.toml", EntryKind::Symlink), EntryClass::SkipSymlink);
    assert_eq!(class("src", EntryKind::Symlink), EntryClass::SkipSymlink);
}

#[test]
fn markers_need_the_right_name_and_the_right_kind() {
    assert_eq!(class("target", EntryKind::Directory), EntryClass::MarkerCandidateDir);
    assert_eq!(class("Cargo.toml", EntryKind::File), EntryClass::MarkerCandidateFile);
    assert_eq!(class("target", EntryKind::File), EntryClass::Plain);
    assert_eq!(class("target", EntryKind::Other), EntryClass::Plain);
    assert_eq!(class("Cargo.toml", EntryKind::Directory), EntryClass::Plain);
    assert_eq!(class("Target", EntryKind::Directory), EntryClass::Plain);
    assert_eq!(class("cargo.toml", EntryKind::File), EntryClass::Plain);
    assert_eq!(class("targets", EntryKind::Directory), EntryClass::Plain);
    assert_eq!(class("", EntryKind::Directory), EntryClass::Plain);
}

#[test]
fn everything_else_is_plain() {
    assert_eq!(class("src", EntryKind::Directory), EntryClass::Plain);
    assert_eq!(class("main.rs", EntryKind::File), EntryClass::Plain);
    assert_eq!(class("socket", EntryKind::Other), EntryClass::Plain);
}

#[test]
fn only_visible_directories_are_entered() {
    assert!(enters("src", EntryKind::Directory));
    assert!(enters("target", EntryKind::Directory));
    assert!(!enters(".git", EntryKind::Directory));
    assert!(!enters("src", EntryKind::Symlink));
    assert!(!enters("src", EntryKind::File));
    assert!(!enters("src", EntryKind::Other));
}
