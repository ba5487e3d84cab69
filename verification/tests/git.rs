use commander::git::{root_from_output, GitStatus, Status};

fn load(text: &str) -> GitStatus {
    GitStatus::load(Some("/repo".to_string()), Some(text.to_string()))
}

#[test]
fn porcelain_states() {
    let gs = load(" M src/a.rs\n?? new.txt\nA  staged.rs\nMM both.rs\n");
    assert_eq!(gs.file_status("/repo/src/a.rs"), Some(Status::Modified));
    assert_eq!(gs.file_status("/repo/new.txt"), Some(Status::Untracked));
    assert_eq!(gs.file_status("/repo/staged.rs"), Some(Status::Staged));
    assert_eq!(gs.file_status("/repo/both.rs"), Some(Status::Staged));
    assert_eq!(gs.file_status("/repo/missing.rs"), None);
}

#[test]
fn renames_key_on_new_name_and_quotes_are_dropped() {
    let gs = load("R  old.rs -> new/name.rs\n?? \"with space.txt\"\r\n");
    assert_eq!(gs.file_status("/repo/new/name.rs"), Some(Status::Staged));
    assert_eq!(gs.file_status("/repo/old.rs"), None);
    assert_eq!(gs.file_status("/repo/with space.txt"), Some(Status::Untracked));
}

#[test]
fn ancestors_up_to_root_are_dirty() {
    let gs = load(" M a/b/c.txt");
    assert!(gs.dir_has_changes("/repo/a/b"));
    assert!(gs.dir_has_changes("/repo/a"));
    assert!(gs.dir_has_changes("/repo"));
    assert!(!gs.dir_has_changes("/"));
    assert!(!gs.dir_has_changes("/repo/a/b/c.txt"));
    // component-wise comparison: a trailing separator names the same directory
    assert!(gs.dir_has_changes("/repo/a/"));
}

#[test]
fn short_lines_are_skipped_and_later_lines_win() {
    let gs = load("?\n M x\n\n?? x\n");
    assert_eq!(gs.file_status("/repo/x"), Some(Status::Untracked));
}

#[test]
fn no_repository_or_no_output() {
    let gs = GitStatus::load(None, Some(" M a".to_string()));
    assert_eq!(gs.file_status("/repo/a"), None);
    let gs = GitStatus::load(Some("/repo".to_string()), None);
    assert!(!gs.dir_has_changes("/repo"));
    let gs = GitStatus::empty();
    assert!(!gs.dir_has_changes("/"));
}

#[test]
fn root_from_rev_parse_output() {
    assert_eq!(root_from_output(true, "/home/me/repo\n"), Some("/home/me/repo".to_string()));
    assert_eq!(root_from_output(true, "  \n"), None);
    assert_eq!(root_from_output(false, "/home/me/repo\n"), None);
}

#[test]
fn files_are_found_by_component_equality() {
    let gs = load(" M src/a.rs\n M src//b.rs\n");
    assert_eq!(gs.file_status("/repo/src//a.rs"), Some(Status::Modified));
    assert_eq!(gs.file_status("/repo/src/b.rs"), Some(Status::Modified));
    assert_eq!(gs.file_status("/repo/src"), None);
    assert!(gs.dir_has_changes("/repo/src/"));
    assert!(!gs.dir_has_changes("/repo/src/a.rs"));
}

#[test]
fn raw_output_is_read_as_lossy_text() {
    let gs = GitStatus::load_output(Some("/repo".to_string()), Some(b" M a.rs\n?? \xFF\n".to_vec()))
        .expect("readable output");
    assert_eq!(gs.file_status("/repo/a.rs"), Some(Status::Modified));
    assert_eq!(gs.file_status("/repo/\u{FFFD}"), Some(Status::Untracked));
}

#[test]
fn raw_output_with_a_split_character_is_refused() {
    let out = " M\u{e9}x\n".as_bytes().to_vec();
    assert!(GitStatus::load_output(Some("/repo".to_string()), Some(out)).is_none());
}

#[test]
fn raw_output_without_root_or_output_is_empty() {
    let gs = GitStatus::load_output(None, Some(b" M a.rs\n".to_vec())).expect("empty status");
    assert_eq!(gs.file_status("/a.rs"), None);
    let gs = GitStatus::load_output(Some("/repo".to_string()), None).expect("empty status");
    assert!(!gs.dir_has_changes("/repo"));
}
