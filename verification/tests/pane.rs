use commander::pane::{AppState, DirItem, Pane, Side};

const ROOT: &str = "/tmp/commander-test";

fn item(name: &str, is_dir: bool, len: u64) -> DirItem {
    DirItem { name: name.to_string(), path: format!("{ROOT}/{name}"), is_dir, len }
}

/// A small tree: a directory "sub" and files "b.txt" and
/// "a.txt", in the order a directory read might give them.
fn tmp_tree() -> Vec<DirItem> {
    vec![item("b.txt", false, 2), item("sub", true, 4096), item("a.txt", false, 2)]
}

fn names(p: &Pane) -> Vec<String> {
    p.entries.iter().map(|e| e.name.clone()).collect()
}

#[test]
fn dirs_sort_before_files() {
    let pane = Pane::open(ROOT.to_string(), tmp_tree());
    // index 0 is "..", 1 is the "sub" dir, then files alphabetically.
    assert_eq!(names(&pane), vec!["..", "sub", "a.txt", "b.txt"]);
}

#[test]
fn cursor_clamps() {
    let mut pane = Pane::open(ROOT.to_string(), tmp_tree());
    pane.move_cursor(-10);
    assert_eq!(pane.cursor, 0);
    pane.move_cursor(100);
    assert_eq!(pane.cursor, pane.entries.len() - 1);
}

#[test]
fn marking_and_effective_selection() {
    let mut pane = Pane::open(ROOT.to_string(), tmp_tree());
    // Move off ".." onto "sub", mark it.
    pane.move_cursor(1);
    pane.toggle_mark();
    assert_eq!(pane.effective_selection().len(), 1);
    pane.toggle_mark();
    // No marks -> cursor path used instead.
    assert_eq!(pane.effective_selection().len(), 1);
}

#[test]
fn cannot_mark_dotdot() {
    let mut pane = Pane::open(ROOT.to_string(), tmp_tree());
    pane.toggle_mark(); // cursor on ".."
    assert!(pane.marked.is_empty());
}

#[test]
fn dotdot_row_and_sizes() {
    let pane = Pane::open(ROOT.to_string(), tmp_tree());
    assert_eq!(pane.entries[0].path, format!("{ROOT}/.."));
    assert!(pane.entries[0].is_dir);
    assert_eq!(pane.entries[1].size, 0); // a directory shows no size
    assert_eq!(pane.entries[2].size, 2);
}

#[test]
fn root_has_no_dotdot_row() {
    let pane = Pane::open("/".to_string(), vec![item("etc", true, 0), item("a", false, 1)]);
    assert_eq!(names(&pane), vec!["etc", "a"]);
}

#[test]
fn sort_ignores_case_and_is_stable() {
    let items = vec![
        item("b", false, 1),
        item("A", false, 1),
        item("a", false, 1),
        item("Zed", true, 0),
        item("alpha", true, 0),
    ];
    let pane = Pane::open(ROOT.to_string(), items);
    // "A" and "a" rank the same and keep their listed order.
    assert_eq!(names(&pane), vec!["..", "alpha", "Zed", "A", "a", "b"]);
}

#[test]
fn empty_directory() {
    let mut pane = Pane::open("/".to_string(), Vec::new());
    assert!(pane.entries.is_empty());
    assert_eq!(pane.cursor, 0);
    pane.move_cursor(3);
    assert_eq!(pane.cursor, 0);
    pane.cursor_bottom();
    assert_eq!(pane.cursor, 0);
    assert!(pane.current().is_none());
    assert!(pane.effective_selection().is_empty());
}

#[test]
fn marks_are_ordered_and_selected() {
    let mut pane = Pane::open(ROOT.to_string(), tmp_tree());
    pane.cursor_bottom(); // b.txt
    pane.toggle_mark();
    pane.move_cursor(-1); // a.txt
    pane.toggle_mark();
    assert_eq!(
        pane.effective_selection(),
        vec![format!("{ROOT}/a.txt"), format!("{ROOT}/b.txt")]
    );
    assert!(pane.is_marked(&format!("{ROOT}/b.txt")));
    assert!(!pane.is_marked(&format!("{ROOT}/sub")));
}

#[test]
fn reload_keeps_existing_marks_and_clamps_cursor() {
    let mut pane = Pane::open(ROOT.to_string(), tmp_tree());
    pane.cursor_bottom();
    pane.toggle_mark(); // b.txt
    pane.move_cursor(-1);
    pane.toggle_mark(); // a.txt
    // a.txt is gone; b.txt still exists.
    pane.reload(vec![item("b.txt", false, 2)], vec![false, true]);
    assert_eq!(pane.marked, vec![format!("{ROOT}/b.txt")]);
    assert_eq!(names(&pane), vec!["..", "b.txt"]);
    assert_eq!(pane.cursor, 1);
}

#[test]
fn enter_and_ascend_targets() {
    let mut pane = Pane::open(ROOT.to_string(), tmp_tree());
    assert_eq!(pane.enter(), Some(format!("{ROOT}/..")));
    pane.move_cursor(1);
    assert_eq!(pane.enter(), Some(format!("{ROOT}/sub")));
    pane.move_cursor(1);
    assert_eq!(pane.enter(), None); // a file
    assert_eq!(pane.ascend(), Some("/tmp".to_string()));
    pane.change_dir(format!("{ROOT}/sub"), vec![item("x", false, 1)], Vec::new());
    assert_eq!(pane.cursor, 0);
    assert_eq!(pane.cwd, format!("{ROOT}/sub"));
    assert_eq!(names(&pane), vec!["..", "x"]);
}

#[test]
fn app_state_panes() {
    let mut app = AppState::new(ROOT.to_string(), tmp_tree());
    assert_eq!(app.active, Side::Left);
    assert_eq!(names(&app.left), names(&app.right));
    app.switch_pane();
    assert_eq!(app.active, Side::Right);
    app.active_pane_mut().move_cursor(2);
    assert_eq!(app.right.cursor, 2);
    assert_eq!(app.left.cursor, 0);
    assert_eq!(app.active_pane().cursor, 2);
    app.switch_pane();
    assert_eq!(app.active, Side::Left);
    assert_eq!(Side::Left.other(), Side::Right);
    assert_eq!(Side::Right.other().other(), Side::Right);
}

#[test]
fn reload_with_every_mark_alive_keeps_them_all() {
    let mut pane = Pane::open(ROOT.to_string(), tmp_tree());
    pane.move_cursor(1);
    pane.toggle_mark();
    pane.move_cursor(1);
    pane.toggle_mark();
    let before = pane.marked.clone();
    pane.reload(tmp_tree(), vec![true, true]);
    assert_eq!(pane.marked, before);
}

#[test]
fn toggling_twice_restores_the_marks() {
    let mut pane = Pane::open(ROOT.to_string(), tmp_tree());
    pane.cursor_bottom();
    pane.toggle_mark();
    let before = pane.marked.clone();
    pane.move_cursor(-1);
    pane.toggle_mark();
    assert!(pane.is_marked(&format!("{ROOT}/a.txt")));
    pane.toggle_mark();
    assert_eq!(pane.marked, before);
}

#[test]
fn set_dir_keeps_rows_and_marks() {
    let mut pane = Pane::open(ROOT.to_string(), tmp_tree());
    pane.move_cursor(2);
    pane.toggle_mark();
    pane.set_dir("/nowhere".to_string());
    assert_eq!(pane.cwd, "/nowhere");
    assert_eq!(pane.cursor, 0);
    assert_eq!(pane.entries.len(), 4);
    assert_eq!(pane.marked.len(), 1);
}

#[test]
fn toggling_a_marked_path_twice_restores_the_marks() {
    let mut pane = Pane::open(ROOT.to_string(), tmp_tree());
    pane.cursor_bottom(); // b.txt
    pane.toggle_mark();
    pane.move_cursor(-1); // a.txt
    pane.toggle_mark();
    let before = pane.marked.clone();
    pane.toggle_mark();
    assert!(!pane.is_marked(&format!("{ROOT}/a.txt")));
    assert_eq!(pane.marked, vec![format!("{ROOT}/b.txt")]);
    pane.toggle_mark();
    assert_eq!(pane.marked, before);
}
