use commander::cockpit::{default_shell, handle_key as cockpit_key, parse_args, status_hint, tree_row_label, Cockpit, Effect, Focus};
use commander::ipc::{is_within, local_state_base, millis_or_zero, now_ms, selection_path, session_dir, wait_step, Selection, Status, WaitStep};
use commander::keys::{KeyCode, KeyEvent, Modifiers};
use commander::pane::{AppState, DirItem, Pane, Side};
use commander::tui::{cancelled, command_for, confirmed, handle_key, outcome_message, pane_title, row_label, row_tone, Command, Flow, Outcome, RowTone};

const ROOT: &str = "/tmp/picker";

fn item(name: &str, is_dir: bool, len: u64) -> DirItem {
    DirItem { name: name.to_string(), path: format!("{ROOT}/{name}"), is_dir, len }
}

fn app() -> AppState {
    AppState::new(ROOT.to_string(), vec![item("b.txt", false, 2), item("sub", true, 0), item("a.txt", false, 2)])
}

fn key(c: KeyCode) -> KeyEvent {
    KeyEvent::new(c, Modifiers::none())
}

#[test]
fn picker_keys() {
    let mut app = app();
    assert!(matches!(handle_key(key(KeyCode::Char('j')), &mut app), Flow::Continue));
    assert_eq!(app.left.cursor, 1);
    assert!(matches!(handle_key(key(KeyCode::Char('l')), &mut app), Flow::Continue));
    assert_eq!(app.active, Side::Right);
    assert!(matches!(handle_key(key(KeyCode::Char('G')), &mut app), Flow::Continue));
    assert_eq!(app.right.cursor, 3);
    assert_eq!(app.left.cursor, 1);
    assert!(matches!(handle_key(key(KeyCode::Char(' ')), &mut app), Flow::Continue));
    assert_eq!(app.right.marked, vec![format!("{ROOT}/b.txt")]);
    assert!(matches!(handle_key(key(KeyCode::Tab), &mut app), Flow::Continue));
    assert_eq!(app.active, Side::Left);
    assert!(matches!(handle_key(key(KeyCode::Enter), &mut app), Flow::Enter));
    assert!(matches!(handle_key(key(KeyCode::Backspace), &mut app), Flow::Ascend));
    assert!(matches!(handle_key(key(KeyCode::Char('q')), &mut app), Flow::Quit));
    assert!(matches!(handle_key(key(KeyCode::Esc), &mut app), Flow::Quit));
    assert!(matches!(handle_key(KeyEvent::new(KeyCode::Char('c'), Modifiers::control()), &mut app), Flow::Quit));
    assert!(matches!(handle_key(key(KeyCode::Char('c')), &mut app), Flow::Continue));
    match handle_key(key(KeyCode::Char('r')), &mut app) {
        Flow::Send(a) => assert_eq!(a, Some("review".to_string())),
        _ => panic!("expected send"),
    }
    match handle_key(key(KeyCode::Char('e')), &mut app) {
        Flow::Send(a) => assert_eq!(a, Some("explain".to_string())),
        _ => panic!("expected send"),
    }
    assert!(matches!(handle_key(key(KeyCode::Char('a')), &mut app), Flow::Send(None)));
    assert_eq!(command_for(key(KeyCode::Char('g'))), Command::Top);
    assert_eq!(command_for(key(KeyCode::Char('x'))), Command::Nothing);
}

#[test]
fn confirm_and_cancel_selections() {
    let mut app = app();
    let sel = confirmed(&app, None, 42);
    assert_eq!(sel.status, Status::Sent);
    assert!(sel.paths.is_empty()); // cursor on ".."
    assert_eq!(sel.cwd, ROOT);
    app.left.move_cursor(2);
    let sel = confirmed(&app, Some("review".to_string()), 43);
    assert_eq!(sel.paths, vec![format!("{ROOT}/a.txt")]);
    assert_eq!(sel.action, Some("review".to_string()));
    assert_eq!(sel.submitted_at_ms, 43);
    let c = cancelled(&app, 44);
    assert_eq!(c.status, Status::Cancelled);
    assert!(c.paths.is_empty());
    assert_eq!(c.action, None);
}

#[test]
fn exit_messages() {
    assert_eq!(outcome_message(&Outcome::Sent { count: 3, action: None }), "Sent 3 item(s) to the agent.");
    assert_eq!(
        outcome_message(&Outcome::Sent { count: 1, action: Some("explain".to_string()) }),
        "Sent 1 item(s) to the agent (action: explain)."
    );
    assert_eq!(outcome_message(&Outcome::Cancelled), "Cancelled. Nothing sent.");
}

#[test]
fn row_labels_and_titles() {
    let pane = Pane::open(ROOT.to_string(), vec![item("a-very-long-file-name-for-the-pane.txt", false, 9), item("sub", true, 0)]);
    assert_eq!(row_label(&pane.entries[0], false, ""), format!(" ↑ {:<24} {:>8}", "..", ""));
    assert_eq!(row_label(&pane.entries[1], true, "ignored"), format!("*▸ {:<24} {:>8}", "sub", ""));
    assert_eq!(
        row_label(&pane.entries[2], false, "9B"),
        format!("   {:<24} {:>8}", "a-very-long-file-name-f…", "9B")
    );
    assert_eq!(pane_title("/tmp/picker", 40), " /tmp/picker ");
    assert_eq!(pane_title("/tmp/picker", 8), " /tm… ");
    assert_eq!(pane_title("/tmp/picker", 3), "  ");
}

#[test]
fn cockpit_keys() {
    let tree = Pane::open(ROOT.to_string(), vec![item("a", false, 1), item("b", false, 1)]);
    let mut c = Cockpit { tree, focus: Focus::Dock };
    match cockpit_key(key(KeyCode::Char('x')), &mut c) {
        Effect::Send(b) => assert_eq!(b, b"x".to_vec()),
        _ => panic!("expected bytes"),
    }
    assert!(matches!(cockpit_key(key(KeyCode::F(2)), &mut c), Effect::Continue));
    let ctrl_o = KeyEvent::new(KeyCode::Char('o'), Modifiers::control());
    assert!(matches!(cockpit_key(ctrl_o, &mut c), Effect::Continue));
    assert_eq!(c.focus, Focus::Tree);
    assert!(matches!(cockpit_key(key(KeyCode::Down), &mut c), Effect::Continue));
    assert_eq!(c.tree.cursor, 1);
    assert!(matches!(cockpit_key(key(KeyCode::Enter), &mut c), Effect::Enter));
    assert!(matches!(cockpit_key(key(KeyCode::Backspace), &mut c), Effect::Ascend));
    assert!(matches!(cockpit_key(key(KeyCode::Char('q')), &mut c), Effect::Quit));
    let ctrl_q = KeyEvent::new(KeyCode::Char('q'), Modifiers::control());
    c.focus = Focus::Dock;
    assert!(matches!(cockpit_key(ctrl_q, &mut c), Effect::Quit));
}

#[test]
fn cockpit_command_line() {
    let words = |w: &[&str]| w.iter().map(|s| s.to_string()).collect::<Vec<_>>();
    assert_eq!(parse_args(&words(&["--agent", "codex", "/src"])), (Some("codex".to_string()), Some("/src".to_string())));
    assert_eq!(parse_args(&words(&["/a", "/b"])), (None, Some("/a".to_string())));
    assert_eq!(parse_args(&words(&["--agent", "x", "--agent"])), (None, None));
    assert_eq!(parse_args(&words(&["--agent", "x", "--agent", "y"])), (Some("y".to_string()), None));
    assert_eq!(default_shell(true, Some("/bin/zsh".to_string())), "powershell.exe");
    assert_eq!(default_shell(false, Some("/bin/zsh".to_string())), "/bin/zsh");
    assert_eq!(default_shell(false, None), "/bin/bash");
    assert_eq!(status_hint(Focus::Tree, "codex", false), "Ctrl-O switch focus · Ctrl-Q quit · focus: tree · dock: codex [exited]");
    let tree = Pane::open(ROOT.to_string(), vec![item("a", false, 1)]);
    assert_eq!(tree_row_label(&tree.entries[1]), "  a");
}

#[test]
fn session_rules() {
    assert_eq!(local_state_base(Some("C:\\AppData".to_string()), Some("/x".to_string()), None, "/tmp".to_string()), "C:\\AppData");
    assert_eq!(local_state_base(Some(String::new()), Some("/state".to_string()), None, "/tmp".to_string()), "/state");
    assert_eq!(local_state_base(None, None, Some("/home/me".to_string()), "/tmp".to_string()), "/home/me/.local/state");
    assert_eq!(local_state_base(None, Some(String::new()), Some(String::new()), "/tmp".to_string()), "/tmp");
    assert_eq!(session_dir("/state"), "/state/commander");
    assert_eq!(selection_path("/state/commander"), "/state/commander/selection.json");
    assert!(is_within(Some("/a".to_string()), Some("/a/b".to_string())));
    assert!(is_within(Some("/a".to_string()), Some("/a".to_string())));
    assert!(!is_within(Some("/a".to_string()), Some("/ab".to_string())));
    assert!(!is_within(None, Some("/a".to_string())));
    assert!(now_ms() > 0);
    assert_eq!(millis_or_zero(Some(1234)), 1234);
    assert_eq!(millis_or_zero(None), 0);
}

#[test]
fn waiting_for_an_outcome() {
    let s = |t: u128| Selection { submitted_at_ms: t, ..Selection::default() };
    assert!(matches!(wait_step(Some(s(11)), 10, false), WaitStep::Found(_)));
    assert!(matches!(wait_step(Some(s(10)), 10, false), WaitStep::Poll));
    assert!(matches!(wait_step(Some(s(10)), 10, true), WaitStep::TimedOut));
    assert!(matches!(wait_step(None, 10, true), WaitStep::TimedOut));
    assert!(matches!(wait_step(None, 10, false), WaitStep::Poll));
    assert_eq!(Status::default(), Status::Sent);
}

#[test]
fn row_tones_let_marks_win() {
    let pane = Pane::open(ROOT.to_string(), vec![item("sub", true, 0), item("f.txt", false, 3)]);
    let dir = &pane.entries[1];
    let file = &pane.entries[2];
    assert_eq!(dir.name, "sub");
    assert_eq!(row_tone(dir, false), RowTone::Directory);
    assert_eq!(row_tone(dir, true), RowTone::Marked);
    assert_eq!(row_tone(file, false), RowTone::Plain);
    assert_eq!(row_tone(file, true), RowTone::Marked);
}
