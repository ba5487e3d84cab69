//! The dual-pane picker's decisions: what each key does, the selection that
//! confirming or quitting hands back, and the message shown on exit.
//!
//! Drawing and terminal handling are the caller's part.
use vstd::prelude::*;
use crate::keys::{KeyCode, KeyEvent};
use crate::pane::{AppState, Pane, Side, DirEntry, EntryView, dotdot, is_dotdot};
use crate::ipc::{Selection, Status};
use crate::text::{texts, concat, decimal, decimal_string, truncate, truncated, pad, pad_left, pad_right};

verus! {

/// What a key means in the picker.
#[derive(Clone, Copy, PartialEq, Eq, Debug, Structural)]
pub enum Command {
    Quit,
    FocusLeft,
    FocusRight,
    SwitchPane,
    Up,
    Down,
    Top,
    Bottom,
    Enter,
    Ascend,
    ToggleMark,
    Send,
    SendReview,
    SendExplain,
    Nothing,
}

/// The picker's keymap: q/Esc/Ctrl-C quit, h/l and the arrows pick a pane,
/// Tab switches, k/j and the arrows move, g/G jump, Enter descends, Backspace
/// goes up, Space marks, a/r/e confirm (plain, review, explain).
pub open spec fn command_of(key: KeyEvent) -> Command {
    match key.code {
        KeyCode::Char('q') | KeyCode::Esc => Command::Quit,
        KeyCode::Char('c') if key.modifiers.is_control_only() => Command::Quit,
        KeyCode::Left | KeyCode::Char('h') => Command::FocusLeft,
        KeyCode::Right | KeyCode::Char('l') => Command::FocusRight,
        KeyCode::Tab => Command::SwitchPane,
        KeyCode::Up | KeyCode::Char('k') => Command::Up,
        KeyCode::Down | KeyCode::Char('j') => Command::Down,
        KeyCode::Char('g') => Command::Top,
        KeyCode::Char('G') => Command::Bottom,
        KeyCode::Enter => Command::Enter,
        KeyCode::Backspace => Command::Ascend,
        KeyCode::Char(' ') => Command::ToggleMark,
        KeyCode::Char('a') => Command::Send,
        KeyCode::Char('r') => Command::SendReview,
        KeyCode::Char('e') => Command::SendExplain,
        _ => Command::Nothing,
    }
}

/// What a key means in the picker.
pub fn command_for(key: KeyEvent) -> (r: Command)
    ensures
        r == command_of(key),
{
    let ctrl_only = key.modifiers.control && !key.modifiers.shift && !key.modifiers.alt
        && !key.modifiers.super_key && !key.modifiers.hyper && !key.modifiers.meta;
    match key.code {
        KeyCode::Char('q') | KeyCode::Esc => Command::Quit,
        KeyCode::Char('c') if ctrl_only => Command::Quit,
        KeyCode::Left | KeyCode::Char('h') => Command::FocusLeft,
        KeyCode::Right | KeyCode::Char('l') => Command::FocusRight,
        KeyCode::Tab => Command::SwitchPane,
        KeyCode::Up | KeyCode::Char('k') => Command::Up,
        KeyCode::Down | KeyCode::Char('j') => Command::Down,
        KeyCode::Char('g') => Command::Top,
        KeyCode::Char('G') => Command::Bottom,
        KeyCode::Enter => Command::Enter,
        KeyCode::Backspace => Command::Ascend,
        KeyCode::Char(' ') => Command::ToggleMark,
        KeyCode::Char('a') => Command::Send,
        KeyCode::Char('r') => Command::SendReview,
        KeyCode::Char('e') => Command::SendExplain,
        _ => Command::Nothing,
    }
}

/// What the picker does after a key.
pub enum Flow {
    /// Keep going.
    Continue,
    /// Quit without sending.
    Quit,
    /// Confirm the selection, with this action.
    Send(Option<String>),
    /// Descend into the directory under the cursor of the active pane (the
    /// caller reads it; see `Pane::enter`).
    Enter,
    /// Go up from the active pane's directory (see `Pane::ascend`).
    Ascend,
}

/// The number of rows a command moves the cursor by.
pub open spec fn step_of(c: Command) -> int {
    match c {
        Command::Up => -1,
        Command::Down => 1,
        _ => 0,
    }
}

/// Applies `key` to the app: focus changes, cursor moves and marks happen
/// here; quitting, confirming and the directory changes that need the disk
/// are handed back.
pub fn handle_key(key: KeyEvent, app: &mut AppState) -> (r: Flow)
    requires
        old(app).left.entries@.len() <= isize::MAX,
        old(app).right.entries@.len() <= isize::MAX,
        old(app).active_spec().moves_safely(step_of(command_of(key))),
    ensures
        ({
            let c = command_of(key);
            let a = old(app).active_spec();
            let b = final(app).active_spec();
            match c {
                Command::Quit => r is Quit && *final(app) == *old(app),
                Command::FocusLeft => r is Continue && final(app).active == Side::Left
                    && final(app).left == old(app).left && final(app).right == old(app).right,
                Command::FocusRight => r is Continue && final(app).active == Side::Right
                    && final(app).left == old(app).left && final(app).right == old(app).right,
                Command::SwitchPane => r is Continue && final(app).active == old(app).active.other_spec()
                    && final(app).left == old(app).left && final(app).right == old(app).right,
                Command::Up | Command::Down => r is Continue && final(app).active == old(app).active
                    && b.cwd == a.cwd && b.entries == a.entries && b.marked == a.marked
                    && (a.entries@.len() == 0 ==> b.cursor == a.cursor)
                    && (a.entries@.len() > 0 ==> b.cursor == a.moved_cursor(step_of(c))),
                Command::Top => r is Continue && final(app).active == old(app).active
                    && b == Pane { cursor: 0, ..a },
                Command::Bottom => r is Continue && final(app).active == old(app).active
                    && b == Pane {
                        cursor: if a.entries@.len() == 0 { 0 } else { (a.entries@.len() - 1) as usize },
                        ..a
                    },
                Command::Enter => r is Enter && *final(app) == *old(app),
                Command::Ascend => r is Ascend && *final(app) == *old(app),
                Command::ToggleMark => r is Continue && final(app).active == old(app).active
                    && b.cwd == a.cwd && b.entries == a.entries && b.cursor == a.cursor
                    && texts(b.marked@) == (if a.cursor < a.entries@.len()
                        && a.entries@[a.cursor as int].name@ != dotdot() {
                        crate::pane::toggled(texts(a.marked@), a.entries@[a.cursor as int].path@)
                    } else {
                        texts(a.marked@)
                    }),
                Command::Send => r matches Flow::Send(None) && *final(app) == *old(app),
                Command::SendReview => r matches Flow::Send(Some(s)) && s@ == "review"@
                    && *final(app) == *old(app),
                Command::SendExplain => r matches Flow::Send(Some(s)) && s@ == "explain"@
                    && *final(app) == *old(app),
                Command::Nothing => r is Continue && *final(app) == *old(app),
            }
        }),
        // the pane that is not acted on stays as it was
        command_of(key) != Command::FocusLeft && command_of(key) != Command::FocusRight
            && command_of(key) != Command::SwitchPane ==> (old(app).active == Side::Left
            ==> final(app).right == old(app).right) && (old(app).active == Side::Right
            ==> final(app).left == old(app).left),
{
    match command_for(key) {
        Command::Quit => Flow::Quit,
        Command::FocusLeft => {
            app.active = Side::Left;
            Flow::Continue
        },
        Command::FocusRight => {
            app.active = Side::Right;
            Flow::Continue
        },
        Command::SwitchPane => {
            app.switch_pane();
            Flow::Continue
        },
        Command::Up => {
            app.active_pane_mut().move_cursor(-1);
            Flow::Continue
        },
        Command::Down => {
            app.active_pane_mut().move_cursor(1);
            Flow::Continue
        },
        Command::Top => {
            app.active_pane_mut().cursor_top();
            Flow::Continue
        },
        Command::Bottom => {
            app.active_pane_mut().cursor_bottom();
            Flow::Continue
        },
        Command::Enter => Flow::Enter,
        Command::Ascend => Flow::Ascend,
        Command::ToggleMark => {
            app.active_pane_mut().toggle_mark();
            Flow::Continue
        },
        Command::Send => Flow::Send(None),
        Command::SendReview => Flow::Send(Some(String::from_str("review"))),
        Command::SendExplain => Flow::Send(Some(String::from_str("explain"))),
        Command::Nothing => Flow::Continue,
    }
}

/// The selection confirming hands to the agent: the active pane's directory
/// and effective selection, the chosen action, and the time `now_ms`.
pub fn confirmed(app: &AppState, action: Option<String>, now_ms: u128) -> (r: Selection)
    ensures
        r.status == Status::Sent,
        r.cwd@ == app.active_spec().cwd@,
        texts(r.paths@) == (if app.active_spec().marked@.len() > 0 {
            texts(app.active_spec().marked@)
        } else if app.active_spec().cursor < app.active_spec().entries@.len()
            && app.active_spec().entries@[app.active_spec().cursor as int].name@ != dotdot() {
            seq![app.active_spec().entries@[app.active_spec().cursor as int].path@]
        } else {
            Seq::empty()
        }),
        r.action == action,
        r.submitted_at_ms == now_ms,
{
    let pane = app.active_pane();
    let paths = pane.effective_selection();
    Selection { status: Status::Sent, cwd: pane.cwd.clone(), paths, action, submitted_at_ms: now_ms }
}

/// The selection quitting writes, so that a waiting reader returns at once:
/// cancelled, with no paths and no action.
pub fn cancelled(app: &AppState, now_ms: u128) -> (r: Selection)
    ensures
        r.status == Status::Cancelled,
        r.cwd@ == app.active_spec().cwd@,
        r.paths@.len() == 0,
        r.action is None,
        r.submitted_at_ms == now_ms,
{
    Selection {
        status: Status::Cancelled,
        cwd: app.active_pane().cwd.clone(),
        paths: Vec::new(),
        action: None,
        submitted_at_ms: now_ms,
    }
}

/// How a picker session ended, for the exit message.
pub enum Outcome {
    /// The user confirmed; this many paths were handed to the agent.
    Sent { count: usize, action: Option<String> },
    /// The user quit without sending.
    Cancelled,
}

/// The exit message for an outcome.
pub open spec fn outcome_text(o: Outcome) -> Seq<char> {
    match o {
        Outcome::Sent { count, action } => "Sent "@ + decimal(count as nat) + " item(s) to the agent"@
            + match action {
            Some(a) => " (action: "@ + a@ + ")"@,
            None => Seq::empty(),
        } + "."@,
        Outcome::Cancelled => "Cancelled. Nothing sent."@,
    }
}

/// The message printed when the picker exits.
pub fn outcome_message(o: &Outcome) -> (r: String)
    ensures
        r@ == outcome_text(*o),
{
    match o {
        Outcome::Sent { count, action } => {
            let n = decimal_string(*count as u128);
            let mut s = concat("Sent ", n.as_str());
            s.append(" item(s) to the agent");
            match action {
                Some(a) => {
                    s.append(" (action: ");
                    s.append(a.as_str());
                    s.append(")");
                },
                None => {},
            }
            s.append(".");
            proof {
                assert(s@ =~= outcome_text(*o));
            }
            s
        },
        Outcome::Cancelled => String::from_str("Cancelled. Nothing sent."),
    }
}

/// The glyph before a row's name: an up arrow for "..", a triangle for a
/// directory, a space for a file.
pub open spec fn glyph_of(e: EntryView) -> Seq<char> {
    if e.name == dotdot() {
        "↑"@
    } else if e.is_dir {
        "▸"@
    } else {
        " "@
    }
}

/// The glyph before a row's name.
pub fn row_glyph(e: &DirEntry) -> (r: &'static str)
    ensures
        r@ == glyph_of(e@),
{
    if is_dotdot(e.name.as_str()) {
        "↑"
    } else if e.is_dir {
        "▸"
    } else {
        " "
    }
}

/// A row of the picker: a `*` when marked, the glyph, the name cut and padded
/// to 24 characters, and the size (`size_text`; none for a directory) right
/// aligned in 8.
pub open spec fn row_text(e: EntryView, marked: bool, size_text: Seq<char>) -> Seq<char> {
    (if marked {
        "*"@
    } else {
        " "@
    }) + glyph_of(e) + " "@ + pad_right(truncated(e.name, 24), 24) + " "@ + pad_left(
        if e.is_dir {
            Seq::empty()
        } else {
            size_text
        },
        8,
    )
}

/// The text of a row of the picker.
pub fn row_label(e: &DirEntry, marked: bool, size_text: &str) -> (r: String)
    ensures
        r@ == row_text(e@, marked, size_text@),
{
    let mut s = String::from_str(if marked { "*" } else { " " });
    s.append(row_glyph(e));
    s.append(" ");
    let name = truncate(e.name.as_str(), 24);
    let name = pad(name.as_str(), 24, true);
    s.append(name.as_str());
    s.append(" ");
    let size = if e.is_dir { String::new() } else { String::from_str(size_text) };
    let size = pad(size.as_str(), 8, false);
    s.append(size.as_str());
    proof {
        assert(s@ =~= row_text(e@, marked, size_text@));
    }
    s
}

/// How a row of the picker is coloured.
#[derive(Clone, Copy, PartialEq, Eq, Debug, Structural)]
pub enum RowTone {
    /// A file.
    Plain,
    /// A directory (blue, bold).
    Directory,
    /// A marked row, directory or not (yellow, bold).
    Marked,
}

/// The colouring of a row: a mark wins over being a directory.
pub fn row_tone(e: &DirEntry, marked: bool) -> (r: RowTone)
    ensures
        r == (if marked {
            RowTone::Marked
        } else if e.is_dir {
            RowTone::Directory
        } else {
            RowTone::Plain
        }),
{
    if marked {
        RowTone::Marked
    } else if e.is_dir {
        RowTone::Directory
    } else {
        RowTone::Plain
    }
}

/// The title of a pane drawn `width` cells wide: its directory cut to fit
/// the border, with a space either side.
pub fn pane_title(cwd: &str, width: u16) -> (r: String)
    ensures
        r@ == " "@ + truncated(cwd@, (if width >= 4 { width - 4 } else { 0 }) as nat) + " "@,
{
    let room: u16 = if width >= 4 { width - 4 } else { 0 };
    let t = truncate(cwd, room as usize);
    let mut s = String::from_str(" ");
    s.append(t.as_str());
    s.append(" ");
    s
}

} // verus!
