//! The cockpit's decisions: a file tree beside a docked agent, which keys go
//! where, and how its command line is read.
use vstd::prelude::*;
use crate::keys::{KeyCode, KeyEvent, key_bytes, key_to_bytes};
use crate::pane::{Pane, DirEntry};
use crate::tui::{glyph_of, row_glyph};
use crate::text::{same_text, opt_view, texts};

verus! {

/// Which side of the cockpit has focus.
#[derive(Clone, Copy, PartialEq, Eq, Debug, Structural)]
pub enum Focus {
    Tree,
    Dock,
}

/// The cockpit state that keys act on: the tree pane and the focus. The dock
/// itself is the caller's.
pub struct Cockpit {
    pub tree: Pane,
    pub focus: Focus,
}

/// What the cockpit does after a key.
pub enum Effect {
    /// Keep going.
    Continue,
    /// Quit the cockpit.
    Quit,
    /// Send these bytes to the docked program.
    Send(Vec<u8>),
    /// Descend into the directory under the tree's cursor (see `Pane::enter`).
    Enter,
    /// Go up from the tree's directory (see `Pane::ascend`).
    Ascend,
}

/// The number of rows a key moves the tree's cursor by.
pub open spec fn tree_step(code: KeyCode) -> int {
    match code {
        KeyCode::Up | KeyCode::Char('k') => -1,
        KeyCode::Down | KeyCode::Char('j') => 1,
        _ => 0,
    }
}

/// Applies `key`: Ctrl-Q quits and Ctrl-O toggles focus whatever has focus;
/// with the dock focused every other key goes to the docked program as bytes;
/// with the tree focused, k/j and the arrows move, Enter descends, Backspace
/// goes up, and q/Esc quit.
pub fn handle_key(key: KeyEvent, app: &mut Cockpit) -> (r: Effect)
    requires
        old(app).tree.entries@.len() <= isize::MAX,
        old(app).focus == Focus::Tree ==> old(app).tree.moves_safely(tree_step(key.code)),
    ensures
        ({
            let ctrl = key.modifiers.control;
            if ctrl && key.code == KeyCode::Char('q') {
                r is Quit && *final(app) == *old(app)
            } else if ctrl && key.code == KeyCode::Char('o') {
                r is Continue && final(app).tree == old(app).tree && final(app).focus == (match old(
                    app,
                ).focus {
                    Focus::Tree => Focus::Dock,
                    Focus::Dock => Focus::Tree,
                })
            } else if old(app).focus == Focus::Dock {
                *final(app) == *old(app) && match key_bytes(key) {
                    Some(b) => r matches Effect::Send(v) && v@ == b,
                    None => r is Continue,
                }
            } else {
                final(app).focus == old(app).focus && match key.code {
                    KeyCode::Up | KeyCode::Char('k') | KeyCode::Down | KeyCode::Char('j') => {
                        &&& r is Continue
                        &&& final(app).tree.cwd == old(app).tree.cwd
                        &&& final(app).tree.entries == old(app).tree.entries
                        &&& final(app).tree.marked == old(app).tree.marked
                        &&& old(app).tree.entries@.len() == 0 ==> final(app).tree.cursor
                            == old(app).tree.cursor
                        &&& old(app).tree.entries@.len() > 0 ==> final(app).tree.cursor == old(
                            app,
                        ).tree.moved_cursor(tree_step(key.code))
                    },
                    KeyCode::Enter => r is Enter && final(app).tree == old(app).tree,
                    KeyCode::Backspace => r is Ascend && final(app).tree == old(app).tree,
                    KeyCode::Char('q') | KeyCode::Esc => r is Quit && final(app).tree == old(app).tree,
                    _ => r is Continue && final(app).tree == old(app).tree,
                }
            }
        }),
{
    let ctrl = key.modifiers.control;
    if ctrl && key.code == KeyCode::Char('q') {
        return Effect::Quit;
    }
    if ctrl && key.code == KeyCode::Char('o') {
        app.focus = match app.focus {
            Focus::Tree => Focus::Dock,
            Focus::Dock => Focus::Tree,
        };
        return Effect::Continue;
    }
    match app.focus {
        Focus::Dock => match key_to_bytes(key) {
            Some(bytes) => Effect::Send(bytes),
            None => Effect::Continue,
        },
        Focus::Tree => match key.code {
            KeyCode::Up | KeyCode::Char('k') => {
                app.tree.move_cursor(-1);
                Effect::Continue
            },
            KeyCode::Down | KeyCode::Char('j') => {
                app.tree.move_cursor(1);
                Effect::Continue
            },
            KeyCode::Enter => Effect::Enter,
            KeyCode::Backspace => Effect::Ascend,
            KeyCode::Char('q') | KeyCode::Esc => Effect::Quit,
            _ => Effect::Continue,
        },
    }
}

/// Reads the cockpit's command line from word `i` on, given what was read
/// before it: `--agent <cmd>` sets the docked program (a later one replaces
/// it, and a trailing `--agent` clears it), and the first other word is the
/// directory.
pub open spec fn scan_args(
    args: Seq<Seq<char>>,
    i: int,
    agent: Option<Seq<char>>,
    dir: Option<Seq<char>>,
) -> (Option<Seq<char>>, Option<Seq<char>>)
    decreases args.len() - i,
{
    if i < 0 || i >= args.len() {
        (agent, dir)
    } else if args[i] == "--agent"@ {
        if i + 1 < args.len() {
            scan_args(args, i + 2, Some(args[i + 1]), dir)
        } else {
            (None, dir)
        }
    } else {
        scan_args(args, i + 1, agent, if dir is None { Some(args[i]) } else { dir })
    }
}

/// The docked program and the directory named on the command line (the
/// words after the program name).
pub fn parse_args(args: &Vec<String>) -> (r: (Option<String>, Option<String>))
    ensures
        ({
            let want = scan_args(texts(args@), 0, None, None);
            &&& opt_view(r.0) == want.0
            &&& opt_view(r.1) == want.1
        }),
{
    let ghost words = texts(args@);
    let mut agent: Option<String> = None;
    let mut dir: Option<String> = None;
    let mut i: usize = 0;
    while i < args.len()
        invariant
            i <= args@.len(),
            words == texts(args@),
            scan_args(words, i as int, opt_view(agent), opt_view(dir))
                == scan_args(words, 0, None, None),
        decreases args@.len() - i,
    {
        if same_text(args[i].as_str(), "--agent") {
            if i + 1 < args.len() {
                agent = Some(args[i + 1].clone());
                i = i + 2;
            } else {
                agent = None;
                i = i + 1;
            }
        } else {
            if dir.is_none() {
                dir = Some(args[i].clone());
            }
            i = i + 1;
        }
    }
    proof {
        assert(scan_args(words, i as int, opt_view(agent), opt_view(dir)) == (
        opt_view(agent), opt_view(dir)));
    }
    (agent, dir)
}

/// The program docked when none is named: PowerShell on Windows, else
/// `$SHELL` (given here as read), else `/bin/bash`.
pub fn default_shell(windows: bool, shell: Option<String>) -> (r: String)
    ensures
        windows ==> r@ == "powershell.exe"@,
        !windows ==> r@ == (match shell {
            Some(s) => s@,
            None => "/bin/bash"@,
        }),
{
    if windows {
        String::from_str("powershell.exe")
    } else {
        match shell {
            Some(s) => s,
            None => String::from_str("/bin/bash"),
        }
    }
}

/// The cockpit's status line: the keys, which side has focus, the docked
/// program, and whether it has exited.
pub open spec fn hint_text(focus: Focus, program: Seq<char>, alive: bool) -> Seq<char> {
    "Ctrl-O switch focus · Ctrl-Q quit · focus: "@ + (match focus {
        Focus::Tree => "tree"@,
        Focus::Dock => "dock"@,
    }) + " · dock: "@ + program + (if alive {
        Seq::empty()
    } else {
        " [exited]"@
    })
}

/// The cockpit's status line.
pub fn status_hint(focus: Focus, program: &str, alive: bool) -> (r: String)
    ensures
        r@ == hint_text(focus, program@, alive),
{
    let mut s = String::from_str("Ctrl-O switch focus · Ctrl-Q quit · focus: ");
    s.append(
        match focus {
            Focus::Tree => "tree",
            Focus::Dock => "dock",
        },
    );
    s.append(" · dock: ");
    s.append(program);
    if !alive {
        s.append(" [exited]");
    }
    proof {
        assert(s@ =~= hint_text(focus, program@, alive));
    }
    s
}

/// A row of the tree: its glyph, a space and its name.
pub fn tree_row_label(e: &DirEntry) -> (r: String)
    ensures
        r@ == glyph_of(e@) + " "@ + e.name@,
{
    let mut s = String::from_str(row_glyph(e));
    s.append(" ");
    s.append(e.name.as_str());
    s
}

} // verus!
