//! What the picker hands back to the agent, and the rules of the session file
//! shared by the picker and the agent-facing server.
//!
//! Reading and writing the file is the caller's part; the decisions (where the
//! file lives, which outcome a waiting reader accepts) are made here.
use vstd::prelude::*;
use std::time::{Duration, SystemTime, UNIX_EPOCH};
use crate::paths::{joined, path_has_prefix, path_join, path_starts_with};

verus! {

/// How a picker session ended.
#[derive(Clone, Copy, PartialEq, Eq, Debug, Structural)]
pub enum Status {
    /// The human confirmed a selection.
    Sent,
    /// The human quit without sending.
    Cancelled,
}

impl Default for Status {
    /// `Sent`, so that files written before the field existed read as sent.
    fn default() -> (r: Status)
        ensures
            r == Status::Sent,
    {
        Status::Sent
    }
}

/// What the human picked and handed back to the agent. One is written on
/// every exit of the picker (a cancel writes `Cancelled` with no paths) so a
/// waiting reader always unblocks.
#[derive(Debug, Clone)]
pub struct Selection {
    /// How the session ended.
    pub status: Status,
    /// Directory of the pane the selection was made in.
    pub cwd: String,
    /// The marked paths (or the path under the cursor if none was marked).
    pub paths: Vec<String>,
    /// The action the human chose, e.g. "review" or "explain"; `None` for a
    /// plain selection.
    pub action: Option<String>,
    /// Unix milliseconds when the selection was confirmed, best effort.
    pub submitted_at_ms: u128,
}

impl Default for Selection {
    /// An empty, sent selection.
    fn default() -> (r: Selection)
        ensures
            r.status == Status::Sent,
            r.cwd@.len() == 0,
            r.paths@.len() == 0,
            r.action is None,
            r.submitted_at_ms == 0,
    {
        Selection {
            status: Status::Sent,
            cwd: String::new(),
            paths: Vec::new(),
            action: None,
            submitted_at_ms: 0,
        }
    }
}

/// Navigation commands an agent can push to a running picker.
#[derive(Debug, Clone)]
pub enum NavCommand {
    /// Change the active pane's directory.
    Cd { path: String },
    /// Move the cursor to a named entry in the active pane.
    Focus { name: String },
    /// Toggle the mark on the entry under the cursor.
    ToggleMark,
    /// Switch which pane is active.
    SwitchPane,
}

/// `std::time::SystemTime`, carried through opaque.
#[verifier::external_type_specification]
#[verifier::external_body]
pub struct ExSystemTime(SystemTime);

/// Calls `SystemTime::now`. It reads the clock, so nothing is stated of it.
#[verifier::external_body]
fn clock_now() -> SystemTime {
    SystemTime::now()
}

/// Calls `SystemTime::duration_since` with the Unix epoch: `None` when `t` is
/// before the epoch. It depends on the clock reading, so nothing more is stated.
#[verifier::external_body]
fn since_epoch(t: &SystemTime) -> Option<Duration> {
    match t.duration_since(UNIX_EPOCH) {
        Ok(d) => Some(d),
        Err(_) => None,
    }
}

/// Calls `Duration::as_millis`.
#[verifier::external_body]
fn as_millis(d: &Duration) -> u128 {
    d.as_millis()
}

/// Unix milliseconds from a clock reading: the milliseconds since the epoch
/// when the clock is at or after it (`Some`), else 0.
pub fn millis_or_zero(since_epoch_ms: Option<u128>) -> (r: u128)
    ensures
        r == (match since_epoch_ms {
            Some(m) => m,
            None => 0,
        }),
{
    match since_epoch_ms {
        Some(m) => m,
        None => 0,
    }
}

/// Current Unix milliseconds, best effort (0 if the clock is before the
/// epoch). It reads the clock, so its value is stated in `millis_or_zero`,
/// which it hands the reading to.
pub fn now_ms() -> u128 {
    let now = clock_now();
    let reading = match since_epoch(&now) {
        Some(d) => Some(as_millis(&d)),
        None => None,
    };
    millis_or_zero(reading)
}

/// True if `path` is inside `root` (or is `root`), given both paths as
/// resolved by the caller (`None` when resolving failed, which gives false).
pub fn is_within(root: Option<String>, path: Option<String>) -> (r: bool)
    ensures
        r == (match (root, path) {
            (Some(a), Some(b)) => path_has_prefix(b@, a@),
            _ => false,
        }),
        (root, path) matches (Some(a), Some(b)) && a@ == b@ ==> r,
{
    match (root, path) {
        (Some(a), Some(b)) => {
            proof {
                let pb = crate::paths::path_parts(b@);
                assert(pb.take(pb.len() as int) =~= pb);
            }
            path_starts_with(b.as_str(), a.as_str())
        },
        _ => false,
    }
}

/// A set environment variable that is not empty.
pub open spec fn usable(v: Option<String>) -> bool {
    v matches Some(s) && s@.len() > 0
}

/// The per-user base directory the session directory goes under:
/// `LOCALAPPDATA`, else `XDG_STATE_HOME`, else `$HOME/.local/state`, else the
/// temp directory. Unset and empty variables are skipped.
pub fn local_state_base(
    local_app_data: Option<String>,
    xdg_state_home: Option<String>,
    home: Option<String>,
    temp_dir: String,
) -> (r: String)
    ensures
        usable(local_app_data) ==> r@ == local_app_data.unwrap()@,
        !usable(local_app_data) && usable(xdg_state_home) ==> r@ == xdg_state_home.unwrap()@,
        !usable(local_app_data) && !usable(xdg_state_home) && usable(home) ==> r@ == joined(
            joined(home.unwrap()@, ".local"@),
            "state"@,
        ),
        !usable(local_app_data) && !usable(xdg_state_home) && !usable(home) ==> r@ == temp_dir@,
{
    if let Some(v) = local_app_data {
        if !v.as_str().is_empty() {
            return v;
        }
    }
    if let Some(v) = xdg_state_home {
        if !v.as_str().is_empty() {
            return v;
        }
    }
    if let Some(h) = home {
        if !h.as_str().is_empty() {
            let local = path_join(h.as_str(), ".local");
            return path_join(local.as_str(), "state");
        }
    }
    temp_dir
}

/// The session directory under the base directory.
pub fn session_dir(base: &str) -> (r: String)
    ensures
        r@ == joined(base@, "commander"@),
{
    path_join(base, "commander")
}

/// The session file in the session directory.
pub fn selection_path(session_dir: &str) -> (r: String)
    ensures
        r@ == joined(session_dir@, "selection.json"@),
{
    path_join(session_dir, "selection.json")
}

/// One round of waiting for an outcome.
pub enum WaitStep {
    /// A selection made in this session was read: hand it back.
    Found(Selection),
    /// Nothing new and the time is up.
    TimedOut,
    /// Nothing new yet: wait a little and read again.
    Poll,
}

/// What to do after reading the session file (`read`) while waiting for a
/// selection newer than `since_ms`, given whether the time is up.
pub fn wait_step(read: Option<Selection>, since_ms: u128, time_is_up: bool) -> (r: WaitStep)
    ensures
        match r {
            WaitStep::Found(s) => read == Some(s) && s.submitted_at_ms > since_ms,
            WaitStep::TimedOut => !(read matches Some(s) && s.submitted_at_ms > since_ms)
                && time_is_up,
            WaitStep::Poll => !(read matches Some(s) && s.submitted_at_ms > since_ms) && !time_is_up,
        },
{
    if let Some(sel) = read {
        if sel.submitted_at_ms > since_ms {
            return WaitStep::Found(sel);
        }
    }
    if time_is_up {
        WaitStep::TimedOut
    } else {
        WaitStep::Poll
    }
}

} // verus!
