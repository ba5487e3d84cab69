//! The agent-facing server's decisions: which request gets which reply, and
//! the texts its tools return.
//!
//! The server speaks JSON-RPC over stdio. Reading lines, writing JSON,
//! spawning the picker and touching the session file are the caller's part;
//! each frame is cleaned, read into a request, routed and answered here.
use vstd::prelude::*;
use crate::ipc::{Selection, Status};
use crate::text::{texts, opt_view};
use crate::text::{concat, decimal, decimal_string, parse_u64, parsed_u64, trim, trimmed, strip, strip_front, same_text, CharClass};

verus! {

/// `s` without its leading byte-order marks.
pub open spec fn strip_bom(s: Seq<char>) -> Seq<char> {
    strip_front(s, CharClass::Bom)
}

/// The text of a frame: leading byte-order marks dropped (some hosts prepend
/// one), then surrounding white space; `None` for a blank frame, which gets
/// no reply.
pub fn frame_text(line: &str) -> (r: Option<String>)
    ensures
        match r {
            Some(t) => t@ == trimmed(strip_bom(line@)) && t@.len() > 0,
            None => trimmed(strip_bom(line@)).len() == 0,
        },
{
    let rest = strip(line, CharClass::Bom, true, false);
    let t = trim(rest.as_str());
    if t.as_str().is_empty() {
        None
    } else {
        Some(t)
    }
}

/// A request, as the caller read it from the frame: the method (`""` when
/// missing), and for `tools/call` the tool's name (`""` when missing) and the
/// `path` and `clear` arguments when present with the right type.
pub struct Request {
    pub method: String,
    pub tool: String,
    pub path: Option<String>,
    pub clear: Option<bool>,
}

/// The `id` member of a frame, as compact JSON text, when the frame parses as
/// JSON (`serde_json::from_str` into a `Value`) and has one; `None` otherwise.
pub uninterp spec fn frame_id(text: Seq<char>) -> Option<Seq<char>>;

/// The string found in a frame by following the object keys `keys`, when the
/// frame parses as JSON and the value there is a string.
pub uninterp spec fn frame_str(text: Seq<char>, keys: Seq<Seq<char>>) -> Option<Seq<char>>;

/// The boolean found in a frame by following the object keys `keys`, when the
/// frame parses as JSON and the value there is a boolean.
pub uninterp spec fn frame_bool(text: Seq<char>, keys: Seq<Seq<char>>) -> Option<bool>;

/// Parses the frame with `serde_json::from_str` and gives its `id` member
/// (`Value::get`) written back as compact JSON (`Value`'s `Display`).
#[verifier::external_body]
fn read_id(text: &str) -> (r: Option<String>)
    ensures
        opt_view(r) == frame_id(text@),
{
    match serde_json::from_str::<serde_json::Value>(text) {
        Ok(v) => match v.get("id") {
            Some(id) => Some(id.to_string()),
            None => None,
        },
        Err(_) => None,
    }
}

/// Parses the frame with `serde_json::from_str` and reads `method` as a string
/// (`Value::pointer`, `Value::as_str`).
#[verifier::external_body]
fn read_method(text: &str) -> (r: Option<String>)
    ensures
        opt_view(r) == frame_str(text@, seq!["method"@]),
{
    match serde_json::from_str::<serde_json::Value>(text) {
        Ok(v) => match v.pointer("/method") {
            Some(m) => m.as_str().map(String::from),
            None => None,
        },
        Err(_) => None,
    }
}

/// Parses the frame with `serde_json::from_str` and reads `params.name` as a
/// string (`Value::pointer`, `Value::as_str`).
#[verifier::external_body]
fn read_tool(text: &str) -> (r: Option<String>)
    ensures
        opt_view(r) == frame_str(text@, seq!["params"@, "name"@]),
{
    match serde_json::from_str::<serde_json::Value>(text) {
        Ok(v) => match v.pointer("/params/name") {
            Some(m) => m.as_str().map(String::from),
            None => None,
        },
        Err(_) => None,
    }
}

/// Parses the frame with `serde_json::from_str` and reads
/// `params.arguments.path` as a string (`Value::pointer`, `Value::as_str`).
#[verifier::external_body]
fn read_path(text: &str) -> (r: Option<String>)
    ensures
        opt_view(r) == frame_str(text@, seq!["params"@, "arguments"@, "path"@]),
{
    match serde_json::from_str::<serde_json::Value>(text) {
        Ok(v) => match v.pointer("/params/arguments/path") {
            Some(m) => m.as_str().map(String::from),
            None => None,
        },
        Err(_) => None,
    }
}

/// Parses the frame with `serde_json::from_str` and reads
/// `params.arguments.clear` as a boolean (`Value::pointer`, `Value::as_bool`).
#[verifier::external_body]
fn read_clear(text: &str) -> (r: Option<bool>)
    ensures
        r == frame_bool(text@, seq!["params"@, "arguments"@, "clear"@]),
{
    match serde_json::from_str::<serde_json::Value>(text) {
        Ok(v) => match v.pointer("/params/arguments/clear") {
            Some(m) => m.as_bool(),
            None => None,
        },
        Err(_) => None,
    }
}

/// A frame that asks for a reply: its id, to be echoed, and its request.
pub struct Frame {
    /// The frame's `id`, as compact JSON text.
    pub id: String,
    pub request: Request,
}

/// Reads a cleaned frame. A frame that is not JSON, or has no `id` (a
/// notification), gets no reply: `None`. Otherwise the request holds the
/// method and tool name (`""` when missing or not a string) and the `path`
/// and `clear` arguments (`None` when missing or of another type).
pub fn request_of(text: &str) -> (r: Option<Frame>)
    ensures
        frame_id(text@) is None ==> r is None,
        frame_id(text@) matches Some(id) ==> (r matches Some(f) && f.id@ == id
            && f.request.method@ == frame_str(text@, seq!["method"@]).unwrap_or(Seq::empty())
            && f.request.tool@ == frame_str(text@, seq!["params"@, "name"@]).unwrap_or(
            Seq::empty(),
        ) && opt_view(f.request.path) == frame_str(text@, seq!["params"@, "arguments"@, "path"@])
            && f.request.clear == frame_bool(text@, seq!["params"@, "arguments"@, "clear"@])),
{
    let id = match read_id(text) {
        Some(i) => i,
        None => return None,
    };
    let method = match read_method(text) {
        Some(m) => m,
        None => String::new(),
    };
    let tool = match read_tool(text) {
        Some(t) => t,
        None => String::new(),
    };
    let path = read_path(text);
    let clear = read_clear(text);
    Some(Frame { id, request: Request { method, tool, path, clear } })
}

/// The JSON-RPC error code of a failed request.
pub const SERVER_ERROR: i64 = -32000;

/// A JSON-RPC error: its code and message.
pub struct RpcError {
    pub code: i64,
    pub message: String,
}

/// How a request is answered: with its result, or with an error.
pub enum Answer<T> {
    Done(T),
    Failed(RpcError),
}

/// The answer for the outcome of a request: its result, or an error with code
/// -32000 and the failure's message.
pub fn answer_of<T>(outcome: Result<T, String>) -> (r: Answer<T>)
    ensures
        match outcome {
            Ok(v) => r == Answer::Done(v),
            Err(m) => r matches Answer::Failed(e) && e.code == SERVER_ERROR && e.code == -32000
                && e.message@ == m@,
        },
{
    match outcome {
        Ok(v) => Answer::Done(v),
        Err(m) => Answer::Failed(RpcError { code: SERVER_ERROR, message: m }),
    }
}

/// What a request is answered with.
pub enum Reply {
    /// The server's protocol version, capabilities and name.
    Initialize,
    /// An empty result.
    Pong,
    /// The definitions of the two tools.
    ToolList,
    /// Open the picker at `path` (the caller's working directory when `None`)
    /// and wait for the outcome.
    Open { path: Option<String> },
    /// Read the pending selection, clearing it afterwards when `clear` is set.
    GetSelection { clear: bool },
}

/// The routing of a request: the reply, or the error message.
pub open spec fn route(req: Request) -> Result<Reply, Seq<char>> {
    if req.method@ == "initialize"@ {
        Ok(Reply::Initialize)
    } else if req.method@ == "ping"@ {
        Ok(Reply::Pong)
    } else if req.method@ == "tools/list"@ {
        Ok(Reply::ToolList)
    } else if req.method@ == "tools/call"@ {
        if req.tool@ == "commander_open"@ {
            Ok(Reply::Open { path: req.path })
        } else if req.tool@ == "commander_get_selection"@ {
            Ok(Reply::GetSelection { clear: req.clear.unwrap_or(true) })
        } else {
            Err("unknown tool: "@ + req.tool@)
        }
    } else {
        Err("unknown method: "@ + req.method@)
    }
}

/// Routes a request: `initialize`, `ping`, `tools/list` and `tools/call` of
/// the two tools are answered; anything else is an error with its message.
pub fn dispatch(req: Request) -> (r: Result<Reply, String>)
    ensures
        match (r, route(req)) {
            (Ok(a), Ok(b)) => a == b,
            (Err(e), Err(m)) => e@ == m,
            _ => false,
        },
{
    if same_text(req.method.as_str(), "initialize") {
        Ok(Reply::Initialize)
    } else if same_text(req.method.as_str(), "ping") {
        Ok(Reply::Pong)
    } else if same_text(req.method.as_str(), "tools/list") {
        Ok(Reply::ToolList)
    } else if same_text(req.method.as_str(), "tools/call") {
        if same_text(req.tool.as_str(), "commander_open") {
            Ok(Reply::Open { path: req.path })
        } else if same_text(req.tool.as_str(), "commander_get_selection") {
            let clear = match req.clear {
                Some(c) => c,
                None => true,
            };
            Ok(Reply::GetSelection { clear })
        } else {
            Err(concat("unknown tool: ", req.tool.as_str()))
        }
    } else {
        Err(concat("unknown method: ", req.method.as_str()))
    }
}

/// What a tool call returns.
pub enum ToolResult {
    /// A text block alone.
    Text(String),
    /// A confirmed selection: a readable summary, and the structured payload.
    Picked { summary: String, cwd: String, paths: Vec<String>, action: Option<String> },
}

/// Paths one per line.
pub open spec fn joined_lines(ps: Seq<Seq<char>>) -> Seq<char>
    decreases ps.len(),
{
    if ps.len() == 0 {
        Seq::empty()
    } else if ps.len() == 1 {
        ps[0]
    } else {
        joined_lines(ps.drop_last()) + "\n"@ + ps.last()
    }
}

/// The summary of a confirmed selection.
pub open spec fn summary_text(sel: Selection) -> Seq<char> {
    "User selected "@ + decimal(sel.paths@.len()) + " item(s)"@ + match sel.action {
        Some(a) => " with action '"@ + a@ + "'"@,
        None => Seq::empty(),
    } + " from "@ + sel.cwd@ + ":\n"@ + joined_lines(texts(sel.paths@))
}

/// Paths one per line.
fn join_lines(ps: &Vec<String>) -> (r: String)
    ensures
        r@ == joined_lines(texts(ps@)),
{
    let ghost m = texts(ps@);
    let mut out = String::new();
    let mut i: usize = 0;
    while i < ps.len()
        invariant
            i <= ps@.len(),
            m == texts(ps@),
            out@ == joined_lines(m.take(i as int)),
        decreases ps@.len() - i,
    {
        proof {
            assert(m.take(i + 1).drop_last() =~= m.take(i as int));
        }
        if i > 0 {
            out.append("\n");
        }
        out.append(ps[i].as_str());
        proof {
            if i == 0 {
                assert(out@ =~= joined_lines(m.take(1)));
            } else {
                assert(out@ =~= joined_lines(m.take(i + 1)));
            }
        }
        i = i + 1;
    }
    proof {
        assert(m.take(i as int) =~= m);
    }
    out
}

/// The result of a confirmed selection: a summary ("User selected N item(s)
/// [with action 'A'] from DIR:" and the paths one per line), and the
/// directory, paths and action.
pub fn selection_result(sel: Selection) -> (r: ToolResult)
    ensures
        r matches ToolResult::Picked { summary, cwd, paths, action } && summary@ == summary_text(sel)
            && cwd == sel.cwd && paths == sel.paths && action == sel.action,
{
    let n = decimal_string(sel.paths.len() as u128);
    let mut s = concat("User selected ", n.as_str());
    s.append(" item(s)");
    match &sel.action {
        Some(a) => {
            s.append(" with action '");
            s.append(a.as_str());
            s.append("'");
        },
        None => {},
    }
    s.append(" from ");
    s.append(sel.cwd.as_str());
    s.append(":\n");
    let lines = join_lines(&sel.paths);
    s.append(lines.as_str());
    proof {
        assert(s@ =~= summary_text(sel));
    }
    ToolResult::Picked { summary: s, cwd: sel.cwd, paths: sel.paths, action: sel.action }
}

/// The text returned when the user closed the picker without sending.
pub open spec fn cancelled_text() -> Seq<char> {
    "The user closed the Commander picker without selecting anything."@
}

/// The text returned when nothing is pending.
pub open spec fn nothing_pending_text() -> Seq<char> {
    "No pending selection. The user may not have confirmed in the Commander UI yet."@
}

/// The result of an outcome read from the session file: the cancel text for a
/// cancelled session, else the selection.
pub fn outcome_result(sel: Selection) -> (r: ToolResult)
    ensures
        sel.status == Status::Cancelled ==> (r matches ToolResult::Text(t) && t@ == cancelled_text()),
        sel.status == Status::Sent ==> (r matches ToolResult::Picked { summary, cwd, paths, action }
            && summary@ == summary_text(sel) && cwd == sel.cwd && paths == sel.paths && action
            == sel.action),
{
    match sel.status {
        Status::Cancelled => ToolResult::Text(
            String::from_str("The user closed the Commander picker without selecting anything."),
        ),
        Status::Sent => selection_result(sel),
    }
}

/// The result of `commander_get_selection` after reading the session file,
/// and whether to clear the file now: the nothing-pending text when nothing
/// was there, else as `outcome_result`; the file is cleared when something
/// was read and `clear` is set.
pub fn pending_result(read: Option<Selection>, clear: bool) -> (r: (ToolResult, bool))
    ensures
        r.1 == (read is Some && clear),
        read is None ==> (r.0 matches ToolResult::Text(t) && t@ == nothing_pending_text()),
        read matches Some(sel) ==> (sel.status == Status::Cancelled ==> (r.0 matches ToolResult::Text(t)
            && t@ == cancelled_text())),
        read matches Some(sel) ==> (sel.status == Status::Sent ==> (r.0 matches ToolResult::Picked {
            summary,
            cwd,
            paths,
            action,
        } && summary@ == summary_text(sel) && cwd == sel.cwd && paths == sel.paths && action
            == sel.action)),
{
    match read {
        None => (
            ToolResult::Text(
                String::from_str(
                    "No pending selection. The user may not have confirmed in the Commander UI yet.",
                ),
            ),
            false,
        ),
        Some(sel) => (outcome_result(sel), clear),
    }
}

/// The text returned when the user has not confirmed in time.
pub open spec fn timeout_text(dir: Seq<char>, secs: u64) -> Seq<char> {
    "Opened Commander at "@ + dir + " but the user hasn't confirmed within "@ + decimal(secs as nat)
        + "s. The picker may still be open — call commander_get_selection once they confirm."@
}

/// The text returned when `commander_open` gave up waiting after `secs`
/// seconds for the picker opened at `dir`.
pub fn open_timeout_text(dir: &str, secs: u64) -> (r: String)
    ensures
        r@ == timeout_text(dir@, secs),
{
    let mut s = concat("Opened Commander at ", dir);
    s.append(" but the user hasn't confirmed within ");
    let n = decimal_string(secs as u128);
    s.append(n.as_str());
    s.append("s. The picker may still be open — call commander_get_selection once they confirm.");
    proof {
        assert(s@ =~= timeout_text(dir@, secs));
    }
    s
}

/// The result of `commander_open` after waiting for the picker opened at
/// `dir` for `secs` seconds, and whether to clear the session file now: the
/// timeout text when no outcome came, else as `outcome_result`, clearing the
/// file so that the outcome is not read twice.
pub fn open_result(found: Option<Selection>, dir: &str, secs: u64) -> (r: (ToolResult, bool))
    ensures
        r.1 == found is Some,
        found is None ==> (r.0 matches ToolResult::Text(t) && t@ == timeout_text(dir@, secs)),
        found matches Some(sel) ==> (sel.status == Status::Cancelled ==> (r.0 matches ToolResult::Text(t)
            && t@ == cancelled_text())),
        found matches Some(sel) ==> (sel.status == Status::Sent ==> (r.0 matches ToolResult::Picked {
            summary,
            cwd,
            paths,
            action,
        } && summary@ == summary_text(sel) && cwd == sel.cwd && paths == sel.paths && action
            == sel.action)),
{
    match found {
        None => (ToolResult::Text(open_timeout_text(dir, secs)), false),
        Some(sel) => (outcome_result(sel), true),
    }
}

/// How long `commander_open` waits, in seconds: the value of
/// `COMMANDER_OPEN_TIMEOUT` (given as read) when it parses as a `u64`, else 300.
pub fn open_timeout_secs(var: Option<String>) -> (r: u64)
    ensures
        r == (match var {
            Some(v) => match parsed_u64(v@) {
                Some(n) => n,
                None => 300,
            },
            None => 300,
        }),
{
    match var {
        Some(v) => match parse_u64(v.as_str()) {
            Some(n) => n,
            None => 300,
        },
        None => 300,
    }
}

/// The terminal emulators tried, in order, to open the picker on Unix: `$TERMINAL`
/// (given as read, `""` when unset) and then the common ones, skipping empty names.
pub open spec fn candidates(term: Seq<char>) -> Seq<Seq<char>> {
    let rest = seq![
        "x-terminal-emulator"@,
        "kitty"@,
        "alacritty"@,
        "wezterm"@,
        "gnome-terminal"@,
        "xterm"@,
    ];
    if term.len() == 0 {
        rest
    } else {
        seq![term] + rest
    }
}

/// The terminal emulators to try, in order.
pub fn terminal_candidates(term: &str) -> (r: Vec<String>)
    ensures
        texts(r@) == candidates(term@),
{
    let mut out: Vec<String> = Vec::new();
    if !term.is_empty() {
        out.push(String::from_str(term));
    }
    out.push(String::from_str("x-terminal-emulator"));
    out.push(String::from_str("kitty"));
    out.push(String::from_str("alacritty"));
    out.push(String::from_str("wezterm"));
    out.push(String::from_str("gnome-terminal"));
    out.push(String::from_str("xterm"));
    proof {
        assert(texts(out@) =~= candidates(term@));
    }
    out
}

/// The kind of a tool's parameter.
#[derive(Clone, Copy, PartialEq, Eq, Debug, Structural)]
pub enum ParamKind {
    /// A string.
    Text,
    /// A boolean.
    Flag,
}

/// A tool the server offers: its name and description, and its one optional
/// parameter with its kind and description.
pub struct ToolDef {
    pub name: String,
    pub description: String,
    pub param: String,
    pub param_kind: ParamKind,
    pub param_description: String,
}

/// What `commander_open` tells the agent it does.
pub open spec fn open_description() -> Seq<char> {
    "Open the Commander dual-pane file UI in a new terminal window so the user can browse and pick files/dirs, and BLOCK until they confirm or cancel. Returns the selected paths and chosen action directly — you normally do NOT need to call commander_get_selection afterward. Call this when the user wants to choose files visually. If it reports a timeout, the picker is still open; call commander_get_selection once the user says they've confirmed."@
}

/// What `commander_get_selection` tells the agent it does.
pub open spec fn get_selection_description() -> Seq<char> {
    "Return the files/dirs the user confirmed in the Commander UI, plus any action they chose (e.g. 'review', 'explain'). Returns empty if nothing is pending. By default this clears the pending selection once read."@
}

/// The two tools: `commander_open(path?)`, which opens the picker and waits,
/// and `commander_get_selection(clear?)`, which reads what is pending.
pub fn tool_defs() -> (r: Vec<ToolDef>)
    ensures
        r@.len() == 2,
        r@[0].name@ == "commander_open"@,
        r@[0].description@ == open_description(),
        r@[0].param@ == "path"@,
        r@[0].param_kind == ParamKind::Text,
        r@[0].param_description@
            == "Directory to open the panes at. Defaults to the current working directory."@,
        r@[1].name@ == "commander_get_selection"@,
        r@[1].description@ == get_selection_description(),
        r@[1].param@ == "clear"@,
        r@[1].param_kind == ParamKind::Flag,
        r@[1].param_description@ == "Clear the pending selection after reading. Default true."@,
{
    let open = ToolDef {
        name: String::from_str("commander_open"),
        description: String::from_str(
            "Open the Commander dual-pane file UI in a new terminal window so the user can browse and pick files/dirs, and BLOCK until they confirm or cancel. Returns the selected paths and chosen action directly — you normally do NOT need to call commander_get_selection afterward. Call this when the user wants to choose files visually. If it reports a timeout, the picker is still open; call commander_get_selection once the user says they've confirmed.",
        ),
        param: String::from_str("path"),
        param_kind: ParamKind::Text,
        param_description: String::from_str(
            "Directory to open the panes at. Defaults to the current working directory.",
        ),
    };
    let get = ToolDef {
        name: String::from_str("commander_get_selection"),
        description: String::from_str(
            "Return the files/dirs the user confirmed in the Commander UI, plus any action they chose (e.g. 'review', 'explain'). Returns empty if nothing is pending. By default this clears the pending selection once read.",
        ),
        param: String::from_str("clear"),
        param_kind: ParamKind::Flag,
        param_description: String::from_str("Clear the pending selection after reading. Default true."),
    };
    let mut r: Vec<ToolDef> = Vec::new();
    r.push(open);
    r.push(get);
    r
}

/// What the server answers `initialize` with: the protocol version it speaks,
/// its name, and that it offers tools. (Its version number is the build's,
/// which the caller adds.)
pub struct ServerInfo {
    pub protocol_version: String,
    pub name: String,
    pub offers_tools: bool,
}

/// The server's answer to `initialize`: protocol "2024-11-05", name "commander", tools offered.
pub fn server_info() -> (r: ServerInfo)
    ensures
        r.protocol_version@ == "2024-11-05"@,
        r.name@ == "commander"@,
        r.offers_tools,
{
    ServerInfo {
        protocol_version: String::from_str("2024-11-05"),
        name: String::from_str("commander"),
        offers_tools: true,
    }
}

} // verus!
