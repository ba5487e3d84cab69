use commander::ipc::{Selection, Status};
use commander::mcp::{
    dispatch, frame_text, open_timeout_secs, open_timeout_text, outcome_result, pending_result,
    selection_result, server_info, terminal_candidates, tool_defs, ParamKind, Reply, Request,
    ToolResult,
};

fn req(method: &str, tool: &str, path: Option<&str>, clear: Option<bool>) -> Request {
    Request {
        method: method.to_string(),
        tool: tool.to_string(),
        path: path.map(|p| p.to_string()),
        clear,
    }
}

fn sel(status: Status, paths: &[&str], action: Option<&str>) -> Selection {
    Selection {
        status,
        cwd: "/work".to_string(),
        paths: paths.iter().map(|p| p.to_string()).collect(),
        action: action.map(|a| a.to_string()),
        submitted_at_ms: 5,
    }
}

#[test]
fn routing() {
    assert!(matches!(dispatch(req("initialize", "", None, None)), Ok(Reply::Initialize)));
    assert!(matches!(dispatch(req("ping", "", None, None)), Ok(Reply::Pong)));
    assert!(matches!(dispatch(req("tools/list", "", None, None)), Ok(Reply::ToolList)));
    match dispatch(req("tools/call", "commander_open", Some("/x"), None)) {
        Ok(Reply::Open { path }) => assert_eq!(path, Some("/x".to_string())),
        _ => panic!("expected open"),
    }
    match dispatch(req("tools/call", "commander_get_selection", None, None)) {
        Ok(Reply::GetSelection { clear }) => assert!(clear),
        _ => panic!("expected get_selection"),
    }
    match dispatch(req("tools/call", "commander_get_selection", None, Some(false))) {
        Ok(Reply::GetSelection { clear }) => assert!(!clear),
        _ => panic!("expected get_selection"),
    }
}

#[test]
fn routing_errors() {
    match dispatch(req("resources/list", "", None, None)) {
        Err(e) => assert_eq!(e, "unknown method: resources/list"),
        _ => panic!("expected an error"),
    }
    match dispatch(req("tools/call", "rm_rf", None, None)) {
        Err(e) => assert_eq!(e, "unknown tool: rm_rf"),
        _ => panic!("expected an error"),
    }
}

#[test]
fn frames_are_cleaned() {
    assert_eq!(frame_text("\u{feff}\u{feff}  {\"id\":1}  \n"), Some("{\"id\":1}".to_string()));
    assert_eq!(frame_text("   \t"), None);
    assert_eq!(frame_text("\u{feff}"), None);
}

#[test]
fn selection_summary() {
    match selection_result(sel(Status::Sent, &["/work/a", "/work/b"], Some("review"))) {
        ToolResult::Picked { summary, cwd, paths, action } => {
            assert_eq!(
                summary,
                "User selected 2 item(s) with action 'review' from /work:\n/work/a\n/work/b"
            );
            assert_eq!(cwd, "/work");
            assert_eq!(paths, vec!["/work/a".to_string(), "/work/b".to_string()]);
            assert_eq!(action, Some("review".to_string()));
        }
        _ => panic!("expected a selection"),
    }
    match selection_result(sel(Status::Sent, &[], None)) {
        ToolResult::Picked { summary, .. } => {
            assert_eq!(summary, "User selected 0 item(s) from /work:\n")
        }
        _ => panic!("expected a selection"),
    }
}

#[test]
fn outcome_texts() {
    match outcome_result(sel(Status::Cancelled, &[], None)) {
        ToolResult::Text(t) => {
            assert_eq!(t, "The user closed the Commander picker without selecting anything.")
        }
        _ => panic!("expected text"),
    }
    match pending_result(None, true) {
        (ToolResult::Text(t), clear) => {
            assert!(!clear);
            assert_eq!(
            t,
            "No pending selection. The user may not have confirmed in the Commander UI yet."
            )
        }
        _ => panic!("expected text"),
    }
    assert!(matches!(
        pending_result(Some(sel(Status::Sent, &["/work/a"], None)), true),
        (ToolResult::Picked { .. }, true)
    ));
    assert!(matches!(
        pending_result(Some(sel(Status::Cancelled, &[], None)), false),
        (ToolResult::Text(_), false)
    ));
}

#[test]
fn timeouts() {
    assert_eq!(open_timeout_secs(None), 300);
    assert_eq!(open_timeout_secs(Some("45".to_string())), 45);
    assert_eq!(open_timeout_secs(Some("+7".to_string())), 7);
    assert_eq!(open_timeout_secs(Some("-7".to_string())), 300);
    assert_eq!(open_timeout_secs(Some("".to_string())), 300);
    assert_eq!(open_timeout_secs(Some("1x".to_string())), 300);
    assert_eq!(open_timeout_secs(Some("18446744073709551615".to_string())), u64::MAX);
    assert_eq!(open_timeout_secs(Some("18446744073709551616".to_string())), 300);
    assert_eq!(
        open_timeout_text("/w", 300),
        "Opened Commander at /w but the user hasn't confirmed within 300s. The picker may still be open — call commander_get_selection once they confirm."
    );
}

#[test]
fn terminals_to_try() {
    assert_eq!(
        terminal_candidates(""),
        vec!["x-terminal-emulator", "kitty", "alacritty", "wezterm", "gnome-terminal", "xterm"]
    );
    assert_eq!(terminal_candidates("foot")[0], "foot");
    assert_eq!(terminal_candidates("foot").len(), 7);
}

#[test]
fn tools_and_server_info() {
    let defs = tool_defs();
    assert_eq!(defs.len(), 2);
    assert_eq!(defs[0].name, "commander_open");
    assert_eq!(defs[0].param, "path");
    assert_eq!(defs[0].param_kind, ParamKind::Text);
    assert!(defs[0].description.starts_with("Open the Commander dual-pane file UI in a new terminal window so the user"));
    assert_eq!(defs[1].name, "commander_get_selection");
    assert_eq!(defs[1].param, "clear");
    assert_eq!(defs[1].param_kind, ParamKind::Flag);
    assert_eq!(defs[1].param_description, "Clear the pending selection after reading. Default true.");
    let info = server_info();
    assert_eq!(info.protocol_version, "2024-11-05");
    assert_eq!(info.name, "commander");
    assert!(info.offers_tools);
}

#[test]
fn frames_are_read_into_requests() {
    let text = r#"{"jsonrpc":"2.0","id":7,"method":"tools/call","params":{"name":"commander_get_selection","arguments":{"clear":false}}}"#;
    let frame = commander::mcp::request_of(text).expect("a request");
    assert_eq!(frame.id, "7");
    assert_eq!(frame.request.method, "tools/call");
    assert_eq!(frame.request.tool, "commander_get_selection");
    assert_eq!(frame.request.path, None);
    assert_eq!(frame.request.clear, Some(false));

    let text = r#"{"id":"a","method":"tools/call","params":{"name":"commander_open","arguments":{"path":"/tmp","clear":"no"}}}"#;
    let frame = commander::mcp::request_of(text).expect("a request");
    assert_eq!(frame.id, "\"a\"");
    assert_eq!(frame.request.tool, "commander_open");
    assert_eq!(frame.request.path, Some("/tmp".to_string()));
    assert_eq!(frame.request.clear, None);
}

#[test]
fn frames_without_id_or_json_get_no_reply() {
    assert!(commander::mcp::request_of(r#"{"jsonrpc":"2.0","method":"notifications/initialized"}"#).is_none());
    assert!(commander::mcp::request_of("{not json").is_none());
    assert!(commander::mcp::request_of("[1,2]").is_none());
}

#[test]
fn missing_method_and_tool_read_as_empty() {
    let frame = commander::mcp::request_of(r#"{"id":null,"method":5}"#).expect("a request");
    assert_eq!(frame.id, "null");
    assert_eq!(frame.request.method, "");
    assert_eq!(frame.request.tool, "");
}

#[test]
fn failures_answer_with_server_error() {
    match commander::mcp::answer_of::<u8>(Err("unknown method: x".to_string())) {
        commander::mcp::Answer::Failed(e) => {
            assert_eq!(e.code, -32000);
            assert_eq!(e.message, "unknown method: x");
        }
        commander::mcp::Answer::Done(_) => panic!("expected an error"),
    }
    assert!(matches!(commander::mcp::answer_of::<u8>(Ok(3)), commander::mcp::Answer::Done(3)));
}

#[test]
fn open_result_times_out_or_clears() {
    let (r, clear) = commander::mcp::open_result(None, "/tmp", 5);
    assert!(!clear);
    match r {
        commander::mcp::ToolResult::Text(t) => assert!(t.starts_with("Opened Commander at /tmp but the user hasn't confirmed within 5s.")),
        _ => panic!("expected text"),
    }
}

#[test]
fn open_result_clears_after_an_outcome() {
    let (r, clear) = commander::mcp::open_result(Some(sel(Status::Cancelled, &[], None)), "/tmp", 5);
    assert!(clear);
    match r {
        ToolResult::Text(t) => assert_eq!(t, "The user closed the Commander picker without selecting anything."),
        _ => panic!("expected text"),
    }
    let (r, clear) = commander::mcp::open_result(Some(sel(Status::Sent, &["/work/a"], None)), "/tmp", 5);
    assert!(clear);
    assert!(matches!(r, ToolResult::Picked { .. }));
}
