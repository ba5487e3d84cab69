//! A dual-pane file picker for terminal coding agents: the file-manager model,
//! the picker's and the cockpit's key handling, the session protocol shared by
//! the picker and the agent-facing server, the server's routing and texts, and
//! a reader of git's porcelain status.
use vstd::prelude::*;

pub mod text;
pub mod paths;
pub mod pane;
pub mod keys;
pub mod ipc;
pub mod tui;
pub mod cockpit;
pub mod dock;
pub mod git;
pub mod mcp;
pub mod cli;
pub mod laws;
