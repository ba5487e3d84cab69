//! The `commander` command line: which mode a run is in.
use vstd::prelude::*;
use crate::text::{concat, same_text, texts, opt_view};

verus! {

/// What a run of `commander` does.
pub enum Mode {
    /// Open the picker, at the directory given (else the working directory).
    Tui(Option<String>),
    /// Serve the agent over stdio.
    Mcp,
    /// Print the usage.
    Help,
    /// An unknown command word: report it and print the usage.
    Unknown(String),
}

/// The command word: the first word after the program name, `""` if none.
pub open spec fn command_word(words: Seq<Seq<char>>) -> Seq<char> {
    if words.len() > 0 {
        words[0]
    } else {
        Seq::empty()
    }
}

/// The words that ask for the usage.
pub open spec fn asks_help(cmd: Seq<char>) -> bool {
    cmd == "help"@ || cmd == "--help"@ || cmd == "-h"@ || cmd.len() == 0
}

/// The mode of a run, from the words after the program name: `tui [DIR]`,
/// `mcp`, `help`/`--help`/`-h` or nothing for the usage, else unknown.
pub fn mode_of(args: &Vec<String>) -> (r: Mode)
    ensures
        ({
            let words = texts(args@);
            let cmd = command_word(words);
            match r {
                Mode::Tui(dir) => cmd == "tui"@ && opt_view(dir) == (if words.len() > 1 {
                    Some(words[1])
                } else {
                    None
                }),
                Mode::Mcp => cmd == "mcp"@,
                Mode::Help => cmd != "tui"@ && cmd != "mcp"@ && asks_help(cmd),
                Mode::Unknown(w) => w@ == cmd && cmd != "tui"@ && cmd != "mcp"@ && !asks_help(cmd),
            }
        }),
{
    let cmd = if args.len() > 0 { args[0].clone() } else { String::new() };
    if same_text(cmd.as_str(), "tui") {
        let dir = if args.len() > 1 { Some(args[1].clone()) } else { None };
        Mode::Tui(dir)
    } else if same_text(cmd.as_str(), "mcp") {
        Mode::Mcp
    } else if same_text(cmd.as_str(), "help") || same_text(cmd.as_str(), "--help") || same_text(
        cmd.as_str(),
        "-h",
    ) || cmd.as_str().is_empty() {
        Mode::Help
    } else {
        Mode::Unknown(cmd)
    }
}

/// The message for an unknown command word.
pub fn unknown_command_message(word: &str) -> (r: String)
    ensures
        r@ == "commander: unknown command '"@ + word@ + "'\n"@,
{
    let mut s = concat("commander: unknown command '", word);
    s.append("'\n");
    s
}

} // verus!
