use commander::cli::{mode_of, unknown_command_message, Mode};
use commander::dock::{cursor_cell, Dock};
use commander::text::{decimal_string, pad, parse_u64, strip, trim, truncate, CharClass};

#[test]
fn dock_scrolling() {
    let mut d = Dock::new("codex", 0, 0);
    assert_eq!(d.size(), (1, 1));
    assert_eq!(d.program(), "codex");
    assert_eq!(d.resize(24, 80), Some((24, 80)));
    assert_eq!(d.resize(24, 80), None);
    d.scroll_page_up();
    assert_eq!(d.scroll(), 12);
    assert!(d.is_scrolled());
    d.scroll_page_up();
    d.scroll_page_up();
    assert_eq!(d.scroll(), 23); // one screen back at most
    d.scroll_page_down();
    assert_eq!(d.scroll(), 11);
    d.scroll_page_down();
    assert_eq!(d.scroll(), 0);
    d.scroll_page_up();
    d.scroll_reset();
    assert!(!d.is_scrolled());
    let mut tiny = Dock::new("sh", 1, 1);
    tiny.scroll_page_up();
    assert_eq!(tiny.scroll(), 0);
}

#[test]
fn cursor_placement() {
    assert_eq!(cursor_cell(false, 2, 3, 10, 20, 80, 24), Some((13, 22)));
    assert_eq!(cursor_cell(true, 2, 3, 10, 20, 80, 24), None);
    assert_eq!(cursor_cell(false, 24, 3, 10, 20, 80, 24), None);
    assert_eq!(cursor_cell(false, 2, 80, 10, 20, 80, 24), None);
}

#[test]
fn text_helpers() {
    assert_eq!(truncate("hello", 0), "");
    assert_eq!(truncate("hello", 5), "hello");
    assert_eq!(truncate("hello", 4), "hel…");
    assert_eq!(truncate("héllo", 2), "h…");
    assert_eq!(pad("ab", 4, true), "ab  ");
    assert_eq!(pad("ab", 4, false), "  ab");
    assert_eq!(pad("abcdef", 4, true), "abcdef");
    assert_eq!(decimal_string(0), "0");
    assert_eq!(decimal_string(1234567890), "1234567890");
    assert_eq!(decimal_string(u128::MAX), u128::MAX.to_string());
    assert_eq!(parse_u64("0012"), Some(12));
    assert_eq!(parse_u64("+"), None);
    assert_eq!(parse_u64(" 1"), None);
}

#[test]
fn command_words() {
    let words = |w: &[&str]| w.iter().map(|s| s.to_string()).collect::<Vec<_>>();
    assert!(matches!(mode_of(&words(&["tui", "/x"])), Mode::Tui(Some(d)) if d == "/x"));
    assert!(matches!(mode_of(&words(&["tui"])), Mode::Tui(None)));
    assert!(matches!(mode_of(&words(&["mcp"])), Mode::Mcp));
    assert!(matches!(mode_of(&words(&[])), Mode::Help));
    assert!(matches!(mode_of(&words(&["-h"])), Mode::Help));
    assert!(matches!(mode_of(&words(&["bogus"])), Mode::Unknown(w) if w == "bogus"));
    assert_eq!(unknown_command_message("bogus"), "commander: unknown command 'bogus'\n");
}

#[test]
fn trimming_matches_std() {
    for t in ["  a b  ", "\u{3000}x\u{a0}", "\t\r\n", "", "\u{2009}\u{85}y\u{202f}", "\u{200b}z"] {
        assert_eq!(trim(t), t.trim());
    }
    assert_eq!(strip("\"\"q\"", CharClass::Quote, true, true), "q");
    assert_eq!(strip("\u{feff}\u{feff}a\u{feff}", CharClass::Bom, true, false), "a\u{feff}");
}
