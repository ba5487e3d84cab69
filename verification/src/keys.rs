//! Keys as the terminal reports them, and the bytes a terminal program expects
//! for each.
use vstd::prelude::*;
use vstd::utf8::{encode_utf8, encode_scalar};

verus! {

/// A key, as the terminal reports it.
#[derive(Clone, Copy, PartialEq, Eq, Debug, Structural)]
pub enum KeyCode {
    Backspace,
    Enter,
    Left,
    Right,
    Up,
    Down,
    Home,
    End,
    PageUp,
    PageDown,
    Tab,
    BackTab,
    Delete,
    Insert,
    F(u8),
    Char(char),
    Null,
    Esc,
    CapsLock,
    ScrollLock,
    NumLock,
    PrintScreen,
    Pause,
    Menu,
    KeypadBegin,
    Media,
    Modifier,
}

/// The modifier keys held with a key.
#[derive(Clone, Copy, PartialEq, Eq, Debug, Structural)]
pub struct Modifiers {
    pub shift: bool,
    pub control: bool,
    pub alt: bool,
    pub super_key: bool,
    pub hyper: bool,
    pub meta: bool,
}

impl Modifiers {
    /// No modifier held.
    pub fn none() -> (r: Modifiers)
        ensures
            !r.shift && !r.control && !r.alt && !r.super_key && !r.hyper && !r.meta,
    {
        Modifiers { shift: false, control: false, alt: false, super_key: false, hyper: false, meta: false }
    }

    /// Control alone.
    pub fn control() -> (r: Modifiers)
        ensures
            r.control && r.is_control_only(),
    {
        Modifiers { shift: false, control: true, alt: false, super_key: false, hyper: false, meta: false }
    }

    /// Control and nothing else is held.
    pub open spec fn is_control_only(self) -> bool {
        self.control && !self.shift && !self.alt && !self.super_key && !self.hyper && !self.meta
    }
}

/// Whether a key went down, repeats, or went up.
#[derive(Clone, Copy, PartialEq, Eq, Debug, Structural)]
pub enum KeyEventKind {
    Press,
    Repeat,
    Release,
}

/// A key event.
#[derive(Clone, Copy, PartialEq, Eq, Debug, Structural)]
pub struct KeyEvent {
    pub code: KeyCode,
    pub modifiers: Modifiers,
    pub kind: KeyEventKind,
}

impl KeyEvent {
    /// A key press.
    pub fn new(code: KeyCode, modifiers: Modifiers) -> (r: KeyEvent)
        ensures
            r.code == code,
            r.modifiers == modifiers,
            r.kind == KeyEventKind::Press,
    {
        KeyEvent { code, modifiers, kind: KeyEventKind::Press }
    }
}

/// A character code in upper case, for ASCII letters; other codes unchanged.
pub open spec fn ascii_upper(u: u32) -> u32 {
    if 0x61 <= u <= 0x7a {
        (u - 32) as u32
    } else {
        u
    }
}

/// The bytes a terminal program expects for a key, or `None` for a key that
/// sends nothing. With Control, the characters `@` to `_` (letters in either
/// case) send their control code, space sends NUL; every other character
/// sends its UTF-8 encoding.
pub open spec fn key_bytes(key: KeyEvent) -> Option<Seq<u8>> {
    match key.code {
        KeyCode::Char(c) => {
            let up = ascii_upper(c as u32);
            if key.modifiers.control && 0x40 <= up <= 0x5f {
                Some(seq![(up as u8) & 0x1f])
            } else if key.modifiers.control && c == ' ' {
                Some(seq![0u8])
            } else {
                Some(encode_utf8(seq![c]))
            }
        },
        KeyCode::Enter => Some(seq![13u8]),
        KeyCode::Backspace => Some(seq![0x7fu8]),
        KeyCode::Tab => Some(seq![9u8]),
        KeyCode::BackTab => Some(seq![0x1bu8, 0x5b, 0x5a]),
        KeyCode::Esc => Some(seq![0x1bu8]),
        KeyCode::Up => Some(seq![0x1bu8, 0x5b, 0x41]),
        KeyCode::Down => Some(seq![0x1bu8, 0x5b, 0x42]),
        KeyCode::Right => Some(seq![0x1bu8, 0x5b, 0x43]),
        KeyCode::Left => Some(seq![0x1bu8, 0x5b, 0x44]),
        KeyCode::Home => Some(seq![0x1bu8, 0x5b, 0x48]),
        KeyCode::End => Some(seq![0x1bu8, 0x5b, 0x46]),
        KeyCode::PageUp => Some(seq![0x1bu8, 0x5b, 0x35, 0x7e]),
        KeyCode::PageDown => Some(seq![0x1bu8, 0x5b, 0x36, 0x7e]),
        KeyCode::Delete => Some(seq![0x1bu8, 0x5b, 0x33, 0x7e]),
        KeyCode::Insert => Some(seq![0x1bu8, 0x5b, 0x32, 0x7e]),
        _ => None,
    }
}

/// The UTF-8 encoding of `c`.
pub fn char_bytes(c: char) -> (r: Vec<u8>)
    ensures
        r@ == encode_utf8(seq![c]),
{
    proof {
        assert(encode_utf8(seq![c]) =~= encode_scalar(c as u32) + encode_utf8(seq![c].drop_first()));
        assert(seq![c].drop_first() =~= Seq::<char>::empty());
        assert(encode_utf8(Seq::<char>::empty()) =~= Seq::<u8>::empty());
        vstd::utf8::char_is_scalar(c);
    }
    let v = c as u32;
    let r = if v <= 0x7f {
        vec![(v & 0x7F) as u8]
    } else if v <= 0x7ff {
        vec![0xC0 | ((v >> 6) & 0x1F) as u8, 0x80 | (v & 0x3F) as u8]
    } else if v <= 0xffff {
        vec![0xE0 | ((v >> 12) & 0x0F) as u8, 0x80 | ((v >> 6) & 0x3F) as u8, 0x80 | (v & 0x3F) as u8]
    } else {
        vec![
            0xF0 | ((v >> 18) & 0x7) as u8,
            0x80 | ((v >> 12) & 0x3F) as u8,
            0x80 | ((v >> 6) & 0x3F) as u8,
            0x80 | (v & 0x3F) as u8,
        ]
    };
    proof {
        assert(r@ =~= encode_scalar(v));
    }
    r
}

/// The byte sequence a terminal program expects for `key`.
pub fn key_to_bytes(key: KeyEvent) -> (r: Option<Vec<u8>>)
    ensures
        match r {
            Some(b) => key_bytes(key) == Some(b@),
            None => key_bytes(key) is None,
        },
{
    let r = match key.code {
        KeyCode::Char(c) => {
            let u = c as u32;
            let up = if 0x61 <= u && u <= 0x7a { u - 32 } else { u };
            if key.modifiers.control && 0x40 <= up && up <= 0x5f {
                vec![(up as u8) & 0x1f]
            } else if key.modifiers.control && c == ' ' {
                vec![0u8]
            } else {
                char_bytes(c)
            }
        },
        KeyCode::Enter => vec![13u8],
        KeyCode::Backspace => vec![0x7fu8],
        KeyCode::Tab => vec![9u8],
        KeyCode::BackTab => vec![0x1bu8, 0x5b, 0x5a],
        KeyCode::Esc => vec![0x1bu8],
        KeyCode::Up => vec![0x1bu8, 0x5b, 0x41],
        KeyCode::Down => vec![0x1bu8, 0x5b, 0x42],
        KeyCode::Right => vec![0x1bu8, 0x5b, 0x43],
        KeyCode::Left => vec![0x1bu8, 0x5b, 0x44],
        KeyCode::Home => vec![0x1bu8, 0x5b, 0x48],
        KeyCode::End => vec![0x1bu8, 0x5b, 0x46],
        KeyCode::PageUp => vec![0x1bu8, 0x5b, 0x35, 0x7e],
        KeyCode::PageDown => vec![0x1bu8, 0x5b, 0x36, 0x7e],
        KeyCode::Delete => vec![0x1bu8, 0x5b, 0x33, 0x7e],
        KeyCode::Insert => vec![0x1bu8, 0x5b, 0x32, 0x7e],
        _ => {
            return None;
        },
    };
    proof {
        assert(key_bytes(key) == Some(r@));
    }
    Some(r)
}

} // verus!
