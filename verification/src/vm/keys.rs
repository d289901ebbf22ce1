//! Keys and the Simulatron character set: what a key press sends to the
//! keyboard controller.
use vstd::prelude::*;

verus! {

/// A key that the terminal reports.
#[derive(Debug, Clone, Copy, PartialEq, Eq, Structural)]
pub enum KeyCode {
    F(u8),
    Esc,
    Backspace,
    Enter,
    Insert,
    Delete,
    Home,
    End,
    PageUp,
    PageDown,
    Tab,
    Up,
    Down,
    Left,
    Right,
    Char(char),
    Other,
}

/// The code of a character in the Simulatron character set: `£` is 31, the
/// printable ASCII characters are themselves, and `¬` is 127.
pub open spec fn char_code(c: char) -> Option<u8> {
    if c as u32 == 0xA3 {
        Some(31)
    } else if 32 <= c as u32 <= 126 {
        Some(c as u8)
    } else if c as u32 == 0xAC {
        Some(127)
    } else {
        None
    }
}

/// The code of a key in the Simulatron character set: the function keys
/// F1 to F12 are 1 to 12, then Esc, Backspace, Enter, Insert, Delete, Home,
/// End, PageUp, PageDown, Tab and the arrows up, down, left and right are
/// 13 to 26, and a character is its code.
pub open spec fn key_code(k: KeyCode) -> Option<u8> {
    match k {
        KeyCode::F(n) => if 1 <= n <= 12 {
            Some(n)
        } else {
            None
        },
        KeyCode::Esc => Some(13),
        KeyCode::Backspace => Some(14),
        KeyCode::Enter => Some(15),
        KeyCode::Insert => Some(16),
        KeyCode::Delete => Some(17),
        KeyCode::Home => Some(18),
        KeyCode::End => Some(19),
        KeyCode::PageUp => Some(20),
        KeyCode::PageDown => Some(21),
        KeyCode::Tab => Some(22),
        KeyCode::Up => Some(23),
        KeyCode::Down => Some(24),
        KeyCode::Left => Some(25),
        KeyCode::Right => Some(26),
        KeyCode::Char(c) => char_code(c),
        KeyCode::Other => None,
    }
}

/// The code of a key, as `key_code` says.
pub fn key_to_u8(key: KeyCode) -> (r: Option<u8>)
    ensures
        r == key_code(key),
{
    match key {
        KeyCode::F(n) => if 1 <= n && n <= 12 {
            Some(n)
        } else {
            None
        },
        KeyCode::Esc => Some(13),
        KeyCode::Backspace => Some(14),
        KeyCode::Enter => Some(15),
        KeyCode::Insert => Some(16),
        KeyCode::Delete => Some(17),
        KeyCode::Home => Some(18),
        KeyCode::End => Some(19),
        KeyCode::PageUp => Some(20),
        KeyCode::PageDown => Some(21),
        KeyCode::Tab => Some(22),
        KeyCode::Up => Some(23),
        KeyCode::Down => Some(24),
        KeyCode::Left => Some(25),
        KeyCode::Right => Some(26),
        KeyCode::Char(c) => {
            let v = c as u32;
            if v == 0xA3 {
                Some(31)
            } else if 32 <= v && v <= 126 {
                Some(v as u8)
            } else if v == 0xAC {
                Some(127)
            } else {
                None
            }
        },
        KeyCode::Other => None,
    }
}

/// A key press for the keyboard controller: the key's code, and whether
/// Ctrl and Alt were held.
#[derive(Debug, Clone, Copy, PartialEq, Eq, Structural)]
pub struct KeyMessage {
    pub key: u8,
    pub ctrl: bool,
    pub alt: bool,
}

impl KeyMessage {
    /// A key press.
    #[allow(non_snake_case)]
    pub fn Key(key: u8, ctrl: bool, alt: bool) -> (r: Self)
        ensures
            r.key == key,
            r.ctrl == ctrl,
            r.alt == alt,
    {
        KeyMessage { key, ctrl, alt }
    }

    /// The keyboard controller's metadata byte: bit 0 for Ctrl, bit 1 for
    /// Alt.
    pub fn metadata(&self) -> (r: u8)
        ensures
            r == (if self.ctrl {
                1u8
            } else {
                0u8
            }) + (if self.alt {
                2u8
            } else {
                0u8
            }),
    {
        (if self.ctrl { 1u8 } else { 0u8 }) + (if self.alt { 2u8 } else { 0u8 })
    }
}

/// What a key press does: quit (Alt+Shift+Q), send a key to the keyboard
/// controller, or nothing (a key with no code).
#[derive(Debug, Clone, Copy, PartialEq, Eq, Structural)]
pub enum KeyAction {
    Quit,
    Send(KeyMessage),
    Ignore,
}

/// What a key press with the given modifiers does.
pub open spec fn key_action_spec(code: KeyCode, ctrl: bool, alt: bool, shift: bool) -> KeyAction {
    if code == KeyCode::Char('Q') && alt && shift {
        KeyAction::Quit
    } else {
        match key_code(code) {
            Some(k) => KeyAction::Send(KeyMessage { key: k, ctrl, alt }),
            None => KeyAction::Ignore,
        }
    }
}

/// What a key press with the given modifiers does, as `key_action_spec`
/// says.
pub fn key_action(code: KeyCode, ctrl: bool, alt: bool, shift: bool) -> (r: KeyAction)
    ensures
        r == key_action_spec(code, ctrl, alt, shift),
{
    let quit = match code {
        KeyCode::Char(c) => c == 'Q',
        _ => false,
    };
    if quit && alt && shift {
        KeyAction::Quit
    } else {
        match key_to_u8(code) {
            Some(k) => KeyAction::Send(KeyMessage::Key(k, ctrl, alt)),
            None => KeyAction::Ignore,
        }
    }
}

} // verus!
