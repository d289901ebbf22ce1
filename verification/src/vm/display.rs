//! The display controller: what a write to display memory asks of the
//! terminal.
use vstd::prelude::*;
use crate::vm::keys::{char_code, key_code, KeyCode};

verus! {

/// A command for the terminal: a cell's character, foreground or background
/// colour, or the processor's halt.
#[derive(Debug, Clone, Copy, PartialEq, Eq, Structural)]
pub enum UICommand {
    SetChar { row: u16, col: u16, character: char },
    SetFg { row: u16, col: u16, r: u8, g: u8, b: u8 },
    SetBg { row: u16, col: u16, r: u8, g: u8, b: u8 },
    CPUHalted,
}

/// The character of a code in the Simulatron character set, where it is
/// printable: 31 is `£`, 32 to 126 are ASCII, 127 is `¬`.
pub open spec fn printable(b: u8) -> Option<char> {
    if b == 31 {
        Some(0xA3 as char)
    } else if 32 <= b <= 126 {
        Some(b as char)
    } else if b == 127 {
        Some(0xAC as char)
    } else {
        None
    }
}

/// The printable character of a code, as `printable` says.
pub fn u8_to_printable_char(byte: u8) -> (r: Option<char>)
    ensures
        r == printable(byte),
{
    if byte == 31 {
        Some('\u{a3}')
    } else if 32 <= byte && byte <= 126 {
        Some(byte as char)
    } else if byte == 127 {
        Some('\u{ac}')
    } else {
        None
    }
}

/// A two-bit colour component as a byte: 0, 85, 170 or 255.
pub open spec fn quantised(raw: u8) -> u8 {
    (raw * 85) as u8
}

/// The red, green and blue of a colour byte: bits 5-4, 3-2 and 1-0, each
/// quantised.
pub open spec fn rgb_spec(raw: u8) -> (u8, u8, u8) {
    (quantised((raw / 16) % 4), quantised((raw / 4) % 4), quantised(raw % 4))
}

/// The red, green and blue of a colour byte, as `rgb_spec` says.
pub fn rgb(raw_byte: u8) -> (r: (u8, u8, u8))
    ensures
        r == rgb_spec(raw_byte),
{
    let r = (raw_byte / 16) % 4;
    let g = (raw_byte / 4) % 4;
    let b = raw_byte % 4;
    (r * 85, g * 85, b * 85)
}

/// What a write of `value` to display memory at `address` asks: below 2000
/// the character of cell `address` (where printable), below 4000 the
/// foreground and below 6000 the background colour of cell `address - 2000`
/// or `address - 4000`; the cells are in rows of 80.
pub open spec fn store_spec(address: u32, value: u8) -> Option<UICommand> {
    if address < 2000 {
        match printable(value) {
            Some(c) => Some(UICommand::SetChar { row: (address / 80) as u16, col: (address % 80) as u16, character: c }),
            None => None,
        }
    } else if address < 4000 {
        let cell = address - 2000;
        let (r, g, b) = rgb_spec(value);
        Some(UICommand::SetFg { row: (cell / 80) as u16, col: (cell % 80) as u16, r, g, b })
    } else {
        let cell = address - 4000;
        let (r, g, b) = rgb_spec(value);
        Some(UICommand::SetBg { row: (cell / 80) as u16, col: (cell % 80) as u16, r, g, b })
    }
}

/// The display controller.
#[derive(Debug)]
pub struct DisplayController {}

impl DisplayController {
    /// A display controller.
    pub fn new() -> (r: Self) {
        DisplayController {}
    }

    /// The command for a write to display memory, as `store_spec` says.
    pub fn store(&self, address: u32, value: u8) -> (r: Option<UICommand>)
        requires
            address < 6000,
        ensures
            r == store_spec(address, value),
    {
        if address < 2000 {
            match u8_to_printable_char(value) {
                Some(character) => Some(UICommand::SetChar { row: (address / 80) as u16, col: (address % 80) as u16, character }),
                None => None,
            }
        } else if address < 4000 {
            let cell = address - 2000;
            let (r, g, b) = rgb(value);
            Some(UICommand::SetFg { row: (cell / 80) as u16, col: (cell % 80) as u16, r, g, b })
        } else {
            let cell = address - 4000;
            let (r, g, b) = rgb(value);
            Some(UICommand::SetBg { row: (cell / 80) as u16, col: (cell % 80) as u16, r, g, b })
        }
    }
}

/// The keyboard and the display share one character set: a printable code
/// is the code of its character's key, and a character key's code prints
/// as that character.
pub proof fn lemma_character_set(b: u8, c: char)
    ensures
        printable(b) == Some(c) ==> key_code(KeyCode::Char(c)) == Some(b),
        key_code(KeyCode::Char(c)) == Some(b) ==> printable(b) == Some(c),
{
    assert(char_code(c) == key_code(KeyCode::Char(c)));
}

} // verus!
