//! Key events as the library sees them.

use vstd::prelude::*;

verus! {

/// A key on the keyboard (the keys that the library tells apart).
#[derive(Debug, Clone, Copy, PartialEq, Eq, Structural)]
pub enum KeyCode {
    Backspace,
    Enter,
    Left,
    Right,
    Up,
    Down,
    Home,
    End,
    PageUp,
    PageDown,
    Tab,
    BackTab,
    Delete,
    Insert,
    F(u8),
    Char(char),
    Null,
    Esc,
    /// Any other key (media, modifier and lock keys, ...).
    Other,
}

} // verus!
