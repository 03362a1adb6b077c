//! Input events as plain values: the keys and mouse gestures the views
//! react to, independent of the terminal library that delivers them.
use vstd::prelude::*;

verus! {

#[derive(Debug, Clone, Copy, PartialEq, Eq, Structural)]
pub enum Code {
    Char(char),
    Backspace,
    Delete,
    Enter,
    Esc,
    Tab,
    Left,
    Right,
    Up,
    Down,
    Home,
    End,
    PageUp,
    PageDown,
    /// Any key the views do not bind.
    Other,
}

/// Modifier keys held with a key or mouse event.
#[derive(Debug, Clone, Copy, PartialEq, Eq, Structural)]
pub struct Mods {
    pub ctrl: bool,
    pub alt: bool,
}

impl Mods {
    pub fn none() -> (m: Mods)
        ensures
            !m.ctrl && !m.alt,
    {
        Mods { ctrl: false, alt: false }
    }

    pub fn control() -> (m: Mods)
        ensures
            m.ctrl && !m.alt,
    {
        Mods { ctrl: true, alt: false }
    }

    pub fn alt() -> (m: Mods)
        ensures
            !m.ctrl && m.alt,
    {
        Mods { ctrl: false, alt: true }
    }
}

#[derive(Debug, Clone, Copy, PartialEq, Eq, Structural)]
pub struct Key {
    pub code: Code,
    pub mods: Mods,
}

impl Key {
    pub fn new(code: Code, mods: Mods) -> (k: Key)
        ensures
            k.code == code && k.mods == mods,
    {
        Key { code, mods }
    }
}

#[derive(Debug, Clone, Copy, PartialEq, Eq, Structural)]
pub enum Button {
    Left,
    Right,
    Middle,
}

#[derive(Debug, Clone, Copy, PartialEq, Eq, Structural)]
pub enum MouseKind {
    Down(Button),
    Up(Button),
    Drag(Button),
    Moved,
    ScrollUp,
    ScrollDown,
    /// Horizontal wheel and anything else the views ignore.
    Other,
}

/// A mouse event at a screen cell.
#[derive(Debug, Clone, Copy, PartialEq, Eq, Structural)]
pub struct Mouse {
    pub kind: MouseKind,
    pub column: u16,
    pub row: u16,
}

} // verus!
