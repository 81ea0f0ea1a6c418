//! Keys and mouse events.
use vstd::prelude::*;

verus! {

/// A key.
#[derive(Copy, Clone, Debug, PartialEq, Eq, Structural)]
pub enum KeyCode {
    Char(char),
    Tab,
    BackTab,
    Esc,
    Backspace,
    Enter,
    Up,
    Down,
    Left,
    Right,
    Home,
    End,
    /// Any key that nothing is bound to.
    Other,
}

/// The bit of the control key.
pub const CONTROL_BIT: u8 = 2;

/// Modifier keys held down, one bit for each.
#[derive(Copy, Clone, Debug, PartialEq, Eq, Structural)]
pub struct KeyModifiers {
    pub bits: u8,
}

impl KeyModifiers {
    /// No modifier.
    pub fn none() -> (r: KeyModifiers)
        ensures
            r.bits == 0,
    {
        KeyModifiers { bits: 0 }
    }

    /// The control key.
    pub fn control() -> (r: KeyModifiers)
        ensures
            r.bits == CONTROL_BIT,
    {
        KeyModifiers { bits: CONTROL_BIT }
    }

    /// All modifiers of `other` are held down.
    pub open spec fn includes(self, other: KeyModifiers) -> bool {
        self.bits & other.bits == other.bits
    }

    /// Whether all modifiers of `other` are held down.
    pub fn contains(&self, other: KeyModifiers) -> (r: bool)
        ensures
            r == self.includes(other),
    {
        self.bits & other.bits == other.bits
    }
}

/// A key pressed, with the modifiers held down.
#[derive(Copy, Clone, Debug, PartialEq, Eq, Structural)]
pub struct KeyEvent {
    pub code: KeyCode,
    pub modifiers: KeyModifiers,
}

impl KeyEvent {
    pub fn new(code: KeyCode, modifiers: KeyModifiers) -> (r: KeyEvent)
        ensures
            r == (KeyEvent { code, modifiers }),
    {
        KeyEvent { code, modifiers }
    }
}

/// What the mouse did.
#[derive(Copy, Clone, Debug, PartialEq, Eq, Structural)]
pub enum MouseEventKind {
    ScrollDown,
    ScrollUp,
    /// Anything that nothing is bound to.
    Other,
}

/// Something the mouse did, where, and with which modifiers held down.
#[derive(Copy, Clone, Debug, PartialEq, Eq, Structural)]
pub struct MouseEvent {
    pub kind: MouseEventKind,
    pub column: u16,
    pub row: u16,
    pub modifiers: KeyModifiers,
}

/// Something that the dashboard waits for.
#[derive(Copy, Clone, Debug, PartialEq, Eq, Structural)]
pub enum Event {
    Key(KeyEvent),
    Mouse(MouseEvent),
    /// Anything else that the terminal reports.
    Other,
    /// Nothing happened until it was time for a refresh.
    Timeout,
}

} // verus!
