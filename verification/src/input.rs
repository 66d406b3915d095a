//! What the keyboard and the mouse do.

use vstd::prelude::*;

verus! {

/// A key.
#[derive(Clone, Copy, Debug, PartialEq, Eq, Structural)]
pub enum KeyCode {
    Backspace,
    Enter,
    Left,
    Right,
    Up,
    Down,
    Home,
    End,
    PageUp,
    PageDown,
    Tab,
    Delete,
    Function(u8),
    Char(char),
    Esc,
    Other,
}

/// A key that was pressed, and what was held with it.
#[derive(Clone, Copy, Debug, PartialEq, Eq, Structural)]
pub struct KeyEvent {
    pub code: KeyCode,
    pub control: bool,
    pub alt: bool,
    pub shift: bool,
}

/// What the mouse did.
#[derive(Clone, Copy, Debug, PartialEq, Eq, Structural)]
pub enum MouseKind {
    /// The left button went down.
    Press,
    ScrollUp,
    ScrollDown,
    Other,
}

/// What the mouse did, and where.
#[derive(Clone, Copy, Debug, PartialEq, Eq, Structural)]
pub struct MouseEvent {
    pub kind: MouseKind,
    pub column: u16,
    pub row: u16,
}

/// How many rows a turn of the wheel scrolls.
pub const WHEEL_ROWS: i16 = 3;

/// How far the wheel scrolls, if it was the wheel.
pub open spec fn wheel_delta(kind: MouseKind) -> Option<i16> {
    match kind {
        MouseKind::ScrollUp => Some((-WHEEL_ROWS) as i16),
        MouseKind::ScrollDown => Some(WHEEL_ROWS),
        _ => None,
    }
}

/// How far the wheel scrolls, if it was the wheel.
pub fn wheel(kind: MouseKind) -> (delta: Option<i16>)
    ensures
        delta == wheel_delta(kind),
{
    match kind {
        MouseKind::ScrollUp => Some(-WHEEL_ROWS),
        MouseKind::ScrollDown => Some(WHEEL_ROWS),
        _ => None,
    }
}

/// The wheel scrolls up and down by as much, and nothing else of the mouse
/// scrolls.
pub proof fn the_wheel_turns_both_ways()
    ensures
        wheel_delta(MouseKind::ScrollUp) matches Some(up) && up < 0 && wheel_delta(
            MouseKind::ScrollDown,
        ) == Some((-up) as i16),
        forall|kind: MouseKind|
            (#[trigger] wheel_delta(kind)) is Some ==> kind == MouseKind::ScrollUp || kind
                == MouseKind::ScrollDown,
{
}

} // verus!
