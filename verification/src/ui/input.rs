//! What reaches a view from the keyboard and the mouse.

use vstd::prelude::*;

use crate::canvas::Vec2;

verus! {

/// What the mouse did.
#[derive(Clone, Copy, PartialEq, Eq, Structural, Debug)]
pub enum Mouse {
    /// The left button went down.
    LeftPress,
    WheelUp,
    WheelDown,
    /// Anything else, which no view listens to.
    Other,
}

/// An input event.
#[derive(Clone, Copy, PartialEq, Eq, Structural, Debug)]
pub enum Input {
    Char(char),
    /// A character typed with Alt held.
    AltChar(char),
    Esc,
    Backspace,
    Enter,
    /// The mouse did something at `position`, in a view whose first cell is at `offset`.
    Mouse { offset: Vec2, position: Vec2, event: Mouse },
    /// Anything else, which no view listens to.
    Other,
}

} // verus!
