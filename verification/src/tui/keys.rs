//! The keys the terminal front end reacts to.

use vstd::prelude::*;

verus! {

/// A key press, as the screens see it.
#[derive(Clone, Copy, Debug, PartialEq, Eq, Structural)]
pub enum Key {
    Char(char),
    Backspace,
    Delete,
    Tab,
    BackTab,
    Enter,
    Esc,
    Up,
    Down,
    Left,
    Right,
    /// Any other key.
    Other,
}

} // verus!
