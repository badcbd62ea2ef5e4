//! Components for input handling.

use vstd::prelude::*;

verus! {

/// Marks the entity that the keyboard steers.
#[derive(Debug, Clone, Copy, PartialEq, Eq, Structural)]
pub struct Player;

/// Whether the player acted this tick; the AI takes its turn only then.
#[derive(Debug, Clone, Copy, PartialEq, Eq, Structural)]
pub struct InputState {
    pub was_input_handled_this_frame: bool,
}

impl Default for InputState {
    fn default() -> (r: InputState)
        ensures
            !r.was_input_handled_this_frame,
    {
        InputState { was_input_handled_this_frame: false }
    }
}

/// Which of the four arrow keys are held this tick.
#[derive(Debug, Clone, Copy, PartialEq, Eq, Structural)]
pub struct ArrowKeys {
    pub left: bool,
    pub right: bool,
    pub up: bool,
    pub down: bool,
}

/// The offset that the held keys ask for: the first held key in the order
/// left, right, up, down wins.
pub open spec fn key_offset(k: ArrowKeys) -> Option<(int, int)> {
    if k.left {
        Some((-1, 0))
    } else if k.right {
        Some((1, 0))
    } else if k.up {
        Some((0, -1))
    } else if k.down {
        Some((0, 1))
    } else {
        None
    }
}

impl ArrowKeys {
    /// The offset that the held keys ask for, the first held key in the
    /// order left, right, up, down winning.
    pub fn offset(&self) -> (r: Option<(isize, isize)>)
        ensures
            key_offset(*self) == (match r {
                Some(d) => Some((d.0 as int, d.1 as int)),
                None => None,
            }),
    {
        if self.left {
            Some((-1, 0))
        } else if self.right {
            Some((1, 0))
        } else if self.up {
            Some((0, -1))
        } else if self.down {
            Some((0, 1))
        } else {
            None
        }
    }
}

} // verus!
