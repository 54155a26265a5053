//! What the player can press.

use vstd::prelude::*;

verus! {

/// A button press, as far as the game tells presses apart.
#[derive(Debug, Clone, Copy, PartialEq, Eq, Structural)]
pub enum Button {
    /// The primary mouse button: uncover the cell under the pointer.
    MouseLeft,
    /// The key that starts a new game.
    KeyR,
    /// Any other button or key; the game ignores it.
    Other,
}

} // verus!
