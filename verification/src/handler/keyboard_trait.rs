//! The keyboard functions a backend must implement.

use vstd::prelude::*;

verus! {

/// Keyboard functions that a handler must implement.
pub trait KeyboardTrait {
    /// Updates `keys_state`, `true` where a key is pressed and `false` where
    /// it is released; returns `false` when the host asks to quit.
    fn update_keys_state(&mut self, keys_state: &mut Vec<bool>) -> bool;
}

} // verus!
