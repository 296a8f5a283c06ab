//! The keypad interface a backend must implement, and the bounds-checked
//! queries shared by its implementations.

use vstd::prelude::*;

use crate::utils::Chip8Error;

verus! {

/// The number of keys of the keypad.
pub const KEYBOARD_SIZE: usize = 16;

/// Keypad functions that a handler must implement.
pub trait KeypadTrait {
    /// Polls the host for key events; returns `false` when the host asks to
    /// quit.
    fn update_keys_state(&mut self) -> bool;

    /// Whether key `key_code` is pressed.
    fn is_key_pressed(&self, key_code: u8) -> Result<bool, Chip8Error>;

    /// The lowest-numbered pressed key, if any.
    fn first_pressed_key(&self) -> Option<u8>;
}

/// Whether key `key_code` is pressed in `keys_state`. Succeeds exactly on
/// the key codes inside the state.
pub fn is_key_pressed(keys_state: &[bool], key_code: u8) -> (r: Result<bool, Chip8Error>)
    ensures
        (key_code as int) < keys_state@.len() ==> r == Result::<bool, Chip8Error>::Ok(
            keys_state@[key_code as int],
        ),
        (key_code as int) >= keys_state@.len() ==> r == Result::<bool, Chip8Error>::Err(
            Chip8Error::InvalidKeyCode { key_code },
        ),
{
    if (key_code as usize) < keys_state.len() {
        Ok(keys_state[key_code as usize])
    } else {
        Err(Chip8Error::InvalidKeyCode { key_code })
    }
}

/// The lowest-numbered pressed key in `keys_state`, or `None` when no key is
/// pressed.
pub fn first_pressed_key(keys_state: &[bool]) -> (r: Option<u8>)
    requires
        keys_state@.len() <= 256,
    ensures
        match r {
            Some(k) => (k as int) < keys_state@.len() && keys_state@[k as int] && forall|j: int|
                0 <= j < k ==> !keys_state@[j],
            None => forall|j: int| 0 <= j < keys_state@.len() ==> !keys_state@[j],
        },
{
    let mut i: usize = 0;
    while i < keys_state.len()
        invariant
            i <= keys_state@.len(),
            keys_state@.len() <= 256,
            forall|j: int| 0 <= j < i ==> !keys_state@[j],
        decreases keys_state@.len() - i,
    {
        if keys_state[i] {
            return Some(i as u8);
        }
        i += 1;
    }
    None
}

} // verus!
