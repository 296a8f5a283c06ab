//! The input state: sixteen key flags, written by the host input adapter and
//! read by the interpreter through bounds-checked queries.

use vstd::prelude::*;

use crate::utils::Chip8Error;

verus! {

/// The number of keys of the keypad.
pub const KEYBOARD_SIZE: usize = 16;

/// The lowest-numbered pressed key of `keys`, assuming some key is pressed.
pub open spec fn first_key(keys: Seq<bool>) -> int {
    choose|k: int| 0 <= k < keys.len() && keys[k] && forall|j: int| 0 <= j < k ==> !keys[j]
}

/// The lowest-numbered pressed key is unique: any key that is pressed while
/// all keys below it are released is `first_key`.
pub proof fn lemma_first_key(keys: Seq<bool>, k: int)
    requires
        0 <= k < keys.len(),
        keys[k],
        forall|j: int| 0 <= j < k ==> !keys[j],
    ensures
        first_key(keys) == k,
{
    let k2 = first_key(keys);
    assert(0 <= k2 < keys.len() && keys[k2] && forall|j: int| 0 <= j < k2 ==> !keys[j]);
}

/// The state of the sixteen-key keypad.
pub struct Keypad {
    /// One flag per key: `true` while the key is pressed.
    pub keys_state: Vec<bool>,
}

impl View for Keypad {
    type V = Seq<bool>;

    open spec fn view(&self) -> Seq<bool> {
        self.keys_state@
    }
}

impl Keypad {
    /// A keypad is well formed when it holds exactly one flag per key.
    pub open spec fn wf(&self) -> bool {
        self@.len() == KEYBOARD_SIZE
    }

    /// Creates a keypad with every key released.
    pub fn new() -> (keypad: Keypad)
        ensures
            keypad.wf(),
            forall|k: int| 0 <= k < KEYBOARD_SIZE ==> !(#[trigger] keypad@[k]),
    {
        let mut keys_state: Vec<bool> = Vec::new();
        while keys_state.len() < KEYBOARD_SIZE
            invariant
                keys_state@.len() <= KEYBOARD_SIZE,
                forall|k: int| 0 <= k < keys_state@.len() ==> !(#[trigger] keys_state@[k]),
            decreases KEYBOARD_SIZE - keys_state@.len(),
        {
            keys_state.push(false);
        }
        Keypad { keys_state }
    }

    /// Whether key `key_code` is pressed. Succeeds exactly on the sixteen
    /// valid key codes.
    pub fn is_key_pressed(&self, key_code: u8) -> (r: Result<bool, Chip8Error>)
        requires
            self.wf(),
        ensures
            key_code < KEYBOARD_SIZE ==> r == Result::<bool, Chip8Error>::Ok(
                self@[key_code as int],
            ),
            key_code >= KEYBOARD_SIZE ==> r == Result::<bool, Chip8Error>::Err(
                Chip8Error::InvalidKeyCode { key_code },
            ),
    {
        if (key_code as usize) < KEYBOARD_SIZE {
            Ok(self.keys_state[key_code as usize])
        } else {
            Err(Chip8Error::InvalidKeyCode { key_code })
        }
    }

    /// The lowest-numbered pressed key, or `None` when no key is pressed.
    pub fn first_pressed_key(&self) -> (r: Option<u8>)
        requires
            self.wf(),
        ensures
            match r {
                Some(k) => k < KEYBOARD_SIZE && self@[k as int] && forall|j: int|
                    0 <= j < k ==> !self@[j],
                None => forall|j: int| 0 <= j < KEYBOARD_SIZE ==> !self@[j],
            },
    {
        let mut i: usize = 0;
        while i < KEYBOARD_SIZE
            invariant
                i <= KEYBOARD_SIZE,
                self.wf(),
                forall|j: int| 0 <= j < i ==> !self@[j],
            decreases KEYBOARD_SIZE - i,
        {
            if self.keys_state[i] {
                return Some(i as u8);
            }
            i += 1;
        }
        None
    }
}

} // verus!
