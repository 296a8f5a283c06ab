//! The keyboard component: maps host keys to the sixteen keypad codes and
//! folds press and release events into the key flags.

use vstd::prelude::*;

use crate::keypad::KEYBOARD_SIZE;
use crate::utils::Chip8Error;

verus! {

/// The keypad code that the host key `key` maps to. The sixteen keys of the
/// keypad sit on the `1234` / `qwer` / `asdf` / `zxcv` block; every other key
/// maps to 0, which the state update ignores.
pub open spec fn key_code_of(key: char) -> u8 {
    if key == '1' {
        0x1
    } else if key == '2' {
        0x2
    } else if key == '3' {
        0x3
    } else if key == '4' {
        0xC
    } else if key == 'q' {
        0x4
    } else if key == 'w' {
        0x5
    } else if key == 'e' {
        0x6
    } else if key == 'r' {
        0xD
    } else if key == 'a' {
        0x7
    } else if key == 's' {
        0x8
    } else if key == 'd' {
        0x9
    } else if key == 'f' {
        0xE
    } else if key == 'z' {
        0xA
    } else if key == 'x' {
        0x0
    } else if key == 'c' {
        0xB
    } else if key == 'v' {
        0xF
    } else {
        0x0
    }
}

/// The key flags after the events of one poll are folded in: every key that
/// some release event names is released, every key that only press events
/// name is pressed, and all other keys keep their state. Key 0 is never
/// touched, since unmapped host keys share its code.
pub open spec fn keys_after(keys: Seq<bool>, pressed: Seq<char>, released: Seq<char>) -> Seq<
    bool,
> {
    Seq::new(
        keys.len(),
        |j: int|
            if j != 0 && (exists|m: int|
                0 <= m < released.len() && key_code_of(released[m]) as int == j) {
                false
            } else if j != 0 && (exists|m: int|
                0 <= m < pressed.len() && key_code_of(pressed[m]) as int == j) {
                true
            } else {
                keys[j]
            },
    )
}

/// The keyboard component, holding the state of the sixteen keypad keys.
pub struct Keyboard {
    /// One flag per key: `true` while the key is pressed.
    pub keys_state: Vec<bool>,
}

impl View for Keyboard {
    type V = Seq<bool>;

    open spec fn view(&self) -> Seq<bool> {
        self.keys_state@
    }
}

impl Keyboard {
    /// A keyboard is well formed when it holds exactly one flag per key.
    pub open spec fn wf(&self) -> bool {
        self@.len() == KEYBOARD_SIZE
    }

    /// Creates a keyboard with every key released.
    pub fn new() -> (keyboard: Keyboard)
        ensures
            keyboard.wf(),
            forall|k: int| 0 <= k < KEYBOARD_SIZE ==> !(#[trigger] keyboard@[k]),
    {
        let mut keys_state: Vec<bool> = Vec::new();
        while keys_state.len() < KEYBOARD_SIZE
            invariant
                keys_state@.len() <= KEYBOARD_SIZE,
                forall|k: int| 0 <= k < keys_state@.len() ==> !(#[trigger] keys_state@[k]),
            decreases KEYBOARD_SIZE - keys_state@.len(),
        {
            keys_state.push(false);
        }
        Keyboard { keys_state }
    }

    /// Whether key `key_code` is pressed. Succeeds exactly on the sixteen
    /// valid key codes.
    pub fn is_key_pressed(&self, key_code: u8) -> (r: Result<bool, Chip8Error>)
        requires
            self.wf(),
        ensures
            key_code < KEYBOARD_SIZE ==> r == Result::<bool, Chip8Error>::Ok(
                self@[key_code as int],
            ),
            key_code >= KEYBOARD_SIZE ==> r == Result::<bool, Chip8Error>::Err(
                Chip8Error::InvalidKeyCode { key_code },
            ),
    {
        if (key_code as usize) < KEYBOARD_SIZE {
            Ok(self.keys_state[key_code as usize])
        } else {
            Err(Chip8Error::InvalidKeyCode { key_code })
        }
    }

    /// Maps one host key to its keypad code.
    pub fn convert_keycode(key: char) -> (code: u8)
        ensures
            code == key_code_of(key),
            code < KEYBOARD_SIZE,
    {
        match key {
            '1' => 0x1,
            '2' => 0x2,
            '3' => 0x3,
            '4' => 0xC,
            'q' => 0x4,
            'w' => 0x5,
            'e' => 0x6,
            'r' => 0xD,
            'a' => 0x7,
            's' => 0x8,
            'd' => 0x9,
            'f' => 0xE,
            'z' => 0xA,
            'x' => 0x0,
            'c' => 0xB,
            'v' => 0xF,
            _ => 0x0,
        }
    }

    /// Folds one poll of host key events into the key flags: the keys named
    /// by `pressed` are set, then the keys named by `released` are cleared,
    /// so a key that occurs in both ends up released.
    pub fn update_keys_state(&mut self, pressed: &Vec<char>, released: &Vec<char>)
        requires
            old(self).wf(),
        ensures
            final(self).wf(),
            final(self)@ == keys_after(old(self)@, pressed@, released@),
    {
        let ghost keys0 = old(self)@;
        let mut m: usize = 0;
        while m < pressed.len()
            invariant
                m <= pressed@.len(),
                self@.len() == KEYBOARD_SIZE,
                forall|j: int|
                    0 <= j < KEYBOARD_SIZE ==> #[trigger] self@[j] == if j != 0 && (exists|m2: int|
                        0 <= m2 < m && key_code_of(pressed@[m2]) as int == j) {
                        true
                    } else {
                        keys0[j]
                    },
            decreases pressed@.len() - m,
        {
            let k = Keyboard::convert_keycode(pressed[m]);
            if k != 0 {
                self.keys_state[k as usize] = true;
            }
            proof {
                assert forall|j: int| 0 <= j < KEYBOARD_SIZE implies #[trigger] self@[j] == (if j
                    != 0 && (exists|m2: int|
                    0 <= m2 < m + 1 && key_code_of(pressed@[m2]) as int == j) {
                    true
                } else {
                    keys0[j]
                }) by {
                    if j != 0 && (exists|m2: int|
                        0 <= m2 < m + 1 && key_code_of(pressed@[m2]) as int == j) && !(exists|
                        m2: int,
                    | 0 <= m2 < m && key_code_of(pressed@[m2]) as int == j) {
                        assert(key_code_of(pressed@[m as int]) as int == j);
                    }
                }
            }
            m += 1;
        }
        let ghost keys1 = self@;
        let mut m: usize = 0;
        while m < released.len()
            invariant
                m <= released@.len(),
                self@.len() == KEYBOARD_SIZE,
                forall|j: int|
                    0 <= j < KEYBOARD_SIZE ==> #[trigger] self@[j] == if j != 0 && (exists|m2: int|
                        0 <= m2 < m && key_code_of(released@[m2]) as int == j) {
                        false
                    } else {
                        keys1[j]
                    },
            decreases released@.len() - m,
        {
            let k = Keyboard::convert_keycode(released[m]);
            if k != 0 {
                self.keys_state[k as usize] = false;
            }
            proof {
                assert forall|j: int| 0 <= j < KEYBOARD_SIZE implies #[trigger] self@[j] == (if j
                    != 0 && (exists|m2: int|
                    0 <= m2 < m + 1 && key_code_of(released@[m2]) as int == j) {
                    false
                } else {
                    keys1[j]
                }) by {
                    if j != 0 && (exists|m2: int|
                        0 <= m2 < m + 1 && key_code_of(released@[m2]) as int == j) && !(exists|
                        m2: int,
                    | 0 <= m2 < m && key_code_of(released@[m2]) as int == j) {
                        assert(key_code_of(released@[m as int]) as int == j);
                    }
                }
            }
            m += 1;
        }
        proof {
            assert(self@ =~= keys_after(keys0, pressed@, released@));
        }
    }
}

} // verus!
