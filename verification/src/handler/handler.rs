//! The handler: one display, one keyboard and one sound adapter bundled
//! together, and the choice of backend they are built from.

use vstd::prelude::*;

use crate::handler::display_trait::DisplayTrait;
use crate::handler::keyboard_trait::KeyboardTrait;
use crate::handler::sound_trait::SoundTrait;

verus! {

/// The display, keyboard and sound adapters of one backend.
pub struct Handler<K: KeyboardTrait, D: DisplayTrait, S: SoundTrait> {
    /// Keyboard component.
    pub keyboard: K,
    /// Display component.
    pub display: D,
    /// Sound component.
    pub sound: S,
}

/// The backends a handler can be built from.
#[derive(Clone, Copy, Debug)]
pub enum HandlerType {
    MINIFB,
    SDL,
}

} // verus!
