//! The sound functions a backend must implement.

use vstd::prelude::*;

verus! {

/// Sound functions that a handler must implement.
pub trait SoundTrait {
    /// Plays a beep sound.
    fn play_beep(&self);

    /// Stops the beep sound.
    fn stop_beep(&self);
}

} // verus!
