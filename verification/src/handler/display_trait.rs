//! The display functions a backend must implement.

use vstd::prelude::*;

use crate::utils::Chip8Error;

verus! {

/// Display functions that a handler must implement.
pub trait DisplayTrait {
    /// Updates the screen to display new changes.
    fn update(&mut self, pixels: &Vec<Vec<u8>>) -> Result<(), Chip8Error>;

    /// Draws the `pixels` to the active window or canvas, without refreshing
    /// the screen.
    fn draw(&mut self, pixels: &Vec<Vec<u8>>) -> Result<(), Chip8Error>;
}

} // verus!
