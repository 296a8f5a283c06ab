//! The host-side capability interfaces: display, keyboard, keypad and sound
//! adapters that a backend implements, and the handler that bundles one of
//! each.

pub mod display_trait;
pub mod handler;
pub mod keyboard_trait;
pub mod keypad;
pub mod sound_trait;

pub use handler::{Handler, HandlerType};
