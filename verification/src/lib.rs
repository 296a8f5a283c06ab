//! A CHIP-8 virtual machine: a 4 KiB byte-addressable memory pre-loaded with a
//! hexadecimal font, a sixteen-register CPU with a bounded call stack, a
//! 64x32 monochrome frame buffer with XOR sprite blitting, a sixteen-key
//! keypad, and a fixed-frequency scheduler that decouples the 60 Hz timers
//! from the instruction rate.

pub mod bus;
pub mod cpu;
pub mod display;
pub mod handler;
pub mod keyboard;
pub mod keypad;
pub mod ram;
pub mod scheduler;
pub mod screen;
pub mod utils;
