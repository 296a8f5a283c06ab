//! The bus: the memory, keyboard and display of one machine bundled
//! together with its two timers.

use vstd::prelude::*;

use crate::display::Display;
use crate::keyboard::Keyboard;
use crate::ram::Ram;

verus! {

/// The system components reachable from the interpreter, with the timers.
pub struct Bus {
    /// RAM of the VM.
    pub ram: Ram,
    /// Keyboard component.
    pub keyboard: Keyboard,
    /// Display component.
    pub display: Display,
    /// Delay timer.
    pub delay_timer: u8,
    /// Sound timer.
    pub sound_timer: u8,
}

impl Bus {
    /// A bus is well formed when each of its components is.
    pub open spec fn wf(&self) -> bool {
        &&& self.ram.wf()
        &&& self.keyboard.wf()
        &&& self.display.wf()
    }

    /// Creates a bus with fresh components and stopped timers.
    pub fn new() -> (bus: Bus)
        ensures
            bus.wf(),
            bus.delay_timer == 0,
            bus.sound_timer == 0,
    {
        Bus {
            ram: Ram::new(),
            keyboard: Keyboard::new(),
            display: Display::new(),
            delay_timer: 0,
            sound_timer: 0,
        }
    }

    /// Decrements each running timer by one, stopping at zero.
    pub fn update_timers(&mut self)
        ensures
            final(self).delay_timer == if old(self).delay_timer > 0 {
                (old(self).delay_timer - 1) as u8
            } else {
                0u8
            },
            final(self).sound_timer == if old(self).sound_timer > 0 {
                (old(self).sound_timer - 1) as u8
            } else {
                0u8
            },
            final(self).ram == old(self).ram,
            final(self).keyboard == old(self).keyboard,
            final(self).display == old(self).display,
            old(self).wf() ==> final(self).wf(),
    {
        if self.delay_timer > 0 {
            self.delay_timer -= 1;
        }
        if self.sound_timer > 0 {
            self.sound_timer -= 1;
        }
    }
}

} // verus!
