//! The error taxonomy of the virtual machine, and the constructors the
//! components use to report a failing operation together with the offending
//! address, length, opcode or key.

use vstd::prelude::*;

verus! {

/// Every way a VM operation can fail. Each variant carries the data that
/// identifies the failing operation; no operation aborts the host process.
#[derive(Clone, Copy, PartialEq, Eq, Structural, Debug)]
pub enum Chip8Error {
    /// A read of `size` bytes starting at `address` fell outside memory.
    OutOfBoundsRead { address: usize, size: usize },
    /// A write of `len` bytes starting at `address` fell outside memory.
    OutOfBoundsWrite { address: usize, len: usize },
    /// `address + len` overflowed the address computation of a bulk write.
    IntegerOverflow { address: usize, len: usize },
    /// A return was executed while the call stack was empty.
    StackUnderflow,
    /// A call was executed while the call stack already held its maximum
    /// number of return addresses.
    StackOverflow,
    /// The fetched instruction word matches no opcode of the instruction set.
    UnrecognizedOpcode { opcode: u16 },
    /// A key-state query named a key outside the sixteen-key keypad.
    InvalidKeyCode { key_code: u8 },
    /// A register block transfer named a range outside the register file.
    InvalidRegisterRange { index: usize },
    /// A display, input or audio backend failed.
    HostAdapter,
}

/// The error reported when writing `value` at `address` falls outside memory.
pub fn oob_write_error(address: usize, value: &[u8]) -> (e: Chip8Error)
    ensures
        e == (Chip8Error::OutOfBoundsWrite { address, len: value@.len() as usize }),
{
    Chip8Error::OutOfBoundsWrite { address, len: value.len() }
}

/// The error reported when reading `size` bytes at `address` falls outside
/// memory.
pub fn oob_read_error(address: usize, size: usize) -> (e: Chip8Error)
    ensures
        e == (Chip8Error::OutOfBoundsRead { address, size }),
{
    Chip8Error::OutOfBoundsRead { address, size }
}

/// The error reported when `val1 + val2` overflows an address computation.
pub fn integer_overflow_error(val1: usize, val2: usize) -> (e: Chip8Error)
    ensures
        e == (Chip8Error::IntegerOverflow { address: val1, len: val2 }),
{
    Chip8Error::IntegerOverflow { address: val1, len: val2 }
}

/// The error reported when a block transfer names registers up to
/// `reg_index`, past the end of the register file.
pub fn register_error(reg_index: usize) -> (e: Chip8Error)
    ensures
        e == (Chip8Error::InvalidRegisterRange { index: reg_index }),
{
    Chip8Error::InvalidRegisterRange { index: reg_index }
}

/// The error reported when a return pops from an empty call stack.
pub fn stack_pop_error() -> (e: Chip8Error)
    ensures
        e == Chip8Error::StackUnderflow,
{
    Chip8Error::StackUnderflow
}

} // verus!
