//! The memory of the virtual machine: a flat array of 4096 bytes, bounds
//! checked on every access, whose first 80 bytes hold the built-in
//! hexadecimal font (16 glyphs of 5 rows, one byte per row).

use vstd::prelude::*;

use crate::utils::{oob_read_error, oob_write_error, integer_overflow_error, Chip8Error};

verus! {

/// Number of addressable bytes of memory.
pub const MEMORY_SIZE: usize = 4096;

/// Number of bytes of the built-in font: 16 glyphs of 5 rows each.
pub const FONT_SIZE: usize = 80;

/// The 80 font bytes, glyph by glyph: the 5 rows of the sprite for digit 0,
/// then the 5 rows for digit 1, and so on through digit F. Opcode `FX29`
/// computes glyph addresses against exactly this layout, so the bytes are
/// fixed bit for bit.
pub open spec fn font_data() -> Seq<u8> {
    seq![
        0xF0u8, 0x90, 0x90, 0x90, 0xF0, // 0
        0x20, 0x60, 0x20, 0x20, 0x70, // 1
        0xF0, 0x10, 0xF0, 0x80, 0xF0, // 2
        0xF0, 0x10, 0xF0, 0x10, 0xF0, // 3
        0x90, 0x90, 0xF0, 0x10, 0x10, // 4
        0xF0, 0x80, 0xF0, 0x10, 0xF0, // 5
        0xF0, 0x80, 0xF0, 0x90, 0xF0, // 6
        0xF0, 0x10, 0x20, 0x40, 0x40, // 7
        0xF0, 0x90, 0xF0, 0x90, 0xF0, // 8
        0xF0, 0x90, 0xF0, 0x10, 0xF0, // 9
        0xF0, 0x90, 0xF0, 0x90, 0x90, // A
        0xE0, 0x90, 0xE0, 0x90, 0xE0, // B
        0xF0, 0x80, 0x80, 0x80, 0xF0, // C
        0xE0, 0x90, 0x90, 0x90, 0xE0, // D
        0xF0, 0x80, 0xF0, 0x80, 0xF0, // E
        0xF0, 0x80, 0xF0, 0x80, 0x80, // F
    ]
}

/// The font rows as an executable table.
fn font_table() -> (t: Vec<u8>)
    ensures
        t@ == font_data(),
{
    let mut t: Vec<u8> = Vec::new();
    t.push(0xF0); t.push(0x90); t.push(0x90); t.push(0x90); t.push(0xF0); // 0
    t.push(0x20); t.push(0x60); t.push(0x20); t.push(0x20); t.push(0x70); // 1
    t.push(0xF0); t.push(0x10); t.push(0xF0); t.push(0x80); t.push(0xF0); // 2
    t.push(0xF0); t.push(0x10); t.push(0xF0); t.push(0x10); t.push(0xF0); // 3
    t.push(0x90); t.push(0x90); t.push(0xF0); t.push(0x10); t.push(0x10); // 4
    t.push(0xF0); t.push(0x80); t.push(0xF0); t.push(0x10); t.push(0xF0); // 5
    t.push(0xF0); t.push(0x80); t.push(0xF0); t.push(0x90); t.push(0xF0); // 6
    t.push(0xF0); t.push(0x10); t.push(0x20); t.push(0x40); t.push(0x40); // 7
    t.push(0xF0); t.push(0x90); t.push(0xF0); t.push(0x90); t.push(0xF0); // 8
    t.push(0xF0); t.push(0x90); t.push(0xF0); t.push(0x10); t.push(0xF0); // 9
    t.push(0xF0); t.push(0x90); t.push(0xF0); t.push(0x90); t.push(0x90); // A
    t.push(0xE0); t.push(0x90); t.push(0xE0); t.push(0x90); t.push(0xE0); // B
    t.push(0xF0); t.push(0x80); t.push(0x80); t.push(0x80); t.push(0xF0); // C
    t.push(0xE0); t.push(0x90); t.push(0x90); t.push(0x90); t.push(0xE0); // D
    t.push(0xF0); t.push(0x80); t.push(0xF0); t.push(0x80); t.push(0xF0); // E
    t.push(0xF0); t.push(0x80); t.push(0xF0); t.push(0x80); t.push(0x80); // F
    assert(t@ =~= font_data());
    t
}

/// Round-trip law: writing a byte at any address inside memory and reading
/// the same address back returns exactly that byte. This is the memory
/// model that the contracts of `Ram::write_byte` and `Ram::read_byte`
/// promise.
pub proof fn lemma_write_read_roundtrip(mem: Seq<u8>, address: int, value: u8)
    requires
        mem.len() == MEMORY_SIZE,
        0 <= address < MEMORY_SIZE,
    ensures
        mem.update(address, value)[address] == value,
{
}

/// The memory of the virtual machine.
pub struct Ram {
    /// The 4096 bytes of memory.
    memory: Vec<u8>,
}

impl View for Ram {
    type V = Seq<u8>;

    closed spec fn view(&self) -> Seq<u8> {
        self.memory@
    }
}

impl Ram {
    /// A memory is well formed when it spans exactly the addressable range.
    pub open spec fn wf(&self) -> bool {
        self@.len() == MEMORY_SIZE
    }

    /// Creates the memory: all bytes zero except the font, which occupies
    /// addresses 0 through 79.
    pub fn new() -> (ram: Ram)
        ensures
            ram.wf(),
            forall|k: int| 0 <= k < FONT_SIZE ==> ram@[k] == font_data()[k],
            forall|k: int| FONT_SIZE <= k < MEMORY_SIZE ==> ram@[k] == 0u8,
    {
        let mut memory: Vec<u8> = Vec::new();
        while memory.len() < MEMORY_SIZE
            invariant
                memory@.len() <= MEMORY_SIZE,
                forall|k: int| 0 <= k < memory@.len() ==> memory@[k] == 0u8,
            decreases MEMORY_SIZE - memory@.len(),
        {
            memory.push(0);
        }
        Ram::load_sprites(&mut memory);
        Ram { memory }
    }

    /// Copies the built-in font into the first 80 bytes of `memory`, leaving
    /// the rest untouched.
    fn load_sprites(memory: &mut Vec<u8>)
        requires
            old(memory)@.len() == MEMORY_SIZE,
        ensures
            final(memory)@.len() == MEMORY_SIZE,
            forall|k: int| 0 <= k < FONT_SIZE ==> final(memory)@[k] == font_data()[k],
            forall|k: int| FONT_SIZE <= k < MEMORY_SIZE ==> final(memory)@[k] == old(memory)@[k],
    {
        let font = font_table();
        let mut k: usize = 0;
        while k < FONT_SIZE
            invariant
                k <= FONT_SIZE,
                font@ == font_data(),
                memory@.len() == MEMORY_SIZE,
                forall|j: int| 0 <= j < k ==> memory@[j] == font_data()[j],
                forall|j: int| k <= j < MEMORY_SIZE ==> memory@[j] == old(memory)@[j],
            decreases FONT_SIZE - k,
        {
            memory[k] = font[k];
            k += 1;
        }
    }

    /// Writes `value` at `address`. Succeeds exactly on the addresses inside
    /// memory; an address outside is reported, never truncated.
    pub fn write_byte(&mut self, address: usize, value: u8) -> (r: Result<(), Chip8Error>)
        requires
            old(self).wf(),
        ensures
            final(self).wf(),
            address < MEMORY_SIZE ==> r is Ok && final(self)@ == old(self)@.update(
                address as int,
                value,
            ),
            address >= MEMORY_SIZE ==> final(self)@ == old(self)@ && r == Result::<
                (),
                Chip8Error,
            >::Err(Chip8Error::OutOfBoundsWrite { address, len: 1 }),
    {
        if address < MEMORY_SIZE {
            self.memory[address] = value;
            Ok(())
        } else {
            Err(Chip8Error::OutOfBoundsWrite { address, len: 1 })
        }
    }

    /// Writes all of `buf` starting at `address`. Detects an overflowing
    /// `address + buf.len()` rather than wrapping, and otherwise succeeds
    /// exactly when the whole range lies inside memory.
    pub fn write_bytes(&mut self, address: usize, buf: &[u8]) -> (r: Result<(), Chip8Error>)
        requires
            old(self).wf(),
        ensures
            final(self).wf(),
            address + buf@.len() > usize::MAX ==> final(self)@ == old(self)@ && r == Result::<
                (),
                Chip8Error,
            >::Err(Chip8Error::IntegerOverflow { address, len: buf@.len() as usize }),
            address + buf@.len() <= usize::MAX && address + buf@.len() > MEMORY_SIZE
                ==> final(self)@ == old(self)@ && r == Result::<(), Chip8Error>::Err(
                Chip8Error::OutOfBoundsWrite { address, len: buf@.len() as usize },
            ),
            address + buf@.len() <= MEMORY_SIZE ==> r is Ok && final(self)@ == old(self)@.take(
                address as int,
            ) + buf@ + old(self)@.skip(address + buf@.len()),
    {
        let len = buf.len();
        let end = match address.checked_add(len) {
            Some(end) => end,
            None => {
                return Err(integer_overflow_error(address, len));
            },
        };
        if end > MEMORY_SIZE {
            return Err(oob_write_error(address, buf));
        }
        let mut k: usize = 0;
        while k < len
            invariant
                k <= len,
                len == buf@.len(),
                address + len <= MEMORY_SIZE,
                self@.len() == MEMORY_SIZE,
                forall|j: int| 0 <= j < address ==> self@[j] == old(self)@[j],
                forall|j: int| 0 <= j < k ==> self@[address + j] == buf@[j],
                forall|j: int| address + k <= j < MEMORY_SIZE ==> self@[j] == old(self)@[j],
            decreases len - k,
        {
            self.memory[address + k] = buf[k];
            k += 1;
        }
        proof {
            assert(self@ =~= old(self)@.take(address as int) + buf@ + old(self)@.skip(
                address + buf@.len(),
            ));
        }
        Ok(())
    }

    /// Reads the byte at `address`. Succeeds exactly on the addresses inside
    /// memory.
    pub fn read_byte(&self, address: usize) -> (r: Result<u8, Chip8Error>)
        requires
            self.wf(),
        ensures
            address < MEMORY_SIZE ==> r == Result::<u8, Chip8Error>::Ok(self@[address as int]),
            address >= MEMORY_SIZE ==> r == Result::<u8, Chip8Error>::Err(
                Chip8Error::OutOfBoundsRead { address, size: 1 },
            ),
    {
        if address < MEMORY_SIZE {
            Ok(self.memory[address])
        } else {
            Err(oob_read_error(address, 1))
        }
    }

    /// Reads `size` bytes starting at `address`. Succeeds exactly when the
    /// whole range lies inside memory.
    pub fn read_bytes(&self, address: usize, size: usize) -> (r: Result<Vec<u8>, Chip8Error>)
        requires
            self.wf(),
        ensures
            address + size <= MEMORY_SIZE ==> r is Ok && r->Ok_0@ == self@.subrange(
                address as int,
                address + size,
            ),
            address + size > MEMORY_SIZE ==> r == Result::<Vec<u8>, Chip8Error>::Err(
                Chip8Error::OutOfBoundsRead { address, size },
            ),
    {
        if size <= MEMORY_SIZE && address <= MEMORY_SIZE - size {
            let mut out: Vec<u8> = Vec::new();
            let mut k: usize = 0;
            while k < size
                invariant
                    k <= size,
                    address + size <= MEMORY_SIZE,
                    self@.len() == MEMORY_SIZE,
                    out@ == self@.subrange(address as int, address + k),
                decreases size - k,
            {
                out.push(self.memory[address + k]);
                proof {
                    assert(out@ =~= self@.subrange(address as int, address + k + 1));
                }
                k += 1;
            }
            Ok(out)
        } else {
            Err(oob_read_error(address, size))
        }
    }
}

} // verus!

