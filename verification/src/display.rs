//! A flat variant of the frame buffer: the 64x32 grid stored row-major in a
//! single vector, with the same XOR blit and erasure detection as the
//! row-per-row screen, plus a conversion to a black-and-white color buffer.

use vstd::prelude::*;

use crate::screen::{bit_of, col_at, col_offset, lemma_bit_of_bound, lemma_cols};
use crate::utils::Chip8Error;

verus! {

/// Width of the display in pixels.
pub const WIDTH: usize = 64;

/// Height of the display in pixels.
pub const HEIGHT: usize = 32;

/// A row-major 64x32 pixel buffer after one 8-pixel sprite row is XOR-ed
/// onto it at `(x, y)`, with both coordinates wrapping.
pub open spec fn flat_blit(scr: Seq<u32>, x: u8, y: u8, byte: u8) -> Seq<u32> {
    Seq::new(
        scr.len(),
        |idx: int|
            if idx / 64 == (y as int) % 32 && col_offset(x, idx % 64) < 8 {
                scr[idx] ^ (bit_of(byte, col_offset(x, idx % 64)) as u32)
            } else {
                scr[idx]
            },
    )
}

/// Whether XOR-ing one sprite row onto the row-major buffer at `(x, y)`
/// erases a lit pixel.
pub open spec fn flat_collision(scr: Seq<u32>, x: u8, y: u8, byte: u8) -> bool {
    exists|k: int|
        0 <= k < 8 && bit_of(byte, k) == 1 && scr[((y as int) % 32) * 64 + col_at(x, k)] == 1
}

/// The XOR facts the flat blit relies on, on 32-bit pixels.
proof fn lemma_xor_props_u32(p: u32, b: u32)
    by (bit_vector)
    ensures
        p <= 1 && b <= 1 ==> p ^ b <= 1,
        p <= 1 && b <= 1 ==> ((p == 1 && p ^ b == 0) <==> (b == 1 && p == 1)),
{
}

/// The frame buffer stored as one row-major vector of pixels.
pub struct Display {
    /// The 2048 pixels, row-major; `1` is lit, `0` is dark.
    pub screen: Vec<u32>,
}

impl View for Display {
    type V = Seq<u32>;

    open spec fn view(&self) -> Seq<u32> {
        self.screen@
    }
}

impl Display {
    /// A display is well formed when it holds exactly the 64x32 grid of
    /// one-bit pixels.
    pub open spec fn wf(&self) -> bool {
        &&& self@.len() == WIDTH * HEIGHT
        &&& forall|i: int| 0 <= i < self@.len() ==> #[trigger] self@[i] <= 1
    }

    /// Creates a display with all pixels dark.
    pub fn new() -> (d: Display)
        ensures
            d.wf(),
            forall|i: int| 0 <= i < WIDTH * HEIGHT ==> #[trigger] d@[i] == 0u32,
    {
        Display { screen: Display::zero_screen() }
    }

    /// A row-major buffer of 2048 dark pixels.
    fn zero_screen() -> (s: Vec<u32>)
        ensures
            s@.len() == WIDTH * HEIGHT,
            forall|i: int| 0 <= i < WIDTH * HEIGHT ==> #[trigger] s@[i] == 0u32,
    {
        let mut s: Vec<u32> = Vec::new();
        while s.len() < WIDTH * HEIGHT
            invariant
                s@.len() <= WIDTH * HEIGHT,
                forall|i: int| 0 <= i < s@.len() ==> #[trigger] s@[i] == 0u32,
            decreases WIDTH * HEIGHT - s@.len(),
        {
            s.push(0);
        }
        s
    }

    /// The row-major position of the pixel in column `x` of row `y`.
    pub fn get_index_from_coords(x: usize, y: usize) -> (idx: usize)
        requires
            x < WIDTH,
            y < HEIGHT,
        ensures
            idx == y * WIDTH + x,
            idx < WIDTH * HEIGHT,
    {
        (y * WIDTH) + x
    }

    /// XORs one 8-pixel sprite row onto the display at `(x, y)`, wrapping
    /// both coordinates, and reports whether any lit pixel was erased.
    pub fn draw_byte(&mut self, x: u8, y: u8, byte: u8) -> (r: Result<bool, Chip8Error>)
        requires
            old(self).wf(),
        ensures
            final(self).wf(),
            final(self)@ == flat_blit(old(self)@, x, y, byte),
            r == Result::<bool, Chip8Error>::Ok(flat_collision(old(self)@, x, y, byte)),
    {
        let xm = (x % 64) as usize;
        let ym = (y % 32) as usize;
        let mut erased = false;
        let mut i: usize = 0;
        while i < 8
            invariant
                i <= 8,
                xm == (x as int) % 64,
                ym == (y as int) % 32,
                old(self).wf(),
                self@.len() == WIDTH * HEIGHT,
                forall|idx: int|
                    0 <= idx < WIDTH * HEIGHT && !(idx / 64 == ym && col_offset(x, idx % 64) < i)
                        ==> #[trigger] self@[idx] == old(self)@[idx],
                forall|idx: int|
                    0 <= idx < WIDTH * HEIGHT && idx / 64 == ym && col_offset(x, idx % 64) < i
                        ==> #[trigger] self@[idx] == old(self)@[idx] ^ (bit_of(
                        byte,
                        col_offset(x, idx % 64),
                    ) as u32),
                erased == exists|k: int|
                    0 <= k < i && bit_of(byte, k) == 1 && old(self)@[ym * 64 + col_at(x, k)] == 1,
            decreases 8 - i,
        {
            proof {
                lemma_cols(x, i as int);
                lemma_bit_of_bound(byte, i as int);
            }
            let c = (xm + i) % 64;
            assert(c == col_at(x, i as int));
            assert(col_offset(x, c as int) == i);
            let index = Display::get_index_from_coords(c, ym);
            assert(index / 64 == ym && index % 64 == c);
            let prev = self.screen[index];
            assert(prev == old(self)@[index as int] && prev <= 1);
            let bit = ((byte >> (7 - i) as u8) & 1) as u32;
            assert(bit == bit_of(byte, i as int) as u32 && bit <= 1);
            let next = prev ^ bit;
            proof {
                lemma_xor_props_u32(prev, bit);
            }
            self.screen[index] = next;
            if prev == 1 && next == 0 {
                erased = true;
                assert(bit_of(byte, i as int) == 1 && old(self)@[ym * 64 + col_at(x, i as int)]
                    == 1);
            } else {
                proof {
                    lemma_xor_props_u32(prev, bit);
                    assert(!(bit_of(byte, i as int) == 1 && old(self)@[ym * 64 + col_at(
                        x,
                        i as int,
                    )] == 1));
                }
            }
            proof {
                assert forall|idx: int|
                    0 <= idx < WIDTH * HEIGHT && !(idx / 64 == ym && col_offset(x, idx % 64) < i
                        + 1) implies #[trigger] self@[idx] == old(self)@[idx] by {
                    assert(idx != index);
                }
                assert(erased == exists|k: int|
                    0 <= k < i + 1 && bit_of(byte, k) == 1 && old(self)@[ym * 64 + col_at(x, k)]
                        == 1) by {
                    if erased {
                        assert(exists|k: int|
                            0 <= k < i + 1 && bit_of(byte, k) == 1 && old(self)@[ym * 64 + col_at(
                                x,
                                k,
                            )] == 1);
                    }
                }
            }
            i += 1;
        }
        proof {
            assert forall|idx: int| 0 <= idx < WIDTH * HEIGHT implies #[trigger] self@[idx] <= 1 by {
                let d = col_offset(x, idx % 64);
                if idx / 64 == ym && d < 8 {
                    lemma_bit_of_bound(byte, d);
                    lemma_xor_props_u32(old(self)@[idx], bit_of(byte, d) as u32);
                }
            }
            assert(self@ =~= flat_blit(old(self)@, x, y, byte));
        }
        Ok(erased)
    }

    /// Resets every pixel to dark.
    pub fn clear(&mut self)
        ensures
            final(self).wf(),
            forall|i: int| 0 <= i < WIDTH * HEIGHT ==> #[trigger] final(self)@[i] == 0u32,
    {
        self.screen = Display::zero_screen();
    }

    /// The pixels as colors: white (`0xffffff`) where a pixel is lit, black
    /// where it is dark.
    pub fn color_screen(&self) -> (colors: Vec<u32>)
        ensures
            colors@.len() == self@.len(),
            forall|i: int|
                0 <= i < self@.len() ==> #[trigger] colors@[i] == (if self@[i] == 1u32 {
                    0xffffffu32
                } else {
                    0u32
                }),
    {
        let mut colors: Vec<u32> = Vec::new();
        let mut i: usize = 0;
        while i < self.screen.len()
            invariant
                i <= self@.len(),
                colors@.len() == i,
                forall|j: int|
                    0 <= j < i ==> #[trigger] colors@[j] == (if self@[j] == 1u32 {
                        0xffffffu32
                    } else {
                        0u32
                    }),
            decreases self@.len() - i,
        {
            if self.screen[i] == 1 {
                colors.push(0xffffff);
            } else {
                colors.push(0);
            }
            i += 1;
        }
        colors
    }
}

} // verus!
