//! The frame buffer: a 64x32 grid of one-bit pixels. Sprites are drawn by
//! XOR-ing 8-bit rows onto the grid, with coordinates wrapping at both edges,
//! and a draw reports whether it erased any lit pixel.

use vstd::prelude::*;

use crate::utils::Chip8Error;

verus! {

/// Width of the screen in pixels.
pub const WIDTH: usize = 64;

/// Height of the screen in pixels.
pub const HEIGHT: usize = 32;

/// Bit `k` (leftmost first) of a sprite row byte: bit 0 is the most
/// significant bit and lands leftmost on the screen.
pub open spec fn bit_of(byte: u8, k: int) -> u8 {
    (byte >> ((7 - k) as u8)) & 1
}

/// The column that bit `k` of a sprite row drawn at column `x` lands on:
/// columns wrap at the right edge.
pub open spec fn col_at(x: u8, k: int) -> int {
    ((x as int) % 64 + k) % 64
}

/// The sprite bit index that column `c` receives from a sprite row drawn at
/// column `x` (a value of 8 or more means `c` is outside the sprite row).
pub open spec fn col_offset(x: u8, c: int) -> int {
    (c - (x as int) % 64 + 64) % 64
}

/// A 64-pixel row after a sprite row byte is XOR-ed onto it at column `x`.
pub open spec fn row_blit(row: Seq<u8>, x: u8, byte: u8) -> Seq<u8> {
    Seq::new(
        row.len(),
        |c: int|
            if col_offset(x, c) < 8 {
                row[c] ^ bit_of(byte, col_offset(x, c))
            } else {
                row[c]
            },
    )
}

/// Whether XOR-ing a sprite row byte onto `row` at column `x` erases a lit
/// pixel: some set sprite bit lands on a pixel that is already lit.
pub open spec fn row_collision(row: Seq<u8>, x: u8, byte: u8) -> bool {
    exists|k: int| 0 <= k < 8 && bit_of(byte, k) == 1 && row[col_at(x, k)] == 1
}

/// Bit `k` of a sprite row lands exactly on column `col_at(x, k)` and on no
/// other column.
pub proof fn lemma_cols(x: u8, k: int)
    requires
        0 <= k < 8,
    ensures
        0 <= col_at(x, k) < 64,
        col_offset(x, col_at(x, k)) == k,
        forall|c: int| 0 <= c < 64 && c != col_at(x, k) ==> col_offset(x, c) != k,
{
    let a = (x as int) % 64;
    assert(0 <= a < 64);
    if a + k < 64 {
        assert(col_at(x, k) == a + k);
    } else {
        assert(col_at(x, k) == a + k - 64);
    }
    assert forall|c: int| 0 <= c < 64 && c != col_at(x, k) implies col_offset(x, c) != k by {
        if c - a + 64 < 64 {
            assert(col_offset(x, c) == c - a + 64);
        } else {
            assert(col_offset(x, c) == c - a);
        }
    }
}

/// The XOR facts the blit engine relies on: XOR-ing the same bit twice
/// restores a pixel, one-bit operands stay one-bit, and a lit pixel goes dark
/// exactly when a set bit lands on it.
pub proof fn lemma_xor_props(p: u8, b: u8)
    by (bit_vector)
    ensures
        (p ^ b) ^ b == p,
        p <= 1 && b <= 1 ==> p ^ b <= 1,
        p <= 1 && b <= 1 ==> ((p == 1 && p ^ b == 0) <==> (b == 1 && p == 1)),
        p <= 1 && b == 0 ==> p ^ b == p,
        p <= 1 ==> ((p ^ 1) == 1 <==> p == 0),
{
}

/// Drawing the same sprite row twice at the same position restores the row:
/// XOR-ing the same bits a second time undoes the first draw.
pub proof fn lemma_row_blit_involution(row: Seq<u8>, x: u8, byte: u8)
    requires
        row.len() == 64,
    ensures
        row_blit(row_blit(row, x, byte), x, byte) == row,
{
    let mid = row_blit(row, x, byte);
    assert forall|c: int| 0 <= c < 64 implies row_blit(mid, x, byte)[c] == row[c] by {
        let d = col_offset(x, c);
        if d < 8 {
            lemma_xor_props(row[c], bit_of(byte, d));
        }
    }
    assert(row_blit(mid, x, byte) =~= row);
}

/// After a sprite row is drawn once, drawing it again erases exactly the
/// pixels the first draw lit: the second draw's collision flag is set exactly
/// when some set sprite bit had landed on a dark pixel.
pub proof fn lemma_row_blit_second_collision(row: Seq<u8>, x: u8, byte: u8)
    requires
        row.len() == 64,
        forall|c: int| 0 <= c < 64 ==> row[c] <= 1,
    ensures
        row_collision(row_blit(row, x, byte), x, byte) <==> exists|k: int|
            0 <= k < 8 && bit_of(byte, k) == 1 && row[col_at(x, k)] == 0,
{
    let mid = row_blit(row, x, byte);
    assert forall|k: int|
        0 <= k < 8 && bit_of(byte, k) == 1 implies (mid[col_at(x, k)] == 1 <==> row[col_at(x, k)]
        == 0) by {
        lemma_cols(x, k);
        assert(mid[col_at(x, k)] == row[col_at(x, k)] ^ bit_of(byte, k));
        lemma_xor_props(row[col_at(x, k)], bit_of(byte, k));
    }
    if row_collision(mid, x, byte) {
        let k = choose|k: int| 0 <= k < 8 && bit_of(byte, k) == 1 && mid[col_at(x, k)] == 1;
        assert(bit_of(byte, k) == 1 && row[col_at(x, k)] == 0);
    }
    if exists|k: int| 0 <= k < 8 && bit_of(byte, k) == 1 && row[col_at(x, k)] == 0 {
        let k = choose|k: int| 0 <= k < 8 && bit_of(byte, k) == 1 && row[col_at(x, k)] == 0;
        assert(mid[col_at(x, k)] == 1);
    }
}

/// Every sprite bit is zero or one.
pub proof fn lemma_bit_of_bound(byte: u8, k: int)
    ensures
        0 <= k < 8 ==> bit_of(byte, k) <= 1,
{
    if 0 <= k < 8 {
        let sh = (7 - k) as u8;
        assert((byte >> sh) & 1 <= 1) by (bit_vector);
    }
}

/// The frame buffer, holding one row of pixels per entry.
pub struct Screen {
    /// The rows of the screen, top to bottom; each row holds one byte per
    /// pixel, `1` for lit and `0` for dark.
    pub pixels: Vec<Vec<u8>>,
}

impl View for Screen {
    type V = Seq<Seq<u8>>;

    open spec fn view(&self) -> Seq<Seq<u8>> {
        Seq::new(self.pixels@.len(), |y: int| self.pixels@[y]@)
    }
}

impl Screen {
    /// A screen is well formed when it is a 64x32 grid of one-bit pixels.
    pub open spec fn wf(&self) -> bool {
        &&& self@.len() == HEIGHT
        &&& forall|y: int| 0 <= y < HEIGHT ==> (#[trigger] self@[y]).len() == WIDTH
        &&& forall|y: int, c: int|
            0 <= y < HEIGHT && 0 <= c < WIDTH ==> #[trigger] self@[y][c] <= 1
    }

    /// Creates a screen with all pixels dark.
    pub fn new() -> (screen: Screen)
        ensures
            screen.wf(),
            forall|y: int, c: int|
                0 <= y < HEIGHT && 0 <= c < WIDTH ==> #[trigger] screen@[y][c] == 0u8,
    {
        Screen { pixels: Screen::zero_grid() }
    }

    /// A row of 64 dark pixels.
    fn zero_row() -> (row: Vec<u8>)
        ensures
            row@.len() == WIDTH,
            forall|c: int| 0 <= c < WIDTH ==> row@[c] == 0u8,
    {
        let mut row: Vec<u8> = Vec::new();
        while row.len() < WIDTH
            invariant
                row@.len() <= WIDTH,
                forall|c: int| 0 <= c < row@.len() ==> row@[c] == 0u8,
            decreases WIDTH - row@.len(),
        {
            row.push(0);
        }
        row
    }

    /// A 64x32 grid of dark pixels.
    fn zero_grid() -> (g: Vec<Vec<u8>>)
        ensures
            g@.len() == HEIGHT,
            forall|y: int| 0 <= y < HEIGHT ==> (#[trigger] g@[y])@.len() == WIDTH,
            forall|y: int, c: int|
                0 <= y < HEIGHT && 0 <= c < WIDTH ==> #[trigger] g@[y]@[c] == 0u8,
    {
        let mut g: Vec<Vec<u8>> = Vec::new();
        while g.len() < HEIGHT
            invariant
                g@.len() <= HEIGHT,
                forall|y: int| 0 <= y < g@.len() ==> (#[trigger] g@[y])@.len() == WIDTH,
                forall|y: int, c: int|
                    0 <= y < g@.len() && 0 <= c < WIDTH ==> #[trigger] g@[y]@[c] == 0u8,
            decreases HEIGHT - g@.len(),
        {
            g.push(Screen::zero_row());
        }
        g
    }

    /// XORs one 8-pixel sprite row onto the screen at `(x, y)`, wrapping both
    /// coordinates, and reports whether any lit pixel was erased (so the CPU
    /// can set VF).
    pub fn draw_byte(&mut self, x: u8, y: u8, byte: u8) -> (r: Result<bool, Chip8Error>)
        requires
            old(self).wf(),
        ensures
            final(self).wf(),
            final(self)@ == old(self)@.update(
                (y as int) % 32,
                row_blit(old(self)@[(y as int) % 32], x, byte),
            ),
            r == Result::<bool, Chip8Error>::Ok(
                row_collision(old(self)@[(y as int) % 32], x, byte),
            ),
    {
        let xm = (x % 64) as usize;
        let ym = (y % 32) as usize;
        let ghost row0 = old(self)@[ym as int];
        let mut erased = false;
        let mut i: usize = 0;
        while i < 8
            invariant
                i <= 8,
                xm == (x as int) % 64,
                ym == (y as int) % 32,
                row0 == old(self)@[ym as int],
                old(self).wf(),
                self@.len() == HEIGHT,
                forall|yy: int| 0 <= yy < HEIGHT && yy != ym ==> self@[yy] == old(self)@[yy],
                self@[ym as int].len() == WIDTH,
                forall|c: int|
                    0 <= c < WIDTH && col_offset(x, c) < i ==> #[trigger] self@[ym as int][c]
                        == row0[c] ^ bit_of(byte, col_offset(x, c)),
                forall|c: int|
                    0 <= c < WIDTH && col_offset(x, c) >= i ==> #[trigger] self@[ym as int][c]
                        == row0[c],
                erased == exists|k: int|
                    0 <= k < i && bit_of(byte, k) == 1 && row0[col_at(x, k)] == 1,
            decreases 8 - i,
        {
            proof {
                lemma_cols(x, i as int);
                lemma_bit_of_bound(byte, i as int);
            }
            let c = (xm + i) % 64;
            assert(c == col_at(x, i as int));
            assert(col_offset(x, c as int) == i);
            let prev = self.pixels[ym][c];
            assert(prev == row0[c as int]);
            assert(prev <= 1);
            let bit = (byte >> (7 - i) as u8) & 1;
            assert(bit == bit_of(byte, i as int));
            let next = prev ^ bit;
            proof {
                lemma_xor_props(prev, bit);
            }
            self.pixels[ym][c] = next;
            if prev == 1 && next == 0 {
                erased = true;
                assert(bit_of(byte, i as int) == 1 && row0[col_at(x, i as int)] == 1);
            } else {
                proof {
                    lemma_xor_props(prev, bit);
                    assert(!(bit_of(byte, i as int) == 1 && row0[col_at(x, i as int)] == 1));
                }
            }
            proof {
                assert forall|c2: int|
                    0 <= c2 < WIDTH && col_offset(x, c2) >= i + 1 implies #[trigger] self@[ym as int][c2]
                    == row0[c2] by {}
                assert(erased == exists|k: int|
                    0 <= k < i + 1 && bit_of(byte, k) == 1 && row0[col_at(x, k)] == 1) by {
                    if erased {
                        assert(exists|k: int|
                            0 <= k < i + 1 && bit_of(byte, k) == 1 && row0[col_at(x, k)] == 1);
                    }
                }
            }
            i += 1;
        }
        proof {
            assert forall|c: int| 0 <= c < WIDTH implies #[trigger] self@[ym as int][c] <= 1 by {
                let d = col_offset(x, c);
                if d < 8 {
                    lemma_bit_of_bound(byte, d);
                    lemma_xor_props(row0[c], bit_of(byte, d));
                }
            }
            assert(self@[ym as int] =~= row_blit(row0, x, byte));
            assert(self@ =~= old(self)@.update((y as int) % 32, row_blit(row0, x, byte)));
        }
        Ok(erased)
    }

    /// Resets every pixel to dark.
    pub fn clear(&mut self)
        ensures
            final(self).wf(),
            forall|y: int, c: int|
                0 <= y < HEIGHT && 0 <= c < WIDTH ==> #[trigger] final(self)@[y][c] == 0u8,
    {
        self.pixels = Screen::zero_grid();
    }
}

} // verus!
