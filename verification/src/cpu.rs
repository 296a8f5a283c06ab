//! The CPU: sixteen 8-bit registers, the address register I, the program
//! counter, a bounded call stack and the two timers, together with the
//! fetch-decode-execute step. The whole step is specified by the `step`
//! relation: for every fetched word it pins down the next machine state, the
//! screen and memory effects, and exactly which inputs produce which error.

use vstd::prelude::*;

use crate::keypad::{first_key, lemma_first_key, Keypad, KEYBOARD_SIZE};
use crate::ram::{Ram, MEMORY_SIZE};
use crate::screen::{bit_of, col_at, lemma_row_blit_involution, lemma_row_blit_second_collision, row_blit, row_collision, Screen, HEIGHT, WIDTH};
use crate::utils::{stack_pop_error, Chip8Error};

verus! {

/// Address of the first program instruction in memory.
pub const PROGRAM_START: u16 = 0x200;

/// Number of general registers.
pub const NUM_REGISTERS: usize = 16;

/// Maximum number of return addresses the call stack holds.
pub const STACK_DEPTH: usize = 16;

/// The mathematical state of the CPU.
pub ghost struct CpuModel {
    /// The sixteen general registers V0 through VF.
    pub vx: Seq<u8>,
    /// The program counter.
    pub pc: u16,
    /// The address register I.
    pub i: u16,
    /// The call stack of return addresses, oldest first.
    pub stack: Seq<u16>,
    /// The delay timer.
    pub delay_timer: u8,
    /// The sound timer.
    pub sound_timer: u8,
}

/// The mathematical state of everything one instruction can touch: the CPU,
/// the memory and the screen.
pub ghost struct MachineModel {
    /// The CPU state.
    pub cpu: CpuModel,
    /// The memory contents.
    pub mem: Seq<u8>,
    /// The screen contents.
    pub scr: Seq<Seq<u8>>,
}

/// Bundles a machine state.
pub open spec fn machine(cpu: CpuModel, mem: Seq<u8>, scr: Seq<Seq<u8>>) -> MachineModel {
    MachineModel { cpu, mem, scr }
}

/// The big-endian 16-bit instruction word at address `pc`.
pub open spec fn word_at(mem: Seq<u8>, pc: int) -> u16 {
    (mem[pc] * 256 + mem[pc + 1]) as u16
}

/// The low 12 bits of an instruction word: an address.
pub open spec fn op_nnn(w: u16) -> u16 {
    w % 0x1000
}

/// The low 8 bits of an instruction word: an immediate byte.
pub open spec fn op_nn(w: u16) -> u8 {
    (w % 0x100) as u8
}

/// The low 4 bits of an instruction word: a nibble.
pub open spec fn op_n(w: u16) -> u8 {
    (w % 0x10) as u8
}

/// The second nibble of an instruction word: the register index `x`.
pub open spec fn op_x(w: u16) -> int {
    ((w / 0x100) % 0x10) as int
}

/// The third nibble of an instruction word: the register index `y`.
pub open spec fn op_y(w: u16) -> int {
    ((w / 0x10) % 0x10) as int
}

/// The program counter after a conditional skip: 4 ahead when the condition
/// holds, else 2 ahead.
pub open spec fn skip_pc(pc: u16, cond: bool) -> u16 {
    if cond {
        (pc + 4) as u16
    } else {
        (pc + 2) as u16
    }
}

/// `mem` with `data` written over the range starting at `a`.
pub open spec fn splice(mem: Seq<u8>, a: int, data: Seq<u8>) -> Seq<u8> {
    mem.take(a) + data + mem.skip(a + data.len())
}

/// The screen row that sprite row `j` of a sprite drawn at row `y` lands
/// on: rows wrap at the bottom edge.
pub open spec fn row_of(y: u8, j: int) -> int {
    ((y as int) + j) % 32
}

/// The screen after an `n`-row sprite read from `mem` at address `i` is
/// XOR-ed on at `(x, y)`, row by row from the top; rows wrap at the bottom
/// edge.
pub open spec fn sprite_blit(
    scr: Seq<Seq<u8>>,
    mem: Seq<u8>,
    i: int,
    x: u8,
    y: u8,
    n: int,
) -> Seq<Seq<u8>>
    decreases n,
{
    if n <= 0 {
        scr
    } else {
        let prev = sprite_blit(scr, mem, i, x, y, n - 1);
        let row = row_of(y, n - 1);
        prev.update(row, row_blit(prev[row], x, mem[i + n - 1]))
    }
}

/// Whether blitting an `n`-row sprite erases any lit pixel: the collision
/// that opcode `DXYN` reports in VF.
pub open spec fn sprite_collision(
    scr: Seq<Seq<u8>>,
    mem: Seq<u8>,
    i: int,
    x: u8,
    y: u8,
    n: int,
) -> bool
    decreases n,
{
    if n <= 0 {
        false
    } else {
        let prev = sprite_blit(scr, mem, i, x, y, n - 1);
        let row = row_of(y, n - 1);
        sprite_collision(scr, mem, i, x, y, n - 1) || row_collision(prev[row], x, mem[i + n - 1])
    }
}

/// A screen with every pixel dark, as left by opcode `00E0`.
pub open spec fn blank_screen() -> Seq<Seq<u8>> {
    Seq::new(HEIGHT as nat, |y: int| Seq::new(WIDTH as nat, |c: int| 0u8))
}

/// Where a sprite row lands, written without nested remainders.
proof fn lemma_row_of_shape(y: u8, j: int)
    requires
        0 <= j < 32,
    ensures
        row_of(y, j) == if (y as int) % 32 + j < 32 {
            (y as int) % 32 + j
        } else {
            (y as int) % 32 + j - 32
        },
        0 <= row_of(y, j) < 32,
{
    let b = (y as int) % 32;
    vstd::arithmetic::div_mod::lemma_fundamental_div_mod(y as int, 32);
    if b + j < 32 {
        vstd::arithmetic::div_mod::lemma_fundamental_div_mod_converse(
            y as int + j,
            32,
            (y as int) / 32,
            b + j,
        );
    } else {
        vstd::arithmetic::div_mod::lemma_fundamental_div_mod_converse(
            y as int + j,
            32,
            (y as int) / 32 + 1,
            b + j - 32,
        );
    }
}

/// Two sprite rows of one sprite never land on the same screen row: a
/// sprite is at most 15 rows tall and the screen is 32 rows.
pub proof fn lemma_sprite_rows_distinct(y: u8, j1: int, j2: int)
    requires
        0 <= j1 < 32,
        0 <= j2 < 32,
        row_of(y, j1) == row_of(y, j2),
    ensures
        j1 == j2,
{
    lemma_row_of_shape(y, j1);
    lemma_row_of_shape(y, j2);
}

/// How a whole sprite blit changes the screen: each sprite row XORs exactly
/// its own screen row, and every other row is untouched.
pub proof fn lemma_sprite_blit_char(scr: Seq<Seq<u8>>, mem: Seq<u8>, i: int, x: u8, y: u8, n: int)
    requires
        scr.len() == 32,
        forall|r: int| 0 <= r < 32 ==> (#[trigger] scr[r]).len() == 64,
        0 <= n <= 15,
    ensures
        sprite_blit(scr, mem, i, x, y, n).len() == 32,
        forall|r: int| 0 <= r < 32 ==> (#[trigger] sprite_blit(scr, mem, i, x, y, n)[r]).len()
            == 64,
        forall|j: int|
            0 <= j < n ==> sprite_blit(scr, mem, i, x, y, n)[#[trigger] row_of(y, j)] == row_blit(
                scr[row_of(y, j)],
                x,
                mem[i + j],
            ),
        forall|r: int|
            0 <= r < 32 && (forall|j: int| 0 <= j < n ==> r != #[trigger] row_of(y, j))
                ==> #[trigger] sprite_blit(scr, mem, i, x, y, n)[r] == scr[r],
    decreases n,
{
    if n > 0 {
        lemma_sprite_blit_char(scr, mem, i, x, y, n - 1);
        let prev = sprite_blit(scr, mem, i, x, y, n - 1);
        let rlast = row_of(y, n - 1);
        lemma_row_of_shape(y, n - 1);
        assert forall|j: int| 0 <= j < n - 1 implies rlast != row_of(y, j) by {
            if rlast == row_of(y, j) {
                lemma_sprite_rows_distinct(y, n - 1, j);
            }
        }
        assert(prev[rlast] == scr[rlast]);
        assert forall|j: int|
            0 <= j < n implies sprite_blit(scr, mem, i, x, y, n)[#[trigger] row_of(y, j)]
            == row_blit(scr[row_of(y, j)], x, mem[i + j]) by {
            lemma_row_of_shape(y, j);
            if j < n - 1 {
                if row_of(y, j) == rlast {
                    lemma_sprite_rows_distinct(y, j, n - 1);
                }
            }
        }
        assert forall|r: int|
            0 <= r < 32 && (forall|j: int| 0 <= j < n ==> r != #[trigger] row_of(y, j))
            implies #[trigger] sprite_blit(scr, mem, i, x, y, n)[r] == scr[r] by {
            assert(r != rlast);
        }
    }
}

/// A sprite blit collides exactly when one of its rows, XOR-ed onto the
/// screen as it was before the whole blit, erases a lit pixel.
pub proof fn lemma_sprite_collision_char(
    scr: Seq<Seq<u8>>,
    mem: Seq<u8>,
    i: int,
    x: u8,
    y: u8,
    n: int,
)
    requires
        scr.len() == 32,
        forall|r: int| 0 <= r < 32 ==> (#[trigger] scr[r]).len() == 64,
        0 <= n <= 15,
    ensures
        sprite_collision(scr, mem, i, x, y, n) <==> exists|j: int|
            0 <= j < n && row_collision(scr[#[trigger] row_of(y, j)], x, mem[i + j]),
    decreases n,
{
    if n > 0 {
        lemma_sprite_collision_char(scr, mem, i, x, y, n - 1);
        lemma_sprite_blit_char(scr, mem, i, x, y, n - 1);
        let rlast = row_of(y, n - 1);
        lemma_row_of_shape(y, n - 1);
        assert forall|j: int| 0 <= j < n - 1 implies rlast != row_of(y, j) by {
            if rlast == row_of(y, j) {
                lemma_sprite_rows_distinct(y, n - 1, j);
            }
        }
        assert(sprite_blit(scr, mem, i, x, y, n - 1)[rlast] == scr[rlast]);
        if sprite_collision(scr, mem, i, x, y, n) {
            if sprite_collision(scr, mem, i, x, y, n - 1) {
                let j = choose|j: int|
                    0 <= j < n - 1 && row_collision(scr[#[trigger] row_of(y, j)], x, mem[i + j]);
                assert(0 <= j < n && row_collision(scr[row_of(y, j)], x, mem[i + j]));
            } else {
                assert(0 <= n - 1 < n && row_collision(scr[row_of(y, n - 1)], x, mem[i + (n - 1)]));
            }
        }
        if exists|j: int| 0 <= j < n && row_collision(scr[#[trigger] row_of(y, j)], x, mem[i + j]) {
            let j = choose|j: int|
                0 <= j < n && row_collision(scr[#[trigger] row_of(y, j)], x, mem[i + j]);
            if j < n - 1 {
                assert(exists|j2: int|
                    0 <= j2 < n - 1 && row_collision(scr[#[trigger] row_of(y, j2)], x, mem[i + j2]));
            } else {
                assert(row_collision(sprite_blit(scr, mem, i, x, y, n - 1)[rlast], x, mem[i + (n
                    - 1)]));
            }
        }
    }
}

/// Drawing the same sprite twice at the same coordinates restores the frame
/// buffer exactly, and the second draw collides exactly where the first
/// draw lit a pixel that had been dark.
pub proof fn lemma_draw_sprite_self_inverse(
    scr: Seq<Seq<u8>>,
    mem: Seq<u8>,
    i: int,
    x: u8,
    y: u8,
    n: int,
)
    requires
        scr.len() == 32,
        forall|r: int| 0 <= r < 32 ==> (#[trigger] scr[r]).len() == 64,
        forall|r: int, c: int| 0 <= r < 32 && 0 <= c < 64 ==> #[trigger] scr[r][c] <= 1,
        0 <= n <= 15,
    ensures
        sprite_blit(sprite_blit(scr, mem, i, x, y, n), mem, i, x, y, n) == scr,
        sprite_collision(sprite_blit(scr, mem, i, x, y, n), mem, i, x, y, n) <==> (exists|
            j: int,
            k: int,
        |
            #![trigger row_of(y, j), col_at(x, k)]
            0 <= j < n && 0 <= k < 8 && bit_of(mem[i + j], k) == 1 && scr[row_of(y, j)][col_at(
                x,
                k,
            )] == 0),
{
    let mid = sprite_blit(scr, mem, i, x, y, n);
    lemma_sprite_blit_char(scr, mem, i, x, y, n);
    lemma_sprite_blit_char(mid, mem, i, x, y, n);
    let fin = sprite_blit(mid, mem, i, x, y, n);
    assert forall|r: int| 0 <= r < 32 implies fin[r] == scr[r] by {
        if exists|j: int| 0 <= j < n && r == #[trigger] row_of(y, j) {
            let j = choose|j: int| 0 <= j < n && r == #[trigger] row_of(y, j);
            assert(mid[r] == row_blit(scr[r], x, mem[i + j]));
            assert(fin[r] == row_blit(mid[r], x, mem[i + j]));
            lemma_row_of_shape(y, j);
            lemma_row_blit_involution(scr[r], x, mem[i + j]);
        } else {
            assert(forall|j: int| 0 <= j < n ==> r != #[trigger] row_of(y, j));
        }
    }
    assert(fin =~= scr);
    lemma_sprite_collision_char(mid, mem, i, x, y, n);
    assert forall|j: int| 0 <= j < n implies (row_collision(mid[#[trigger] row_of(y, j)], x, mem[i
        + j]) <==> (exists|k: int|
        0 <= k < 8 && bit_of(mem[i + j], k) == 1 && scr[row_of(y, j)][#[trigger] col_at(x, k)]
            == 0)) by {
        lemma_row_of_shape(y, j);
        assert(mid[row_of(y, j)] == row_blit(scr[row_of(y, j)], x, mem[i + j]));
        lemma_row_blit_second_collision(scr[row_of(y, j)], x, mem[i + j]);
    }
    if sprite_collision(mid, mem, i, x, y, n) {
        let j = choose|j: int|
            0 <= j < n && row_collision(mid[#[trigger] row_of(y, j)], x, mem[i + j]);
        let k = choose|k: int|
            0 <= k < 8 && bit_of(mem[i + j], k) == 1 && scr[row_of(y, j)][#[trigger] col_at(x, k)]
                == 0;
        assert(0 <= j < n && 0 <= k < 8 && bit_of(mem[i + j], k) == 1 && scr[row_of(y, j)][col_at(
            x,
            k,
        )] == 0);
    }
    if exists|j: int, k: int|
        #![trigger row_of(y, j), col_at(x, k)]
        0 <= j < n && 0 <= k < 8 && bit_of(mem[i + j], k) == 1 && scr[row_of(y, j)][col_at(x, k)]
            == 0 {
        let (j, k) = choose|j: int, k: int|
            #![trigger row_of(y, j), col_at(x, k)]
            0 <= j < n && 0 <= k < 8 && bit_of(mem[i + j], k) == 1 && scr[row_of(y, j)][col_at(
                x,
                k,
            )] == 0;
        assert(row_collision(mid[row_of(y, j)], x, mem[i + j]));
    }
}

/// The arithmetic and logic family `8XYN`: how the registers change and when
/// the opcode is unrecognized. The flag writes to VF happen in the order the
/// hardware wrote them, so an instruction with `x = F` leaves the later of
/// the two writes in VF.
pub open spec fn step_alu(cpu: CpuModel, post: CpuModel, w: u16, r: Result<(), Chip8Error>) -> bool {
    let x = op_x(w);
    let y = op_y(w);
    let n = op_n(w);
    let vx = cpu.vx[x];
    let vy = cpu.vx[y];
    let pc2 = (cpu.pc + 2) as u16;
    if n == 0 {
        post == (CpuModel { vx: cpu.vx.update(x, vy), pc: pc2, ..cpu }) && r is Ok
    } else if n == 1 {
        post == (CpuModel { vx: cpu.vx.update(x, vx | vy), pc: pc2, ..cpu }) && r is Ok
    } else if n == 2 {
        post == (CpuModel { vx: cpu.vx.update(x, vx & vy), pc: pc2, ..cpu }) && r is Ok
    } else if n == 3 {
        post == (CpuModel { vx: cpu.vx.update(x, vx ^ vy), pc: pc2, ..cpu }) && r is Ok
    } else if n == 4 {
        post == (CpuModel {
            vx: cpu.vx.update(x, ((vx + vy) % 256) as u8).update(
                15,
                if vx + vy > 255 {
                    1u8
                } else {
                    0u8
                },
            ),
            pc: pc2,
            ..cpu
        }) && r is Ok
    } else if n == 5 {
        post == (CpuModel {
            vx: cpu.vx.update(
                15,
                if vx > vy {
                    1u8
                } else {
                    0u8
                },
            ).update(x, ((vx - vy) % 256) as u8),
            pc: pc2,
            ..cpu
        }) && r is Ok
    } else if n == 6 {
        post == (CpuModel {
            vx: cpu.vx.update(15, (vx % 2) as u8).update(x, (vx / 2) as u8),
            pc: pc2,
            ..cpu
        }) && r is Ok
    } else if n == 7 {
        post == (CpuModel {
            vx: cpu.vx.update(
                15,
                if vy > vx {
                    1u8
                } else {
                    0u8
                },
            ).update(x, ((vy - vx) % 256) as u8),
            pc: pc2,
            ..cpu
        }) && r is Ok
    } else if n == 0xE {
        post == (CpuModel {
            vx: cpu.vx.update(15, (vx / 128) as u8).update(x, ((vx * 2) % 256) as u8),
            pc: pc2,
            ..cpu
        }) && r is Ok
    } else {
        post == cpu && r == Result::<(), Chip8Error>::Err(
            Chip8Error::UnrecognizedOpcode { opcode: w },
        )
    }
}

/// The miscellaneous family `FXNN`: timers, key wait, address register
/// arithmetic, glyph lookup, BCD and register block transfers.
pub open spec fn step_misc(
    pre: MachineModel,
    keys: Seq<bool>,
    post: MachineModel,
    w: u16,
    r: Result<(), Chip8Error>,
) -> bool {
    let cpu = pre.cpu;
    let x = op_x(w);
    let nn = op_nn(w);
    let vx = cpu.vx[x];
    let pc2 = (cpu.pc + 2) as u16;
    if nn == 0x07 {
        post == machine((CpuModel { vx: cpu.vx.update(x, cpu.delay_timer), pc: pc2, ..cpu }),
            pre.mem, pre.scr) && r is Ok
    } else if nn == 0x0A {
        if exists|k: int| 0 <= k < keys.len() && keys[k] {
            post == machine(
                (CpuModel { vx: cpu.vx.update(x, first_key(keys) as u8), pc: pc2, ..cpu }),
                pre.mem,
                pre.scr,
            ) && r is Ok
        } else {
            // No key is pressed: the program counter stays put, so the same
            // instruction is presented again on the next step.
            post == pre && r is Ok
        }
    } else if nn == 0x15 {
        post == machine((CpuModel { delay_timer: vx, pc: pc2, ..cpu }), pre.mem, pre.scr)
            && r is Ok
    } else if nn == 0x18 {
        post == machine((CpuModel { sound_timer: vx, pc: pc2, ..cpu }), pre.mem, pre.scr)
            && r is Ok
    } else if nn == 0x1E {
        post == machine((CpuModel { i: ((cpu.i + vx) % 0x10000) as u16, pc: pc2, ..cpu }),
            pre.mem, pre.scr) && r is Ok
    } else if nn == 0x29 {
        post == machine((CpuModel { i: ((vx % 16) * 5) as u16, pc: pc2, ..cpu }), pre.mem,
            pre.scr) && r is Ok
    } else if nn == 0x33 {
        if cpu.i + 3 > MEMORY_SIZE {
            post == pre && r == Result::<(), Chip8Error>::Err(
                Chip8Error::OutOfBoundsWrite { address: cpu.i as usize, len: 3 },
            )
        } else {
            post == machine(
                (CpuModel { pc: pc2, ..cpu }),
                pre.mem.update(cpu.i as int, (vx / 100) as u8).update(
                    cpu.i + 1,
                    ((vx % 100) / 10) as u8,
                ).update(cpu.i + 2, (vx % 10) as u8),
                pre.scr,
            ) && r is Ok
        }
    } else if nn == 0x55 {
        let cnt = x + 1;
        if cpu.i + cnt > MEMORY_SIZE {
            post == pre && r == Result::<(), Chip8Error>::Err(
                Chip8Error::OutOfBoundsWrite { address: cpu.i as usize, len: cnt as usize },
            )
        } else {
            post == machine(
                (CpuModel { i: (cpu.i + cnt) as u16, pc: pc2, ..cpu }),
                splice(pre.mem, cpu.i as int, cpu.vx.subrange(0, cnt)),
                pre.scr,
            ) && r is Ok
        }
    } else if nn == 0x65 {
        let cnt = x + 1;
        if cpu.i + cnt > MEMORY_SIZE {
            post == pre && r == Result::<(), Chip8Error>::Err(
                Chip8Error::OutOfBoundsRead { address: cpu.i as usize, size: cnt as usize },
            )
        } else {
            post == machine(
                (CpuModel {
                    vx: pre.mem.subrange(cpu.i as int, cpu.i + cnt) + cpu.vx.skip(cnt),
                    i: (cpu.i + cnt) as u16,
                    pc: pc2,
                    ..cpu
                }),
                pre.mem,
                pre.scr,
            ) && r is Ok
        }
    } else {
        post == pre && r == Result::<(), Chip8Error>::Err(
            Chip8Error::UnrecognizedOpcode { opcode: w },
        )
    }
}

/// One fetch-decode-execute step on the decoded word `w`, dispatched on the
/// high nibble.
pub open spec fn step_decoded(
    pre: MachineModel,
    keys: Seq<bool>,
    post: MachineModel,
    w: u16,
    r: Result<(), Chip8Error>,
) -> bool {
    let cpu = pre.cpu;
    let fam = w / 0x1000;
    let x = op_x(w);
    let y = op_y(w);
    let n = op_n(w);
    let nn = op_nn(w);
    let nnn = op_nnn(w);
    let pc2 = (cpu.pc + 2) as u16;
    if fam == 0x0 {
        if nn == 0xE0 {
            post == machine((CpuModel { pc: pc2, ..cpu }), pre.mem, blank_screen()) && r is Ok
        } else if nn == 0xEE {
            if cpu.stack.len() == 0 {
                post == pre && r == Result::<(), Chip8Error>::Err(Chip8Error::StackUnderflow)
            } else {
                post == machine((CpuModel { pc: cpu.stack.last(), stack: cpu.stack.drop_last(), ..cpu }),
                    pre.mem, pre.scr) && r is Ok
            }
        } else {
            post == pre && r == Result::<(), Chip8Error>::Err(
                Chip8Error::UnrecognizedOpcode { opcode: w },
            )
        }
    } else if fam == 0x1 {
        post == machine((CpuModel { pc: nnn, ..cpu }), pre.mem, pre.scr) && r is Ok
    } else if fam == 0x2 {
        if cpu.stack.len() >= STACK_DEPTH {
            post == pre && r == Result::<(), Chip8Error>::Err(Chip8Error::StackOverflow)
        } else {
            post == machine((CpuModel { stack: cpu.stack.push(pc2), pc: nnn, ..cpu }), pre.mem,
                pre.scr) && r is Ok
        }
    } else if fam == 0x3 {
        post == machine((CpuModel { pc: skip_pc(cpu.pc, cpu.vx[x] == nn), ..cpu }), pre.mem,
            pre.scr) && r is Ok
    } else if fam == 0x4 {
        post == machine((CpuModel { pc: skip_pc(cpu.pc, cpu.vx[x] != nn), ..cpu }), pre.mem,
            pre.scr) && r is Ok
    } else if fam == 0x5 {
        post == machine((CpuModel { pc: skip_pc(cpu.pc, cpu.vx[x] == cpu.vx[y]), ..cpu }),
            pre.mem, pre.scr) && r is Ok
    } else if fam == 0x6 {
        post == machine((CpuModel { vx: cpu.vx.update(x, nn), pc: pc2, ..cpu }), pre.mem,
            pre.scr) && r is Ok
    } else if fam == 0x7 {
        post == machine((CpuModel { vx: cpu.vx.update(x, ((cpu.vx[x] + nn) % 256) as u8), pc: pc2, ..cpu }),
            pre.mem, pre.scr) && r is Ok
    } else if fam == 0x8 {
        step_alu(cpu, post.cpu, w, r) && post.mem == pre.mem && post.scr == pre.scr
    } else if fam == 0x9 {
        post == machine((CpuModel { pc: skip_pc(cpu.pc, cpu.vx[x] != cpu.vx[y]), ..cpu }),
            pre.mem, pre.scr) && r is Ok
    } else if fam == 0xA {
        post == machine((CpuModel { i: nnn, pc: pc2, ..cpu }), pre.mem, pre.scr) && r is Ok
    } else if fam == 0xB {
        post == machine((CpuModel { pc: (cpu.vx[0] + nnn) as u16, ..cpu }), pre.mem, pre.scr)
            && r is Ok
    } else if fam == 0xC {
        // The drawn byte is random: only the masking relation is promised.
        &&& post.mem == pre.mem
        &&& post.scr == pre.scr
        &&& r is Ok
        &&& post.cpu.vx == cpu.vx.update(x, post.cpu.vx[x])
        &&& post.cpu.vx[x] & nn == post.cpu.vx[x]
        &&& post.cpu == (CpuModel { vx: post.cpu.vx, pc: pc2, ..cpu })
    } else if fam == 0xD {
        let sx = cpu.vx[x];
        let sy = cpu.vx[y];
        if n > 0 && cpu.i + n > MEMORY_SIZE {
            post == pre && r == Result::<(), Chip8Error>::Err(
                Chip8Error::OutOfBoundsRead { address: cpu.i as usize, size: n as usize },
            )
        } else {
            post == machine(
                (CpuModel {
                    vx: cpu.vx.update(
                        15,
                        if sprite_collision(pre.scr, pre.mem, cpu.i as int, sx, sy, n as int) {
                            1u8
                        } else {
                            0u8
                        },
                    ),
                    pc: pc2,
                    ..cpu
                }),
                pre.mem,
                sprite_blit(pre.scr, pre.mem, cpu.i as int, sx, sy, n as int),
            ) && r is Ok
        }
    } else if fam == 0xE {
        let key = cpu.vx[x];
        if nn == 0x9E || nn == 0xA1 {
            if key >= KEYBOARD_SIZE {
                post == pre && r == Result::<(), Chip8Error>::Err(
                    Chip8Error::InvalidKeyCode { key_code: key },
                )
            } else {
                let cond = if nn == 0x9E {
                    keys[key as int]
                } else {
                    !keys[key as int]
                };
                post == machine((CpuModel { pc: skip_pc(cpu.pc, cond), ..cpu }), pre.mem,
                    pre.scr) && r is Ok
            }
        } else {
            post == pre && r == Result::<(), Chip8Error>::Err(
                Chip8Error::UnrecognizedOpcode { opcode: w },
            )
        }
    } else if fam == 0xF {
        step_misc(pre, keys, post, w, r)
    } else {
        post == pre && r == Result::<(), Chip8Error>::Err(
            Chip8Error::UnrecognizedOpcode { opcode: w },
        )
    }
}

/// One whole step of the interpreter: either the fetch itself runs outside
/// memory and is reported, or the word at the program counter is decoded and
/// executed as `step_decoded` describes. On every error the machine state is
/// left unchanged.
pub open spec fn step(
    pre: MachineModel,
    keys: Seq<bool>,
    post: MachineModel,
    r: Result<(), Chip8Error>,
) -> bool {
    if pre.cpu.pc as int >= MEMORY_SIZE {
        post == pre && r == Result::<(), Chip8Error>::Err(
            Chip8Error::OutOfBoundsRead { address: pre.cpu.pc as usize, size: 1 },
        )
    } else if pre.cpu.pc as int + 1 >= MEMORY_SIZE {
        post == pre && r == Result::<(), Chip8Error>::Err(
            Chip8Error::OutOfBoundsRead { address: (pre.cpu.pc + 1) as usize, size: 1 },
        )
    } else {
        step_decoded(pre, keys, post, word_at(pre.mem, pre.cpu.pc as int), r)
    }
}

/// Opcode `7XNN` adds modulo 256 and leaves VF untouched, for any target
/// register other than VF itself.
pub proof fn lemma_add_immediate_wraps(
    pre: MachineModel,
    keys: Seq<bool>,
    post: MachineModel,
    r: Result<(), Chip8Error>,
)
    requires
        step(pre, keys, post, r),
        pre.cpu.vx.len() == NUM_REGISTERS,
        pre.cpu.pc + 1 < MEMORY_SIZE,
        word_at(pre.mem, pre.cpu.pc as int) / 0x1000 == 7,
        op_x(word_at(pre.mem, pre.cpu.pc as int)) != 15,
    ensures
        r is Ok,
        post.cpu.vx[op_x(word_at(pre.mem, pre.cpu.pc as int))] == (pre.cpu.vx[op_x(
            word_at(pre.mem, pre.cpu.pc as int),
        )] + op_nn(word_at(pre.mem, pre.cpu.pc as int))) % 256,
        post.cpu.vx[15] == pre.cpu.vx[15],
{
    let w = word_at(pre.mem, pre.cpu.pc as int);
    assert(0 <= op_x(w) < 16);
}

/// Opcode `8XY4` sets VF to 1 exactly when Vx + Vy exceeds 255 before
/// truncation, and stores the sum modulo 256. The flag write lands last, so
/// when the target register is VF itself only the flag remains.
pub proof fn lemma_add_registers_carry(
    pre: MachineModel,
    keys: Seq<bool>,
    post: MachineModel,
    r: Result<(), Chip8Error>,
)
    requires
        step(pre, keys, post, r),
        pre.cpu.vx.len() == NUM_REGISTERS,
        pre.cpu.pc + 1 < MEMORY_SIZE,
        word_at(pre.mem, pre.cpu.pc as int) / 0x1000 == 8,
        op_n(word_at(pre.mem, pre.cpu.pc as int)) == 4,
    ensures
        r is Ok,
        post.cpu.vx[15] == (if pre.cpu.vx[op_x(word_at(pre.mem, pre.cpu.pc as int))] + pre.cpu.vx[
            op_y(word_at(pre.mem, pre.cpu.pc as int))
        ] > 255 {
            1u8
        } else {
            0u8
        }),
        op_x(word_at(pre.mem, pre.cpu.pc as int)) != 15 ==> post.cpu.vx[op_x(
            word_at(pre.mem, pre.cpu.pc as int),
        )] == (pre.cpu.vx[op_x(word_at(pre.mem, pre.cpu.pc as int))] + pre.cpu.vx[op_y(
            word_at(pre.mem, pre.cpu.pc as int),
        )]) % 256,
{
    let w = word_at(pre.mem, pre.cpu.pc as int);
    assert(0 <= op_x(w) < 16);
    assert(0 <= op_y(w) < 16);
}

/// The CPU of the virtual machine.
pub struct Cpu {
    /// The sixteen 8-bit general registers V0 through VF.
    vx: Vec<u8>,
    /// The program counter.
    pc: u16,
    /// The 16-bit register used to store memory addresses.
    i: u16,
    /// The call stack of return addresses, bounded by `STACK_DEPTH`.
    stack: Vec<u16>,
    /// The delay timer.
    delay_timer: u8,
    /// The sound timer.
    sound_timer: u8,
}

impl View for Cpu {
    type V = CpuModel;

    closed spec fn view(&self) -> CpuModel {
        CpuModel {
            vx: self.vx@,
            pc: self.pc,
            i: self.i,
            stack: self.stack@,
            delay_timer: self.delay_timer,
            sound_timer: self.sound_timer,
        }
    }
}

/// Relies on rand::random: a freshly sampled byte; nothing is promised of
/// the value.
#[verifier::external_body]
fn random_byte() -> u8 {
    rand::random()
}

impl Cpu {
    /// A CPU is well formed when it holds exactly sixteen registers and its
    /// call stack is within bounds.
    pub open spec fn wf(&self) -> bool {
        &&& self@.vx.len() == NUM_REGISTERS
        &&& self@.stack.len() <= STACK_DEPTH
    }

    /// Creates a CPU with cleared registers and timers, an empty call stack,
    /// and the program counter at the start of the program area.
    pub fn new() -> (cpu: Cpu)
        ensures
            cpu.wf(),
            cpu@.pc == PROGRAM_START,
            cpu@.i == 0,
            cpu@.stack.len() == 0,
            cpu@.delay_timer == 0,
            cpu@.sound_timer == 0,
            forall|k: int| 0 <= k < NUM_REGISTERS ==> cpu@.vx[k] == 0u8,
    {
        let mut vx: Vec<u8> = Vec::new();
        while vx.len() < NUM_REGISTERS
            invariant
                vx@.len() <= NUM_REGISTERS,
                forall|k: int| 0 <= k < vx@.len() ==> vx@[k] == 0u8,
            decreases NUM_REGISTERS - vx@.len(),
        {
            vx.push(0);
        }
        Cpu { vx, pc: PROGRAM_START, i: 0, stack: Vec::new(), delay_timer: 0, sound_timer: 0 }
    }

    /// The program counter.
    pub fn pc(&self) -> (r: u16)
        ensures
            r == self@.pc,
    {
        self.pc
    }

    /// The address register I.
    pub fn index_register(&self) -> (r: u16)
        ensures
            r == self@.i,
    {
        self.i
    }

    /// The delay timer.
    pub fn delay_timer(&self) -> (r: u8)
        ensures
            r == self@.delay_timer,
    {
        self.delay_timer
    }

    /// The sound timer.
    pub fn sound_timer(&self) -> (r: u8)
        ensures
            r == self@.sound_timer,
    {
        self.sound_timer
    }

    /// Writes `value` into register `index`.
    pub fn write_reg_vx(&mut self, index: u8, value: u8)
        requires
            old(self).wf(),
            (index as int) < NUM_REGISTERS,
        ensures
            final(self)@ == (CpuModel {
                vx: old(self)@.vx.update(index as int, value),
                ..old(self)@
            }),
            final(self).wf(),
    {
        self.vx[index as usize] = value;
    }

    /// Reads register `index`.
    pub fn read_reg_vx(&self, index: u8) -> (value: u8)
        requires
            self.wf(),
            (index as int) < NUM_REGISTERS,
        ensures
            value == self@.vx[index as int],
    {
        self.vx[index as usize]
    }

    /// Skips the next instruction when `cond` holds: the program counter
    /// advances by 4 instead of 2.
    pub fn skip_if(&mut self, cond: bool)
        requires
            old(self).wf(),
            old(self)@.pc + 4 <= u16::MAX,
        ensures
            final(self)@ == (CpuModel { pc: skip_pc(old(self)@.pc, cond), ..old(self)@ }),
            final(self).wf(),
    {
        if cond {
            self.pc += 4;
        } else {
            self.pc += 2;
        }
    }

    /// Decrements each running timer by one, stopping at zero, and reports
    /// whether the sound timer is still running.
    pub fn update_timers(&mut self) -> (sound_active: bool)
        ensures
            final(self)@ == (CpuModel {
                delay_timer: if old(self)@.delay_timer > 0 {
                    (old(self)@.delay_timer - 1) as u8
                } else {
                    0u8
                },
                sound_timer: if old(self)@.sound_timer > 0 {
                    (old(self)@.sound_timer - 1) as u8
                } else {
                    0u8
                },
                ..old(self)@
            }),
            sound_active == (final(self)@.sound_timer > 0),
            old(self).wf() ==> final(self).wf(),
    {
        if self.delay_timer > 0 {
            self.delay_timer -= 1;
        }
        if self.sound_timer > 0 {
            self.sound_timer -= 1;
        }
        self.sound_timer > 0
    }

    /// Draws an `n`-row sprite read from memory at address I onto the screen
    /// at `(x, y)`, and sets VF to 1 exactly when a lit pixel was erased.
    /// When the sprite rows would be read from outside memory, the error is
    /// reported and nothing changes.
    pub fn draw_sprite(
        &mut self,
        ram: &mut Ram,
        screen: &mut Screen,
        x: u8,
        y: u8,
        n: u8,
    ) -> (r: Result<(), Chip8Error>)
        requires
            old(self).wf(),
            old(ram).wf(),
            old(screen).wf(),
        ensures
            final(self).wf(),
            final(ram).wf(),
            final(screen).wf(),
            final(ram)@ == old(ram)@,
            n > 0 && old(self)@.i + n > MEMORY_SIZE ==> final(self)@ == old(self)@
                && final(screen)@ == old(screen)@ && r == Result::<(), Chip8Error>::Err(
                Chip8Error::OutOfBoundsRead { address: old(self)@.i as usize, size: n as usize },
            ),
            n == 0 || old(self)@.i + n <= MEMORY_SIZE ==> r is Ok && final(screen)@ == sprite_blit(
                old(screen)@,
                old(ram)@,
                old(self)@.i as int,
                x,
                y,
                n as int,
            ) && final(self)@ == (CpuModel {
                vx: old(self)@.vx.update(
                    15,
                    if sprite_collision(
                        old(screen)@,
                        old(ram)@,
                        old(self)@.i as int,
                        x,
                        y,
                        n as int,
                    ) {
                        1u8
                    } else {
                        0u8
                    },
                ),
                ..old(self)@
            }),
    {
        if n > 0 && self.i as usize + n as usize > MEMORY_SIZE {
            return Err(Chip8Error::OutOfBoundsRead { address: self.i as usize, size: n as usize });
        }
        let mut should_set_vf = false;
        let mut j: u8 = 0;
        while j < n
            invariant
                j <= n,
                n > 0 ==> self@.i + n <= MEMORY_SIZE,
                self@ == old(self)@,
                ram@ == old(ram)@,
                old(self).wf(),
                old(ram).wf(),
                old(screen).wf(),
                screen.wf(),
                screen@ == sprite_blit(old(screen)@, ram@, self@.i as int, x, y, j as int),
                should_set_vf == sprite_collision(
                    old(screen)@,
                    ram@,
                    self@.i as int,
                    x,
                    y,
                    j as int,
                ),
            decreases n - j,
        {
            let byte = match ram.read_byte(self.i as usize + j as usize) {
                Ok(b) => b,
                Err(e) => {
                    // Unreachable: every row address was checked above.
                    return Err(e);
                },
            };
            let row_y = y.wrapping_add(j);
            proof {
                let a = y as int + j as int;
                assert(row_y as int == a % 256) by {
                    if a < 256 {
                    } else {
                        assert(a % 256 == a - 256);
                    }
                }
                assert((a % 256) % 32 == a % 32) by {
                    if a < 256 {
                    } else {
                        assert(a % 256 == a - 256);
                        assert((a - 256) % 32 == a % 32);
                    }
                }
            }
            let erased = match screen.draw_byte(x, row_y, byte) {
                Ok(b) => b,
                Err(e) => {
                    return Err(e);
                },
            };
            if erased {
                should_set_vf = true;
            }
            j += 1;
        }
        if should_set_vf {
            self.write_reg_vx(0xF, 1);
        } else {
            self.write_reg_vx(0xF, 0);
        }
        Ok(())
    }

    /// The arithmetic and logic family `8XYN`.
    fn op_alu(&mut self, x: u8, y: u8, n: u8, w: u16) -> (r: Result<(), Chip8Error>)
        requires
            old(self).wf(),
            op_x(w) == x as int,
            op_y(w) == y as int,
            op_n(w) == n,
            old(self)@.pc + 2 <= u16::MAX,
        ensures
            final(self).wf(),
            step_alu(old(self)@, final(self)@, w, r),
    {
        let vx = self.read_reg_vx(x);
        let vy = self.read_reg_vx(y);
        match n {
            0x0 => {
                self.write_reg_vx(x, vy);
            },
            0x1 => {
                self.write_reg_vx(x, vx | vy);
            },
            0x2 => {
                self.write_reg_vx(x, vx & vy);
            },
            0x3 => {
                self.write_reg_vx(x, vx ^ vy);
            },
            0x4 => {
                let sum = vx as u16 + vy as u16;
                self.write_reg_vx(x, (sum % 256) as u8);
                if sum > 0xFF {
                    self.write_reg_vx(0xF, 1);
                } else {
                    self.write_reg_vx(0xF, 0);
                }
            },
            0x5 => {
                if vx > vy {
                    self.write_reg_vx(0xF, 1);
                } else {
                    self.write_reg_vx(0xF, 0);
                }
                self.write_reg_vx(x, vx.wrapping_sub(vy));
                proof {
                    assert(vx.wrapping_sub(vy) as int == (vx - vy) % 256);
                }
            },
            0x6 => {
                self.write_reg_vx(0xF, vx % 2);
                self.write_reg_vx(x, vx / 2);
            },
            0x7 => {
                if vy > vx {
                    self.write_reg_vx(0xF, 1);
                } else {
                    self.write_reg_vx(0xF, 0);
                }
                self.write_reg_vx(x, vy.wrapping_sub(vx));
                proof {
                    assert(vy.wrapping_sub(vx) as int == (vy - vx) % 256);
                }
            },
            0xE => {
                self.write_reg_vx(0xF, vx / 128);
                self.write_reg_vx(x, ((vx as u16 * 2) % 256) as u8);
            },
            _ => {
                return Err(Chip8Error::UnrecognizedOpcode { opcode: w });
            },
        }
        self.pc += 2;
        Ok(())
    }

    /// The miscellaneous family `FXNN`.
    fn op_misc(
        &mut self,
        ram: &mut Ram,
        keypad: &Keypad,
        x: u8,
        nn: u8,
        w: u16,
        Ghost(scr): Ghost<Seq<Seq<u8>>>,
    ) -> (r: Result<(), Chip8Error>)
        requires
            old(self).wf(),
            old(ram).wf(),
            keypad.wf(),
            op_x(w) == x as int,
            op_nn(w) == nn,
            old(self)@.pc + 2 <= u16::MAX,
        ensures
            final(self).wf(),
            final(ram).wf(),
            step_misc(
                machine(old(self)@, old(ram)@, scr),
                keypad@,
                machine(final(self)@, final(ram)@, scr),
                w,
                r,
            ),
    {
        match nn {
            0x07 => {
                let d = self.delay_timer;
                self.write_reg_vx(x, d);
                self.pc += 2;
            },
            0x0A => {
                match keypad.first_pressed_key() {
                    Some(key) => {
                        proof {
                            lemma_first_key(keypad@, key as int);
                        }
                        self.write_reg_vx(x, key);
                        self.pc += 2;
                    },
                    None => {
                        // No key: leave the program counter on this
                        // instruction so it is presented again next step.
                    },
                }
            },
            0x15 => {
                self.delay_timer = self.read_reg_vx(x);
                self.pc += 2;
            },
            0x18 => {
                self.sound_timer = self.read_reg_vx(x);
                self.pc += 2;
            },
            0x1E => {
                let vx = self.read_reg_vx(x);
                self.i = ((self.i as u32 + vx as u32) % 0x10000) as u16;
                self.pc += 2;
            },
            0x29 => {
                let vx = self.read_reg_vx(x);
                self.i = (vx % 16) as u16 * 5;
                self.pc += 2;
            },
            0x33 => {
                let vx = self.read_reg_vx(x);
                if self.i as usize + 3 > MEMORY_SIZE {
                    return Err(Chip8Error::OutOfBoundsWrite { address: self.i as usize, len: 3 });
                }
                let base = self.i as usize;
                match ram.write_byte(base, vx / 100) {
                    Ok(()) => (),
                    Err(e) => {
                        return Err(e);
                    },
                }
                match ram.write_byte(base + 1, (vx % 100) / 10) {
                    Ok(()) => (),
                    Err(e) => {
                        return Err(e);
                    },
                }
                match ram.write_byte(base + 2, vx % 10) {
                    Ok(()) => (),
                    Err(e) => {
                        return Err(e);
                    },
                }
                self.pc += 2;
            },
            0x55 => {
                let cnt = x as usize + 1;
                let mut buf: Vec<u8> = Vec::new();
                let mut k: usize = 0;
                while k < cnt
                    invariant
                        k <= cnt,
                        cnt <= NUM_REGISTERS,
                        self@.vx.len() == NUM_REGISTERS,
                        buf@ == self@.vx.subrange(0, k as int),
                    decreases cnt - k,
                {
                    let b = self.vx[k];
                    buf.push(b);
                    proof {
                        assert(buf@ =~= self@.vx.subrange(0, k + 1));
                    }
                    k += 1;
                }
                match ram.write_bytes(self.i as usize, buf.as_slice()) {
                    Ok(()) => (),
                    Err(e) => {
                        return Err(e);
                    },
                }
                self.i += x as u16 + 1;
                self.pc += 2;
            },
            0x65 => {
                let cnt = x as usize + 1;
                let bytes = match ram.read_bytes(self.i as usize, cnt) {
                    Ok(b) => b,
                    Err(e) => {
                        return Err(e);
                    },
                };
                let mut k: usize = 0;
                while k < cnt
                    invariant
                        k <= cnt,
                        cnt <= NUM_REGISTERS,
                        bytes@.len() == cnt,
                        self@.vx.len() == NUM_REGISTERS,
                        self@.pc == old(self)@.pc,
                        self@.i == old(self)@.i,
                        self@.stack == old(self)@.stack,
                        self@.delay_timer == old(self)@.delay_timer,
                        self@.sound_timer == old(self)@.sound_timer,
                        forall|jj: int| 0 <= jj < k ==> self@.vx[jj] == bytes@[jj],
                        forall|jj: int| k <= jj < NUM_REGISTERS ==> self@.vx[jj] == old(self)@.vx[jj],
                    decreases cnt - k,
                {
                    let b = bytes[k];
                    self.vx[k] = b;
                    k += 1;
                }
                proof {
                    assert(self@.vx =~= old(ram)@.subrange(
                        old(self)@.i as int,
                        old(self)@.i + x + 1,
                    ) + old(self)@.vx.skip(x as int + 1));
                }
                self.i += x as u16 + 1;
                self.pc += 2;
            },
            _ => {
                return Err(Chip8Error::UnrecognizedOpcode { opcode: w });
            },
        }
        Ok(())
    }

    /// Runs the single instruction at the program counter: fetches the
    /// big-endian word, decodes it and executes it. The whole effect, and
    /// every error, is pinned down by the `step` relation.
    pub fn run_instruction(
        &mut self,
        ram: &mut Ram,
        screen: &mut Screen,
        keypad: &Keypad,
    ) -> (r: Result<(), Chip8Error>)
        requires
            old(self).wf(),
            old(ram).wf(),
            old(screen).wf(),
            keypad.wf(),
        ensures
            final(self).wf(),
            final(ram).wf(),
            final(screen).wf(),
            step(
                machine(old(self)@, old(ram)@, old(screen)@),
                keypad@,
                machine(final(self)@, final(ram)@, final(screen)@),
                r,
            ),
    {
        let high = match ram.read_byte(self.pc as usize) {
            Ok(b) => b,
            Err(e) => {
                return Err(e);
            },
        };
        let low = match ram.read_byte(self.pc as usize + 1) {
            Ok(b) => b,
            Err(e) => {
                return Err(e);
            },
        };
        let instruction: u16 = (high as u16) * 256 + (low as u16);
        proof {
            assert(instruction == word_at(ram@, self@.pc as int));
        }
        let nnn = instruction % 0x1000;
        let nn = (instruction % 0x100) as u8;
        let n = (instruction % 0x10) as u8;
        let x = ((instruction / 0x100) % 0x10) as u8;
        let y = ((instruction / 0x10) % 0x10) as u8;

        match instruction / 0x1000 {
            0x0 => {
                if nn == 0xE0 {
                    screen.clear();
                    self.pc += 2;
                    proof {
                        assert(screen@ =~~= blank_screen());
                    }
                    Ok(())
                } else if nn == 0xEE {
                    match self.stack.pop() {
                        Some(addr) => {
                            self.pc = addr;
                            Ok(())
                        },
                        None => Err(stack_pop_error()),
                    }
                } else {
                    Err(Chip8Error::UnrecognizedOpcode { opcode: instruction })
                }
            },
            0x1 => {
                self.pc = nnn;
                Ok(())
            },
            0x2 => {
                if self.stack.len() >= STACK_DEPTH {
                    return Err(Chip8Error::StackOverflow);
                }
                self.stack.push(self.pc + 2);
                self.pc = nnn;
                Ok(())
            },
            0x3 => {
                let vx = self.read_reg_vx(x);
                self.skip_if(vx == nn);
                Ok(())
            },
            0x4 => {
                let vx = self.read_reg_vx(x);
                self.skip_if(vx != nn);
                Ok(())
            },
            0x5 => {
                let vx = self.read_reg_vx(x);
                let vy = self.read_reg_vx(y);
                self.skip_if(vx == vy);
                Ok(())
            },
            0x6 => {
                self.write_reg_vx(x, nn);
                self.pc += 2;
                Ok(())
            },
            0x7 => {
                let vx = self.read_reg_vx(x);
                self.write_reg_vx(x, vx.wrapping_add(nn));
                proof {
                    assert(vx.wrapping_add(nn) as int == (vx + nn) % 256);
                }
                self.pc += 2;
                Ok(())
            },
            0x8 => self.op_alu(x, y, n, instruction),
            0x9 => {
                let vx = self.read_reg_vx(x);
                let vy = self.read_reg_vx(y);
                self.skip_if(vx != vy);
                Ok(())
            },
            0xA => {
                self.i = nnn;
                self.pc += 2;
                Ok(())
            },
            0xB => {
                self.pc = self.read_reg_vx(0) as u16 + nnn;
                Ok(())
            },
            0xC => {
                let num = random_byte();
                let masked = num & nn;
                proof {
                    assert((num & nn) & nn == num & nn) by (bit_vector);
                }
                self.write_reg_vx(x, masked);
                self.pc += 2;
                Ok(())
            },
            0xD => {
                let vx = self.read_reg_vx(x);
                let vy = self.read_reg_vx(y);
                match self.draw_sprite(ram, screen, vx, vy, n) {
                    Ok(()) => (),
                    Err(e) => {
                        return Err(e);
                    },
                }
                self.pc += 2;
                Ok(())
            },
            0xE => {
                if nn == 0x9E {
                    let key = self.read_reg_vx(x);
                    match keypad.is_key_pressed(key) {
                        Ok(pressed) => {
                            self.skip_if(pressed);
                            Ok(())
                        },
                        Err(e) => Err(e),
                    }
                } else if nn == 0xA1 {
                    let key = self.read_reg_vx(x);
                    match keypad.is_key_pressed(key) {
                        Ok(pressed) => {
                            self.skip_if(!pressed);
                            Ok(())
                        },
                        Err(e) => Err(e),
                    }
                } else {
                    Err(Chip8Error::UnrecognizedOpcode { opcode: instruction })
                }
            },
            0xF => self.op_misc(ram, keypad, x, nn, instruction, Ghost(screen@)),
            _ => Err(Chip8Error::UnrecognizedOpcode { opcode: instruction }),
        }
    }
}

} // verus!

