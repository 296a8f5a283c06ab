use chip8::cpu::Cpu;
use chip8::keypad::Keypad;
use chip8::ram::Ram;
use chip8::screen::Screen;
use chip8::utils::Chip8Error;

struct Vm {
    cpu: Cpu,
    ram: Ram,
    screen: Screen,
    keypad: Keypad,
}

fn vm_with(rom: &[u8]) -> Vm {
    let mut ram = Ram::new();
    ram.write_bytes(0x200, rom).unwrap();
    Vm { cpu: Cpu::new(), ram, screen: Screen::new(), keypad: Keypad::new() }
}

impl Vm {
    fn step(&mut self) -> Result<(), Chip8Error> {
        self.cpu.run_instruction(&mut self.ram, &mut self.screen, &self.keypad)
    }
}

#[test]
fn load_immediate_and_font_address() {
    // V0 := 5, then I := glyph address of digit 5.
    let mut vm = vm_with(&[0x60, 0x05, 0xF0, 0x29]);
    vm.step().unwrap();
    vm.step().unwrap();
    assert_eq!(vm.cpu.read_reg_vx(0), 5);
    assert_eq!(vm.cpu.index_register(), 25);
}

#[test]
fn font_lookup_uses_low_nibble() {
    // V0 := 0x15: the glyph index is the low nibble, 5.
    let mut vm = vm_with(&[0x60, 0x15, 0xF0, 0x29]);
    vm.step().unwrap();
    vm.step().unwrap();
    assert_eq!(vm.cpu.index_register(), 25);
}

#[test]
fn single_pixel_sprite_draw() {
    // I := 0x20A (a sprite byte inside the ROM), V0 := 0, V1 := 0, then
    // draw one row: a single pixel at (0, 0) and no collision.
    let mut vm = vm_with(&[0xA2, 0x0A, 0x60, 0x00, 0x61, 0x00, 0xD0, 0x11, 0x00, 0x00, 0b1000_0000]);
    for _ in 0..4 {
        vm.step().unwrap();
    }
    assert_eq!(vm.screen.pixels[0][0], 1);
    let lit: usize = vm.screen.pixels.iter().map(|row| row.iter().filter(|&&p| p == 1).count()).sum();
    assert_eq!(lit, 1);
    assert_eq!(vm.cpu.read_reg_vx(0xF), 0);
}

#[test]
fn sprite_draw_is_self_inverse() {
    // Draw the digit 0 glyph twice at the same spot: the screen is restored
    // and the second draw reports the erasure.
    let mut vm = vm_with(&[
        0xA0, 0x00, // I := 0 (glyph 0)
        0x60, 0x0A, // V0 := 10
        0x61, 0x05, // V1 := 5
        0xD0, 0x15, // draw 5 rows
        0xD0, 0x15, // draw the same 5 rows again
    ]);
    for _ in 0..4 {
        vm.step().unwrap();
    }
    let lit: usize = vm.screen.pixels.iter().map(|row| row.iter().filter(|&&p| p == 1).count()).sum();
    assert!(lit > 0);
    assert_eq!(vm.cpu.read_reg_vx(0xF), 0);
    vm.step().unwrap();
    let lit: usize = vm.screen.pixels.iter().map(|row| row.iter().filter(|&&p| p == 1).count()).sum();
    assert_eq!(lit, 0);
    assert_eq!(vm.cpu.read_reg_vx(0xF), 1);
}

#[test]
fn sprite_wraps_on_both_axes() {
    // Two rows of 0xFF at (60, 31): columns 60..63 and 0..3 of rows 31 and 0.
    let mut vm = vm_with(&[
        0xA2, 0x0A, // I := 0x20A
        0x60, 0x3C, // V0 := 60
        0x61, 0x1F, // V1 := 31
        0xD0, 0x12, // draw 2 rows
        0x00, 0x00,
        0xFF, 0xFF,
    ]);
    for _ in 0..4 {
        vm.step().unwrap();
    }
    for &row in &[31usize, 0] {
        for col in 0..64usize {
            let expected = matches!(col, 60..=63 | 0..=3);
            assert_eq!(vm.screen.pixels[row][col] == 1, expected, "row {row} col {col}");
        }
    }
    for row in 1..31usize {
        assert!(vm.screen.pixels[row].iter().all(|&p| p == 0), "row {row}");
    }
}

#[test]
fn add_immediate_wraps_without_flag() {
    // V0 := 0xFF, VF untouched; V0 += 2 wraps to 1 and still no flag.
    let mut vm = vm_with(&[0x60, 0xFF, 0x70, 0x02]);
    vm.step().unwrap();
    vm.step().unwrap();
    assert_eq!(vm.cpu.read_reg_vx(0), 0x01);
    assert_eq!(vm.cpu.read_reg_vx(0xF), 0);
}

#[test]
fn add_registers_sets_carry_exactly_on_overflow() {
    // 200 + 100 = 300: result 44, carry 1.
    let mut vm = vm_with(&[0x60, 0xC8, 0x61, 0x64, 0x80, 0x14]);
    for _ in 0..3 {
        vm.step().unwrap();
    }
    assert_eq!(vm.cpu.read_reg_vx(0), 44);
    assert_eq!(vm.cpu.read_reg_vx(0xF), 1);
    // 100 + 100 = 200: no carry.
    let mut vm = vm_with(&[0x60, 0x64, 0x61, 0x64, 0x80, 0x14]);
    for _ in 0..3 {
        vm.step().unwrap();
    }
    assert_eq!(vm.cpu.read_reg_vx(0), 200);
    assert_eq!(vm.cpu.read_reg_vx(0xF), 0);
    // 255 + 1 = 256: result 0, carry 1 (boundary).
    let mut vm = vm_with(&[0x60, 0xFF, 0x61, 0x01, 0x80, 0x14]);
    for _ in 0..3 {
        vm.step().unwrap();
    }
    assert_eq!(vm.cpu.read_reg_vx(0), 0);
    assert_eq!(vm.cpu.read_reg_vx(0xF), 1);
}

#[test]
fn return_on_empty_stack_is_reported() {
    let mut vm = vm_with(&[0x00, 0xEE]);
    assert_eq!(vm.step(), Err(Chip8Error::StackUnderflow));
    // The machine did not advance.
    assert_eq!(vm.cpu.pc(), 0x200);
}

#[test]
fn call_and_return_round_trip() {
    let mut vm = vm_with(&[0x22, 0x04, 0x00, 0x00, 0x60, 0x07, 0x00, 0xEE]);
    vm.step().unwrap(); // call 0x204
    assert_eq!(vm.cpu.pc(), 0x204);
    vm.step().unwrap(); // V0 := 7
    vm.step().unwrap(); // return
    assert_eq!(vm.cpu.pc(), 0x202);
    assert_eq!(vm.cpu.read_reg_vx(0), 7);
}

#[test]
fn call_nesting_beyond_sixteen_is_reported() {
    // 2200: call 0x200 over and over; the 17th call finds the stack full.
    let mut vm = vm_with(&[0x22, 0x00]);
    for _ in 0..16 {
        vm.step().unwrap();
    }
    assert_eq!(vm.step(), Err(Chip8Error::StackOverflow));
}

#[test]
fn jump_and_jump_with_offset() {
    let mut vm = vm_with(&[0x13, 0x00]);
    vm.step().unwrap();
    assert_eq!(vm.cpu.pc(), 0x300);
    let mut vm = vm_with(&[0x60, 0x10, 0xB3, 0x00]);
    vm.step().unwrap();
    vm.step().unwrap();
    assert_eq!(vm.cpu.pc(), 0x310);
}

#[test]
fn skip_family_advances_by_four_or_two() {
    // 3XNN: equal -> skip.
    let mut vm = vm_with(&[0x60, 0x05, 0x30, 0x05]);
    vm.step().unwrap();
    vm.step().unwrap();
    assert_eq!(vm.cpu.pc(), 0x206);
    // 3XNN: unequal -> no skip.
    let mut vm = vm_with(&[0x60, 0x05, 0x30, 0x06]);
    vm.step().unwrap();
    vm.step().unwrap();
    assert_eq!(vm.cpu.pc(), 0x204);
    // 4XNN: unequal -> skip.
    let mut vm = vm_with(&[0x60, 0x05, 0x40, 0x06]);
    vm.step().unwrap();
    vm.step().unwrap();
    assert_eq!(vm.cpu.pc(), 0x206);
    // 5XY0: equal registers -> skip.
    let mut vm = vm_with(&[0x60, 0x05, 0x61, 0x05, 0x50, 0x10]);
    for _ in 0..3 {
        vm.step().unwrap();
    }
    assert_eq!(vm.cpu.pc(), 0x208);
    // 9XY0: unequal registers -> skip.
    let mut vm = vm_with(&[0x60, 0x05, 0x61, 0x06, 0x90, 0x10]);
    for _ in 0..3 {
        vm.step().unwrap();
    }
    assert_eq!(vm.cpu.pc(), 0x208);
}

#[test]
fn alu_bitwise_operations() {
    // V0 := 0xCC, V1 := 0xAA; then OR, AND, XOR, and plain assignment.
    let mut vm = vm_with(&[0x60, 0xCC, 0x61, 0xAA, 0x80, 0x11]);
    for _ in 0..3 {
        vm.step().unwrap();
    }
    assert_eq!(vm.cpu.read_reg_vx(0), 0xCC | 0xAA);
    let mut vm = vm_with(&[0x60, 0xCC, 0x61, 0xAA, 0x80, 0x12]);
    for _ in 0..3 {
        vm.step().unwrap();
    }
    assert_eq!(vm.cpu.read_reg_vx(0), 0xCC & 0xAA);
    let mut vm = vm_with(&[0x60, 0xCC, 0x61, 0xAA, 0x80, 0x13]);
    for _ in 0..3 {
        vm.step().unwrap();
    }
    assert_eq!(vm.cpu.read_reg_vx(0), 0xCC ^ 0xAA);
    let mut vm = vm_with(&[0x61, 0xAA, 0x80, 0x10]);
    vm.step().unwrap();
    vm.step().unwrap();
    assert_eq!(vm.cpu.read_reg_vx(0), 0xAA);
}

#[test]
fn alu_subtraction_borrow_flags() {
    // 8XY5: V0 - V1 with V0 > V1: flag 1.
    let mut vm = vm_with(&[0x60, 0x0A, 0x61, 0x03, 0x80, 0x15]);
    for _ in 0..3 {
        vm.step().unwrap();
    }
    assert_eq!(vm.cpu.read_reg_vx(0), 7);
    assert_eq!(vm.cpu.read_reg_vx(0xF), 1);
    // 8XY5 with V0 < V1 wraps and clears the flag.
    let mut vm = vm_with(&[0x60, 0x03, 0x61, 0x0A, 0x80, 0x15]);
    for _ in 0..3 {
        vm.step().unwrap();
    }
    assert_eq!(vm.cpu.read_reg_vx(0), 249);
    assert_eq!(vm.cpu.read_reg_vx(0xF), 0);
    // 8XY7: V1 - V0.
    let mut vm = vm_with(&[0x60, 0x03, 0x61, 0x0A, 0x80, 0x17]);
    for _ in 0..3 {
        vm.step().unwrap();
    }
    assert_eq!(vm.cpu.read_reg_vx(0), 7);
    assert_eq!(vm.cpu.read_reg_vx(0xF), 1);
}

#[test]
fn alu_shifts_capture_shifted_bit() {
    // 8XY6: V0 := V0 >> 1, VF := old bit 0.
    let mut vm = vm_with(&[0x60, 0x05, 0x80, 0x16]);
    vm.step().unwrap();
    vm.step().unwrap();
    assert_eq!(vm.cpu.read_reg_vx(0), 2);
    assert_eq!(vm.cpu.read_reg_vx(0xF), 1);
    // 8XYE: V0 := V0 << 1, VF := old bit 7.
    let mut vm = vm_with(&[0x60, 0x81, 0x80, 0x1E]);
    vm.step().unwrap();
    vm.step().unwrap();
    assert_eq!(vm.cpu.read_reg_vx(0), 0x02);
    assert_eq!(vm.cpu.read_reg_vx(0xF), 1);
}

#[test]
fn random_byte_is_masked() {
    // CXNN with mask 0 always writes 0.
    let mut vm = vm_with(&[0xC0, 0x00]);
    vm.step().unwrap();
    assert_eq!(vm.cpu.read_reg_vx(0), 0);
    // Mask 0x0F keeps only the low nibble.
    for _ in 0..20 {
        let mut vm = vm_with(&[0xC0, 0x0F]);
        vm.step().unwrap();
        assert!(vm.cpu.read_reg_vx(0) < 16);
    }
}

#[test]
fn key_skip_queries_keypad() {
    // EX9E: key of V0 pressed -> skip over the next instruction.
    let mut vm = vm_with(&[0x60, 0x07, 0xE0, 0x9E, 0x00, 0x00, 0xE0, 0xA1]);
    vm.keypad.keys_state[7] = true;
    vm.step().unwrap();
    vm.step().unwrap();
    assert_eq!(vm.cpu.pc(), 0x206);
    // EXA1: key pressed -> no skip.
    vm.step().unwrap();
    assert_eq!(vm.cpu.pc(), 0x208);
}

#[test]
fn invalid_key_code_is_reported() {
    let mut vm = vm_with(&[0x60, 0x20, 0xE0, 0x9E]);
    vm.step().unwrap();
    assert_eq!(vm.step(), Err(Chip8Error::InvalidKeyCode { key_code: 0x20 }));
}

#[test]
fn key_wait_holds_until_a_key_arrives() {
    let mut vm = vm_with(&[0xF0, 0x0A]);
    // No key pressed: the instruction is re-presented.
    vm.step().unwrap();
    assert_eq!(vm.cpu.pc(), 0x200);
    vm.step().unwrap();
    assert_eq!(vm.cpu.pc(), 0x200);
    // A key arrives: the lowest pressed key lands in V0.
    vm.keypad.keys_state[9] = true;
    vm.keypad.keys_state[3] = true;
    vm.step().unwrap();
    assert_eq!(vm.cpu.pc(), 0x202);
    assert_eq!(vm.cpu.read_reg_vx(0), 3);
}

#[test]
fn timers_are_set_and_read() {
    let mut vm = vm_with(&[0x60, 0x3C, 0xF0, 0x15, 0xF0, 0x18, 0xF1, 0x07]);
    for _ in 0..4 {
        vm.step().unwrap();
    }
    assert_eq!(vm.cpu.delay_timer(), 60);
    assert_eq!(vm.cpu.sound_timer(), 60);
    assert_eq!(vm.cpu.read_reg_vx(1), 60);
}

#[test]
fn index_register_add() {
    let mut vm = vm_with(&[0xA3, 0x00, 0x60, 0x10, 0xF0, 0x1E]);
    for _ in 0..3 {
        vm.step().unwrap();
    }
    assert_eq!(vm.cpu.index_register(), 0x310);
}

#[test]
fn bcd_decomposition() {
    let mut vm = vm_with(&[0x60, 0xFE, 0xA3, 0x00, 0xF0, 0x33]);
    for _ in 0..3 {
        vm.step().unwrap();
    }
    assert_eq!(vm.ram.read_bytes(0x300, 3).unwrap(), vec![2, 5, 4]);
}

#[test]
fn bcd_out_of_bounds_is_reported() {
    let mut vm = vm_with(&[0x60, 0x07, 0xAF, 0xFE, 0xF0, 0x33]);
    vm.step().unwrap();
    vm.step().unwrap();
    assert_eq!(
        vm.step(),
        Err(Chip8Error::OutOfBoundsWrite { address: 0xFFE, len: 3 })
    );
}

#[test]
fn register_dump_and_load_advance_index() {
    // V0..V2 := 1, 2, 3; dump V0..V2 at 0x300; I ends at 0x303.
    let mut vm = vm_with(&[
        0x60, 0x01, 0x61, 0x02, 0x62, 0x03, 0xA3, 0x00, 0xF2, 0x55,
    ]);
    for _ in 0..5 {
        vm.step().unwrap();
    }
    assert_eq!(vm.ram.read_bytes(0x300, 3).unwrap(), vec![1, 2, 3]);
    assert_eq!(vm.cpu.index_register(), 0x303);

    // Load them back into another machine's V0..V2.
    let mut vm2 = vm_with(&[0xA3, 0x00, 0xF2, 0x65]);
    vm2.ram.write_bytes(0x300, &[9, 8, 7]).unwrap();
    vm2.step().unwrap();
    vm2.step().unwrap();
    assert_eq!(vm2.cpu.read_reg_vx(0), 9);
    assert_eq!(vm2.cpu.read_reg_vx(1), 8);
    assert_eq!(vm2.cpu.read_reg_vx(2), 7);
    assert_eq!(vm2.cpu.read_reg_vx(3), 0);
    assert_eq!(vm2.cpu.index_register(), 0x303);
}

#[test]
fn register_dump_out_of_bounds_is_reported() {
    let mut vm = vm_with(&[0xAF, 0xFE, 0xF2, 0x55]);
    vm.step().unwrap();
    assert_eq!(
        vm.step(),
        Err(Chip8Error::OutOfBoundsWrite { address: 0xFFE, len: 3 })
    );
}

#[test]
fn sprite_rows_outside_memory_are_reported() {
    let mut vm = vm_with(&[0xAF, 0xFE, 0xD0, 0x05]);
    vm.step().unwrap();
    assert_eq!(
        vm.step(),
        Err(Chip8Error::OutOfBoundsRead { address: 0xFFE, size: 5 })
    );
}

#[test]
fn clear_screen_opcode() {
    let mut vm = vm_with(&[0xA0, 0x00, 0xD0, 0x05, 0x00, 0xE0]);
    vm.step().unwrap();
    vm.step().unwrap();
    let lit: usize = vm.screen.pixels.iter().map(|row| row.iter().filter(|&&p| p == 1).count()).sum();
    assert!(lit > 0);
    vm.step().unwrap();
    let lit: usize = vm.screen.pixels.iter().map(|row| row.iter().filter(|&&p| p == 1).count()).sum();
    assert_eq!(lit, 0);
    assert_eq!(vm.cpu.pc(), 0x206);
}

#[test]
fn unrecognized_opcodes_are_reported() {
    for rom in [[0x00u8, 0x00], [0x80, 0x18], [0xE0, 0x00], [0xF0, 0xFF]] {
        let mut vm = vm_with(&rom);
        assert_eq!(
            vm.step(),
            Err(Chip8Error::UnrecognizedOpcode {
                opcode: u16::from_be_bytes(rom)
            })
        );
    }
}

#[test]
fn fetch_outside_memory_is_reported() {
    // Jump to the last byte of memory: the second fetch byte is outside.
    let mut vm = vm_with(&[0x1F, 0xFF]);
    vm.step().unwrap();
    assert_eq!(
        vm.step(),
        Err(Chip8Error::OutOfBoundsRead { address: 0x1000, size: 1 })
    );
}

#[test]
fn set_index_register() {
    let mut vm = vm_with(&[0xA1, 0x23]);
    vm.step().unwrap();
    assert_eq!(vm.cpu.index_register(), 0x123);
    assert_eq!(vm.cpu.pc(), 0x202);
}

#[test]
fn index_register_add_wraps_at_sixteen_bits() {
    // V0 := 0xFF, then add it to I in a tight loop; after 258 additions the
    // register has passed 0xFFFF and wrapped to 254.
    let mut vm = vm_with(&[0x60, 0xFF, 0xF0, 0x1E, 0x12, 0x02]);
    vm.step().unwrap();
    for _ in 0..257 {
        vm.step().unwrap(); // FX1E
        vm.step().unwrap(); // jump back
    }
    assert_eq!(vm.cpu.index_register(), 0xFFFF);
    vm.step().unwrap();
    assert_eq!(vm.cpu.index_register(), 254);
}

#[test]
fn key_wait_accepts_key_zero() {
    let mut vm = vm_with(&[0x61, 0x07, 0xF1, 0x0A]);
    vm.step().unwrap();
    vm.keypad.keys_state[0] = true;
    vm.step().unwrap();
    assert_eq!(vm.cpu.pc(), 0x204);
    assert_eq!(vm.cpu.read_reg_vx(1), 0);
}

#[test]
fn subtraction_of_equal_registers_clears_flag() {
    let mut vm = vm_with(&[0x60, 0x09, 0x61, 0x09, 0x80, 0x15]);
    for _ in 0..3 {
        vm.step().unwrap();
    }
    assert_eq!(vm.cpu.read_reg_vx(0), 0);
    assert_eq!(vm.cpu.read_reg_vx(0xF), 0);
}
