use chip8::cpu::Cpu;
use chip8::semantics::Fault;

fn boot(opcodes: &[u16]) -> Cpu {
    let mut rom: Vec<u8> = Vec::new();
    for op in opcodes {
        rom.push((op >> 8) as u8);
        rom.push((op & 0xFF) as u8);
    }
    let mut cpu = Cpu::new();
    cpu.load(&rom);
    cpu
}

#[test]
fn add_wraps_modulo_256() {
    let mut cpu = boot(&[0x750A]);
    cpu.registers[5] = 250;
    cpu.registers[15] = 7;
    cpu.cycle().unwrap();
    assert_eq!(cpu.registers[5], 4);
    assert_eq!(cpu.registers[15], 7, "7xnn must not touch the flag register");
    assert_eq!(cpu.program_counter, 0x202);
}

#[test]
fn add_reg_sets_carry() {
    let mut cpu = boot(&[0x8124]);
    cpu.registers[1] = 200;
    cpu.registers[2] = 100;
    cpu.cycle().unwrap();
    assert_eq!(cpu.registers[1], 44);
    assert_eq!(cpu.registers[15], 1);
}

#[test]
fn add_reg_clears_carry() {
    let mut cpu = boot(&[0x8124]);
    cpu.registers[1] = 10;
    cpu.registers[2] = 20;
    cpu.registers[15] = 1;
    cpu.cycle().unwrap();
    assert_eq!(cpu.registers[1], 30);
    assert_eq!(cpu.registers[15], 0);
}

#[test]
fn sub_without_borrow() {
    let mut cpu = boot(&[0x8125]);
    cpu.registers[1] = 10;
    cpu.registers[2] = 3;
    cpu.cycle().unwrap();
    assert_eq!(cpu.registers[1], 7);
    assert_eq!(cpu.registers[15], 1);
}

#[test]
fn sub_with_borrow_wraps() {
    let mut cpu = boot(&[0x8125]);
    cpu.registers[1] = 3;
    cpu.registers[2] = 10;
    cpu.registers[15] = 1;
    cpu.cycle().unwrap();
    assert_eq!(cpu.registers[1], 249);
    assert_eq!(cpu.registers[15], 0);
}

#[test]
fn shr_flag_from_original_vx() {
    // Same Vx, two very different Vy values: the outcome must not change.
    for vy in [0x00u8, 0xFF] {
        let mut cpu = boot(&[0x8126]);
        cpu.registers[1] = 0b0000_0101;
        cpu.registers[2] = vy;
        cpu.cycle().unwrap();
        assert_eq!(cpu.registers[1], 0b0000_0010);
        assert_eq!(cpu.registers[15], 1, "flag is the low bit of the original Vx");
    }
}

#[test]
fn shl_flag_from_original_vx() {
    for vy in [0x00u8, 0xFF] {
        let mut cpu = boot(&[0x812E]);
        cpu.registers[1] = 0x81;
        cpu.registers[2] = vy;
        cpu.cycle().unwrap();
        assert_eq!(cpu.registers[1], 0x02);
        assert_eq!(cpu.registers[15], 1, "flag is the high bit of the original Vx");
    }
}

#[test]
fn subn_reverse_subtract() {
    let mut cpu = boot(&[0x8127]);
    cpu.registers[1] = 3;
    cpu.registers[2] = 10;
    cpu.cycle().unwrap();
    assert_eq!(cpu.registers[1], 7);
    assert_eq!(cpu.registers[15], 1);
}

#[test]
fn draw_sets_collision_flag_once() {
    // Draw the same two-row sprite twice at the same spot: the second
    // draw collides on many pixels but VF is simply 1, and the XOR
    // erases the sprite again.
    let mut cpu = boot(&[0xD015, 0xD015]);
    // Index points at the font glyph "0" (five rows at address 0).
    cpu.registers[0] = 4;
    cpu.registers[1] = 9;
    cpu.index = 0;
    cpu.cycle().unwrap();
    assert_eq!(cpu.registers[15], 0, "first draw hits only dark pixels");
    assert!(cpu.display.get_pixel(4, 9));
    cpu.cycle().unwrap();
    assert_eq!(cpu.registers[15], 1, "second draw collides");
    for y in 0..32 {
        for x in 0..64 {
            assert!(!cpu.display.get_pixel(x, y), "XOR twice is blank");
        }
    }
}

#[test]
fn draw_clips_at_canvas_edge() {
    // A solid 8-bit row drawn at column 62 row 31: only (62,31) and
    // (63,31) may light; nothing wraps to column 0 or row 0.
    let mut cpu = boot(&[0xD011]);
    cpu.registers[0] = 62;
    cpu.registers[1] = 31;
    cpu.index = 0x300;
    cpu.memory.write(0x300, 0xFF);
    cpu.cycle().unwrap();
    assert!(cpu.display.get_pixel(62, 31));
    assert!(cpu.display.get_pixel(63, 31));
    assert_eq!(cpu.registers[15], 0);
    for y in 0..32 {
        for x in 0..64 {
            let expect = y == 31 && (x == 62 || x == 63);
            assert_eq!(cpu.display.get_pixel(x, y), expect, "pixel ({}, {})", x, y);
        }
    }
}

#[test]
fn draw_fully_off_canvas_changes_nothing() {
    let mut cpu = boot(&[0xD012]);
    cpu.registers[0] = 80;
    cpu.registers[1] = 40;
    cpu.index = 0x300;
    cpu.memory.write(0x300, 0xFF);
    cpu.memory.write(0x301, 0xFF);
    cpu.cycle().unwrap();
    assert_eq!(cpu.registers[15], 0);
    for y in 0..32 {
        for x in 0..64 {
            assert!(!cpu.display.get_pixel(x, y));
        }
    }
}

#[test]
fn ret_on_empty_stack_leaves_pc() {
    let mut cpu = boot(&[0x00EE]);
    cpu.cycle().unwrap();
    assert_eq!(cpu.program_counter, 0x202, "the pop is a no-op; only the fetch moved PC");
    assert!(cpu.stack.is_empty());
}

#[test]
fn wait_key_spins_until_pressed() {
    let mut cpu = boot(&[0xF30A]);
    cpu.cycle().unwrap();
    assert_eq!(cpu.program_counter, 0x200, "no key: the opcode re-executes");
    cpu.cycle().unwrap();
    assert_eq!(cpu.program_counter, 0x200);
    cpu.keyboard.set(5, true);
    cpu.keyboard.set(2, true);
    cpu.cycle().unwrap();
    assert_eq!(cpu.registers[3], 2, "lowest-indexed pressed key wins");
    assert_eq!(cpu.program_counter, 0x202);
}

#[test]
fn reset_and_load_erase_all_history() {
    let rom: Vec<u8> = vec![0x60, 0x2A, 0x71, 0x05, 0xA9, 0x99];
    let mut used = Cpu::new();
    used.load(&[0x12, 0x00]);
    // Scramble every part of the machine state.
    for i in 0..16 {
        used.registers[i] = (i as u8) * 3 + 1;
        used.keyboard.set(i as u8, true);
    }
    used.index = 0xFFF;
    used.delay_timer = 99;
    used.sound_timer = 42;
    used.stack.push(0x234);
    used.memory.write(0x400, 0x77);
    used.display.toggle_pixel(10, 10);
    used.cycle().unwrap();

    used.load(&rom);
    let mut fresh = Cpu::new();
    fresh.load(&rom);

    assert_eq!(used.registers, fresh.registers);
    assert_eq!(used.index, fresh.index);
    assert_eq!(used.program_counter, fresh.program_counter);
    assert_eq!(used.stack, fresh.stack);
    assert_eq!(used.delay_timer, fresh.delay_timer);
    assert_eq!(used.sound_timer, fresh.sound_timer);
    assert_eq!(used.keyboard.pressed_keys(), fresh.keyboard.pressed_keys());
    for a in 0..4096u16 {
        assert_eq!(used.memory.read(a), fresh.memory.read(a), "address {}", a);
    }
    for y in 0..32 {
        for x in 0..64 {
            assert_eq!(used.display.get_pixel(x, y), fresh.display.get_pixel(x, y));
        }
    }
}

#[test]
fn store_then_load_restores_registers() {
    let mut cpu = boot(&[0xF355, 0xA300, 0xF365]);
    cpu.registers[0] = 11;
    cpu.registers[1] = 22;
    cpu.registers[2] = 33;
    cpu.registers[3] = 44;
    cpu.registers[4] = 55;
    cpu.index = 0x300;
    cpu.cycle().unwrap();
    assert_eq!(cpu.index, 0x304, "Fx55 advances the index by x + 1");
    // Scramble V0..V3, then point the index back and load.
    for i in 0..4 {
        cpu.registers[i] = 0xEE;
    }
    cpu.cycle().unwrap();
    assert_eq!(cpu.index, 0x300);
    cpu.cycle().unwrap();
    assert_eq!(cpu.index, 0x304);
    assert_eq!(&cpu.registers[0..4], &[11, 22, 33, 44]);
    assert_eq!(cpu.registers[4], 55, "registers above x are untouched");
}

#[test]
fn font_glyph_address_and_bytes() {
    let mut cpu = boot(&[0xF229]);
    cpu.registers[2] = 0xA;
    cpu.cycle().unwrap();
    assert_eq!(cpu.index, 50);
    let glyph: Vec<u8> = (50..55).map(|a| cpu.memory.read(a)).collect();
    assert_eq!(glyph, vec![0xF0, 0x90, 0xF0, 0x90, 0x90], "the built-in A glyph");
}

#[test]
fn invalid_opcode_reports_opcode_and_pc() {
    let mut cpu = boot(&[0x5001]);
    let fault = cpu.cycle().unwrap_err();
    assert_eq!(fault, Fault::InvalidOpcode { opcode: 0x5001, pc: 0x200 });
    assert_eq!(cpu.program_counter, 0x202, "only the fetch moved PC");
}

#[test]
fn invalid_opcode_variants() {
    for (op, at) in [(0x0123u16, 0x200u16), (0x8008, 0x200), (0x9001, 0x200), (0xE0FF, 0x200), (
        0xF0FF,
        0x200,
    )] {
        let mut cpu = boot(&[op]);
        let fault = cpu.cycle().unwrap_err();
        assert_eq!(fault, Fault::InvalidOpcode { opcode: op, pc: at });
    }
}

#[test]
fn add_reg_flag_wins_when_x_is_the_flag() {
    // 8F14: the sum lands in VF, then the carry flag overwrites it.
    let mut cpu = boot(&[0x8F14]);
    cpu.registers[15] = 200;
    cpu.registers[1] = 100;
    cpu.cycle().unwrap();
    assert_eq!(cpu.registers[15], 1);
}

#[test]
fn draw_position_read_before_flag_reset() {
    // DF11: the x position comes from VF, which the draw then zeroes.
    let mut cpu = boot(&[0xDF11]);
    cpu.registers[15] = 3;
    cpu.registers[1] = 5;
    cpu.index = 0x300;
    cpu.memory.write(0x300, 0x80);
    cpu.cycle().unwrap();
    assert!(cpu.display.get_pixel(3, 5), "position uses the pre-draw VF value");
    assert_eq!(cpu.registers[15], 0);
}

#[test]
fn index_addition_wraps() {
    let mut cpu = boot(&[0xF11E]);
    cpu.index = 0xFFFF;
    cpu.registers[1] = 2;
    cpu.cycle().unwrap();
    assert_eq!(cpu.index, 1, "Fx1E wraps around the 16-bit index");
}

#[test]
fn call_stack_overflow_faults() {
    // 0x2200 at 0x200 calls itself forever; the 17th call finds the
    // 16-slot stack full.
    let mut cpu = boot(&[0x2200]);
    for depth in 1..=16 {
        cpu.cycle().unwrap();
        assert_eq!(cpu.stack.len(), depth);
        assert_eq!(cpu.program_counter, 0x200);
    }
    let fault = cpu.cycle().unwrap_err();
    assert_eq!(fault, Fault::StackOverflow { opcode: 0x2200, pc: 0x200 });
    assert_eq!(cpu.stack.len(), 16, "the failed call pushes nothing");
}
