use chip8::cpu::Cpu;
use chip8::display::Display;
use chip8::keyboard::Keyboard;
use chip8::memory::Memory;

fn with_program(opcodes: &[u16]) -> Cpu {
    let mut rom: Vec<u8> = Vec::new();
    for op in opcodes {
        rom.push((op >> 8) as u8);
        rom.push((op & 0xFF) as u8);
    }
    let mut cpu = Cpu::new();
    cpu.load(&rom);
    cpu
}

#[test]
fn fresh_machine_state() {
    let cpu = Cpu::new();
    assert_eq!(cpu.program_counter, 0x200);
    assert_eq!(cpu.index, 0);
    assert_eq!(cpu.delay_timer, 0);
    assert_eq!(cpu.sound_timer, 0);
    assert!(cpu.stack.is_empty());
    assert_eq!(cpu.registers, vec![0u8; 16]);
    assert!(cpu.keyboard.pressed_keys().iter().all(|k| !k));
    for y in 0..32 {
        for x in 0..64 {
            assert!(!cpu.display.get_pixel(x, y));
        }
    }
    // The font sits at 0x000..0x050; the rest of memory is clear.
    assert_eq!(cpu.memory.read(0), 0xF0);
    assert_eq!(cpu.memory.read(79), 0x80);
    for a in 80..4096u16 {
        assert_eq!(cpu.memory.read(a), 0);
    }
}

#[test]
fn memory_out_of_range_is_lenient() {
    let mut mem = Memory::new();
    mem.write(4095, 0xAB);
    assert_eq!(mem.read(4095), 0xAB);
    mem.write(4096, 0xCD);
    assert_eq!(mem.read(4096), 0);
    mem.write(0xFFFF, 0xCD);
    assert_eq!(mem.read(0xFFFF), 0);
}

#[test]
fn program_load_truncates_at_memory_end() {
    let mut mem = Memory::new();
    let rom = vec![0xABu8; 5000];
    mem.load_program(&rom);
    assert_eq!(mem.read(0x200), 0xAB);
    assert_eq!(mem.read(4095), 0xAB);
    assert_eq!(mem.read(0x1FF), 0, "nothing below the program start");
    assert_eq!(mem.read(0), 0, "load_program alone writes no font");
}

#[test]
fn empty_program_loads() {
    let mut cpu = Cpu::new();
    cpu.load(&[]);
    assert_eq!(cpu.memory.read(0x200), 0);
    assert_eq!(cpu.program_counter, 0x200);
}

#[test]
fn display_bounds_are_lenient() {
    let mut d = Display::new();
    d.toggle_pixel(63, 31);
    assert!(d.get_pixel(63, 31));
    d.toggle_pixel(64, 0);
    d.toggle_pixel(0, 32);
    d.toggle_pixel(1000, 1000);
    assert!(!d.get_pixel(64, 0));
    assert!(!d.get_pixel(0, 32));
    for y in 0..32 {
        for x in 0..64 {
            assert_eq!(d.get_pixel(x, y), x == 63 && y == 31);
        }
    }
    d.clear();
    assert!(!d.get_pixel(63, 31));
}

#[test]
fn keyboard_queries() {
    let mut k = Keyboard::new();
    assert_eq!(k.get_pressed_key(), None);
    k.set(9, true);
    k.set(4, true);
    assert!(k.is_key_pressed(4));
    assert!(k.is_key_pressed(9));
    assert!(!k.is_key_pressed(5));
    assert!(!k.is_key_pressed(200));
    assert_eq!(k.get_pressed_key(), Some(4), "lowest index wins");
    k.set(20, true);
    assert_eq!(k.pressed_keys().iter().filter(|p| **p).count(), 2, "out-of-range set ignored");
    k.set(4, false);
    assert_eq!(k.get_pressed_key(), Some(9));
    k.clear();
    assert_eq!(k.get_pressed_key(), None);
}

#[test]
fn timers_decrement_to_zero_and_stop() {
    let mut cpu = with_program(&[0x6302, 0xF315, 0x6401, 0xF418]);
    for _ in 0..4 {
        cpu.cycle().unwrap();
    }
    assert_eq!(cpu.delay_timer, 2);
    assert_eq!(cpu.sound_timer, 1);
    cpu.tick_timers();
    assert_eq!(cpu.delay_timer, 1);
    assert_eq!(cpu.sound_timer, 0);
    cpu.tick_timers();
    cpu.tick_timers();
    assert_eq!(cpu.delay_timer, 0, "timers never wrap below zero");
    assert_eq!(cpu.sound_timer, 0);
}

#[test]
fn jump_call_and_return() {
    let mut cpu = with_program(&[0x2206, 0x0000, 0x0000, 0x00EE]);
    cpu.cycle().unwrap();
    assert_eq!(cpu.program_counter, 0x206);
    assert_eq!(cpu.stack, vec![0x202]);
    cpu.cycle().unwrap();
    assert_eq!(cpu.program_counter, 0x202, "return pops the pushed address");
    assert!(cpu.stack.is_empty());
}

#[test]
fn plain_jump() {
    let mut cpu = with_program(&[0x1ABC]);
    cpu.cycle().unwrap();
    assert_eq!(cpu.program_counter, 0xABC);
    assert!(cpu.stack.is_empty());
}

#[test]
fn jump_with_offset() {
    let mut cpu = with_program(&[0xB300]);
    cpu.registers[0] = 0x21;
    cpu.cycle().unwrap();
    assert_eq!(cpu.program_counter, 0x321);
}

#[test]
fn immediate_skips() {
    let mut cpu = with_program(&[0x3507]);
    cpu.registers[5] = 7;
    cpu.cycle().unwrap();
    assert_eq!(cpu.program_counter, 0x204, "3xnn skips on equal");

    let mut cpu = with_program(&[0x3507]);
    cpu.registers[5] = 8;
    cpu.cycle().unwrap();
    assert_eq!(cpu.program_counter, 0x202);

    let mut cpu = with_program(&[0x4507]);
    cpu.registers[5] = 8;
    cpu.cycle().unwrap();
    assert_eq!(cpu.program_counter, 0x204, "4xnn skips on unequal");
}

#[test]
fn register_skips() {
    let mut cpu = with_program(&[0x5120]);
    cpu.registers[1] = 9;
    cpu.registers[2] = 9;
    cpu.cycle().unwrap();
    assert_eq!(cpu.program_counter, 0x204);

    let mut cpu = with_program(&[0x9120]);
    cpu.registers[1] = 9;
    cpu.registers[2] = 8;
    cpu.cycle().unwrap();
    assert_eq!(cpu.program_counter, 0x204);

    let mut cpu = with_program(&[0x9120]);
    cpu.registers[1] = 9;
    cpu.registers[2] = 9;
    cpu.cycle().unwrap();
    assert_eq!(cpu.program_counter, 0x202);
}

#[test]
fn key_skips() {
    let mut cpu = with_program(&[0xE19E]);
    cpu.registers[1] = 6;
    cpu.keyboard.set(6, true);
    cpu.cycle().unwrap();
    assert_eq!(cpu.program_counter, 0x204, "Ex9E skips when the key is down");

    let mut cpu = with_program(&[0xE1A1]);
    cpu.registers[1] = 6;
    cpu.cycle().unwrap();
    assert_eq!(cpu.program_counter, 0x204, "ExA1 skips when the key is up");
}

#[test]
fn register_moves_and_bitwise_quirk() {
    let mut cpu = with_program(&[0x6A5C]);
    cpu.cycle().unwrap();
    assert_eq!(cpu.registers[10], 0x5C);

    let mut cpu = with_program(&[0x8120]);
    cpu.registers[2] = 0x77;
    cpu.cycle().unwrap();
    assert_eq!(cpu.registers[1], 0x77);

    for (op, expect) in [(0x8121u16, 0xF0u8 | 0x0F), (0x8122, 0xF0 & 0x0F), (0x8123, 0xF0 ^ 0x0F)] {
        let mut cpu = with_program(&[op]);
        cpu.registers[1] = 0xF0;
        cpu.registers[2] = 0x0F;
        cpu.registers[15] = 1;
        cpu.cycle().unwrap();
        assert_eq!(cpu.registers[1], expect);
        assert_eq!(cpu.registers[15], 0, "8xy1/2/3 force VF to 0");
    }
}

#[test]
fn index_register_opcodes() {
    let mut cpu = with_program(&[0xA123, 0xF51E]);
    cpu.registers[5] = 0x10;
    cpu.cycle().unwrap();
    assert_eq!(cpu.index, 0x123);
    cpu.cycle().unwrap();
    assert_eq!(cpu.index, 0x133, "Fx1E adds Vx to the index");
}

#[test]
fn delay_timer_read() {
    let mut cpu = with_program(&[0xF207]);
    cpu.delay_timer = 0x3C;
    cpu.cycle().unwrap();
    assert_eq!(cpu.registers[2], 0x3C);
}

#[test]
fn binary_coded_decimal() {
    let mut cpu = with_program(&[0xF733]);
    cpu.registers[7] = 159;
    cpu.index = 0x300;
    cpu.cycle().unwrap();
    assert_eq!(cpu.memory.read(0x300), 1);
    assert_eq!(cpu.memory.read(0x301), 5);
    assert_eq!(cpu.memory.read(0x302), 9);
    assert_eq!(cpu.index, 0x300, "Fx33 leaves the index in place");
}

#[test]
fn random_byte_is_masked() {
    let mut cpu = with_program(&[0xC300]);
    cpu.registers[3] = 0xAA;
    cpu.cycle().unwrap();
    assert_eq!(cpu.registers[3], 0, "a zero mask forces zero");

    let mut cpu = with_program(&[0xC30F]);
    cpu.cycle().unwrap();
    assert!(cpu.registers[3] < 16, "the drawn byte is masked with nn");
}

#[test]
fn clear_screen_opcode() {
    let mut cpu = with_program(&[0x00E0]);
    cpu.display.toggle_pixel(3, 4);
    cpu.display.toggle_pixel(60, 30);
    cpu.cycle().unwrap();
    for y in 0..32 {
        for x in 0..64 {
            assert!(!cpu.display.get_pixel(x, y));
        }
    }
    assert_eq!(cpu.program_counter, 0x202);
}
