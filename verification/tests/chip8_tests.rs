use chip8::emulator::bus::{delay_timer_after, Bus};
use chip8::emulator::chip8::Chip8;
use chip8::emulator::cpu::{instruction_from_bytes, instruction_kind, Cpu, PROGRAM_START};
use chip8::emulator::display::{Display, HEIGHT, SCREEN_SIZE, WIDTH};
use chip8::emulator::keyboard::Keyboard;
use chip8::emulator::ram::Ram;
use std::time::{Duration, Instant};

fn load(bus: &mut Bus, at: u16, program: &[u16]) {
    for (k, ins) in program.iter().enumerate() {
        let a = at + 2 * k as u16;
        bus.ram_write_byte(a, (ins >> 8) as u8);
        bus.ram_write_byte(a + 1, (ins & 0xFF) as u8);
    }
}

fn run(cpu: &mut Cpu, bus: &mut Bus, steps: usize) {
    for _ in 0..steps {
        assert!(cpu.can_run_instruction(bus));
        cpu.run_instruction_with(bus, 0, 0);
    }
}

fn lit(screen: &[u8]) -> Vec<usize> {
    (0..screen.len()).filter(|&p| screen[p] == 1).collect()
}

// ----- display -----

#[test]
fn display_starts_blank() {
    let d = Display::new();
    let buf = d.get_display_buffer();
    assert_eq!(buf.len(), SCREEN_SIZE);
    assert_eq!(WIDTH * HEIGHT, SCREEN_SIZE);
    assert!(buf.iter().all(|&p| p == 0));
}

#[test]
fn display_index_is_row_major() {
    assert_eq!(Display::calc_index_from_coord(0, 0), 0);
    assert_eq!(Display::calc_index_from_coord(5, 0), 5);
    assert_eq!(Display::calc_index_from_coord(3, 2), 131);
    assert_eq!(Display::calc_index_from_coord(63, 31), 2047);
}

#[test]
fn display_draw_lights_bits_msb_first() {
    let mut d = Display::new();
    let erased = d.draw_byte_at_coord(0, 0, 0b1010_0001);
    assert!(!erased);
    assert_eq!(lit(d.get_display_buffer()), vec![0, 2, 7]);
}

#[test]
fn display_draw_twice_erases_and_restores() {
    let mut d = Display::new();
    assert!(!d.draw_byte_at_coord(10, 3, 0xF0));
    assert_eq!(lit(d.get_display_buffer()), vec![202, 203, 204, 205]);
    assert!(d.draw_byte_at_coord(10, 3, 0xF0));
    assert!(d.get_display_buffer().iter().all(|&p| p == 0));
}

#[test]
fn display_overlap_without_turning_off_is_no_collision() {
    let mut d = Display::new();
    assert!(!d.draw_byte_at_coord(0, 0, 0xF0));
    // Bits 0x0F land on pixels that are off: nothing is turned off.
    assert!(!d.draw_byte_at_coord(0, 0, 0x0F));
    assert_eq!(lit(d.get_display_buffer()), (0..8).collect::<Vec<_>>());
    // One overlapping bit turns pixel 3 off.
    assert!(d.draw_byte_at_coord(3, 0, 0x80));
    assert_eq!(lit(d.get_display_buffer()), vec![0, 1, 2, 4, 5, 6, 7]);
}

#[test]
fn display_draw_wraps_around_both_edges() {
    let mut d = Display::new();
    // Column 60, row 33 wraps to row 1; the row wraps from column 63 to column 0.
    assert!(!d.draw_byte_at_coord(60, 33, 0xFF));
    assert_eq!(lit(d.get_display_buffer()), vec![64, 65, 66, 67, 124, 125, 126, 127]);
    // Column 200 is column 8, row 255 is row 31.
    let mut e = Display::new();
    assert!(!e.draw_byte_at_coord(200, 255, 0x80));
    assert_eq!(lit(e.get_display_buffer()), vec![31 * 64 + 8]);
}

#[test]
fn display_clear_turns_everything_off() {
    let mut d = Display::new();
    d.draw_byte_at_coord(0, 0, 0xFF);
    d.draw_byte_at_coord(50, 20, 0x81);
    d.clear();
    assert!(d.get_display_buffer().iter().all(|&p| p == 0));
}

// ----- memory and keypad -----

#[test]
fn ram_starts_with_font() {
    let ram = Ram::new();
    let zero = [0xF0, 0x90, 0x90, 0x90, 0xF0];
    for (k, b) in zero.iter().enumerate() {
        assert_eq!(ram.read_byte(k as u16), *b);
    }
    // Digit F lives at 5 * 15.
    assert_eq!(ram.read_byte(75), 0xF0);
    assert_eq!(ram.read_byte(79), 0x80);
    assert_eq!(ram.read_byte(80), 0);
    assert_eq!(ram.read_byte(0x200), 0);
    assert_eq!(ram.read_byte(4095), 0);
}

#[test]
fn ram_read_after_write() {
    let mut ram = Ram::new();
    ram.write_byte(0x300, 0xAB);
    ram.write_byte(4095, 7);
    assert_eq!(ram.read_byte(0x300), 0xAB);
    assert_eq!(ram.read_byte(0x301), 0);
    assert_eq!(ram.read_byte(4095), 7);
    ram.write_byte(0x300, 1);
    assert_eq!(ram.read_byte(0x300), 1);
}

#[test]
fn keyboard_records_one_key() {
    let mut k = Keyboard::new();
    assert_eq!(k.get_key_pressed(), None);
    assert!(!k.is_key_pressed(0));
    k.set_key_pressed(Some(0xA));
    assert!(k.is_key_pressed(0xA));
    assert!(!k.is_key_pressed(0xB));
    assert_eq!(k.get_key_pressed(), Some(0xA));
    k.set_key_pressed(None);
    assert!(!k.is_key_pressed(0xA));
    assert_eq!(k.get_key_pressed(), None);
}

// ----- bus and delay timer -----

#[test]
fn delay_timer_counts_down_every_16_ms() {
    assert_eq!(delay_timer_after(10, 0), 10);
    assert_eq!(delay_timer_after(10, 15), 10);
    assert_eq!(delay_timer_after(10, 16), 9);
    assert_eq!(delay_timer_after(10, 32), 8);
    assert_eq!(delay_timer_after(10, 159), 1);
    assert_eq!(delay_timer_after(10, 160), 0);
    assert_eq!(delay_timer_after(10, 100_000), 0);
    assert_eq!(delay_timer_after(0, 0), 0);
    assert_eq!(delay_timer_after(255, u64::MAX), 0);
}

#[test]
fn bus_delay_timer_reads_at_most_its_value() {
    let mut bus = Bus::new();
    assert_eq!(bus.get_delay_timer(), 0);
    bus.set_delay_timer(200);
    let v = bus.get_delay_timer();
    assert!(v <= 200);
    assert!(v >= 190);
}

#[test]
fn bus_forwards_to_its_parts() {
    let mut bus = Bus::new();
    bus.ram_write_byte(0x400, 9);
    assert_eq!(bus.ram_read_byte(0x400), 9);
    bus.set_key_screen(Some(3));
    assert!(bus.is_key_pressed(3));
    assert_eq!(bus.get_key_pressed(), Some(3));
    // x and y are taken modulo 256 before wrapping around the screen.
    assert!(!bus.draw_byte_at_coord(256 + 1, 0, 0x80));
    assert_eq!(lit(bus.get_display_buffer()), vec![1]);
    bus.clear_screen();
    assert!(bus.get_display_buffer().iter().all(|&p| p == 0));
}

// ----- instruction decoding -----

#[test]
fn instructions_are_big_endian() {
    assert_eq!(instruction_from_bytes(0x12, 0x34), 0x1234);
    assert_eq!(instruction_from_bytes(0xA2, 0xF0), 0xA2F0);
    assert_eq!(instruction_kind(0xA2F0), 0xA);
    assert_eq!(instruction_kind(0x00E0), 0x0);
    assert_eq!(instruction_kind(0xFFFF), 0xF);
}

// ----- processor -----

/// Stores V0..=VF at 0xE00 and returns them (low bytes), using `AE00` and `FF55`.
fn dump_registers(cpu: &mut Cpu, bus: &mut Bus, at: u16) -> Vec<u8> {
    load(bus, at, &[0xAE00, 0xFF55]);
    run(cpu, bus, 2);
    (0..16).map(|r| bus.ram_read_byte(0xE00 + r)).collect()
}

#[test]
fn load_immediate_and_bcd() {
    let mut cpu = Cpu::new();
    let mut bus = Bus::new();
    load(&mut bus, PROGRAM_START, &[0x6A7B, 0xA300, 0xFA33]);
    run(&mut cpu, &mut bus, 3);
    assert_eq!(bus.ram_read_byte(0x300), 1);
    assert_eq!(bus.ram_read_byte(0x301), 2);
    assert_eq!(bus.ram_read_byte(0x302), 3);
}

#[test]
fn add_immediate_wraps_at_16_bits() {
    let mut cpu = Cpu::new();
    let mut bus = Bus::new();
    // V0 = 0xFF; V0 += 1 gives 0x100 (registers are 16 bits wide); BCD 2, 5, 6.
    load(&mut bus, PROGRAM_START, &[0x60FF, 0x7001, 0xA300, 0xF033]);
    run(&mut cpu, &mut bus, 4);
    assert_eq!(
        (bus.ram_read_byte(0x300), bus.ram_read_byte(0x301), bus.ram_read_byte(0x302)),
        (2, 5, 6)
    );
}

#[test]
fn alu_logic_and_moves() {
    let mut cpu = Cpu::new();
    let mut bus = Bus::new();
    load(
        &mut bus,
        PROGRAM_START,
        &[0x610C, 0x620A, 0x8310, 0x8321, 0x8410, 0x8422, 0x8510, 0x8523],
    );
    run(&mut cpu, &mut bus, 8);
    let regs = dump_registers(&mut cpu, &mut bus, 0x210);
    assert_eq!(&regs[1..6], &[0x0C, 0x0A, 0x0E, 0x08, 0x06]);
}

#[test]
fn alu_add_sets_flag_and_keeps_vx_on_carry() {
    let mut cpu = Cpu::new();
    let mut bus = Bus::new();
    // 0x80 + 0x90 > 0xFF: VF = 1, V1 unchanged. 0x10 + 0x20 = 0x30 is stored.
    load(&mut bus, PROGRAM_START, &[0x6180, 0x6290, 0x8124, 0x6310, 0x6420, 0x8344]);
    run(&mut cpu, &mut bus, 6);
    let regs = dump_registers(&mut cpu, &mut bus, 0x20C);
    assert_eq!(regs[1], 0x80);
    assert_eq!(regs[3], 0x30);
    assert_eq!(regs[15], 1);
}

#[test]
fn alu_sub_and_shifts() {
    let mut cpu = Cpu::new();
    let mut bus = Bus::new();
    // V1 = 3, V2 = 5: 8125 sets VF = 0 (3 > 5 is false) and V1 = 5 - 3 = 2.
    load(&mut bus, PROGRAM_START, &[0x6103, 0x6205, 0x8125]);
    run(&mut cpu, &mut bus, 3);
    let regs = dump_registers(&mut cpu, &mut bus, 0x206);
    assert_eq!((regs[1], regs[15]), (2, 0));

    let mut cpu = Cpu::new();
    let mut bus = Bus::new();
    // V1 = 5, V2 = 3: VF = 1 and V1 = 3 - 5 = -2, stored as 0xFFFE (low byte 0xFE).
    load(&mut bus, PROGRAM_START, &[0x6105, 0x6203, 0x8125]);
    run(&mut cpu, &mut bus, 3);
    let regs = dump_registers(&mut cpu, &mut bus, 0x206);
    assert_eq!((regs[1], regs[15]), (0xFE, 1));

    let mut cpu = Cpu::new();
    let mut bus = Bus::new();
    // 8116: V1 = 5 has its low bit set: VF = 1, V1 = 2. 8216: V2 = 0x81 -> 0x40, VF = 1.
    // 831E: V3 = 0x81: bit 7 set: VF = 1, V3 = 0x102 (low byte 0x02).
    load(&mut bus, PROGRAM_START, &[0x6105, 0x8116, 0x6381, 0x831E]);
    run(&mut cpu, &mut bus, 4);
    let regs = dump_registers(&mut cpu, &mut bus, 0x208);
    assert_eq!((regs[1], regs[3], regs[15]), (2, 0x02, 1));

    let mut cpu = Cpu::new();
    let mut bus = Bus::new();
    // 8127: VF = (V1 < V2) and V1 becomes 0.
    load(&mut bus, PROGRAM_START, &[0x6103, 0x6205, 0x8127]);
    run(&mut cpu, &mut bus, 3);
    let regs = dump_registers(&mut cpu, &mut bus, 0x206);
    assert_eq!((regs[1], regs[15]), (0, 1));
}

#[test]
fn skips_advance_by_four_when_taken() {
    let mut cpu = Cpu::new();
    let mut bus = Bus::new();
    // 3105 skips (V1 == 5): 6201 is skipped. 4105 does not skip: 6302 runs.
    load(
        &mut bus,
        PROGRAM_START,
        &[0x6105, 0x3105, 0x6201, 0x4105, 0x6302, 0x5130, 0x6403, 0x9130, 0x6504],
    );
    // 6105, 3105 (skip), 4105, 6302, 5130 (V1 != V3: no skip), 6403, 9130 (skip)
    run(&mut cpu, &mut bus, 7);
    let regs = dump_registers(&mut cpu, &mut bus, 0x212);
    assert_eq!(&regs[1..6], &[5, 0, 2, 3, 0]);
}

#[test]
fn jump_call_and_return() {
    let mut cpu = Cpu::new();
    let mut bus = Bus::new();
    // 0x200: call 0x300; 0x202: 6201; 0x204: jump 0x208; 0x208: (dump)
    // 0x300: 6107; 0x302: return
    load(&mut bus, PROGRAM_START, &[0x2300, 0x6201, 0x1208]);
    load(&mut bus, 0x300, &[0x6107, 0x00EE]);
    run(&mut cpu, &mut bus, 5);
    let regs = dump_registers(&mut cpu, &mut bus, 0x208);
    assert_eq!(&regs[1..3], &[7, 1]);
}

#[test]
fn jump_with_offset() {
    let mut cpu = Cpu::new();
    let mut bus = Bus::new();
    // V0 = 4; jump to 0x300 + 4.
    load(&mut bus, PROGRAM_START, &[0x6004, 0xB300]);
    load(&mut bus, 0x304, &[0x6909]);
    run(&mut cpu, &mut bus, 3);
    let regs = dump_registers(&mut cpu, &mut bus, 0x306);
    assert_eq!(regs[9], 9);
}

#[test]
fn random_byte_is_masked() {
    let mut cpu = Cpu::new();
    let mut bus = Bus::new();
    load(&mut bus, PROGRAM_START, &[0xC30F]);
    cpu.run_instruction_with(&mut bus, 0xAB, 0);
    let regs = dump_registers(&mut cpu, &mut bus, 0x202);
    assert_eq!(regs[3], 0x0B);
}

#[test]
fn random_byte_from_generator_stays_in_mask() {
    let mut seen_nonzero = false;
    for _ in 0..32 {
        let mut cpu = Cpu::new();
        let mut bus = Bus::new();
        load(&mut bus, PROGRAM_START, &[0xC3FF, 0xC40F]);
        cpu.run_instruction(&mut bus);
        cpu.run_instruction(&mut bus);
        let regs = dump_registers(&mut cpu, &mut bus, 0x204);
        assert!(regs[4] <= 0x0F);
        if regs[3] != 0 {
            seen_nonzero = true;
        }
    }
    assert!(seen_nonzero);
}

#[test]
fn delay_timer_instructions() {
    let mut cpu = Cpu::new();
    let mut bus = Bus::new();
    // V1 = 42; delay = V1; V2 = delay reading (given as 40).
    load(&mut bus, PROGRAM_START, &[0x612A, 0xF115, 0xF207]);
    run(&mut cpu, &mut bus, 2);
    cpu.run_instruction_with(&mut bus, 0, 40);
    let regs = dump_registers(&mut cpu, &mut bus, 0x206);
    assert_eq!(regs[2], 40);
    let v = bus.get_delay_timer();
    assert!(v <= 42 && v >= 30);

    let mut cpu = Cpu::new();
    let mut bus = Bus::new();
    load(&mut bus, PROGRAM_START, &[0x612A, 0xF115, 0xF207]);
    for _ in 0..3 {
        cpu.run_instruction(&mut bus);
    }
    let regs = dump_registers(&mut cpu, &mut bus, 0x206);
    assert!(regs[2] <= 42 && regs[2] >= 30);
}

#[test]
fn keypad_instructions() {
    let mut cpu = Cpu::new();
    let mut bus = Bus::new();
    bus.set_key_screen(Some(5));
    // V1 = 5; E19E skips; E1A1 does not skip; F20A stores the key.
    load(&mut bus, PROGRAM_START, &[0x6105, 0xE19E, 0x6301, 0xE1A1, 0x6402, 0xF20A]);
    run(&mut cpu, &mut bus, 5);
    let regs = dump_registers(&mut cpu, &mut bus, 0x20C);
    assert_eq!(&regs[2..5], &[5, 0, 2]);
}

#[test]
fn wait_for_key_repeats_until_pressed() {
    let mut cpu = Cpu::new();
    let mut bus = Bus::new();
    load(&mut bus, PROGRAM_START, &[0xF30A, 0x6101]);
    run(&mut cpu, &mut bus, 3);
    // Still waiting: 6101 has not run.
    bus.set_key_screen(Some(0xC));
    run(&mut cpu, &mut bus, 2);
    let regs = dump_registers(&mut cpu, &mut bus, 0x204);
    assert_eq!((regs[1], regs[3]), (1, 0xC));
}

#[test]
fn index_arithmetic_and_register_transfer() {
    let mut cpu = Cpu::new();
    let mut bus = Bus::new();
    // I = 0x300; V0..V2 = 1, 2, 3; store V0..=V2; I is now 0x303; I += V2 (3) -> 0x306.
    // I = 0x300; load V0..=V1 into V5?? No: load V0..=V1 from 0x300 after setting V0, V1 = 9.
    load(
        &mut bus,
        PROGRAM_START,
        &[0xA300, 0x6001, 0x6102, 0x6203, 0xF255, 0xF21E, 0x6009, 0x6109, 0xA300, 0xF165],
    );
    run(&mut cpu, &mut bus, 10);
    assert_eq!(bus.ram_read_byte(0x300), 1);
    assert_eq!(bus.ram_read_byte(0x301), 2);
    assert_eq!(bus.ram_read_byte(0x302), 3);
    let regs = dump_registers(&mut cpu, &mut bus, 0x214);
    assert_eq!(&regs[0..3], &[1, 2, 3]);
}

#[test]
fn add_to_index_advances() {
    let mut cpu = Cpu::new();
    let mut bus = Bus::new();
    // I = 0x300, V2 = 3, I += V2, V0 = 0x77, store V0 at I = 0x303.
    load(&mut bus, PROGRAM_START, &[0xA300, 0x6203, 0xF21E, 0x6077, 0xF055]);
    run(&mut cpu, &mut bus, 5);
    assert_eq!(bus.ram_read_byte(0x303), 0x77);
    assert_eq!(bus.ram_read_byte(0x300), 0);
}

#[test]
fn draw_font_sprite_and_collision_flag() {
    let mut cpu = Cpu::new();
    let mut bus = Bus::new();
    // V0 = 1 (digit), I = sprite of 1, V1 = V2 = 0, draw 5 rows at (0, 0), then again.
    load(&mut bus, PROGRAM_START, &[0x6001, 0xF029, 0x6100, 0x6200, 0xD125]);
    run(&mut cpu, &mut bus, 5);
    let screen = bus.get_display_buffer();
    // Digit 1: 0x20, 0x60, 0x20, 0x20, 0x70.
    assert_eq!(lit(screen), vec![2, 65, 66, 130, 194, 257, 258, 259]);
    let regs = dump_registers(&mut cpu, &mut bus, 0x20A);
    assert_eq!(regs[15], 0);

    // Drawing it a second time erases it and sets VF.
    let mut cpu2 = Cpu::new();
    let mut bus2 = Bus::new();
    load(&mut bus2, PROGRAM_START, &[0x6001, 0xF029, 0x6100, 0x6200, 0xD125, 0xD125]);
    run(&mut cpu2, &mut bus2, 6);
    assert!(bus2.get_display_buffer().iter().all(|&p| p == 0));
    let regs = dump_registers(&mut cpu2, &mut bus2, 0x20C);
    assert_eq!(regs[15], 1);
}

#[test]
fn clear_screen_instruction() {
    let mut cpu = Cpu::new();
    let mut bus = Bus::new();
    load(&mut bus, PROGRAM_START, &[0xD005, 0x00E0]);
    run(&mut cpu, &mut bus, 1);
    assert!(!lit(bus.get_display_buffer()).is_empty());
    run(&mut cpu, &mut bus, 1);
    assert!(bus.get_display_buffer().iter().all(|&p| p == 0));
}

#[test]
fn instructions_that_stop_the_machine_are_reported() {
    let mut cpu = Cpu::new();
    let mut bus = Bus::new();
    // Memory is zero at 0x200: 0000 is no instruction.
    assert!(!cpu.can_run_instruction(&bus));
    load(&mut bus, PROGRAM_START, &[0x00EE]);
    // Return with an empty stack.
    assert!(!cpu.can_run_instruction(&bus));
    load(&mut bus, PROGRAM_START, &[0x812F]);
    assert!(!cpu.can_run_instruction(&bus));
    load(&mut bus, PROGRAM_START, &[0x9121]);
    assert!(!cpu.can_run_instruction(&bus));
    load(&mut bus, PROGRAM_START, &[0xE1FF]);
    assert!(!cpu.can_run_instruction(&bus));
    load(&mut bus, PROGRAM_START, &[0xF1FF]);
    assert!(!cpu.can_run_instruction(&bus));
    // Store beyond the end of memory.
    load(&mut bus, PROGRAM_START, &[0xAFFF, 0xF155]);
    run(&mut cpu, &mut bus, 1);
    assert!(!cpu.can_run_instruction(&bus));
}

#[test]
fn stack_overflow_is_reported() {
    let mut cpu = Cpu::new();
    let mut bus = Bus::new();
    // 0x200: call 0x200, forever. Slots 1..=15 fill up, the 16th call cannot run.
    load(&mut bus, PROGRAM_START, &[0x2200]);
    run(&mut cpu, &mut bus, 15);
    assert!(!cpu.can_run_instruction(&bus));
}

#[test]
fn program_counter_at_end_of_memory_is_reported() {
    let mut cpu = Cpu::new();
    let mut bus = Bus::new();
    load(&mut bus, PROGRAM_START, &[0x1FFF]);
    run(&mut cpu, &mut bus, 1);
    assert!(!cpu.can_run_instruction(&bus));
}

// ----- whole machine -----

#[test]
fn machine_loads_and_runs_a_rom() {
    let mut m = Chip8::new();
    assert!(m.get_display_buffer().iter().all(|&p| p == 0));
    // V0 = 0xA; I = sprite of A; draw it at (V1, V2) = (8, 4).
    m.load_rom(vec![0x60, 0x0A, 0xF0, 0x29, 0x61, 0x08, 0x62, 0x04, 0xD1, 0x25]);
    for _ in 0..5 {
        assert!(m.can_run_instruction());
        m.run_instruction();
    }
    let screen = m.get_display_buffer();
    // Row 4 of the screen holds 0xF0 drawn from column 8.
    assert_eq!(&screen[4 * 64 + 8..4 * 64 + 16], &[1, 1, 1, 1, 0, 0, 0, 0]);
    // Row 5 holds 0x90.
    assert_eq!(&screen[5 * 64 + 8..5 * 64 + 16], &[1, 0, 0, 1, 0, 0, 0, 0]);
}

#[test]
fn machine_key_reaches_the_program() {
    let mut m = Chip8::new();
    // Wait for a key into V0, then draw the font digit of that key at (0, 0).
    m.load_rom(vec![0xF0, 0x0A, 0xF0, 0x29, 0xD1, 0x15]);
    m.run_instruction();
    m.set_key_pressed(Some(0));
    m.run_instruction();
    m.run_instruction();
    m.run_instruction();
    assert_eq!(&m.get_display_buffer()[0..8], &[1, 1, 1, 1, 0, 0, 0, 0]);
}

#[test]
fn machine_loads_rom_up_to_end_of_memory() {
    let mut m = Chip8::new();
    let rom = vec![0x12u8; 4096 - 0x200];
    m.load_rom(rom);
    // 0x1212 is a jump to 0x212, which holds the same instruction.
    assert!(m.can_run_instruction());
    m.run_instruction();
    assert!(m.can_run_instruction());
}

#[test]
fn delay_timer_counts_from_its_recorded_start() {
    let long_ago = Instant::now().checked_sub(Duration::from_millis(1000)).unwrap();
    let mut bus = Bus::new_started_at(long_ago);
    assert_eq!(bus.get_delay_timer(), 0);
    // Started 1000 ms ago: 62 ticks have passed, so 100 reads as at most 38.
    bus.set_delay_timer_at(100, long_ago);
    let v = bus.get_delay_timer();
    assert!(v <= 38 && v >= 30);
    // Other operations keep the start.
    bus.ram_write_byte(0x300, 1);
    bus.set_key_screen(Some(1));
    bus.clear_screen();
    bus.draw_byte_at_coord(0, 0, 0xFF);
    assert!(bus.get_delay_timer() <= 38);
    // Setting the timer again restarts the countdown now.
    bus.set_delay_timer(100);
    assert!(bus.get_delay_timer() >= 90);
}
