use chip8::chip8::{Chip8, _add_fonts, _FONTS};

const NO_KEYS: [bool; 16] = [false; 16];

fn machine(program: &[u8]) -> Chip8 {
    let mut c: Chip8 = Chip8::default();
    c.load_rom(program);
    c
}

fn run(c: &mut Chip8, n: usize, keys: &[bool; 16]) {
    for _ in 0..n {
        assert!(c.can_tick(keys));
        c.tick(keys);
    }
}

fn registers(c: &Chip8) -> Vec<u8> {
    (0..16).map(|x: usize| c.register(x)).collect()
}

#[test]
fn default_machine_is_blank() {
    let c: Chip8 = Chip8::default();
    assert_eq!(c.program_counter(), 512);
    assert_eq!(c.register_i(), 0);
    assert_eq!(registers(&c), vec![0u8; 16]);
    assert_eq!(c.delay_timer(), 0);
    assert_eq!(c.sound_timer(), 0);
    assert_eq!(c.stack_depth(), 0);
    assert!(!c.should_beep());
    for row in 0..32 {
        for col in 0..64 {
            assert!(!c.screen_pixel(row, col));
        }
    }
    for a in 0..4096 {
        assert_eq!(c.memory_byte(a), 0);
    }
}

#[test]
fn load_rom_copies_program_to_0x200() {
    let mut c: Chip8 = Chip8::default();
    c.load_rom(&[1, 2, 3]);
    assert_eq!(c.memory_byte(511), 0);
    assert_eq!(c.memory_byte(512), 1);
    assert_eq!(c.memory_byte(513), 2);
    assert_eq!(c.memory_byte(514), 3);
    assert_eq!(c.memory_byte(515), 0);
    assert_eq!(c.program_counter(), 512);
}

#[test]
fn load_rom_fills_all_of_program_memory() {
    let rom: Vec<u8> = (0..3584).map(|k: usize| (k % 251) as u8).collect();
    let mut c: Chip8 = Chip8::default();
    c.load_rom(&rom);
    assert_eq!(c.memory_byte(512), 0);
    assert_eq!(c.memory_byte(4095), (3583 % 251) as u8);
}

#[test]
fn set_and_add_register() {
    // V3 = 250; V3 += 10 wraps to 4 and leaves VF alone
    let mut c: Chip8 = machine(&[0x63, 250, 0x73, 10]);
    run(&mut c, 1, &NO_KEYS);
    assert_eq!(c.register(3), 250);
    run(&mut c, 1, &NO_KEYS);
    assert_eq!(c.register(3), 4);
    assert_eq!(c.register(15), 0);
    assert_eq!(c.program_counter(), 516);
}

#[test]
fn jump_sets_program_counter() {
    let mut c: Chip8 = machine(&[0x13, 0x45]);
    run(&mut c, 1, &NO_KEYS);
    assert_eq!(c.program_counter(), 0x345);
}

#[test]
fn jump_with_offset_adds_v0() {
    let mut c: Chip8 = machine(&[0x60, 4, 0xB3, 0x00]);
    run(&mut c, 2, &NO_KEYS);
    assert_eq!(c.program_counter(), 0x304);
}

#[test]
fn set_index_register() {
    let mut c: Chip8 = machine(&[0xAA, 0xBC]);
    run(&mut c, 1, &NO_KEYS);
    assert_eq!(c.register_i(), 0xABC);
}

#[test]
fn call_then_return_resumes_after_call() {
    // 0x200: call 0x206; 0x202: V0 = 1; 0x204: jump 0x204; 0x206: return
    let mut c: Chip8 = machine(&[0x22, 0x06, 0x60, 0x01, 0x12, 0x04, 0x00, 0xEE]);
    run(&mut c, 1, &NO_KEYS);
    assert_eq!(c.program_counter(), 0x206);
    assert_eq!(c.stack_depth(), 1);
    run(&mut c, 1, &NO_KEYS);
    assert_eq!(c.program_counter(), 0x202);
    assert_eq!(c.stack_depth(), 0);
    run(&mut c, 1, &NO_KEYS);
    assert_eq!(c.register(0), 1);
}

#[test]
fn skip_if_equal_value() {
    let mut c: Chip8 = machine(&[0x60, 5, 0x30, 5]);
    run(&mut c, 2, &NO_KEYS);
    assert_eq!(c.program_counter(), 0x206);
    let mut d: Chip8 = machine(&[0x60, 5, 0x30, 6]);
    run(&mut d, 2, &NO_KEYS);
    assert_eq!(d.program_counter(), 0x204);
}

#[test]
fn skip_if_not_equal_value() {
    let mut c: Chip8 = machine(&[0x60, 5, 0x40, 6]);
    run(&mut c, 2, &NO_KEYS);
    assert_eq!(c.program_counter(), 0x206);
    let mut d: Chip8 = machine(&[0x60, 5, 0x40, 5]);
    run(&mut d, 2, &NO_KEYS);
    assert_eq!(d.program_counter(), 0x204);
}

#[test]
fn equal_and_not_equal_skips_are_complementary() {
    for nn in [4u8, 5, 6] {
        let mut a: Chip8 = machine(&[0x60, 5, 0x30, nn]);
        let mut b: Chip8 = machine(&[0x60, 5, 0x40, nn]);
        run(&mut a, 2, &NO_KEYS);
        run(&mut b, 2, &NO_KEYS);
        assert_eq!(a.program_counter() + b.program_counter(), 2 * 0x204 + 2);
    }
}

#[test]
fn skip_if_registers_equal_or_not() {
    let mut c: Chip8 = machine(&[0x60, 7, 0x61, 7, 0x50, 0x10]);
    run(&mut c, 3, &NO_KEYS);
    assert_eq!(c.program_counter(), 0x208);
    let mut d: Chip8 = machine(&[0x60, 7, 0x61, 7, 0x90, 0x10]);
    run(&mut d, 3, &NO_KEYS);
    assert_eq!(d.program_counter(), 0x206);
    let mut e: Chip8 = machine(&[0x60, 7, 0x61, 8, 0x90, 0x10]);
    run(&mut e, 3, &NO_KEYS);
    assert_eq!(e.program_counter(), 0x208);
}

fn alu(v0: u8, v1: u8, op: u8) -> Chip8 {
    let mut c: Chip8 = machine(&[0x60, v0, 0x61, v1, 0x80, 0x10 | op]);
    run(&mut c, 3, &NO_KEYS);
    c
}

#[test]
fn logic_operations() {
    assert_eq!(alu(0x0F, 0xF0, 0).register(0), 0xF0);
    assert_eq!(alu(0x0C, 0x0A, 1).register(0), 0x0E);
    assert_eq!(alu(0x0C, 0x0A, 2).register(0), 0x08);
    assert_eq!(alu(0x0C, 0x0A, 3).register(0), 0x06);
}

#[test]
fn add_sets_carry() {
    let c: Chip8 = alu(200, 100, 4);
    assert_eq!(c.register(0), 44);
    assert_eq!(c.register(15), 1);
    let d: Chip8 = alu(1, 2, 4);
    assert_eq!(d.register(0), 3);
    assert_eq!(d.register(15), 0);
    // no bits are lost: VX + 256 * VF is the true sum
    assert_eq!(c.register(0) as u16 + 256 * c.register(15) as u16, 300);
}

#[test]
fn add_into_flag_register_keeps_carry() {
    // VF = 200, V1 = 100, VF += V1: the carry is written last
    let mut c: Chip8 = machine(&[0x6F, 200, 0x61, 100, 0x8F, 0x14]);
    run(&mut c, 3, &NO_KEYS);
    assert_eq!(c.register(15), 1);
}

#[test]
fn subtract_sets_no_borrow_flag() {
    let c: Chip8 = alu(10, 5, 5);
    assert_eq!((c.register(0), c.register(15)), (5, 1));
    let d: Chip8 = alu(5, 10, 5);
    assert_eq!((d.register(0), d.register(15)), (251, 0));
    let e: Chip8 = alu(7, 7, 5);
    assert_eq!((e.register(0), e.register(15)), (0, 1));
    // VX - VY + 256 * (1 - VF) recovers the difference
    assert_eq!(d.register(0) as i32 - 256 * (1 - d.register(15) as i32), 5 - 10);
}

#[test]
fn reverse_subtract() {
    let c: Chip8 = alu(10, 5, 7);
    assert_eq!((c.register(0), c.register(15)), (251, 0));
    let d: Chip8 = alu(5, 10, 7);
    assert_eq!((d.register(0), d.register(15)), (5, 1));
}

#[test]
fn shifts_take_vy_and_report_the_lost_bit() {
    let c: Chip8 = alu(0, 5, 6);
    assert_eq!((c.register(0), c.register(1), c.register(15)), (2, 5, 1));
    let d: Chip8 = alu(0, 4, 6);
    assert_eq!((d.register(0), d.register(15)), (2, 0));
    let e: Chip8 = alu(0, 0x81, 0xE);
    assert_eq!((e.register(0), e.register(15)), (0x02, 1));
    let f: Chip8 = alu(0, 0x41, 0xE);
    assert_eq!((f.register(0), f.register(15)), (0x82, 0));
}

#[test]
fn draw_sprite_and_collide() {
    // V0 = 0, V1 = 0, I = 0x20C, draw 2 rows, draw again, loop
    let program: [u8; 14] = [
        0x60, 0, 0x61, 0, 0xA2, 0x0C, 0xD0, 0x12, 0xD0, 0x12, 0x12, 0x0A, 0xF0, 0x81,
    ];
    let mut c: Chip8 = machine(&program);
    run(&mut c, 4, &NO_KEYS);
    // screen_pixel counts rows from the bottom of the screen
    let lit: Vec<(usize, usize)> = (0..32)
        .flat_map(|r: usize| (0..64).map(move |col: usize| (r, col)))
        .filter(|&(r, col)| c.screen_pixel(31 - r, col))
        .collect();
    assert_eq!(lit, vec![(0, 0), (0, 1), (0, 2), (0, 3), (1, 0), (1, 7)]);
    assert_eq!(c.register(15), 0);
    // the same sprite again erases it and reports the collision
    run(&mut c, 1, &NO_KEYS);
    for r in 0..32 {
        for col in 0..64 {
            assert!(!c.screen_pixel(r, col));
        }
    }
    assert_eq!(c.register(15), 1);
}

#[test]
fn draw_wraps_around_edges() {
    // V0 = 62, V1 = 31: the sprite wraps right and bottom
    let program: [u8; 10] = [0x60, 62, 0x61, 31, 0xA2, 0x08, 0xD0, 0x12, 0xF0, 0x81];
    let mut c: Chip8 = machine(&program);
    run(&mut c, 4, &NO_KEYS);
    let lit: Vec<(usize, usize)> = (0..32)
        .flat_map(|r: usize| (0..64).map(move |col: usize| (r, col)))
        .filter(|&(r, col)| c.screen_pixel(31 - r, col))
        .collect();
    assert_eq!(lit, vec![(0, 5), (0, 62), (31, 0), (31, 1), (31, 62), (31, 63)]);
}

#[test]
fn draw_origin_wraps_modulo_screen() {
    // V0 = 200 starts at column 200 % 64 = 8; V1 = 40 at row 40 % 32 = 8
    let program: [u8; 10] = [0x60, 200, 0x61, 40, 0xA2, 0x08, 0xD0, 0x11, 0x80, 0x00];
    let mut c: Chip8 = machine(&program);
    run(&mut c, 4, &NO_KEYS);
    assert!(c.screen_pixel(31 - 8, 8));
    assert!(!c.screen_pixel(31 - 8, 9));
}

#[test]
fn draw_on_unlit_pixels_does_not_collide() {
    // two sprites side by side
    let program: [u8; 14] = [
        0x60, 0, 0x61, 0, 0xA2, 0x0C, 0xD0, 0x11, 0x60, 8, 0xD0, 0x11, 0xFF, 0x00,
    ];
    let mut c: Chip8 = machine(&program);
    run(&mut c, 6, &NO_KEYS);
    assert_eq!(c.register(15), 0);
    for col in 0..16 {
        assert!(c.screen_pixel(31, col));
    }
}

#[test]
fn clear_screen() {
    let program: [u8; 10] = [0xA2, 0x08, 0xD0, 0x11, 0x00, 0xE0, 0x00, 0x00, 0xFF, 0x00];
    let mut c: Chip8 = machine(&program);
    run(&mut c, 2, &NO_KEYS);
    assert!(c.screen_pixel(31, 0));
    run(&mut c, 1, &NO_KEYS);
    for r in 0..32 {
        for col in 0..64 {
            assert!(!c.screen_pixel(r, col));
        }
    }
}

#[test]
fn key_skips() {
    let mut keys: [bool; 16] = [false; 16];
    keys[5] = true;
    let mut c: Chip8 = machine(&[0x60, 5, 0xE0, 0x9E]);
    run(&mut c, 2, &keys);
    assert_eq!(c.program_counter(), 0x206);
    let mut d: Chip8 = machine(&[0x60, 5, 0xE0, 0x9E]);
    run(&mut d, 2, &NO_KEYS);
    assert_eq!(d.program_counter(), 0x204);
    let mut e: Chip8 = machine(&[0x60, 5, 0xE0, 0xA1]);
    run(&mut e, 2, &keys);
    assert_eq!(e.program_counter(), 0x204);
    let mut f: Chip8 = machine(&[0x60, 5, 0xE0, 0xA1]);
    run(&mut f, 2, &NO_KEYS);
    assert_eq!(f.program_counter(), 0x206);
}

#[test]
fn wait_for_key_takes_last_pressed() {
    let mut keys: [bool; 16] = [false; 16];
    keys[3] = true;
    keys[9] = true;
    let mut c: Chip8 = machine(&[0xF2, 0x0A]);
    run(&mut c, 1, &keys);
    assert_eq!(c.register(2), 9);
    assert_eq!(c.program_counter(), 0x202);
}

#[test]
fn wait_for_key_idles_without_keys() {
    let mut c: Chip8 = machine(&[0x62, 7, 0xF2, 0x0A]);
    run(&mut c, 1, &NO_KEYS);
    let before: Vec<u8> = registers(&c);
    run(&mut c, 3, &NO_KEYS);
    assert_eq!(c.program_counter(), 0x202);
    assert_eq!(registers(&c), before);
}

#[test]
fn timers_set_read_and_count_down() {
    // V0 = 3; delay = V0; sound = V0; V1 = delay
    let mut c: Chip8 = machine(&[0x60, 3, 0xF0, 0x15, 0xF0, 0x18, 0xF1, 0x07]);
    run(&mut c, 4, &NO_KEYS);
    assert_eq!(c.register(1), 3);
    assert_eq!(c.delay_timer(), 3);
    assert!(c.should_beep());
    c.decrement_timers();
    assert_eq!((c.delay_timer(), c.sound_timer()), (2, 2));
    c.decrement_timers();
    c.decrement_timers();
    assert_eq!((c.delay_timer(), c.sound_timer()), (0, 0));
    assert!(!c.should_beep());
    c.decrement_timers();
    assert_eq!((c.delay_timer(), c.sound_timer()), (0, 0));
}

#[test]
fn add_to_index_sets_carry_on_wrap() {
    // I = 0xFFF; V0 = 0xFF; loop: I += V0
    let mut c: Chip8 = machine(&[0xAF, 0xFF, 0x60, 0xFF, 0xF0, 0x1E, 0x12, 0x04]);
    run(&mut c, 3, &NO_KEYS);
    assert_eq!(c.register_i(), 0xFFF + 0xFF);
    assert_eq!(c.register(15), 0);
    // 4095 + 255 * 240 = 65295 still fits; the 241st addition wraps
    run(&mut c, 2 * 239 + 1, &NO_KEYS);
    assert_eq!(c.register_i(), 65295);
    assert_eq!(c.register(15), 0);
    run(&mut c, 2, &NO_KEYS);
    assert_eq!(c.register_i(), 14);
    assert_eq!(c.register(15), 1);
}

#[test]
fn binary_coded_decimal() {
    let mut c: Chip8 = machine(&[0x60, 254, 0xA3, 0x00, 0xF0, 0x33]);
    run(&mut c, 3, &NO_KEYS);
    assert_eq!((c.memory_byte(0x300), c.memory_byte(0x301), c.memory_byte(0x302)), (2, 5, 4));
    let mut d: Chip8 = machine(&[0x60, 7, 0xA3, 0x00, 0xF0, 0x33]);
    run(&mut d, 3, &NO_KEYS);
    assert_eq!((d.memory_byte(0x300), d.memory_byte(0x301), d.memory_byte(0x302)), (0, 0, 7));
}

#[test]
fn store_then_load_registers_round_trip() {
    let program: [u8; 22] = [
        0x60, 11, 0x61, 22, 0x62, 33, 0x64, 44, // V0..V2, V4
        0xA3, 0x00, 0xF2, 0x55, // I = 0x300; store V0..=V2
        0x60, 0, 0x61, 0, 0x62, 0, // clobber V0..V2
        0xF2, 0x65, // load V0..=V2
        0x00, 0x00,
    ];
    let mut c: Chip8 = machine(&program);
    run(&mut c, 6, &NO_KEYS);
    assert_eq!((c.memory_byte(0x300), c.memory_byte(0x301), c.memory_byte(0x302)), (11, 22, 33));
    assert_eq!(c.memory_byte(0x303), 0);
    run(&mut c, 3, &NO_KEYS);
    assert_eq!((c.register(0), c.register(1), c.register(2)), (0, 0, 0));
    run(&mut c, 1, &NO_KEYS);
    assert_eq!((c.register(0), c.register(1), c.register(2), c.register(4)), (11, 22, 33, 44));
    assert_eq!(c.register_i(), 0x300);
}

#[test]
fn refused_instructions() {
    let cases: [[u8; 2]; 6] = [
        [0x01, 0x23], // machine code routine
        [0x00, 0xEE], // return with an empty stack
        [0xC0, 0xFF], // random number: not implemented
        [0x80, 0x1F], // no such arithmetic operation
        [0xE0, 0xFF], // no such key test
        [0xF0, 0xFF], // no such F instruction
    ];
    for program in cases.iter() {
        let c: Chip8 = machine(program);
        assert!(!c.can_tick(&NO_KEYS));
    }
}

#[test]
fn refused_key_beyond_keypad() {
    let mut c: Chip8 = machine(&[0x60, 16, 0xE0, 0x9E]);
    run(&mut c, 1, &NO_KEYS);
    assert!(!c.can_tick(&NO_KEYS));
}

#[test]
fn refused_memory_access_past_the_end() {
    // FX33 with I = 0xFFE would write 0x1000
    let mut c: Chip8 = machine(&[0xAF, 0xFE, 0xF0, 0x33]);
    run(&mut c, 1, &NO_KEYS);
    assert!(!c.can_tick(&NO_KEYS));
    // I = 0xFFD just fits
    let mut d: Chip8 = machine(&[0xAF, 0xFD, 0xF0, 0x33]);
    run(&mut d, 2, &NO_KEYS);
    // FX55 with I = 0xFFC and X = 5 would write 0x1001
    let mut e: Chip8 = machine(&[0xAF, 0xFC, 0xF5, 0x55]);
    run(&mut e, 1, &NO_KEYS);
    assert!(!e.can_tick(&NO_KEYS));
    // a 15-row sprite at I = 0xFF5 would read 0x1003; with no rows nothing is read
    let mut f: Chip8 = machine(&[0xAF, 0xF5, 0xD0, 0x0F]);
    run(&mut f, 1, &NO_KEYS);
    assert!(!f.can_tick(&NO_KEYS));
    let mut g: Chip8 = machine(&[0xAF, 0xF5, 0xD0, 0x00]);
    run(&mut g, 2, &NO_KEYS);
    assert_eq!(g.register(15), 0);
}

#[test]
fn refused_program_counter_past_memory() {
    let mut c: Chip8 = machine(&[0x1F, 0xFF]);
    run(&mut c, 1, &NO_KEYS);
    assert_eq!(c.program_counter(), 0xFFF);
    assert!(!c.can_tick(&NO_KEYS));
    // the last instruction slot, 0xFFE, still works
    let mut rom: Vec<u8> = vec![0; 3584];
    rom[0] = 0x1F;
    rom[1] = 0xFE;
    rom[3582] = 0x12;
    rom[3583] = 0x00;
    let mut d: Chip8 = machine(&rom);
    run(&mut d, 2, &NO_KEYS);
    assert_eq!(d.program_counter(), 0x200);
}

#[test]
fn frame_counts_down_then_runs_twenty_instructions() {
    // V0 += 1; jump back
    let mut c: Chip8 = machine(&[0x70, 1, 0x12, 0x00]);
    assert!(c.can_run_frame(&NO_KEYS));
    c.run_frame(&NO_KEYS);
    assert_eq!(c.register(0), 10);
    assert_eq!(c.program_counter(), 0x200);
    c.run_frame(&NO_KEYS);
    assert_eq!(c.register(0), 20);
}

#[test]
fn frame_decrements_timers_before_running() {
    // delay = 5, then spin
    let mut c: Chip8 = machine(&[0x60, 5, 0xF0, 0x15, 0x12, 0x04]);
    run(&mut c, 2, &NO_KEYS);
    c.run_frame(&NO_KEYS);
    assert_eq!(c.delay_timer(), 4);
}

#[test]
fn frame_refused_when_an_instruction_would_stop() {
    // the eleventh instruction is unknown
    let mut program: Vec<u8> = Vec::new();
    for _ in 0..10 {
        program.extend_from_slice(&[0x70, 1]);
    }
    program.extend_from_slice(&[0xC0, 0x00]);
    let c: Chip8 = machine(&program);
    assert!(!c.can_run_frame(&NO_KEYS));
    assert!(c.can_tick(&NO_KEYS));
}

#[test]
fn duplicate_is_an_independent_copy() {
    let mut c: Chip8 = machine(&[0x60, 1, 0x22, 0x10]);
    run(&mut c, 2, &NO_KEYS);
    let mut d: Chip8 = c.duplicate();
    assert_eq!(d.program_counter(), c.program_counter());
    assert_eq!(d.stack_depth(), 1);
    assert_eq!(registers(&d), registers(&c));
    d.decrement_timers();
    d.load_rom(&[9]);
    assert_eq!(c.memory_byte(512), 0x60);
    assert_eq!(d.memory_byte(512), 9);
}

#[test]
fn fonts_go_to_address_80() {
    let mut memory: [u8; 4096] = [7; 4096];
    _add_fonts(&mut memory, _FONTS);
    assert_eq!(memory[79], 7);
    assert_eq!(&memory[80..85], &[0xF0, 0x90, 0x90, 0x90, 0xF0]);
    assert_eq!(&memory[155..160], &[0xF0, 0x80, 0xF0, 0x80, 0x80]);
    assert_eq!(memory[160], 7);
}

#[test]
fn running_in_two_parts_is_running_at_once() {
    let program: [u8; 8] = [0x70, 3, 0x81, 0x04, 0x82, 0x14, 0x12, 0x00];
    let mut a: Chip8 = machine(&program);
    run(&mut a, 5, &NO_KEYS);
    run(&mut a, 7, &NO_KEYS);
    let mut b: Chip8 = machine(&program);
    run(&mut b, 12, &NO_KEYS);
    assert_eq!(registers(&a), registers(&b));
    assert_eq!(a.program_counter(), b.program_counter());
}

#[test]
fn only_store_instructions_write_memory() {
    // arithmetic, draw, jumps and calls leave memory as it was
    let program: [u8; 14] = [0x60, 9, 0x81, 0x04, 0xA2, 0x0C, 0xD0, 0x11, 0x22, 0x0C, 0x00, 0x00, 0x00, 0xEE];
    let mut c: Chip8 = machine(&program);
    let before: Vec<u8> = (0..4096).map(|a: usize| c.memory_byte(a)).collect();
    run(&mut c, 6, &NO_KEYS);
    let after: Vec<u8> = (0..4096).map(|a: usize| c.memory_byte(a)).collect();
    assert_eq!(before, after);
    assert_eq!(c.program_counter(), 0x20A);
}
