//! The emulator: a `Chip8` value steps through a program one instruction at a time.
use vstd::prelude::*;
use std::collections::VecDeque;
use crate::state::{
    Chip8State, ROWS, COLUMNS, MEMORY_SIZE, PROGRAM_START, TICKS_PER_FRAME, KEY_COUNT,
    initial_state, load_program, decrement_timers, step, frame, run, execute, exec_0, exec_e,
    exec_f, alu, draw, blank_display, last_pressed, store_bcd, store_registers, load_registers,
    wrapped_offset, sprite_covers, draw_display, draw_collides, lemma_wrap,
};

verus! {

broadcast use vstd::array::group_array_axioms;

/// The built-in hexadecimal font: five bytes per digit, `0` to `F`.
pub const _FONTS: [u8; 80] = [
    0xF0, 0x90, 0x90, 0x90, 0xF0, // 0
    0x20, 0x60, 0x20, 0x20, 0x70, // 1
    0xF0, 0x10, 0xF0, 0x80, 0xF0, // 2
    0xF0, 0x10, 0xF0, 0x10, 0xF0, // 3
    0x90, 0x90, 0xF0, 0x10, 0x10, // 4
    0xF0, 0x80, 0xF0, 0x10, 0xF0, // 5
    0xF0, 0x80, 0xF0, 0x90, 0xF0, // 6
    0xF0, 0x10, 0x20, 0x40, 0x40, // 7
    0xF0, 0x90, 0xF0, 0x90, 0xF0, // 8
    0xF0, 0x90, 0xF0, 0x10, 0xF0, // 9
    0xF0, 0x90, 0xF0, 0x90, 0x90, // A
    0xE0, 0x90, 0xE0, 0x90, 0xE0, // B
    0xF0, 0x80, 0x80, 0x80, 0xF0, // C
    0xE0, 0x90, 0x90, 0x90, 0xE0, // D
    0xF0, 0x80, 0xF0, 0x80, 0xF0, // E
    0xF0, 0x80, 0xF0, 0x80, 0x80, // F
];

pub struct Chip8 {
    display: [[bool; COLUMNS]; ROWS],
    memory: [u8; 4096],
    stack: VecDeque<usize>,
    program_counter: usize,
    register_i: u16,
    registers: [u8; 16],
    delay_timer: u8,
    sound_timer: u8,
}

impl View for Chip8 {
    type V = Chip8State;

    closed spec fn view(&self) -> Chip8State {
        Chip8State {
            display: Seq::new(ROWS as nat, |r: int| self.display[r]@),
            memory: self.memory@,
            stack: self.stack@,
            pc: self.program_counter,
            register_i: self.register_i,
            registers: self.registers@,
            delay_timer: self.delay_timer,
            sound_timer: self.sound_timer,
        }
    }
}

impl Default for Chip8 {
    /// A machine just switched on: blank screen, zeroed memory and registers, empty
    /// stack, execution about to start at `PROGRAM_START`.
    fn default() -> (c: Self)
        ensures
            c@ == initial_state(),
    {
        let c = Self {
            display: [[false; COLUMNS]; ROWS],
            memory: [0; 4096],
            stack: VecDeque::new(),
            program_counter: 512,
            register_i: 0,
            registers: [0; 16],
            delay_timer: 0,
            sound_timer: 0,
        };
        assert(c@.display =~~= initial_state().display);
        assert(c@.memory =~= initial_state().memory);
        assert(c@.registers =~= initial_state().registers);
        c
    }
}

impl Chip8 {
    /// Every state the machine can be in has the shape `Chip8State::wf` describes.
    pub proof fn lemma_wf(&self)
        ensures
            self@.wf(),
    {
    }

    /// Copies `rom` into memory from `PROGRAM_START` on; nothing else changes.
    pub fn load_rom(&mut self, rom: &[u8])
        requires
            PROGRAM_START + rom@.len() <= MEMORY_SIZE,
        ensures
            final(self)@ == (Chip8State { memory: load_program(old(self)@.memory, rom@), ..old(self)@ }),
    {
        let mut i: usize = 0;
        while i < rom.len()
            invariant
                i <= rom@.len(),
                PROGRAM_START + rom@.len() <= MEMORY_SIZE,
                forall|a: int|
                    0 <= a < MEMORY_SIZE ==> #[trigger] self.memory@[a] == if PROGRAM_START <= a
                        < PROGRAM_START + i {
                        rom@[a - PROGRAM_START]
                    } else {
                        old(self).memory@[a]
                    },
                self.display == old(self).display,
                self.stack == old(self).stack,
                self.program_counter == old(self).program_counter,
                self.register_i == old(self).register_i,
                self.registers == old(self).registers,
                self.delay_timer == old(self).delay_timer,
                self.sound_timer == old(self).sound_timer,
            decreases rom@.len() - i,
        {
            self.memory[512 + i] = rom[i];
            i += 1;
        }
        assert(self@.memory =~= load_program(old(self)@.memory, rom@));
    }

    /// One tick of the 60 Hz clock: each timer that is not zero goes down by one.
    pub fn decrement_timers(&mut self)
        ensures
            final(self)@ == decrement_timers(old(self)@),
    {
        if self.delay_timer > 0 {
            self.delay_timer -= 1;
        }
        if self.sound_timer > 0 {
            self.sound_timer -= 1;
        }
    }

    /// The buzzer sounds while the sound timer is running.
    pub fn should_beep(&self) -> (b: bool)
        ensures
            b == (self@.sound_timer > 0),
    {
        self.sound_timer > 0
    }

    /// Runs one instruction with the keypad in state `keys` (`keys[k]`: key `k` is held).
    #[verifier::rlimit(30)]
    pub fn tick(&mut self, keys: &[bool; 16])
        requires
            step(old(self)@, keys@) is Some,
        ensures
            Some(final(self)@) == step(old(self)@, keys@),
    {
        let hi = self.memory[self.program_counter];
        let lo = self.memory[self.program_counter + 1];
        let operation: u16 = ((hi as u16) << 8u16) | (lo as u16);
        self.program_counter += 2;
        proof {
            lemma_decode(hi, lo);
        }
        let ghost mid = self@;
        assert(mid == old(self)@.with_pc(old(self)@.pc + 2));
        assert(execute(mid, hi, lo, keys@) is Some);

        let opcode = ((operation >> 12u16) & 0xFu16) as u8;  // high nibble (opcode)
        let vx = ((operation >> 8u16) & 0xFu16) as u8;  // X nibble
        let vy = ((operation >> 4u16) & 0xFu16) as u8;  // Y nibble
        let n = (operation & 0xFu16) as u8;  // low nibble
        let nn = (operation & 0x00FFu16) as u8;  // lowest 8 bits
        let nnn = operation & 0x0FFFu16;  // lowest 12 bits

        match opcode {
            0x0 => {
                self.exec_system(operation);
            },
            0x1 => {
                // Jump
                self.program_counter = nnn as usize;
            },
            0x2 => {
                // Call subroutine
                self.stack.push_front(self.program_counter);
                self.program_counter = nnn as usize;
            },
            0x3 => {
                // Skip if equals value
                if self.registers[vx as usize] == nn {
                    self.program_counter += 2;
                }
            },
            0x4 => {
                // Skip if not equals value
                if self.registers[vx as usize] != nn {
                    self.program_counter += 2;
                }
            },
            0x5 => {
                // Skip if equals another register
                if self.registers[vx as usize] == self.registers[vy as usize] {
                    self.program_counter += 2;
                }
            },
            0x6 => {
                // Set register
                self.registers[vx as usize] = nn;
            },
            0x7 => {
                // Add to register, without carry
                self.registers[vx as usize] = self.registers[vx as usize].wrapping_add(nn);
            },
            0x8 => {
                self.exec_alu(vx, vy, n);
            },
            0x9 => {
                // Skip if not equals another register
                if self.registers[vx as usize] != self.registers[vy as usize] {
                    self.program_counter += 2;
                }
            },
            0xA => {
                self.register_i = nnn;
            },
            0xB => {
                // Jump with offset
                self.program_counter = nnn as usize + self.registers[0] as usize;
            },
            0xD => {
                self.exec_draw(vx, vy, n);
            },
            0xE => {
                self.exec_key(vx, nn, keys);
            },
            0xF => {
                self.exec_misc(vx, nn, keys);
            },
            _ => {
                // `0xC` and anything else: excluded by the precondition
            },
        }
    }

    /// Whether `tick` can run with these keys: the emulator stops on the instructions it
    /// does not know, on a return with an empty stack, on a key number above `F`, and on
    /// memory accesses past the end.
    pub fn can_tick(&self, keys: &[bool; 16]) -> (b: bool)
        ensures
            b == step(self@, keys@) is Some,
    {
        let pc = self.program_counter;
        if pc >= MEMORY_SIZE - 1 {
            return false;
        }
        let hi = self.memory[pc];
        let lo = self.memory[pc + 1];
        let operation: u16 = ((hi as u16) << 8u16) | (lo as u16);
        proof {
            lemma_decode(hi, lo);
        }
        let opcode = ((operation >> 12u16) & 0xFu16) as u8;
        let vx = ((operation >> 8u16) & 0xFu16) as u8;
        let n = (operation & 0xFu16) as u8;
        let nn = (operation & 0x00FFu16) as u8;
        let i = self.register_i as usize;
        match opcode {
            0x0 => operation == 0x00E0u16 || (operation == 0x00EEu16 && self.stack.len() > 0),
            0x8 => n <= 7 || n == 0xE,
            0xC => false,
            0xD => n == 0 || i + (n as usize) <= MEMORY_SIZE,
            0xE => (self.registers[vx as usize] as usize) < KEY_COUNT && (nn == 0x9E || nn == 0xA1),
            0xF => {
                if nn == 0x07 || nn == 0x0A || nn == 0x15 || nn == 0x18 || nn == 0x1E {
                    true
                } else if nn == 0x33 {
                    i + 2 < MEMORY_SIZE
                } else if nn == 0x55 || nn == 0x65 {
                    i + (vx as usize) < MEMORY_SIZE
                } else {
                    false
                }
            },
            _ => true,
        }
    }

    /// A copy of the machine.
    pub fn duplicate(&self) -> (c: Chip8)
        ensures
            c@ == self@,
    {
        let c = Chip8 {
            display: self.display,
            memory: self.memory,
            stack: self.stack.clone(),
            program_counter: self.program_counter,
            register_i: self.register_i,
            registers: self.registers,
            delay_timer: self.delay_timer,
            sound_timer: self.sound_timer,
        };
        assert(c.stack@ =~= self.stack@);
        c
    }

    /// One frame of the emulator: the timers count down once, then `TICKS_PER_FRAME`
    /// instructions run with the same keys held.
    pub fn run_frame(&mut self, keys: &[bool; 16])
        requires
            frame(old(self)@, keys@) is Some,
        ensures
            Some(final(self)@) == frame(old(self)@, keys@),
    {
        self.decrement_timers();
        let mut k: usize = 0;
        while k < TICKS_PER_FRAME
            invariant
                k <= TICKS_PER_FRAME,
                run(self@, keys@, (TICKS_PER_FRAME - k) as nat) == frame(old(self)@, keys@),
                frame(old(self)@, keys@) is Some,
            decreases TICKS_PER_FRAME - k,
        {
            self.tick(keys);
            k += 1;
        }
    }

    /// Whether `run_frame` can run with these keys: every instruction of the frame is one
    /// `tick` can run.
    pub fn can_run_frame(&self, keys: &[bool; 16]) -> (b: bool)
        ensures
            b == frame(self@, keys@) is Some,
    {
        let mut c = self.duplicate();
        c.decrement_timers();
        let mut k: usize = 0;
        while k < TICKS_PER_FRAME
            invariant
                k <= TICKS_PER_FRAME,
                run(c@, keys@, (TICKS_PER_FRAME - k) as nat) == frame(self@, keys@),
            decreases TICKS_PER_FRAME - k,
        {
            if !c.can_tick(keys) {
                return false;
            }
            c.tick(keys);
            k += 1;
        }
        true
    }

    /// `00E0` (clear the screen) and `00EE` (return from a subroutine).
    fn exec_system(&mut self, operation: u16)
        requires
            exec_0(old(self)@, operation as int) is Some,
        ensures
            Some(final(self)@) == exec_0(old(self)@, operation as int),
    {
        if operation == 0x00E0u16 {
            self.display = [[false; COLUMNS]; ROWS];
            assert(self@.display =~~= blank_display());
        } else {
            self.program_counter = self.stack.pop_front().unwrap();
        }
    }

    /// The `8XYN` arithmetic and logic instructions.
    fn exec_alu(&mut self, vx: u8, vy: u8, n: u8)
        requires
            vx < 16,
            vy < 16,
            alu(old(self)@.registers, vx as int, vy as int, n) is Some,
        ensures
            final(self)@ == old(self)@.with_registers(
                alu(old(self)@.registers, vx as int, vy as int, n)->0,
            ),
    {
        let x = vx as usize;
        let y = vy as usize;
        proof {
            lemma_shifts(self.registers[y as int]);
        }
        if n == 0x0 {
            // set vx to vy
            self.registers[x] = self.registers[y];
        } else if n == 0x1 {
            self.registers[x] = self.registers[x] | self.registers[y];
        } else if n == 0x2 {
            self.registers[x] = self.registers[x] & self.registers[y];
        } else if n == 0x3 {
            self.registers[x] = self.registers[x] ^ self.registers[y];
        } else if n == 0x4 {
            // add vy to vx, VF is the carry
            let a = self.registers[x];
            let b = self.registers[y];
            let new_vx = a.wrapping_add(b);
            let carry: u8 = if (a as u16) + (b as u16) > 255 { 1 } else { 0 };
            self.registers[x] = new_vx;
            self.registers[0xF] = carry;
        } else if n == 0x5 {
            // subtract vy from vx, VF is 0 on a borrow
            let minuend = self.registers[x];
            let subtrahend = self.registers[y];
            let carry: u8 = if minuend >= subtrahend { 1 } else { 0 };
            self.registers[x] = self.registers[x].wrapping_sub(self.registers[y]);
            self.registers[0xF] = carry;
        } else if n == 0x6 {
            // shift right, taking the operand from vy
            self.registers[x] = self.registers[y];
            let lsb = self.registers[x] & 0x01u8;
            self.registers[x] = self.registers[x] >> 1u8;
            self.registers[0xF] = lsb;
        } else if n == 0x7 {
            // subtract vx from vy, VF is 0 on a borrow
            let minuend = self.registers[y];
            let subtrahend = self.registers[x];
            let carry: u8 = if minuend >= subtrahend { 1 } else { 0 };
            self.registers[x] = self.registers[y].wrapping_sub(self.registers[x]);
            self.registers[0xF] = carry;
        } else {
            // shift left, taking the operand from vy
            self.registers[x] = self.registers[y];
            let msb = (self.registers[x] & 0x80u8) >> 7u8;
            self.registers[x] = self.registers[x] << 1u8;
            self.registers[0xF] = msb;
        }
        assert(self@.registers =~= alu(old(self)@.registers, vx as int, vy as int, n)->0);
    }

    /// `DXYN`: XOR the `N`-row sprite at `I` onto the screen at `(VX, VY)`, wrapping
    /// around the edges; `VF` becomes 1 when a lit pixel goes dark, else 0.
    fn exec_draw(&mut self, vx: u8, vy: u8, n: u8)
        requires
            vx < 16,
            vy < 16,
            n < 16,
            draw(old(self)@, vx as int, vy as int, n as int) is Some,
        ensures
            Some(final(self)@) == draw(old(self)@, vx as int, vy as int, n as int),
    {
        let orig_x = self.registers[vx as usize] as usize % COLUMNS;
        let orig_y = self.registers[vy as usize] as usize % ROWS;
        let ghost d0 = self@.display;
        let ghost mem = self@.memory;
        let ghost i = self.register_i as int;
        let ghost ox = orig_x as int;
        let ghost oy = orig_y as int;
        let ghost nn = n as int;
        self.registers[0xF] = 0;

        let mut row: usize = 0;
        while row < n as usize
            invariant
                row <= n,
                n < 16,
                orig_x < COLUMNS,
                orig_y < ROWS,
                ox == orig_x,
                oy == orig_y,
                nn == n,
                i == self.register_i,
                n == 0 || i + n <= MEMORY_SIZE,
                self.memory@ == mem,
                d0 == old(self)@.display,
                mem == old(self)@.memory,
                forall|r: int, c: int|
                    0 <= r < ROWS && 0 <= c < COLUMNS ==> #[trigger] self.display[r]@[c] == (d0[r][c]
                        != (sprite_covers(mem, i, ox, oy, nn, r, c) && drawn_before(
                        r,
                        c,
                        ox,
                        oy,
                        row as int,
                        0,
                    ))),
                self.registers[15] == if collided(d0, mem, i, ox, oy, nn, row as int, 0) {
                    1u8
                } else {
                    0u8
                },
                self.registers@ == old(self).registers@.update(15, self.registers[15]),
                self.stack == old(self).stack,
                self.program_counter == old(self).program_counter,
                self.delay_timer == old(self).delay_timer,
                self.sound_timer == old(self).sound_timer,
            decreases n - row,
        {
            let sprite_byte = self.memory[self.register_i as usize + row];
            let mut col: usize = 0;
            while col < 8
                invariant
                    row < n,
                    col <= 8,
                    n < 16,
                    orig_x < COLUMNS,
                    orig_y < ROWS,
                    ox == orig_x,
                    oy == orig_y,
                    nn == n,
                    i == self.register_i,
                    sprite_byte == mem[i + row],
                    self.memory@ == mem,
                    d0 == old(self)@.display,
                    mem == old(self)@.memory,
                    forall|r: int, c: int|
                        0 <= r < ROWS && 0 <= c < COLUMNS ==> #[trigger] self.display[r]@[c] == (
                        d0[r][c] != (sprite_covers(mem, i, ox, oy, nn, r, c) && drawn_before(
                            r,
                            c,
                            ox,
                            oy,
                            row as int,
                            col as int,
                        ))),
                    self.registers[15] == if collided(
                        d0,
                        mem,
                        i,
                        ox,
                        oy,
                        nn,
                        row as int,
                        col as int,
                    ) {
                        1u8
                    } else {
                        0u8
                    },
                    self.registers@ == old(self).registers@.update(15, self.registers[15]),
                    self.stack == old(self).stack,
                    self.program_counter == old(self).program_counter,
                    self.delay_timer == old(self).delay_timer,
                    self.sound_timer == old(self).sound_timer,
                decreases 8 - col,
            {
                let x = (orig_x + col) % COLUMNS;
                let y = (orig_y + row) % ROWS;
                proof {
                    lemma_sprite_bit(sprite_byte, (7 - col) as u8);
                    lemma_wrap(oy, row as int, ROWS as int);
                    lemma_wrap(ox, col as int, COLUMNS as int);
                    lemma_step_order(ox, oy, row as int, col as int, y as int, x as int);
                }
                if sprite_byte & (1u8 << (7 - col as u8)) != 0 {
                    if self.display[y][x] {
                        self.display[y][x] = false;
                        self.registers[0xF] = 1;
                    } else {
                        self.display[y][x] = true;
                    }
                }
                proof {
                    if collided(d0, mem, i, ox, oy, nn, row as int, col as int + 1) {
                        let (wr, wc) = choose|wr: int, wc: int|
                            0 <= wr < ROWS && 0 <= wc < COLUMNS && #[trigger] d0[wr][wc]
                                && sprite_covers(mem, i, ox, oy, nn, wr, wc) && drawn_before(
                                wr,
                                wc,
                                ox,
                                oy,
                                row as int,
                                col as int + 1,
                            );
                        if wr != y || wc != x {
                            assert(collided(d0, mem, i, ox, oy, nn, row as int, col as int));
                        }
                    }
                    if collided(d0, mem, i, ox, oy, nn, row as int, col as int) {
                        let (wr, wc) = choose|wr: int, wc: int|
                            0 <= wr < ROWS && 0 <= wc < COLUMNS && #[trigger] d0[wr][wc]
                                && sprite_covers(mem, i, ox, oy, nn, wr, wc) && drawn_before(
                                wr,
                                wc,
                                ox,
                                oy,
                                row as int,
                                col as int,
                            );
                        assert(drawn_before(wr, wc, ox, oy, row as int, col as int + 1));
                    }
                }
                col += 1;
            }
            proof {
                assert forall|r: int, c: int|
                    0 <= r < ROWS && 0 <= c < COLUMNS implies (sprite_covers(
                        mem,
                        i,
                        ox,
                        oy,
                        nn,
                        r,
                        c,
                    ) && drawn_before(r, c, ox, oy, row as int, 8)) == (sprite_covers(
                        mem,
                        i,
                        ox,
                        oy,
                        nn,
                        r,
                        c,
                    ) && drawn_before(r, c, ox, oy, row as int + 1, 0)) by {}
                if collided(d0, mem, i, ox, oy, nn, row as int, 8) {
                    let (wr, wc) = choose|wr: int, wc: int|
                        0 <= wr < ROWS && 0 <= wc < COLUMNS && #[trigger] d0[wr][wc] && sprite_covers(
                            mem,
                            i,
                            ox,
                            oy,
                            nn,
                            wr,
                            wc,
                        ) && drawn_before(wr, wc, ox, oy, row as int, 8);
                    assert(drawn_before(wr, wc, ox, oy, row as int + 1, 0));
                }
                if collided(d0, mem, i, ox, oy, nn, row as int + 1, 0) {
                    let (wr, wc) = choose|wr: int, wc: int|
                        0 <= wr < ROWS && 0 <= wc < COLUMNS && #[trigger] d0[wr][wc] && sprite_covers(
                            mem,
                            i,
                            ox,
                            oy,
                            nn,
                            wr,
                            wc,
                        ) && drawn_before(wr, wc, ox, oy, row as int + 1, 0);
                    assert(drawn_before(wr, wc, ox, oy, row as int, 8));
                }
            }
            row += 1;
        }
        proof {
            assert forall|r: int, c: int|
                0 <= r < ROWS && 0 <= c < COLUMNS implies (sprite_covers(mem, i, ox, oy, nn, r, c)
                && drawn_before(r, c, ox, oy, nn, 0)) == sprite_covers(
                mem,
                i,
                ox,
                oy,
                nn,
                r,
                c,
            ) by {}
            assert(self@.display =~~= draw_display(d0, mem, i, ox, oy, nn));
            if collided(d0, mem, i, ox, oy, nn, nn, 0) {
                let (wr, wc) = choose|wr: int, wc: int|
                    0 <= wr < ROWS && 0 <= wc < COLUMNS && #[trigger] d0[wr][wc] && sprite_covers(
                        mem,
                        i,
                        ox,
                        oy,
                        nn,
                        wr,
                        wc,
                    ) && drawn_before(wr, wc, ox, oy, nn, 0);
                assert(draw_collides(d0, mem, i, ox, oy, nn));
            }
            if draw_collides(d0, mem, i, ox, oy, nn) {
                let (wr, wc) = choose|wr: int, wc: int|
                    0 <= wr < ROWS && 0 <= wc < COLUMNS && #[trigger] d0[wr][wc] && sprite_covers(
                        mem,
                        i,
                        ox,
                        oy,
                        nn,
                        wr,
                        wc,
                    );
                assert(drawn_before(wr, wc, ox, oy, nn, 0));
                assert(collided(d0, mem, i, ox, oy, nn, nn, 0));
            }
            assert(self@.registers =~= old(self)@.registers.update(
                15,
                if draw_collides(d0, mem, i, ox, oy, nn) {
                    1u8
                } else {
                    0u8
                },
            ));
        }
    }

    /// `EX9E` / `EXA1`: skip when key `VX` is (not) held.
    fn exec_key(&mut self, vx: u8, nn: u8, keys: &[bool; 16])
        requires
            vx < 16,
            old(self)@.pc <= MEMORY_SIZE,
            exec_e(old(self)@, vx as int, nn, keys@) is Some,
        ensures
            Some(final(self)@) == exec_e(old(self)@, vx as int, nn, keys@),
    {
        if nn == 0x9E {
            if keys[self.registers[vx as usize] as usize] {
                self.program_counter += 2;
            }
        } else {
            if !keys[self.registers[vx as usize] as usize] {
                self.program_counter += 2;
            }
        }
    }

    /// The `FXNN` instructions: timers, keypad wait, `I`, decimal conversion, and
    /// saving and restoring registers.
    fn exec_misc(&mut self, vx: u8, nn: u8, keys: &[bool; 16])
        requires
            vx < 16,
            2 <= old(self)@.pc <= MEMORY_SIZE,
            exec_f(old(self)@, vx as int, nn, keys@) is Some,
        ensures
            Some(final(self)@) == exec_f(old(self)@, vx as int, nn, keys@),
    {
        let x = vx as usize;
        if nn == 0x07 {
            // get delay timer
            self.registers[x] = self.delay_timer;
        } else if nn == 0x0A {
            // wait for a key: the last pressed key wins
            let mut key_was_pressed = false;
            let mut i: usize = 0;
            while i < 16
                invariant
                    i <= 16,
                    x < 16,
                    keys@.len() == KEY_COUNT,
                    key_was_pressed == last_pressed(keys@, i as int) is Some,
                    key_was_pressed ==> self.registers@ == old(self).registers@.update(
                        x as int,
                        last_pressed(keys@, i as int)->0 as u8,
                    ),
                    !key_was_pressed ==> self.registers == old(self).registers,
                    self.display == old(self).display,
                    self.memory == old(self).memory,
                    self.stack == old(self).stack,
                    self.program_counter == old(self).program_counter,
                    self.register_i == old(self).register_i,
                    self.delay_timer == old(self).delay_timer,
                    self.sound_timer == old(self).sound_timer,
                decreases 16 - i,
            {
                if keys[i] {
                    self.registers[x] = i as u8;
                    key_was_pressed = true;
                }
                i += 1;
            }
            if !key_was_pressed {
                self.program_counter -= 2;
            }
        } else if nn == 0x15 {
            self.delay_timer = self.registers[x];
        } else if nn == 0x18 {
            self.sound_timer = self.registers[x];
        } else if nn == 0x1E {
            // add to index, VF is the carry out of sixteen bits
            let v = self.registers[x] as u16;
            let carry: u8 = if (self.register_i as u32) + (v as u32) > 0xFFFF { 1 } else { 0 };
            self.register_i = self.register_i.wrapping_add(v);
            self.registers[0xF] = carry;
        } else if nn == 0x33 {
            // binary-coded decimal
            let value = self.registers[x];
            let i = self.register_i as usize;
            self.memory[i] = value / 100;
            self.memory[i + 1] = (value / 10) % 10;
            self.memory[i + 2] = value % 10;
            assert(self@.memory =~= store_bcd(old(self)@.memory, i as int, value));
        } else if nn == 0x55 {
            // store V0..=VX at I
            let base = self.register_i as usize;
            let mut k: usize = 0;
            while k <= x
                invariant
                    x < 16,
                    k <= x + 1,
                    base + x < MEMORY_SIZE,
                    base == old(self).register_i,
                    forall|a: int|
                        0 <= a < MEMORY_SIZE ==> #[trigger] self.memory@[a] == if base <= a < base
                            + k {
                            old(self).registers@[a - base]
                        } else {
                            old(self).memory@[a]
                        },
                    self.display == old(self).display,
                    self.registers == old(self).registers,
                    self.stack == old(self).stack,
                    self.program_counter == old(self).program_counter,
                    self.register_i == old(self).register_i,
                    self.delay_timer == old(self).delay_timer,
                    self.sound_timer == old(self).sound_timer,
                decreases x + 1 - k,
            {
                self.memory[base + k] = self.registers[k];
                k += 1;
            }
            assert(self@.memory =~= store_registers(
                old(self)@.memory,
                old(self)@.registers,
                base as int,
                x as int,
            ));
        } else {
            // load V0..=VX from I
            let base = self.register_i as usize;
            let mut k: usize = 0;
            while k <= x
                invariant
                    x < 16,
                    k <= x + 1,
                    base + x < MEMORY_SIZE,
                    base == old(self).register_i,
                    forall|r: int|
                        0 <= r < 16 ==> #[trigger] self.registers@[r] == if r < k {
                            old(self).memory@[base + r]
                        } else {
                            old(self).registers@[r]
                        },
                    self.display == old(self).display,
                    self.memory == old(self).memory,
                    self.stack == old(self).stack,
                    self.program_counter == old(self).program_counter,
                    self.register_i == old(self).register_i,
                    self.delay_timer == old(self).delay_timer,
                    self.sound_timer == old(self).sound_timer,
                decreases x + 1 - k,
            {
                self.registers[k] = self.memory[base + k];
                k += 1;
            }
            assert(self@.registers =~= load_registers(
                old(self)@.registers,
                old(self)@.memory,
                base as int,
                x as int,
            ));
        }
    }

    /// The address of the next instruction.
    pub fn program_counter(&self) -> (pc: usize)
        ensures
            pc == self@.pc,
    {
        self.program_counter
    }

    /// Register `VX`.
    pub fn register(&self, x: usize) -> (v: u8)
        requires
            x < 16,
        ensures
            v == self@.registers[x as int],
    {
        self.registers[x]
    }

    /// The address register `I`.
    pub fn register_i(&self) -> (i: u16)
        ensures
            i == self@.register_i,
    {
        self.register_i
    }

    /// The byte at `addr`.
    pub fn memory_byte(&self, addr: usize) -> (b: u8)
        requires
            addr < MEMORY_SIZE,
        ensures
            b == self@.memory[addr as int],
    {
        self.memory[addr]
    }

    pub fn delay_timer(&self) -> (t: u8)
        ensures
            t == self@.delay_timer,
    {
        self.delay_timer
    }

    pub fn sound_timer(&self) -> (t: u8)
        ensures
            t == self@.sound_timer,
    {
        self.sound_timer
    }

    /// How many calls are in progress.
    pub fn stack_depth(&self) -> (d: usize)
        ensures
            d == self@.stack.len(),
    {
        self.stack.len()
    }

    /// The pixel in `row` (counted from the bottom of the screen) and `column`.
    pub fn screen_pixel(&self, row: usize, column: usize) -> (lit: bool)
        requires
            row < ROWS,
            column < COLUMNS,
        ensures
            lit == self@.display[ROWS - 1 - row][column as int],
    {
        self.display[ROWS - 1 - row][column]
    }
}

/// Whether, while drawing, the pixel `(row, col)` is handled before sprite cell `(r, c)`:
/// the sprite is drawn row by row, each row from left to right.
spec fn drawn_before(row: int, col: int, ox: int, oy: int, r: int, c: int) -> bool {
    let dy = wrapped_offset(row, oy, ROWS as int);
    let dx = wrapped_offset(col, ox, COLUMNS as int);
    dy < r || (dy == r && dx < c)
}

/// Whether a lit pixel has been turned off by the sprite cells drawn before `(r, c)`.
spec fn collided(
    d0: Seq<Seq<bool>>,
    mem: Seq<u8>,
    i: int,
    ox: int,
    oy: int,
    n: int,
    r: int,
    c: int,
) -> bool {
    exists|wr: int, wc: int|
        0 <= wr < ROWS && 0 <= wc < COLUMNS && #[trigger] d0[wr][wc] && sprite_covers(
            mem,
            i,
            ox,
            oy,
            n,
            wr,
            wc,
        ) && drawn_before(wr, wc, ox, oy, r, c)
}

/// Drawing sprite cell `(r, c)` at pixel `(y, x)` moves exactly that pixel from "to do"
/// to "done".
proof fn lemma_step_order(ox: int, oy: int, r: int, c: int, y: int, x: int)
    requires
        0 <= ox < COLUMNS,
        0 <= oy < ROWS,
        0 <= r < 16,
        0 <= c < 8,
        y == (oy + r) % (ROWS as int),
        x == (ox + c) % (COLUMNS as int),
    ensures
        forall|row: int, col: int|
            0 <= row < ROWS && 0 <= col < COLUMNS ==> #[trigger] drawn_before(
                row,
                col,
                ox,
                oy,
                r,
                c + 1,
            ) == (drawn_before(row, col, ox, oy, r, c) || (row == y && col == x)),
{
    lemma_wrap(oy, r, ROWS as int);
    lemma_wrap(ox, c, COLUMNS as int);
}

/// How the emulator splits an instruction word into its fields.
proof fn lemma_decode(hi: u8, lo: u8)
    by (bit_vector)
    ensures
        ({
            let op: u16 = ((hi as u16) << 8u16) | (lo as u16);
            &&& op == hi as u16 * 256 + lo as u16
            &&& ((op >> 12u16) & 0xFu16) as u8 == hi / 16
            &&& ((op >> 8u16) & 0xFu16) as u8 == hi % 16
            &&& ((op >> 4u16) & 0xFu16) as u8 == lo / 16
            &&& (op & 0xFu16) as u8 == lo % 16
            &&& (op & 0xFFu16) as u8 == lo
            &&& op & 0x0FFFu16 == (hi % 16) as u16 * 256 + lo as u16
        }),
{
}

/// The bit arithmetic of the shift instructions.
proof fn lemma_shifts(v: u8)
    by (bit_vector)
    ensures
        v & 0x01u8 == v % 2,
        v >> 1u8 == v / 2,
        v << 1u8 == ((v * 2) % 256) as u8,
        (v & 0x80u8) >> 7u8 == v / 128,
{
}

/// Testing a bit by mask is testing it by shift.
proof fn lemma_sprite_bit(byte: u8, c: u8)
    by (bit_vector)
    requires
        c < 8,
    ensures
        ((byte & (1u8 << c)) != 0u8) == ((byte >> c) & 1u8 == 1u8),
{
}

/// Copies the font into memory from address 80 on.
pub fn _add_fonts(memory: &mut [u8; 4096], fonts: [u8; 80])
    ensures
        final(memory)@ == Seq::new(
            MEMORY_SIZE as nat,
            |a: int|
                if 80 <= a < 160 {
                    fonts@[a - 80]
                } else {
                    old(memory)@[a]
                },
        ),
{
    let mut i: usize = 0;
    while i < 80
        invariant
            i <= 80,
            forall|a: int|
                0 <= a < MEMORY_SIZE ==> #[trigger] memory@[a] == if 80 <= a < 80 + i {
                    fonts@[a - 80]
                } else {
                    old(memory)@[a]
                },
        decreases 80 - i,
    {
        memory[i + 80] = fonts[i];
        i += 1;
    }
    assert(memory@ =~= Seq::new(
        MEMORY_SIZE as nat,
        |a: int|
            if 80 <= a < 160 {
                fonts@[a - 80]
            } else {
                old(memory)@[a]
            },
    ));
}

} // verus!
