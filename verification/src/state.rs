//! The CHIP-8 machine as mathematical values, and what each instruction does to it.
//!
//! `step` is the meaning of one fetch-decode-execute cycle. It is `None` exactly on the
//! states on which the emulator refuses to go on: the program counter runs past memory,
//! the instruction is not one the emulator knows, a return finds the call stack empty,
//! a key instruction names a key that does not exist, or an instruction reads or writes
//! memory past its end.
use vstd::prelude::*;
use vstd::arithmetic::div_mod::lemma_fundamental_div_mod_converse;

verus! {

/// Height of the display in pixels.
pub const ROWS: usize = 32;

/// Width of the display in pixels.
pub const COLUMNS: usize = 64;

/// Size of the addressable memory in bytes.
pub const MEMORY_SIZE: usize = 4096;

/// Address at which programs are loaded and execution starts.
pub const PROGRAM_START: usize = 512;

/// Number of general-purpose registers, `V0` to `VF`.
pub const REGISTER_COUNT: usize = 16;

/// Number of keys on the keypad.
pub const KEY_COUNT: usize = 16;

/// Index of the flag register `VF`.
pub const FLAG: usize = 15;

/// Instructions executed per frame, between two decrements of the timers.
pub const TICKS_PER_FRAME: usize = 20;

/// The complete state of the machine.
#[verifier::ext_equal]
pub struct Chip8State {
    /// `display[row][column]` is whether that pixel is lit.
    pub display: Seq<Seq<bool>>,
    pub memory: Seq<u8>,
    /// The return addresses of the calls in progress, most recent first.
    pub stack: Seq<usize>,
    pub pc: usize,
    pub register_i: u16,
    pub registers: Seq<u8>,
    pub delay_timer: u8,
    pub sound_timer: u8,
}

impl Chip8State {
    /// The shape every state of the machine has.
    pub open spec fn wf(self) -> bool {
        &&& self.display.len() == ROWS
        &&& forall|r: int| 0 <= r < ROWS ==> (#[trigger] self.display[r]).len() == COLUMNS
        &&& self.memory.len() == MEMORY_SIZE
        &&& self.registers.len() == REGISTER_COUNT
    }

    pub open spec fn with_pc(self, pc: int) -> Chip8State {
        Chip8State { pc: pc as usize, ..self }
    }

    /// Skips the next instruction when `cond` holds.
    pub open spec fn skip_if(self, cond: bool) -> Chip8State {
        if cond {
            self.with_pc(self.pc + 2)
        } else {
            self
        }
    }

    pub open spec fn with_registers(self, registers: Seq<u8>) -> Chip8State {
        Chip8State { registers, ..self }
    }

    pub open spec fn set_register(self, x: int, v: u8) -> Chip8State {
        self.with_registers(self.registers.update(x, v))
    }
}

/// A display with every pixel dark.
pub open spec fn blank_display() -> Seq<Seq<bool>> {
    Seq::new(ROWS as nat, |r: int| Seq::new(COLUMNS as nat, |c: int| false))
}

/// The state of a machine that was just switched on.
pub open spec fn initial_state() -> Chip8State {
    Chip8State {
        display: blank_display(),
        memory: Seq::new(MEMORY_SIZE as nat, |a: int| 0u8),
        stack: Seq::empty(),
        pc: PROGRAM_START,
        register_i: 0,
        registers: Seq::new(REGISTER_COUNT as nat, |k: int| 0u8),
        delay_timer: 0,
        sound_timer: 0,
    }
}

/// Memory after the program `rom` is copied to `PROGRAM_START`.
pub open spec fn load_program(memory: Seq<u8>, rom: Seq<u8>) -> Seq<u8> {
    Seq::new(
        memory.len(),
        |a: int|
            if PROGRAM_START <= a < PROGRAM_START + rom.len() {
                rom[a - PROGRAM_START]
            } else {
                memory[a]
            },
    )
}

/// A timer after one tick of the 60 Hz clock.
pub open spec fn count_down(t: u8) -> u8 {
    if t > 0 {
        (t - 1) as u8
    } else {
        0
    }
}

pub open spec fn decrement_timers(s: Chip8State) -> Chip8State {
    Chip8State { delay_timer: count_down(s.delay_timer), sound_timer: count_down(s.sound_timer), ..s }
}

// ---------------------------------------------------------------------------------------
// Decoding. An instruction is two bytes, `hi` then `lo`, read as the nibbles `o x y n`.
/// The high nibble, which selects the instruction family.
pub open spec fn op_family(hi: u8) -> u8 {
    hi / 16
}

/// The `X` nibble: a register index.
pub open spec fn op_x(hi: u8) -> u8 {
    hi % 16
}

/// The `Y` nibble: a register index.
pub open spec fn op_y(lo: u8) -> u8 {
    lo / 16
}

/// The low nibble.
pub open spec fn op_n(lo: u8) -> u8 {
    lo % 16
}

/// The low twelve bits: an address.
pub open spec fn op_nnn(hi: u8, lo: u8) -> int {
    (hi % 16) as int * 256 + lo as int
}

// ---------------------------------------------------------------------------------------
// Arithmetic and logic, the `8XYN` family.
/// The registers after `8XYN`; `None` for an `N` that names no operation.
pub open spec fn alu(r: Seq<u8>, x: int, y: int, n: u8) -> Option<Seq<u8>> {
    let vx = r[x];
    let vy = r[y];
    if n == 0 {
        Some(r.update(x, vy))
    } else if n == 1 {
        Some(r.update(x, vx | vy))
    } else if n == 2 {
        Some(r.update(x, vx & vy))
    } else if n == 3 {
        Some(r.update(x, vx ^ vy))
    } else if n == 4 {
        // add, VF is the carry
        Some(
            r.update(x, ((vx + vy) % 256) as u8).update(
                FLAG as int,
                if vx + vy > 255 {
                    1u8
                } else {
                    0u8
                },
            ),
        )
    } else if n == 5 {
        // VX - VY, VF is 1 when no borrow
        Some(
            r.update(x, ((vx - vy) % 256) as u8).update(
                FLAG as int,
                if vx >= vy {
                    1u8
                } else {
                    0u8
                },
            ),
        )
    } else if n == 6 {
        // VX = VY >> 1, VF is the bit shifted out
        Some(r.update(x, vy / 2).update(FLAG as int, vy % 2))
    } else if n == 7 {
        // VY - VX, VF is 1 when no borrow
        Some(
            r.update(x, ((vy - vx) % 256) as u8).update(
                FLAG as int,
                if vy >= vx {
                    1u8
                } else {
                    0u8
                },
            ),
        )
    } else if n == 14 {
        // VX = VY << 1, VF is the bit shifted out
        Some(r.update(x, ((vy * 2) % 256) as u8).update(FLAG as int, vy / 128))
    } else {
        None
    }
}

// ---------------------------------------------------------------------------------------
// Drawing, `DXYN`.
/// Bit `col` of a sprite row, counted from the most significant bit.
pub open spec fn sprite_bit(byte: u8, col: int) -> bool {
    (byte >> ((7 - col) as u8)) & 1u8 == 1u8
}

/// Distance from `origin` to `p`, wrapping around an axis of length `len`.
pub open spec fn wrapped_offset(p: int, origin: int, len: int) -> int {
    (p - origin) % len
}

/// Whether the sprite of `n` rows at `memory[i..]`, drawn with its top-left corner at
/// `(ox, oy)` and wrapping around the edges, has a set bit on pixel `(row, col)`.
pub open spec fn sprite_covers(
    memory: Seq<u8>,
    i: int,
    ox: int,
    oy: int,
    n: int,
    row: int,
    col: int,
) -> bool {
    let dy = wrapped_offset(row, oy, ROWS as int);
    let dx = wrapped_offset(col, ox, COLUMNS as int);
    dy < n && dx < 8 && sprite_bit(memory[i + dy], dx)
}

/// The display after the sprite is XOR-ed onto it.
pub open spec fn draw_display(
    display: Seq<Seq<bool>>,
    memory: Seq<u8>,
    i: int,
    ox: int,
    oy: int,
    n: int,
) -> Seq<Seq<bool>> {
    Seq::new(
        ROWS as nat,
        |row: int|
            Seq::new(
                COLUMNS as nat,
                |col: int| display[row][col] != sprite_covers(memory, i, ox, oy, n, row, col),
            ),
    )
}

/// Whether drawing the sprite turns off a pixel that was lit.
pub open spec fn draw_collides(
    display: Seq<Seq<bool>>,
    memory: Seq<u8>,
    i: int,
    ox: int,
    oy: int,
    n: int,
) -> bool {
    exists|row: int, col: int|
        0 <= row < ROWS && 0 <= col < COLUMNS && #[trigger] display[row][col] && sprite_covers(
            memory,
            i,
            ox,
            oy,
            n,
            row,
            col,
        )
}

/// `DXYN`: draw the `n`-row sprite at `I` at `(VX, VY)`; `VF` tells whether a lit pixel
/// was turned off.
pub open spec fn draw(s: Chip8State, x: int, y: int, n: int) -> Option<Chip8State> {
    if n == 0 || s.register_i + n <= MEMORY_SIZE {
        let ox = s.registers[x] % 64;
        let oy = s.registers[y] % 32;
        let i = s.register_i as int;
        Some(
            Chip8State {
                display: draw_display(s.display, s.memory, i, ox as int, oy as int, n),
                ..s
            }.set_register(
                FLAG as int,
                if draw_collides(s.display, s.memory, i, ox as int, oy as int, n) {
                    1u8
                } else {
                    0u8
                },
            ),
        )
    } else {
        None
    }
}

// ---------------------------------------------------------------------------------------
// The `FX..` family.
/// The highest-numbered key among the first `upto` that is pressed.
pub open spec fn last_pressed(keys: Seq<bool>, upto: int) -> Option<int>
    decreases upto,
{
    if upto <= 0 {
        None
    } else if keys[upto - 1] {
        Some(upto - 1)
    } else {
        last_pressed(keys, upto - 1)
    }
}

/// Memory after `FX33`: the decimal digits of `v` at `i`, `i + 1`, `i + 2`.
pub open spec fn store_bcd(memory: Seq<u8>, i: int, v: u8) -> Seq<u8> {
    memory.update(i, v / 100).update(i + 1, (v / 10) % 10).update(i + 2, v % 10)
}

/// Memory after `FX55`: `V0..=VX` stored at `i..`.
pub open spec fn store_registers(memory: Seq<u8>, registers: Seq<u8>, i: int, x: int) -> Seq<u8> {
    Seq::new(
        memory.len(),
        |a: int|
            if i <= a <= i + x {
                registers[a - i]
            } else {
                memory[a]
            },
    )
}

/// Registers after `FX65`: `V0..=VX` loaded from `i..`.
pub open spec fn load_registers(registers: Seq<u8>, memory: Seq<u8>, i: int, x: int) -> Seq<u8> {
    Seq::new(
        registers.len(),
        |k: int|
            if k <= x {
                memory[i + k]
            } else {
                registers[k]
            },
    )
}

pub open spec fn exec_f(s: Chip8State, x: int, nn: u8, keys: Seq<bool>) -> Option<Chip8State> {
    let vx = s.registers[x];
    let i = s.register_i as int;
    if nn == 0x07 {
        Some(s.set_register(x, s.delay_timer))
    } else if nn == 0x0A {
        // wait for a key: the instruction repeats until one is pressed
        match last_pressed(keys, KEY_COUNT as int) {
            Some(k) => Some(s.set_register(x, k as u8)),
            None => Some(s.with_pc(s.pc - 2)),
        }
    } else if nn == 0x15 {
        Some(Chip8State { delay_timer: vx, ..s })
    } else if nn == 0x18 {
        Some(Chip8State { sound_timer: vx, ..s })
    } else if nn == 0x1E {
        // I += VX, VF is the carry out of sixteen bits
        Some(
            Chip8State { register_i: ((i + vx) % 65536) as u16, ..s }.set_register(
                FLAG as int,
                if i + vx > 65535 {
                    1u8
                } else {
                    0u8
                },
            ),
        )
    } else if nn == 0x33 {
        if i + 2 < MEMORY_SIZE {
            Some(Chip8State { memory: store_bcd(s.memory, i, vx), ..s })
        } else {
            None
        }
    } else if nn == 0x55 {
        if i + x < MEMORY_SIZE {
            Some(Chip8State { memory: store_registers(s.memory, s.registers, i, x), ..s })
        } else {
            None
        }
    } else if nn == 0x65 {
        if i + x < MEMORY_SIZE {
            Some(s.with_registers(load_registers(s.registers, s.memory, i, x)))
        } else {
            None
        }
    } else {
        None
    }
}

/// The `EX9E` / `EXA1` key tests.
pub open spec fn exec_e(s: Chip8State, x: int, nn: u8, keys: Seq<bool>) -> Option<Chip8State> {
    let vx = s.registers[x];
    if vx >= KEY_COUNT {
        None
    } else if nn == 0x9E {
        Some(s.skip_if(keys[vx as int]))
    } else if nn == 0xA1 {
        Some(s.skip_if(!keys[vx as int]))
    } else {
        None
    }
}

/// The `00E0` / `00EE` instructions; `operation` is the whole instruction word.
pub open spec fn exec_0(s: Chip8State, operation: int) -> Option<Chip8State> {
    if operation == 0x00E0 {
        Some(Chip8State { display: blank_display(), ..s })
    } else if operation == 0x00EE {
        if s.stack.len() > 0 {
            Some(Chip8State { pc: s.stack[0], stack: s.stack.drop_first(), ..s })
        } else {
            None
        }
    } else {
        None
    }
}

/// What instruction `hi lo` does to `s`, in which the program counter already points past it.
pub open spec fn execute(s: Chip8State, hi: u8, lo: u8, keys: Seq<bool>) -> Option<Chip8State> {
    let family = op_family(hi);
    let x = op_x(hi) as int;
    let y = op_y(lo) as int;
    let n = op_n(lo);
    let nnn = op_nnn(hi, lo);
    let r = s.registers;
    if family == 0x0 {
        exec_0(s, hi as int * 256 + lo as int)
    } else if family == 0x1 {
        Some(s.with_pc(nnn))
    } else if family == 0x2 {
        Some(Chip8State { stack: seq![s.pc].add(s.stack), ..s.with_pc(nnn) })
    } else if family == 0x3 {
        Some(s.skip_if(r[x] == lo))
    } else if family == 0x4 {
        Some(s.skip_if(r[x] != lo))
    } else if family == 0x5 {
        Some(s.skip_if(r[x] == r[y]))
    } else if family == 0x6 {
        Some(s.set_register(x, lo))
    } else if family == 0x7 {
        Some(s.set_register(x, ((r[x] + lo) % 256) as u8))
    } else if family == 0x8 {
        match alu(r, x, y, n) {
            Some(r2) => Some(s.with_registers(r2)),
            None => None,
        }
    } else if family == 0x9 {
        Some(s.skip_if(r[x] != r[y]))
    } else if family == 0xA {
        Some(Chip8State { register_i: nnn as u16, ..s })
    } else if family == 0xB {
        Some(s.with_pc(nnn + r[0]))
    } else if family == 0xD {
        draw(s, x, y, n as int)
    } else if family == 0xE {
        exec_e(s, x, lo, keys)
    } else if family == 0xF {
        exec_f(s, x, lo, keys)
    } else {
        None
    }
}

/// One fetch-decode-execute cycle.
pub open spec fn step(s: Chip8State, keys: Seq<bool>) -> Option<Chip8State> {
    if s.pc + 1 < MEMORY_SIZE {
        let hi = s.memory[s.pc as int];
        let lo = s.memory[s.pc + 1];
        execute(s.with_pc(s.pc + 2), hi, lo, keys)
    } else {
        None
    }
}

/// `n` cycles with the same keys held.
pub open spec fn run(s: Chip8State, keys: Seq<bool>, n: nat) -> Option<Chip8State>
    decreases n,
{
    if n == 0 {
        Some(s)
    } else {
        match step(s, keys) {
            Some(t) => run(t, keys, (n - 1) as nat),
            None => None,
        }
    }
}

/// One frame: the timers count down, then `TICKS_PER_FRAME` cycles run.
pub open spec fn frame(s: Chip8State, keys: Seq<bool>) -> Option<Chip8State> {
    run(decrement_timers(s), keys, TICKS_PER_FRAME as nat)
}

/// Offsets along a wrapping axis: `(o + d) % len` lies `d` past `o`, and is the only
/// point that does.
pub proof fn lemma_wrap(o: int, d: int, len: int)
    requires
        0 <= o < len,
        0 <= d < len,
        len == ROWS || len == COLUMNS,
    ensures
        wrapped_offset((o + d) % len, o, len) == d,
        forall|p: int|
            0 <= p < len && #[trigger] wrapped_offset(p, o, len) == d ==> p == (o + d) % len,
{
    if len == ROWS {
        lemma_wrap_fixed(o, d, 32);
    } else {
        lemma_wrap_fixed(o, d, 64);
    }
}

pub proof fn lemma_wrap_fixed(o: int, d: int, len: int)
    requires
        0 <= o < len,
        0 <= d < len,
        len > 0,
    ensures
        wrapped_offset((o + d) % len, o, len) == d,
        forall|p: int|
            0 <= p < len && #[trigger] wrapped_offset(p, o, len) == d ==> p == (o + d) % len,
{
    if o + d < len {
        lemma_fundamental_div_mod_converse(o + d, len, 0, o + d);
        lemma_fundamental_div_mod_converse(d, len, 0, d);
    } else {
        lemma_fundamental_div_mod_converse(o + d, len, 1, o + d - len);
        lemma_fundamental_div_mod_converse(d - len, len, -1, d);
    }
    assert forall|p: int|
        0 <= p < len && #[trigger] wrapped_offset(p, o, len) == d implies p == (o + d) % len by {
        if p - o >= 0 {
            lemma_fundamental_div_mod_converse(p - o, len, 0, p - o);
        } else {
            lemma_fundamental_div_mod_converse(p - o, len, -1, p - o + len);
        }
    }
}

} // verus!
