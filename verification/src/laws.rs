//! Properties of the machine that span instructions and states.
use vstd::prelude::*;
use crate::state::{
    Chip8State, TICKS_PER_FRAME, frame, decrement_timers, ROWS, COLUMNS, MEMORY_SIZE, FLAG, KEY_COUNT, step, run, execute, alu, draw_display,
    store_bcd, store_registers, load_registers, last_pressed, blank_display, sprite_covers,
    draw_collides, load_program, lemma_wrap, initial_state, PROGRAM_START,
};

verus! {

/// Every instruction keeps the machine's shape: the display stays `ROWS` by `COLUMNS`,
/// memory stays `MEMORY_SIZE` bytes and there stay sixteen registers.
pub proof fn lemma_step_preserves_wf(s: Chip8State, keys: Seq<bool>)
    requires
        s.wf(),
        step(s, keys) is Some,
    ensures
        step(s, keys)->0.wf(),
{
    let t = step(s, keys)->0;
    assert forall|r: int| 0 <= r < ROWS implies (#[trigger] t.display[r]).len() == COLUMNS by {}
}

/// Only `00E0` and `DXYN` change the display; only `FX33` and `FX55` change memory; only
/// `2NNN` and `00EE` change the call stack.
pub proof fn lemma_what_each_instruction_writes(s: Chip8State, keys: Seq<bool>)
    requires
        s.wf(),
        step(s, keys) is Some,
    ensures
        ({
            let t = step(s, keys)->0;
            let hi = s.memory[s.pc as int];
            let lo = s.memory[s.pc + 1];
            &&& t.display != s.display ==> (hi == 0x00 && lo == 0xE0) || hi / 16 == 0xD
            &&& t.memory != s.memory ==> hi / 16 == 0xF && (lo == 0x33 || lo == 0x55)
            &&& t.stack != s.stack ==> hi / 16 == 0x2 || (hi == 0x00 && lo == 0xEE)
        }),
{
}

/// A return right after a call resumes at the instruction after the call, with the call
/// stack as it was before the call.
pub proof fn lemma_call_then_return(s: Chip8State, keys: Seq<bool>)
    requires
        s.wf(),
        s.pc + 1 < MEMORY_SIZE,
        s.memory[s.pc as int] / 16 == 2,
        ({
            let t = step(s, keys)->0;
            &&& t.pc + 1 < MEMORY_SIZE
            &&& t.memory[t.pc as int] == 0x00
            &&& t.memory[t.pc + 1] == 0xEE
        }),
    ensures
        step(s, keys) is Some,
        step(step(s, keys)->0, keys) == Some(
            Chip8State { pc: (s.pc + 2) as usize, ..s },
        ),
{
    let t = step(s, keys)->0;
    assert(t.stack.drop_first() =~= s.stack);
}

/// Drawing the same sprite at the same place twice leaves the display as it was.
pub proof fn lemma_draw_twice_restores(
    display: Seq<Seq<bool>>,
    memory: Seq<u8>,
    i: int,
    ox: int,
    oy: int,
    n: int,
)
    requires
        display.len() == ROWS,
        forall|r: int| 0 <= r < ROWS ==> (#[trigger] display[r]).len() == COLUMNS,
    ensures
        draw_display(draw_display(display, memory, i, ox, oy, n), memory, i, ox, oy, n) == display,
{
    assert(draw_display(draw_display(display, memory, i, ox, oy, n), memory, i, ox, oy, n)
        =~~= display);
}

/// `FX33` writes the three decimal digits of `VX`: hundreds, tens, units.
pub proof fn lemma_bcd_digits(memory: Seq<u8>, i: int, v: u8)
    requires
        0 <= i,
        i + 2 < memory.len(),
    ensures
        ({
            let m = store_bcd(memory, i, v);
            &&& m[i] < 10 && m[i + 1] < 10 && m[i + 2] < 10
            &&& 100 * m[i] + 10 * m[i + 1] + m[i + 2] == v
        }),
{
}

/// `FX65` after `FX55` with the same `I` and `X` gets back `V0` to `VX`; the other
/// registers keep what they held when loading.
pub proof fn lemma_store_then_load(
    memory: Seq<u8>,
    saved: Seq<u8>,
    current: Seq<u8>,
    i: int,
    x: int,
)
    requires
        saved.len() == 16,
        current.len() == 16,
        0 <= x < 16,
        0 <= i,
        i + x < memory.len(),
    ensures
        load_registers(current, store_registers(memory, saved, i, x), i, x) == Seq::new(
            16,
            |k: int|
                if k <= x {
                    saved[k]
                } else {
                    current[k]
                },
        ),
{
    assert(load_registers(current, store_registers(memory, saved, i, x), i, x) =~= Seq::new(
        16,
        |k: int|
            if k <= x {
                saved[k]
            } else {
                current[k]
            },
    ));
}

/// `8XY4` loses nothing: the new `VX` plus 256 times the carry is the true sum.
pub proof fn lemma_add_carry(r: Seq<u8>, x: int, y: int)
    requires
        r.len() == 16,
        0 <= x < FLAG,
        0 <= y < 16,
    ensures
        ({
            let r2 = alu(r, x, y, 4)->0;
            r2[x] + 256 * r2[FLAG as int] == r[x] + r[y]
        }),
{
}

/// `8XY5` loses nothing: the new `VX` is `VX - VY`, plus 256 when `VF` says a borrow
/// happened.
pub proof fn lemma_sub_borrow(r: Seq<u8>, x: int, y: int)
    requires
        r.len() == 16,
        0 <= x < FLAG,
        0 <= y < 16,
    ensures
        ({
            let r2 = alu(r, x, y, 5)->0;
            r2[x] == r[x] - r[y] + 256 * (1 - r2[FLAG as int])
        }),
{
}

/// Of `3XNN` and `4XNN` on the same operands exactly one skips.
pub proof fn lemma_skips_complementary(s: Chip8State, x: u8, nn: u8, keys: Seq<bool>)
    requires
        s.wf(),
        x < 16,
        s.pc <= MEMORY_SIZE,
    ensures
        execute(s, (0x30 + x) as u8, nn, keys) is Some,
        execute(s, (0x40 + x) as u8, nn, keys) is Some,
        execute(s, (0x30 + x) as u8, nn, keys)->0.pc + execute(s, (0x40 + x) as u8, nn, keys)->0.pc
            == 2 * s.pc + 2,
{
}

/// While no key is held, `FX0A` leaves the whole machine as it was: it waits on the
/// same instruction.
pub proof fn lemma_wait_for_key_idles(s: Chip8State, keys: Seq<bool>)
    requires
        s.wf(),
        s.pc + 1 < MEMORY_SIZE,
        s.memory[s.pc as int] / 16 == 0xF,
        s.memory[s.pc + 1] == 0x0A,
        keys.len() == KEY_COUNT,
        forall|k: int| 0 <= k < KEY_COUNT ==> !#[trigger] keys[k],
    ensures
        step(s, keys) == Some(s),
{
    lemma_no_key_pressed(keys, KEY_COUNT as int);
}

proof fn lemma_no_key_pressed(keys: Seq<bool>, upto: int)
    requires
        upto <= keys.len(),
        forall|k: int| 0 <= k < upto ==> !#[trigger] keys[k],
    ensures
        last_pressed(keys, upto) is None,
    decreases upto,
{
    if upto > 0 {
        lemma_no_key_pressed(keys, upto - 1);
    }
}

/// Running `a` instructions and then `b` more is running `a + b`.
pub proof fn lemma_run_split(s: Chip8State, keys: Seq<bool>, a: nat, b: nat)
    ensures
        run(s, keys, a + b) == match run(s, keys, a) {
            Some(t) => run(t, keys, b),
            None => None,
        },
    decreases a,
{
    if a > 0 {
        match step(s, keys) {
            Some(t) => {
                lemma_run_split(t, keys, (a - 1) as nat, b);
                assert((a + b - 1) as nat == (a - 1) as nat + b);
            },
            None => {},
        }
    }
}

/// `DXYN` sets `VF` to 1 exactly when some pixel that was lit before the instruction is
/// dark after it, and to 0 otherwise, whatever `VF` held before.
pub proof fn lemma_draw_flag_reports_erased_pixels(s: Chip8State, keys: Seq<bool>)
    requires
        s.wf(),
        s.pc + 1 < MEMORY_SIZE,
        s.memory[s.pc as int] / 16 == 0xD,
        step(s, keys) is Some,
    ensures
        ({
            let t = step(s, keys)->0;
            t.registers[FLAG as int] == if exists|r: int, c: int|
                0 <= r < ROWS && 0 <= c < COLUMNS && #[trigger] s.display[r][c]
                    && !t.display[r][c] {
                1u8
            } else {
                0u8
            }
        }),
{
    let t = step(s, keys)->0;
    let hi = s.memory[s.pc as int];
    let lo = s.memory[s.pc + 1];
    let x = (hi % 16) as int;
    let y = (lo / 16) as int;
    let n = (lo % 16) as int;
    let i = s.register_i as int;
    let ox = (s.registers[x] % 64) as int;
    let oy = (s.registers[y] % 32) as int;
    assert(t.display == draw_display(s.display, s.memory, i, ox, oy, n));
    let erased = exists|r: int, c: int|
        0 <= r < ROWS && 0 <= c < COLUMNS && #[trigger] s.display[r][c] && !t.display[r][c];
    if erased {
        let (r, c) = choose|r: int, c: int|
            0 <= r < ROWS && 0 <= c < COLUMNS && #[trigger] s.display[r][c] && !t.display[r][c];
        assert(sprite_covers(s.memory, i, ox, oy, n, r, c));
        assert(draw_collides(s.display, s.memory, i, ox, oy, n));
    }
    if draw_collides(s.display, s.memory, i, ox, oy, n) {
        let (r, c) = choose|r: int, c: int|
            0 <= r < ROWS && 0 <= c < COLUMNS && #[trigger] s.display[r][c] && sprite_covers(
                s.memory,
                i,
                ox,
                oy,
                n,
                r,
                c,
            );
        assert(!t.display[r][c]);
        assert(erased);
    }
}

/// `5XY0` skips the next instruction exactly when `VX == VY`, and `9XY0` exactly when
/// `VX != VY`; nothing but the program counter changes.
pub proof fn lemma_register_skips(s: Chip8State, keys: Seq<bool>)
    requires
        s.wf(),
        s.pc + 1 < MEMORY_SIZE,
        s.memory[s.pc as int] / 16 == 0x5 || s.memory[s.pc as int] / 16 == 0x9,
    ensures
        step(s, keys) is Some,
        ({
            let hi = s.memory[s.pc as int];
            let vx = s.registers[(hi % 16) as int];
            let vy = s.registers[(s.memory[s.pc + 1] / 16) as int];
            let skips = if hi / 16 == 0x5 {
                vx == vy
            } else {
                vx != vy
            };
            step(s, keys)->0 == Chip8State {
                pc: (if skips {
                    s.pc + 4
                } else {
                    s.pc + 2
                }) as usize,
                ..s
            }
        }),
{
}

/// `3XNN` skips the next instruction exactly when `VX == NN`, and `4XNN` exactly when
/// `VX != NN`; nothing but the program counter changes.
pub proof fn lemma_value_skips(s: Chip8State, keys: Seq<bool>)
    requires
        s.wf(),
        s.pc + 1 < MEMORY_SIZE,
        s.memory[s.pc as int] / 16 == 0x3 || s.memory[s.pc as int] / 16 == 0x4,
    ensures
        step(s, keys) is Some,
        ({
            let hi = s.memory[s.pc as int];
            let vx = s.registers[(hi % 16) as int];
            let nn = s.memory[s.pc + 1];
            let skips = if hi / 16 == 0x3 {
                vx == nn
            } else {
                vx != nn
            };
            step(s, keys)->0 == Chip8State {
                pc: (if skips {
                    s.pc + 4
                } else {
                    s.pc + 2
                }) as usize,
                ..s
            }
        }),
{
}

/// `EX9E` skips exactly when key `VX` is held and `EXA1` exactly when it is not; nothing
/// but the program counter changes.
pub proof fn lemma_key_skips(s: Chip8State, keys: Seq<bool>)
    requires
        s.wf(),
        keys.len() == KEY_COUNT,
        s.pc + 1 < MEMORY_SIZE,
        s.memory[s.pc as int] / 16 == 0xE,
        s.memory[s.pc + 1] == 0x9E || s.memory[s.pc + 1] == 0xA1,
        s.registers[(s.memory[s.pc as int] % 16) as int] < KEY_COUNT,
    ensures
        step(s, keys) is Some,
        ({
            let held = keys[s.registers[(s.memory[s.pc as int] % 16) as int] as int];
            let skips = if s.memory[s.pc + 1] == 0x9E {
                held
            } else {
                !held
            };
            step(s, keys)->0 == Chip8State {
                pc: (if skips {
                    s.pc + 4
                } else {
                    s.pc + 2
                }) as usize,
                ..s
            }
        }),
{
}

/// Only key `VX` matters to `EX9E` and `EXA1`: two keypads that agree on that key give
/// the same result.
pub proof fn lemma_key_skips_ignore_other_keys(s: Chip8State, keys1: Seq<bool>, keys2: Seq<bool>)
    requires
        s.wf(),
        keys1.len() == KEY_COUNT,
        keys2.len() == KEY_COUNT,
        s.pc + 1 < MEMORY_SIZE,
        s.memory[s.pc as int] / 16 == 0xE,
        s.registers[(s.memory[s.pc as int] % 16) as int] < KEY_COUNT,
        keys1[s.registers[(s.memory[s.pc as int] % 16) as int] as int] == keys2[s.registers[(
        s.memory[s.pc as int] % 16) as int] as int],
    ensures
        step(s, keys1) == step(s, keys2),
{
}

/// `FX07` copies the delay timer, as it was before the instruction, into `VX`; nothing
/// else but the program counter changes.
pub proof fn lemma_read_delay_timer(s: Chip8State, keys: Seq<bool>)
    requires
        s.wf(),
        s.pc + 1 < MEMORY_SIZE,
        s.memory[s.pc as int] / 16 == 0xF,
        s.memory[s.pc + 1] == 0x07,
    ensures
        step(s, keys) == Some(
            Chip8State {
                pc: (s.pc + 2) as usize,
                registers: s.registers.update((s.memory[s.pc as int] % 16) as int, s.delay_timer),
                ..s
            },
        ),
{
}

/// Whether the instruction at the program counter reads or sets a timer: `FX07`, `FX15`
/// or `FX18`.
pub open spec fn at_timer_instruction(s: Chip8State) -> bool {
    &&& s.pc + 1 < MEMORY_SIZE
    &&& s.memory[s.pc as int] / 16 == 0xF
    &&& s.memory[s.pc + 1] == 0x07 || s.memory[s.pc + 1] == 0x15 || s.memory[s.pc + 1] == 0x18
}

/// The state with its timers replaced.
pub open spec fn with_timers(s: Chip8State, delay: u8, sound: u8) -> Chip8State {
    Chip8State { delay_timer: delay, sound_timer: sound, ..s }
}

/// An instruction that neither reads nor sets a timer runs the same whatever the timers
/// hold, and leaves them as they were.
pub proof fn lemma_step_ignores_timers(s: Chip8State, keys: Seq<bool>, delay: u8, sound: u8)
    requires
        !at_timer_instruction(s),
    ensures
        step(with_timers(s, delay, sound), keys) == match step(s, keys) {
            Some(u) => Some(with_timers(u, delay, sound)),
            None => None,
        },
        step(s, keys) is Some ==> step(s, keys)->0.delay_timer == s.delay_timer
            && step(s, keys)->0.sound_timer == s.sound_timer,
{
}

proof fn lemma_run_ignores_timers(s: Chip8State, keys: Seq<bool>, n: nat, delay: u8, sound: u8)
    requires
        forall|k: nat|
            k < n && #[trigger] run(s, keys, k) is Some ==> !at_timer_instruction(
                run(s, keys, k)->0,
            ),
    ensures
        run(with_timers(s, delay, sound), keys, n) == match run(s, keys, n) {
            Some(u) => Some(with_timers(u, delay, sound)),
            None => None,
        },
        run(s, keys, n) is Some ==> run(s, keys, n)->0.delay_timer == s.delay_timer
            && run(s, keys, n)->0.sound_timer == s.sound_timer,
    decreases n,
{
    if n > 0 {
        assert(run(s, keys, 0) == Some(s));
        lemma_step_ignores_timers(s, keys, delay, sound);
        match step(s, keys) {
            Some(u) => {
                assert forall|k: nat|
                    k < (n - 1) as nat && #[trigger] run(u, keys, k) is Some implies !at_timer_instruction(
                        run(u, keys, k)->0,
                    ) by {
                    assert(run(s, keys, k + 1) == run(u, keys, k));
                }
                lemma_run_ignores_timers(u, keys, (n - 1) as nat, delay, sound);
            },
            None => {},
        }
    }
}

/// A frame counts each timer down by one, stopping at 0, and runs its instructions as
/// they would run without the countdown, as long as none of them reads or sets a timer.
pub proof fn lemma_frame_counts_timers_down(s: Chip8State, keys: Seq<bool>)
    requires
        forall|k: nat|
            k < TICKS_PER_FRAME && #[trigger] run(s, keys, k) is Some ==> !at_timer_instruction(
                run(s, keys, k)->0,
            ),
    ensures
        frame(s, keys) == match run(s, keys, TICKS_PER_FRAME as nat) {
            Some(u) => Some(
                Chip8State {
                    delay_timer: if s.delay_timer > 0 {
                        (s.delay_timer - 1) as u8
                    } else {
                        0u8
                    },
                    sound_timer: if s.sound_timer > 0 {
                        (s.sound_timer - 1) as u8
                    } else {
                        0u8
                    },
                    ..u
                },
            ),
            None => None,
        },
{
    let d: u8 = if s.delay_timer > 0 {
        (s.delay_timer - 1) as u8
    } else {
        0u8
    };
    let t: u8 = if s.sound_timer > 0 {
        (s.sound_timer - 1) as u8
    } else {
        0u8
    };
    assert(decrement_timers(s) == with_timers(s, d, t));
    lemma_run_ignores_timers(s, keys, TICKS_PER_FRAME as nat, d, t);
}

/// The instruction at the program counter: its two bytes, when both lie in memory.
pub open spec fn fetches(s: Chip8State, hi: u8, lo: u8) -> bool {
    &&& s.pc + 1 < MEMORY_SIZE
    &&& s.memory[s.pc as int] == hi
    &&& s.memory[s.pc + 1] == lo
}

/// `1NNN` jumps to `NNN`, `BNNN` to `NNN + V0`, `ANNN` sets `I` to `NNN`; nothing else
/// changes.
pub proof fn lemma_jumps_and_index(s: Chip8State, keys: Seq<bool>, hi: u8, lo: u8)
    requires
        s.wf(),
        fetches(s, hi, lo),
    ensures
        hi / 16 == 0x1 ==> step(s, keys) == Some(
            Chip8State { pc: ((hi % 16) * 256 + lo) as usize, ..s },
        ),
        hi / 16 == 0xB ==> step(s, keys) == Some(
            Chip8State { pc: ((hi % 16) * 256 + lo + s.registers[0]) as usize, ..s },
        ),
        hi / 16 == 0xA ==> step(s, keys) == Some(
            Chip8State { pc: (s.pc + 2) as usize, register_i: ((hi % 16) * 256 + lo) as u16, ..s },
        ),
{
}

/// `2NNN` pushes the address of the next instruction and jumps to `NNN`; `00EE` pops the
/// most recent return address and jumps there, and is refused on an empty stack.
pub proof fn lemma_call_and_return(s: Chip8State, keys: Seq<bool>, hi: u8, lo: u8)
    requires
        s.wf(),
        fetches(s, hi, lo),
    ensures
        hi / 16 == 0x2 ==> step(s, keys) == Some(
            Chip8State {
                pc: ((hi % 16) * 256 + lo) as usize,
                stack: seq![(s.pc + 2) as usize] + s.stack,
                ..s
            },
        ),
        hi == 0x00 && lo == 0xEE && s.stack.len() > 0 ==> step(s, keys) == Some(
            Chip8State { pc: s.stack[0], stack: s.stack.subrange(1, s.stack.len() as int), ..s },
        ),
        hi == 0x00 && lo == 0xEE && s.stack.len() == 0 ==> step(s, keys) is None,
{
    if hi == 0x00 && lo == 0xEE && s.stack.len() > 0 {
        assert(s.stack.drop_first() =~= s.stack.subrange(1, s.stack.len() as int));
    }
}

/// `00E0` darkens every pixel and changes nothing else.
pub proof fn lemma_clear_screen(s: Chip8State, keys: Seq<bool>)
    requires
        s.wf(),
        fetches(s, 0x00, 0xE0),
    ensures
        step(s, keys) is Some,
        ({
            let t = step(s, keys)->0;
            &&& t.display.len() == ROWS
            &&& forall|r: int, c: int|
                0 <= r < ROWS && 0 <= c < COLUMNS ==> !#[trigger] t.display[r][c]
            &&& t == Chip8State { pc: (s.pc + 2) as usize, display: t.display, ..s }
        }),
{
}

/// `6XNN` sets `VX` to `NN`; `7XNN` adds `NN` to `VX` modulo 256 and leaves `VF` alone.
pub proof fn lemma_set_and_add_immediate(s: Chip8State, keys: Seq<bool>, hi: u8, lo: u8)
    requires
        s.wf(),
        fetches(s, hi, lo),
    ensures
        hi / 16 == 0x6 ==> step(s, keys) == Some(
            Chip8State {
                pc: (s.pc + 2) as usize,
                registers: s.registers.update((hi % 16) as int, lo),
                ..s
            },
        ),
        hi / 16 == 0x7 ==> step(s, keys) == Some(
            Chip8State {
                pc: (s.pc + 2) as usize,
                registers: s.registers.update(
                    (hi % 16) as int,
                    ((s.registers[(hi % 16) as int] + lo) % 256) as u8,
                ),
                ..s
            },
        ),
{
}

/// The `8XYN` register operations, with `X` not `F`: they exist for `N` in `0..=7` and
/// `E`, and change only `VX`, `VF` and the program counter.
#[verifier::rlimit(50)]
pub proof fn lemma_register_operations_frame(s: Chip8State, keys: Seq<bool>, hi: u8, lo: u8)
    requires
        s.wf(),
        fetches(s, hi, lo),
        hi / 16 == 0x8,
        hi % 16 != 0xF,
    ensures
        lo % 16 <= 7 || lo % 16 == 0xE <==> step(s, keys) is Some,
        step(s, keys) is Some ==> ({
            let t = step(s, keys)->0;
            &&& t.registers.len() == 16
            &&& forall|k: int|
                0 <= k < 15 && k != (hi % 16) as int ==> #[trigger] t.registers[k]
                    == s.registers[k]
            &&& t == Chip8State { pc: (s.pc + 2) as usize, registers: t.registers, ..s }
        }),
{
    let x = (hi % 16) as int;
    let y = (lo / 16) as int;
    let n = lo % 16;
    assert(step(s, keys) == match alu(s.registers, x, y, n) {
        Some(r2) => Some(s.with_pc(s.pc + 2).with_registers(r2)),
        None => None,
    });
}

/// `8XY0` to `8XY3`, with `X` not `F`: `VX` becomes `VY`, `VX | VY`, `VX & VY`,
/// `VX ^ VY`; `VF` keeps its value.
#[verifier::rlimit(50)]
pub proof fn lemma_register_logic(s: Chip8State, keys: Seq<bool>, hi: u8, lo: u8)
    requires
        s.wf(),
        fetches(s, hi, lo),
        hi / 16 == 0x8,
        hi % 16 != 0xF,
        lo % 16 <= 3,
    ensures
        step(s, keys) is Some,
        ({
            let x = (hi % 16) as int;
            let vx = s.registers[x];
            let vy = s.registers[(lo / 16) as int];
            let t = step(s, keys)->0;
            let nx = t.registers[x];
            &&& lo % 16 == 0 ==> nx == vy
            &&& lo % 16 == 1 ==> nx == vx | vy
            &&& lo % 16 == 2 ==> nx == vx & vy
            &&& lo % 16 == 3 ==> nx == vx ^ vy
            &&& t.registers[FLAG as int] == s.registers[FLAG as int]
        }),
{
    let x = (hi % 16) as int;
    let y = (lo / 16) as int;
    assert(step(s, keys) == Some(s.with_pc(s.pc + 2).with_registers(
        alu(s.registers, x, y, lo % 16)->0,
    )));
}

/// `8XY4` to `8XY7` and `8XYE`, with `X` not `F`: `VF` is 0 or 1 and no bit is lost.
/// Adding, `VX + 256 VF` is the sum; subtracting, `VX` is the difference plus 256 when `VF`
/// is 0; shifting right, `2 VX + VF` is `VY`; shifting left, `VX + 256 VF` is `2 VY`.
pub proof fn lemma_register_arithmetic(s: Chip8State, keys: Seq<bool>, hi: u8, lo: u8)
    requires
        s.wf(),
        fetches(s, hi, lo),
        hi / 16 == 0x8,
        hi % 16 != 0xF,
        4 <= lo % 16 <= 7 || lo % 16 == 0xE,
    ensures
        step(s, keys) is Some,
        ({
            let x = (hi % 16) as int;
            let vx = s.registers[x];
            let vy = s.registers[(lo / 16) as int];
            let t = step(s, keys)->0;
            let nx = t.registers[x];
            let vf = t.registers[FLAG as int];
            &&& vf <= 1
            &&& lo % 16 == 4 ==> nx + 256 * vf == vx + vy
            &&& lo % 16 == 5 ==> nx == vx - vy + 256 * (1 - vf)
            &&& lo % 16 == 6 ==> 2 * nx + vf == vy
            &&& lo % 16 == 7 ==> nx == vy - vx + 256 * (1 - vf)
            &&& lo % 16 == 0xE ==> nx + 256 * vf == 2 * vy
        }),
{
    let x = (hi % 16) as int;
    let y = (lo / 16) as int;
    let r2 = alu(s.registers, x, y, lo % 16)->0;
    assert(step(s, keys) == Some(s.with_pc(s.pc + 2).with_registers(r2)));
    lemma_alu_arithmetic(s.registers, x, y, lo % 16);
}

proof fn lemma_alu_arithmetic(r: Seq<u8>, x: int, y: int, n: u8)
    requires
        r.len() == 16,
        0 <= x < 15,
        0 <= y < 16,
        4 <= n <= 7 || n == 0xE,
    ensures
        ({
            let r2 = alu(r, x, y, n)->0;
            let nx = r2[x];
            let vf = r2[FLAG as int];
            &&& alu(r, x, y, n) is Some
            &&& vf <= 1
            &&& n == 4 ==> nx + 256 * vf == r[x] + r[y]
            &&& n == 5 ==> nx == r[x] - r[y] + 256 * (1 - vf)
            &&& n == 6 ==> 2 * nx + vf == r[y]
            &&& n == 7 ==> nx == r[y] - r[x] + 256 * (1 - vf)
            &&& n == 0xE ==> nx + 256 * vf == 2 * r[y]
        }),
{
    if n == 4 {
        lemma_add_carry(r, x, y);
    } else if n == 5 {
        lemma_sub_borrow(r, x, y);
    }
}

/// `FX15` and `FX18` set the delay and sound timer to `VX`; `FX1E` adds `VX` to `I`,
/// with `VF` the carry out of sixteen bits.
pub proof fn lemma_timer_and_index_updates(s: Chip8State, keys: Seq<bool>, hi: u8, lo: u8)
    requires
        s.wf(),
        fetches(s, hi, lo),
        hi / 16 == 0xF,
    ensures
        ({
            let x = (hi % 16) as int;
            let vx = s.registers[x];
            &&& lo == 0x15 ==> step(s, keys) == Some(
                Chip8State { pc: (s.pc + 2) as usize, delay_timer: vx, ..s },
            )
            &&& lo == 0x18 ==> step(s, keys) == Some(
                Chip8State { pc: (s.pc + 2) as usize, sound_timer: vx, ..s },
            )
            &&& lo == 0x1E ==> {
                let t = step(s, keys)->0;
                &&& step(s, keys) is Some
                &&& t.register_i + 65536 * t.registers[FLAG as int] == s.register_i + vx
                &&& t.registers[FLAG as int] <= 1
                &&& t == Chip8State {
                    pc: (s.pc + 2) as usize,
                    register_i: t.register_i,
                    registers: s.registers.update(FLAG as int, t.registers[FLAG as int]),
                    ..s
                }
            }
        }),
{
}

/// `FX0A` with a key held puts the highest-numbered held key in `VX` and moves on.
pub proof fn lemma_wait_for_key_takes_highest(s: Chip8State, keys: Seq<bool>, hi: u8)
    requires
        s.wf(),
        keys.len() == KEY_COUNT,
        fetches(s, hi, 0x0A),
        hi / 16 == 0xF,
        exists|k: int| 0 <= k < KEY_COUNT && #[trigger] keys[k],
    ensures
        step(s, keys) is Some,
        ({
            let t = step(s, keys)->0;
            let v = t.registers[(hi % 16) as int] as int;
            &&& 0 <= v < KEY_COUNT && keys[v]
            &&& forall|k: int| v < k < KEY_COUNT ==> !#[trigger] keys[k]
            &&& t == Chip8State {
                pc: (s.pc + 2) as usize,
                registers: s.registers.update((hi % 16) as int, v as u8),
                ..s
            }
        }),
{
    lemma_last_pressed_is_highest(keys, KEY_COUNT as int);
}

proof fn lemma_last_pressed_is_highest(keys: Seq<bool>, upto: int)
    requires
        0 <= upto <= keys.len(),
    ensures
        match last_pressed(keys, upto) {
            Some(v) => 0 <= v < upto && keys[v] && forall|k: int|
                v < k < upto ==> !#[trigger] keys[k],
            None => forall|k: int| 0 <= k < upto ==> !#[trigger] keys[k],
        },
    decreases upto,
{
    if upto > 0 {
        lemma_last_pressed_is_highest(keys, upto - 1);
    }
}

/// `FX33` writes the hundreds, tens and units of `VX` at `I`, `I + 1`, `I + 2`, and
/// nothing else.
pub proof fn lemma_decimal_digits_in_memory(s: Chip8State, keys: Seq<bool>, hi: u8)
    requires
        s.wf(),
        fetches(s, hi, 0x33),
        hi / 16 == 0xF,
        s.register_i + 2 < MEMORY_SIZE,
    ensures
        step(s, keys) is Some,
        ({
            let t = step(s, keys)->0;
            let v = s.registers[(hi % 16) as int];
            let i = s.register_i as int;
            &&& t.memory[i] < 10 && t.memory[i + 1] < 10 && t.memory[i + 2] < 10
            &&& 100 * t.memory[i] + 10 * t.memory[i + 1] + t.memory[i + 2] == v
            &&& t.memory.len() == MEMORY_SIZE
            &&& forall|a: int|
                0 <= a < MEMORY_SIZE && (a < i || a > i + 2) ==> #[trigger] t.memory[a]
                    == s.memory[a]
            &&& t == Chip8State { pc: (s.pc + 2) as usize, memory: t.memory, ..s }
        }),
{
}

/// `FX55` copies `V0..=VX` to `I..=I+X`; `FX65` copies `I..=I+X` into `V0..=VX`.
/// Nothing else changes, and `I` stays where it was.
pub proof fn lemma_register_block_copies(s: Chip8State, keys: Seq<bool>, hi: u8, lo: u8)
    requires
        s.wf(),
        fetches(s, hi, lo),
        hi / 16 == 0xF,
        lo == 0x55 || lo == 0x65,
        s.register_i + hi % 16 < MEMORY_SIZE,
    ensures
        step(s, keys) is Some,
        ({
            let t = step(s, keys)->0;
            let x = (hi % 16) as int;
            let i = s.register_i as int;
            &&& lo == 0x55 ==> {
                &&& t.memory.len() == MEMORY_SIZE
                &&& forall|k: int| 0 <= k <= x ==> #[trigger] t.memory[i + k] == s.registers[k]
                &&& forall|a: int|
                    0 <= a < MEMORY_SIZE && (a < i || a > i + x) ==> #[trigger] t.memory[a]
                        == s.memory[a]
                &&& t == Chip8State { pc: (s.pc + 2) as usize, memory: t.memory, ..s }
            }
            &&& lo == 0x65 ==> {
                &&& t.registers.len() == 16
                &&& forall|k: int| 0 <= k <= x ==> #[trigger] t.registers[k] == s.memory[i + k]
                &&& forall|k: int| x < k < 16 ==> #[trigger] t.registers[k] == s.registers[k]
                &&& t == Chip8State { pc: (s.pc + 2) as usize, registers: t.registers, ..s }
            }
        }),
{
}

/// One timer tick lowers each timer by one, stopping at 0, and changes nothing else.
pub proof fn lemma_timer_tick(s: Chip8State)
    ensures
        decrement_timers(s) == (Chip8State {
            delay_timer: if s.delay_timer > 0 {
                (s.delay_timer - 1) as u8
            } else {
                0u8
            },
            sound_timer: if s.sound_timer > 0 {
                (s.sound_timer - 1) as u8
            } else {
                0u8
            },
            ..s
        }),
{
}

/// Running one instruction is a `step`; running none changes nothing.
pub proof fn lemma_run_one(s: Chip8State, keys: Seq<bool>)
    ensures
        run(s, keys, 0) == Some(s),
        run(s, keys, 1) == step(s, keys),
{
    match step(s, keys) {
        Some(t) => assert(run(t, keys, 0) == Some(t)),
        None => {},
    }
}

/// Loading a program puts its bytes at `PROGRAM_START` on and keeps the rest of memory.
pub proof fn lemma_load_program(memory: Seq<u8>, rom: Seq<u8>)
    requires
        memory.len() == MEMORY_SIZE,
        PROGRAM_START + rom.len() <= MEMORY_SIZE,
    ensures
        load_program(memory, rom).len() == MEMORY_SIZE,
        forall|k: int| 0 <= k < rom.len() ==> #[trigger] load_program(memory, rom)[PROGRAM_START + k]
            == rom[k],
        forall|a: int|
            0 <= a < MEMORY_SIZE && (a < PROGRAM_START || a >= PROGRAM_START + rom.len())
                ==> #[trigger] load_program(memory, rom)[a] == memory[a],
{
}

/// A machine just switched on: dark screen, zeroed memory, registers, `I` and timers,
/// empty stack, program counter at `PROGRAM_START`.
pub proof fn lemma_initial_state()
    ensures
        ({
            let s = initial_state();
            &&& s.wf()
            &&& forall|r: int, c: int| 0 <= r < ROWS && 0 <= c < COLUMNS ==> !#[trigger] s.display[r][c]
            &&& forall|a: int| 0 <= a < MEMORY_SIZE ==> #[trigger] s.memory[a] == 0
            &&& forall|k: int| 0 <= k < 16 ==> #[trigger] s.registers[k] == 0
            &&& s.stack.len() == 0
            &&& s.pc == 512
            &&& s.register_i == 0
            &&& s.delay_timer == 0
            &&& s.sound_timer == 0
        }),
{
}

/// Sprite bit `c` of a row, counted from the most significant bit, tested with a mask.
proof fn lemma_mask_bit(b: u8, c: u8)
    by (bit_vector)
    requires
        c < 8,
    ensures
        ((b >> (7 - c) as u8) & 1u8 == 1u8) == (b & (0x80u8 >> c) != 0u8),
{
}

/// `DXYN` flips, for each set bit `dx` of each sprite row `dy`, the pixel at
/// `((VY % 32 + dy) % 32, (VX % 64 + dx) % 64)`, and leaves the pixels outside the
/// sprite's `N` rows and eight columns (counted from the origin, wrapping) as they were;
/// besides the display only `VF` and the program counter change.
pub proof fn lemma_draw_flips_sprite_pixels(s: Chip8State, keys: Seq<bool>, hi: u8, lo: u8)
    requires
        s.wf(),
        fetches(s, hi, lo),
        hi / 16 == 0xD,
        step(s, keys) is Some,
    ensures
        ({
            let t = step(s, keys)->0;
            let ox = (s.registers[(hi % 16) as int] % 64) as int;
            let oy = (s.registers[(lo / 16) as int] % 32) as int;
            let n = (lo % 16) as int;
            let i = s.register_i as int;
            &&& t.display.len() == ROWS
            &&& forall|r: int| 0 <= r < ROWS ==> (#[trigger] t.display[r]).len() == COLUMNS
            &&& forall|dy: int, dx: int|
                0 <= dy < n && 0 <= dx < 8 ==> #[trigger] t.display[(oy + dy) % 32][(ox + dx) % 64]
                    == (s.display[(oy + dy) % 32][(ox + dx) % 64] != (s.memory[i + dy] & (0x80u8
                    >> dx as u8) != 0u8))
            &&& forall|r: int, c: int|
                0 <= r < ROWS && 0 <= c < COLUMNS && ((r - oy) % 32 >= n || (c - ox) % 64 >= 8)
                    ==> #[trigger] t.display[r][c] == s.display[r][c]
            &&& t == Chip8State {
                pc: (s.pc + 2) as usize,
                display: t.display,
                registers: s.registers.update(FLAG as int, t.registers[FLAG as int]),
                ..s
            }
        }),
{
    let t = step(s, keys)->0;
    let ox = (s.registers[(hi % 16) as int] % 64) as int;
    let oy = (s.registers[(lo / 16) as int] % 32) as int;
    let n = (lo % 16) as int;
    let i = s.register_i as int;
    assert(t.display == draw_display(s.display, s.memory, i, ox, oy, n));
    assert forall|dy: int, dx: int|
        0 <= dy < n && 0 <= dx < 8 implies #[trigger] t.display[(oy + dy) % 32][(ox + dx) % 64]
        == (s.display[(oy + dy) % 32][(ox + dx) % 64] != (s.memory[i + dy] & (0x80u8
        >> dx as u8) != 0u8)) by {
        lemma_wrap(oy, dy, 32);
        lemma_wrap(ox, dx, 64);
        lemma_mask_bit(s.memory[i + dy], dx as u8);
        assert(0 <= (oy + dy) % 32 < 32);
        assert(0 <= (ox + dx) % 64 < 64);
    }
    assert forall|r: int, c: int|
        0 <= r < ROWS && 0 <= c < COLUMNS && ((r - oy) % 32 >= n || (c - ox) % 64 >= 8)
            implies #[trigger] t.display[r][c] == s.display[r][c] by {
    }
}

/// When the emulator stops: the program counter leaves no room for an instruction;
/// `0NNN` other than `00E0` and `00EE`, `CXNN`, and `EXNN` / `FXNN` with an unknown `NN`
/// are not handled; a key test names a key above `F`; `DXYN`, `FX33`, `FX55` and `FX65`
/// would reach past the end of memory. Any other instruction runs.
#[verifier::rlimit(50)]
pub proof fn lemma_when_the_emulator_stops(s: Chip8State, keys: Seq<bool>)
    requires
        s.wf(),
    ensures
        s.pc + 1 >= MEMORY_SIZE ==> step(s, keys) is None,
        s.pc + 1 < MEMORY_SIZE ==> ({
            let hi = s.memory[s.pc as int];
            let lo = s.memory[s.pc + 1];
            let x = (hi % 16) as int;
            let i = s.register_i as int;
            let refused = if hi / 16 == 0x0 {
                !(hi == 0 && lo == 0xE0) && !(hi == 0 && lo == 0xEE && s.stack.len() > 0)
            } else if hi / 16 == 0x8 {
                lo % 16 > 7 && lo % 16 != 0xE
            } else if hi / 16 == 0xC {
                true
            } else if hi / 16 == 0xD {
                lo % 16 > 0 && i + lo % 16 > MEMORY_SIZE
            } else if hi / 16 == 0xE {
                s.registers[x] >= KEY_COUNT || (lo != 0x9E && lo != 0xA1)
            } else if hi / 16 == 0xF {
                if lo == 0x07 || lo == 0x0A || lo == 0x15 || lo == 0x18 || lo == 0x1E {
                    false
                } else if lo == 0x33 {
                    i + 2 >= MEMORY_SIZE
                } else if lo == 0x55 || lo == 0x65 {
                    i + x >= MEMORY_SIZE
                } else {
                    true
                }
            } else {
                false
            };
            step(s, keys) is None <==> refused
        }),
{
}

} // verus!
