# chip8

A CHIP-8 emulator core with its behaviour proved by Verus.

- `src/state.rs` gives the machine as mathematical values (`Chip8State`) and the meaning
  of every instruction (`step`), of a run of instructions (`run`) and of a frame (`frame`).
- `src/chip8.rs` is the executable emulator, `Chip8`, whose `tick`, `run_frame`,
  `load_rom`, `decrement_timers` and the rest are proved to do what `state.rs` says.
- `src/laws.rs` holds properties that span instructions, proved over the model.
- `src/rom.rs` holds the program records the front end passes around.
- `app/` is the windowed front end built on bevy: keyboard in, pixels out.
