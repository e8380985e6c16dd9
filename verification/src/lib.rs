pub mod state;
pub mod chip8;
pub mod laws;
pub mod rom;
