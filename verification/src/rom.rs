//! The programs the emulator can run.
use vstd::prelude::*;

verus! {

/// The program chosen to run.
#[derive(Clone)]
pub struct LoadedRom {
    pub bytes: Vec<u8>,
}

/// A program and the name it is listed under.
#[derive(Clone)]
pub struct Rom {
    pub name: String,
    pub bytes: Vec<u8>,
}

/// The programs on offer.
#[derive(Clone)]
pub struct Roms {
    pub roms: Vec<Rom>,
}

} // verus!
