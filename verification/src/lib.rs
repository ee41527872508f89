//! An LC-3 virtual machine: a 16-bit word-addressed memory, a register file
//! with a program counter and condition flags, and a fetch-decode-execute
//! engine for the sixteen LC-3 opcodes and the six console trap routines.
//!
//! Console input and output are modelled by an explicit [`console::Console`]
//! value holding the pending input bytes and the accumulated output bytes, so
//! the whole execution engine is deterministic and verified; a host program
//! feeds real terminal bytes in and drains the output out.
use vstd::prelude::*;

pub mod console;
pub mod cpu;
pub mod memory;

verus! {

/// Exit status conventions for a host process driving the machine.
pub enum ErrCode {
    InvalidArgs,
    MissingArgs,
    Halt,
}

impl ErrCode {
    /// The numeric process exit code for this status.
    pub fn value(&self) -> (r: i32)
        ensures
            r == match self {
                ErrCode::InvalidArgs => 1int,
                ErrCode::MissingArgs => 2int,
                ErrCode::Halt => 3int,
            },
    {
        match self {
            ErrCode::InvalidArgs => 1,
            ErrCode::MissingArgs => 2,
            ErrCode::Halt => 3,
        }
    }
}

} // verus!
