//! A verified interpreter core for an 8-bit virtual machine: a 35-opcode
//! instruction set over 16 general registers, a 4 KiB address space, a
//! 16-entry call stack and a 64x32 monochrome pixel buffer.
//!
//! The library holds the fetch-decode-execute engine: [`machine`] models the
//! machine state, [`decode`] maps a raw 16-bit instruction word to a tagged
//! opcode descriptor, and [`exec`] applies one opcode to the state. [`laws`]
//! proves the interpreter's general properties. A host drives the loop by
//! calling [`machine::Machine::step`] and owns rendering, input polling and
//! the 60 Hz timer cadence.

pub mod decode;
pub mod exec;
pub mod laws;
pub mod machine;
