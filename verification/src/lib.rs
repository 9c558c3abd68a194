//! A machine-code emitter for the RISC-V instruction set.
//!
//! The crate builds an instruction stream incrementally in a [`buffer::CodeBuffer`].
//! Control-flow instructions may target a not-yet-known address through a
//! symbolic [`buffer::Label`]; the site of each such instruction is recorded and
//! the immediate field is patched in place once the label is bound to a
//! concrete offset.  Binding before use and use before binding both yield the
//! same final bytes.

use vstd::prelude::*;

pub mod assembler;
pub mod buffer;
pub mod imm;
pub mod reloc;

verus! {

/// An error produced while emitting or resolving an instruction.
#[derive(Clone, Copy, Debug, PartialEq, Eq, Structural)]
pub enum AsmError {
    /// An immediate or a label-relative offset does not fit the bit width of
    /// the instruction's immediate field.
    OutOfRange,
    /// A label-relative offset is not a multiple of the 2-byte instruction
    /// alignment unit.
    Misaligned,
    /// The label was already bound to an offset.
    AlreadyBound,
    /// The label was not allocated by this buffer.
    UnknownLabel,
}

} // verus!
