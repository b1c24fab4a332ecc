//! The conditions under which the machine refuses to go on.

use vstd::prelude::*;

verus! {

/// Why a program was refused or an instruction could not be executed.
#[derive(Clone, Copy, Debug, PartialEq, Eq, Structural)]
pub enum Fault {
    /// The program image is not a whole number of 32-bit words.
    MalformedProgram,
    /// The program counter does not index a word of segment zero.
    ProgramCounter,
    /// The opcode field holds 14 or 15.
    InvalidOpcode,
    /// A load or store names a segment that is not live, or an offset past
    /// its end.
    SegmentAccess,
    /// A division whose divisor is zero.
    DivideByZero,
    /// An unmap of segment zero or of a segment that is not live.
    Unmap,
    /// An output of a value above 255.
    OutputRange,
    /// A program load from a segment that is not live.
    LoadProgram,
    /// Every 32-bit identifier is in use, so no segment can be mapped.
    IdentifiersExhausted,
}

} // verus!
