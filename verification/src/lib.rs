//! A Universal Machine interpreter core with machine-checked contracts.
//!
//! The machine executes 32-bit code words over eight registers and a
//! segmented memory whose segment zero holds the running program. Every
//! executable function carries a contract stated over a mathematical model
//! of the machine.

pub mod fault;
pub mod segments;
pub mod rumdecoder;
pub mod rumload;
pub mod states;
