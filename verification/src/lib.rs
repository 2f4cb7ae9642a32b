//! A verified two-pass assembler for a small 32-bit fixed-width instruction
//! set.
//!
//! The library translates assembly source lines into binary machine-code
//! lines.  Pass 1 classifies each source line as a label definition, a real
//! instruction, or a macro, expands macros into primitive instructions,
//! tracks per-register hazard cooldowns (injecting no-op lines as needed),
//! and encodes each instruction into a 32-bit word or a pending entry
//! awaiting label resolution.  Pass 2 patches every pending relative or
//! absolute label reference from the label table collected in pass 1.
//!
//! Reading the source text and writing the output file are left to the
//! caller; the library works on plain strings.

pub mod bits;
pub mod blueprint;
pub mod entry;
pub mod error;
pub mod laws;
pub mod numbers;
pub mod operand;
pub mod parser;
pub mod text;
pub mod writer;
