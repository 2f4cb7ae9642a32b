//! The failures that abort an assembly run: configuration errors in the
//! opcode table, syntax errors in the source, and unresolved labels.

use vstd::prelude::*;

verus! {

/// Why an assembly run failed.  Configuration errors arise while the
/// opcode catalog is built; the others arise at a source line or, for
/// undefined labels, when pending references are patched.  Each variant
/// carries the offending text.
#[derive(Debug)]
pub enum AsmError {
    /// An opcode-table row with fewer than four comma-separated fields.
    MalformedRow(String),
    /// An opcode-table binary prefix that is not six binary digits.
    BadPrefix(String),
    /// An opcode-table format tag other than `R`, `I`, `J` or `N`.
    BadFormatTag(String),
    /// An opcode-table cooldown field that is not a number fitting 32 bits.
    BadCooldown(String),
    /// A source line whose first token is empty once commas are stripped.
    EmptyToken(String),
    /// A mnemonic demanded by a macro expansion that the catalog lacks.
    UnknownOpcode(String),
    /// A first token that is neither a label, a mnemonic, nor a macro.
    UnknownMacro(String),
    /// Too few operands for an instruction or macro; carries its name.
    MissingOperand(String),
    /// An operand where a register token was expected.
    BadRegister(String),
    /// An immediate operand that is neither a label nor a number.
    BadImmediate(String),
    /// A label that is referenced but never defined.
    UndefinedLabel(String),
}

/// The mathematical shadow of [`AsmError`]: the same variants over
/// character sequences.
pub enum ErrV {
    MalformedRow(Seq<char>),
    BadPrefix(Seq<char>),
    BadFormatTag(Seq<char>),
    BadCooldown(Seq<char>),
    EmptyToken(Seq<char>),
    UnknownOpcode(Seq<char>),
    UnknownMacro(Seq<char>),
    MissingOperand(Seq<char>),
    BadRegister(Seq<char>),
    BadImmediate(Seq<char>),
    UndefinedLabel(Seq<char>),
}

impl View for AsmError {
    type V = ErrV;

    open spec fn view(&self) -> ErrV {
        match self {
            AsmError::MalformedRow(s) => ErrV::MalformedRow(s@),
            AsmError::BadPrefix(s) => ErrV::BadPrefix(s@),
            AsmError::BadFormatTag(s) => ErrV::BadFormatTag(s@),
            AsmError::BadCooldown(s) => ErrV::BadCooldown(s@),
            AsmError::EmptyToken(s) => ErrV::EmptyToken(s@),
            AsmError::UnknownOpcode(s) => ErrV::UnknownOpcode(s@),
            AsmError::UnknownMacro(s) => ErrV::UnknownMacro(s@),
            AsmError::MissingOperand(s) => ErrV::MissingOperand(s@),
            AsmError::BadRegister(s) => ErrV::BadRegister(s@),
            AsmError::BadImmediate(s) => ErrV::BadImmediate(s@),
            AsmError::UndefinedLabel(s) => ErrV::UndefinedLabel(s@),
        }
    }
}

} // verus!
