//! Instruction blueprints: the per-mnemonic encoding shape loaded from the
//! opcode table.

use vstd::prelude::*;
use crate::text::{all_bits, str_eq};

verus! {

/// The encoding format of an instruction: three registers (`R`), two
/// registers and an immediate or label (`I`), one register or label jump
/// target (`J`), or no operand at all (`N`).
#[derive(Debug, Clone, Copy, PartialEq, Eq, Structural)]
pub enum InstrFormat {
    R,
    I,
    J,
    N,
}

/// Is `s` one of the four format tags of the opcode table.
pub open spec fn is_format_tag(s: Seq<char>) -> bool {
    s == "R"@ || s == "I"@ || s == "J"@ || s == "N"@
}

/// The format a tag denotes.
pub open spec fn format_of_tag(s: Seq<char>) -> InstrFormat {
    if s == "R"@ {
        InstrFormat::R
    } else if s == "I"@ {
        InstrFormat::I
    } else if s == "J"@ {
        InstrFormat::J
    } else {
        InstrFormat::N
    }
}

impl InstrFormat {
    /// Read a format tag; `None` on anything but `R`, `I`, `J`, `N`.
    pub fn from_str(s: &str) -> (r: Option<InstrFormat>)
        ensures
            r is Some <==> is_format_tag(s@),
            r is Some ==> r->0 == format_of_tag(s@),
    {
        if str_eq(s, "R") {
            Some(InstrFormat::R)
        } else if str_eq(s, "I") {
            Some(InstrFormat::I)
        } else if str_eq(s, "J") {
            Some(InstrFormat::J)
        } else if str_eq(s, "N") {
            Some(InstrFormat::N)
        } else {
            None
        }
    }
}

/// The static description of one mnemonic: its name, its format, its
/// six-bit binary prefix, and the hazard cooldown its destination register
/// receives.
#[derive(Debug)]
pub struct InstrBlueprint {
    pub opcode: String,
    pub instr_format: InstrFormat,
    pub bin_rep: String,
    pub num_nops: u32,
}

/// The mathematical shadow of [`InstrBlueprint`].
pub struct BlueprintV {
    pub opcode: Seq<char>,
    pub format: InstrFormat,
    pub bin_rep: Seq<char>,
    pub cooldown: u32,
}

impl View for InstrBlueprint {
    type V = BlueprintV;

    open spec fn view(&self) -> BlueprintV {
        BlueprintV {
            opcode: self.opcode@,
            format: self.instr_format,
            bin_rep: self.bin_rep@,
            cooldown: self.num_nops,
        }
    }
}

impl DeepView for InstrBlueprint {
    type V = BlueprintV;

    open spec fn deep_view(&self) -> BlueprintV {
        self.view()
    }
}

/// A well-formed blueprint carries a six-bit binary prefix, so that every
/// word it encodes is exactly 32 bits.
pub open spec fn bp_wf(bp: BlueprintV) -> bool {
    bp.bin_rep.len() == 6 && all_bits(bp.bin_rep)
}

impl InstrBlueprint {
    /// The encoding format.
    pub fn get_format(&self) -> (r: InstrFormat)
        ensures
            r == self@.format,
    {
        self.instr_format
    }

    /// The hazard cooldown set on the destination register.
    pub fn get_cooldown(&self) -> (r: u32)
        ensures
            r == self@.cooldown,
    {
        self.num_nops
    }
}

} // verus!
