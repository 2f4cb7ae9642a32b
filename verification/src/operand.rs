//! Operand tokens: register names (one prefix letter, then the register
//! number 0–31) and signed immediates, together with the 16-bit
//! two's-complement field an immediate encodes to.

use vstd::prelude::*;
use vstd::string::StrSliceExecFns;
use vstd::arithmetic::div_mod::lemma_sub_mod_noop;
use vstd::arithmetic::div_mod::lemma_mod_multiples_vanish;
use vstd::arithmetic::div_mod::lemma_small_mod;
use crate::numbers::{is_digits, digits_val, parse_digits_u32};
use crate::text::is_upper;

verus! {

/// A register token: any one-character prefix, then the decimal register
/// number, which must be below 32.
pub open spec fn valid_reg_token(t: Seq<char>) -> bool {
    t.len() >= 2 && is_digits(t.skip(1)) && digits_val(t.skip(1)) < 32
}

/// The register number of a register token.
pub open spec fn reg_val(t: Seq<char>) -> nat {
    digits_val(t.skip(1))
}

/// A signed immediate token: an optional minus sign, then digits; the
/// value must fit a 32-bit signed integer.
pub open spec fn valid_imm_token(t: Seq<char>) -> bool {
    t.len() > 0 && (if t[0] == '-' {
        is_digits(t.skip(1)) && digits_val(t.skip(1)) <= 0x8000_0000
    } else {
        is_digits(t) && digits_val(t) < 0x8000_0000
    })
}

/// The signed value of an immediate token.
pub open spec fn imm_val(t: Seq<char>) -> int {
    if t.len() > 0 && t[0] == '-' {
        -(digits_val(t.skip(1)) as int)
    } else {
        digits_val(t) as int
    }
}

/// The 16-bit two's-complement field of an immediate: its value modulo
/// 2^16.
pub open spec fn imm_field(t: Seq<char>) -> nat {
    (imm_val(t) % 0x10000) as nat
}

/// For non-negative `a` and `b`, the residue of `a - b` can be computed
/// from the two residues without leaving the non-negative range.
pub proof fn lemma_diff_mod(a: int, b: int, m: int)
    requires
        m > 0,
    ensures
        (a - b) % m == ((a % m) + m - (b % m)) % m,
{
    lemma_sub_mod_noop(a, b, m);
    lemma_mod_multiples_vanish(1, (a % m) - (b % m), m);
}

/// Parse a register token; `Some` exactly on valid tokens.
pub fn parse_reg(tok: &str) -> (r: Option<u32>)
    ensures
        match r {
            Some(v) => valid_reg_token(tok@) && v as nat == reg_val(tok@) && v < 32,
            None => !valid_reg_token(tok@),
        },
{
    let n = tok.unicode_len();
    if n < 2 {
        return None;
    }
    match parse_digits_u32(tok, 1) {
        None => None,
        Some(v) => if v < 32 {
            Some(v)
        } else {
            None
        },
    }
}

/// Parse an immediate token into its 16-bit two's-complement field;
/// `Some` exactly on valid tokens.
pub fn parse_imm_field(tok: &str) -> (r: Option<u32>)
    ensures
        match r {
            Some(f) => valid_imm_token(tok@) && f as nat == imm_field(tok@),
            None => !valid_imm_token(tok@),
        },
{
    let n = tok.unicode_len();
    if n == 0 {
        return None;
    }
    let neg = tok.get_char(0) == '-';
    let start: usize = if neg {
        1
    } else {
        0
    };
    match parse_digits_u32(tok, start) {
        None => {
            proof {
                if !neg {
                    assert(tok@.skip(0) =~= tok@);
                }
            }
            None
        },
        Some(mag) => {
            if neg {
                if mag > 0x8000_0000 {
                    None
                } else {
                    let m = mag % 0x10000;
                    let f = if m == 0 {
                        0
                    } else {
                        0x10000 - m
                    };
                    proof {
                        let mi = mag as int;
                        let m16 = 0x10000int;
                        assert(imm_val(tok@) == 0 - mi);
                        lemma_sub_mod_noop(0, mi, m16);
                        assert(0int % m16 == 0) by {
                            lemma_small_mod(0, 0x10000);
                        }
                        assert((0 - mi) % m16 == (0 - (mi % m16)) % m16);
                        lemma_mod_multiples_vanish(1, 0 - (mi % m16), m16);
                        assert((m16 * 1 + (0 - (mi % m16))) % m16 == (0 - (mi % m16)) % m16);
                        assert(m16 * 1 + (0 - (mi % m16)) == m16 - (mi % m16));
                        if m != 0 {
                            lemma_small_mod((0x10000 - m) as nat, 0x10000);
                        } else {
                            vstd::arithmetic::div_mod::lemma_mod_self_0(m16);
                        }
                        assert(f as int == (0 - mi) % m16);
                    }
                    Some(f)
                }
            } else {
                if mag >= 0x8000_0000 {
                    None
                } else {
                    proof {
                        assert(tok@.skip(0) =~= tok@);
                        lemma_small_mod((mag % 0x10000) as nat, 0x10000);
                    }
                    Some(mag % 0x10000)
                }
            }
        },
    }
}

/// Is a token a label reference: nonempty and starting with an uppercase
/// letter.
pub fn label_start(tok: &str) -> (r: bool)
    ensures
        r == (tok@.len() > 0 && is_upper(tok@[0])),
{
    let n = tok.unicode_len();
    if n == 0 {
        return false;
    }
    crate::text::upper_char(tok.get_char(0))
}

} // verus!
