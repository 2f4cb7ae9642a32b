//! Fixed-width binary fields: the `w`-bit binary string of a number (most
//! significant bit first, truncating to the low `w` bits), runs of zero
//! bits, and the per-format 32-bit instruction words.

use vstd::prelude::*;
use vstd::string::StringExecFns;
use vstd::arithmetic::power2::pow2;
use vstd::arithmetic::power2::lemma_pow2_unfold;
use vstd::arithmetic::div_mod::lemma_fundamental_div_mod;
use vstd::arithmetic::div_mod::lemma_fundamental_div_mod_converse_mod;
use crate::text::{is_bit, all_bits};

verus! {

/// The low `w` bits of `n`, most significant first.
pub open spec fn bits_of(n: nat, w: nat) -> Seq<char>
    decreases w,
{
    if w == 0 {
        Seq::empty()
    } else {
        bits_of(n / 2, (w - 1) as nat).push(if n % 2 == 1 {
            '1'
        } else {
            '0'
        })
    }
}

/// `w` zero bits.
pub open spec fn zeros(w: nat) -> Seq<char> {
    Seq::new(w, |i: int| '0')
}

/// The number denoted by a binary string, most significant bit first.
pub open spec fn bits_val(s: Seq<char>) -> nat
    decreases s.len(),
{
    if s.len() == 0 {
        0
    } else {
        bits_val(s.drop_last()) * 2 + (if s.last() == '1' {
            1nat
        } else {
            0nat
        })
    }
}

/// A `w`-bit field is `w` binary digits long, whatever the value.
pub proof fn lemma_bits_of_len(n: nat, w: nat)
    ensures
        bits_of(n, w).len() == w,
        all_bits(bits_of(n, w)),
    decreases w,
{
    if w > 0 {
        lemma_bits_of_len(n / 2, (w - 1) as nat);
    }
}

/// The `w`-bit field of `n` denotes `n` modulo 2^w: the field is the
/// unsigned (or two's-complement) binary encoding of its value.
pub proof fn lemma_bits_of_val(n: nat, w: nat)
    ensures
        bits_val(bits_of(n, w)) == n % pow2(w),
    decreases w,
{
    if w == 0 {
        assert(pow2(0) == 1) by {
            vstd::arithmetic::power2::lemma2_to64();
        }
        assert(n as int % 1 == 0) by (nonlinear_arith);
    } else {
        let h = pow2((w - 1) as nat);
        lemma_pow2_unfold(w);
        assert(pow2(w) == 2 * h);
        lemma_bits_of_val(n / 2, (w - 1) as nat);
        let b: nat = n % 2;
        let q = (n as int / 2) / (h as int);
        let r = (n as int / 2) % (h as int);
        assert(h > 0) by {
            vstd::arithmetic::power2::lemma_pow2_pos((w - 1) as nat);
        }
        lemma_fundamental_div_mod(n as int / 2, h as int);
        lemma_fundamental_div_mod(n as int, 2);
        assert(n == 2 * (q * h + r) + b);
        assert(2 * (q * h + r) + b == q * (2 * h) + (2 * r + b)) by (nonlinear_arith);
        assert(0 <= 2 * r + b < 2 * h);
        lemma_fundamental_div_mod_converse_mod(n as int, 2 * (h as int), q, 2 * r + (b as int));
        let tail = bits_of(n, w);
        assert(tail.drop_last() =~= bits_of(n / 2, (w - 1) as nat));
        assert(bits_val(tail) == r * 2 + b);
    }
}

/// Build the `w`-bit binary string of `n`.
pub fn bits_string(n: u32, w: u32) -> (r: String)
    ensures
        r@ == bits_of(n as nat, w as nat),
    decreases w,
{
    if w == 0 {
        let r = String::new();
        proof {
            assert(r@ =~= bits_of(n as nat, 0));
        }
        r
    } else {
        let mut s = bits_string(n / 2, w - 1);
        if n % 2 == 1 {
            proof {
                reveal_strlit("1");
            }
            s.append("1");
        } else {
            proof {
                reveal_strlit("0");
            }
            s.append("0");
        }
        proof {
            assert(s@ =~= bits_of(n as nat, w as nat));
        }
        s
    }
}

/// Build `w` zero bits.
pub fn zeros_string(w: usize) -> (r: String)
    ensures
        r@ == zeros(w as nat),
{
    let mut s = String::new();
    let mut i: usize = 0;
    proof {
        assert(s@ =~= zeros(0));
    }
    while i < w
        invariant
            i <= w,
            s@ == zeros(i as nat),
        decreases w - i,
    {
        proof {
            reveal_strlit("0");
        }
        s.append("0");
        proof {
            assert(s@ =~= zeros((i + 1) as nat));
        }
        i += 1;
    }
    s
}

/// The 32-bit word of an `R`-format instruction: prefix, three 5-bit
/// register fields in operand order, 11 zero bits of padding.
pub open spec fn encode_r_word(prefix: Seq<char>, r1: nat, r2: nat, r3: nat) -> Seq<char> {
    prefix + bits_of(r1, 5) + bits_of(r2, 5) + bits_of(r3, 5) + zeros(11)
}

/// The 32-bit word of an `I`-format instruction with a numeric immediate:
/// prefix, two 5-bit register fields, the 16-bit immediate field.
pub open spec fn encode_i_word(prefix: Seq<char>, r1: nat, r2: nat, field: nat) -> Seq<char> {
    prefix + bits_of(r1, 5) + bits_of(r2, 5) + bits_of(field, 16)
}

/// The 32-bit word of a register-target `J`-format instruction: prefix,
/// one 5-bit register field, 21 zero bits of padding.
pub open spec fn encode_j_word(prefix: Seq<char>, r: nat) -> Seq<char> {
    prefix + bits_of(r, 5) + zeros(21)
}

/// With a six-bit opcode prefix, every encoded word is exactly 32 bits of
/// binary digits, whatever the operands.
pub proof fn lemma_encoded_word_len(prefix: Seq<char>, r1: nat, r2: nat, r3: nat, field: nat)
    requires
        prefix.len() == 6,
        all_bits(prefix),
    ensures
        encode_r_word(prefix, r1, r2, r3).len() == 32,
        all_bits(encode_r_word(prefix, r1, r2, r3)),
        encode_i_word(prefix, r1, r2, field).len() == 32,
        all_bits(encode_i_word(prefix, r1, r2, field)),
        encode_j_word(prefix, r1).len() == 32,
        all_bits(encode_j_word(prefix, r1)),
        zeros(32).len() == 32,
        all_bits(zeros(32)),
{
    lemma_bits_of_len(r1, 5);
    lemma_bits_of_len(r2, 5);
    lemma_bits_of_len(r3, 5);
    lemma_bits_of_len(field, 16);
}

} // verus!
