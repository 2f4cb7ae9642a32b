//! Decimal numerals: the value of a digit string, a bounded decimal parser,
//! and the decimal rendering used for output line numbers.

use vstd::prelude::*;
use vstd::string::StrSliceExecFns;
use vstd::string::StringExecFns;
use crate::text::{is_digit, digit_val};

verus! {

/// Every character of `s` is a decimal digit.
pub open spec fn all_digits(s: Seq<char>) -> bool {
    forall|i: int| 0 <= i < s.len() ==> is_digit(s[i])
}

/// A nonempty, all-digit string: the shape accepted as a non-negative
/// number.
pub open spec fn is_digits(s: Seq<char>) -> bool {
    s.len() > 0 && all_digits(s)
}

/// The numeric value of a digit string.
pub open spec fn digits_val(s: Seq<char>) -> nat
    decreases s.len(),
{
    if s.len() == 0 {
        0
    } else {
        digits_val(s.drop_last()) * 10 + digit_val(s.last())
    }
}

proof fn lemma_digits_val_take_step(s: Seq<char>, i: int)
    requires
        0 <= i < s.len(),
    ensures
        digits_val(s.take(i + 1)) == digits_val(s.take(i)) * 10 + digit_val(s[i]),
{
    assert(s.take(i + 1).drop_last() =~= s.take(i));
    assert(s.take(i + 1).last() == s[i]);
}

proof fn lemma_digits_val_take_le(s: Seq<char>, i: int)
    requires
        0 <= i <= s.len(),
    ensures
        digits_val(s.take(i)) <= digits_val(s),
    decreases s.len() - i,
{
    if i == s.len() {
        assert(s.take(i) =~= s);
    } else {
        let t = s.drop_last();
        assert(t.take(i) =~= s.take(i));
        lemma_digits_val_take_le(t, i);
        assert(digits_val(t) * 10 + digit_val(s.last()) >= digits_val(t));
    }
}

/// Parse the digit string `s[from..]` as a non-negative number.  `None`
/// when a non-digit occurs, nothing follows `from`, or the value does not
/// fit in 32 bits.
pub fn parse_digits_u32(s: &str, from: usize) -> (r: Option<u32>)
    requires
        from as int <= s@.len(),
    ensures
        match r {
            Some(v) => is_digits(s@.skip(from as int)) && digits_val(s@.skip(from as int))
                == v as nat,
            None => !is_digits(s@.skip(from as int)) || digits_val(s@.skip(from as int))
                > u32::MAX as nat,
        },
{
    let n = s.unicode_len();
    let ghost t = s@.skip(from as int);
    if from >= n {
        return None;
    }
    let mut acc: u64 = 0;
    let mut k: usize = from;
    while k < n
        invariant
            from <= k <= n,
            n == s@.len(),
            t == s@.skip(from as int),
            forall|j: int| 0 <= j < k - from ==> is_digit(t[j]),
            acc as nat == digits_val(t.take(k - from)),
            acc <= u32::MAX as u64,
        decreases n - k,
    {
        let c = s.get_char(k);
        proof {
            assert(t[k - from] == s@[k as int]);
        }
        if !crate::text::digit_char(c) {
            return None;
        }
        let d: u64 = ((c as u32) - 48) as u64;
        proof {
            lemma_digits_val_take_step(t, k - from);
        }
        let next: u64 = acc * 10 + d;
        if next > 0xFFFF_FFFF {
            proof {
                lemma_digits_val_take_le(t, k - from + 1);
            }
            return None;
        }
        acc = next;
        k += 1;
    }
    proof {
        assert(t.take(n - from) =~= t);
    }
    Some(acc as u32)
}

/// The character for one decimal digit.
pub open spec fn dec_digit(n: nat) -> char {
    if n == 0 {
        '0'
    } else if n == 1 {
        '1'
    } else if n == 2 {
        '2'
    } else if n == 3 {
        '3'
    } else if n == 4 {
        '4'
    } else if n == 5 {
        '5'
    } else if n == 6 {
        '6'
    } else if n == 7 {
        '7'
    } else if n == 8 {
        '8'
    } else {
        '9'
    }
}

/// The decimal numeral of `n`, most significant digit first, no leading
/// zeros (a single `0` for zero).
pub open spec fn dec_str(n: nat) -> Seq<char>
    decreases n,
{
    if n < 10 {
        seq![dec_digit(n)]
    } else {
        dec_str(n / 10).push(dec_digit(n % 10))
    }
}

fn digit_string(d: usize) -> (r: String)
    requires
        d < 10,
    ensures
        r@ =~= seq![dec_digit(d as nat)],
{
    let r: String;
    if d == 0 {
        proof {
            reveal_strlit("0");
        }
        r = String::from_str("0");
    } else if d == 1 {
        proof {
            reveal_strlit("1");
        }
        r = String::from_str("1");
    } else if d == 2 {
        proof {
            reveal_strlit("2");
        }
        r = String::from_str("2");
    } else if d == 3 {
        proof {
            reveal_strlit("3");
        }
        r = String::from_str("3");
    } else if d == 4 {
        proof {
            reveal_strlit("4");
        }
        r = String::from_str("4");
    } else if d == 5 {
        proof {
            reveal_strlit("5");
        }
        r = String::from_str("5");
    } else if d == 6 {
        proof {
            reveal_strlit("6");
        }
        r = String::from_str("6");
    } else if d == 7 {
        proof {
            reveal_strlit("7");
        }
        r = String::from_str("7");
    } else if d == 8 {
        proof {
            reveal_strlit("8");
        }
        r = String::from_str("8");
    } else {
        proof {
            reveal_strlit("9");
        }
        r = String::from_str("9");
    }
    r
}

/// Render `n` in decimal, as prefixed to every output line.
pub fn dec_string(n: usize) -> (r: String)
    ensures
        r@ == dec_str(n as nat),
    decreases n,
{
    if n < 10 {
        digit_string(n)
    } else {
        let mut s = dec_string(n / 10);
        let d = digit_string(n % 10);
        s.append(d.as_str());
        proof {
            assert(s@ =~= dec_str((n / 10) as nat).push(dec_digit((n % 10) as nat)));
        }
        s
    }
}

} // verus!
