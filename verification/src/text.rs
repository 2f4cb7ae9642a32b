//! Character classes and elementary string utilities used by the assembler:
//! whitespace trimming, whitespace tokenization with comma stripping, and
//! splitting text into lines or comma-separated fields.

use vstd::prelude::*;
use vstd::string::StrSliceExecFns;

verus! {

/// Characters treated as whitespace between tokens and around lines: the
/// ASCII whitespace set.  Non-ASCII space characters are ordinary
/// characters to this library.
pub open spec fn is_space(c: char) -> bool {
    c == ' ' || c == '\t' || c == '\n' || c == '\r' || c == '\x0b' || c == '\x0c'
}

/// Decimal digit.
pub open spec fn is_digit(c: char) -> bool {
    48 <= c as u32 <= 57
}

/// Numeric value of a decimal digit.
pub open spec fn digit_val(c: char) -> nat
    recommends
        is_digit(c),
{
    (c as u32 - 48) as nat
}

/// Uppercase letter; a token starting with one is a label.
pub open spec fn is_upper(c: char) -> bool {
    65 <= c as u32 <= 90
}

/// Binary digit character.
pub open spec fn is_bit(c: char) -> bool {
    c == '0' || c == '1'
}

/// All characters of `s` are binary digits.
pub open spec fn all_bits(s: Seq<char>) -> bool {
    forall|i: int| 0 <= i < s.len() ==> is_bit(s[i])
}

/// Executable whitespace test.
pub fn space_char(c: char) -> (r: bool)
    ensures
        r == is_space(c),
{
    c == ' ' || c == '\t' || c == '\n' || c == '\r' || c == '\x0b' || c == '\x0c'
}

/// Executable decimal-digit test.
pub fn digit_char(c: char) -> (r: bool)
    ensures
        r == is_digit(c),
{
    let u = c as u32;
    48 <= u && u <= 57
}

/// Executable uppercase test.
pub fn upper_char(c: char) -> (r: bool)
    ensures
        r == is_upper(c),
{
    let u = c as u32;
    65 <= u && u <= 90
}

/// Leading whitespace removed.
pub open spec fn trim_lead(s: Seq<char>) -> Seq<char>
    decreases s.len(),
{
    if s.len() > 0 && is_space(s[0]) {
        trim_lead(s.drop_first())
    } else {
        s
    }
}

/// Trailing whitespace removed.
pub open spec fn trim_trail(s: Seq<char>) -> Seq<char>
    decreases s.len(),
{
    if s.len() > 0 && is_space(s.last()) {
        trim_trail(s.drop_last())
    } else {
        s
    }
}

/// Whitespace removed from both ends, as done to every source line before
/// classification.
pub open spec fn spec_trim(s: Seq<char>) -> Seq<char> {
    trim_trail(trim_lead(s))
}

/// Leading commas removed.
pub open spec fn trim_lead_commas(s: Seq<char>) -> Seq<char>
    decreases s.len(),
{
    if s.len() > 0 && s[0] == ',' {
        trim_lead_commas(s.drop_first())
    } else {
        s
    }
}

/// Trailing commas removed.
pub open spec fn trim_trail_commas(s: Seq<char>) -> Seq<char>
    decreases s.len(),
{
    if s.len() > 0 && s.last() == ',' {
        trim_trail_commas(s.drop_last())
    } else {
        s
    }
}

/// Commas removed from both ends of a raw token; commas are permitted as
/// operand separators and are stripped.
pub open spec fn trim_commas(s: Seq<char>) -> Seq<char> {
    trim_trail_commas(trim_lead_commas(s))
}

/// The maximal whitespace-separated words of `s`, in order.
pub open spec fn split_ws(s: Seq<char>) -> Seq<Seq<char>>
    decreases s.len(),
{
    if s.len() == 0 {
        Seq::empty()
    } else if is_space(s[0]) {
        split_ws(s.drop_first())
    } else {
        let rest = split_ws(s.drop_first());
        if s.len() >= 2 && !is_space(s[1]) {
            rest.update(0, seq![s[0]] + rest[0])
        } else {
            seq![seq![s[0]]] + rest
        }
    }
}

/// The tokens of one source line: whitespace-separated words, each with
/// surrounding commas stripped.
pub open spec fn spec_tokens(s: Seq<char>) -> Seq<Seq<char>> {
    split_ws(s).map_values(|t: Seq<char>| trim_commas(t))
}

/// `s` split at every occurrence of `c`; always at least one (possibly
/// empty) segment.
pub open spec fn split_at_char(s: Seq<char>, c: char) -> Seq<Seq<char>>
    decreases s.len(),
{
    if s.len() == 0 {
        seq![Seq::<char>::empty()]
    } else if s[0] == c {
        seq![Seq::<char>::empty()] + split_at_char(s.drop_first(), c)
    } else {
        let rest = split_at_char(s.drop_first(), c);
        rest.update(0, seq![s[0]] + rest[0])
    }
}

/// A trailing carriage return removed, as the line iterator does.
pub open spec fn strip_cr(s: Seq<char>) -> Seq<char> {
    if s.len() > 0 && s.last() == '\r' {
        s.drop_last()
    } else {
        s
    }
}

/// The lines of a text: newline-separated segments, each with a trailing
/// carriage return removed, and without a final empty segment.
pub open spec fn spec_lines(text: Seq<char>) -> Seq<Seq<char>> {
    let segs = split_at_char(text, '\n').map_values(|t: Seq<char>| strip_cr(t));
    if segs.len() > 0 && segs.last().len() == 0 {
        segs.drop_last()
    } else {
        segs
    }
}

proof fn lemma_split_at_char_nonempty(s: Seq<char>, c: char)
    ensures
        split_at_char(s, c).len() >= 1,
    decreases s.len(),
{
    if s.len() > 0 {
        lemma_split_at_char_nonempty(s.drop_first(), c);
    }
}

/// If `[0, j)` holds no whitespace and `j` is the end of the word, the
/// word list starts with exactly `s.take(j)`.
proof fn lemma_split_ws_word(s: Seq<char>, j: int)
    requires
        0 < j <= s.len(),
        forall|i: int| 0 <= i < j ==> !is_space(s[i]),
        j == s.len() || is_space(s[j]),
    ensures
        split_ws(s) == seq![s.take(j)] + split_ws(s.skip(j)),
    decreases j,
{
    let t = s.drop_first();
    if j == 1 {
        if s.len() == 1 {
            assert(s.take(1) =~= seq![s[0]]);
            assert(s.skip(1) =~= t);
            assert(split_ws(s) =~= seq![s.take(1)] + split_ws(s.skip(1)));
        } else {
            assert(is_space(s[1]));
            assert(s.take(1) =~= seq![s[0]]);
            assert(s.skip(1) =~= t);
            assert(split_ws(s) =~= seq![s.take(1)] + split_ws(s.skip(1)));
        }
    } else {
        assert(forall|i: int| 0 <= i < j - 1 ==> !is_space(t[i]));
        lemma_split_ws_word(t, j - 1);
        let rest = split_ws(t);
        assert(rest == seq![t.take(j - 1)] + split_ws(t.skip(j - 1)));
        assert(rest[0] == t.take(j - 1));
        assert(!is_space(s[1]));
        assert(split_ws(s) == rest.update(0, seq![s[0]] + rest[0]));
        assert(seq![s[0]] + t.take(j - 1) =~= s.take(j));
        assert(t.skip(j - 1) =~= s.skip(j));
        assert(rest.update(0, s.take(j)) =~= seq![s.take(j)] + split_ws(s.skip(j)));
    }
}

/// If `[0, j)` holds no separator and `s[j]` is one (or `j` is the end),
/// the segment list starts with exactly `s.take(j)`.
proof fn lemma_split_at_char_seg(s: Seq<char>, c: char, j: int)
    requires
        0 <= j <= s.len(),
        forall|i: int| 0 <= i < j ==> s[i] != c,
        j == s.len() || s[j] == c,
    ensures
        split_at_char(s, c) == seq![s.take(j)] + (if j == s.len() {
            Seq::<Seq<char>>::empty()
        } else {
            split_at_char(s.skip(j + 1), c)
        }),
    decreases j,
{
    let t = s.drop_first();
    if j == 0 {
        if s.len() == 0 {
            assert(s.take(0) =~= Seq::<char>::empty());
            assert(split_at_char(s, c) =~= seq![s.take(0)]);
        } else {
            assert(s[0] == c);
            assert(s.take(0) =~= Seq::<char>::empty());
            assert(t =~= s.skip(1));
            assert(split_at_char(s, c) =~= seq![s.take(0)] + split_at_char(s.skip(1), c));
        }
    } else {
        assert(s[0] != c);
        assert(forall|i: int| 0 <= i < j - 1 ==> t[i] != c);
        lemma_split_at_char_seg(t, c, j - 1);
        let rest = split_at_char(t, c);
        lemma_split_at_char_nonempty(t, c);
        assert(split_at_char(s, c) == rest.update(0, seq![s[0]] + rest[0]));
        assert(seq![s[0]] + t.take(j - 1) =~= s.take(j));
        if j == s.len() {
            assert(rest == seq![t.take(j - 1)] + Seq::<Seq<char>>::empty());
            assert(rest =~= seq![t.take(j - 1)]);
            assert(rest.update(0, s.take(j)) =~= seq![s.take(j)]);
        } else {
            assert(rest == seq![t.take(j - 1)] + split_at_char(t.skip(j), c));
            assert(t.skip(j) =~= s.skip(j + 1));
            assert(rest.update(0, s.take(j)) =~= seq![s.take(j)] + split_at_char(s.skip(j + 1), c));
        }
    }
}

/// A string starting with a non-whitespace character splits into at least
/// one word.
pub proof fn lemma_split_ws_len(s: Seq<char>)
    requires
        s.len() > 0,
        !is_space(s[0]),
    ensures
        split_ws(s).len() > 0,
    decreases s.len(),
{
    if s.len() >= 2 && !is_space(s[1]) {
        lemma_split_ws_len(s.drop_first());
    }
}

/// If the first `k` characters are whitespace and the next one is not,
/// leading-trim drops exactly `k` characters.
proof fn lemma_trim_lead_at(s: Seq<char>, k: int)
    requires
        0 <= k <= s.len(),
        forall|i: int| 0 <= i < k ==> is_space(s[i]),
        k == s.len() || !is_space(s[k]),
    ensures
        trim_lead(s) == s.skip(k),
    decreases k,
{
    if k == 0 {
        assert(s.skip(0) =~= s);
    } else {
        let t = s.drop_first();
        assert(t =~= s.skip(1));
        lemma_trim_lead_at(t, k - 1);
        assert(t.skip(k - 1) =~= s.skip(k));
    }
}

/// If the characters from `k` on are whitespace and the one before is not,
/// trailing-trim keeps exactly the first `k` characters.
proof fn lemma_trim_trail_at(s: Seq<char>, k: int)
    requires
        0 <= k <= s.len(),
        forall|i: int| k <= i < s.len() ==> is_space(s[i]),
        k == 0 || !is_space(s[k - 1]),
    ensures
        trim_trail(s) == s.take(k),
    decreases s.len() - k,
{
    if k == s.len() {
        assert(s.take(k) =~= s);
    } else {
        let t = s.drop_last();
        assert(t =~= s.take(s.len() - 1));
        lemma_trim_trail_at(t, k);
        assert(t.take(k) =~= s.take(k));
    }
}

/// Comma analogue of `lemma_trim_lead_at`.
proof fn lemma_trim_lead_commas_at(s: Seq<char>, k: int)
    requires
        0 <= k <= s.len(),
        forall|i: int| 0 <= i < k ==> s[i] == ',',
        k == s.len() || s[k] != ',',
    ensures
        trim_lead_commas(s) == s.skip(k),
    decreases k,
{
    if k == 0 {
        assert(s.skip(0) =~= s);
    } else {
        let t = s.drop_first();
        assert(t =~= s.skip(1));
        lemma_trim_lead_commas_at(t, k - 1);
        assert(t.skip(k - 1) =~= s.skip(k));
    }
}

/// Comma analogue of `lemma_trim_trail_at`.
proof fn lemma_trim_trail_commas_at(s: Seq<char>, k: int)
    requires
        0 <= k <= s.len(),
        forall|i: int| k <= i < s.len() ==> s[i] == ',',
        k == 0 || s[k - 1] != ',',
    ensures
        trim_trail_commas(s) == s.take(k),
    decreases s.len() - k,
{
    if k == s.len() {
        assert(s.take(k) =~= s);
    } else {
        let t = s.drop_last();
        assert(t =~= s.take(s.len() - 1));
        lemma_trim_trail_commas_at(t, k);
        assert(t.take(k) =~= s.take(k));
    }
}

/// Trailing-trim never changes the first character of a nonempty result.
pub proof fn lemma_trim_trail_first(s: Seq<char>)
    ensures
        trim_trail(s).len() > 0 ==> trim_trail(s)[0] == s[0],
        trim_trail(s).len() <= s.len(),
    decreases s.len(),
{
    if s.len() > 0 && is_space(s.last()) {
        lemma_trim_trail_first(s.drop_last());
    }
}

/// A trimmed nonempty line starts with a non-whitespace character.
pub proof fn lemma_spec_trim_first(s: Seq<char>)
    ensures
        spec_trim(s).len() > 0 ==> !is_space(spec_trim(s)[0]),
    decreases s.len(),
{
    let l = trim_lead(s);
    lemma_trim_trail_first(l);
    if s.len() > 0 && is_space(s[0]) {
        lemma_spec_trim_first(s.drop_first());
    }
}

/// Trim a source line: whitespace removed from both ends.
pub fn trim_str<'a>(s: &'a str) -> (r: &'a str)
    ensures
        r@ == spec_trim(s@),
{
    let n = s.unicode_len();
    let mut a: usize = 0;
    while a < n && space_char(s.get_char(a))
        invariant
            a <= n,
            n == s@.len(),
            forall|j: int| 0 <= j < a ==> is_space(s@[j]),
        decreases n - a,
    {
        a += 1;
    }
    let mut b: usize = n;
    while b > a && space_char(s.get_char(b - 1))
        invariant
            a <= b <= n,
            n == s@.len(),
            forall|j: int| b <= j < n ==> is_space(s@[j]),
        decreases b,
    {
        b -= 1;
    }
    let r = s.substring_char(a, b);
    proof {
        lemma_trim_lead_at(s@, a as int);
        let tail = s@.skip(a as int);
        lemma_trim_trail_at(tail, b - a);
        assert(tail.take(b - a) =~= s@.subrange(a as int, b as int));
    }
    r
}

/// Split a source line into tokens: whitespace-separated words, each with
/// surrounding commas stripped.
pub fn tokenize(line: &str) -> (r: Vec<String>)
    ensures
        r.deep_view() == spec_tokens(line@),
{
    let n = line.unicode_len();
    let mut toks: Vec<String> = Vec::new();
    let mut i: usize = 0;
    proof {
        assert(line@.skip(0) =~= line@);
        assert(toks.deep_view() + spec_tokens(line@) =~= spec_tokens(line@));
    }
    while i < n
        invariant
            i <= n,
            n == line@.len(),
            toks.deep_view() + spec_tokens(line@.skip(i as int)) == spec_tokens(line@),
        decreases n - i,
    {
        let s = Ghost(line@);
        if space_char(line.get_char(i)) {
            proof {
                assert(s@.skip(i as int).drop_first() =~= s@.skip(i + 1));
            }
            i += 1;
        } else {
            let start = i;
            let mut j = i + 1;
            while j < n && !space_char(line.get_char(j))
                invariant
                    start < j <= n,
                    n == s@.len(),
                    s@ == line@,
                    forall|k: int| start <= k < j ==> !is_space(s@[k]),
                decreases n - j,
            {
                j += 1;
            }
            let mut ts = start;
            while ts < j && line.get_char(ts) == ','
                invariant
                    start <= ts <= j <= n,
                    n == s@.len(),
                    s@ == line@,
                    forall|k: int| start <= k < ts ==> s@[k] == ',',
                decreases j - ts,
            {
                ts += 1;
            }
            let mut te = j;
            while te > ts && line.get_char(te - 1) == ','
                invariant
                    ts <= te <= j <= n,
                    n == s@.len(),
                    s@ == line@,
                    forall|k: int| te <= k < j ==> s@[k] == ',',
                decreases te,
            {
                te -= 1;
            }
            let tok = line.substring_char(ts, te).to_owned();
            proof {
                let suffix = s@.skip(start as int);
                let w = (j - start) as int;
                assert(forall|k: int| 0 <= k < w ==> !is_space(suffix[k]));
                lemma_split_ws_word(suffix, w);
                let word = suffix.take(w);
                assert(word =~= s@.subrange(start as int, j as int));
                assert(suffix.skip(w) =~= s@.skip(j as int));
                lemma_trim_lead_commas_at(word, ts - start);
                let w2 = word.skip(ts - start);
                assert(w2 =~= s@.subrange(ts as int, te as int) + s@.subrange(te as int, j as int));
                lemma_trim_trail_commas_at(w2, te - ts);
                assert(w2.take(te - ts) =~= s@.subrange(ts as int, te as int));
                assert(trim_commas(word) == tok@);
                assert(spec_tokens(suffix) =~= seq![tok@] + spec_tokens(s@.skip(j as int)));
                assert(toks.deep_view().push(tok@) + spec_tokens(s@.skip(j as int)) =~= toks.deep_view()
                    + spec_tokens(suffix));
            }
            let ghost before = toks.deep_view();
            toks.push(tok);
            proof {
                assert(toks.deep_view() =~= before.push(tok@));
            }
            i = j;
        }
    }
    proof {
        assert(line@.skip(i as int) =~= Seq::<char>::empty());
        assert(spec_tokens(Seq::<char>::empty()) =~= Seq::<Seq<char>>::empty());
        assert(toks.deep_view() + Seq::<Seq<char>>::empty() =~= toks.deep_view());
    }
    toks
}

/// Split `s` at every occurrence of `c`, keeping empty segments.
pub fn split_on(s: &str, c: char) -> (r: Vec<String>)
    ensures
        r.deep_view() == split_at_char(s@, c),
{
    let n = s.unicode_len();
    let mut out: Vec<String> = Vec::new();
    let mut i: usize = 0;
    proof {
        assert(s@.skip(0) =~= s@);
        assert(out.deep_view() + split_at_char(s@, c) =~= split_at_char(s@, c));
    }
    loop
        invariant_except_break
            i <= n,
            n == s@.len(),
            out.deep_view() + split_at_char(s@.skip(i as int), c) == split_at_char(s@, c),
        ensures
            out.deep_view() == split_at_char(s@, c),
        decreases n - i,
    {
        let mut j = i;
        while j < n && s.get_char(j) != c
            invariant
                i <= j <= n,
                n == s@.len(),
                forall|k: int| i <= k < j ==> s@[k] != c,
            decreases n - j,
        {
            j += 1;
        }
        let seg = s.substring_char(i, j).to_owned();
        proof {
            let suffix = s@.skip(i as int);
            let w = (j - i) as int;
            assert(forall|k: int| 0 <= k < w ==> suffix[k] != c);
            lemma_split_at_char_seg(suffix, c, w);
            assert(suffix.take(w) =~= s@.subrange(i as int, j as int));
            if j < n {
                assert(suffix.skip(w + 1) =~= s@.skip(j + 1));
                assert(split_at_char(suffix, c) =~= seq![seg@] + split_at_char(s@.skip(j + 1), c));
            } else {
                assert(split_at_char(suffix, c) =~= seq![seg@]);
            }
        }
        let ghost before = out.deep_view();
        out.push(seg);
        proof {
            assert(out.deep_view() =~= before.push(seg@));
        }
        if j == n {
            proof {
                assert(out.deep_view() =~= before + seq![out@.last()@]);
                assert(out.deep_view() =~= split_at_char(s@, c));
            }
            break ;
        }
        proof {
            assert(out.deep_view() + split_at_char(s@.skip(j + 1), c) =~= split_at_char(s@, c));
        }
        i = j + 1;
    }
    out
}

/// Split a text into its lines, as the assembler's caller hands them over:
/// newline-separated, trailing carriage returns removed, no final empty
/// line.
pub fn split_lines(text: &str) -> (r: Vec<String>)
    ensures
        r.deep_view() == spec_lines(text@),
{
    let segs = split_on(text, '\n');
    let m = segs.len();
    let mut out: Vec<String> = Vec::new();
    let ghost stripped = split_at_char(text@, '\n').map_values(|t: Seq<char>| strip_cr(t));
    let mut i: usize = 0;
    while i < m
        invariant
            i <= m,
            m == segs.deep_view().len(),
            segs.deep_view() == split_at_char(text@, '\n'),
            stripped == split_at_char(text@, '\n').map_values(|t: Seq<char>| strip_cr(t)),
            out.deep_view() =~= stripped.take(i as int),
        decreases m - i,
    {
        let sref = &segs[i];
        let l = sref.as_str().unicode_len();
        let ghost before = out.deep_view();
        if l > 0 && sref.as_str().get_char(l - 1) == '\r' {
            let cut = sref.as_str().substring_char(0, l - 1);
            proof {
                assert(cut@ =~= segs.deep_view()[i as int].drop_last());
            }
            out.push(cut.to_owned());
        } else {
            out.push(sref.clone());
        }
        proof {
            assert(out.deep_view() =~= before.push(stripped[i as int]));
            assert(out.deep_view() =~= stripped.take(i + 1));
        }
        i += 1;
    }
    proof {
        assert(out.deep_view() =~= stripped);
    }
    if out.len() > 0 {
        let last_len = out[out.len() - 1].as_str().unicode_len();
        if last_len == 0 {
            let ghost before = out.deep_view();
            out.pop();
            proof {
                assert(out.deep_view() =~= before.drop_last());
            }
        }
    }
    out
}

/// Character-wise string equality, the equality used for opcode and label
/// lookups.
pub fn str_eq(a: &str, b: &str) -> (r: bool)
    ensures
        r == (a@ == b@),
{
    let alen = a.unicode_len();
    let blen = b.unicode_len();
    if alen != blen {
        return false;
    }
    let mut i: usize = 0;
    while i < alen
        invariant
            i <= alen,
            alen == a@.len(),
            blen == b@.len(),
            alen == blen,
            forall|j: int| 0 <= j < i ==> a@[j] == b@[j],
        decreases alen - i,
    {
        if a.get_char(i) != b.get_char(i) {
            return false;
        }
        i += 1;
    }
    proof {
        assert(a@ =~= b@);
    }
    true
}

} // verus!
