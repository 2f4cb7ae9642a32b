//! Pass 1 state and pass 2 patching: the growing output sequence, the
//! per-register hazard cooldowns, the label table, and the per-format
//! encoding of instructions into output entries.

use vstd::prelude::*;
use vstd::string::StrSliceExecFns;
use vstd::string::StringExecFns;
use crate::bits::{bits_of, zeros, encode_r_word, encode_i_word, encode_j_word, bits_string,
    zeros_string};
use crate::blueprint::{InstrBlueprint, BlueprintV, InstrFormat};
use crate::entry::{BinEntry, EntryV};
use crate::error::{AsmError, ErrV};
use crate::numbers::{dec_str, dec_string};
use crate::operand::{valid_reg_token, reg_val, valid_imm_token, imm_field, parse_reg,
    parse_imm_field, label_start, lemma_diff_mod};
use crate::text::is_upper;

verus! {

/// The mathematical state of pass 1: emitted entries, the number of the
/// next output line, one cooldown per register, and the label bindings in
/// definition order.
#[verifier::ext_equal]
pub struct WriterV {
    pub lines: Seq<EntryV>,
    pub linenumber: nat,
    pub cools: Seq<u32>,
    pub labels: Seq<(Seq<char>, nat)>,
}

impl WriterV {
    /// There is one cooldown per register, and the next line number is the
    /// count of lines emitted so far.
    pub open spec fn wf(self) -> bool {
        self.cools.len() == 32 && self.linenumber == self.lines.len()
    }
}

/// One cooldown after one emitted line: decremented, floor zero.
pub open spec fn dec1(c: u32) -> u32 {
    if c > 0 {
        (c - 1) as u32
    } else {
        0
    }
}

/// All cooldowns after one emitted line.
pub open spec fn dec_all(cs: Seq<u32>) -> Seq<u32> {
    Seq::new(cs.len(), |i: int| dec1(cs[i]))
}

/// A cooldown after `k` emitted lines.
pub open spec fn sat_sub(c: u32, k: nat) -> u32 {
    if c > k {
        (c - k) as u32
    } else {
        0
    }
}

/// The no-op output entry: 32 zero bits.
pub open spec fn nop_entry() -> EntryV {
    EntryV::Plain { bits: zeros(32) }
}

/// Emit one entry: it takes the next line number, and every nonzero
/// cooldown falls by one.
pub open spec fn w_step(w: WriterV, e: EntryV) -> WriterV {
    WriterV {
        lines: w.lines.push(e),
        linenumber: w.linenumber + 1,
        cools: dec_all(w.cools),
        labels: w.labels,
    }
}

/// Emit one no-op line.
pub open spec fn w_nop(w: WriterV) -> WriterV {
    w_step(w, nop_entry())
}

/// Emit `k` no-op lines.
pub open spec fn w_nops(w: WriterV, k: nat) -> WriterV
    decreases k,
{
    if k == 0 {
        w
    } else {
        w_nops(w_nop(w), (k - 1) as nat)
    }
}

/// Clear the hazard on register `r` before it is read: emit as many no-ops
/// as its stored cooldown.
pub open spec fn w_flush(w: WriterV, r: int) -> WriterV {
    w_nops(w, w.cools[r] as nat)
}

/// Set the cooldown of register `r`, as done to the destination register
/// after an `R`- or `I`-format instruction.
pub open spec fn w_set_cool(w: WriterV, r: int, c: u32) -> WriterV {
    WriterV { lines: w.lines, linenumber: w.linenumber, cools: w.cools.update(r, c), labels: w.labels }
}

/// Bind a label to the line the next emitted entry will occupy; a later
/// binding of the same name wins.
pub open spec fn w_def_label(w: WriterV, name: Seq<char>) -> WriterV {
    WriterV {
        lines: w.lines,
        linenumber: w.linenumber,
        cools: w.cools,
        labels: w.labels.push((name, w.linenumber)),
    }
}

/// The binding of `name`, latest definition first.
pub open spec fn lookup_label(labels: Seq<(Seq<char>, nat)>, name: Seq<char>) -> Option<nat>
    decreases labels.len(),
{
    if labels.len() == 0 {
        None
    } else if labels.last().0 == name {
        Some(labels.last().1)
    } else {
        lookup_label(labels.drop_last(), name)
    }
}

/// Emitting `k` no-ops appends `k` no-op lines, advances the line number
/// by `k`, lowers every cooldown by `k` (floor zero) and leaves the labels
/// alone.
pub proof fn lemma_w_nops(w: WriterV, k: nat)
    ensures
        w_nops(w, k).lines.len() == w.lines.len() + k,
        forall|i: int| 0 <= i < w.lines.len() ==> w_nops(w, k).lines[i] == w.lines[i],
        forall|i: int|
            w.lines.len() <= i < w.lines.len() + k ==> w_nops(w, k).lines[i] == nop_entry(),
        w_nops(w, k).linenumber == w.linenumber + k,
        w_nops(w, k).cools.len() == w.cools.len(),
        forall|i: int| 0 <= i < w.cools.len() ==> w_nops(w, k).cools[i] == sat_sub(w.cools[i], k),
        w_nops(w, k).labels == w.labels,
    decreases k,
{
    if k > 0 {
        let wn = w_nop(w);
        lemma_w_nops(wn, (k - 1) as nat);
        assert(wn.lines.len() == w.lines.len() + 1);
        assert(forall|i: int| 0 <= i < w.lines.len() ==> wn.lines[i] == w.lines[i]);
        assert(wn.lines[w.lines.len() as int] == nop_entry());
    }
}

/// Emitting one more no-op after `k` is emitting `k + 1`.
pub proof fn lemma_w_nops_snoc(w: WriterV, k: nat)
    ensures
        w_nops(w, k + 1) == w_nop(w_nops(w, k)),
    decreases k,
{
    if k == 0 {
        assert(w_nops(w, 1) == w_nops(w_nop(w), 0));
        assert(w_nops(w_nop(w), 0) == w_nop(w));
        assert(w_nops(w, 0) == w);
    } else {
        lemma_w_nops_snoc(w_nop(w), (k - 1) as nat);
        assert(w_nops(w, k + 1) == w_nops(w_nop(w), k));
        assert(w_nops(w, k) == w_nops(w_nop(w), (k - 1) as nat));
    }
}

/// Flushing a register's hazard leaves its cooldown at zero and appends
/// only no-op lines; well-formedness is preserved.
pub proof fn lemma_w_flush(w: WriterV, r: int)
    requires
        w.wf(),
        0 <= r < 32,
    ensures
        w_flush(w, r).wf(),
        w_flush(w, r).cools[r] == 0,
        w_flush(w, r).lines.len() == w.lines.len() + w.cools[r],
        forall|i: int| 0 <= i < w.lines.len() ==> w_flush(w, r).lines[i] == w.lines[i],
        forall|i: int|
            w.lines.len() <= i < w_flush(w, r).lines.len() ==> w_flush(w, r).lines[i]
                == nop_entry(),
        forall|i: int| 0 <= i < 32 ==> w_flush(w, r).cools[i] <= w.cools[i],
        w_flush(w, r).labels == w.labels,
{
    lemma_w_nops(w, w.cools[r] as nat);
}

/// What encoding an `R`-format instruction does: flush the hazards of its
/// three register operands in order, then emit the word.  Extra operands
/// beyond the third are ignored.
pub open spec fn spec_handle_r(bp: BlueprintV, w: WriterV, args: Seq<Seq<char>>) -> Result<
    WriterV,
    ErrV,
> {
    if args.len() < 3 {
        Err(ErrV::MissingOperand(bp.opcode))
    } else if !valid_reg_token(args[0]) {
        Err(ErrV::BadRegister(args[0]))
    } else if !valid_reg_token(args[1]) {
        Err(ErrV::BadRegister(args[1]))
    } else if !valid_reg_token(args[2]) {
        Err(ErrV::BadRegister(args[2]))
    } else {
        let r1 = reg_val(args[0]);
        let r2 = reg_val(args[1]);
        let r3 = reg_val(args[2]);
        let w3 = w_flush(w_flush(w_flush(w, r1 as int), r2 as int), r3 as int);
        Ok(w_step(w3, EntryV::Plain { bits: encode_r_word(bp.bin_rep, r1, r2, r3) }))
    }
}

/// What encoding an `I`-format instruction does: flush the two register
/// operands, then emit either a finished word (numeric immediate) or a
/// pending relative-label entry (immediate starting uppercase).
pub open spec fn spec_handle_i(bp: BlueprintV, w: WriterV, args: Seq<Seq<char>>) -> Result<
    WriterV,
    ErrV,
> {
    if args.len() < 3 {
        Err(ErrV::MissingOperand(bp.opcode))
    } else if !valid_reg_token(args[0]) {
        Err(ErrV::BadRegister(args[0]))
    } else if !valid_reg_token(args[1]) {
        Err(ErrV::BadRegister(args[1]))
    } else {
        let r1 = reg_val(args[0]);
        let r2 = reg_val(args[1]);
        if args[2].len() > 0 && is_upper(args[2][0]) {
            let w2 = w_flush(w_flush(w, r1 as int), r2 as int);
            Ok(
                w_step(
                    w2,
                    EntryV::Rel {
                        bits: bp.bin_rep + bits_of(r1, 5) + bits_of(r2, 5),
                        label: args[2],
                    },
                ),
            )
        } else if !valid_imm_token(args[2]) {
            Err(ErrV::BadImmediate(args[2]))
        } else {
            let w2 = w_flush(w_flush(w, r1 as int), r2 as int);
            Ok(
                w_step(
                    w2,
                    EntryV::Plain {
                        bits: encode_i_word(bp.bin_rep, r1, r2, imm_field(args[2])),
                    },
                ),
            )
        }
    }
}

/// What encoding a `J`-format instruction does: for a label target, a
/// pending absolute-label entry followed by four unconditional delay-slot
/// no-ops; for a register target, the hazard-flushed jump word alone.
pub open spec fn spec_handle_j(bp: BlueprintV, w: WriterV, args: Seq<Seq<char>>) -> Result<
    WriterV,
    ErrV,
> {
    if args.len() < 1 {
        Err(ErrV::MissingOperand(bp.opcode))
    } else if args[0].len() > 0 && is_upper(args[0][0]) {
        Ok(w_nops(w_step(w, EntryV::Abs { bits: bp.bin_rep, label: args[0] }), 4))
    } else if !valid_reg_token(args[0]) {
        Err(ErrV::BadRegister(args[0]))
    } else {
        let r = reg_val(args[0]);
        Ok(w_step(w_flush(w, r as int), EntryV::Plain { bits: encode_j_word(bp.bin_rep, r) }))
    }
}

/// What one instruction does to the writer: encode by format, then set
/// the destination register's cooldown (third operand for `R`, second for
/// `I`; `J` and `N` set none).
pub open spec fn spec_handle_instr(bp: BlueprintV, w: WriterV, args: Seq<Seq<char>>) -> Result<
    WriterV,
    ErrV,
> {
    match bp.format {
        InstrFormat::R => match spec_handle_r(bp, w, args) {
            Ok(w1) => Ok(w_set_cool(w1, reg_val(args[2]) as int, bp.cooldown)),
            Err(e) => Err(e),
        },
        InstrFormat::I => match spec_handle_i(bp, w, args) {
            Ok(w1) => Ok(w_set_cool(w1, reg_val(args[1]) as int, bp.cooldown)),
            Err(e) => Err(e),
        },
        InstrFormat::J => spec_handle_j(bp, w, args),
        InstrFormat::N => Ok(w_nop(w)),
    }
}

/// The finished text of output line `idx`: its line number in decimal, a
/// space, and its 32 bits — with the 16-bit relative or 26-bit absolute
/// label field appended from the label table where one is pending.
pub open spec fn spec_patch(labels: Seq<(Seq<char>, nat)>, idx: nat, e: EntryV) -> Result<
    Seq<char>,
    ErrV,
> {
    match e {
        EntryV::Plain { bits } => Ok(dec_str(idx) + seq![' '] + bits),
        EntryV::Rel { bits, label } => match lookup_label(labels, label) {
            None => Err(ErrV::UndefinedLabel(label)),
            Some(l) => Ok(
                dec_str(idx) + seq![' '] + bits + bits_of(
                    ((l as int - idx as int) % 0x10000) as nat,
                    16,
                ),
            ),
        },
        EntryV::Abs { bits, label } => match lookup_label(labels, label) {
            None => Err(ErrV::UndefinedLabel(label)),
            Some(l) => Ok(dec_str(idx) + seq![' '] + bits + bits_of((l % 0x4000000) as nat, 26)),
        },
    }
}

/// Pass 2 from entry `i` on: each entry patched in order, stopping at the
/// first undefined label.
pub open spec fn pass2_rec(
    labels: Seq<(Seq<char>, nat)>,
    lines: Seq<EntryV>,
    i: nat,
) -> Result<Seq<Seq<char>>, ErrV>
    decreases lines.len() - i,
{
    if i >= lines.len() {
        Ok(Seq::empty())
    } else {
        match spec_patch(labels, i, lines[i as int]) {
            Err(e) => Err(e),
            Ok(t) => match pass2_rec(labels, lines, i + 1) {
                Err(e) => Err(e),
                Ok(rest) => Ok(seq![t] + rest),
            },
        }
    }
}

/// If every entry from `i` on patches, pass 2 succeeds and yields exactly
/// those patches in order.
pub proof fn lemma_pass2_rec_ok(labels: Seq<(Seq<char>, nat)>, lines: Seq<EntryV>, i: nat)
    requires
        i <= lines.len(),
        forall|j: int| i <= j < lines.len() ==> spec_patch(labels, j as nat, lines[j]) is Ok,
    ensures
        pass2_rec(labels, lines, i) is Ok,
        pass2_rec(labels, lines, i)->Ok_0.len() == lines.len() - i,
        forall|j: int|
            i <= j < lines.len() ==> pass2_rec(labels, lines, i)->Ok_0[j - i] == spec_patch(
                labels,
                j as nat,
                lines[j],
            )->Ok_0,
    decreases lines.len() - i,
{
    if i < lines.len() {
        lemma_pass2_rec_ok(labels, lines, i + 1);
    }
}

/// If the entries before `f` patch and the one at `f` does not, pass 2
/// fails with exactly that entry's error.
pub proof fn lemma_pass2_rec_err(
    labels: Seq<(Seq<char>, nat)>,
    lines: Seq<EntryV>,
    i: nat,
    f: nat,
)
    requires
        i <= f < lines.len(),
        forall|j: int| i <= j < f ==> spec_patch(labels, j as nat, lines[j]) is Ok,
        spec_patch(labels, f, lines[f as int]) is Err,
    ensures
        pass2_rec(labels, lines, i) == Result::<Seq<Seq<char>>, ErrV>::Err(
            spec_patch(labels, f, lines[f as int])->Err_0,
        ),
    decreases f - i,
{
    if i < f {
        lemma_pass2_rec_err(labels, lines, i + 1, f);
    }
}

/// The writer state of one run at the start: no lines, every cooldown
/// zero, no labels.
pub open spec fn init_writer() -> WriterV {
    WriterV {
        lines: Seq::empty(),
        linenumber: 0,
        cools: Seq::new(32, |i: int| 0u32),
        labels: Seq::empty(),
    }
}

/// The pass-1 state and pass-2 patcher: the growing entry sequence, the
/// next line number, the 32 register cooldowns, and the label table.
pub struct InstrWriter {
    bin_lines: Vec<BinEntry>,
    linenumber: usize,
    reg_cooldown: Vec<u32>,
    label_map: Vec<(String, usize)>,
}

impl View for InstrWriter {
    type V = WriterV;

    closed spec fn view(&self) -> WriterV {
        WriterV {
            lines: Seq::new(self.bin_lines@.len(), |i: int| self.bin_lines@[i]@),
            linenumber: self.linenumber as nat,
            cools: self.reg_cooldown@,
            labels: Seq::new(
                self.label_map@.len(),
                |i: int| (self.label_map@[i].0@, self.label_map@[i].1 as nat),
            ),
        }
    }
}

impl InstrWriter {
    /// A fresh writer: empty output, all 32 cooldowns zero, no labels.
    pub fn new() -> (r: InstrWriter)
        ensures
            r@ == init_writer(),
            r@.wf(),
    {
        let mut cools: Vec<u32> = Vec::new();
        let mut i: usize = 0;
        while i < 32
            invariant
                i <= 32,
                cools@.len() == i,
                forall|j: int| 0 <= j < i ==> cools@[j] == 0u32,
            decreases 32 - i,
        {
            cools.push(0);
            i += 1;
        }
        let r = InstrWriter {
            bin_lines: Vec::new(),
            linenumber: 0,
            reg_cooldown: cools,
            label_map: Vec::new(),
        };
        proof {
            assert(r@.lines =~= init_writer().lines);
            assert(r@.cools =~= init_writer().cools);
            assert(r@.labels =~= init_writer().labels);
            assert(r@ =~~= init_writer());
        }
        r
    }

    /// Append one entry: it takes the next line number, and every nonzero
    /// cooldown falls by one.
    pub fn append_line(&mut self, line: BinEntry)
        requires
            old(self)@.wf(),
        ensures
            final(self)@ == w_step(old(self)@, line@),
            final(self)@.wf(),
    {
        let ghost w0 = self@;
        let mut nc: Vec<u32> = Vec::new();
        let mut k: usize = 0;
        while k < 32
            invariant
                k <= 32,
                nc@.len() == k,
                self.reg_cooldown@.len() == 32,
                self.reg_cooldown@ == w0.cools,
                forall|j: int| 0 <= j < k ==> nc@[j] == dec1(w0.cools[j]),
            decreases 32 - k,
        {
            let c = self.reg_cooldown[k];
            nc.push(if c > 0 {
                c - 1
            } else {
                0
            });
            k += 1;
        }
        self.reg_cooldown = nc;
        self.bin_lines.push(line);
        self.linenumber = self.bin_lines.len();
        proof {
            assert(self@.lines =~= w_step(w0, line@).lines);
            assert(self@.cools =~= w_step(w0, line@).cools);
            assert(self@.labels =~= w_step(w0, line@).labels);
            assert(self@ =~~= w_step(w0, line@));
        }
    }

    /// Emit one no-op line: 32 zero bits.
    pub fn handle_n(&mut self)
        requires
            old(self)@.wf(),
        ensures
            final(self)@ == w_nop(old(self)@),
            final(self)@.wf(),
    {
        self.append_line(BinEntry::WithoutLabel(zeros_string(32)));
    }

    /// Emit `k` no-op lines.
    fn insert_nops(&mut self, k: u32)
        requires
            old(self)@.wf(),
        ensures
            final(self)@ == w_nops(old(self)@, k as nat),
            final(self)@.wf(),
    {
        let ghost w0 = self@;
        let mut i: u32 = 0;
        while i < k
            invariant
                i <= k,
                self@ == w_nops(w0, i as nat),
                self@.wf(),
            decreases k - i,
        {
            self.handle_n();
            proof {
                lemma_w_nops_snoc(w0, i as nat);
            }
            i += 1;
        }
    }

    /// Clear the hazard on register `r`: emit its cooldown in no-ops.
    fn flush(&mut self, r: usize)
        requires
            old(self)@.wf(),
            r < 32,
        ensures
            final(self)@ == w_flush(old(self)@, r as int),
            final(self)@.wf(),
    {
        let c = self.reg_cooldown[r];
        self.insert_nops(c);
    }

    /// Set the cooldown of register `r`.
    fn set_cooldown(&mut self, r: usize, c: u32)
        requires
            old(self)@.wf(),
            r < 32,
        ensures
            final(self)@ == w_set_cool(old(self)@, r as int, c),
            final(self)@.wf(),
    {
        let ghost w0 = self@;
        let mut nc: Vec<u32> = Vec::new();
        let mut k: usize = 0;
        while k < 32
            invariant
                k <= 32,
                nc@.len() == k,
                r < 32,
                self.reg_cooldown@.len() == 32,
                self.reg_cooldown@ == w0.cools,
                forall|j: int| 0 <= j < k && j != r ==> nc@[j] == w0.cools[j],
                r < k ==> nc@[r as int] == c,
            decreases 32 - k,
        {
            if k == r {
                nc.push(c);
            } else {
                nc.push(self.reg_cooldown[k]);
            }
            k += 1;
        }
        self.reg_cooldown = nc;
        proof {
            assert(self@.lines =~= w_set_cool(w0, r as int, c).lines);
            assert(self@.cools =~= w_set_cool(w0, r as int, c).cools);
            assert(self@.labels =~= w_set_cool(w0, r as int, c).labels);
            assert(self@ =~~= w_set_cool(w0, r as int, c));
        }
    }

    /// Bind a label to the line the next emitted entry will occupy.
    pub fn handle_label(&mut self, label: &str)
        requires
            old(self)@.wf(),
        ensures
            final(self)@ == w_def_label(old(self)@, label@),
            final(self)@.wf(),
    {
        let ghost w0 = self@;
        self.label_map.push((label.to_owned(), self.linenumber));
        proof {
            assert(self@.labels =~= w_def_label(w0, label@).labels);
            assert(self@.lines =~= w_def_label(w0, label@).lines);
            assert(self@ =~~= w_def_label(w0, label@));
        }
    }

    /// Encode an `R`-format instruction: three register operands, each
    /// hazard-flushed before its field is taken, then one 32-bit word.
    pub fn handle_r(&mut self, instr: &InstrBlueprint, args: &Vec<&str>) -> (res: Result<
        (),
        AsmError,
    >)
        requires
            old(self)@.wf(),
        ensures
            final(self)@.wf(),
            match spec_handle_r(instr@, old(self)@, args.deep_view()) {
                Ok(w) => res is Ok && final(self)@ == w,
                Err(e) => res is Err && res->Err_0@ == e && final(self)@ == old(self)@,
            },
    {
        let ghost av = args.deep_view();
        if args.len() < 3 {
            return Err(AsmError::MissingOperand(instr.opcode.clone()));
        }
        proof {
            assert(av[0] == args@[0]@);
            assert(av[1] == args@[1]@);
            assert(av[2] == args@[2]@);
        }
        let r1 = match parse_reg(args[0]) {
            Some(v) => v,
            None => {
                return Err(AsmError::BadRegister(args[0].to_owned()));
            },
        };
        let r2 = match parse_reg(args[1]) {
            Some(v) => v,
            None => {
                return Err(AsmError::BadRegister(args[1].to_owned()));
            },
        };
        let r3 = match parse_reg(args[2]) {
            Some(v) => v,
            None => {
                return Err(AsmError::BadRegister(args[2].to_owned()));
            },
        };
        self.flush(r1 as usize);
        self.flush(r2 as usize);
        self.flush(r3 as usize);
        let mut word = instr.bin_rep.clone();
        let b1 = bits_string(r1, 5);
        word.append(b1.as_str());
        let b2 = bits_string(r2, 5);
        word.append(b2.as_str());
        let b3 = bits_string(r3, 5);
        word.append(b3.as_str());
        let z = zeros_string(11);
        word.append(z.as_str());
        self.append_line(BinEntry::WithoutLabel(word));
        Ok(())
    }

    /// Encode an `I`-format instruction: two hazard-flushed register
    /// operands, then either a finished word (numeric immediate) or a
    /// pending relative-label entry (immediate starting uppercase).
    pub fn handle_i(&mut self, instr: &InstrBlueprint, args: &Vec<&str>) -> (res: Result<
        (),
        AsmError,
    >)
        requires
            old(self)@.wf(),
        ensures
            final(self)@.wf(),
            match spec_handle_i(instr@, old(self)@, args.deep_view()) {
                Ok(w) => res is Ok && final(self)@ == w,
                Err(e) => res is Err && res->Err_0@ == e && final(self)@ == old(self)@,
            },
    {
        let ghost av = args.deep_view();
        if args.len() < 3 {
            return Err(AsmError::MissingOperand(instr.opcode.clone()));
        }
        proof {
            assert(av[0] == args@[0]@);
            assert(av[1] == args@[1]@);
            assert(av[2] == args@[2]@);
        }
        let r1 = match parse_reg(args[0]) {
            Some(v) => v,
            None => {
                return Err(AsmError::BadRegister(args[0].to_owned()));
            },
        };
        let r2 = match parse_reg(args[1]) {
            Some(v) => v,
            None => {
                return Err(AsmError::BadRegister(args[1].to_owned()));
            },
        };
        if label_start(args[2]) {
            self.flush(r1 as usize);
            self.flush(r2 as usize);
            let mut partial = instr.bin_rep.clone();
            let b1 = bits_string(r1, 5);
            partial.append(b1.as_str());
            let b2 = bits_string(r2, 5);
            partial.append(b2.as_str());
            self.append_line(BinEntry::WithRelLabel(partial, args[2].to_owned()));
            Ok(())
        } else {
            match parse_imm_field(args[2]) {
                None => Err(AsmError::BadImmediate(args[2].to_owned())),
                Some(f) => {
                    self.flush(r1 as usize);
                    self.flush(r2 as usize);
                    let mut word = instr.bin_rep.clone();
                    let b1 = bits_string(r1, 5);
                    word.append(b1.as_str());
                    let b2 = bits_string(r2, 5);
                    word.append(b2.as_str());
                    let bf = bits_string(f, 16);
                    word.append(bf.as_str());
                    self.append_line(BinEntry::WithoutLabel(word));
                    Ok(())
                },
            }
        }
    }

    /// Encode a `J`-format instruction: a pending absolute-label entry
    /// followed by four delay-slot no-ops, or a hazard-flushed register
    /// jump word alone.
    pub fn handle_j(&mut self, instr: &InstrBlueprint, args: &Vec<&str>) -> (res: Result<
        (),
        AsmError,
    >)
        requires
            old(self)@.wf(),
        ensures
            final(self)@.wf(),
            match spec_handle_j(instr@, old(self)@, args.deep_view()) {
                Ok(w) => res is Ok && final(self)@ == w,
                Err(e) => res is Err && res->Err_0@ == e && final(self)@ == old(self)@,
            },
    {
        let ghost av = args.deep_view();
        if args.len() < 1 {
            return Err(AsmError::MissingOperand(instr.opcode.clone()));
        }
        proof {
            assert(av[0] == args@[0]@);
        }
        if label_start(args[0]) {
            self.append_line(BinEntry::WithAbsLabel(instr.bin_rep.clone(), args[0].to_owned()));
            self.insert_nops(4);
            Ok(())
        } else {
            match parse_reg(args[0]) {
                None => Err(AsmError::BadRegister(args[0].to_owned())),
                Some(r) => {
                    self.flush(r as usize);
                    let mut word = instr.bin_rep.clone();
                    let b = bits_string(r, 5);
                    word.append(b.as_str());
                    let z = zeros_string(21);
                    word.append(z.as_str());
                    self.append_line(BinEntry::WithoutLabel(word));
                    Ok(())
                },
            }
        }
    }

    /// Encode one instruction by its blueprint's format, then set the
    /// destination register's cooldown: the third operand for `R`, the
    /// second for `I`; `J` and `N` set none.
    pub fn handle_instr(&mut self, instr: &InstrBlueprint, args: &Vec<&str>) -> (res: Result<
        (),
        AsmError,
    >)
        requires
            old(self)@.wf(),
        ensures
            final(self)@.wf(),
            match spec_handle_instr(instr@, old(self)@, args.deep_view()) {
                Ok(w) => res is Ok && final(self)@ == w,
                Err(e) => res is Err && res->Err_0@ == e && final(self)@ == old(self)@,
            },
    {
        let ghost av = args.deep_view();
        let fmt = instr.get_format();
        match fmt {
            InstrFormat::R => {
                match self.handle_r(instr, args) {
                    Err(e) => Err(e),
                    Ok(()) => {
                        proof {
                            assert(av[2] == args@[2]@);
                        }
                        match parse_reg(args[2]) {
                            Some(rd) => {
                                self.set_cooldown(rd as usize, instr.get_cooldown());
                                Ok(())
                            },
                            None => {
                                proof {
                                    assert(false);
                                }
                                Err(AsmError::BadRegister(args[2].to_owned()))
                            },
                        }
                    },
                }
            },
            InstrFormat::I => {
                match self.handle_i(instr, args) {
                    Err(e) => Err(e),
                    Ok(()) => {
                        proof {
                            assert(av[1] == args@[1]@);
                        }
                        match parse_reg(args[1]) {
                            Some(rd) => {
                                self.set_cooldown(rd as usize, instr.get_cooldown());
                                Ok(())
                            },
                            None => {
                                proof {
                                    assert(false);
                                }
                                Err(AsmError::BadRegister(args[1].to_owned()))
                            },
                        }
                    },
                }
            },
            InstrFormat::J => self.handle_j(instr, args),
            InstrFormat::N => {
                self.handle_n();
                Ok(())
            },
        }
    }

    /// Look a label up, latest definition first.
    fn find_label(&self, name: &str) -> (r: Option<usize>)
        ensures
            match r {
                Some(l) => lookup_label(self@.labels, name@) == Some(l as nat),
                None => lookup_label(self@.labels, name@) is None,
            },
    {
        let ghost labels = self@.labels;
        let mut j = self.label_map.len();
        proof {
            assert(labels.take(j as int) =~= labels);
        }
        while j > 0
            invariant
                j <= self.label_map.len(),
                labels == self@.labels,
                labels.len() == self.label_map.len(),
                lookup_label(labels, name@) == lookup_label(labels.take(j as int), name@),
            decreases j,
        {
            j -= 1;
            let pair = &self.label_map[j];
            proof {
                assert(labels.take(j + 1).drop_last() =~= labels.take(j as int));
                assert(labels.take(j + 1).last() == labels[j as int]);
            }
            if crate::text::str_eq(pair.0.as_str(), name) {
                return Some(pair.1);
            }
        }
        proof {
            assert(labels.take(0) =~= Seq::<(Seq<char>, nat)>::empty());
        }
        None
    }

    /// Pass 2: patch every pending label field from the label table and
    /// return the finished output lines, each its line number in decimal,
    /// a space, and its 32 bits.  Fails on the first entry whose label was
    /// never defined.
    pub fn write_lines(&self) -> (res: Result<Vec<String>, AsmError>)
        ensures
            match pass2_rec(self@.labels, self@.lines, 0) {
                Ok(out) => res is Ok && res->Ok_0.deep_view() == out,
                Err(e) => res is Err && res->Err_0@ == e,
            },
    {
        let ghost labels = self@.labels;
        let ghost lines = self@.lines;
        let n = self.bin_lines.len();
        let mut out: Vec<String> = Vec::new();
        let mut i: usize = 0;
        while i < n
            invariant
                i <= n,
                labels == self@.labels,
                lines == self@.lines,
                n == lines.len(),
                out.deep_view().len() == i,
                forall|j: int|
                    0 <= j < i ==> (#[trigger] spec_patch(labels, j as nat, lines[j])) is Ok
                        && out.deep_view()[j] == spec_patch(labels, j as nat, lines[j])->Ok_0,
            decreases n - i,
        {
            let entry = &self.bin_lines[i];
            proof {
                assert(entry@ == lines[i as int]);
            }
            let mut text = dec_string(i);
            proof {
                reveal_strlit(" ");
                assert(" "@ =~= seq![' ']);
            }
            text.append(" ");
            match entry {
                BinEntry::WithoutLabel(bits) => {
                    text.append(bits.as_str());
                },
                BinEntry::WithRelLabel(bits, label) => {
                    match self.find_label(label.as_str()) {
                        None => {
                            proof {
                                lemma_pass2_rec_err(labels, lines, 0, i as nat);
                            }
                            return Err(AsmError::UndefinedLabel(label.clone()));
                        },
                        Some(l) => {
                            text.append(bits.as_str());
                            let lm = l % 0x10000;
                            let im = i % 0x10000;
                            let d = (lm + 0x10000 - im) % 0x10000;
                            proof {
                                lemma_diff_mod(l as int, i as int, 0x10000);
                            }
                            let f = bits_string(d as u32, 16);
                            text.append(f.as_str());
                        },
                    }
                },
                BinEntry::WithAbsLabel(bits, label) => {
                    match self.find_label(label.as_str()) {
                        None => {
                            proof {
                                lemma_pass2_rec_err(labels, lines, 0, i as nat);
                            }
                            return Err(AsmError::UndefinedLabel(label.clone()));
                        },
                        Some(l) => {
                            text.append(bits.as_str());
                            let f = bits_string((l % 0x4000000) as u32, 26);
                            text.append(f.as_str());
                        },
                    }
                },
            }
            proof {
                assert(spec_patch(labels, i as nat, lines[i as int]) is Ok);
                assert(text@ == spec_patch(labels, i as nat, lines[i as int])->Ok_0);
            }
            let ghost before = out.deep_view();
            out.push(text);
            proof {
                assert(out.deep_view() =~= before.push(text@));
            }
            i += 1;
        }
        proof {
            lemma_pass2_rec_ok(labels, lines, 0);
            let full = pass2_rec(labels, lines, 0)->Ok_0;
            assert forall|j: int| 0 <= j < lines.len() implies out.deep_view()[j] == full[j] by {
                assert(spec_patch(labels, j as nat, lines[j]) is Ok);
                assert(full[j - 0] == spec_patch(labels, j as nat, lines[j])->Ok_0);
            }
            assert(out.deep_view() =~= full);
        }
        Ok(out)
    }
}

} // verus!
