//! The stated laws of the assembler, proved over its specification: word
//! lengths, macro expansion shapes, label patch values, hazard clearing,
//! and determinism.

use vstd::prelude::*;
use vstd::arithmetic::power2::pow2;
use crate::bits::{bits_of, bits_val, encode_r_word, encode_i_word, encode_j_word,
    lemma_bits_of_len, lemma_bits_of_val, lemma_encoded_word_len};
use crate::blueprint::{BlueprintV, InstrFormat, bp_wf};
use crate::entry::EntryV;
use crate::error::ErrV;
use crate::operand::{reg_val, imm_field, valid_reg_token};
use crate::parser::{lookup_opcode, catalog_wf, spec_named_instr, spec_handle_macro,
    spec_handle_line, spec_pass1_from, spec_assemble, spec_parse_catalog, lemma_parse_catalog_wf};
use crate::text::all_bits;
use crate::numbers::dec_str;
use crate::writer::{WriterV, nop_entry, w_step, w_nop, w_nops, w_flush, w_set_cool, w_def_label,
    lookup_label, spec_handle_r, spec_handle_i, spec_handle_j, spec_handle_instr, spec_patch,
    pass2_rec, lemma_w_flush, lemma_w_nops, init_writer, dec1, sat_sub};

verus! {

/// `n` no-op entries.
pub open spec fn nops_seq(n: nat) -> Seq<EntryV> {
    Seq::new(n, |i: int| nop_entry())
}

/// A well-shaped output entry: a finished word is 32 binary digits; a
/// pending relative entry holds the 16 leading bits, a pending absolute
/// entry the 6 leading bits, of its eventual 32-bit word.
pub open spec fn entry_wf(e: EntryV) -> bool {
    match e {
        EntryV::Plain { bits } => bits.len() == 32 && all_bits(bits),
        EntryV::Rel { bits, .. } => bits.len() == 16 && all_bits(bits),
        EntryV::Abs { bits, .. } => bits.len() == 6 && all_bits(bits),
    }
}

/// Every emitted entry is well shaped.
pub open spec fn lines_wf(ls: Seq<EntryV>) -> bool {
    forall|i: int| 0 <= i < ls.len() ==> entry_wf(#[trigger] ls[i])
}

/// A looked-up blueprint of a well-formed catalog is well-formed.
pub proof fn lemma_lookup_wf(cat: Seq<BlueprintV>, name: Seq<char>)
    requires
        catalog_wf(cat),
        lookup_opcode(cat, name) is Some,
    ensures
        bp_wf(lookup_opcode(cat, name)->0),
    decreases cat.len(),
{
    if cat.len() > 0 {
        if cat.last().opcode == name {
            assert(cat[cat.len() - 1] == cat.last());
        } else {
            assert(forall|i: int| 0 <= i < cat.len() - 1 ==> cat.drop_last()[i] == cat[i]);
            lemma_lookup_wf(cat.drop_last(), name);
        }
    }
}

/// An accepted `R`-format instruction appends some hazard no-ops and then
/// exactly its encoded word; labels are untouched.
pub proof fn lemma_handle_r_shape(bp: BlueprintV, w: WriterV, args: Seq<Seq<char>>)
    requires
        w.wf(),
        spec_handle_r(bp, w, args) is Ok,
    ensures
        ({
            let w2 = spec_handle_r(bp, w, args)->Ok_0;
            &&& w2.wf()
            &&& w2.labels == w.labels
            &&& exists|n: nat|
                w2.lines == w.lines + nops_seq(n) + seq![
                    EntryV::Plain {
                        bits: encode_r_word(
                            bp.bin_rep,
                            reg_val(args[0]),
                            reg_val(args[1]),
                            reg_val(args[2]),
                        ),
                    },
                ]
        }),
{
    let r1 = reg_val(args[0]) as int;
    let r2 = reg_val(args[1]) as int;
    let r3 = reg_val(args[2]) as int;
    let wa = w_flush(w, r1);
    lemma_w_flush(w, r1);
    let wb = w_flush(wa, r2);
    lemma_w_flush(wa, r2);
    let wc = w_flush(wb, r3);
    lemma_w_flush(wb, r3);
    let n0 = (wc.lines.len() - w.lines.len()) as nat;
    let e = EntryV::Plain {
        bits: encode_r_word(bp.bin_rep, reg_val(args[0]), reg_val(args[1]), reg_val(args[2])),
    };
    let w2 = w_step(wc, e);
    assert forall|i: int| 0 <= i < w2.lines.len() implies w2.lines[i] == (w.lines + nops_seq(n0)
        + seq![e])[i] by {
        if i < w.lines.len() {
            assert(wc.lines[i] == wb.lines[i]);
            assert(wb.lines[i] == wa.lines[i]);
            assert(wa.lines[i] == w.lines[i]);
        } else if i < wa.lines.len() {
            assert(wc.lines[i] == wb.lines[i]);
            assert(wb.lines[i] == wa.lines[i]);
            assert(wa.lines[i] == nop_entry());
        } else if i < wb.lines.len() {
            assert(wc.lines[i] == wb.lines[i]);
            assert(wb.lines[i] == nop_entry());
        } else if i < wc.lines.len() {
            assert(wc.lines[i] == nop_entry());
        }
    }
    assert(w2.lines =~= w.lines + nops_seq(n0) + seq![e]);
    assert(w2.lines == w.lines + nops_seq(n0) + seq![e]);
}

/// An accepted `I`-format instruction appends some hazard no-ops and then
/// exactly one entry: its finished word for a numeric immediate, or the
/// pending relative entry for a label immediate.
pub proof fn lemma_handle_i_shape(bp: BlueprintV, w: WriterV, args: Seq<Seq<char>>)
    requires
        w.wf(),
        spec_handle_i(bp, w, args) is Ok,
    ensures
        ({
            let w2 = spec_handle_i(bp, w, args)->Ok_0;
            let lbl = args[2].len() > 0 && crate::text::is_upper(args[2][0]);
            let e = if lbl {
                EntryV::Rel {
                    bits: bp.bin_rep + bits_of(reg_val(args[0]), 5) + bits_of(reg_val(args[1]), 5),
                    label: args[2],
                }
            } else {
                EntryV::Plain {
                    bits: encode_i_word(
                        bp.bin_rep,
                        reg_val(args[0]),
                        reg_val(args[1]),
                        imm_field(args[2]),
                    ),
                }
            };
            &&& w2.wf()
            &&& w2.labels == w.labels
            &&& exists|n: nat| w2.lines == w.lines + nops_seq(n) + seq![e]
        }),
{
    let r1 = reg_val(args[0]) as int;
    let r2 = reg_val(args[1]) as int;
    let wa = w_flush(w, r1);
    lemma_w_flush(w, r1);
    let wb = w_flush(wa, r2);
    lemma_w_flush(wa, r2);
    let n0 = (wb.lines.len() - w.lines.len()) as nat;
    let lbl = args[2].len() > 0 && crate::text::is_upper(args[2][0]);
    let e = if lbl {
        EntryV::Rel {
            bits: bp.bin_rep + bits_of(reg_val(args[0]), 5) + bits_of(reg_val(args[1]), 5),
            label: args[2],
        }
    } else {
        EntryV::Plain {
            bits: encode_i_word(bp.bin_rep, reg_val(args[0]), reg_val(args[1]), imm_field(args[2])),
        }
    };
    let w2 = w_step(wb, e);
    assert forall|i: int| 0 <= i < w2.lines.len() implies w2.lines[i] == (w.lines + nops_seq(n0)
        + seq![e])[i] by {
        if i < w.lines.len() {
            assert(wb.lines[i] == wa.lines[i]);
            assert(wa.lines[i] == w.lines[i]);
        } else if i < wa.lines.len() {
            assert(wa.lines[i] == nop_entry());
            assert(wb.lines[i] == wa.lines[i]);
        } else if i < wb.lines.len() {
            assert(wb.lines[i] == nop_entry());
        }
    }
    assert(w2.lines =~= w.lines + nops_seq(n0) + seq![e]);
    assert(w2.lines == w.lines + nops_seq(n0) + seq![e]);
}

/// An accepted `J`-format instruction appends, for a label target, its
/// pending absolute entry and four delay-slot no-ops; for a register
/// target, some hazard no-ops and its word alone.
pub proof fn lemma_handle_j_shape(bp: BlueprintV, w: WriterV, args: Seq<Seq<char>>)
    requires
        w.wf(),
        spec_handle_j(bp, w, args) is Ok,
    ensures
        ({
            let w2 = spec_handle_j(bp, w, args)->Ok_0;
            let lbl = args[0].len() > 0 && crate::text::is_upper(args[0][0]);
            &&& w2.wf()
            &&& w2.labels == w.labels
            &&& lbl ==> w2.lines == w.lines + seq![
                EntryV::Abs { bits: bp.bin_rep, label: args[0] },
            ] + nops_seq(4)
            &&& !lbl ==> exists|n: nat|
                w2.lines == w.lines + nops_seq(n) + seq![
                    EntryV::Plain { bits: encode_j_word(bp.bin_rep, reg_val(args[0])) },
                ]
        }),
{
    let lbl = args[0].len() > 0 && crate::text::is_upper(args[0][0]);
    if lbl {
        let e = EntryV::Abs { bits: bp.bin_rep, label: args[0] };
        let wa = w_step(w, e);
        let w2 = w_nops(wa, 4);
        lemma_w_nops(wa, 4);
        assert forall|i: int| 0 <= i < w2.lines.len() implies w2.lines[i] == (w.lines + seq![e]
            + nops_seq(4))[i] by {
            if i < wa.lines.len() {
                assert(w2.lines[i] == wa.lines[i]);
            } else {
                assert(w2.lines[i] == nop_entry());
            }
        }
        assert(w2.lines =~= w.lines + seq![e] + nops_seq(4));
        assert(w2.lines == w.lines + seq![e] + nops_seq(4));
    } else {
        let r = reg_val(args[0]) as int;
        let wa = w_flush(w, r);
        lemma_w_flush(w, r);
        let n0 = (wa.lines.len() - w.lines.len()) as nat;
        let e = EntryV::Plain { bits: encode_j_word(bp.bin_rep, reg_val(args[0])) };
        let w2 = w_step(wa, e);
        assert forall|i: int| 0 <= i < w2.lines.len() implies w2.lines[i] == (w.lines + nops_seq(
            n0,
        ) + seq![e])[i] by {
            if i < w.lines.len() {
                assert(wa.lines[i] == w.lines[i]);
            } else if i < wa.lines.len() {
                assert(wa.lines[i] == nop_entry());
            }
        }
        assert(w2.lines =~= w.lines + nops_seq(n0) + seq![e]);
        assert(w2.lines == w.lines + nops_seq(n0) + seq![e]);
    }
}

/// The values of the fixed operand tokens the macro expander emits.
proof fn lemma_fixed_tokens()
    ensures
        valid_reg_token("R31"@) && reg_val("R31"@) == 31,
        valid_reg_token("R30"@) && reg_val("R30"@) == 30,
        valid_reg_token("R29"@) && reg_val("R29"@) == 29,
        valid_reg_token("R0"@) && reg_val("R0"@) == 0,
        valid_reg_token("r29"@) && reg_val("r29"@) == 29,
        valid_reg_token("r0"@) && reg_val("r0"@) == 0,
        imm_field("0"@) == 0,
        !("0"@.len() > 0 && crate::text::is_upper("0"@[0])),
{
    reveal_strlit("R31");
    reveal_strlit("R30");
    reveal_strlit("R29");
    reveal_strlit("R0");
    reveal_strlit("r29");
    reveal_strlit("r0");
    reveal_strlit("0");
    assert("R31"@.skip(1) =~= seq!['3', '1']);
    assert("R30"@.skip(1) =~= seq!['3', '0']);
    assert("R29"@.skip(1) =~= seq!['2', '9']);
    assert("R0"@.skip(1) =~= seq!['0']);
    assert("r29"@.skip(1) =~= seq!['2', '9']);
    assert("r0"@.skip(1) =~= seq!['0']);
    lemma_two_digits('3', '1', 31);
    lemma_two_digits('3', '0', 30);
    lemma_two_digits('2', '9', 29);
    lemma_one_digit('0', 0);
    assert(crate::numbers::digits_val("0"@) == 0) by {
        assert("0"@ =~= seq!['0']);
        lemma_one_digit('0', 0);
    }
    assert(crate::operand::imm_val("0"@) == 0);
}

proof fn lemma_one_digit(c: char, v: nat)
    requires
        crate::text::is_digit(c),
        v == c as u32 - 48,
    ensures
        crate::numbers::digits_val(seq![c]) == v,
{
    assert(seq![c].drop_last() =~= Seq::<char>::empty());
    assert(crate::numbers::digits_val(Seq::<char>::empty()) == 0);
    assert(seq![c].last() == c);
}

proof fn lemma_two_digits(c1: char, c2: char, v: nat)
    requires
        crate::text::is_digit(c1),
        crate::text::is_digit(c2),
        v == (c1 as u32 - 48) * 10 + (c2 as u32 - 48),
    ensures
        crate::numbers::digits_val(seq![c1, c2]) == v,
{
    assert(seq![c1, c2].drop_last() =~= seq![c1]);
    lemma_one_digit(c1, (c1 as u32 - 48) as nat);
}

/// `push r` emits exactly two primitive instructions — the stack-pointer
/// decrement and the store of `r` — besides hazard no-ops.
pub proof fn lemma_push_expansion(cat: Seq<BlueprintV>, w: WriterV, args: Seq<Seq<char>>)
    requires
        w.wf(),
        lookup_opcode(cat, "sub"@) is Some,
        lookup_opcode(cat, "sub"@)->0.format == InstrFormat::R,
        lookup_opcode(cat, "stw"@) is Some,
        lookup_opcode(cat, "stw"@)->0.format == InstrFormat::I,
        spec_handle_macro(cat, w, "push"@, args) is Ok,
    ensures
        ({
            let bs = lookup_opcode(cat, "sub"@)->0;
            let bw = lookup_opcode(cat, "stw"@)->0;
            let w2 = spec_handle_macro(cat, w, "push"@, args)->Ok_0;
            exists|n1: nat, n2: nat|
                w2.lines == w.lines + nops_seq(n1) + seq![
                    EntryV::Plain { bits: encode_r_word(bs.bin_rep, 31, 30, 31) },
                ] + nops_seq(n2) + seq![
                    EntryV::Plain {
                        bits: encode_i_word(bw.bin_rep, reg_val(args[0]), 31, 0),
                    },
                ]
        }),
{
    lemma_fixed_tokens();
    let bs = lookup_opcode(cat, "sub"@)->0;
    let bw = lookup_opcode(cat, "stw"@)->0;
    let a1 = seq!["R31"@, "R30"@, "R31"@];
    let a2 = seq![args[0], "R31"@, "0"@];
    let wr = spec_handle_r(bs, w, a1)->Ok_0;
    lemma_handle_r_shape(bs, w, a1);
    let e1 = EntryV::Plain { bits: encode_r_word(bs.bin_rep, 31, 30, 31) };
    let n1 = choose|n: nat| wr.lines == w.lines + nops_seq(n) + seq![e1];
    let w1 = w_set_cool(wr, reg_val(a1[2]) as int, bs.cooldown);
    assert(w1.lines == wr.lines);
    let wi = spec_handle_i(bw, w1, a2)->Ok_0;
    lemma_handle_i_shape(bw, w1, a2);
    assert(!(a2[2].len() > 0 && crate::text::is_upper(a2[2][0])));
    let e2 = EntryV::Plain { bits: encode_i_word(bw.bin_rep, reg_val(args[0]), 31, 0) };
    let n2 = choose|n: nat| wi.lines == w1.lines + nops_seq(n) + seq![e2];
    let w2 = spec_handle_macro(cat, w, "push"@, args)->Ok_0;
    assert(w2.lines == wi.lines);
    assert(w2.lines == w.lines + nops_seq(n1) + seq![e1] + nops_seq(n2) + seq![e2]);
}

/// `pop r` emits exactly two primitive instructions — the load of `r` and
/// the stack-pointer increment — besides hazard no-ops.
pub proof fn lemma_pop_expansion(cat: Seq<BlueprintV>, w: WriterV, args: Seq<Seq<char>>)
    requires
        w.wf(),
        lookup_opcode(cat, "ldw"@) is Some,
        lookup_opcode(cat, "ldw"@)->0.format == InstrFormat::I,
        lookup_opcode(cat, "add"@) is Some,
        lookup_opcode(cat, "add"@)->0.format == InstrFormat::R,
        spec_handle_macro(cat, w, "pop"@, args) is Ok,
    ensures
        ({
            let bl = lookup_opcode(cat, "ldw"@)->0;
            let ba = lookup_opcode(cat, "add"@)->0;
            let w2 = spec_handle_macro(cat, w, "pop"@, args)->Ok_0;
            exists|n1: nat, n2: nat|
                w2.lines == w.lines + nops_seq(n1) + seq![
                    EntryV::Plain {
                        bits: encode_i_word(bl.bin_rep, reg_val(args[0]), 31, 0),
                    },
                ] + nops_seq(n2) + seq![
                    EntryV::Plain { bits: encode_r_word(ba.bin_rep, 31, 30, 31) },
                ]
        }),
{
    lemma_fixed_tokens();
    reveal_strlit("pop");
    reveal_strlit("push");
    assert("pop"@ != "push"@) by {
        assert("pop"@.len() == 3);
        assert("push"@.len() == 4);
    }
    let bl = lookup_opcode(cat, "ldw"@)->0;
    let ba = lookup_opcode(cat, "add"@)->0;
    let a1 = seq![args[0], "R31"@, "0"@];
    let a2 = seq!["R31"@, "R30"@, "R31"@];
    let wi = spec_handle_i(bl, w, a1)->Ok_0;
    lemma_handle_i_shape(bl, w, a1);
    assert(!(a1[2].len() > 0 && crate::text::is_upper(a1[2][0])));
    let e1 = EntryV::Plain { bits: encode_i_word(bl.bin_rep, reg_val(args[0]), 31, 0) };
    let n1 = choose|n: nat| wi.lines == w.lines + nops_seq(n) + seq![e1];
    let w1 = w_set_cool(wi, reg_val(a1[1]) as int, bl.cooldown);
    assert(w1.lines == wi.lines);
    let wr = spec_handle_r(ba, w1, a2)->Ok_0;
    lemma_handle_r_shape(ba, w1, a2);
    let e2 = EntryV::Plain { bits: encode_r_word(ba.bin_rep, 31, 30, 31) };
    let n2 = choose|n: nat| wr.lines == w1.lines + nops_seq(n) + seq![e2];
    let w2 = spec_handle_macro(cat, w, "pop"@, args)->Ok_0;
    assert(w2.lines == wr.lines);
    assert(w2.lines == w.lines + nops_seq(n1) + seq![e1] + nops_seq(n2) + seq![e2]);
}

/// `call LABEL` emits exactly three primitive instructions — the
/// stack-pointer decrement, the return-address store, and the jump, which
/// carries its pending absolute label and four delay-slot no-ops —
/// besides hazard no-ops.
pub proof fn lemma_call_expansion(cat: Seq<BlueprintV>, w: WriterV, args: Seq<Seq<char>>)
    requires
        w.wf(),
        args.len() >= 1,
        args[0].len() > 0 && crate::text::is_upper(args[0][0]),
        lookup_opcode(cat, "sub"@) is Some,
        lookup_opcode(cat, "sub"@)->0.format == InstrFormat::R,
        lookup_opcode(cat, "movpc"@) is Some,
        lookup_opcode(cat, "movpc"@)->0.format == InstrFormat::I,
        lookup_opcode(cat, "jmp"@) is Some,
        lookup_opcode(cat, "jmp"@)->0.format == InstrFormat::J,
        spec_handle_macro(cat, w, "call"@, args) is Ok,
    ensures
        ({
            let bs = lookup_opcode(cat, "sub"@)->0;
            let bm = lookup_opcode(cat, "movpc"@)->0;
            let bj = lookup_opcode(cat, "jmp"@)->0;
            let w2 = spec_handle_macro(cat, w, "call"@, args)->Ok_0;
            exists|n1: nat, n2: nat|
                w2.lines == w.lines + nops_seq(n1) + seq![
                    EntryV::Plain { bits: encode_r_word(bs.bin_rep, 31, 30, 31) },
                ] + nops_seq(n2) + seq![
                    EntryV::Plain { bits: encode_i_word(bm.bin_rep, 0, 31, 0) },
                ] + seq![EntryV::Abs { bits: bj.bin_rep, label: args[0] }] + nops_seq(4)
        }),
{
    lemma_fixed_tokens();
    reveal_strlit("call");
    reveal_strlit("push");
    reveal_strlit("pop");
    assert("call"@ != "push"@ && "call"@ != "pop"@) by {
        assert("call"@.len() == 4);
        assert("pop"@.len() == 3);
        assert("call"@[0] == 'c');
        assert("push"@[0] == 'p');
    }
    let bs = lookup_opcode(cat, "sub"@)->0;
    let bm = lookup_opcode(cat, "movpc"@)->0;
    let bj = lookup_opcode(cat, "jmp"@)->0;
    let a1 = seq!["R31"@, "R30"@, "R31"@];
    let a2 = seq!["R0"@, "R31"@, "0"@];
    let a3 = seq![args[0]];
    let wr = spec_handle_r(bs, w, a1)->Ok_0;
    lemma_handle_r_shape(bs, w, a1);
    let e1 = EntryV::Plain { bits: encode_r_word(bs.bin_rep, 31, 30, 31) };
    let n1 = choose|n: nat| wr.lines == w.lines + nops_seq(n) + seq![e1];
    let w1 = w_set_cool(wr, reg_val(a1[2]) as int, bs.cooldown);
    assert(w1.lines == wr.lines);
    let wi = spec_handle_i(bm, w1, a2)->Ok_0;
    lemma_handle_i_shape(bm, w1, a2);
    assert(!(a2[2].len() > 0 && crate::text::is_upper(a2[2][0])));
    let e2 = EntryV::Plain { bits: encode_i_word(bm.bin_rep, 0, 31, 0) };
    let n2 = choose|n: nat| wi.lines == w1.lines + nops_seq(n) + seq![e2];
    let w2i = w_set_cool(wi, reg_val(a2[1]) as int, bm.cooldown);
    assert(w2i.lines == wi.lines);
    let wj = spec_handle_j(bj, w2i, a3)->Ok_0;
    lemma_handle_j_shape(bj, w2i, a3);
    let e3 = EntryV::Abs { bits: bj.bin_rep, label: args[0] };
    assert(wj.lines == w2i.lines + seq![e3] + nops_seq(4));
    let w2 = spec_handle_macro(cat, w, "call"@, args)->Ok_0;
    assert(w2.lines == wj.lines);
    assert(w2.lines == w.lines + nops_seq(n1) + seq![e1] + nops_seq(n2) + seq![e2] + seq![e3]
        + nops_seq(4));
}

/// `ret` emits exactly four primitive instructions — the return-address
/// load, its increment past the call site, the stack-pointer increment,
/// and the register jump — besides hazard no-ops.
pub proof fn lemma_ret_expansion(cat: Seq<BlueprintV>, w: WriterV, args: Seq<Seq<char>>)
    requires
        w.wf(),
        lookup_opcode(cat, "ldw"@) is Some,
        lookup_opcode(cat, "ldw"@)->0.format == InstrFormat::I,
        lookup_opcode(cat, "add"@) is Some,
        lookup_opcode(cat, "add"@)->0.format == InstrFormat::R,
        lookup_opcode(cat, "jmpr"@) is Some,
        lookup_opcode(cat, "jmpr"@)->0.format == InstrFormat::J,
        spec_handle_macro(cat, w, "ret"@, args) is Ok,
    ensures
        ({
            let bl = lookup_opcode(cat, "ldw"@)->0;
            let ba = lookup_opcode(cat, "add"@)->0;
            let bj = lookup_opcode(cat, "jmpr"@)->0;
            let w2 = spec_handle_macro(cat, w, "ret"@, args)->Ok_0;
            exists|n1: nat, n2: nat, n3: nat, n4: nat|
                w2.lines == w.lines + nops_seq(n1) + seq![
                    EntryV::Plain { bits: encode_i_word(bl.bin_rep, 31, 29, 0) },
                ] + nops_seq(n2) + seq![
                    EntryV::Plain { bits: encode_r_word(ba.bin_rep, 29, 30, 29) },
                ] + nops_seq(n3) + seq![
                    EntryV::Plain { bits: encode_r_word(ba.bin_rep, 31, 30, 31) },
                ] + nops_seq(n4) + seq![
                    EntryV::Plain { bits: encode_j_word(bj.bin_rep, 29) },
                ]
        }),
{
    lemma_fixed_tokens();
    reveal_strlit("ret");
    reveal_strlit("push");
    reveal_strlit("pop");
    reveal_strlit("call");
    assert("ret"@ != "push"@ && "ret"@ != "pop"@ && "ret"@ != "call"@) by {
        assert("ret"@.len() == 3);
        assert("push"@.len() == 4);
        assert("call"@.len() == 4);
        assert("ret"@[0] == 'r');
        assert("pop"@[0] == 'p');
    }
    let bl = lookup_opcode(cat, "ldw"@)->0;
    let ba = lookup_opcode(cat, "add"@)->0;
    let bj = lookup_opcode(cat, "jmpr"@)->0;
    let a1 = seq!["R31"@, "R29"@, "0"@];
    let a2 = seq!["R29"@, "R30"@, "R29"@];
    let a3 = seq!["R31"@, "R30"@, "R31"@];
    let a4 = seq!["r29"@, "r0"@, "0"@];
    let wi = spec_handle_i(bl, w, a1)->Ok_0;
    lemma_handle_i_shape(bl, w, a1);
    assert(!(a1[2].len() > 0 && crate::text::is_upper(a1[2][0])));
    let e1 = EntryV::Plain { bits: encode_i_word(bl.bin_rep, 31, 29, 0) };
    let n1 = choose|n: nat| wi.lines == w.lines + nops_seq(n) + seq![e1];
    let w1 = w_set_cool(wi, reg_val(a1[1]) as int, bl.cooldown);
    assert(w1.lines == wi.lines);
    let wr1 = spec_handle_r(ba, w1, a2)->Ok_0;
    lemma_handle_r_shape(ba, w1, a2);
    let e2 = EntryV::Plain { bits: encode_r_word(ba.bin_rep, 29, 30, 29) };
    let n2 = choose|n: nat| wr1.lines == w1.lines + nops_seq(n) + seq![e2];
    let w2a = w_set_cool(wr1, reg_val(a2[2]) as int, ba.cooldown);
    assert(w2a.lines == wr1.lines);
    let wr2 = spec_handle_r(ba, w2a, a3)->Ok_0;
    lemma_handle_r_shape(ba, w2a, a3);
    let e3 = EntryV::Plain { bits: encode_r_word(ba.bin_rep, 31, 30, 31) };
    let n3 = choose|n: nat| wr2.lines == w2a.lines + nops_seq(n) + seq![e3];
    let w3a = w_set_cool(wr2, reg_val(a3[2]) as int, ba.cooldown);
    assert(w3a.lines == wr2.lines);
    let wj = spec_handle_j(bj, w3a, a4)->Ok_0;
    lemma_handle_j_shape(bj, w3a, a4);
    reveal_strlit("r29");
    assert(!(a4[0].len() > 0 && crate::text::is_upper(a4[0][0])));
    let e4 = EntryV::Plain { bits: encode_j_word(bj.bin_rep, 29) };
    let n4 = choose|n: nat| wj.lines == w3a.lines + nops_seq(n) + seq![e4];
    let w2 = spec_handle_macro(cat, w, "ret"@, args)->Ok_0;
    assert(w2.lines == wj.lines);
    assert(w2.lines == w.lines + nops_seq(n1) + seq![e1] + nops_seq(n2) + seq![e2] + nops_seq(n3)
        + seq![e3] + nops_seq(n4) + seq![e4]);
}

/// Concatenation preserves well-shaped lines.
proof fn lemma_lines_wf_append(a: Seq<EntryV>, b: Seq<EntryV>)
    requires
        lines_wf(a),
        lines_wf(b),
    ensures
        lines_wf(a + b),
{
    assert forall|i: int| 0 <= i < (a + b).len() implies entry_wf((a + b)[i]) by {
        if i < a.len() {
            assert((a + b)[i] == a[i]);
        } else {
            assert((a + b)[i] == b[i - a.len()]);
        }
    }
}

/// A run of no-op entries is well shaped.
proof fn lemma_nops_seq_wf(n: nat)
    ensures
        lines_wf(nops_seq(n)),
{
}

/// An accepted instruction leaves the writer well-formed and every
/// emitted entry well shaped, provided the catalog is well-formed.
pub proof fn lemma_named_instr_wf(
    cat: Seq<BlueprintV>,
    w: WriterV,
    opcode: Seq<char>,
    args: Seq<Seq<char>>,
)
    requires
        catalog_wf(cat),
        w.wf(),
        lines_wf(w.lines),
        spec_named_instr(cat, w, opcode, args) is Ok,
    ensures
        spec_named_instr(cat, w, opcode, args)->Ok_0.wf(),
        lines_wf(spec_named_instr(cat, w, opcode, args)->Ok_0.lines),
{
    let bp = lookup_opcode(cat, opcode)->0;
    lemma_lookup_wf(cat, opcode);
    lemma_encoded_word_len(
        bp.bin_rep,
        reg_val(args[0]),
        reg_val(args[1]),
        reg_val(args[2]),
        imm_field(args[2]),
    );
    match bp.format {
        InstrFormat::R => {
            lemma_handle_r_shape(bp, w, args);
            let wr = spec_handle_r(bp, w, args)->Ok_0;
            let e = EntryV::Plain {
                bits: encode_r_word(bp.bin_rep, reg_val(args[0]), reg_val(args[1]), reg_val(args[2])),
            };
            let n = choose|n: nat| wr.lines == w.lines + nops_seq(n) + seq![e];
            lemma_nops_seq_wf(n);
            lemma_lines_wf_append(w.lines, nops_seq(n));
            lemma_lines_wf_append(w.lines + nops_seq(n), seq![e]);
        },
        InstrFormat::I => {
            lemma_handle_i_shape(bp, w, args);
            let wi = spec_handle_i(bp, w, args)->Ok_0;
            let lbl = args[2].len() > 0 && crate::text::is_upper(args[2][0]);
            let e = if lbl {
                EntryV::Rel {
                    bits: bp.bin_rep + bits_of(reg_val(args[0]), 5) + bits_of(reg_val(args[1]), 5),
                    label: args[2],
                }
            } else {
                EntryV::Plain {
                    bits: encode_i_word(
                        bp.bin_rep,
                        reg_val(args[0]),
                        reg_val(args[1]),
                        imm_field(args[2]),
                    ),
                }
            };
            assert(entry_wf(e)) by {
                lemma_bits_of_len(reg_val(args[0]), 5);
                lemma_bits_of_len(reg_val(args[1]), 5);
            }
            let n = choose|n: nat| wi.lines == w.lines + nops_seq(n) + seq![e];
            lemma_nops_seq_wf(n);
            lemma_lines_wf_append(w.lines, nops_seq(n));
            lemma_lines_wf_append(w.lines + nops_seq(n), seq![e]);
        },
        InstrFormat::J => {
            lemma_handle_j_shape(bp, w, args);
            let wj = spec_handle_j(bp, w, args)->Ok_0;
            let lbl = args[0].len() > 0 && crate::text::is_upper(args[0][0]);
            lemma_nops_seq_wf(4);
            if lbl {
                let e = EntryV::Abs { bits: bp.bin_rep, label: args[0] };
                lemma_lines_wf_append(w.lines, seq![e]);
                lemma_lines_wf_append(w.lines + seq![e], nops_seq(4));
            } else {
                let e = EntryV::Plain { bits: encode_j_word(bp.bin_rep, reg_val(args[0])) };
                let n = choose|n: nat| wj.lines == w.lines + nops_seq(n) + seq![e];
                lemma_nops_seq_wf(n);
                lemma_lines_wf_append(w.lines, nops_seq(n));
                lemma_lines_wf_append(w.lines + nops_seq(n), seq![e]);
            }
        },
        InstrFormat::N => {
            assert(w_nop(w).lines =~= w.lines + seq![nop_entry()]);
            lemma_lines_wf_append(w.lines, seq![nop_entry()]);
            assert(lines_wf(w_nop(w).lines));
        },
    }
}

/// An accepted macro expansion leaves the writer well-formed and every
/// emitted entry well shaped.
pub proof fn lemma_macro_wf(cat: Seq<BlueprintV>, w: WriterV, name: Seq<char>, args: Seq<Seq<char>>)
    requires
        catalog_wf(cat),
        w.wf(),
        lines_wf(w.lines),
        spec_handle_macro(cat, w, name, args) is Ok,
    ensures
        spec_handle_macro(cat, w, name, args)->Ok_0.wf(),
        lines_wf(spec_handle_macro(cat, w, name, args)->Ok_0.lines),
{
    if name == "push"@ {
        let w1 = spec_named_instr(cat, w, "sub"@, seq!["R31"@, "R30"@, "R31"@])->Ok_0;
        lemma_named_instr_wf(cat, w, "sub"@, seq!["R31"@, "R30"@, "R31"@]);
        lemma_named_instr_wf(cat, w1, "stw"@, seq![args[0], "R31"@, "0"@]);
    } else if name == "pop"@ {
        let w1 = spec_named_instr(cat, w, "ldw"@, seq![args[0], "R31"@, "0"@])->Ok_0;
        lemma_named_instr_wf(cat, w, "ldw"@, seq![args[0], "R31"@, "0"@]);
        lemma_named_instr_wf(cat, w1, "add"@, seq!["R31"@, "R30"@, "R31"@]);
    } else if name == "call"@ {
        let w1 = spec_named_instr(cat, w, "sub"@, seq!["R31"@, "R30"@, "R31"@])->Ok_0;
        lemma_named_instr_wf(cat, w, "sub"@, seq!["R31"@, "R30"@, "R31"@]);
        let w2 = spec_named_instr(cat, w1, "movpc"@, seq!["R0"@, "R31"@, "0"@])->Ok_0;
        lemma_named_instr_wf(cat, w1, "movpc"@, seq!["R0"@, "R31"@, "0"@]);
        lemma_named_instr_wf(cat, w2, "jmp"@, seq![args[0]]);
    } else if name == "ret"@ {
        let w1 = spec_named_instr(cat, w, "ldw"@, seq!["R31"@, "R29"@, "0"@])->Ok_0;
        lemma_named_instr_wf(cat, w, "ldw"@, seq!["R31"@, "R29"@, "0"@]);
        let w2 = spec_named_instr(cat, w1, "add"@, seq!["R29"@, "R30"@, "R29"@])->Ok_0;
        lemma_named_instr_wf(cat, w1, "add"@, seq!["R29"@, "R30"@, "R29"@]);
        let w3 = spec_named_instr(cat, w2, "add"@, seq!["R31"@, "R30"@, "R31"@])->Ok_0;
        lemma_named_instr_wf(cat, w2, "add"@, seq!["R31"@, "R30"@, "R31"@]);
        lemma_named_instr_wf(cat, w3, "jmpr"@, seq!["r29"@, "r0"@, "0"@]);
    }
}

/// An accepted source line leaves the writer well-formed and every
/// emitted entry well shaped.
pub proof fn lemma_line_wf(cat: Seq<BlueprintV>, w: WriterV, line: Seq<char>)
    requires
        catalog_wf(cat),
        w.wf(),
        lines_wf(w.lines),
        spec_handle_line(cat, w, line) is Ok,
    ensures
        spec_handle_line(cat, w, line)->Ok_0.wf(),
        lines_wf(spec_handle_line(cat, w, line)->Ok_0.lines),
{
    let t = crate::text::spec_trim(line);
    if t.len() == 0 || t[0] == '#' {
    } else {
        let toks = crate::text::spec_tokens(t);
        let first = toks[0];
        if first.len() == 0 {
        } else if crate::text::is_upper(first[0]) {
        } else {
            match lookup_opcode(cat, first) {
                Some(_) => {
                    lemma_named_instr_wf(cat, w, first, toks.drop_first());
                },
                None => {
                    lemma_macro_wf(cat, w, first, toks.drop_first());
                },
            }
        }
    }
}

/// An accepted pass 1 leaves the writer well-formed and every emitted
/// entry well shaped.
pub proof fn lemma_pass1_wf(cat: Seq<BlueprintV>, w: WriterV, lines: Seq<Seq<char>>, i: nat)
    requires
        catalog_wf(cat),
        w.wf(),
        lines_wf(w.lines),
        i <= lines.len(),
        spec_pass1_from(cat, w, lines, i) is Ok,
    ensures
        spec_pass1_from(cat, w, lines, i)->Ok_0.wf(),
        lines_wf(spec_pass1_from(cat, w, lines, i)->Ok_0.lines),
    decreases lines.len() - i,
{
    if i < lines.len() {
        let w1 = spec_handle_line(cat, w, lines[i as int])->Ok_0;
        lemma_line_wf(cat, w, lines[i as int]);
        lemma_pass1_wf(cat, w1, lines, i + 1);
    }
}

/// A successful pass 2 patched every entry, in order.
pub proof fn lemma_pass2_rec_ok_inv(labels: Seq<(Seq<char>, nat)>, lines: Seq<EntryV>, i: nat)
    requires
        i <= lines.len(),
        pass2_rec(labels, lines, i) is Ok,
    ensures
        pass2_rec(labels, lines, i)->Ok_0.len() == lines.len() - i,
        forall|j: int|
            i <= j < lines.len() ==> (#[trigger] spec_patch(labels, j as nat, lines[j])) is Ok
                && pass2_rec(labels, lines, i)->Ok_0[j - i] == spec_patch(
                labels,
                j as nat,
                lines[j],
            )->Ok_0,
    decreases lines.len() - i,
{
    if i < lines.len() {
        lemma_pass2_rec_ok_inv(labels, lines, i + 1);
    }
}

/// Every output line of a successful run is its line number in decimal, a
/// space, and exactly 32 binary digits — whatever the source program.
pub proof fn lemma_output_lines_are_words(table: Seq<char>, source: Seq<Seq<char>>)
    requires
        spec_assemble(table, source) is Ok,
    ensures
        ({
            let out = spec_assemble(table, source)->Ok_0;
            forall|i: int|
                0 <= i < out.len() ==> exists|word: Seq<char>|
                    #[trigger] out[i] == dec_str(i as nat) + seq![' '] + word && word.len() == 32
                        && all_bits(word)
        }),
{
    let cat = spec_parse_catalog(table)->Ok_0;
    lemma_parse_catalog_wf(table);
    let w = spec_pass1_from(cat, init_writer(), source, 0)->Ok_0;
    lemma_pass1_wf(cat, init_writer(), source, 0);
    lemma_pass2_rec_ok_inv(w.labels, w.lines, 0);
    let out = spec_assemble(table, source)->Ok_0;
    assert forall|i: int| 0 <= i < out.len() implies exists|word: Seq<char>|
        #[trigger] out[i] == dec_str(i as nat) + seq![' '] + word && word.len() == 32 && all_bits(
            word,
        ) by {
        let e = w.lines[i];
        assert(entry_wf(e));
        assert(spec_patch(w.labels, i as nat, e) is Ok);
        assert(out[i - 0] == spec_patch(w.labels, i as nat, e)->Ok_0);
        match e {
            EntryV::Plain { bits } => {
                assert(out[i] == dec_str(i as nat) + seq![' '] + bits);
            },
            EntryV::Rel { bits, label } => {
                let l = lookup_label(w.labels, label)->0;
                let f = bits_of(((l as int - i) % 0x10000) as nat, 16);
                lemma_bits_of_len(((l as int - i) % 0x10000) as nat, 16);
                let word = bits + f;
                assert(word.len() == 32 && all_bits(word));
                assert(out[i] == (dec_str(i as nat) + seq![' '] + bits) + f);
                assert((dec_str(i as nat) + seq![' '] + bits) + f =~= dec_str(i as nat)
                    + seq![' '] + word);
            },
            EntryV::Abs { bits, label } => {
                let l = lookup_label(w.labels, label)->0;
                let f = bits_of((l % 0x4000000) as nat, 26);
                lemma_bits_of_len((l % 0x4000000) as nat, 26);
                let word = bits + f;
                assert(word.len() == 32 && all_bits(word));
                assert(out[i] == (dec_str(i as nat) + seq![' '] + bits) + f);
                assert((dec_str(i as nat) + seq![' '] + bits) + f =~= dec_str(i as nat)
                    + seq![' '] + word);
            },
        }
    }
}

/// A pending relative reference to a label defined at line `l`, sitting
/// at line `p`, is patched with the 16-bit two's-complement field of
/// `l - p`: the appended field's binary value is `(l - p)` modulo 2^16.
pub proof fn lemma_relative_patch(
    labels: Seq<(Seq<char>, nat)>,
    p: nat,
    bits: Seq<char>,
    label: Seq<char>,
)
    requires
        lookup_label(labels, label) is Some,
    ensures
        ({
            let l = lookup_label(labels, label)->0;
            let f = bits_of(((l as int - p as int) % 0x10000) as nat, 16);
            &&& spec_patch(labels, p, EntryV::Rel { bits, label }) == Result::<Seq<char>, ErrV>::Ok(
                dec_str(p) + seq![' '] + bits + f,
            )
            &&& bits_val(f) == (l as int - p as int) % 0x10000
        }),
{
    let l = lookup_label(labels, label)->0;
    let m = ((l as int - p as int) % 0x10000) as nat;
    lemma_bits_of_val(m, 16);
    assert(pow2(16) == 0x10000) by {
        vstd::arithmetic::power2::lemma2_to64();
    }
    vstd::arithmetic::div_mod::lemma_small_mod(m, 0x10000);
}

/// A pending absolute reference to a label defined at line `l` is patched
/// with the unsigned 26-bit field of `l`: the appended field's binary
/// value is `l` modulo 2^26 — `l` itself whenever it fits 26 bits.
pub proof fn lemma_absolute_patch(
    labels: Seq<(Seq<char>, nat)>,
    p: nat,
    bits: Seq<char>,
    label: Seq<char>,
)
    requires
        lookup_label(labels, label) is Some,
    ensures
        ({
            let l = lookup_label(labels, label)->0;
            let f = bits_of((l % 0x4000000) as nat, 26);
            &&& spec_patch(labels, p, EntryV::Abs { bits, label }) == Result::<Seq<char>, ErrV>::Ok(
                dec_str(p) + seq![' '] + bits + f,
            )
            &&& bits_val(f) == l % 0x4000000
            &&& l < 0x4000000 ==> bits_val(f) == l
        }),
{
    let l = lookup_label(labels, label)->0;
    let m = (l % 0x4000000) as nat;
    lemma_bits_of_val(m, 26);
    assert(pow2(26) == 0x4000000) by {
        vstd::arithmetic::power2::lemma2_to64();
        vstd::arithmetic::power2::lemma2_to64_rest();
    }
    vstd::arithmetic::div_mod::lemma_small_mod(m, 0x4000000);
    if l < 0x4000000 {
        vstd::arithmetic::div_mod::lemma_small_mod(l, 0x4000000);
    }
}

/// Hazard clearing: flushing the registers an instruction reads emits
/// only no-op lines and leaves all their cooldowns at zero, so by the
/// time the instruction's word is appended (`spec_handle_r`,
/// `spec_handle_i`, `spec_handle_j` flush every register operand first),
/// no register is read while a previous writer's cooldown is still
/// running.
pub proof fn lemma_reads_wait_for_cooldown(w: WriterV, r1: int, r2: int, r3: int)
    requires
        w.wf(),
        0 <= r1 < 32,
        0 <= r2 < 32,
        0 <= r3 < 32,
    ensures
        ({
            let w3 = w_flush(w_flush(w_flush(w, r1), r2), r3);
            &&& w3.cools[r1] == 0
            &&& w3.cools[r2] == 0
            &&& w3.cools[r3] == 0
            &&& w3.lines.len() >= w.lines.len()
            &&& forall|i: int| 0 <= i < w.lines.len() ==> w3.lines[i] == w.lines[i]
            &&& forall|i: int|
                w.lines.len() <= i < w3.lines.len() ==> w3.lines[i] == nop_entry()
        }),
{
    let wa = w_flush(w, r1);
    lemma_w_flush(w, r1);
    let wb = w_flush(wa, r2);
    lemma_w_flush(wa, r2);
    let w3 = w_flush(wb, r3);
    lemma_w_flush(wb, r3);
    assert forall|i: int| w.lines.len() <= i < w3.lines.len() implies w3.lines[i] == nop_entry() by {
        if i < wa.lines.len() {
            assert(wb.lines[i] == wa.lines[i]);
            assert(w3.lines[i] == wb.lines[i]);
            assert(wa.lines[i] == nop_entry());
        } else if i < wb.lines.len() {
            assert(w3.lines[i] == wb.lines[i]);
            assert(wb.lines[i] == nop_entry());
        }
    }
}

/// The hazard deadline `linenumber + cools[r]` never moves earlier: an
/// emitted line trades one line number for at most one cooldown tick,
/// and binding a label or cooling another register leaves both alone.
pub proof fn lemma_transitions_keep_deadline(
    w: WriterV,
    e: EntryV,
    name: Seq<char>,
    r2: int,
    c2: u32,
    r: int,
)
    requires
        0 <= r < w.cools.len(),
    ensures
        w_step(w, e).linenumber + w_step(w, e).cools[r] >= w.linenumber + w.cools[r],
        w_def_label(w, name).linenumber + w_def_label(w, name).cools[r] == w.linenumber
            + w.cools[r],
        0 <= r2 < w.cools.len() && r2 != r ==> w_set_cool(w, r2, c2).linenumber + w_set_cool(
            w,
            r2,
            c2,
        ).cools[r] == w.linenumber + w.cools[r],
{
    assert(w_step(w, e).cools[r] == dec1(w.cools[r]));
}

/// The word of an accepted `R`-format instruction is emitted no earlier
/// than the hazard deadline of each of its three register operands.
proof fn lemma_r_word_waits(bp: BlueprintV, w: WriterV, args: Seq<Seq<char>>)
    requires
        w.wf(),
        spec_handle_r(bp, w, args) is Ok,
    ensures
        ({
            let res = spec_handle_r(bp, w, args)->Ok_0;
            &&& res.lines.len() >= 1
            &&& res.lines.len() - 1 >= w.linenumber + w.cools[reg_val(args[0]) as int]
            &&& res.lines.len() - 1 >= w.linenumber + w.cools[reg_val(args[1]) as int]
            &&& res.lines.len() - 1 >= w.linenumber + w.cools[reg_val(args[2]) as int]
        }),
{
    let r1 = reg_val(args[0]) as int;
    let r2 = reg_val(args[1]) as int;
    let r3 = reg_val(args[2]) as int;
    let c1 = w.cools[r1] as nat;
    lemma_w_nops(w, c1);
    let wa = w_flush(w, r1);
    let n2 = wa.cools[r2] as nat;
    lemma_w_nops(wa, n2);
    let wb = w_flush(wa, r2);
    let n3 = wb.cools[r3] as nat;
    lemma_w_nops(wb, n3);
    let wc = w_flush(wb, r3);
    assert(wc.lines.len() == w.lines.len() + c1 + n2 + n3);
    assert(c1 + n2 >= w.cools[r2]);
    assert(wb.cools[r3] == sat_sub(wa.cools[r3], n2));
    assert(wa.cools[r3] == sat_sub(w.cools[r3], c1));
    assert(c1 + n2 + n3 >= w.cools[r3]);
}

/// The entry of an accepted `I`-format instruction is emitted no earlier
/// than the hazard deadline of each of its two register operands.
proof fn lemma_i_word_waits(bp: BlueprintV, w: WriterV, args: Seq<Seq<char>>)
    requires
        w.wf(),
        spec_handle_i(bp, w, args) is Ok,
    ensures
        ({
            let res = spec_handle_i(bp, w, args)->Ok_0;
            &&& res.lines.len() >= 1
            &&& res.lines.len() - 1 >= w.linenumber + w.cools[reg_val(args[0]) as int]
            &&& res.lines.len() - 1 >= w.linenumber + w.cools[reg_val(args[1]) as int]
        }),
{
    let r1 = reg_val(args[0]) as int;
    let r2 = reg_val(args[1]) as int;
    let c1 = w.cools[r1] as nat;
    lemma_w_nops(w, c1);
    let wa = w_flush(w, r1);
    let n2 = wa.cools[r2] as nat;
    lemma_w_nops(wa, n2);
    let wb = w_flush(wa, r2);
    assert(wb.lines.len() == w.lines.len() + c1 + n2);
    assert(c1 + n2 >= w.cools[r2]);
}

/// The word of an accepted register-target `J`-format instruction is
/// emitted no earlier than the hazard deadline of its register operand.
proof fn lemma_j_word_waits(bp: BlueprintV, w: WriterV, args: Seq<Seq<char>>)
    requires
        w.wf(),
        spec_handle_j(bp, w, args) is Ok,
        !(args[0].len() > 0 && crate::text::is_upper(args[0][0])),
    ensures
        ({
            let res = spec_handle_j(bp, w, args)->Ok_0;
            &&& res.lines.len() >= 1
            &&& res.lines.len() - 1 >= w.linenumber + w.cools[reg_val(args[0]) as int]
        }),
{
    let r = reg_val(args[0]) as int;
    lemma_w_nops(w, w.cools[r] as nat);
}

/// An accepted `R`- or `I`-format instruction leaves its destination
/// register (third or second operand) cooling for exactly the blueprint's
/// cooldown, with the writer standing one past the word it emitted: the
/// state `lemma_no_read_before_deadline` starts from.
pub proof fn lemma_instr_sets_cooldown(bp: BlueprintV, w: WriterV, args: Seq<Seq<char>>)
    requires
        w.wf(),
        spec_handle_instr(bp, w, args) is Ok,
        bp.format == InstrFormat::R || bp.format == InstrFormat::I,
    ensures
        ({
            let res = spec_handle_instr(bp, w, args)->Ok_0;
            let rd = if bp.format == InstrFormat::R {
                reg_val(args[2])
            } else {
                reg_val(args[1])
            };
            &&& res.wf()
            &&& res.lines.len() >= 1
            &&& res.linenumber == res.lines.len()
            &&& res.cools[rd as int] == bp.cooldown
        }),
{
    if bp.format == InstrFormat::R {
        lemma_handle_r_shape(bp, w, args);
    } else {
        lemma_handle_i_shape(bp, w, args);
    }
}

/// Does the instruction `spec_handle_instr(bp, _, args)` read register
/// `r`: `R` reads its three operands, `I` its two register operands, a
/// register-target `J` its one; `N` and a label-target `J` read none.
pub open spec fn instr_reads(bp: BlueprintV, args: Seq<Seq<char>>, r: int) -> bool {
    match bp.format {
        InstrFormat::R => reg_val(args[0]) as int == r || reg_val(args[1]) as int == r || reg_val(
            args[2],
        ) as int == r,
        InstrFormat::I => reg_val(args[0]) as int == r || reg_val(args[1]) as int == r,
        InstrFormat::J => !(args[0].len() > 0 && crate::text::is_upper(args[0][0])) && reg_val(
            args[0],
        ) as int == r,
        InstrFormat::N => false,
    }
}

/// The hazard property, end to end.  Suppose an instruction wrote
/// register `r` with cooldown `c` and its word took line `n`: the writer
/// then stands at `w1` with `w1.linenumber == n + 1` and
/// `w1.cools[r] == c`, which is what `spec_handle_instr` leaves for `R`
/// and `I` formats.  Every later transition keeps the deadline
/// `linenumber + cools[r]` from moving earlier
/// (`lemma_transitions_keep_deadline`), which the inequality on `w2`
/// captures.  Then any accepted instruction that reads `r` from `w2`
/// emits its own word at line `n + c + 1` or later: the hazard flush
/// inserts enough no-op lines first.
pub proof fn lemma_no_read_before_deadline(
    w1: WriterV,
    w2: WriterV,
    bp: BlueprintV,
    args: Seq<Seq<char>>,
    r: int,
    c: u32,
    n: nat,
)
    requires
        w1.wf(),
        w2.wf(),
        0 <= r < 32,
        w1.linenumber == n + 1,
        w1.cools[r] == c,
        w2.linenumber + w2.cools[r] >= w1.linenumber + w1.cools[r],
        spec_handle_instr(bp, w2, args) is Ok,
        instr_reads(bp, args, r),
    ensures
        ({
            let res = spec_handle_instr(bp, w2, args)->Ok_0;
            &&& res.lines.len() >= 1
            &&& res.lines.len() - 1 >= n + c + 1
        }),
{
    match bp.format {
        InstrFormat::R => {
            lemma_r_word_waits(bp, w2, args);
        },
        InstrFormat::I => {
            lemma_i_word_waits(bp, w2, args);
        },
        InstrFormat::J => {
            lemma_j_word_waits(bp, w2, args);
        },
        InstrFormat::N => {
        },
    }
}

/// Re-running the assembler on the same opcode table and the same source
/// yields the same outcome: the translation is a function of its inputs.
pub proof fn lemma_assemble_deterministic(
    table1: Seq<char>,
    table2: Seq<char>,
    source1: Seq<Seq<char>>,
    source2: Seq<Seq<char>>,
)
    requires
        table1 == table2,
        source1 == source2,
    ensures
        spec_assemble(table1, source1) == spec_assemble(table2, source2),
{
}

} // verus!
