//! The assembler itself: the opcode catalog, line classification, macro
//! expansion, and the two passes over a source program.

use vstd::prelude::*;
use vstd::string::StrSliceExecFns;
use crate::blueprint::{InstrBlueprint, BlueprintV, InstrFormat, is_format_tag, format_of_tag,
    bp_wf};
use crate::error::{AsmError, ErrV};
use crate::numbers::{is_digits, digits_val, parse_digits_u32};
use crate::text::{split_at_char, spec_lines, spec_trim, spec_tokens, all_bits, is_upper, str_eq,
    split_lines, split_on, trim_str, tokenize};
use crate::writer::{InstrWriter, WriterV, init_writer, w_def_label, spec_handle_instr, pass2_rec,
    lookup_label};

verus! {

/// How the first token of a source line is dispatched: a label definition,
/// a catalog instruction, or a macro.
#[derive(Debug, PartialEq, Eq, Structural)]
pub enum LineType {
    Instr,
    Label,
    Macro,
}

/// The catalog entry for `name`, latest row first.
pub open spec fn lookup_opcode(cat: Seq<BlueprintV>, name: Seq<char>) -> Option<BlueprintV>
    decreases cat.len(),
{
    if cat.len() == 0 {
        None
    } else if cat.last().opcode == name {
        Some(cat.last())
    } else {
        lookup_opcode(cat.drop_last(), name)
    }
}

/// Every blueprint of the catalog carries a six-bit binary prefix.
pub open spec fn catalog_wf(cat: Seq<BlueprintV>) -> bool {
    forall|i: int| 0 <= i < cat.len() ==> bp_wf(#[trigger] cat[i])
}

/// What one opcode-table row yields: its blueprint, or the configuration
/// error that rejects the table.
pub open spec fn spec_parse_row(row: Seq<char>) -> Result<BlueprintV, ErrV> {
    let cols = split_at_char(row, ',');
    if cols.len() < 4 {
        Err(ErrV::MalformedRow(row))
    } else if !(cols[1].len() == 6 && all_bits(cols[1])) {
        Err(ErrV::BadPrefix(cols[1]))
    } else if !is_format_tag(cols[2]) {
        Err(ErrV::BadFormatTag(cols[2]))
    } else if !(is_digits(cols[3]) && digits_val(cols[3]) <= u32::MAX as nat) {
        Err(ErrV::BadCooldown(cols[3]))
    } else {
        Ok(
            BlueprintV {
                opcode: cols[0],
                format: format_of_tag(cols[2]),
                bin_rep: cols[1],
                cooldown: digits_val(cols[3]) as u32,
            },
        )
    }
}

/// The catalog rows from `i` on, in order, stopping at the first bad row.
pub open spec fn spec_parse_rows_from(rows: Seq<Seq<char>>, i: nat) -> Result<
    Seq<BlueprintV>,
    ErrV,
>
    decreases rows.len() - i,
{
    if i >= rows.len() {
        Ok(Seq::empty())
    } else {
        match spec_parse_row(rows[i as int]) {
            Err(e) => Err(e),
            Ok(bp) => match spec_parse_rows_from(rows, i + 1) {
                Err(e) => Err(e),
                Ok(rest) => Ok(seq![bp] + rest),
            },
        }
    }
}

/// The whole opcode catalog of a table text: its lines after the header
/// row, each parsed in order.
pub open spec fn spec_parse_catalog(table: Seq<char>) -> Result<Seq<BlueprintV>, ErrV> {
    let rows = spec_lines(table);
    let data = if rows.len() == 0 {
        Seq::<Seq<char>>::empty()
    } else {
        rows.drop_first()
    };
    spec_parse_rows_from(data, 0)
}

/// If every row from `i` on parses, so does the catalog, row by row.
pub proof fn lemma_parse_rows_ok(rows: Seq<Seq<char>>, i: nat)
    requires
        i <= rows.len(),
        forall|j: int| i <= j < rows.len() ==> (#[trigger] spec_parse_row(rows[j])) is Ok,
    ensures
        spec_parse_rows_from(rows, i) is Ok,
        spec_parse_rows_from(rows, i)->Ok_0.len() == rows.len() - i,
        forall|j: int|
            i <= j < rows.len() ==> spec_parse_rows_from(rows, i)->Ok_0[j - i] == (
            #[trigger] spec_parse_row(rows[j]))->Ok_0,
    decreases rows.len() - i,
{
    if i < rows.len() {
        lemma_parse_rows_ok(rows, i + 1);
    }
}

/// If the rows before `f` parse and the one at `f` does not, the catalog
/// fails with exactly that row's error.
pub proof fn lemma_parse_rows_err(rows: Seq<Seq<char>>, i: nat, f: nat)
    requires
        i <= f < rows.len(),
        forall|j: int| i <= j < f ==> (#[trigger] spec_parse_row(rows[j])) is Ok,
        spec_parse_row(rows[f as int]) is Err,
    ensures
        spec_parse_rows_from(rows, i) == Result::<Seq<BlueprintV>, ErrV>::Err(
            spec_parse_row(rows[f as int])->Err_0,
        ),
    decreases f - i,
{
    if i < f {
        lemma_parse_rows_err(rows, i + 1, f);
    }
}

/// A parsed catalog is well-formed: every prefix has six binary digits.
pub proof fn lemma_parse_catalog_wf(table: Seq<char>)
    requires
        spec_parse_catalog(table) is Ok,
    ensures
        catalog_wf(spec_parse_catalog(table)->Ok_0),
{
    let rows = spec_lines(table);
    let data = if rows.len() == 0 {
        Seq::<Seq<char>>::empty()
    } else {
        rows.drop_first()
    };
    lemma_parse_rows_wf(data, 0);
}

proof fn lemma_parse_rows_wf(rows: Seq<Seq<char>>, i: nat)
    requires
        i <= rows.len(),
        spec_parse_rows_from(rows, i) is Ok,
    ensures
        forall|j: int|
            0 <= j < spec_parse_rows_from(rows, i)->Ok_0.len() ==> bp_wf(
                #[trigger] spec_parse_rows_from(rows, i)->Ok_0[j],
            ),
    decreases rows.len() - i,
{
    if i < rows.len() {
        lemma_parse_rows_wf(rows, i + 1);
    }
}

/// How a first token is classified: uppercase first letter makes a label;
/// otherwise a catalog mnemonic is an instruction and anything else is
/// taken for a macro.
pub open spec fn spec_classify(cat: Seq<BlueprintV>, tok: Seq<char>) -> LineType {
    if is_upper(tok[0]) {
        LineType::Label
    } else if lookup_opcode(cat, tok) is Some {
        LineType::Instr
    } else {
        LineType::Macro
    }
}

/// What a named instruction does to the writer: its blueprint is looked
/// up and applied; a missing mnemonic (reachable only from macro
/// expansions) is fatal.
pub open spec fn spec_named_instr(
    cat: Seq<BlueprintV>,
    w: WriterV,
    opcode: Seq<char>,
    args: Seq<Seq<char>>,
) -> Result<WriterV, ErrV> {
    match lookup_opcode(cat, opcode) {
        None => Err(ErrV::UnknownOpcode(opcode)),
        Some(bp) => spec_handle_instr(bp, w, args),
    }
}

/// What a macro does to the writer: its fixed expansion into primitive
/// instructions, each run through the full encode-and-hazard pipeline.
/// `R30` holds the word size, `R31` the stack pointer and `R29` the
/// return address.
pub open spec fn spec_handle_macro(
    cat: Seq<BlueprintV>,
    w: WriterV,
    name: Seq<char>,
    args: Seq<Seq<char>>,
) -> Result<WriterV, ErrV> {
    if name == "push"@ {
        if args.len() < 1 {
            Err(ErrV::MissingOperand(name))
        } else {
            match spec_named_instr(cat, w, "sub"@, seq!["R31"@, "R30"@, "R31"@]) {
                Err(e) => Err(e),
                Ok(w1) => spec_named_instr(cat, w1, "stw"@, seq![args[0], "R31"@, "0"@]),
            }
        }
    } else if name == "pop"@ {
        if args.len() < 1 {
            Err(ErrV::MissingOperand(name))
        } else {
            match spec_named_instr(cat, w, "ldw"@, seq![args[0], "R31"@, "0"@]) {
                Err(e) => Err(e),
                Ok(w1) => spec_named_instr(cat, w1, "add"@, seq!["R31"@, "R30"@, "R31"@]),
            }
        }
    } else if name == "call"@ {
        if args.len() < 1 {
            Err(ErrV::MissingOperand(name))
        } else {
            match spec_named_instr(cat, w, "sub"@, seq!["R31"@, "R30"@, "R31"@]) {
                Err(e) => Err(e),
                Ok(w1) => match spec_named_instr(cat, w1, "movpc"@, seq!["R0"@, "R31"@, "0"@]) {
                    Err(e) => Err(e),
                    Ok(w2) => spec_named_instr(cat, w2, "jmp"@, seq![args[0]]),
                },
            }
        }
    } else if name == "ret"@ {
        match spec_named_instr(cat, w, "ldw"@, seq!["R31"@, "R29"@, "0"@]) {
            Err(e) => Err(e),
            Ok(w1) => match spec_named_instr(cat, w1, "add"@, seq!["R29"@, "R30"@, "R29"@]) {
                Err(e) => Err(e),
                Ok(w2) => match spec_named_instr(cat, w2, "add"@, seq!["R31"@, "R30"@, "R31"@]) {
                    Err(e) => Err(e),
                    Ok(w3) => spec_named_instr(cat, w3, "jmpr"@, seq!["r29"@, "r0"@, "0"@]),
                },
            },
        }
    } else {
        Err(ErrV::UnknownMacro(name))
    }
}

/// What one source line does to the writer: blank and comment lines are
/// skipped; otherwise the trimmed line is tokenized and dispatched by its
/// first token.
pub open spec fn spec_handle_line(cat: Seq<BlueprintV>, w: WriterV, line: Seq<char>) -> Result<
    WriterV,
    ErrV,
> {
    let t = spec_trim(line);
    if t.len() == 0 || t[0] == '#' {
        Ok(w)
    } else {
        let toks = spec_tokens(t);
        let first = toks[0];
        if first.len() == 0 {
            Err(ErrV::EmptyToken(t))
        } else if is_upper(first[0]) {
            Ok(w_def_label(w, first))
        } else {
            match lookup_opcode(cat, first) {
                Some(_) => spec_named_instr(cat, w, first, toks.drop_first()),
                None => spec_handle_macro(cat, w, first, toks.drop_first()),
            }
        }
    }
}

/// Pass 1 from line `i` on: each line applied in order, stopping at the
/// first fatal line.
pub open spec fn spec_pass1_from(
    cat: Seq<BlueprintV>,
    w: WriterV,
    lines: Seq<Seq<char>>,
    i: nat,
) -> Result<WriterV, ErrV>
    decreases lines.len() - i,
{
    if i >= lines.len() {
        Ok(w)
    } else {
        match spec_handle_line(cat, w, lines[i as int]) {
            Err(e) => Err(e),
            Ok(w1) => spec_pass1_from(cat, w1, lines, i + 1),
        }
    }
}

/// The whole translation: build the catalog, run pass 1 over every source
/// line from a fresh writer, then patch every pending label in pass 2.
pub open spec fn spec_assemble(table: Seq<char>, lines: Seq<Seq<char>>) -> Result<
    Seq<Seq<char>>,
    ErrV,
> {
    match spec_parse_catalog(table) {
        Err(e) => Err(e),
        Ok(cat) => match spec_pass1_from(cat, init_writer(), lines, 0) {
            Err(e) => Err(e),
            Ok(w) => pass2_rec(w.labels, w.lines, 0),
        },
    }
}

/// The mathematical state of the assembler: the catalog and the writer.
#[verifier::ext_equal]
pub struct ParserV {
    pub catalog: Seq<BlueprintV>,
    pub writer: WriterV,
}

impl ParserV {
    /// The writer is well-formed.
    pub open spec fn wf(self) -> bool {
        self.writer.wf()
    }
}

/// Six binary digits, the shape of a valid opcode prefix.
fn check_prefix(s: &str) -> (r: bool)
    ensures
        r == (s@.len() == 6 && all_bits(s@)),
{
    let n = s.unicode_len();
    if n != 6 {
        return false;
    }
    let mut i: usize = 0;
    while i < 6
        invariant
            i <= 6,
            s@.len() == 6,
            forall|j: int| 0 <= j < i ==> crate::text::is_bit(s@[j]),
        decreases 6 - i,
    {
        let c = s.get_char(i);
        if !(c == '0' || c == '1') {
            return false;
        }
        i += 1;
    }
    true
}

/// One opcode-table row parsed into a blueprint.
fn parse_row(row: &str) -> (res: Result<InstrBlueprint, AsmError>)
    ensures
        match spec_parse_row(row@) {
            Ok(bp) => res is Ok && res->Ok_0@ == bp,
            Err(e) => res is Err && res->Err_0@ == e,
        },
{
    let cols = split_on(row, ',');
    let ghost cv = split_at_char(row@, ',');
    if cols.len() < 4 {
        return Err(AsmError::MalformedRow(row.to_owned()));
    }
    proof {
        assert(cols.deep_view()[0] == cols@[0]@);
        assert(cols.deep_view()[1] == cols@[1]@);
        assert(cols.deep_view()[2] == cols@[2]@);
        assert(cols.deep_view()[3] == cols@[3]@);
    }
    if !check_prefix(cols[1].as_str()) {
        return Err(AsmError::BadPrefix(cols[1].clone()));
    }
    let fmt = match InstrFormat::from_str(cols[2].as_str()) {
        Some(f) => f,
        None => {
            return Err(AsmError::BadFormatTag(cols[2].clone()));
        },
    };
    let cd = match parse_digits_u32(cols[3].as_str(), 0) {
        Some(v) => v,
        None => {
            proof {
                assert(cols@[3]@.skip(0) =~= cols@[3]@);
            }
            return Err(AsmError::BadCooldown(cols[3].clone()));
        },
    };
    proof {
        assert(cols@[3]@.skip(0) =~= cols@[3]@);
    }
    Ok(
        InstrBlueprint {
            opcode: cols[0].clone(),
            instr_format: fmt,
            bin_rep: cols[1].clone(),
            num_nops: cd,
        },
    )
}

/// The assembler: the opcode catalog and the output writer of the run.
pub struct IsaParser {
    available_instr: Vec<InstrBlueprint>,
    instr_writer: InstrWriter,
}

impl View for IsaParser {
    type V = ParserV;

    closed spec fn view(&self) -> ParserV {
        ParserV {
            catalog: Seq::new(self.available_instr@.len(), |i: int| self.available_instr@[i]@),
            writer: self.instr_writer@,
        }
    }
}

impl IsaParser {
    /// Parse the opcode table: one row per line after the header row, each
    /// `mnemonic,binary_prefix,format,cooldown`.  A malformed table is a
    /// startup error: no catalog is produced.
    pub fn parse_opccsv(opcode_table: &str) -> (res: Result<Vec<InstrBlueprint>, AsmError>)
        ensures
            match spec_parse_catalog(opcode_table@) {
                Ok(cat) => res is Ok && res->Ok_0.deep_view() == cat,
                Err(e) => res is Err && res->Err_0@ == e,
            },
    {
        let all_rows = split_lines(opcode_table);
        let ghost rows = spec_lines(opcode_table@);
        let ghost data = if rows.len() == 0 {
            Seq::<Seq<char>>::empty()
        } else {
            rows.drop_first()
        };
        let mut out: Vec<InstrBlueprint> = Vec::new();
        if all_rows.len() == 0 {
            proof {
                assert(out.deep_view() =~= spec_parse_rows_from(data, 0)->Ok_0);
            }
            return Ok(out);
        }
        let m = all_rows.len();
        let mut i: usize = 1;
        while i < m
            invariant
                1 <= i <= m,
                m == all_rows@.len(),
                all_rows.deep_view() == rows,
                rows == spec_lines(opcode_table@),
                rows.len() > 0,
                data == rows.drop_first(),
                out.deep_view().len() == i - 1,
                forall|j: int|
                    0 <= j < i - 1 ==> (#[trigger] spec_parse_row(data[j])) is Ok
                        && out.deep_view()[j] == spec_parse_row(data[j])->Ok_0,
            decreases m - i,
        {
            proof {
                assert(all_rows.deep_view()[i as int] == all_rows@[i as int]@);
                assert(data[i - 1] == rows[i as int]);
            }
            match parse_row(all_rows[i].as_str()) {
                Err(e) => {
                    proof {
                        lemma_parse_rows_err(data, 0, (i - 1) as nat);
                    }
                    return Err(e);
                },
                Ok(bp) => {
                    let ghost before = out.deep_view();
                    out.push(bp);
                    proof {
                        assert(out.deep_view() =~= before.push(bp@));
                    }
                },
            }
            i += 1;
        }
        proof {
            lemma_parse_rows_ok(data, 0);
            let full = spec_parse_rows_from(data, 0)->Ok_0;
            assert forall|j: int| 0 <= j < data.len() implies out.deep_view()[j] == full[j] by {
                assert(spec_parse_row(data[j]) is Ok);
                assert(full[j - 0] == spec_parse_row(data[j])->Ok_0);
            }
            assert(out.deep_view() =~= full);
        }
        Ok(out)
    }

    /// A fresh assembler over the given opcode table.
    pub fn new(opcode_table: &str) -> (res: Result<IsaParser, AsmError>)
        ensures
            match spec_parse_catalog(opcode_table@) {
                Ok(cat) => res is Ok && res->Ok_0@.catalog == cat && res->Ok_0@.writer
                    == init_writer() && res->Ok_0@.wf(),
                Err(e) => res is Err && res->Err_0@ == e,
            },
    {
        match IsaParser::parse_opccsv(opcode_table) {
            Err(e) => Err(e),
            Ok(instrs) => {
                let p = IsaParser { available_instr: instrs, instr_writer: InstrWriter::new() };
                proof {
                    assert(p@.catalog =~= instrs.deep_view());
                }
                Ok(p)
            },
        }
    }

    /// The index of the catalog entry for `opcode`, latest row first.
    fn find_opcode_idx(&self, opcode: &str) -> (r: Option<usize>)
        ensures
            match r {
                Some(i) => i < self@.catalog.len() && lookup_opcode(self@.catalog, opcode@)
                    == Some(self@.catalog[i as int]),
                None => lookup_opcode(self@.catalog, opcode@) is None,
            },
    {
        let ghost cat = self@.catalog;
        let mut j = self.available_instr.len();
        proof {
            assert(cat.take(j as int) =~= cat);
        }
        while j > 0
            invariant
                j <= self.available_instr@.len(),
                cat == self@.catalog,
                cat.len() == self.available_instr@.len(),
                lookup_opcode(cat, opcode@) == lookup_opcode(cat.take(j as int), opcode@),
            decreases j,
        {
            j -= 1;
            proof {
                assert(cat.take(j + 1).drop_last() =~= cat.take(j as int));
                assert(cat.take(j + 1).last() == cat[j as int]);
            }
            if str_eq(self.available_instr[j].opcode.as_str(), opcode) {
                return Some(j);
            }
        }
        proof {
            assert(cat.take(0) =~= Seq::<BlueprintV>::empty());
        }
        None
    }

    /// The catalog entry for `opcode`, if any.
    pub fn get_opcode(&self, opcode: &str) -> (r: Option<&InstrBlueprint>)
        ensures
            match r {
                Some(bp) => lookup_opcode(self@.catalog, opcode@) == Some(bp@),
                None => lookup_opcode(self@.catalog, opcode@) is None,
            },
    {
        match self.find_opcode_idx(opcode) {
            Some(i) => Some(&self.available_instr[i]),
            None => None,
        }
    }

    /// Classify a first token: uppercase first letter makes a label,
    /// a catalog mnemonic an instruction, anything else a macro.
    pub fn get_type(&self, first_part: &str) -> (r: LineType)
        requires
            first_part@.len() > 0,
        ensures
            r == spec_classify(self@.catalog, first_part@),
    {
        if crate::text::upper_char(first_part.get_char(0)) {
            LineType::Label
        } else {
            match self.find_opcode_idx(first_part) {
                Some(_) => LineType::Instr,
                None => LineType::Macro,
            }
        }
    }

    /// Bind a label to the line the next emitted instruction will occupy.
    pub fn handle_label(&mut self, label: &str)
        requires
            old(self)@.wf(),
        ensures
            final(self)@.wf(),
            final(self)@.catalog == old(self)@.catalog,
            final(self)@.writer == w_def_label(old(self)@.writer, label@),
    {
        self.instr_writer.handle_label(label);
    }

    /// Encode one named instruction with its operand tokens.
    pub fn handle_instr(&mut self, opcode: &str, args: Vec<&str>) -> (res: Result<(), AsmError>)
        requires
            old(self)@.wf(),
        ensures
            final(self)@.wf(),
            final(self)@.catalog == old(self)@.catalog,
            match spec_named_instr(
                old(self)@.catalog,
                old(self)@.writer,
                opcode@,
                args.deep_view(),
            ) {
                Ok(w) => res is Ok && final(self)@.writer == w,
                Err(e) => res is Err && res->Err_0@ == e,
            },
    {
        match self.find_opcode_idx(opcode) {
            None => Err(AsmError::UnknownOpcode(opcode.to_owned())),
            Some(i) => {
                let bp = &self.available_instr[i];
                self.instr_writer.handle_instr(bp, &args)
            },
        }
    }

    /// Expand one macro into primitive instructions, each run through the
    /// full encode-and-hazard pipeline in order.
    pub fn handle_macro(&mut self, macro_name: &str, args: Vec<&str>) -> (res: Result<
        (),
        AsmError,
    >)
        requires
            old(self)@.wf(),
        ensures
            final(self)@.wf(),
            final(self)@.catalog == old(self)@.catalog,
            match spec_handle_macro(
                old(self)@.catalog,
                old(self)@.writer,
                macro_name@,
                args.deep_view(),
            ) {
                Ok(w) => res is Ok && final(self)@.writer == w,
                Err(e) => res is Err && res->Err_0@ == e,
            },
    {
        let ghost av = args.deep_view();
        if str_eq(macro_name, "push") {
            if args.len() < 1 {
                return Err(AsmError::MissingOperand(macro_name.to_owned()));
            }
            proof {
                assert(av[0] == args@[0]@);
            }
            let mut sub_args: Vec<&str> = Vec::new();
            sub_args.push("R31");
            sub_args.push("R30");
            sub_args.push("R31");
            proof {
                assert(sub_args.deep_view() =~= seq!["R31"@, "R30"@, "R31"@]);
            }
            match self.handle_instr("sub", sub_args) {
                Err(e) => Err(e),
                Ok(()) => {
                    let mut stw_args: Vec<&str> = Vec::new();
                    stw_args.push(args[0]);
                    stw_args.push("R31");
                    stw_args.push("0");
                    proof {
                        assert(stw_args.deep_view() =~= seq![av[0], "R31"@, "0"@]);
                    }
                    self.handle_instr("stw", stw_args)
                },
            }
        } else if str_eq(macro_name, "pop") {
            if args.len() < 1 {
                return Err(AsmError::MissingOperand(macro_name.to_owned()));
            }
            proof {
                assert(av[0] == args@[0]@);
            }
            let mut ldw_args: Vec<&str> = Vec::new();
            ldw_args.push(args[0]);
            ldw_args.push("R31");
            ldw_args.push("0");
            proof {
                assert(ldw_args.deep_view() =~= seq![av[0], "R31"@, "0"@]);
            }
            match self.handle_instr("ldw", ldw_args) {
                Err(e) => Err(e),
                Ok(()) => {
                    let mut add_args: Vec<&str> = Vec::new();
                    add_args.push("R31");
                    add_args.push("R30");
                    add_args.push("R31");
                    proof {
                        assert(add_args.deep_view() =~= seq!["R31"@, "R30"@, "R31"@]);
                    }
                    self.handle_instr("add", add_args)
                },
            }
        } else if str_eq(macro_name, "call") {
            if args.len() < 1 {
                return Err(AsmError::MissingOperand(macro_name.to_owned()));
            }
            proof {
                assert(av[0] == args@[0]@);
            }
            let mut sub_args: Vec<&str> = Vec::new();
            sub_args.push("R31");
            sub_args.push("R30");
            sub_args.push("R31");
            proof {
                assert(sub_args.deep_view() =~= seq!["R31"@, "R30"@, "R31"@]);
            }
            match self.handle_instr("sub", sub_args) {
                Err(e) => Err(e),
                Ok(()) => {
                    let mut movpc_args: Vec<&str> = Vec::new();
                    movpc_args.push("R0");
                    movpc_args.push("R31");
                    movpc_args.push("0");
                    proof {
                        assert(movpc_args.deep_view() =~= seq!["R0"@, "R31"@, "0"@]);
                    }
                    match self.handle_instr("movpc", movpc_args) {
                        Err(e) => Err(e),
                        Ok(()) => {
                            let mut jmp_args: Vec<&str> = Vec::new();
                            jmp_args.push(args[0]);
                            proof {
                                assert(jmp_args.deep_view() =~= seq![av[0]]);
                            }
                            self.handle_instr("jmp", jmp_args)
                        },
                    }
                },
            }
        } else if str_eq(macro_name, "ret") {
            let mut ldw_args: Vec<&str> = Vec::new();
            ldw_args.push("R31");
            ldw_args.push("R29");
            ldw_args.push("0");
            proof {
                assert(ldw_args.deep_view() =~= seq!["R31"@, "R29"@, "0"@]);
            }
            match self.handle_instr("ldw", ldw_args) {
                Err(e) => Err(e),
                Ok(()) => {
                    let mut add_args: Vec<&str> = Vec::new();
                    add_args.push("R29");
                    add_args.push("R30");
                    add_args.push("R29");
                    proof {
                        assert(add_args.deep_view() =~= seq!["R29"@, "R30"@, "R29"@]);
                    }
                    match self.handle_instr("add", add_args) {
                        Err(e) => Err(e),
                        Ok(()) => {
                            let mut add2_args: Vec<&str> = Vec::new();
                            add2_args.push("R31");
                            add2_args.push("R30");
                            add2_args.push("R31");
                            proof {
                                assert(add2_args.deep_view() =~= seq!["R31"@, "R30"@, "R31"@]);
                            }
                            match self.handle_instr("add", add2_args) {
                                Err(e) => Err(e),
                                Ok(()) => {
                                    let mut jmpr_args: Vec<&str> = Vec::new();
                                    jmpr_args.push("r29");
                                    jmpr_args.push("r0");
                                    jmpr_args.push("0");
                                    proof {
                                        assert(jmpr_args.deep_view() =~= seq![
                                            "r29"@,
                                            "r0"@,
                                            "0"@,
                                        ]);
                                    }
                                    self.handle_instr("jmpr", jmpr_args)
                                },
                            }
                        },
                    }
                },
            }
        } else {
            Err(AsmError::UnknownMacro(macro_name.to_owned()))
        }
    }

    /// Handle one raw source line: trim it, skip it if blank or a comment,
    /// otherwise tokenize and dispatch on the first token.
    pub fn handle_line(&mut self, line: &str) -> (res: Result<(), AsmError>)
        requires
            old(self)@.wf(),
        ensures
            final(self)@.wf(),
            final(self)@.catalog == old(self)@.catalog,
            match spec_handle_line(old(self)@.catalog, old(self)@.writer, line@) {
                Ok(w) => res is Ok && final(self)@.writer == w,
                Err(e) => res is Err && res->Err_0@ == e,
            },
    {
        let trimmed = trim_str(line);
        let ghost t = spec_trim(line@);
        if trimmed.is_empty() {
            return Ok(());
        }
        if trimmed.get_char(0) == '#' {
            return Ok(());
        }
        let toks = tokenize(trimmed);
        proof {
            crate::text::lemma_spec_trim_first(line@);
            crate::text::lemma_split_ws_len(t);
        }
        let first = toks[0].as_str();
        proof {
            assert(toks.deep_view()[0] == toks@[0]@);
        }
        if first.is_empty() {
            return Err(AsmError::EmptyToken(trimmed.to_owned()));
        }
        let mut args: Vec<&str> = Vec::new();
        let mut k: usize = 1;
        while k < toks.len()
            invariant
                1 <= k <= toks@.len(),
                args@.len() == k - 1,
                forall|j: int| 0 <= j < k - 1 ==> args.deep_view()[j] == toks.deep_view()[j + 1],
            decreases toks@.len() - k,
        {
            let ghost before = args.deep_view();
            args.push(toks[k].as_str());
            proof {
                assert(args.deep_view() =~= before.push(toks@[k as int]@));
            }
            k += 1;
        }
        proof {
            assert(args.deep_view() =~= toks.deep_view().drop_first());
        }
        match self.get_type(first) {
            LineType::Label => {
                self.handle_label(first);
                Ok(())
            },
            LineType::Instr => self.handle_instr(first, args),
            LineType::Macro => self.handle_macro(first, args),
        }
    }

    /// Pass 2: patch every pending label field and return the finished
    /// output lines.
    pub fn write(&self) -> (res: Result<Vec<String>, AsmError>)
        ensures
            match pass2_rec(self@.writer.labels, self@.writer.lines, 0) {
                Ok(out) => res is Ok && res->Ok_0.deep_view() == out,
                Err(e) => res is Err && res->Err_0@ == e,
            },
    {
        self.instr_writer.write_lines()
    }
}

/// Assemble a whole program: build the catalog from the opcode table, run
/// pass 1 over every source line, then patch every pending label in pass
/// 2.  The result is one output line per emitted instruction: its line
/// number in decimal, a space, and its 32 bits.
pub fn assemble(opcode_table: &str, source: &Vec<String>) -> (res: Result<Vec<String>, AsmError>)
    ensures
        match spec_assemble(opcode_table@, source.deep_view()) {
            Ok(out) => res is Ok && res->Ok_0.deep_view() == out,
            Err(e) => res is Err && res->Err_0@ == e,
        },
{
    let mut parser = match IsaParser::new(opcode_table) {
        Err(e) => {
            return Err(e);
        },
        Ok(p) => p,
    };
    let ghost cat = parser@.catalog;
    let ghost lv = source.deep_view();
    let n = source.len();
    let mut i: usize = 0;
    while i < n
        invariant
            i <= n,
            n == lv.len(),
            lv == source.deep_view(),
            spec_parse_catalog(opcode_table@) == Result::<Seq<BlueprintV>, ErrV>::Ok(cat),
            parser@.wf(),
            parser@.catalog == cat,
            spec_pass1_from(cat, init_writer(), lv, 0) == spec_pass1_from(
                cat,
                parser@.writer,
                lv,
                i as nat,
            ),
        decreases n - i,
    {
        proof {
            assert(lv[i as int] == source@[i as int]@);
        }
        match parser.handle_line(source[i].as_str()) {
            Err(e) => {
                return Err(e);
            },
            Ok(()) => {},
        }
        i += 1;
    }
    parser.write()
}

} // verus!
