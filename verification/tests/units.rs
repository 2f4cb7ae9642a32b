//! Unit tests of the assembler's pieces: text utilities, numerals, binary
//! fields, operand parsing, blueprints, entries, the writer, and the
//! catalog.

use isa_asm::bits::{bits_string, zeros_string};
use isa_asm::blueprint::{InstrBlueprint, InstrFormat};
use isa_asm::entry::BinEntry;
use isa_asm::error::AsmError;
use isa_asm::numbers::{dec_string, parse_digits_u32};
use isa_asm::operand::{parse_imm_field, parse_reg};
use isa_asm::parser::{IsaParser, LineType};
use isa_asm::text::{split_lines, split_on, str_eq, tokenize, trim_str};
use isa_asm::writer::InstrWriter;

#[test]
fn trim_removes_surrounding_whitespace() {
    assert_eq!(trim_str("  add R1 \t"), "add R1");
    assert_eq!(trim_str(""), "");
    assert_eq!(trim_str(" \t "), "");
    assert_eq!(trim_str("x"), "x");
}

#[test]
fn ascii_whitespace_is_trimmed_and_split() {
    assert_eq!(trim_str("\x0c nop \x0b"), "nop");
    assert_eq!(tokenize("add\x0bR1,\x0cR2"), vec!["add", "R1", "R2"]);
}

#[test]
fn tokenize_splits_on_whitespace_and_strips_commas() {
    assert_eq!(tokenize("add R1, R2,  R3,"), vec!["add", "R1", "R2", "R3"]);
    assert_eq!(tokenize("one"), vec!["one"]);
    assert_eq!(tokenize(""), Vec::<String>::new());
    assert_eq!(tokenize(",,"), vec![""]);
}

#[test]
fn split_lines_handles_newlines_and_carriage_returns() {
    assert_eq!(split_lines("a\nb\r\nc\n"), vec!["a", "b", "c"]);
    assert_eq!(split_lines(""), Vec::<String>::new());
    assert_eq!(split_lines("a\n\nb"), vec!["a", "", "b"]);
}

#[test]
fn split_on_keeps_empty_fields() {
    assert_eq!(split_on("a,,b", ','), vec!["a", "", "b"]);
    assert_eq!(split_on("", ','), vec![""]);
    assert_eq!(split_on("abc", ','), vec!["abc"]);
}

#[test]
fn str_eq_compares_by_characters() {
    assert!(str_eq("add", "add"));
    assert!(!str_eq("add", "sub"));
    assert!(!str_eq("add", "addx"));
    assert!(str_eq("", ""));
}

#[test]
fn dec_string_renders_decimal() {
    assert_eq!(dec_string(0), "0");
    assert_eq!(dec_string(7), "7");
    assert_eq!(dec_string(12345), "12345");
}

#[test]
fn parse_digits_handles_bounds() {
    assert_eq!(parse_digits_u32("31", 0), Some(31));
    assert_eq!(parse_digits_u32("R31", 1), Some(31));
    assert_eq!(parse_digits_u32("4294967295", 0), Some(u32::MAX));
    assert_eq!(parse_digits_u32("4294967296", 0), None);
    assert_eq!(parse_digits_u32("12a", 0), None);
    assert_eq!(parse_digits_u32("", 0), None);
}

#[test]
fn bits_string_truncates_to_width() {
    assert_eq!(bits_string(5, 5), "00101");
    assert_eq!(bits_string(0, 5), "00000");
    assert_eq!(bits_string(31, 5), "11111");
    assert_eq!(bits_string(37, 5), "00101");
    assert_eq!(bits_string(65535, 16), "1111111111111111");
    assert_eq!(bits_string(0, 0), "");
}

#[test]
fn zeros_string_has_requested_width() {
    assert_eq!(zeros_string(4), "0000");
    assert_eq!(zeros_string(0), "");
}

#[test]
fn register_tokens_strip_one_letter() {
    assert_eq!(parse_reg("R31"), Some(31));
    assert_eq!(parse_reg("r0"), Some(0));
    assert_eq!(parse_reg("R07"), Some(7));
    assert_eq!(parse_reg("R32"), None);
    assert_eq!(parse_reg("Rx"), None);
    assert_eq!(parse_reg("R"), None);
    assert_eq!(parse_reg(""), None);
}

#[test]
fn immediate_fields_are_sixteen_bit_twos_complement() {
    assert_eq!(parse_imm_field("5"), Some(5));
    assert_eq!(parse_imm_field("-1"), Some(65535));
    assert_eq!(parse_imm_field("-32768"), Some(32768));
    assert_eq!(parse_imm_field("65536"), Some(0));
    assert_eq!(parse_imm_field("-2147483648"), Some(0));
    assert_eq!(parse_imm_field("2147483648"), None);
    assert_eq!(parse_imm_field("abc"), None);
    assert_eq!(parse_imm_field(""), None);
    assert_eq!(parse_imm_field("-"), None);
}

#[test]
fn format_tags_parse_exactly() {
    assert_eq!(InstrFormat::from_str("R"), Some(InstrFormat::R));
    assert_eq!(InstrFormat::from_str("I"), Some(InstrFormat::I));
    assert_eq!(InstrFormat::from_str("J"), Some(InstrFormat::J));
    assert_eq!(InstrFormat::from_str("N"), Some(InstrFormat::N));
    assert_eq!(InstrFormat::from_str("X"), None);
    assert_eq!(InstrFormat::from_str("RR"), None);
}

#[test]
fn blueprint_getters_expose_format_and_cooldown() {
    let bp = InstrBlueprint {
        opcode: "add".to_string(),
        instr_format: InstrFormat::R,
        bin_rep: "000001".to_string(),
        num_nops: 2,
    };
    assert_eq!(bp.get_format(), InstrFormat::R);
    assert_eq!(bp.get_cooldown(), 2);
}

#[test]
fn entry_strings_update_and_read() {
    let e = BinEntry::WithRelLabel("101".to_string(), "Loop".to_string());
    assert_eq!(e.get_string(), "101");
    let e2 = e.update_str("111".to_string());
    assert_eq!(e2.get_string(), "111");
    match e2 {
        BinEntry::WithRelLabel(_, l) => assert_eq!(l, "Loop"),
        other => panic!("entry kind changed: {:?}", other),
    }
    let p = BinEntry::WithoutLabel("000".to_string());
    assert_eq!(p.update_str("01".to_string()).get_string(), "01");
}

#[test]
fn writer_emits_numbered_nop_lines() {
    let mut w = InstrWriter::new();
    w.handle_n();
    w.handle_n();
    let out = w.write_lines().unwrap();
    assert_eq!(out.len(), 2);
    assert_eq!(out[0], format!("0 {}", "0".repeat(32)));
    assert_eq!(out[1], format!("1 {}", "0".repeat(32)));
}

#[test]
fn writer_patches_relative_label_directly() {
    let bp = InstrBlueprint {
        opcode: "beq".to_string(),
        instr_format: InstrFormat::I,
        bin_rep: "001000".to_string(),
        num_nops: 0,
    };
    let mut w = InstrWriter::new();
    w.handle_label("Loop");
    let args = vec!["R1", "R2", "Loop"];
    w.handle_instr(&bp, &args).unwrap();
    let out = w.write_lines().unwrap();
    assert_eq!(out, vec!["0 00100000001000100000000000000000".to_string()]);
}

#[test]
fn writer_fails_on_unresolved_label() {
    let bp = InstrBlueprint {
        opcode: "jmp".to_string(),
        instr_format: InstrFormat::J,
        bin_rep: "000110".to_string(),
        num_nops: 0,
    };
    let mut w = InstrWriter::new();
    let args = vec!["Gone"];
    w.handle_instr(&bp, &args).unwrap();
    match w.write_lines() {
        Err(AsmError::UndefinedLabel(l)) => assert_eq!(l, "Gone"),
        other => panic!("expected an undefined-label failure, got {:?}", other),
    }
}

#[test]
fn writer_r_format_uses_custom_prefix() {
    let bp = InstrBlueprint {
        opcode: "mul".to_string(),
        instr_format: InstrFormat::R,
        bin_rep: "101010".to_string(),
        num_nops: 0,
    };
    let mut w = InstrWriter::new();
    let args = vec!["R1", "R2", "R3"];
    w.handle_r(&bp, &args).unwrap();
    let out = w.write_lines().unwrap();
    assert_eq!(out, vec!["0 10101000001000100001100000000000".to_string()]);
}

#[test]
fn catalog_lookup_finds_rows() {
    let table = "opcode,bin,format,cooldown\nadd,000001,R,2\nsub,000010,R,0\n";
    let parser = IsaParser::new(table).unwrap();
    let add = parser.get_opcode("add").unwrap();
    assert_eq!(add.bin_rep, "000001");
    assert_eq!(add.num_nops, 2);
    assert!(parser.get_opcode("mul").is_none());
}

#[test]
fn catalog_duplicate_mnemonic_last_row_wins() {
    let table = "opcode,bin,format,cooldown\nadd,000001,R,2\nadd,111111,R,1\n";
    let parser = IsaParser::new(table).unwrap();
    let add = parser.get_opcode("add").unwrap();
    assert_eq!(add.bin_rep, "111111");
    assert_eq!(add.num_nops, 1);
}

#[test]
fn parse_opccsv_reads_rows_in_order() {
    let table = "opcode,bin,format,cooldown\nadd,000001,R,2\nnop,000000,N,0\n";
    let rows = IsaParser::parse_opccsv(table).unwrap();
    assert_eq!(rows.len(), 2);
    assert_eq!(rows[0].opcode, "add");
    assert_eq!(rows[1].opcode, "nop");
    assert_eq!(rows[1].instr_format, InstrFormat::N);
}

#[test]
fn classification_follows_case_and_catalog() {
    let table = "opcode,bin,format,cooldown\nadd,000001,R,2\n";
    let parser = IsaParser::new(table).unwrap();
    assert_eq!(parser.get_type("add"), LineType::Instr);
    assert_eq!(parser.get_type("Loop"), LineType::Label);
    assert_eq!(parser.get_type("push"), LineType::Macro);
}

#[test]
fn handle_line_and_write_work_stepwise() {
    let table = "opcode,bin,format,cooldown\nnop,000000,N,0\n";
    let mut parser = IsaParser::new(table).unwrap();
    parser.handle_line("# comment").unwrap();
    parser.handle_line("").unwrap();
    parser.handle_line("nop").unwrap();
    parser.handle_line("End").unwrap();
    let out = parser.write().unwrap();
    assert_eq!(out, vec![format!("0 {}", "0".repeat(32))]);
}

#[test]
fn parse_opccsv_of_empty_text_is_an_empty_catalog() {
    assert!(IsaParser::parse_opccsv("").unwrap().is_empty());
}

#[test]
fn extra_operands_are_ignored() {
    let table = "opcode,bin,format,cooldown\nadd,000001,R,0\n";
    let mut parser = IsaParser::new(table).unwrap();
    parser.handle_line("add R1, R2, R3, R4").unwrap();
    let out = parser.write().unwrap();
    assert_eq!(out, vec!["0 00000100001000100001100000000000".to_string()]);
}

#[test]
fn handle_macro_reports_unknown_names() {
    let table = "opcode,bin,format,cooldown\nnop,000000,N,0\n";
    let mut parser = IsaParser::new(table).unwrap();
    let res = parser.handle_macro("mystery", vec![]);
    assert!(matches!(res, Err(AsmError::UnknownMacro(_))));
}
