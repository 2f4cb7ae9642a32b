//! End-to-end runs of the assembler: encoding, hazards, macros, label
//! resolution and failures.

use isa_asm::error::AsmError;
use isa_asm::parser::assemble;

fn run(table: &str, lines: &[&str]) -> Result<Vec<String>, AsmError> {
    let src: Vec<String> = lines.iter().map(|s| s.to_string()).collect();
    assemble(table, &src)
}

fn full_table() -> String {
    let mut t = String::from("opcode,bin,format,cooldown\n");
    t.push_str("add,000001,R,2\n");
    t.push_str("sub,000010,R,0\n");
    t.push_str("stw,000011,I,0\n");
    t.push_str("ldw,000100,I,3\n");
    t.push_str("movpc,000101,I,0\n");
    t.push_str("jmp,000110,J,0\n");
    t.push_str("jmpr,000111,J,0\n");
    t.push_str("nop,000000,N,0\n");
    t.push_str("beq,001000,I,0\n");
    t
}

fn zero_cooldown_table() -> String {
    let mut t = String::from("opcode,bin,format,cooldown\n");
    t.push_str("add,000001,R,0\n");
    t.push_str("sub,000010,R,0\n");
    t.push_str("stw,000011,I,0\n");
    t.push_str("ldw,000100,I,0\n");
    t.push_str("movpc,000101,I,0\n");
    t.push_str("jmp,000110,J,0\n");
    t.push_str("jmpr,000111,J,0\n");
    t.push_str("nop,000000,N,0\n");
    t
}

const NOP_LINE_0: &str = "0 00000000000000000000000000000000";

#[test]
fn r_format_word() {
    let out = run(&full_table(), &["add R1, R2, R3"]).unwrap();
    assert_eq!(out, vec!["0 00000100001000100001100000000000".to_string()]);
}

#[test]
fn i_format_word_small_immediate() {
    let out = run(&full_table(), &["stw R1, R2, 5"]).unwrap();
    assert_eq!(out, vec!["0 00001100001000100000000000000101".to_string()]);
}

#[test]
fn i_format_word_negative_immediate() {
    let out = run(&full_table(), &["stw R1, R2, -1"]).unwrap();
    assert_eq!(out, vec!["0 00001100001000101111111111111111".to_string()]);
}

#[test]
fn j_format_register_jump_is_one_word() {
    // A register target is written lowercase (an uppercase first letter
    // would read as a label) and emits its word alone: only a jump to a
    // label carries delay-slot no-ops.
    let out = run(&full_table(), &["jmpr r2"]).unwrap();
    assert_eq!(out, vec!["0 00011100010000000000000000000000".to_string()]);
}

#[test]
fn n_format_is_thirty_two_zeros() {
    let out = run(&full_table(), &["nop"]).unwrap();
    assert_eq!(out, vec![NOP_LINE_0.to_string()]);
}

#[test]
fn every_word_is_thirty_two_bits() {
    let out = run(
        &full_table(),
        &["add R1, R2, R3", "stw R4, R5, 77", "jmpr r6", "nop", "beq R1, R2, -4"],
    )
    .unwrap();
    for (i, line) in out.iter().enumerate() {
        let (num, word) = line.split_once(' ').unwrap();
        assert_eq!(num, i.to_string());
        assert_eq!(word.len(), 32);
        assert!(word.chars().all(|c| c == '0' || c == '1'));
    }
}

#[test]
fn hazard_inserts_cooldown_nops() {
    // `add` writes its third operand with cooldown 2; reading that
    // register immediately afterwards costs two no-op lines.
    let out = run(&full_table(), &["add R1, R2, R3", "add R4, R3, R5"]).unwrap();
    assert_eq!(
        out,
        vec![
            "0 00000100001000100001100000000000".to_string(),
            "1 00000000000000000000000000000000".to_string(),
            "2 00000000000000000000000000000000".to_string(),
            "3 00000100100000110010100000000000".to_string(),
        ]
    );
}

#[test]
fn hazard_not_triggered_for_unrelated_registers() {
    let out = run(&full_table(), &["add R1, R2, R3", "add R4, R5, R6"]).unwrap();
    assert_eq!(out.len(), 2);
}

#[test]
fn relative_label_backward_reference() {
    let out = run(&full_table(), &["nop", "Loop", "nop", "beq R1, R2, Loop"]).unwrap();
    assert_eq!(out.len(), 3);
    // The label binds to line 1; the reference sits at line 2, so the
    // 16-bit field is -1 in two's complement.
    assert_eq!(out[2], "2 00100000001000101111111111111111");
}

#[test]
fn relative_label_distance_zero() {
    let out = run(&full_table(), &["Here", "beq R1, R2, Here"]).unwrap();
    assert_eq!(out.len(), 1);
    assert_eq!(out[0], "0 00100000001000100000000000000000");
}

#[test]
fn absolute_label_forward_reference() {
    // `jmp Loop` before `Loop` is defined still resolves to the label's
    // line number once pass 2 runs.
    let out = run(&full_table(), &["jmp Loop", "Loop", "nop"]).unwrap();
    assert_eq!(out.len(), 6);
    assert_eq!(out[0], "0 00011000000000000000000000000101");
    assert_eq!(out[5], "5 00000000000000000000000000000000");
}

#[test]
fn undefined_label_fails_without_output() {
    let res = run(&full_table(), &["jmp Nowhere"]);
    match res {
        Err(AsmError::UndefinedLabel(l)) => assert_eq!(l, "Nowhere"),
        other => panic!("expected an undefined-label failure, got {:?}", other),
    }
}

#[test]
fn push_expands_to_two_instructions() {
    let out = run(&zero_cooldown_table(), &["push R7"]).unwrap();
    assert_eq!(
        out,
        vec![
            "0 00001011111111101111100000000000".to_string(),
            "1 00001100111111110000000000000000".to_string(),
        ]
    );
}

#[test]
fn pop_expands_to_two_instructions() {
    let out = run(&zero_cooldown_table(), &["pop R7"]).unwrap();
    assert_eq!(
        out,
        vec![
            "0 00010000111111110000000000000000".to_string(),
            "1 00000111111111101111100000000000".to_string(),
        ]
    );
}

#[test]
fn pop_inserts_hazard_nops_between_its_instructions() {
    // `ldw` carries cooldown 3 in this table and writes the stack
    // pointer, which the following `add` reads at once.
    let out = run(&full_table(), &["pop R7"]).unwrap();
    assert_eq!(out.len(), 5);
    assert_eq!(out[0], "0 00010000111111110000000000000000");
    for line in &out[1..4] {
        assert!(line.ends_with(&"0".repeat(32)));
    }
    assert_eq!(out[4], "4 00000111111111101111100000000000");
}

#[test]
fn call_expands_to_three_instructions_and_delay_slots() {
    let out = run(&zero_cooldown_table(), &["call Func", "Func", "nop"]).unwrap();
    assert_eq!(out.len(), 8);
    assert_eq!(out[0], "0 00001011111111101111100000000000");
    assert_eq!(out[1], "1 00010100000111110000000000000000");
    assert_eq!(out[2], "2 00011000000000000000000000000111");
    for (i, line) in out.iter().enumerate().take(7).skip(3) {
        assert_eq!(*line, format!("{} {}", i, "0".repeat(32)));
    }
    assert_eq!(out[7], "7 00000000000000000000000000000000");
}

#[test]
fn ret_expands_to_four_instructions() {
    let out = run(&zero_cooldown_table(), &["ret"]).unwrap();
    assert_eq!(
        out,
        vec![
            "0 00010011111111010000000000000000".to_string(),
            "1 00000111101111101110100000000000".to_string(),
            "2 00000111111111101111100000000000".to_string(),
            "3 00011111101000000000000000000000".to_string(),
        ]
    );
}

#[test]
fn rerun_is_byte_identical() {
    let table = full_table();
    let lines = [
        "# a small program",
        "Start",
        "add R1, R2, R3",
        "push R4",
        "beq R1, R2, Start",
        "jmp End",
        "End",
        "ret",
    ];
    let a = run(&table, &lines).unwrap();
    let b = run(&table, &lines).unwrap();
    assert_eq!(a, b);
}

#[test]
fn blank_and_comment_lines_consume_no_line_numbers() {
    let out = run(&full_table(), &["", "   ", "# comment", "  nop  ", "\t", "nop"]).unwrap();
    assert_eq!(out.len(), 2);
    assert_eq!(out[0], NOP_LINE_0);
    assert_eq!(out[1], "1 00000000000000000000000000000000");
}

#[test]
fn unknown_macro_fails() {
    let res = run(&full_table(), &["frobnicate R1"]);
    match res {
        Err(AsmError::UnknownMacro(m)) => assert_eq!(m, "frobnicate"),
        other => panic!("expected an unknown-macro failure, got {:?}", other),
    }
}

#[test]
fn macro_without_catalog_support_fails() {
    // `push` expands through `sub`, which this table lacks.
    let table = "opcode,bin,format,cooldown\nstw,000011,I,0\n";
    let res = run(table, &["push R1"]);
    match res {
        Err(AsmError::UnknownOpcode(m)) => assert_eq!(m, "sub"),
        other => panic!("expected an unknown-opcode failure, got {:?}", other),
    }
}

#[test]
fn missing_operand_fails() {
    let res = run(&full_table(), &["add R1, R2"]);
    match res {
        Err(AsmError::MissingOperand(m)) => assert_eq!(m, "add"),
        other => panic!("expected a missing-operand failure, got {:?}", other),
    }
}

#[test]
fn missing_macro_operand_fails() {
    let res = run(&full_table(), &["push"]);
    match res {
        Err(AsmError::MissingOperand(m)) => assert_eq!(m, "push"),
        other => panic!("expected a missing-operand failure, got {:?}", other),
    }
}

#[test]
fn bad_register_fails() {
    let res = run(&full_table(), &["add R1, R2, Rx"]);
    assert!(matches!(res, Err(AsmError::BadRegister(_))));
}

#[test]
fn register_out_of_range_fails() {
    let res = run(&full_table(), &["add R1, R2, R32"]);
    match res {
        Err(AsmError::BadRegister(r)) => assert_eq!(r, "R32"),
        other => panic!("expected a bad-register failure, got {:?}", other),
    }
}

#[test]
fn bad_immediate_fails() {
    let res = run(&full_table(), &["stw R1, R2, zz"]);
    match res {
        Err(AsmError::BadImmediate(t)) => assert_eq!(t, "zz"),
        other => panic!("expected a bad-immediate failure, got {:?}", other),
    }
}

#[test]
fn empty_first_token_fails() {
    let res = run(&full_table(), &[","]);
    assert!(matches!(res, Err(AsmError::EmptyToken(_))));
}

#[test]
fn bad_format_tag_rejects_table() {
    let res = run("opcode,bin,format,cooldown\nfoo,000000,X,0\n", &["nop"]);
    match res {
        Err(AsmError::BadFormatTag(t)) => assert_eq!(t, "X"),
        other => panic!("expected a bad-format-tag failure, got {:?}", other),
    }
}

#[test]
fn bad_cooldown_rejects_table() {
    let res = run("opcode,bin,format,cooldown\nfoo,000000,R,x\n", &["nop"]);
    match res {
        Err(AsmError::BadCooldown(t)) => assert_eq!(t, "x"),
        other => panic!("expected a bad-cooldown failure, got {:?}", other),
    }
}

#[test]
fn short_row_rejects_table() {
    let res = run("opcode,bin,format,cooldown\nfoo,000000\n", &["nop"]);
    assert!(matches!(res, Err(AsmError::MalformedRow(_))));
}

#[test]
fn bad_prefix_rejects_table() {
    let res = run("opcode,bin,format,cooldown\nfoo,00000,R,0\n", &["nop"]);
    match res {
        Err(AsmError::BadPrefix(t)) => assert_eq!(t, "00000"),
        other => panic!("expected a bad-prefix failure, got {:?}", other),
    }
}

#[test]
fn label_redefinition_last_binding_wins() {
    let out = run(&full_table(), &["Loop", "nop", "Loop", "jmp Loop"]).unwrap();
    // Both definitions are recorded; the later one (line 1) wins.
    assert_eq!(out[1], "1 00011000000000000000000000000001");
}

#[test]
fn empty_source_gives_empty_output() {
    let out = run(&full_table(), &[]).unwrap();
    assert!(out.is_empty());
}

#[test]
fn header_only_table_classifies_everything_lowercase_as_macro() {
    let res = run("opcode,bin,format,cooldown\n", &["nop"]);
    match res {
        Err(AsmError::UnknownMacro(m)) => assert_eq!(m, "nop"),
        other => panic!("expected an unknown-macro failure, got {:?}", other),
    }
}
