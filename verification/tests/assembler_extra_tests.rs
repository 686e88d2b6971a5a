use lib::assembler::{
    assemble, codegen, lex, parse, parse_balanced_ternary, parse_number, try_assemble,
    AssembleError, GenFailure, Line, LineKind, Operand, Token,
};
use lib::instruction::{decode, Instruction};
use lib::tryte::Tryte;
use lib::vm::VM;

fn t(v: i16) -> Tryte {
    Tryte::from_i16(v).unwrap()
}

fn codegen_err(src: &str) -> String {
    match assemble(src) {
        Err(AssembleError::Codegen(m)) => m,
        other => panic!("expected a codegen error, got {:?}", other),
    }
}

fn parse_err(src: &str) -> String {
    match assemble(src) {
        Err(AssembleError::Parse(m)) => m,
        other => panic!("expected a parse error, got {:?}", other),
    }
}

#[test]
fn asm_error_text_names_stage() {
    assert_eq!(AssembleError::Lex("x".to_string()).to_string(), "lex error: x");
    assert_eq!(AssembleError::Parse("y".to_string()).to_string(), "parse error: y");
    assert_eq!(AssembleError::Codegen("z".to_string()).to_string(), "codegen error: z");
}

#[test]
fn asm_lex_errors() {
    assert_eq!(lex("@"), Err(AssembleError::Lex("unexpected character '@'".to_string())));
    assert_eq!(lex(".\n"), Err(AssembleError::Lex("bare '.'".to_string())));
    assert_eq!(lex("\"abc"), Err(AssembleError::Lex("unterminated string literal".to_string())));
}

#[test]
fn asm_lex_string_escapes() {
    let tokens = lex("\"a\\nb\\t\\\\\"").unwrap();
    assert_eq!(tokens, vec![Token::StringLit("a\nb\t\\".to_string())]);
}

#[test]
fn asm_codegen_errors() {
    assert_eq!(codegen_err("FOO\n"), "unknown mnemonic 'FOO'");
    assert_eq!(codegen_err("ADD R0, R1\n"), "ADD requires 3 register operands, got 2");
    assert_eq!(codegen_err("ADD R0, R1, 5\n"), "expected register, got Imm(5)");
    assert_eq!(codegen_err("ADD R0, R1, x\n"), "expected register, got Label(\"x\")");
    assert_eq!(codegen_err("JMP nowhere\n"), "undefined label 'nowhere'");
    assert_eq!(codegen_err("LDI R0, R1\n"), "expected immediate, got register");
    assert_eq!(codegen_err("BZ R0, R1\n"), "expected offset, got register");
    assert_eq!(codegen_err("LDI R0\n"), "LDI requires reg, imm, got 1 operands");
    assert_eq!(codegen_err("HALT R0\n"), "HALT takes no operands, got 1");
    assert_eq!(codegen_err("loop: NOP\nloop: NOP\n"), "duplicate label 'loop'");
}

#[test]
fn asm_offset_and_immediate_out_of_range() {
    let mut far = String::from("JMP far\n");
    for _ in 0..200 {
        far.push_str("NOP\n");
    }
    far.push_str("far: HALT\n");
    assert_eq!(codegen_err(&far), "offset from 0 to 402 = 402 out of range (-364..364)");
    let mut imm = String::from("LDI R0, far\n");
    for _ in 0..200 {
        imm.push_str("NOP\n");
    }
    imm.push_str("far: HALT\n");
    assert_eq!(codegen_err(&imm), "immediate value 402 out of range");
}

#[test]
fn asm_parse_errors() {
    assert_eq!(parse_err(".data\nNOP\n"), "expected directive in .data section, got Ident(\"NOP\")");
    assert_eq!(parse_err(".data\n.foo\n"), "unknown data directive 'foo'");
    assert_eq!(parse_err(".data\n.word x\n"), "unresolved label 'x' in .word");
    assert_eq!(parse_err("ADD R0, .data\n"), "unexpected token Directive(\"data\") in instruction operands");
    assert_eq!(parse_err("5: NOP\n"), "label must be an identifier");
    assert_eq!(parse_err("a:\nb:\nNOP\n"), "consecutive labels: 'b' overwrites previous label");
    assert_eq!(parse_err("NOP\nend:\n"), "label 'end' at end of file without instruction or directive");
}

#[test]
fn asm_asciiz_as_last_token_cannot_be_assembled() {
    assert!(try_assemble(".data\n.asciiz").is_none());
    assert_eq!(try_assemble("HALT\n"), Some(Ok(vec![t(-297), t(0)])));
}

#[test]
fn asm_exact_binaries() {
    assert_eq!(assemble("HALT\n").unwrap(), vec![t(-297), t(0)]);
    assert_eq!(assemble(".data\n.asciiz \"Hi\"\n").unwrap(), vec![t(72), t(105), t(0)]);
    assert_eq!(assemble(".data\n.word 1, -2, 3\n").unwrap(), vec![t(1), t(-2), t(3)]);
    let b = assemble("start: JMP start\n").unwrap();
    assert_eq!(b, vec![t(-243), t(0)]);
    assert_eq!(decode(b[0], b[1]), Ok(Instruction::Jmp { offset: t(0) }));
}

#[test]
fn asm_labels_take_line_addresses() {
    // the string sits after three instructions, the word after its three trytes
    let b = assemble("LDI R0, s\nLDI R1, w\nHALT\n.data\ns: .asciiz \"ab\"\nw: .word 7\n").unwrap();
    assert_eq!(decode(b[0], b[1]), Ok(Instruction::Ldi { rd: lib::instruction::Reg(0), imm: t(6) }));
    assert_eq!(decode(b[2], b[3]), Ok(Instruction::Ldi { rd: lib::instruction::Reg(1), imm: t(9) }));
    assert_eq!(b[9], t(7));
}

#[test]
fn asm_codegen_on_lines() {
    let lines = vec![Line {
        label: None,
        kind: LineKind::Text { mnemonic: "NOP".to_string(), operands: vec![] },
    }];
    match codegen(&lines) {
        Ok(b) => assert_eq!(b, vec![t(0), t(0)]),
        Err(_) => panic!("NOP must assemble"),
    }
    let bad = vec![Line {
        label: None,
        kind: LineKind::Text { mnemonic: "JMP".to_string(), operands: vec![Operand::Imm(400)] },
    }];
    match codegen(&bad) {
        Err(GenFailure::Error(e)) => assert_eq!(e, AssembleError::Codegen("offset 400 out of range".to_string())),
        _ => panic!("offset 400 is out of range"),
    }
}

#[test]
fn asm_parse_multiline_operands_and_sections() {
    let lines = parse(&lex(".text\nNOP\n.data\n.word 5\n.text\nHALT\n").unwrap()).unwrap();
    assert_eq!(lines.len(), 3);
    assert!(matches!(lines[1].kind, LineKind::Word(_)));
}

#[test]
fn asm_number_literals() {
    assert_eq!(parse_number("0x10"), Some(16));
    assert_eq!(parse_number("0b-11"), Some(-3));
    assert_eq!(parse_number("365"), None);
    assert_eq!(parse_number("0tT"), Some(-1));
    assert_eq!(parse_number("abc"), None);
    assert_eq!(parse_balanced_ternary("1T0"), Some(6));
    assert_eq!(parse_balanced_ternary("1111111111"), None);
    assert_eq!(parse_balanced_ternary("111111"), Some(364));
    assert_eq!(parse_balanced_ternary("1111111"), None);
}

#[test]
fn asm_printed_ternary_is_a_literal() {
    for v in -364i16..=364 {
        let text = t(v).to_string();
        assert_eq!(parse_number(&format!("0t{}", text)), Some(v));
    }
}

#[test]
fn asm_program_prints_ternary() {
    let binary = assemble("LDI R0, 42\nLDI R1, 2\nSYSCALL R1\nHALT\n").unwrap();
    let mut vm = VM::new();
    for (i, x) in binary.iter().enumerate() {
        vm.memory[i] = *x;
    }
    vm.run();
    assert_eq!(vm.output, "1TTT0");
}

#[test]
fn asm_error_text_escapes_like_debug() {
    assert_eq!(
        parse_err("ADD R0, \"a\u{1}'b\u{301}\"\n"),
        "unexpected token StringLit(\"a\\u{1}'b\\u{301}\") in instruction operands"
    );
    assert_eq!(
        parse_err("ADD R0, \"tab\\there\"\n"),
        "unexpected token StringLit(\"tab\\there\") in instruction operands"
    );
    let tok = Token::StringLit("a\u{1}'b\u{301}\t\"".to_string());
    let m = parse_err("ADD R0, \"a\u{1}'b\u{301}\\t\\\"\"\n");
    assert_eq!(m, format!("unexpected token {:?} in instruction operands", tok));
}
