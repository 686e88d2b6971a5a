use lib::assembler::{assemble, lex, parse, parse_number, LineKind, Operand, Token};
use lib::tryte::Tryte;
use lib::vm::VM;

fn t(v: i16) -> Tryte {
    Tryte::from_i16(v).unwrap()
}

// ── Lexer tests ──

#[test]
fn test_lex_simple_instruction() {
    let tokens = lex("ADD R0, R1, R2\n").unwrap();
    assert_eq!(
        tokens,
        vec![
            Token::Ident("ADD".into()),
            Token::Register(0),
            Token::Comma,
            Token::Register(1),
            Token::Comma,
            Token::Register(2),
            Token::Newline,
        ]
    );
}

#[test]
fn test_lex_ldi_with_number() {
    let tokens = lex("LDI R0, 42\n").unwrap();
    assert_eq!(
        tokens,
        vec![
            Token::Ident("LDI".into()),
            Token::Register(0),
            Token::Comma,
            Token::Number(42),
            Token::Newline,
        ]
    );
}

#[test]
fn test_lex_ldi_with_neg_number() {
    let tokens = lex("LDI R0, -13\n").unwrap();
    assert_eq!(
        tokens,
        vec![
            Token::Ident("LDI".into()),
            Token::Register(0),
            Token::Comma,
            Token::Number(-13),
            Token::Newline,
        ]
    );
}

#[test]
fn test_lex_comment() {
    let tokens = lex("ADD R0, R1, R2 ; this is a comment\n").unwrap();
    assert_eq!(
        tokens,
        vec![
            Token::Ident("ADD".into()),
            Token::Register(0),
            Token::Comma,
            Token::Register(1),
            Token::Comma,
            Token::Register(2),
            Token::Newline,
        ]
    );
}

#[test]
fn test_lex_label() {
    let tokens = lex("loop:\n").unwrap();
    assert_eq!(
        tokens,
        vec![Token::Ident("loop".into()), Token::Colon, Token::Newline]
    );
}

#[test]
fn test_lex_directive() {
    let tokens = lex(".data\n").unwrap();
    assert_eq!(tokens, vec![Token::Directive("data".into()), Token::Newline]);
}

#[test]
fn test_lex_string_literal() {
    let tokens = lex(".asciiz \"Hello\"\n").unwrap();
    assert_eq!(
        tokens,
        vec![
            Token::Directive("asciiz".into()),
            Token::StringLit("Hello".into()),
            Token::Newline,
        ]
    );
}

#[test]
fn test_lex_balanced_ternary() {
    let tokens = lex("0t1T0\n").unwrap();
    assert_eq!(tokens, vec![Token::Number(6), Token::Newline]);
}

#[test]
fn test_lex_standalone_t() {
    let tokens = lex("T\n").unwrap();
    assert_eq!(tokens, vec![Token::Number(-1), Token::Newline]);
}

#[test]
fn test_lex_hex_number() {
    let tokens = lex("0xFF\n").unwrap();
    assert_eq!(tokens, vec![Token::Number(255), Token::Newline]);
}

#[test]
fn test_lex_binary_number() {
    let tokens = lex("0b1010\n").unwrap();
    assert_eq!(tokens, vec![Token::Number(10), Token::Newline]);
}

#[test]
fn test_lex_register_r0_to_r7() {
    let tokens = lex("R0 R1 R2 R3 R4 R5 R6 R7\n").unwrap();
    assert_eq!(tokens.len(), 9); // 8 regs + 1 newline
    for i in 0..8 {
        assert_eq!(tokens[i], Token::Register(i as u8));
    }
}

// ── Parser tests ──

#[test]
fn test_parse_add() {
    let lines = parse(&lex("ADD R0, R1, R2\n").unwrap()).unwrap();
    assert_eq!(lines.len(), 1);
    match &lines[0].kind {
        LineKind::Text { mnemonic, operands } => {
            assert_eq!(mnemonic, "ADD");
            assert_eq!(operands.len(), 3);
            assert_eq!(operands[0], Operand::Reg(0));
            assert_eq!(operands[1], Operand::Reg(1));
            assert_eq!(operands[2], Operand::Reg(2));
        }
        _ => panic!("expected text line"),
    }
}

#[test]
fn test_parse_label_and_instruction() {
    let src = "loop:\n  LDI R0, 42\n";
    let lines = parse(&lex(src).unwrap()).unwrap();
    assert_eq!(lines.len(), 1);
    // The bare label binds to the following LDI
    assert_eq!(lines[0].label.as_deref(), Some("loop"));
    match &lines[0].kind {
        LineKind::Text { mnemonic, operands } => {
            assert_eq!(mnemonic, "LDI");
            assert_eq!(operands, &[Operand::Reg(0), Operand::Imm(42)]);
        }
        _ => panic!("expected text line"),
    }
}

#[test]
fn test_parse_jmp_to_label() {
    let src = "JMP done\n";
    let lines = parse(&lex(src).unwrap()).unwrap();
    match &lines[0].kind {
        LineKind::Text { mnemonic, operands } => {
            assert_eq!(mnemonic, "JMP");
            assert_eq!(operands[0], Operand::Label("done".into()));
        }
        _ => panic!("expected text line"),
    }
}

#[test]
fn test_parse_data_section() {
    // bare label on its own line, then directive
    let src = ".data\nmsg:\n  .asciiz \"Hello\"\n";
    let lines = parse(&lex(src).unwrap()).unwrap();
    assert_eq!(lines.len(), 1);
    assert_eq!(lines[0].label.as_deref(), Some("msg"));
    match &lines[0].kind {
        LineKind::Asciiz(s) => assert_eq!(s, "Hello"),
        _ => panic!("expected Asciiz"),
    }
    // label on same line as directive
    let src2 = ".data\nmsg: .asciiz \"Hello\"\n";
    let lines2 = parse(&lex(src2).unwrap()).unwrap();
    assert_eq!(lines2.len(), 1);
    assert_eq!(lines2[0].label.as_deref(), Some("msg"));
    match &lines2[0].kind {
        LineKind::Asciiz(s) => assert_eq!(s, "Hello"),
        _ => panic!("expected Asciiz"),
    }
}

#[test]
fn test_parse_word() {
    let src = ".data\n.word 1, -2, 3\n";
    let lines = parse(&lex(src).unwrap()).unwrap();
    assert_eq!(lines.len(), 1);
    // The first line may not have label since `.data` doesn't set label
    match &lines[0].kind {
        LineKind::Word(vals) => {
            assert_eq!(vals, &[1, -2, 3]);
        }
        _ => panic!("expected Word"),
    }
}

// ── Codegen tests ──

#[test]
fn test_assemble_ldi() {
    let binary = assemble("LDI R0, 42\nLDI R1, -13\nHALT\n").unwrap();
    let mut vm = VM::new();
    for (i, t) in binary.iter().enumerate() {
        vm.memory[i] = *t;
    }
    vm.run();
    assert_eq!(vm.regs[0].to_i16(), 42);
    assert_eq!(vm.regs[1].to_i16(), -13);
}

#[test]
fn test_assemble_simple_program() {
    // Compute 3 + 4 * 2 = 11
    let src = "\
LDI R1, 3
LDI R2, 4
LDI R3, 2
MUL R0, R2, R3
ADD R0, R1, R0
HALT
";
    let binary = assemble(src).unwrap();
    let mut vm = VM::new();
    for (i, t) in binary.iter().enumerate() {
        vm.memory[i] = *t;
    }
    vm.run();
    assert_eq!(vm.regs[0].to_i16(), 11);
}

#[test]
fn test_assemble_with_label_jump() {
    let src = "\
LDI R0, 0
LDI R1, 1
JMP skip
LDI R0, 99
skip:
HALT
";
    let binary = assemble(src).unwrap();
    let mut vm = VM::new();
    for (i, t) in binary.iter().enumerate() {
        vm.memory[i] = *t;
    }
    vm.run();
    // R0 should be 0 (not 99), because JMP skipped the LDI R0, 99
    assert_eq!(vm.regs[0].to_i16(), 0);
    assert_eq!(vm.regs[1].to_i16(), 1);
}

#[test]
fn test_assemble_bz_branch() {
    let src = "\
LDI R0, 5
BZ R0, skip
LDI R0, 99
skip:
HALT
";
    let binary = assemble(src).unwrap();
    let mut vm = VM::new();
    for (i, t) in binary.iter().enumerate() {
        vm.memory[i] = *t;
    }
    vm.run();
    // R0 != 0, so BZ not taken, R0 should be 99
    assert_eq!(vm.regs[0].to_i16(), 99);
}

#[test]
fn test_assemble_bz_taken() {
    let src = "\
LDI R0, 0
BZ R0, skip
LDI R0, 99
skip:
HALT
";
    let binary = assemble(src).unwrap();
    let mut vm = VM::new();
    for (i, t) in binary.iter().enumerate() {
        vm.memory[i] = *t;
    }
    vm.run();
    // R0 == 0, so BZ is taken, R0 remains 0
    assert_eq!(vm.regs[0].to_i16(), 0);
}

#[test]
fn test_assemble_data_word() {
    let src = "\
.text
LDI R0, val
LD R1, R0, 0
HALT
.data
val: .word 42
";
    let binary = assemble(src).unwrap();
    let mut vm = VM::new();
    for (i, t) in binary.iter().enumerate() {
        vm.memory[i] = *t;
    }
    vm.run();
    assert_eq!(vm.regs[1].to_i16(), 42);
}

#[test]
fn test_assemble_asciiz() {
    let src = "\
.text
LDI R0, msg
SYSCALL R1
HALT
.data
msg: .asciiz \"Hi\"
";
    let binary = assemble(src).unwrap();
    let mut vm = VM::new();
    for (i, t) in binary.iter().enumerate() {
        vm.memory[i] = *t;
    }
    vm.regs[1] = t(7); // PRINT_S
    vm.run();
    assert_eq!(vm.output, "Hi");
}

// ── Fibonacci integration test ──

#[test]
fn test_assemble_fibonacci() {
    let src = "\
.text
  LDI R1, 0        ; a = 0
  LDI R2, 1        ; b = 1
  LDI R4, 5        ; counter = N
  LDI R5, 0        ; zero register
loop:
  BZ R4, done      ; if counter == 0 -> done
  ADD R3, R1, R2   ; tmp = a + b
  ADD R1, R2, R5   ; a = b
  ADD R2, R3, R5   ; b = tmp
  ADDI R4, R4, -1  ; counter--
  JMP loop
done:
  HALT
";
    let binary = assemble(src).unwrap();
    let mut vm = VM::new();
    for (i, t) in binary.iter().enumerate() {
        vm.memory[i] = *t;
    }
    vm.run();
    assert_eq!(vm.regs[1].to_i16(), 5); // fib(5) in R1
    assert_eq!(vm.regs[2].to_i16(), 8); // fib(6) in R2
    assert!(!vm.running);
}

// ── Error tests ──

#[test]
fn test_assemble_undefined_label() {
    let src = "JMP nowhere\nHALT\n";
    let result = assemble(src);
    assert!(result.is_err());
    assert!(result.unwrap_err().to_string().contains("undefined label"));
}

#[test]
fn test_assemble_duplicate_label() {
    let src = "loop: NOP\nloop: NOP\n";
    let result = assemble(src);
    assert!(result.is_err());
}

#[test]
fn test_lex_unterminated_string() {
    let result = lex(".asciiz \"unterminated\n");
    assert!(result.is_err());
}

#[test]
fn test_lex_bare_dot() {
    let result = lex(".\n");
    assert!(result.is_err());
}

// ── Regression: bare T = -1, 1T0 = 6, but pure digits stay decimal ──

#[test]
fn test_parse_number_t_is_neg_one() {
    // T alone should be -1 (balanced ternary)
    assert_eq!(parse_number("T"), Some(-1));
    assert_eq!(parse_number("t"), Some(-1));
}

#[test]
fn test_parse_number_ternary_string() {
    // 1T0 should be 6 (balanced ternary)
    assert_eq!(parse_number("1T0"), Some(6));
    assert_eq!(parse_number("0t1T0"), Some(6));
}

#[test]
fn test_parse_number_pure_digits_stay_decimal() {
    // 10 must be decimal 10, NOT balanced ternary (which would be 3)
    assert_eq!(parse_number("10"), Some(10));
    assert_eq!(parse_number("11"), Some(11));
    assert_eq!(parse_number("100"), Some(100));
}

#[test]
fn test_assemble_decimal_ten_not_ternary() {
    // LDI with 10 should load decimal 10, not ternary 3
    let binary = assemble("LDI R0, 10\nHALT\n").unwrap();
    let mut vm = VM::new();
    for (i, t) in binary.iter().enumerate() {
        vm.memory[i] = *t;
    }
    vm.run();
    assert_eq!(vm.regs[0].to_i16(), 10);
}

// ── Regression: consecutive bare labels ──

#[test]
fn test_consecutive_labels_error() {
    let result = assemble("start:\nloop:\n  NOP\n");
    assert!(result.is_err());
    assert!(result.unwrap_err().to_string().contains("consecutive labels"));
}

// ── Regression: HALT/RET with operands ──

#[test]
fn test_halt_with_operand_error() {
    let result = assemble("HALT R0\n");
    assert!(result.is_err());
}

#[test]
fn test_ret_with_operand_error() {
    let result = assemble("RET R1\n");
    assert!(result.is_err());
}

// ── Regression: label at end of file ──

#[test]
fn test_label_at_eof_error() {
    let result = assemble("LDI R0, 0\ndangling:\n");
    assert!(result.is_err());
    assert!(result.unwrap_err().to_string().contains("end of file"));
}

// ── CALL/RET with labels ──

#[test]
fn test_assemble_call_ret() {
    let src = "\
.text
  LDI R0, 5
  CALL square
  HALT
square:
  MUL R0, R0, R0
  RET
";
    let binary = assemble(src).unwrap();
    let mut vm = VM::new();
    for (i, t) in binary.iter().enumerate() {
        vm.memory[i] = *t;
    }
    vm.run();
    assert_eq!(vm.regs[0].to_i16(), 25);
}

#[test]
fn test_sgn_zero_prints_zero() {
    let src = "\
LDI R0, 0
SGN R0, R0
LDI R1, 3
SYSCALL R1
LDI R1, 1
SYSCALL R1
";
    let binary = assemble(src).unwrap();
    let mut vm = VM::new();
    for (i, t) in binary.iter().enumerate() {
        vm.memory[i] = *t;
    }
    vm.run();
    assert_eq!(vm.output, "0");
}

#[test]
fn test_store_load_addr_200() {
    let src = "\
LDI R5, 0
LDI R0, 42
LDI R6, 200
ST R0, R6, 0
LDI R6, 200
LD R0, R6, 0
LDI R1, 3
SYSCALL R1
LDI R1, 1
SYSCALL R1
";
    let binary = assemble(src).unwrap();
    let mut vm = VM::new();
    for (i, t) in binary.iter().enumerate() {
        vm.memory[i] = *t;
    }
    vm.run();
    assert_eq!(vm.output, "42");
    assert_eq!(vm.exit_code, 42);
}

#[test]
fn test_tnn_one_neuron_zero_input() {
    let src = "\
LDI R5, ly1_w00
LDI R1, 0
LDI R2, 0
LDI R3, 0
LDI R4, 0
LDI R0, 0
LD R6, R5, 0
MAC R0, R1, R6
ADDI R5, R5, 1
LD R6, R5, 0
MAC R0, R2, R6
ADDI R5, R5, 1
LD R6, R5, 0
MAC R0, R3, R6
ADDI R5, R5, 1
LD R6, R5, 0
MAC R0, R4, R6
ADDI R5, R5, 1
LD R6, R5, 0
ADD R0, R0, R6
LDI R1, 3
SYSCALL R1
LDI R0, 0
LDI R1, 1
SYSCALL R1
.data
ly1_w00: .word 1
ly1_w01: .word 0
ly1_w02: .word T
ly1_w03: .word 0
ly1_b0:  .word 0
";
    let binary = assemble(src).unwrap();
    let mut vm = VM::new();
    for (i, t) in binary.iter().enumerate() {
        vm.memory[i] = *t;
    }
    vm.run();
    assert_eq!(vm.output, "0");
}

#[test]
fn test_tnn_inference_all_positive() {
    // Input [1,1,T,T] -> output 1: the network of the TNN demo with its default input
    let src = "\
.text
LDI R1, 1
LDI R2, 1
LDI R3, T
LDI R4, T
LDI R5, ly1_w00
CALL fc_neuron
SGN R0, R0
LDI R6, 200
ST R0, R6, 0
LDI R5, ly1_w10
CALL fc_neuron
SGN R0, R0
LDI R6, 201
ST R0, R6, 0
LDI R5, ly1_w20
CALL fc_neuron
SGN R0, R0
LDI R6, 202
ST R0, R6, 0
LDI R5, ly1_w30
CALL fc_neuron
SGN R0, R0
LDI R6, 203
ST R0, R6, 0
LDI R6, 200
LD R1, R6, 0
LDI R6, 201
LD R2, R6, 0
LDI R6, 202
LD R3, R6, 0
LDI R6, 203
LD R4, R6, 0
LDI R5, ly2_w00
CALL fc_neuron
SGN R0, R0
LDI R1, 3
SYSCALL R1
LDI R0, 10
LDI R1, 4
SYSCALL R1
LDI R0, 0
LDI R1, 1
SYSCALL R1
fc_neuron:
LDI R0, 0
LD R6, R5, 0
MAC R0, R1, R6
ADDI R5, R5, 1
LD R6, R5, 0
MAC R0, R2, R6
ADDI R5, R5, 1
LD R6, R5, 0
MAC R0, R3, R6
ADDI R5, R5, 1
LD R6, R5, 0
MAC R0, R4, R6
ADDI R5, R5, 1
LD R6, R5, 0
ADD R0, R0, R6
RET
.data
ly1_w00: .word 1
ly1_w01: .word 0
ly1_w02: .word T
ly1_w03: .word 0
ly1_b0:  .word 0
ly1_w10: .word 0
ly1_w11: .word 1
ly1_w12: .word 0
ly1_w13: .word T
ly1_b1:  .word 0
ly1_w20: .word T
ly1_w21: .word 0
ly1_w22: .word 1
ly1_w23: .word 0
ly1_b2:  .word 0
ly1_w30: .word 0
ly1_w31: .word T
ly1_w32: .word 0
ly1_w33: .word 1
ly1_b3:  .word 0
ly2_w00: .word 1
ly2_w01: .word 1
ly2_w02: .word T
ly2_w03: .word T
ly2_b0:  .word 0
";

    let binary = assemble(src).unwrap();
    let mut vm = VM::new();
    for (i, t) in binary.iter().enumerate() {
        vm.memory[i] = *t;
    }
    vm.run();
    assert_eq!(vm.output, "1\n");
}

#[test]
fn test_tnn_all_ones() {
    // Input [1,1,1,1] → output 0
    let src = "\
.text
LDI R1, 1
LDI R2, 1
LDI R3, 1
LDI R4, 1
LDI R5, ly1_w00
CALL fc_neuron
SGN R0, R0
LDI R6, 200
ST R0, R6, 0
LDI R5, ly1_w10
CALL fc_neuron
SGN R0, R0
LDI R6, 201
ST R0, R6, 0
LDI R5, ly1_w20
CALL fc_neuron
SGN R0, R0
LDI R6, 202
ST R0, R6, 0
LDI R5, ly1_w30
CALL fc_neuron
SGN R0, R0
LDI R6, 203
ST R0, R6, 0
LDI R6, 200
LD R1, R6, 0
LDI R6, 201
LD R2, R6, 0
LDI R6, 202
LD R3, R6, 0
LDI R6, 203
LD R4, R6, 0
LDI R5, ly2_w00
CALL fc_neuron
SGN R0, R0
LDI R1, 3
SYSCALL R1
LDI R0, 10
LDI R1, 4
SYSCALL R1
LDI R0, 0
LDI R1, 1
SYSCALL R1
fc_neuron:
LDI R0, 0
LD R6, R5, 0
MAC R0, R1, R6
ADDI R5, R5, 1
LD R6, R5, 0
MAC R0, R2, R6
ADDI R5, R5, 1
LD R6, R5, 0
MAC R0, R3, R6
ADDI R5, R5, 1
LD R6, R5, 0
MAC R0, R4, R6
ADDI R5, R5, 1
LD R6, R5, 0
ADD R0, R0, R6
RET
.data
ly1_w00: .word 1
ly1_w01: .word 0
ly1_w02: .word T
ly1_w03: .word 0
ly1_b0:  .word 0
ly1_w10: .word 0
ly1_w11: .word 1
ly1_w12: .word 0
ly1_w13: .word T
ly1_b1:  .word 0
ly1_w20: .word T
ly1_w21: .word 0
ly1_w22: .word 1
ly1_w23: .word 0
ly1_b2:  .word 0
ly1_w30: .word 0
ly1_w31: .word T
ly1_w32: .word 0
ly1_w33: .word 1
ly1_b3:  .word 0
ly2_w00: .word 1
ly2_w01: .word 1
ly2_w02: .word T
ly2_w03: .word T
ly2_b0:  .word 0
";
    let binary = assemble(src).unwrap();
    let mut vm = VM::new();
    for (i, t) in binary.iter().enumerate() {
        vm.memory[i] = *t;
    }
    vm.run();
    assert_eq!(vm.output, "0\n");
}

#[test]
fn test_tnn_inference_all_zero() {
    // Input [0,0,0,0] → output 0
    let src = "\
.text
  LDI R1, 0
  LDI R2, 0
  LDI R3, 0
  LDI R4, 0
  LDI R5, ly1_w00
  CALL fc_neuron
  SGN R0, R0
  LDI R6, 200
  ST R0, R6, 0
  LDI R5, ly1_w10
  CALL fc_neuron
  SGN R0, R0
  LDI R6, 201
  ST R0, R6, 0
  LDI R5, ly1_w20
  CALL fc_neuron
  SGN R0, R0
  LDI R6, 202
  ST R0, R6, 0
  LDI R5, ly1_w30
  CALL fc_neuron
  SGN R0, R0
  LDI R6, 203
  ST R0, R6, 0
  LDI R6, 200
  LD R1, R6, 0
  LDI R6, 201
  LD R2, R6, 0
  LDI R6, 202
  LD R3, R6, 0
  LDI R6, 203
  LD R4, R6, 0
  LDI R5, ly2_w00
  CALL fc_neuron
  SGN R0, R0
  LDI R1, 3
  SYSCALL R1
  LDI R0, 10
  LDI R1, 4
  SYSCALL R1
  LDI R0, 0
  LDI R1, 1
  SYSCALL R1
fc_neuron:
  LDI R0, 0
  LD R6, R5, 0
  MAC R0, R1, R6
  ADDI R5, R5, 1
  LD R6, R5, 0
  MAC R0, R2, R6
  ADDI R5, R5, 1
  LD R6, R5, 0
  MAC R0, R3, R6
  ADDI R5, R5, 1
  LD R6, R5, 0
  MAC R0, R4, R6
  ADDI R5, R5, 1
  LD R6, R5, 0
  ADD R0, R0, R6
  RET
.data
ly1_w00: .word 1
ly1_w01: .word 0
ly1_w02: .word T
ly1_w03: .word 0
ly1_b0:  .word 0
ly1_w10: .word 0
ly1_w11: .word 1
ly1_w12: .word 0
ly1_w13: .word T
ly1_b1:  .word 0
ly1_w20: .word T
ly1_w21: .word 0
ly1_w22: .word 1
ly1_w23: .word 0
ly1_b2:  .word 0
ly1_w30: .word 0
ly1_w31: .word T
ly1_w32: .word 0
ly1_w33: .word 1
ly1_b3:  .word 0
ly2_w00: .word 1
ly2_w01: .word 1
ly2_w02: .word T
ly2_w03: .word T
ly2_b0:  .word 0
";
    let binary = assemble(src).unwrap();
    let mut vm = VM::new();
    for (i, t) in binary.iter().enumerate() {
        vm.memory[i] = *t;
    }
    vm.run();
    assert_eq!(vm.output, "0\n");
}
