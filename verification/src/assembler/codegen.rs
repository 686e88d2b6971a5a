use super::parser::{LKind, Line, LineKind, LineV, Opnd, Operand, lines_view, opnds, regs_valid};
use super::token::quoted;
use super::{AsmError, AssembleError};
use crate::instruction::{Instruction, Reg, encode, encode_word, opcode};
use crate::trit::Trit;
use crate::text::{int_text, lit, push_int, push_str, str_eq};
use crate::tryte::{Tryte, in_tryte_range, trits_value};
use vstd::prelude::*;
use vstd::utf8::encode_utf8;

verus! {

broadcast use {crate::tryte::lemma_from_int_view, crate::tryte::lemma_from_view};

/// Why code generation stopped: an error with its message, or addresses past `i32::MAX`.
pub enum GenStop {
    Error(Seq<char>),
    AddressOverflow,
}

/// How many trytes a line takes: two per instruction, one per word, and the
/// UTF-8 bytes of a string plus its terminating zero.
pub open spec fn line_size(k: LKind) -> int {
    match k {
        LKind::Text { .. } => 2,
        LKind::Word(vs) => vs.len() as int,
        LKind::Asciiz(s) => encode_utf8(s).len() + 1int,
    }
}

/// The address of line `k`: the sizes of the lines before it.
pub open spec fn line_addr(lines: Seq<LineV>, k: int) -> int
    decreases k,
{
    if k <= 0 {
        0
    } else {
        line_addr(lines, k - 1) + line_size(lines[k - 1].kind)
    }
}

/// The symbol table built from line `k` on, with `syms` so far: each label maps
/// to the address of its line; a label seen twice is an error.
pub open spec fn symbols_from(lines: Seq<LineV>, k: int, syms: Map<Seq<char>, int>) -> Result<Map<Seq<char>, int>, GenStop>
    decreases lines.len() - k,
{
    if k < 0 || k >= lines.len() {
        Ok(syms)
    } else {
        let addr = line_addr(lines, k);
        let next = addr + line_size(lines[k].kind);
        match lines[k].label {
            Some(name) if syms.contains_key(name) => Err(
                GenStop::Error("duplicate label '"@ + name + "'"@),
            ),
            _ => if next > i32::MAX {
                Err(GenStop::AddressOverflow)
            } else {
                symbols_from(
                    lines,
                    k + 1,
                    match lines[k].label {
                        Some(name) => syms.insert(name, addr),
                        None => syms,
                    },
                )
            },
        }
    }
}

/// The debug spelling of an operand, as it appears in error messages.
pub open spec fn opnd_text(o: Opnd) -> Seq<char> {
    match o {
        Opnd::Reg(r) => "Reg("@ + int_text(r as int) + ")"@,
        Opnd::Imm(v) => "Imm("@ + int_text(v as int) + ")"@,
        Opnd::Label(s) => "Label("@ + quoted(s) + ")"@,
    }
}

/// A register operand.
pub open spec fn reg_op(o: Opnd) -> Result<Reg, Seq<char>> {
    match o {
        Opnd::Reg(r) => Ok(Reg(r)),
        _ => Err("expected register, got "@ + opnd_text(o)),
    }
}

/// An immediate operand: a number, or a label standing for its address
/// (cut to 16 bits); the value must fit in a tryte.
pub open spec fn imm_op(o: Opnd, syms: Map<Seq<char>, int>) -> Result<Tryte, Seq<char>> {
    let v = match o {
        Opnd::Imm(v) => Ok(v as int),
        Opnd::Label(name) => if syms.contains_key(name) {
            Ok((syms[name] as i16) as int)
        } else {
            Err("undefined label '"@ + name + "'"@)
        },
        Opnd::Reg(_) => Err("expected immediate, got register"@),
    };
    match v {
        Err(e) => Err(e),
        Ok(v) => if in_tryte_range(v) {
            Ok(Tryte::from_int(v))
        } else {
            Err("immediate value "@ + int_text(v) + " out of range"@)
        },
    }
}

/// An offset operand: a number, or a label's address relative to the
/// instruction's own address `addr` (cut to 16 bits); it must fit in a tryte.
pub open spec fn offset_op(o: Opnd, syms: Map<Seq<char>, int>, addr: int) -> Result<Tryte, Seq<char>> {
    match o {
        Opnd::Imm(v) => if in_tryte_range(v as int) {
            Ok(Tryte::from_int(v as int))
        } else {
            Err("offset "@ + int_text(v as int) + " out of range"@)
        },
        Opnd::Label(name) => if syms.contains_key(name) {
            let target = syms[name];
            let offset = target - addr;
            let cut = (offset as i16) as int;
            if in_tryte_range(cut) {
                Ok(Tryte::from_int(cut))
            } else {
                Err(
                    "offset from "@ + int_text(addr) + " to "@ + int_text(target) + " = "@
                        + int_text(offset) + " out of range (-364..364)"@,
                )
            }
        } else {
            Err("undefined label '"@ + name + "'"@)
        },
        Opnd::Reg(_) => Err("expected offset, got register"@),
    }
}

/// The three-register instruction for mnemonic `m`.
pub open spec fn r3_inst(m: Seq<char>, rd: Reg, rs: Reg, rt: Reg) -> Instruction {
    if m == "ADD"@ {
        Instruction::Add { rd, rs, rt }
    } else if m == "SUB"@ {
        Instruction::Sub { rd, rs, rt }
    } else if m == "MUL"@ {
        Instruction::Mul { rd, rs, rt }
    } else if m == "DIV"@ {
        Instruction::Div { rd, rs, rt }
    } else if m == "MOD"@ {
        Instruction::Modulo { rd, rs, rt }
    } else if m == "MAC"@ {
        Instruction::Mac { rd, rs, rt }
    } else {
        Instruction::Cmp { rd, rs, rt }
    }
}

/// The register-register-immediate instruction for mnemonic `m`.
pub open spec fn ri_inst(m: Seq<char>, rd: Reg, rs: Reg, imm: Tryte) -> Instruction {
    if m == "ADDI"@ {
        Instruction::AddI { rd, rs, imm }
    } else if m == "MULI"@ {
        Instruction::MulI { rd, rs, imm }
    } else if m == "LD"@ {
        Instruction::Ld { rd, rs, imm }
    } else {
        Instruction::St { rd, rs, imm }
    }
}

/// The branch instruction for mnemonic `m`.
pub open spec fn branch_inst(m: Seq<char>, rs: Reg, offset: Tryte) -> Instruction {
    if m == "BZ"@ {
        Instruction::Bz { rs, offset }
    } else if m == "BN"@ {
        Instruction::Bn { rs, offset }
    } else {
        Instruction::Bp { rs, offset }
    }
}

/// The message for a wrong operand count: mnemonic, `mid`, count, `tail`.
pub open spec fn count_msg(m: Seq<char>, mid: Seq<char>, n: int, tail: Seq<char>) -> Seq<char> {
    m + mid + int_text(n) + tail
}

/// The instruction a mnemonic with operands stands for at address `addr`.
pub open spec fn resolve(m: Seq<char>, ops: Seq<Opnd>, syms: Map<Seq<char>, int>, addr: int) -> Result<Instruction, Seq<char>> {
    let n = ops.len() as int;
    if m == "NOP"@ {
        Ok(Instruction::Nop)
    } else if m == "ADD"@ || m == "SUB"@ || m == "MUL"@ || m == "DIV"@ || m == "MOD"@ || m
        == "MAC"@ || m == "CMP"@ {
        if n != 3 {
            Err(count_msg(m, " requires 3 register operands, got "@, n, ""@))
        } else {
            match (reg_op(ops[0]), reg_op(ops[1]), reg_op(ops[2])) {
                (Err(e), _, _) => Err(e),
                (_, Err(e), _) => Err(e),
                (_, _, Err(e)) => Err(e),
                (Ok(rd), Ok(rs), Ok(rt)) => Ok(r3_inst(m, rd, rs, rt)),
            }
        }
    } else if m == "SGN"@ {
        if n != 2 {
            Err(count_msg("SGN"@, " requires 2 register operands, got "@, n, ""@))
        } else {
            match (reg_op(ops[0]), reg_op(ops[1])) {
                (Err(e), _) => Err(e),
                (_, Err(e)) => Err(e),
                (Ok(rd), Ok(rs)) => Ok(Instruction::Sgn { rd, rs }),
            }
        }
    } else if m == "ADDI"@ || m == "MULI"@ || m == "LD"@ || m == "ST"@ {
        if n != 3 {
            Err(count_msg(m, " requires reg, reg, imm, got "@, n, " operands"@))
        } else {
            match (reg_op(ops[0]), reg_op(ops[1])) {
                (Err(e), _) => Err(e),
                (_, Err(e)) => Err(e),
                (Ok(rd), Ok(rs)) => match imm_op(ops[2], syms) {
                    Err(e) => Err(e),
                    Ok(imm) => Ok(ri_inst(m, rd, rs, imm)),
                },
            }
        }
    } else if m == "LDI"@ {
        if n != 2 {
            Err(count_msg("LDI"@, " requires reg, imm, got "@, n, " operands"@))
        } else {
            match reg_op(ops[0]) {
                Err(e) => Err(e),
                Ok(rd) => match imm_op(ops[1], syms) {
                    Err(e) => Err(e),
                    Ok(imm) => Ok(Instruction::Ldi { rd, imm }),
                },
            }
        }
    } else if m == "JMP"@ || m == "CALL"@ {
        if n != 1 {
            Err(count_msg(m, " requires 1 operand, got "@, n, ""@))
        } else {
            match offset_op(ops[0], syms, addr) {
                Err(e) => Err(e),
                Ok(offset) => Ok(
                    if m == "JMP"@ {
                        Instruction::Jmp { offset }
                    } else {
                        Instruction::Call { offset }
                    },
                ),
            }
        }
    } else if m == "JMPR"@ || m == "SYSCALL"@ {
        if n != 1 {
            Err(count_msg(m, " requires 1 register operand, got "@, n, ""@))
        } else {
            match reg_op(ops[0]) {
                Err(e) => Err(e),
                Ok(rs) => Ok(
                    if m == "JMPR"@ {
                        Instruction::JmpR { rs }
                    } else {
                        Instruction::Syscall { rs }
                    },
                ),
            }
        }
    } else if m == "BZ"@ || m == "BN"@ || m == "BP"@ {
        if n != 2 {
            Err(count_msg(m, " requires reg, offset, got "@, n, " operands"@))
        } else {
            match reg_op(ops[0]) {
                Err(e) => Err(e),
                Ok(rs) => match offset_op(ops[1], syms, addr) {
                    Err(e) => Err(e),
                    Ok(offset) => Ok(branch_inst(m, rs, offset)),
                },
            }
        }
    } else if m == "RET"@ {
        if n != 0 {
            Err(count_msg("RET"@, " takes no operands, got "@, n, ""@))
        } else {
            Ok(Instruction::Ret)
        }
    } else if m == "HALT"@ {
        if n != 0 {
            Err(count_msg("HALT"@, " takes no operands, got "@, n, ""@))
        } else {
            Ok(Instruction::Halt)
        }
    } else {
        Err("unknown mnemonic '"@ + m + "'"@)
    }
}

/// The two trytes of an instruction, high one first.
pub open spec fn inst_trytes(inst: Instruction) -> Seq<Tryte> {
    let w = encode_word(inst);
    seq![
        Tryte::from_int(trits_value(w.subrange(6, 12))),
        Tryte::from_int(trits_value(w.subrange(0, 6))),
    ]
}

/// The trytes of a `.word` line; a value outside the tryte range is an error.
pub open spec fn word_trytes(vs: Seq<i16>) -> Result<Seq<Tryte>, Seq<char>>
    decreases vs.len(),
{
    if vs.len() == 0 {
        Ok(Seq::empty())
    } else if !in_tryte_range(vs[0] as int) {
        Err("word value "@ + int_text(vs[0] as int) + " out of range"@)
    } else {
        match word_trytes(vs.drop_first()) {
            Ok(rest) => Ok(seq![Tryte::from_int(vs[0] as int)] + rest),
            Err(e) => Err(e),
        }
    }
}

/// The trytes of an `.asciiz` line: its UTF-8 bytes, then a zero.
pub open spec fn asciiz_trytes(s: Seq<char>) -> Seq<Tryte> {
    encode_utf8(s).map_values(|b: u8| Tryte::from_int(b as int)).push(Tryte::from_int(0))
}

/// The trytes of line `l` placed at `addr`.
pub open spec fn line_trytes(l: LineV, syms: Map<Seq<char>, int>, addr: int) -> Result<Seq<Tryte>, Seq<char>> {
    match l.kind {
        LKind::Text { mnemonic, operands } => match resolve(mnemonic, operands, syms, addr) {
            Ok(inst) => Ok(inst_trytes(inst)),
            Err(e) => Err(e),
        },
        LKind::Word(vs) => word_trytes(vs),
        LKind::Asciiz(s) => Ok(asciiz_trytes(s)),
    }
}

/// The trytes of lines `k..`; the first error stops it.
pub open spec fn emit_from(lines: Seq<LineV>, k: int, syms: Map<Seq<char>, int>) -> Result<Seq<Tryte>, Seq<char>>
    decreases lines.len() - k,
{
    if k < 0 || k >= lines.len() {
        Ok(Seq::empty())
    } else {
        match line_trytes(lines[k], syms, line_addr(lines, k)) {
            Err(e) => Err(e),
            Ok(b) => match emit_from(lines, k + 1, syms) {
                Err(e) => Err(e),
                Ok(rest) => Ok(b + rest),
            },
        }
    }
}

/// The binary of a sequence of lines.
pub open spec fn spec_codegen(lines: Seq<LineV>) -> Result<Seq<Tryte>, GenStop> {
    match symbols_from(lines, 0, Map::empty()) {
        Err(e) => Err(e),
        Ok(syms) => match emit_from(lines, 0, syms) {
            Ok(b) => Ok(b),
            Err(m) => Err(GenStop::Error(m)),
        },
    }
}

} // verus!

verus! {

/// The map a list of (label, address) entries stands for; later entries win.
pub open spec fn syms_map(v: Seq<(String, i32)>) -> Map<Seq<char>, int>
    decreases v.len(),
{
    if v.len() == 0 {
        Map::empty()
    } else {
        syms_map(v.drop_last()).insert(v.last().0@, v.last().1 as int)
    }
}

/// The address of `name` in the table, if it has one.
fn lookup(syms: &Vec<(String, i32)>, name: &String) -> (r: Option<i32>)
    ensures
        syms_map(syms@).contains_key(name@) ==> (r matches Some(t) && t as int == syms_map(
            syms@,
        )[name@]),
        !syms_map(syms@).contains_key(name@) ==> r is None,
{
    let mut k = syms.len();
    proof {
        assert(syms@.subrange(0, syms.len() as int) =~= syms@);
    }
    while k > 0
        invariant
            k <= syms.len(),
            syms_map(syms@).contains_key(name@) <==> syms_map(syms@.subrange(0, k as int)).contains_key(name@),
            syms_map(syms@).contains_key(name@) ==> syms_map(syms@)[name@] == syms_map(syms@.subrange(0, k as int))[name@],
        decreases k,
    {
        let ghost pre = syms@.subrange(0, k as int);
        proof {
            assert(pre.drop_last() =~= syms@.subrange(0, k - 1));
        }
        if crate::text::str_eq(syms[k - 1].0.as_str(), name.as_str()) {
            return Some(syms[k - 1].1);
        }
        k = k - 1;
    }
    proof {
        assert(syms@.subrange(0, 0) =~= Seq::<(String, i32)>::empty());
    }
    None
}

/// Appends the debug spelling of an operand.
fn push_opnd_text(out: &mut String, o: &Operand)
    ensures
        final(out)@ == old(out)@ + opnd_text(o@),
{
    let ghost before = out@;
    match o {
        Operand::Reg(r) => {
            push_str(out, "Reg(");
            push_int(out, *r as i64);
            push_str(out, ")");
        },
        Operand::Imm(v) => {
            push_str(out, "Imm(");
            push_int(out, *v as i64);
            push_str(out, ")");
        },
        Operand::Label(s) => {
            push_str(out, "Label(");
            super::token::push_quoted(out, s);
            push_str(out, ")");
        },
    }
    proof {
        assert(out@ =~= before + opnd_text(o@));
    }
}

/// Reads a register operand.
fn reg_operand(op: &Operand) -> (r: Result<Reg, AssembleError>)
    ensures
        match reg_op(op@) {
            Ok(g) => r == Ok::<Reg, AssembleError>(g),
            Err(m) => r matches Err(e) && e@ == AsmError::Codegen(m),
        },
{
    match op {
        Operand::Reg(r) => Ok(Reg(*r)),
        _ => {
            let mut m = lit("expected register, got ");
            push_opnd_text(&mut m, op);
            Err(AssembleError::Codegen(m))
        },
    }
}

/// Reads an immediate operand; a label stands for its address.
fn imm_operand(op: &Operand, syms: &Vec<(String, i32)>, _addr: i32) -> (r: Result<Tryte, AssembleError>)
    ensures
        match imm_op(op@, syms_map(syms@)) {
            Ok(t) => r == Ok::<Tryte, AssembleError>(t),
            Err(m) => r matches Err(e) && e@ == AsmError::Codegen(m),
        },
{
    let val: i16 = match op {
        Operand::Imm(v) => *v,
        Operand::Label(name) => {
            match lookup(syms, name) {
                Some(target) => {
                    #[verifier::truncate]
                    let cut = target as i16;
                    cut
                },
                None => {
                    let mut m = lit("undefined label '");
                    push_str(&mut m, name.as_str());
                    push_str(&mut m, "'");
                    return Err(AssembleError::Codegen(m));
                },
            }
        },
        Operand::Reg(_) => {
            return Err(AssembleError::Codegen(lit("expected immediate, got register")));
        },
    };
    match Tryte::from_i16(val) {
        Some(t) => Ok(t),
        None => {
            let mut m = lit("immediate value ");
            push_int(&mut m, val as i64);
            push_str(&mut m, " out of range");
            Err(AssembleError::Codegen(m))
        },
    }
}

/// Reads an offset operand; a label stands for its distance from `addr`.
fn offset_operand(op: &Operand, syms: &Vec<(String, i32)>, addr: i32) -> (r: Result<Tryte, AssembleError>)
    requires
        0 <= addr,
        forall|k: int| 0 <= k < syms@.len() ==> 0 <= #[trigger] syms@[k].1,
    ensures
        match offset_op(op@, syms_map(syms@), addr as int) {
            Ok(t) => r == Ok::<Tryte, AssembleError>(t),
            Err(m) => r matches Err(e) && e@ == AsmError::Codegen(m),
        },
{
    let target = match op {
        Operand::Imm(v) => {
            return match Tryte::from_i16(*v) {
                Some(t) => Ok(t),
                None => {
                    let mut m = lit("offset ");
                    push_int(&mut m, *v as i64);
                    push_str(&mut m, " out of range");
                    Err(AssembleError::Codegen(m))
                },
            };
        },
        Operand::Label(name) => match lookup(syms, name) {
            Some(target) => target,
            None => {
                let mut m = lit("undefined label '");
                push_str(&mut m, name.as_str());
                push_str(&mut m, "'");
                return Err(AssembleError::Codegen(m));
            },
        },
        Operand::Reg(_) => {
            return Err(AssembleError::Codegen(lit("expected offset, got register")));
        },
    };
    proof {
        lemma_syms_nonneg(syms@);
    }
    let offset = target - addr;
    #[verifier::truncate]
    let cut = offset as i16;
    match Tryte::from_i16(cut) {
        Some(t) => Ok(t),
        None => {
            let mut m = lit("offset from ");
            push_int(&mut m, addr as i64);
            push_str(&mut m, " to ");
            push_int(&mut m, target as i64);
            push_str(&mut m, " = ");
            push_int(&mut m, offset as i64);
            push_str(&mut m, " out of range (-364..364)");
            Err(AssembleError::Codegen(m))
        },
    }
}

proof fn lemma_syms_nonneg(v: Seq<(String, i32)>)
    requires
        forall|k: int| 0 <= k < v.len() ==> 0 <= #[trigger] v[k].1,
    ensures
        forall|name: Seq<char>| #[trigger] syms_map(v).contains_key(name) ==> 0 <= syms_map(v)[name],
    decreases v.len(),
{
    if v.len() > 0 {
        let w = v.drop_last();
        assert forall|k: int| 0 <= k < w.len() implies 0 <= #[trigger] w[k].1 by {
            assert(w[k] == v[k]);
        }
        lemma_syms_nonneg(w);
        assert(0 <= v[v.len() - 1].1);
        assert forall|name: Seq<char>| #[trigger] syms_map(v).contains_key(name) implies 0 <= syms_map(v)[name] by {
            if name != v.last().0@ {
                assert(syms_map(w).contains_key(name));
            }
        }
    }
}

} // verus!

verus! {

fn count_error(m: &str, mid: &str, n: usize, tail: &str) -> (e: AssembleError)
    ensures
        e@ == AsmError::Codegen(count_msg(m@, mid@, n as int, tail@)),
{
    let mut s = lit(m);
    push_str(&mut s, mid);
    crate::text::push_nat(&mut s, n as u64);
    push_str(&mut s, tail);
    proof {
        assert(s@ =~= count_msg(m@, mid@, n as int, tail@));
    }
    AssembleError::Codegen(s)
}

/// Turns a mnemonic with its operands into an instruction placed at `addr`.
fn resolve_instruction(mnemonic: &String, operands: &Vec<Operand>, syms: &Vec<(String, i32)>, addr: i32) -> (r: Result<Instruction, AssembleError>)
    requires
        0 <= addr,
        forall|k: int| 0 <= k < syms@.len() ==> 0 <= #[trigger] syms@[k].1,
    ensures
        match resolve(mnemonic@, opnds(operands@), syms_map(syms@), addr as int) {
            Ok(inst) => r == Ok::<Instruction, AssembleError>(inst),
            Err(m) => r matches Err(e) && e@ == AsmError::Codegen(m),
        },
{
    proof {
        reveal_strlit("");
    }
    let m = mnemonic.as_str();
    let n = operands.len();
    let ghost ops = opnds(operands@);
    assert(ops.len() == n);
    if str_eq(m, "NOP") {
        Ok(Instruction::Nop)
    } else if str_eq(m, "ADD") || str_eq(m, "SUB") || str_eq(m, "MUL") || str_eq(m, "DIV") || str_eq(
        m,
        "MOD",
    ) || str_eq(m, "MAC") || str_eq(m, "CMP") {
        if n != 3 {
            return Err(count_error(m, " requires 3 register operands, got ", n, ""));
        }
        let rd = reg_operand(&operands[0])?;
        let rs = reg_operand(&operands[1])?;
        let rt = reg_operand(&operands[2])?;
        if str_eq(m, "ADD") {
            Ok(Instruction::Add { rd, rs, rt })
        } else if str_eq(m, "SUB") {
            Ok(Instruction::Sub { rd, rs, rt })
        } else if str_eq(m, "MUL") {
            Ok(Instruction::Mul { rd, rs, rt })
        } else if str_eq(m, "DIV") {
            Ok(Instruction::Div { rd, rs, rt })
        } else if str_eq(m, "MOD") {
            Ok(Instruction::Modulo { rd, rs, rt })
        } else if str_eq(m, "MAC") {
            Ok(Instruction::Mac { rd, rs, rt })
        } else {
            Ok(Instruction::Cmp { rd, rs, rt })
        }
    } else if str_eq(m, "SGN") {
        if n != 2 {
            return Err(count_error("SGN", " requires 2 register operands, got ", n, ""));
        }
        let rd = reg_operand(&operands[0])?;
        let rs = reg_operand(&operands[1])?;
        Ok(Instruction::Sgn { rd, rs })
    } else if str_eq(m, "ADDI") || str_eq(m, "MULI") || str_eq(m, "LD") || str_eq(m, "ST") {
        if n != 3 {
            return Err(count_error(m, " requires reg, reg, imm, got ", n, " operands"));
        }
        let rd = reg_operand(&operands[0])?;
        let rs = reg_operand(&operands[1])?;
        let imm = imm_operand(&operands[2], syms, addr)?;
        if str_eq(m, "ADDI") {
            Ok(Instruction::AddI { rd, rs, imm })
        } else if str_eq(m, "MULI") {
            Ok(Instruction::MulI { rd, rs, imm })
        } else if str_eq(m, "LD") {
            Ok(Instruction::Ld { rd, rs, imm })
        } else {
            Ok(Instruction::St { rd, rs, imm })
        }
    } else if str_eq(m, "LDI") {
        if n != 2 {
            return Err(count_error("LDI", " requires reg, imm, got ", n, " operands"));
        }
        let rd = reg_operand(&operands[0])?;
        let imm = imm_operand(&operands[1], syms, addr)?;
        Ok(Instruction::Ldi { rd, imm })
    } else if str_eq(m, "JMP") || str_eq(m, "CALL") {
        if n != 1 {
            return Err(count_error(m, " requires 1 operand, got ", n, ""));
        }
        let offset = offset_operand(&operands[0], syms, addr)?;
        if str_eq(m, "JMP") {
            Ok(Instruction::Jmp { offset })
        } else {
            Ok(Instruction::Call { offset })
        }
    } else if str_eq(m, "JMPR") || str_eq(m, "SYSCALL") {
        if n != 1 {
            return Err(count_error(m, " requires 1 register operand, got ", n, ""));
        }
        let rs = reg_operand(&operands[0])?;
        if str_eq(m, "JMPR") {
            Ok(Instruction::JmpR { rs })
        } else {
            Ok(Instruction::Syscall { rs })
        }
    } else if str_eq(m, "BZ") || str_eq(m, "BN") || str_eq(m, "BP") {
        if n != 2 {
            return Err(count_error(m, " requires reg, offset, got ", n, " operands"));
        }
        let rs = reg_operand(&operands[0])?;
        let offset = offset_operand(&operands[1], syms, addr)?;
        if str_eq(m, "BZ") {
            Ok(Instruction::Bz { rs, offset })
        } else if str_eq(m, "BN") {
            Ok(Instruction::Bn { rs, offset })
        } else {
            Ok(Instruction::Bp { rs, offset })
        }
    } else if str_eq(m, "RET") {
        if n != 0 {
            return Err(count_error("RET", " takes no operands, got ", n, ""));
        }
        Ok(Instruction::Ret)
    } else if str_eq(m, "HALT") {
        if n != 0 {
            return Err(count_error("HALT", " takes no operands, got ", n, ""));
        }
        Ok(Instruction::Halt)
    } else {
        let mut s = lit("unknown mnemonic '");
        push_str(&mut s, m);
        push_str(&mut s, "'");
        Err(AssembleError::Codegen(s))
    }
}

} // verus!

verus! {

/// Why code generation stopped: an error, or addresses past `i32::MAX`.
pub enum GenFailure {
    Error(AssembleError),
    AddressOverflow,
}

/// `p` in front of the trytes of a successful emission; errors pass through.
pub open spec fn prepend_bin(p: Seq<Tryte>, r: Result<Seq<Tryte>, Seq<char>>) -> Result<Seq<Tryte>, Seq<char>> {
    match r {
        Ok(x) => Ok(p + x),
        Err(e) => Err(e),
    }
}

/// An instruction resolved from operands that name existing registers names
/// only existing registers.
proof fn lemma_resolve_wf(m: Seq<char>, ops: Seq<Opnd>, syms: Map<Seq<char>, int>, addr: int)
    requires
        forall|j: int| 0 <= j < ops.len() ==> (#[trigger] ops[j] matches Opnd::Reg(r) ==> r < 8),
    ensures
        resolve(m, ops, syms, addr) matches Ok(inst) ==> inst.wf(),
{
    if ops.len() >= 1 {
        assert(ops[0] matches Opnd::Reg(r) ==> r < 8);
    }
    if ops.len() >= 2 {
        assert(ops[1] matches Opnd::Reg(r) ==> r < 8);
    }
    if ops.len() >= 3 {
        assert(ops[2] matches Opnd::Reg(r) ==> r < 8);
    }
}

/// The trytes of a `.word` line.
fn emit_words(binary: &mut Vec<Tryte>, vals: &Vec<i16>) -> (r: Result<(), AssembleError>)
    ensures
        match word_trytes(vals@) {
            Ok(b) => r is Ok && final(binary)@ == old(binary)@ + b,
            Err(m) => r matches Err(e) && e@ == AsmError::Codegen(m),
        },
{
    let ghost start = binary@;
    let mut i: usize = 0;
    proof {
        assert(vals@.skip(0) =~= vals@);
        assert(binary@.subrange(0, start.len() as int) =~= start);
        assert(binary@.subrange(start.len() as int, binary@.len() as int) =~= Seq::<Tryte>::empty());
        match word_trytes(vals@) {
            Ok(b) => assert(b =~= Seq::<Tryte>::empty() + b),
            Err(_) => {},
        }
    }
    while i < vals.len()
        invariant
            0 <= i <= vals.len(),
            binary@.len() >= start.len(),
            binary@.subrange(0, start.len() as int) == start,
            match word_trytes(vals@) {
                Ok(b) => word_trytes(vals@.skip(i as int)) matches Ok(rest) && b == binary@.subrange(start.len() as int, binary@.len() as int) + rest,
                Err(m) => word_trytes(vals@.skip(i as int)) == Err::<Seq<Tryte>, Seq<char>>(m),
            },
        decreases vals.len() - i,
    {
        let v = vals[i];
        proof {
            assert(vals@.skip(i as int).drop_first() =~= vals@.skip(i as int + 1));
        }
        match Tryte::from_i16(v) {
            Some(t) => {
                let ghost before = binary@;
                binary.push(t);
                proof {
                    assert(binary@.subrange(0, start.len() as int) =~= before.subrange(0, start.len() as int));
                    assert(binary@.subrange(start.len() as int, binary@.len() as int) =~= before.subrange(start.len() as int, before.len() as int).push(t));
                    match word_trytes(vals@) {
                        Ok(b) => {
                            let rest = word_trytes(vals@.skip(i as int + 1))->Ok_0;
                            assert(before.subrange(start.len() as int, before.len() as int) + (seq![t] + rest) =~= before.subrange(start.len() as int, before.len() as int).push(t) + rest);
                        },
                        Err(_) => {},
                    }
                }
            },
            None => {
                let mut m = lit("word value ");
                push_int(&mut m, v as i64);
                push_str(&mut m, " out of range");
                return Err(AssembleError::Codegen(m));
            },
        }
        i = i + 1;
    }
    proof {
        assert(vals@.skip(vals.len() as int) =~= Seq::<i16>::empty());
        match word_trytes(vals@) {
            Ok(b) => {
                assert(b =~= binary@.subrange(start.len() as int, binary@.len() as int));
                assert(binary@ =~= start + b);
            },
            Err(_) => {},
        }
    }
    Ok(())
}

/// The trytes of an `.asciiz` line: the string's UTF-8 bytes, then a zero.
fn emit_asciiz(binary: &mut Vec<Tryte>, s: &String)
    ensures
        final(binary)@ == old(binary)@ + asciiz_trytes(s@),
{
    let bytes = s.as_str().as_bytes();
    let ghost start = binary@;
    let ghost enc = encode_utf8(s@);
    let mut i: usize = 0;
    while i < bytes.len()
        invariant
            i <= bytes.len(),
            bytes@ == enc,
            binary@ == start + enc.subrange(0, i as int).map_values(|b: u8| Tryte::from_int(b as int)),
        decreases bytes.len() - i,
    {
        let b = bytes[i];
        if let Some(t) = Tryte::from_i16(b as i16) {
            binary.push(t);
        }
        proof {
            assert(enc.subrange(0, i + 1) =~= enc.subrange(0, i as int).push(b));
            assert(enc.subrange(0, i + 1).map_values(|b: u8| Tryte::from_int(b as int)) =~= enc.subrange(
                0,
                i as int,
            ).map_values(|b: u8| Tryte::from_int(b as int)).push(Tryte::from_int(b as int)));
        }
        i = i + 1;
    }
    let z = Tryte::zero();
    binary.push(z);
    proof {
        assert(enc.subrange(0, enc.len() as int) =~= enc);
        assert(binary@ =~= start + asciiz_trytes(s@));
    }
}

/// The number of trytes a line takes, or `None` where placing it at `addr`
/// would carry the next address past `i32::MAX`.
fn next_addr(kind: &LineKind, addr: i32) -> (r: Option<i32>)
    requires
        0 <= addr,
    ensures
        addr + line_size(kind@) > i32::MAX ==> r is None,
        addr + line_size(kind@) <= i32::MAX ==> r == Some((addr + line_size(kind@)) as i32),
{
    let room: usize = (i32::MAX - addr) as usize;
    let size: usize = match kind {
        LineKind::Text { .. } => 2,
        LineKind::Word(vals) => vals.len(),
        LineKind::Asciiz(s) => {
            let n = s.as_str().as_bytes().len();
            if n >= room {
                return None;
            }
            n + 1
        },
    };
    if size > room {
        None
    } else {
        Some(addr + size as i32)
    }
}

/// Generates the binary of parsed lines. A first pass gives each line its
/// address and each label the address of its line; a second emits the trytes.
pub fn codegen(lines: &[Line]) -> (r: Result<Vec<Tryte>, GenFailure>)
    requires
        regs_valid(lines_view(lines@)),
    ensures
        match spec_codegen(lines_view(lines@)) {
            Ok(b) => (r matches Ok(v) && v@ == b),
            Err(GenStop::Error(m)) => (r matches Err(GenFailure::Error(e)) && e@ == AsmError::Codegen(m)),
            Err(GenStop::AddressOverflow) => r matches Err(GenFailure::AddressOverflow),
        },
{
    let ghost lv = lines_view(lines@);
    let mut syms: Vec<(String, i32)> = Vec::new();
    let mut addrs: Vec<i32> = Vec::new();
    let mut addr: i32 = 0;
    let mut k: usize = 0;
    proof {
        assert(syms_map(syms@) =~= Map::<Seq<char>, int>::empty());
    }
    while k < lines.len()
        invariant
            k <= lines.len(),
            lv == lines_view(lines@),
            0 <= addr,
            addr as int == line_addr(lv, k as int),
            addrs@.len() == k,
            forall|j: int| 0 <= j < k ==> 0 <= #[trigger] addrs@[j] && addrs@[j] as int == line_addr(lv, j),
            forall|j: int| 0 <= j < syms@.len() ==> 0 <= #[trigger] syms@[j].1,
            symbols_from(lv, 0, Map::empty()) == symbols_from(lv, k as int, syms_map(syms@)),
        decreases lines.len() - k,
    {
        let line = &lines[k];
        let ghost lk = lv[k as int];
        assert(lk == line@);
        if let Some(label) = &line.label {
            if lookup(&syms, label).is_some() {
                let mut m = lit("duplicate label '");
                push_str(&mut m, label.as_str());
                push_str(&mut m, "'");
                proof {
                    reveal_strlit("duplicate label '");
                    reveal_strlit("'");
                }
                return Err(GenFailure::Error(AssembleError::Codegen(m)));
            }
        }
        let next = match next_addr(&line.kind, addr) {
            Some(n) => n,
            None => {
                return Err(GenFailure::AddressOverflow);
            },
        };
        let ghost before = syms@;
        if let Some(label) = &line.label {
            syms.push((label.clone(), addr));
            proof {
                assert(syms@.drop_last() =~= before);
            }
        }
        addrs.push(addr);
        addr = next;
        k = k + 1;
    }
    proof {
        assert(symbols_from(lv, k as int, syms_map(syms@)) == Ok::<Map<Seq<char>, int>, GenStop>(syms_map(syms@)));
    }
    let ghost sm = syms_map(syms@);
    let mut binary: Vec<Tryte> = Vec::new();
    let mut k: usize = 0;
    proof {
        assert(binary@ + Seq::<Tryte>::empty() =~= Seq::<Tryte>::empty());
        match emit_from(lv, 0, sm) {
            Ok(b) => assert(binary@ + b =~= b),
            Err(_) => {},
        }
    }
    while k < lines.len()
        invariant
            k <= lines.len(),
            lv == lines_view(lines@),
            addrs@.len() == lines.len(),
            forall|j: int| 0 <= j < lines.len() ==> 0 <= #[trigger] addrs@[j] && addrs@[j] as int == line_addr(lv, j),
            forall|j: int| 0 <= j < syms@.len() ==> 0 <= #[trigger] syms@[j].1,
            regs_valid(lv),
            sm == syms_map(syms@),
            symbols_from(lv, 0, Map::empty()) == Ok::<Map<Seq<char>, int>, GenStop>(sm),
            emit_from(lv, 0, sm) == prepend_bin(binary@, emit_from(lv, k as int, sm)),
        decreases lines.len() - k,
    {
        let line = &lines[k];
        let a = addrs[k];
        let ghost lk = lv[k as int];
        assert(lk == line@);
        let ghost before = binary@;
        match &line.kind {
            LineKind::Text { mnemonic, operands } => {
                proof {
                    let ops = opnds(operands@);
                    assert(lv[k as int].kind->Text_operands == ops);
                    lemma_resolve_wf(mnemonic@, ops, sm, a as int);
                }
                match resolve_instruction(mnemonic, operands, &syms, a) {
                    Ok(inst) => {
                        let (hi, lo) = encode(&inst);
                        binary.push(hi);
                        binary.push(lo);
                        proof {
                            assert(binary@ =~= before + inst_trytes(inst));
                        }
                    },
                    Err(e) => {
                        return Err(GenFailure::Error(e));
                    },
                }
            },
            LineKind::Word(vals) => {
                if let Err(e) = emit_words(&mut binary, vals) {
                    return Err(GenFailure::Error(e));
                }
            },
            LineKind::Asciiz(s) => {
                emit_asciiz(&mut binary, s);
            },
        }
        proof {
            match emit_from(lv, k + 1, sm) {
                Ok(rest) => {
                    let b = line_trytes(lk, sm, line_addr(lv, k as int))->Ok_0;
                    assert(before + (b + rest) =~= binary@ + rest);
                },
                Err(_) => {},
            }
        }
        k = k + 1;
    }
    proof {
        assert(binary@ + Seq::<Tryte>::empty() =~= binary@);
    }
    Ok(binary)
}

} // verus!

verus! {

/// The documented opcode a mnemonic names, as (format trit, opcode high trit,
/// opcode low trit); `None` for a word that is no mnemonic.
pub open spec fn mnemonic_opcode(m: Seq<char>) -> Option<(Trit, Trit, Trit)> {
    let (z, p, n) = (Trit::Zero, Trit::One, Trit::NegOne);
    if m == "NOP"@ {
        Some((z, z, z))
    } else if m == "ADD"@ {
        Some((z, z, p))
    } else if m == "SUB"@ {
        Some((z, z, n))
    } else if m == "MUL"@ {
        Some((z, p, z))
    } else if m == "DIV"@ {
        Some((z, p, n))
    } else if m == "MOD"@ {
        Some((z, p, p))
    } else if m == "MAC"@ {
        Some((z, n, z))
    } else if m == "CMP"@ {
        Some((z, n, n))
    } else if m == "SGN"@ {
        Some((z, n, p))
    } else if m == "LDI"@ {
        Some((p, z, z))
    } else if m == "ADDI"@ {
        Some((p, z, n))
    } else if m == "MULI"@ {
        Some((p, z, p))
    } else if m == "LD"@ {
        Some((p, p, z))
    } else if m == "ST"@ {
        Some((p, p, n))
    } else if m == "JMP"@ {
        Some((n, z, z))
    } else if m == "JMPR"@ {
        Some((n, z, n))
    } else if m == "BZ"@ {
        Some((n, z, p))
    } else if m == "BN"@ {
        Some((n, p, z))
    } else if m == "BP"@ {
        Some((n, p, n))
    } else if m == "CALL"@ {
        Some((n, p, p))
    } else if m == "RET"@ {
        Some((n, n, z))
    } else if m == "SYSCALL"@ {
        Some((n, n, n))
    } else if m == "HALT"@ {
        Some((n, n, p))
    } else {
        None
    }
}

/// The mnemonics are distinct words.
proof fn lemma_mnemonics_distinct()
    ensures
        "NOP"@ != "ADD"@,
        "NOP"@ != "SUB"@,
        "NOP"@ != "MUL"@,
        "NOP"@ != "DIV"@,
        "NOP"@ != "MOD"@,
        "NOP"@ != "MAC"@,
        "NOP"@ != "CMP"@,
        "NOP"@ != "SGN"@,
        "NOP"@ != "LDI"@,
        "NOP"@ != "JMP"@,
        "NOP"@ != "RET"@,
        "ADD"@ != "SUB"@,
        "ADD"@ != "MUL"@,
        "ADD"@ != "DIV"@,
        "ADD"@ != "MOD"@,
        "ADD"@ != "MAC"@,
        "ADD"@ != "CMP"@,
        "ADD"@ != "SGN"@,
        "ADD"@ != "LDI"@,
        "ADD"@ != "JMP"@,
        "ADD"@ != "RET"@,
        "SUB"@ != "MUL"@,
        "SUB"@ != "DIV"@,
        "SUB"@ != "MOD"@,
        "SUB"@ != "MAC"@,
        "SUB"@ != "CMP"@,
        "SUB"@ != "SGN"@,
        "SUB"@ != "LDI"@,
        "SUB"@ != "JMP"@,
        "SUB"@ != "RET"@,
        "MUL"@ != "DIV"@,
        "MUL"@ != "MOD"@,
        "MUL"@ != "MAC"@,
        "MUL"@ != "CMP"@,
        "MUL"@ != "SGN"@,
        "MUL"@ != "LDI"@,
        "MUL"@ != "JMP"@,
        "MUL"@ != "RET"@,
        "DIV"@ != "MOD"@,
        "DIV"@ != "MAC"@,
        "DIV"@ != "CMP"@,
        "DIV"@ != "SGN"@,
        "DIV"@ != "LDI"@,
        "DIV"@ != "JMP"@,
        "DIV"@ != "RET"@,
        "MOD"@ != "MAC"@,
        "MOD"@ != "CMP"@,
        "MOD"@ != "SGN"@,
        "MOD"@ != "LDI"@,
        "MOD"@ != "JMP"@,
        "MOD"@ != "RET"@,
        "MAC"@ != "CMP"@,
        "MAC"@ != "SGN"@,
        "MAC"@ != "LDI"@,
        "MAC"@ != "JMP"@,
        "MAC"@ != "RET"@,
        "CMP"@ != "SGN"@,
        "CMP"@ != "LDI"@,
        "CMP"@ != "JMP"@,
        "CMP"@ != "RET"@,
        "SGN"@ != "LDI"@,
        "SGN"@ != "JMP"@,
        "SGN"@ != "RET"@,
        "LDI"@ != "JMP"@,
        "LDI"@ != "RET"@,
        "ADDI"@ != "MULI"@,
        "ADDI"@ != "JMPR"@,
        "ADDI"@ != "CALL"@,
        "ADDI"@ != "HALT"@,
        "MULI"@ != "JMPR"@,
        "MULI"@ != "CALL"@,
        "MULI"@ != "HALT"@,
        "LD"@ != "ST"@,
        "LD"@ != "BZ"@,
        "LD"@ != "BN"@,
        "LD"@ != "BP"@,
        "ST"@ != "BZ"@,
        "ST"@ != "BN"@,
        "ST"@ != "BP"@,
        "JMP"@ != "RET"@,
        "JMPR"@ != "CALL"@,
        "JMPR"@ != "HALT"@,
        "BZ"@ != "BN"@,
        "BZ"@ != "BP"@,
        "BN"@ != "BP"@,
        "CALL"@ != "HALT"@,
{
    reveal_strlit("NOP");
    reveal_strlit("ADD");
    reveal_strlit("SUB");
    reveal_strlit("MUL");
    reveal_strlit("DIV");
    reveal_strlit("MOD");
    reveal_strlit("MAC");
    reveal_strlit("CMP");
    reveal_strlit("SGN");
    reveal_strlit("LDI");
    reveal_strlit("ADDI");
    reveal_strlit("MULI");
    reveal_strlit("LD");
    reveal_strlit("ST");
    reveal_strlit("JMP");
    reveal_strlit("JMPR");
    reveal_strlit("BZ");
    reveal_strlit("BN");
    reveal_strlit("BP");
    reveal_strlit("CALL");
    reveal_strlit("RET");
    reveal_strlit("SYSCALL");
    reveal_strlit("HALT");
    assert("NOP"@[0] != "ADD"@[0]);
    assert("NOP"@[0] != "SUB"@[0]);
    assert("NOP"@[0] != "MUL"@[0]);
    assert("NOP"@[0] != "DIV"@[0]);
    assert("NOP"@[0] != "MOD"@[0]);
    assert("NOP"@[0] != "MAC"@[0]);
    assert("NOP"@[0] != "CMP"@[0]);
    assert("NOP"@[0] != "SGN"@[0]);
    assert("NOP"@[0] != "LDI"@[0]);
    assert("NOP"@[0] != "JMP"@[0]);
    assert("NOP"@[0] != "RET"@[0]);
    assert("ADD"@[0] != "SUB"@[0]);
    assert("ADD"@[0] != "MUL"@[0]);
    assert("ADD"@[0] != "DIV"@[0]);
    assert("ADD"@[0] != "MOD"@[0]);
    assert("ADD"@[0] != "MAC"@[0]);
    assert("ADD"@[0] != "CMP"@[0]);
    assert("ADD"@[0] != "SGN"@[0]);
    assert("ADD"@[0] != "LDI"@[0]);
    assert("ADD"@[0] != "JMP"@[0]);
    assert("ADD"@[0] != "RET"@[0]);
    assert("SUB"@[0] != "MUL"@[0]);
    assert("SUB"@[0] != "DIV"@[0]);
    assert("SUB"@[0] != "MOD"@[0]);
    assert("SUB"@[0] != "MAC"@[0]);
    assert("SUB"@[0] != "CMP"@[0]);
    assert("SUB"@[1] != "SGN"@[1]);
    assert("SUB"@[0] != "LDI"@[0]);
    assert("SUB"@[0] != "JMP"@[0]);
    assert("SUB"@[0] != "RET"@[0]);
    assert("MUL"@[0] != "DIV"@[0]);
    assert("MUL"@[1] != "MOD"@[1]);
    assert("MUL"@[1] != "MAC"@[1]);
    assert("MUL"@[0] != "CMP"@[0]);
    assert("MUL"@[0] != "SGN"@[0]);
    assert("MUL"@[0] != "LDI"@[0]);
    assert("MUL"@[0] != "JMP"@[0]);
    assert("MUL"@[0] != "RET"@[0]);
    assert("DIV"@[0] != "MOD"@[0]);
    assert("DIV"@[0] != "MAC"@[0]);
    assert("DIV"@[0] != "CMP"@[0]);
    assert("DIV"@[0] != "SGN"@[0]);
    assert("DIV"@[0] != "LDI"@[0]);
    assert("DIV"@[0] != "JMP"@[0]);
    assert("DIV"@[0] != "RET"@[0]);
    assert("MOD"@[1] != "MAC"@[1]);
    assert("MOD"@[0] != "CMP"@[0]);
    assert("MOD"@[0] != "SGN"@[0]);
    assert("MOD"@[0] != "LDI"@[0]);
    assert("MOD"@[0] != "JMP"@[0]);
    assert("MOD"@[0] != "RET"@[0]);
    assert("MAC"@[0] != "CMP"@[0]);
    assert("MAC"@[0] != "SGN"@[0]);
    assert("MAC"@[0] != "LDI"@[0]);
    assert("MAC"@[0] != "JMP"@[0]);
    assert("MAC"@[0] != "RET"@[0]);
    assert("CMP"@[0] != "SGN"@[0]);
    assert("CMP"@[0] != "LDI"@[0]);
    assert("CMP"@[0] != "JMP"@[0]);
    assert("CMP"@[0] != "RET"@[0]);
    assert("SGN"@[0] != "LDI"@[0]);
    assert("SGN"@[0] != "JMP"@[0]);
    assert("SGN"@[0] != "RET"@[0]);
    assert("LDI"@[0] != "JMP"@[0]);
    assert("LDI"@[0] != "RET"@[0]);
    assert("ADDI"@[0] != "MULI"@[0]);
    assert("ADDI"@[0] != "JMPR"@[0]);
    assert("ADDI"@[0] != "CALL"@[0]);
    assert("ADDI"@[0] != "HALT"@[0]);
    assert("MULI"@[0] != "JMPR"@[0]);
    assert("MULI"@[0] != "CALL"@[0]);
    assert("MULI"@[0] != "HALT"@[0]);
    assert("LD"@[0] != "ST"@[0]);
    assert("LD"@[0] != "BZ"@[0]);
    assert("LD"@[0] != "BN"@[0]);
    assert("LD"@[0] != "BP"@[0]);
    assert("ST"@[0] != "BZ"@[0]);
    assert("ST"@[0] != "BN"@[0]);
    assert("ST"@[0] != "BP"@[0]);
    assert("JMP"@[0] != "RET"@[0]);
    assert("JMPR"@[0] != "CALL"@[0]);
    assert("JMPR"@[0] != "HALT"@[0]);
    assert("BZ"@[1] != "BN"@[1]);
    assert("BZ"@[1] != "BP"@[1]);
    assert("BN"@[1] != "BP"@[1]);
    assert("CALL"@[0] != "HALT"@[0]);
}

/// A mnemonic assembles to the instruction it names: whatever instruction
/// `resolve` makes carries the documented opcode of the mnemonic.
#[verifier::spinoff_prover]
pub proof fn lemma_resolve_opcode(m: Seq<char>, ops: Seq<Opnd>, syms: Map<Seq<char>, int>, addr: int)
    ensures
        resolve(m, ops, syms, addr) matches Ok(inst) ==> mnemonic_opcode(m) == Some(opcode(inst)),
{
    lemma_mnemonics_distinct();
    reveal_strlit("NOP");
    reveal_strlit("ADD");
    reveal_strlit("SUB");
    reveal_strlit("MUL");
    reveal_strlit("DIV");
    reveal_strlit("MOD");
    reveal_strlit("MAC");
    reveal_strlit("CMP");
    reveal_strlit("SGN");
    reveal_strlit("LDI");
    reveal_strlit("ADDI");
    reveal_strlit("MULI");
    reveal_strlit("LD");
    reveal_strlit("ST");
    reveal_strlit("JMP");
    reveal_strlit("JMPR");
    reveal_strlit("BZ");
    reveal_strlit("BN");
    reveal_strlit("BP");
    reveal_strlit("CALL");
    reveal_strlit("RET");
    reveal_strlit("SYSCALL");
    reveal_strlit("HALT");
    if m == "NOP"@ {
        assert(resolve(m, ops, syms, addr) matches Ok(inst) ==> inst is Nop);
        assert(resolve(m, ops, syms, addr) matches Ok(inst) ==> mnemonic_opcode(m) == Some(opcode(inst)));
    } else if m == "ADD"@ {
        assert(resolve(m, ops, syms, addr) matches Ok(inst) ==> inst is Add);
        assert(resolve(m, ops, syms, addr) matches Ok(inst) ==> mnemonic_opcode(m) == Some(opcode(inst)));
    } else if m == "SUB"@ {
        assert(resolve(m, ops, syms, addr) matches Ok(inst) ==> inst is Sub);
        assert(resolve(m, ops, syms, addr) matches Ok(inst) ==> mnemonic_opcode(m) == Some(opcode(inst)));
    } else if m == "MUL"@ {
        assert(resolve(m, ops, syms, addr) matches Ok(inst) ==> inst is Mul);
        assert(resolve(m, ops, syms, addr) matches Ok(inst) ==> mnemonic_opcode(m) == Some(opcode(inst)));
    } else if m == "DIV"@ {
        assert(resolve(m, ops, syms, addr) matches Ok(inst) ==> inst is Div);
        assert(resolve(m, ops, syms, addr) matches Ok(inst) ==> mnemonic_opcode(m) == Some(opcode(inst)));
    } else if m == "MOD"@ {
        assert(resolve(m, ops, syms, addr) matches Ok(inst) ==> inst is Modulo);
        assert(resolve(m, ops, syms, addr) matches Ok(inst) ==> mnemonic_opcode(m) == Some(opcode(inst)));
    } else if m == "MAC"@ {
        assert(resolve(m, ops, syms, addr) matches Ok(inst) ==> inst is Mac);
        assert(resolve(m, ops, syms, addr) matches Ok(inst) ==> mnemonic_opcode(m) == Some(opcode(inst)));
    } else if m == "CMP"@ {
        assert(resolve(m, ops, syms, addr) matches Ok(inst) ==> inst is Cmp);
        assert(resolve(m, ops, syms, addr) matches Ok(inst) ==> mnemonic_opcode(m) == Some(opcode(inst)));
    } else if m == "SGN"@ {
        assert(resolve(m, ops, syms, addr) matches Ok(inst) ==> inst is Sgn);
        assert(resolve(m, ops, syms, addr) matches Ok(inst) ==> mnemonic_opcode(m) == Some(opcode(inst)));
    } else if m == "LDI"@ {
        assert(resolve(m, ops, syms, addr) matches Ok(inst) ==> inst is Ldi);
        assert(resolve(m, ops, syms, addr) matches Ok(inst) ==> mnemonic_opcode(m) == Some(opcode(inst)));
    } else if m == "ADDI"@ {
        assert(resolve(m, ops, syms, addr) matches Ok(inst) ==> inst is AddI);
        assert(resolve(m, ops, syms, addr) matches Ok(inst) ==> mnemonic_opcode(m) == Some(opcode(inst)));
    } else if m == "MULI"@ {
        assert(resolve(m, ops, syms, addr) matches Ok(inst) ==> inst is MulI);
        assert(resolve(m, ops, syms, addr) matches Ok(inst) ==> mnemonic_opcode(m) == Some(opcode(inst)));
    } else if m == "LD"@ {
        assert(resolve(m, ops, syms, addr) matches Ok(inst) ==> inst is Ld);
        assert(resolve(m, ops, syms, addr) matches Ok(inst) ==> mnemonic_opcode(m) == Some(opcode(inst)));
    } else if m == "ST"@ {
        assert(resolve(m, ops, syms, addr) matches Ok(inst) ==> inst is St);
        assert(resolve(m, ops, syms, addr) matches Ok(inst) ==> mnemonic_opcode(m) == Some(opcode(inst)));
    } else if m == "JMP"@ {
        assert(resolve(m, ops, syms, addr) matches Ok(inst) ==> inst is Jmp);
        assert(resolve(m, ops, syms, addr) matches Ok(inst) ==> mnemonic_opcode(m) == Some(opcode(inst)));
    } else if m == "JMPR"@ {
        assert(resolve(m, ops, syms, addr) matches Ok(inst) ==> inst is JmpR);
        assert(resolve(m, ops, syms, addr) matches Ok(inst) ==> mnemonic_opcode(m) == Some(opcode(inst)));
    } else if m == "BZ"@ {
        assert(resolve(m, ops, syms, addr) matches Ok(inst) ==> inst is Bz);
        assert(resolve(m, ops, syms, addr) matches Ok(inst) ==> mnemonic_opcode(m) == Some(opcode(inst)));
    } else if m == "BN"@ {
        assert(resolve(m, ops, syms, addr) matches Ok(inst) ==> inst is Bn);
        assert(resolve(m, ops, syms, addr) matches Ok(inst) ==> mnemonic_opcode(m) == Some(opcode(inst)));
    } else if m == "BP"@ {
        assert(resolve(m, ops, syms, addr) matches Ok(inst) ==> inst is Bp);
        assert(resolve(m, ops, syms, addr) matches Ok(inst) ==> mnemonic_opcode(m) == Some(opcode(inst)));
    } else if m == "CALL"@ {
        assert(resolve(m, ops, syms, addr) matches Ok(inst) ==> inst is Call);
        assert(resolve(m, ops, syms, addr) matches Ok(inst) ==> mnemonic_opcode(m) == Some(opcode(inst)));
    } else if m == "RET"@ {
        assert(resolve(m, ops, syms, addr) matches Ok(inst) ==> inst is Ret);
        assert(resolve(m, ops, syms, addr) matches Ok(inst) ==> mnemonic_opcode(m) == Some(opcode(inst)));
    } else if m == "SYSCALL"@ {
        assert(resolve(m, ops, syms, addr) matches Ok(inst) ==> inst is Syscall);
        assert(resolve(m, ops, syms, addr) matches Ok(inst) ==> mnemonic_opcode(m) == Some(opcode(inst)));
    } else if m == "HALT"@ {
        assert(resolve(m, ops, syms, addr) matches Ok(inst) ==> inst is Halt);
        assert(resolve(m, ops, syms, addr) matches Ok(inst) ==> mnemonic_opcode(m) == Some(opcode(inst)));
    } else {
        assert(resolve(m, ops, syms, addr) is Err);
    }
}

/// A three-register mnemonic takes its operands in order as `rd`, `rs`, `rt`
/// and makes the instruction of the same name.
pub proof fn lemma_resolve_three_registers(m: Seq<char>, a: u8, b: u8, c: u8, syms: Map<Seq<char>, int>, addr: int)
    ensures
        ({
            let ops = seq![Opnd::Reg(a), Opnd::Reg(b), Opnd::Reg(c)];
            &&& m == "ADD"@ ==> (resolve(m, ops, syms, addr) == Ok::<Instruction, Seq<char>>(Instruction::Add { rd: Reg(a), rs: Reg(b), rt: Reg(c) }))
            &&& m == "SUB"@ ==> (resolve(m, ops, syms, addr) == Ok::<Instruction, Seq<char>>(Instruction::Sub { rd: Reg(a), rs: Reg(b), rt: Reg(c) }))
            &&& m == "MUL"@ ==> (resolve(m, ops, syms, addr) == Ok::<Instruction, Seq<char>>(Instruction::Mul { rd: Reg(a), rs: Reg(b), rt: Reg(c) }))
            &&& m == "DIV"@ ==> (resolve(m, ops, syms, addr) == Ok::<Instruction, Seq<char>>(Instruction::Div { rd: Reg(a), rs: Reg(b), rt: Reg(c) }))
            &&& m == "MOD"@ ==> (resolve(m, ops, syms, addr) == Ok::<Instruction, Seq<char>>(Instruction::Modulo { rd: Reg(a), rs: Reg(b), rt: Reg(c) }))
            &&& m == "MAC"@ ==> (resolve(m, ops, syms, addr) == Ok::<Instruction, Seq<char>>(Instruction::Mac { rd: Reg(a), rs: Reg(b), rt: Reg(c) }))
            &&& m == "CMP"@ ==> (resolve(m, ops, syms, addr) == Ok::<Instruction, Seq<char>>(Instruction::Cmp { rd: Reg(a), rs: Reg(b), rt: Reg(c) }))
        }),
{
    lemma_mnemonics_distinct();
    reveal_strlit("NOP");
    reveal_strlit("ADD");
    reveal_strlit("SUB");
    reveal_strlit("MUL");
    reveal_strlit("DIV");
    reveal_strlit("MOD");
    reveal_strlit("MAC");
    reveal_strlit("CMP");
    reveal_strlit("SGN");
    reveal_strlit("LDI");
    reveal_strlit("ADDI");
    reveal_strlit("MULI");
    reveal_strlit("LD");
    reveal_strlit("ST");
    reveal_strlit("JMP");
    reveal_strlit("JMPR");
    reveal_strlit("BZ");
    reveal_strlit("BN");
    reveal_strlit("BP");
    reveal_strlit("CALL");
    reveal_strlit("RET");
    reveal_strlit("SYSCALL");
    reveal_strlit("HALT");
    let ops = seq![Opnd::Reg(a), Opnd::Reg(b), Opnd::Reg(c)];
    assert(ops.len() == 3);
    assert(reg_op(ops[0]) == Ok::<Reg, Seq<char>>(Reg(a)));
    assert(reg_op(ops[1]) == Ok::<Reg, Seq<char>>(Reg(b)));
    assert(reg_op(ops[2]) == Ok::<Reg, Seq<char>>(Reg(c)));
    if m == "ADD"@ {
        assert(m != "NOP"@);
        assert(resolve(m, ops, syms, addr) == Ok::<Instruction, Seq<char>>(r3_inst(m, Reg(a), Reg(b), Reg(c))));
        assert(r3_inst(m, Reg(a), Reg(b), Reg(c)) == Instruction::Add { rd: Reg(a), rs: Reg(b), rt: Reg(c) });
    } else if m == "SUB"@ {
        assert(m != "NOP"@);
        assert(resolve(m, ops, syms, addr) == Ok::<Instruction, Seq<char>>(r3_inst(m, Reg(a), Reg(b), Reg(c))));
        assert(r3_inst(m, Reg(a), Reg(b), Reg(c)) == Instruction::Sub { rd: Reg(a), rs: Reg(b), rt: Reg(c) });
    } else if m == "MUL"@ {
        assert(m != "NOP"@);
        assert(resolve(m, ops, syms, addr) == Ok::<Instruction, Seq<char>>(r3_inst(m, Reg(a), Reg(b), Reg(c))));
        assert(r3_inst(m, Reg(a), Reg(b), Reg(c)) == Instruction::Mul { rd: Reg(a), rs: Reg(b), rt: Reg(c) });
    } else if m == "DIV"@ {
        assert(m != "NOP"@);
        assert(resolve(m, ops, syms, addr) == Ok::<Instruction, Seq<char>>(r3_inst(m, Reg(a), Reg(b), Reg(c))));
        assert(r3_inst(m, Reg(a), Reg(b), Reg(c)) == Instruction::Div { rd: Reg(a), rs: Reg(b), rt: Reg(c) });
    } else if m == "MOD"@ {
        assert(m != "NOP"@);
        assert(resolve(m, ops, syms, addr) == Ok::<Instruction, Seq<char>>(r3_inst(m, Reg(a), Reg(b), Reg(c))));
        assert(r3_inst(m, Reg(a), Reg(b), Reg(c)) == Instruction::Modulo { rd: Reg(a), rs: Reg(b), rt: Reg(c) });
    } else if m == "MAC"@ {
        assert(m != "NOP"@);
        assert(resolve(m, ops, syms, addr) == Ok::<Instruction, Seq<char>>(r3_inst(m, Reg(a), Reg(b), Reg(c))));
        assert(r3_inst(m, Reg(a), Reg(b), Reg(c)) == Instruction::Mac { rd: Reg(a), rs: Reg(b), rt: Reg(c) });
    } else if m == "CMP"@ {
        assert(m != "NOP"@);
        assert(resolve(m, ops, syms, addr) == Ok::<Instruction, Seq<char>>(r3_inst(m, Reg(a), Reg(b), Reg(c))));
        assert(r3_inst(m, Reg(a), Reg(b), Reg(c)) == Instruction::Cmp { rd: Reg(a), rs: Reg(b), rt: Reg(c) });
    }
}

} // verus!
