use crate::trit::Trit;
use crate::tryte::{balanced_digits, trits_value, Tryte};
use vstd::prelude::*;

verus! {

broadcast use {crate::tryte::lemma_from_int_view, crate::tryte::lemma_from_view};

/// A register index; R0 to R7 are the registers that exist.
#[derive(Debug, Clone, Copy, PartialEq, Eq, Structural)]
pub struct Reg(pub u8);

/// Decoding errors.
#[derive(Debug, Clone, Copy, PartialEq, Eq, Structural)]
pub enum DecodeError {
    InvalidRegister,
    ReservedOpcode,
}

/// A machine instruction.
#[derive(Debug, Clone, Copy, PartialEq, Eq, Structural)]
pub enum Instruction {
    // Format R
    Nop,
    Add { rd: Reg, rs: Reg, rt: Reg },
    Sub { rd: Reg, rs: Reg, rt: Reg },
    Mul { rd: Reg, rs: Reg, rt: Reg },
    Div { rd: Reg, rs: Reg, rt: Reg },
    Modulo { rd: Reg, rs: Reg, rt: Reg },
    Mac { rd: Reg, rs: Reg, rt: Reg },
    Cmp { rd: Reg, rs: Reg, rt: Reg },
    Sgn { rd: Reg, rs: Reg },
    // Format I-a: two registers and a three-trit immediate
    AddI { rd: Reg, rs: Reg, imm: Tryte },
    MulI { rd: Reg, rs: Reg, imm: Tryte },
    Ld { rd: Reg, rs: Reg, imm: Tryte },
    St { rd: Reg, rs: Reg, imm: Tryte },
    // Format I-b: one register and a six-trit immediate
    Ldi { rd: Reg, imm: Tryte },
    // Format C
    Jmp { offset: Tryte },
    JmpR { rs: Reg },
    Bz { rs: Reg, offset: Tryte },
    Bn { rs: Reg, offset: Tryte },
    Bp { rs: Reg, offset: Tryte },
    Call { offset: Tryte },
    Ret,
    Syscall { rs: Reg },
    Halt,
}

/// The three-trit code of register `i`, least significant trit first.
pub open spec fn reg_trits(i: int) -> Seq<Trit> {
    if i == 0 {
        seq![Trit::Zero, Trit::Zero, Trit::Zero]
    } else if i == 1 {
        seq![Trit::One, Trit::Zero, Trit::Zero]
    } else if i == 2 {
        seq![Trit::NegOne, Trit::Zero, Trit::Zero]
    } else if i == 3 {
        seq![Trit::Zero, Trit::One, Trit::Zero]
    } else if i == 4 {
        seq![Trit::NegOne, Trit::One, Trit::Zero]
    } else if i == 5 {
        seq![Trit::One, Trit::One, Trit::Zero]
    } else if i == 6 {
        seq![Trit::Zero, Trit::NegOne, Trit::Zero]
    } else {
        seq![Trit::NegOne, Trit::NegOne, Trit::Zero]
    }
}

/// The register whose code is (a, b, c), if any.
pub open spec fn reg_of_trits(a: Trit, b: Trit, c: Trit) -> Option<Reg> {
    match (a, b, c) {
        (Trit::Zero, Trit::Zero, Trit::Zero) => Some(Reg(0)),
        (Trit::One, Trit::Zero, Trit::Zero) => Some(Reg(1)),
        (Trit::NegOne, Trit::Zero, Trit::Zero) => Some(Reg(2)),
        (Trit::Zero, Trit::One, Trit::Zero) => Some(Reg(3)),
        (Trit::NegOne, Trit::One, Trit::Zero) => Some(Reg(4)),
        (Trit::One, Trit::One, Trit::Zero) => Some(Reg(5)),
        (Trit::Zero, Trit::NegOne, Trit::Zero) => Some(Reg(6)),
        (Trit::NegOne, Trit::NegOne, Trit::Zero) => Some(Reg(7)),
        _ => None,
    }
}

impl Reg {
    /// Whether the register exists (R0 to R7).
    pub open spec fn valid(self) -> bool {
        self.0 < 8
    }

    /// Decodes a three-trit register field; codes of no register give `None`.
    pub fn from_raw(raw: [Trit; 3]) -> (r: Option<Reg>)
        ensures
            r == reg_of_trits(raw[0], raw[1], raw[2]),
            r matches Some(g) ==> g.valid() && reg_trits(g.0 as int) == raw@,
    {
        let r = match (raw[0], raw[1], raw[2]) {
            (Trit::Zero, Trit::Zero, Trit::Zero) => Some(Reg(0)),
            (Trit::One, Trit::Zero, Trit::Zero) => Some(Reg(1)),
            (Trit::NegOne, Trit::Zero, Trit::Zero) => Some(Reg(2)),
            (Trit::Zero, Trit::One, Trit::Zero) => Some(Reg(3)),
            (Trit::NegOne, Trit::One, Trit::Zero) => Some(Reg(4)),
            (Trit::One, Trit::One, Trit::Zero) => Some(Reg(5)),
            (Trit::Zero, Trit::NegOne, Trit::Zero) => Some(Reg(6)),
            (Trit::NegOne, Trit::NegOne, Trit::Zero) => Some(Reg(7)),
            _ => None,
        };
        proof {
            if let Some(g) = r {
                assert(reg_trits(g.0 as int) =~= raw@);
            }
        }
        r
    }

    /// The three-trit code of the register.
    pub fn to_raw(self) -> (r: [Trit; 3])
        requires
            self.valid(),
        ensures
            r@ == reg_trits(self.0 as int),
    {
        let r = match self.0 {
            0 => [Trit::Zero, Trit::Zero, Trit::Zero],
            1 => [Trit::One, Trit::Zero, Trit::Zero],
            2 => [Trit::NegOne, Trit::Zero, Trit::Zero],
            3 => [Trit::Zero, Trit::One, Trit::Zero],
            4 => [Trit::NegOne, Trit::One, Trit::Zero],
            5 => [Trit::One, Trit::One, Trit::Zero],
            6 => [Trit::Zero, Trit::NegOne, Trit::Zero],
            _ => [Trit::NegOne, Trit::NegOne, Trit::Zero],
        };
        proof {
            assert(r@ =~= reg_trits(self.0 as int));
        }
        r
    }

    /// The register number.
    pub fn idx(self) -> (r: u8)
        ensures
            r == self.0,
    {
        self.0
    }
}

/// Decoding the code of an existing register gives it back.
pub proof fn lemma_reg_roundtrip(g: Reg)
    requires
        g.valid(),
    ensures
        reg_of_trits(reg_trits(g.0 as int)[0], reg_trits(g.0 as int)[1], reg_trits(g.0 as int)[2])
            == Some(g),
{
}

} // verus!

verus! {

/// Three zero trits.
pub open spec fn zeros3() -> Seq<Trit> {
    seq![Trit::Zero, Trit::Zero, Trit::Zero]
}

/// The six digits of a tryte, least significant first.
pub open spec fn digits(t: Tryte) -> Seq<Trit> {
    balanced_digits(t@, 6)
}

/// A twelve-trit word from its fields, least significant first:
/// trits 0..3, 3..6, 6..9, then the two opcode trits and the format trit.
pub open spec fn word(low: Seq<Trit>, mid: Seq<Trit>, high: Seq<Trit>, op1: Trit, op2: Trit, fmt: Trit) -> Seq<Trit> {
    low + mid + high + seq![op1, op2, fmt]
}

/// Format R: `| 0 | op | rd | rs | rt |`.
pub open spec fn word_r(op2: Trit, op1: Trit, rd: Reg, rs: Reg, rt: Reg) -> Seq<Trit> {
    word(reg_trits(rt.0 as int), reg_trits(rs.0 as int), reg_trits(rd.0 as int), op1, op2, Trit::Zero)
}

/// Format I-a: `| 1 | op | rd | rs | imm (three low trits) |`.
pub open spec fn word_ia(op2: Trit, op1: Trit, rd: Reg, rs: Reg, imm: Tryte) -> Seq<Trit> {
    word(digits(imm).subrange(0, 3), reg_trits(rs.0 as int), reg_trits(rd.0 as int), op1, op2, Trit::One)
}

/// Format I-b: `| 1 | op | rd | imm (six trits) |`.
pub open spec fn word_ib(op2: Trit, op1: Trit, rd: Reg, imm: Tryte) -> Seq<Trit> {
    word(digits(imm).subrange(0, 3), digits(imm).subrange(3, 6), reg_trits(rd.0 as int), op1, op2, Trit::One)
}

/// Format C with a register and an offset.
pub open spec fn word_c_reg_offset(op2: Trit, op1: Trit, rs: Reg, offset: Tryte) -> Seq<Trit> {
    word(digits(offset).subrange(0, 3), digits(offset).subrange(3, 6), reg_trits(rs.0 as int), op1, op2, Trit::NegOne)
}

/// Format C with an offset only.
pub open spec fn word_c_offset(op2: Trit, op1: Trit, offset: Tryte) -> Seq<Trit> {
    word(digits(offset).subrange(0, 3), digits(offset).subrange(3, 6), zeros3(), op1, op2, Trit::NegOne)
}

/// Format C with a register only.
pub open spec fn word_c_reg(op2: Trit, op1: Trit, rs: Reg) -> Seq<Trit> {
    word(zeros3(), zeros3(), reg_trits(rs.0 as int), op1, op2, Trit::NegOne)
}

/// The twelve-trit word of an instruction.
pub open spec fn encode_word(inst: Instruction) -> Seq<Trit> {
    let (z, p, n) = (Trit::Zero, Trit::One, Trit::NegOne);
    match inst {
        Instruction::Nop => word(zeros3(), zeros3(), zeros3(), z, z, z),
        Instruction::Add { rd, rs, rt } => word_r(z, p, rd, rs, rt),
        Instruction::Sub { rd, rs, rt } => word_r(z, n, rd, rs, rt),
        Instruction::Mul { rd, rs, rt } => word_r(p, z, rd, rs, rt),
        Instruction::Div { rd, rs, rt } => word_r(p, n, rd, rs, rt),
        Instruction::Modulo { rd, rs, rt } => word_r(p, p, rd, rs, rt),
        Instruction::Mac { rd, rs, rt } => word_r(n, z, rd, rs, rt),
        Instruction::Cmp { rd, rs, rt } => word_r(n, n, rd, rs, rt),
        Instruction::Sgn { rd, rs } => word_r(n, p, rd, rs, Reg(0)),
        Instruction::AddI { rd, rs, imm } => word_ia(z, n, rd, rs, imm),
        Instruction::MulI { rd, rs, imm } => word_ia(z, p, rd, rs, imm),
        Instruction::Ld { rd, rs, imm } => word_ia(p, z, rd, rs, imm),
        Instruction::St { rd, rs, imm } => word_ia(p, n, rd, rs, imm),
        Instruction::Ldi { rd, imm } => word_ib(z, z, rd, imm),
        Instruction::Jmp { offset } => word_c_offset(z, z, offset),
        Instruction::JmpR { rs } => word_c_reg(z, n, rs),
        Instruction::Bz { rs, offset } => word_c_reg_offset(z, p, rs, offset),
        Instruction::Bn { rs, offset } => word_c_reg_offset(p, z, rs, offset),
        Instruction::Bp { rs, offset } => word_c_reg_offset(p, n, rs, offset),
        Instruction::Call { offset } => word_c_offset(p, p, offset),
        Instruction::Ret => word(zeros3(), zeros3(), zeros3(), z, n, n),
        Instruction::Syscall { rs } => word_c_reg(n, n, rs),
        Instruction::Halt => word(zeros3(), zeros3(), zeros3(), p, n, n),
    }
}

impl Instruction {
    /// Every register the instruction names exists.
    pub open spec fn wf(self) -> bool {
        match self {
            Instruction::Add { rd, rs, rt } | Instruction::Sub { rd, rs, rt } | Instruction::Mul {
                rd,
                rs,
                rt,
            } | Instruction::Div { rd, rs, rt } | Instruction::Modulo { rd, rs, rt }
            | Instruction::Mac { rd, rs, rt } | Instruction::Cmp { rd, rs, rt } => rd.valid()
                && rs.valid() && rt.valid(),
            Instruction::Sgn { rd, rs } => rd.valid() && rs.valid(),
            Instruction::AddI { rd, rs, .. } | Instruction::MulI { rd, rs, .. } | Instruction::Ld {
                rd,
                rs,
                ..
            } | Instruction::St { rd, rs, .. } => rd.valid() && rs.valid(),
            Instruction::Ldi { rd, .. } => rd.valid(),
            Instruction::JmpR { rs } | Instruction::Bz { rs, .. } | Instruction::Bn { rs, .. }
            | Instruction::Bp { rs, .. } | Instruction::Syscall { rs } => rs.valid(),
            _ => true,
        }
    }

    /// The instruction survives encoding: its registers exist and an I-a
    /// immediate fits in three trits (-13..=13).
    pub open spec fn encodable(self) -> bool {
        &&& self.wf()
        &&& match self {
            Instruction::AddI { imm, .. } | Instruction::MulI { imm, .. } | Instruction::Ld {
                imm,
                ..
            } | Instruction::St { imm, .. } => -13 <= imm@ <= 13,
            _ => true,
        }
    }
}

/// The register in the three trits at `start`, or `InvalidRegister`.
pub open spec fn reg_field(ts: Seq<Trit>, start: int) -> Result<Reg, DecodeError> {
    match reg_of_trits(ts[start], ts[start + 1], ts[start + 2]) {
        Some(g) => Ok(g),
        None => Err(DecodeError::InvalidRegister),
    }
}

/// The immediate held by the `n` low trits.
pub open spec fn imm_field(ts: Seq<Trit>, n: int) -> Tryte {
    Tryte::from_int(trits_value(ts.subrange(0, n)))
}

/// Format R decoding: all three register fields must be valid.
pub open spec fn decode_r(ts: Seq<Trit>) -> Result<Instruction, DecodeError> {
    match (reg_field(ts, 6), reg_field(ts, 3), reg_field(ts, 0)) {
        (Ok(rd), Ok(rs), Ok(rt)) => Ok(
            match (ts[10], ts[9]) {
                (Trit::Zero, Trit::Zero) => Instruction::Nop,
                (Trit::Zero, Trit::One) => Instruction::Add { rd, rs, rt },
                (Trit::Zero, Trit::NegOne) => Instruction::Sub { rd, rs, rt },
                (Trit::One, Trit::Zero) => Instruction::Mul { rd, rs, rt },
                (Trit::One, Trit::NegOne) => Instruction::Div { rd, rs, rt },
                (Trit::One, Trit::One) => Instruction::Modulo { rd, rs, rt },
                (Trit::NegOne, Trit::Zero) => Instruction::Mac { rd, rs, rt },
                (Trit::NegOne, Trit::NegOne) => Instruction::Cmp { rd, rs, rt },
                (Trit::NegOne, Trit::One) => Instruction::Sgn { rd, rs },
            },
        ),
        (Err(e), _, _) => Err(e),
        (_, Err(e), _) => Err(e),
        (_, _, Err(e)) => Err(e),
    }
}

/// Format I decoding: rd first, then the opcode; I-a opcodes read rs.
pub open spec fn decode_i(ts: Seq<Trit>) -> Result<Instruction, DecodeError> {
    match reg_field(ts, 6) {
        Err(e) => Err(e),
        Ok(rd) => match (ts[10], ts[9]) {
            (Trit::Zero, Trit::Zero) => Ok(Instruction::Ldi { rd, imm: imm_field(ts, 6) }),
            (Trit::Zero, Trit::NegOne) | (Trit::Zero, Trit::One) | (Trit::One, Trit::Zero) | (
                Trit::One,
                Trit::NegOne,
            ) => match reg_field(ts, 3) {
                Err(e) => Err(e),
                Ok(rs) => {
                    let imm = imm_field(ts, 3);
                    Ok(
                        match (ts[10], ts[9]) {
                            (Trit::Zero, Trit::NegOne) => Instruction::AddI { rd, rs, imm },
                            (Trit::Zero, Trit::One) => Instruction::MulI { rd, rs, imm },
                            (Trit::One, Trit::Zero) => Instruction::Ld { rd, rs, imm },
                            _ => Instruction::St { rd, rs, imm },
                        },
                    )
                },
            },
            _ => Err(DecodeError::ReservedOpcode),
        },
    }
}

/// Format C decoding.
pub open spec fn decode_c(ts: Seq<Trit>) -> Result<Instruction, DecodeError> {
    let offset = imm_field(ts, 6);
    match (ts[10], ts[9]) {
        (Trit::Zero, Trit::Zero) => Ok(Instruction::Jmp { offset }),
        (Trit::One, Trit::One) => Ok(Instruction::Call { offset }),
        (Trit::NegOne, Trit::Zero) => Ok(Instruction::Ret),
        (Trit::NegOne, Trit::One) => Ok(Instruction::Halt),
        (op2, op1) => match reg_field(ts, 6) {
            Err(e) => Err(e),
            Ok(rs) => Ok(
                match (op2, op1) {
                    (Trit::Zero, Trit::NegOne) => Instruction::JmpR { rs },
                    (Trit::Zero, Trit::One) => Instruction::Bz { rs, offset },
                    (Trit::One, Trit::Zero) => Instruction::Bn { rs, offset },
                    (Trit::One, Trit::NegOne) => Instruction::Bp { rs, offset },
                    _ => Instruction::Syscall { rs },
                },
            ),
        },
    }
}

/// Decoding of a twelve-trit word; the top trit picks the format.
pub open spec fn decode_word(ts: Seq<Trit>) -> Result<Instruction, DecodeError> {
    match ts[11] {
        Trit::Zero => decode_r(ts),
        Trit::One => decode_i(ts),
        Trit::NegOne => decode_c(ts),
    }
}

/// The word held by a (high, low) pair of trytes.
pub open spec fn pair_word(hi: Tryte, lo: Tryte) -> Seq<Trit> {
    digits(lo) + digits(hi)
}

/// The register in trits `start..start + 3` of `ts`.
fn extract_reg(ts: &[Trit; 12], start: usize) -> (r: Option<Reg>)
    requires
        start + 3 <= 12,
    ensures
        r == reg_of_trits(ts@[start as int], ts@[start + 1], ts@[start + 2]),
{
    let raw = [ts[start], ts[start + 1], ts[start + 2]];
    Reg::from_raw(raw)
}

/// Writes the code of `reg` into trits `start..start + 3`.
fn write_reg(ts: &mut [Trit; 12], reg: Reg, start: usize)
    requires
        start + 3 <= 12,
        reg.valid(),
    ensures
        final(ts)@ == old(ts)@.subrange(0, start as int) + reg_trits(reg.0 as int) + old(
            ts,
        )@.subrange(start + 3, 12),
{
    let raw = reg.to_raw();
    ts[start] = raw[0];
    ts[start + 1] = raw[1];
    ts[start + 2] = raw[2];
    proof {
        assert(ts@ =~= old(ts)@.subrange(0, start as int) + reg_trits(reg.0 as int) + old(
            ts,
        )@.subrange(start + 3, 12));
    }
}

/// The tryte whose low `n` trits are the first `n` of `ts` and whose other trits are zero.
fn imm_from_trits(ts: &[Trit; 12], n: usize) -> (r: Tryte)
    requires
        n <= 6,
    ensures
        r == Tryte::from_int(trits_value(ts@.subrange(0, n as int))),
{
    let mut extended: [Trit; 6] = [Trit::Zero; 6];
    let mut i: usize = 0;
    while i < n
        invariant
            0 <= i <= n <= 6,
            forall|j: int| 0 <= j < i ==> extended@[j] == ts@[j],
            forall|j: int| n <= j < 6 ==> extended@[j] == Trit::Zero,
        decreases n - i,
    {
        extended[i] = ts[i];
        i = i + 1;
    }
    proof {
        crate::tryte::lemma_trits_value_zero_tail(extended@, n as int);
        assert(extended@.subrange(0, n as int) =~= ts@.subrange(0, n as int));
    }
    Tryte::from_trits(extended)
}

} // verus!

verus! {

/// Decodes the instruction held by two trytes, high one first.
pub fn decode(hi: Tryte, lo: Tryte) -> (r: Result<Instruction, DecodeError>)
    ensures
        r == decode_word(pair_word(hi, lo)),
        r matches Ok(inst) ==> inst.wf(),
{
    let hi_ts = hi.to_trits();
    let lo_ts = lo.to_trits();
    let mut ts: [Trit; 12] = [Trit::Zero; 12];
    let mut i: usize = 0;
    while i < 6
        invariant
            0 <= i <= 6,
            hi_ts@ == digits(hi),
            lo_ts@ == digits(lo),
            hi_ts@.len() == 6,
            lo_ts@.len() == 6,
            forall|j: int| 0 <= j < i ==> ts@[j] == lo_ts@[j] && ts@[j + 6] == hi_ts@[j],
        decreases 6 - i,
    {
        ts[i] = lo_ts[i];
        ts[i + 6] = hi_ts[i];
        i = i + 1;
    }
    proof {
        assert(ts@ =~= pair_word(hi, lo));
    }
    let fmt = ts[11];
    match fmt {
        Trit::Zero => decode_format_r(&ts),
        Trit::One => decode_format_i(&ts),
        Trit::NegOne => decode_format_c(&ts),
    }
}

fn decode_format_r(ts: &[Trit; 12]) -> (r: Result<Instruction, DecodeError>)
    ensures
        r == decode_r(ts@),
        r matches Ok(inst) ==> inst.wf(),
{
    let op_t2 = ts[10];
    let op_t1 = ts[9];
    let rd = match extract_reg(ts, 6) {
        Some(g) => g,
        None => return Err(DecodeError::InvalidRegister),
    };
    let rs = match extract_reg(ts, 3) {
        Some(g) => g,
        None => return Err(DecodeError::InvalidRegister),
    };
    let rt = match extract_reg(ts, 0) {
        Some(g) => g,
        None => return Err(DecodeError::InvalidRegister),
    };
    match (op_t2, op_t1) {
        (Trit::Zero, Trit::Zero) => Ok(Instruction::Nop),
        (Trit::Zero, Trit::One) => Ok(Instruction::Add { rd, rs, rt }),
        (Trit::Zero, Trit::NegOne) => Ok(Instruction::Sub { rd, rs, rt }),
        (Trit::One, Trit::Zero) => Ok(Instruction::Mul { rd, rs, rt }),
        (Trit::One, Trit::NegOne) => Ok(Instruction::Div { rd, rs, rt }),
        (Trit::One, Trit::One) => Ok(Instruction::Modulo { rd, rs, rt }),
        (Trit::NegOne, Trit::Zero) => Ok(Instruction::Mac { rd, rs, rt }),
        (Trit::NegOne, Trit::NegOne) => Ok(Instruction::Cmp { rd, rs, rt }),
        (Trit::NegOne, Trit::One) => Ok(Instruction::Sgn { rd, rs }),
    }
}

fn decode_format_i(ts: &[Trit; 12]) -> (r: Result<Instruction, DecodeError>)
    ensures
        r == decode_i(ts@),
        r matches Ok(inst) ==> inst.wf(),
{
    let op_t2 = ts[10];
    let op_t1 = ts[9];
    let rd = match extract_reg(ts, 6) {
        Some(g) => g,
        None => return Err(DecodeError::InvalidRegister),
    };
    match (op_t2, op_t1) {
        (Trit::Zero, Trit::Zero) => {
            let imm = imm_from_trits(ts, 6);
            Ok(Instruction::Ldi { rd, imm })
        },
        (Trit::Zero, Trit::NegOne) => {
            let rs = match extract_reg(ts, 3) {
                Some(g) => g,
                None => return Err(DecodeError::InvalidRegister),
            };
            let imm = imm_from_trits(ts, 3);
            Ok(Instruction::AddI { rd, rs, imm })
        },
        (Trit::Zero, Trit::One) => {
            let rs = match extract_reg(ts, 3) {
                Some(g) => g,
                None => return Err(DecodeError::InvalidRegister),
            };
            let imm = imm_from_trits(ts, 3);
            Ok(Instruction::MulI { rd, rs, imm })
        },
        (Trit::One, Trit::Zero) => {
            let rs = match extract_reg(ts, 3) {
                Some(g) => g,
                None => return Err(DecodeError::InvalidRegister),
            };
            let imm = imm_from_trits(ts, 3);
            Ok(Instruction::Ld { rd, rs, imm })
        },
        (Trit::One, Trit::NegOne) => {
            let rs = match extract_reg(ts, 3) {
                Some(g) => g,
                None => return Err(DecodeError::InvalidRegister),
            };
            let imm = imm_from_trits(ts, 3);
            Ok(Instruction::St { rd, rs, imm })
        },
        // I-b opcode 11 and the T opcodes are reserved.
        _ => Err(DecodeError::ReservedOpcode),
    }
}

fn decode_format_c(ts: &[Trit; 12]) -> (r: Result<Instruction, DecodeError>)
    ensures
        r == decode_c(ts@),
        r matches Ok(inst) ==> inst.wf(),
{
    let op_t2 = ts[10];
    let op_t1 = ts[9];
    match (op_t2, op_t1) {
        (Trit::Zero, Trit::Zero) => {
            let offset = imm_from_trits(ts, 6);
            Ok(Instruction::Jmp { offset })
        },
        (Trit::Zero, Trit::NegOne) => {
            let rs = match extract_reg(ts, 6) {
                Some(g) => g,
                None => return Err(DecodeError::InvalidRegister),
            };
            Ok(Instruction::JmpR { rs })
        },
        (Trit::Zero, Trit::One) => {
            let rs = match extract_reg(ts, 6) {
                Some(g) => g,
                None => return Err(DecodeError::InvalidRegister),
            };
            let offset = imm_from_trits(ts, 6);
            Ok(Instruction::Bz { rs, offset })
        },
        (Trit::One, Trit::Zero) => {
            let rs = match extract_reg(ts, 6) {
                Some(g) => g,
                None => return Err(DecodeError::InvalidRegister),
            };
            let offset = imm_from_trits(ts, 6);
            Ok(Instruction::Bn { rs, offset })
        },
        (Trit::One, Trit::NegOne) => {
            let rs = match extract_reg(ts, 6) {
                Some(g) => g,
                None => return Err(DecodeError::InvalidRegister),
            };
            let offset = imm_from_trits(ts, 6);
            Ok(Instruction::Bp { rs, offset })
        },
        (Trit::One, Trit::One) => {
            let offset = imm_from_trits(ts, 6);
            Ok(Instruction::Call { offset })
        },
        (Trit::NegOne, Trit::Zero) => Ok(Instruction::Ret),
        (Trit::NegOne, Trit::NegOne) => {
            let rs = match extract_reg(ts, 6) {
                Some(g) => g,
                None => return Err(DecodeError::InvalidRegister),
            };
            Ok(Instruction::Syscall { rs })
        },
        (Trit::NegOne, Trit::One) => Ok(Instruction::Halt),
    }
}

} // verus!

verus! {

/// Format R: `| 0 | op 2t | rd 3t | rs 3t | rt 3t |`.
fn format_r(op_t2: Trit, op_t1: Trit, rd: &Reg, rs: &Reg, rt: &Reg) -> (ts: [Trit; 12])
    requires
        rd.valid(),
        rs.valid(),
        rt.valid(),
    ensures
        ts@ == word_r(op_t2, op_t1, *rd, *rs, *rt),
{
    let mut ts: [Trit; 12] = [Trit::Zero; 12];
    ts[11] = Trit::Zero;
    ts[10] = op_t2;
    ts[9] = op_t1;
    write_reg(&mut ts, *rd, 6);
    write_reg(&mut ts, *rs, 3);
    write_reg(&mut ts, *rt, 0);
    proof {
        assert(ts@ =~= word_r(op_t2, op_t1, *rd, *rs, *rt));
    }
    ts
}

/// Format I-a: `| 1 | op 2t | rd 3t | rs 3t | imm 3t |`; only the three low trits
/// of the immediate are kept.
fn format_ia(op_t2: Trit, op_t1: Trit, rd: &Reg, rs: &Reg, imm: &Tryte) -> (ts: [Trit; 12])
    requires
        rd.valid(),
        rs.valid(),
    ensures
        ts@ == word_ia(op_t2, op_t1, *rd, *rs, *imm),
{
    let imm_trits = imm.to_trits();
    let mut ts: [Trit; 12] = [Trit::Zero; 12];
    ts[11] = Trit::One;
    ts[10] = op_t2;
    ts[9] = op_t1;
    write_reg(&mut ts, *rd, 6);
    write_reg(&mut ts, *rs, 3);
    ts[2] = imm_trits[2];
    ts[1] = imm_trits[1];
    ts[0] = imm_trits[0];
    proof {
        assert(ts@ =~= word_ia(op_t2, op_t1, *rd, *rs, *imm));
    }
    ts
}

/// Format I-b: `| 1 | op 2t | rd 3t | imm 6t |`.
fn format_ib(op_t2: Trit, op_t1: Trit, rd: &Reg, imm: &Tryte) -> (ts: [Trit; 12])
    requires
        rd.valid(),
    ensures
        ts@ == word_ib(op_t2, op_t1, *rd, *imm),
{
    let imm_trits = imm.to_trits();
    let mut ts: [Trit; 12] = [Trit::Zero; 12];
    ts[11] = Trit::One;
    ts[10] = op_t2;
    ts[9] = op_t1;
    write_reg(&mut ts, *rd, 6);
    let mut i: usize = 0;
    while i < 6
        invariant
            0 <= i <= 6,
            imm_trits@ == digits(*imm),
            imm_trits@.len() == 6,
            forall|j: int| 0 <= j < i ==> ts@[j] == imm_trits@[j],
            forall|j: int| 6 <= j < 9 ==> ts@[j] == reg_trits(rd.0 as int)[j - 6],
            ts@[9] == op_t1,
            ts@[10] == op_t2,
            ts@[11] == Trit::One,
        decreases 6 - i,
    {
        ts[i] = imm_trits[i];
        i = i + 1;
    }
    proof {
        assert(ts@ =~= word_ib(op_t2, op_t1, *rd, *imm));
    }
    ts
}

/// Format C with a register and an offset: `| T | op 2t | rs 3t | offset 6t |`.
fn format_c_reg_offset(op_t2: Trit, op_t1: Trit, rs: &Reg, offset: &Tryte) -> (ts: [Trit; 12])
    requires
        rs.valid(),
    ensures
        ts@ == word_c_reg_offset(op_t2, op_t1, *rs, *offset),
{
    let off_ts = offset.to_trits();
    let mut ts: [Trit; 12] = [Trit::Zero; 12];
    ts[11] = Trit::NegOne;
    ts[10] = op_t2;
    ts[9] = op_t1;
    write_reg(&mut ts, *rs, 6);
    let mut i: usize = 0;
    while i < 6
        invariant
            0 <= i <= 6,
            off_ts@ == digits(*offset),
            off_ts@.len() == 6,
            forall|j: int| 0 <= j < i ==> ts@[j] == off_ts@[j],
            forall|j: int| 6 <= j < 9 ==> ts@[j] == reg_trits(rs.0 as int)[j - 6],
            ts@[9] == op_t1,
            ts@[10] == op_t2,
            ts@[11] == Trit::NegOne,
        decreases 6 - i,
    {
        ts[i] = off_ts[i];
        i = i + 1;
    }
    proof {
        assert(ts@ =~= word_c_reg_offset(op_t2, op_t1, *rs, *offset));
    }
    ts
}

/// Format C with an offset and no register: `| T | op 2t | 000 | offset 6t |`.
fn format_c_offset(op_t2: Trit, op_t1: Trit, offset: &Tryte) -> (ts: [Trit; 12])
    ensures
        ts@ == word_c_offset(op_t2, op_t1, *offset),
{
    let off_ts = offset.to_trits();
    let mut ts: [Trit; 12] = [Trit::Zero; 12];
    ts[11] = Trit::NegOne;
    ts[10] = op_t2;
    ts[9] = op_t1;
    let mut i: usize = 0;
    while i < 6
        invariant
            0 <= i <= 6,
            off_ts@ == digits(*offset),
            off_ts@.len() == 6,
            forall|j: int| 0 <= j < i ==> ts@[j] == off_ts@[j],
            forall|j: int| 6 <= j < 9 ==> ts@[j] == Trit::Zero,
            ts@[9] == op_t1,
            ts@[10] == op_t2,
            ts@[11] == Trit::NegOne,
        decreases 6 - i,
    {
        ts[i] = off_ts[i];
        i = i + 1;
    }
    proof {
        assert(ts@ =~= word_c_offset(op_t2, op_t1, *offset));
    }
    ts
}

/// Format C with a register and no offset: `| T | op 2t | rs 3t | 000000 |`.
fn format_c_reg(op_t2: Trit, op_t1: Trit, rs: &Reg) -> (ts: [Trit; 12])
    requires
        rs.valid(),
    ensures
        ts@ == word_c_reg(op_t2, op_t1, *rs),
{
    let mut ts: [Trit; 12] = [Trit::Zero; 12];
    ts[11] = Trit::NegOne;
    ts[10] = op_t2;
    ts[9] = op_t1;
    write_reg(&mut ts, *rs, 6);
    proof {
        assert(ts@ =~= word_c_reg(op_t2, op_t1, *rs));
    }
    ts
}

/// Encodes an instruction as two trytes, high one first.
pub fn encode(inst: &Instruction) -> (r: (Tryte, Tryte))
    requires
        inst.wf(),
    ensures
        r.0 == Tryte::from_int(trits_value(encode_word(*inst).subrange(6, 12))),
        r.1 == Tryte::from_int(trits_value(encode_word(*inst).subrange(0, 6))),
{
    let (z, p, n) = (Trit::Zero, Trit::One, Trit::NegOne);
    let ts = match inst {
        Instruction::Nop => [Trit::Zero; 12],
        Instruction::Add { rd, rs, rt } => format_r(z, p, rd, rs, rt),
        Instruction::Sub { rd, rs, rt } => format_r(z, n, rd, rs, rt),
        Instruction::Mul { rd, rs, rt } => format_r(p, z, rd, rs, rt),
        Instruction::Div { rd, rs, rt } => format_r(p, n, rd, rs, rt),
        Instruction::Modulo { rd, rs, rt } => format_r(p, p, rd, rs, rt),
        Instruction::Mac { rd, rs, rt } => format_r(n, z, rd, rs, rt),
        Instruction::Cmp { rd, rs, rt } => format_r(n, n, rd, rs, rt),
        Instruction::Sgn { rd, rs } => format_r(n, p, rd, rs, &Reg(0)),
        Instruction::AddI { rd, rs, imm } => format_ia(z, n, rd, rs, imm),
        Instruction::MulI { rd, rs, imm } => format_ia(z, p, rd, rs, imm),
        Instruction::Ld { rd, rs, imm } => format_ia(p, z, rd, rs, imm),
        Instruction::St { rd, rs, imm } => format_ia(p, n, rd, rs, imm),
        Instruction::Ldi { rd, imm } => format_ib(z, z, rd, imm),
        Instruction::Jmp { offset } => format_c_offset(z, z, offset),
        Instruction::JmpR { rs } => format_c_reg(z, n, rs),
        Instruction::Bz { rs, offset } => format_c_reg_offset(z, p, rs, offset),
        Instruction::Bn { rs, offset } => format_c_reg_offset(p, z, rs, offset),
        Instruction::Bp { rs, offset } => format_c_reg_offset(p, n, rs, offset),
        Instruction::Call { offset } => format_c_offset(p, p, offset),
        Instruction::Ret => {
            let mut ts: [Trit; 12] = [Trit::Zero; 12];
            ts[11] = Trit::NegOne;
            ts[10] = Trit::NegOne;
            ts
        },
        Instruction::Syscall { rs } => format_c_reg(n, n, rs),
        Instruction::Halt => {
            let mut ts: [Trit; 12] = [Trit::Zero; 12];
            ts[11] = Trit::NegOne;
            ts[10] = Trit::NegOne;
            ts[9] = Trit::One;
            ts
        },
    };
    proof {
        assert(ts@ =~= encode_word(*inst));
    }
    let hi_ts: [Trit; 6] = [ts[6], ts[7], ts[8], ts[9], ts[10], ts[11]];
    let lo_ts: [Trit; 6] = [ts[0], ts[1], ts[2], ts[3], ts[4], ts[5]];
    proof {
        assert(hi_ts@ =~= ts@.subrange(6, 12));
        assert(lo_ts@ =~= ts@.subrange(0, 6));
    }
    (Tryte::from_trits(hi_ts), Tryte::from_trits(lo_ts))
}

} // verus!

verus! {

/// The word of every instruction is twelve trits long.
proof fn lemma_word_len(inst: Instruction)
    ensures
        encode_word(inst).len() == 12,
{
    crate::tryte::lemma_digits_len(inst_imm(inst)@, 6);
}

/// The immediate or offset an instruction carries (zero when none).
pub open spec fn inst_imm(inst: Instruction) -> Tryte {
    match inst {
        Instruction::AddI { imm, .. } | Instruction::MulI { imm, .. } | Instruction::Ld { imm, .. }
        | Instruction::St { imm, .. } | Instruction::Ldi { imm, .. } => imm,
        Instruction::Jmp { offset } | Instruction::Bz { offset, .. } | Instruction::Bn {
            offset,
            ..
        } | Instruction::Bp { offset, .. } | Instruction::Call { offset } => offset,
        _ => Tryte::from_int(0),
    }
}

/// Where the fields of a word sit.
proof fn lemma_word_parts(low: Seq<Trit>, mid: Seq<Trit>, high: Seq<Trit>, op1: Trit, op2: Trit, fmt: Trit)
    requires
        low.len() == 3,
        mid.len() == 3,
        high.len() == 3,
    ensures
        ({
            let w = word(low, mid, high, op1, op2, fmt);
            &&& w.len() == 12
            &&& w[0] == low[0] && w[1] == low[1] && w[2] == low[2]
            &&& w[3] == mid[0] && w[4] == mid[1] && w[5] == mid[2]
            &&& w[6] == high[0] && w[7] == high[1] && w[8] == high[2]
            &&& w[9] == op1 && w[10] == op2 && w[11] == fmt
            &&& w.subrange(0, 3) == low
            &&& w.subrange(0, 6) == low + mid
        }),
{
    let w = word(low, mid, high, op1, op2, fmt);
    assert(w.subrange(0, 3) =~= low);
    assert(w.subrange(0, 6) =~= low + mid);
}

/// A field holding the code of an existing register decodes to it.
proof fn lemma_reg_field(ts: Seq<Trit>, start: int, g: Reg)
    requires
        g.valid(),
        0 <= start,
        start + 3 <= ts.len(),
        ts[start] == reg_trits(g.0 as int)[0],
        ts[start + 1] == reg_trits(g.0 as int)[1],
        ts[start + 2] == reg_trits(g.0 as int)[2],
    ensures
        reg_field(ts, start) == Ok::<Reg, DecodeError>(g),
{
}

/// A six-trit immediate field decodes to the tryte it was written from.
proof fn lemma_imm6(imm: Tryte)
    requires
        crate::tryte::in_tryte_range(imm@),
    ensures
        digits(imm).len() == 6,
        Tryte::from_int(trits_value(digits(imm).subrange(0, 3) + digits(imm).subrange(3, 6))) == imm,
{
    crate::tryte::lemma_tryte_digits(imm);
    crate::tryte::lemma_digits_len(imm@, 6);
    assert(digits(imm).subrange(0, 3) + digits(imm).subrange(3, 6) =~= digits(imm));
}

/// A three-trit immediate field decodes to the tryte it was written from,
/// when the tryte fits in three trits.
proof fn lemma_imm3(imm: Tryte)
    requires
        -13 <= imm@ <= 13,
    ensures
        digits(imm).subrange(0, 3).len() == 3,
        Tryte::from_int(trits_value(digits(imm).subrange(0, 3))) == imm,
{
    crate::tryte::lemma_low_three_digits(imm@);
    crate::tryte::lemma_digits_len(imm@, 6);
}

/// Decoding the word of an encodable instruction gives the instruction back.
proof fn lemma_decode_word_encode_word(inst: Instruction)
    requires
        inst.encodable(),
        crate::tryte::in_tryte_range(inst_imm(inst)@),
    ensures
        decode_word(encode_word(inst)) == Ok::<Instruction, DecodeError>(inst),
{
    match inst {
        Instruction::Nop | Instruction::Ret | Instruction::Halt => lemma_roundtrip_plain(inst),
        Instruction::Add { .. } | Instruction::Sub { .. } | Instruction::Mul { .. }
        | Instruction::Div { .. } | Instruction::Modulo { .. } | Instruction::Mac { .. }
        | Instruction::Cmp { .. } | Instruction::Sgn { .. } => lemma_roundtrip_r(inst),
        Instruction::AddI { .. } | Instruction::MulI { .. } | Instruction::Ld { .. }
        | Instruction::St { .. } | Instruction::Ldi { .. } => lemma_roundtrip_i(inst),
        _ => lemma_roundtrip_c(inst),
    }
}

proof fn lemma_roundtrip_plain(inst: Instruction)
    requires
        inst is Nop || inst is Ret || inst is Halt,
    ensures
        decode_word(encode_word(inst)) == Ok::<Instruction, DecodeError>(inst),
{
    let w = encode_word(inst);
    let z3 = zeros3();
    lemma_word_parts(z3, z3, z3, w[9], w[10], w[11]);
    lemma_reg_field(w, 0, Reg(0));
    lemma_reg_field(w, 3, Reg(0));
    lemma_reg_field(w, 6, Reg(0));
}

proof fn lemma_roundtrip_r(inst: Instruction)
    requires
        inst.encodable(),
        inst is Add || inst is Sub || inst is Mul || inst is Div || inst is Modulo || inst is Mac
            || inst is Cmp || inst is Sgn,
    ensures
        decode_word(encode_word(inst)) == Ok::<Instruction, DecodeError>(inst),
{
    let w = encode_word(inst);
    let (rd, rs, rt) = match inst {
        Instruction::Add { rd, rs, rt } | Instruction::Sub { rd, rs, rt } | Instruction::Mul {
            rd,
            rs,
            rt,
        } | Instruction::Div { rd, rs, rt } | Instruction::Modulo { rd, rs, rt }
        | Instruction::Mac { rd, rs, rt } | Instruction::Cmp { rd, rs, rt } => (rd, rs, rt),
        Instruction::Sgn { rd, rs } => (rd, rs, Reg(0)),
        _ => (Reg(0), Reg(0), Reg(0)),
    };
    lemma_word_parts(
        reg_trits(rt.0 as int),
        reg_trits(rs.0 as int),
        reg_trits(rd.0 as int),
        w[9],
        w[10],
        w[11],
    );
    lemma_reg_field(w, 0, rt);
    lemma_reg_field(w, 3, rs);
    lemma_reg_field(w, 6, rd);
}

proof fn lemma_roundtrip_i(inst: Instruction)
    requires
        inst.encodable(),
        crate::tryte::in_tryte_range(inst_imm(inst)@),
        inst is AddI || inst is MulI || inst is Ld || inst is St || inst is Ldi,
    ensures
        decode_word(encode_word(inst)) == Ok::<Instruction, DecodeError>(inst),
{
    let w = encode_word(inst);
    match inst {
        Instruction::Ldi { rd, imm } => {
            lemma_imm6(imm);
            lemma_word_parts(
                digits(imm).subrange(0, 3),
                digits(imm).subrange(3, 6),
                reg_trits(rd.0 as int),
                w[9],
                w[10],
                w[11],
            );
            lemma_reg_field(w, 6, rd);
        },
        Instruction::AddI { rd, rs, imm } | Instruction::MulI { rd, rs, imm } | Instruction::Ld {
            rd,
            rs,
            imm,
        } | Instruction::St { rd, rs, imm } => {
            lemma_imm3(imm);
            lemma_word_parts(
                digits(imm).subrange(0, 3),
                reg_trits(rs.0 as int),
                reg_trits(rd.0 as int),
                w[9],
                w[10],
                w[11],
            );
            lemma_reg_field(w, 3, rs);
            lemma_reg_field(w, 6, rd);
        },
        _ => {},
    }
}

proof fn lemma_roundtrip_c(inst: Instruction)
    requires
        inst.encodable(),
        crate::tryte::in_tryte_range(inst_imm(inst)@),
        inst is Jmp || inst is JmpR || inst is Bz || inst is Bn || inst is Bp || inst is Call
            || inst is Syscall,
    ensures
        decode_word(encode_word(inst)) == Ok::<Instruction, DecodeError>(inst),
{
    let w = encode_word(inst);
    let z3 = zeros3();
    match inst {
        Instruction::Bz { rs, offset } | Instruction::Bn { rs, offset } | Instruction::Bp {
            rs,
            offset,
        } => {
            lemma_imm6(offset);
            lemma_word_parts(
                digits(offset).subrange(0, 3),
                digits(offset).subrange(3, 6),
                reg_trits(rs.0 as int),
                w[9],
                w[10],
                w[11],
            );
            lemma_reg_field(w, 6, rs);
        },
        Instruction::Jmp { offset } | Instruction::Call { offset } => {
            lemma_imm6(offset);
            lemma_word_parts(
                digits(offset).subrange(0, 3),
                digits(offset).subrange(3, 6),
                z3,
                w[9],
                w[10],
                w[11],
            );
        },
        Instruction::JmpR { rs } | Instruction::Syscall { rs } => {
            lemma_word_parts(z3, z3, reg_trits(rs.0 as int), w[9], w[10], w[11]);
            lemma_reg_field(w, 6, rs);
        },
        _ => {},
    }
}

/// Decoding what `encode` produces for an encodable instruction gives the
/// instruction back: `decode(encode(i)) == Ok(i)`.
pub proof fn lemma_encode_decode_roundtrip(inst: Instruction)
    requires
        inst.encodable(),
        crate::tryte::in_tryte_range(inst_imm(inst)@),
    ensures
        ({
            let w = encode_word(inst);
            let hi = Tryte::from_int(trits_value(w.subrange(6, 12)));
            let lo = Tryte::from_int(trits_value(w.subrange(0, 6)));
            decode_word(pair_word(hi, lo)) == Ok::<Instruction, DecodeError>(inst)
        }),
{
    let w = encode_word(inst);
    lemma_word_len(inst);
    let hw = w.subrange(6, 12);
    let lw = w.subrange(0, 6);
    crate::tryte::lemma_trits_value_6(hw);
    crate::tryte::lemma_trits_value_6(lw);
    crate::tryte::lemma_digits_of_value(hw);
    crate::tryte::lemma_digits_of_value(lw);
    let hi = Tryte::from_int(trits_value(hw));
    let lo = Tryte::from_int(trits_value(lw));
    assert(digits(hi) == hw);
    assert(digits(lo) == lw);
    assert(pair_word(hi, lo) =~= w);
    lemma_decode_word_encode_word(inst);
}

} // verus!

verus! {

/// The documented opcode of each instruction as (format trit, opcode high
/// trit, opcode low trit). Format 0 (R): NOP 00, ADD 01, SUB 0T, MUL 10,
/// DIV 1T, MOD 11, MAC T0, CMP TT, SGN T1. Format 1 (I): LDI 00, ADDI 0T,
/// MULI 01, LD 10, ST 1T. Format T (C): JMP 00, JMPR 0T, BZ 01, BN 10, BP 1T,
/// CALL 11, RET T0, SYSCALL TT, HALT T1.
pub open spec fn opcode(inst: Instruction) -> (Trit, Trit, Trit) {
    let (z, p, n) = (Trit::Zero, Trit::One, Trit::NegOne);
    match inst {
        Instruction::Nop => (z, z, z),
        Instruction::Add { .. } => (z, z, p),
        Instruction::Sub { .. } => (z, z, n),
        Instruction::Mul { .. } => (z, p, z),
        Instruction::Div { .. } => (z, p, n),
        Instruction::Modulo { .. } => (z, p, p),
        Instruction::Mac { .. } => (z, n, z),
        Instruction::Cmp { .. } => (z, n, n),
        Instruction::Sgn { .. } => (z, n, p),
        Instruction::Ldi { .. } => (p, z, z),
        Instruction::AddI { .. } => (p, z, n),
        Instruction::MulI { .. } => (p, z, p),
        Instruction::Ld { .. } => (p, p, z),
        Instruction::St { .. } => (p, p, n),
        Instruction::Jmp { .. } => (n, z, z),
        Instruction::JmpR { .. } => (n, z, n),
        Instruction::Bz { .. } => (n, z, p),
        Instruction::Bn { .. } => (n, p, z),
        Instruction::Bp { .. } => (n, p, n),
        Instruction::Call { .. } => (n, p, p),
        Instruction::Ret => (n, n, z),
        Instruction::Syscall { .. } => (n, n, n),
        Instruction::Halt => (n, n, p),
    }
}

/// The top three trits of an instruction's word are its documented opcode.
#[verifier::spinoff_prover]
proof fn lemma_word_opcode(inst: Instruction)
    ensures
        encode_word(inst).len() == 12,
        (encode_word(inst)[11], encode_word(inst)[10], encode_word(inst)[9]) == opcode(inst),
{
    lemma_word_len(inst);
    let w = encode_word(inst);
    assert(w.subrange(9, 12) == seq![w[9], w[10], w[11]]);
    crate::tryte::lemma_digits_len(inst_imm(inst)@, 6);
    match inst {
        Instruction::Add { rd, rs, rt } | Instruction::Sub { rd, rs, rt } | Instruction::Mul {
            rd,
            rs,
            rt,
        } | Instruction::Div { rd, rs, rt } | Instruction::Modulo { rd, rs, rt }
        | Instruction::Mac { rd, rs, rt } | Instruction::Cmp { rd, rs, rt } => {
            lemma_reg_trits_len(rd.0 as int);
            lemma_reg_trits_len(rs.0 as int);
            lemma_reg_trits_len(rt.0 as int);
        },
        Instruction::Sgn { rd, rs } | Instruction::AddI { rd, rs, .. } | Instruction::MulI {
            rd,
            rs,
            ..
        } | Instruction::Ld { rd, rs, .. } | Instruction::St { rd, rs, .. } => {
            lemma_reg_trits_len(rd.0 as int);
            lemma_reg_trits_len(rs.0 as int);
            lemma_reg_trits_len(0);
        },
        Instruction::Ldi { rd, .. } => {
            lemma_reg_trits_len(rd.0 as int);
        },
        Instruction::JmpR { rs } | Instruction::Bz { rs, .. } | Instruction::Bn { rs, .. }
        | Instruction::Bp { rs, .. } | Instruction::Syscall { rs } => {
            lemma_reg_trits_len(rs.0 as int);
        },
        _ => {},
    }
}

proof fn lemma_reg_trits_len(i: int)
    ensures
        reg_trits(i).len() == 3,
{
}

/// Encoding puts the documented opcode in the top three trits of the word,
/// which are the top three trits of the high tryte `encode` returns.
pub proof fn lemma_encode_opcode(inst: Instruction)
    ensures
        ({
            let w = encode_word(inst);
            let hi = Tryte::from_int(trits_value(w.subrange(6, 12)));
            &&& w.len() == 12
            &&& (w[11], w[10], w[9]) == opcode(inst)
            &&& (digits(hi)[5], digits(hi)[4], digits(hi)[3]) == opcode(inst)
        }),
{
    lemma_word_opcode(inst);
    let w = encode_word(inst);
    let hw = w.subrange(6, 12);
    crate::tryte::lemma_trits_value_6(hw);
    crate::tryte::lemma_digits_of_value(hw);
    assert(digits(Tryte::from_int(trits_value(hw))) == hw);
    assert(hw[5] == w[11] && hw[4] == w[10] && hw[3] == w[9]);
}

/// Decoding reads the instruction named by the documented opcode in the top
/// three trits of the word.
pub proof fn lemma_decode_opcode(w: Seq<Trit>)
    requires
        w.len() == 12,
    ensures
        decode_word(w) matches Ok(inst) ==> (w[11], w[10], w[9]) == opcode(inst),
{
}

} // verus!

