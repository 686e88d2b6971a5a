use crate::instruction::{decode, decode_word, pair_word, Instruction, Reg};
use crate::tryte::{balanced_mod_729, trunc_div, trunc_rem, ternary_text, Tryte, TryteError};
use vstd::prelude::*;

verus! {

broadcast use {crate::tryte::lemma_from_int_view, crate::tryte::lemma_from_view};

/// Number of trytes of memory: 3^10.
pub const MEM_SIZE: usize = 59049;

/// Why a step did not complete.
#[derive(Debug, Clone, Copy, PartialEq, Eq, Structural)]
pub enum ExecError {
    Halted,
    BadAddress,
    BadInstruction,
}

/// The machine: eight registers (R7 is the overflow flag), program counter,
/// stack pointer, memory, run flag, printed output and exit code.
pub struct VM {
    pub regs: [Tryte; 8],
    pub pc: i32,
    pub sp: i32,
    pub memory: Vec<Tryte>,
    pub running: bool,
    pub output: String,
    pub exit_code: i32,
}

/// The abstract state of the machine.
pub struct VMState {
    pub regs: Seq<Tryte>,
    pub pc: int,
    pub sp: int,
    pub memory: Seq<Tryte>,
    pub running: bool,
    pub output: Seq<char>,
    pub exit_code: int,
}

impl View for VM {
    type V = VMState;

    open spec fn view(&self) -> VMState {
        VMState {
            regs: self.regs@,
            pc: self.pc as int,
            sp: self.sp as int,
            memory: self.memory@,
            running: self.running,
            output: self.output@,
            exit_code: self.exit_code as int,
        }
    }
}

/// The tryte holding `v`.
pub open spec fn t(v: int) -> Tryte {
    Tryte::from_int(v)
}

/// The sign of `v` as -1, 0 or 1.
pub open spec fn sgn(v: int) -> int {
    if v > 0 {
        1
    } else if v < 0 {
        -1
    } else {
        0
    }
}

/// Whether `addr` is a memory address.
pub open spec fn in_memory(addr: int) -> bool {
    0 <= addr < MEM_SIZE
}

impl VMState {
    /// The value of register `g`.
    pub open spec fn reg(self, g: Reg) -> Tryte {
        self.regs[g.0 as int]
    }

    /// The state with register `i` set to `v`.
    pub open spec fn with_reg(self, i: int, v: Tryte) -> VMState {
        VMState { regs: self.regs.update(i, v), ..self }
    }

    /// The state with the program counter moved to `pc`.
    pub open spec fn with_pc(self, pc: int) -> VMState {
        VMState { pc: pc, ..self }
    }

    /// The state with memory cell `addr` set to `v`.
    pub open spec fn with_mem(self, addr: int, v: Tryte) -> VMState {
        VMState { memory: self.memory.update(addr, v), ..self }
    }

    /// The state with `out` appended to the output.
    pub open spec fn with_output(self, out: Seq<char>) -> VMState {
        VMState { output: self.output + out, ..self }
    }
}

/// The overflow flag for a result saturated to `v`: 1 above, -1 below.
pub open spec fn overflow_flag(v: Tryte) -> Tryte {
    t(if v@ > 0 {
        1
    } else {
        -1
    })
}

/// Writes a checked arithmetic result to `rd` and sets R7: 0 when exact,
/// the overflow direction when saturated.
pub open spec fn write_checked(s: VMState, rd: Reg, res: Result<Tryte, TryteError>) -> VMState {
    match res {
        Ok(v) => s.with_reg(rd.0 as int, v).with_reg(7, t(0)),
        Err(TryteError::Overflow(v)) => s.with_reg(rd.0 as int, v).with_reg(7, overflow_flag(v)),
        Err(TryteError::DivisionByZero) => s,
    }
}

/// Saturating multiplication into `rd`: when the product leaves the range, `rd`
/// gets the bound with the product's sign and R7 the sign of the high tryte;
/// otherwise `rd` gets the product and R7 is cleared.
pub open spec fn write_product(s: VMState, rd: Reg, a: Tryte, b: Tryte) -> VMState {
    let p = a@ * b@;
    let lo = balanced_mod_729(p);
    let hi = (p - lo) / 729;
    if hi != 0 {
        let bound = if (a@ >= 0 && b@ >= 0) || (a@ < 0 && b@ < 0) {
            364
        } else {
            -364
        };
        s.with_reg(rd.0 as int, t(bound)).with_reg(
            7,
            t(
                if hi > 0 {
                    1
                } else {
                    -1
                },
            ),
        )
    } else {
        s.with_reg(rd.0 as int, t(lo)).with_reg(7, t(0))
    }
}

/// Writes a quotient or remainder to `rd`; a zero divisor writes 0 and sets R7 to -1.
pub open spec fn write_division(s: VMState, rd: Reg, divisor: Tryte, result: int) -> VMState {
    if divisor@ == 0 {
        s.with_reg(rd.0 as int, t(0)).with_reg(7, t(-1))
    } else {
        s.with_reg(rd.0 as int, t(result)).with_reg(7, t(0))
    }
}

/// An exact result as a tryte: `Ok` when it fits, else the bound it crossed.
pub open spec fn saturating(v: int) -> Result<Tryte, TryteError> {
    if v > 364 {
        Err(TryteError::Overflow(t(364)))
    } else if v < -364 {
        Err(TryteError::Overflow(t(-364)))
    } else {
        Ok(t(v))
    }
}

/// The address computed by a saturating `Rs + imm`.
pub open spec fn checked_value(res: Result<Tryte, TryteError>) -> Tryte {
    match res {
        Ok(v) => v,
        Err(TryteError::Overflow(v)) => v,
        Err(TryteError::DivisionByZero) => t(0),
    }
}

/// R7 after computing a memory address: 0 when exact, the overflow direction
/// when saturated.
pub open spec fn address_flag(res: Result<Tryte, TryteError>) -> Tryte {
    match res {
        Err(TryteError::Overflow(v)) => overflow_flag(v),
        _ => t(0),
    }
}

/// The effect of executing a data instruction (formats R and I). Control-flow
/// instructions leave the state unchanged here. A failed memory access leaves
/// the flag already written and reports `BadAddress`.
pub open spec fn exec_spec(s: VMState, inst: Instruction) -> (VMState, Result<(), ExecError>) {
    match inst {
        Instruction::Add { rd, rs, rt } => (
            write_checked(s, rd, s.reg(rs).spec_add(s.reg(rt))),
            Ok(()),
        ),
        Instruction::Sub { rd, rs, rt } => (
            write_checked(s, rd, s.reg(rs).spec_add(t(-s.reg(rt)@))),
            Ok(()),
        ),
        Instruction::Mul { rd, rs, rt } => (write_product(s, rd, s.reg(rs), s.reg(rt)), Ok(())),
        Instruction::Div { rd, rs, rt } => (
            write_division(s, rd, s.reg(rt), trunc_div(s.reg(rs)@, s.reg(rt)@)),
            Ok(()),
        ),
        Instruction::Modulo { rd, rs, rt } => (
            write_division(s, rd, s.reg(rt), trunc_rem(s.reg(rs)@, s.reg(rt)@)),
            Ok(()),
        ),
        Instruction::Mac { rd, rs, rt } => (
            write_checked(s, rd, saturating(s.reg(rd)@ + s.reg(rs)@ * s.reg(rt)@)),
            Ok(()),
        ),
        Instruction::Cmp { rd, rs, rt } => (
            s.with_reg(rd.0 as int, t(sgn(s.reg(rs)@ - s.reg(rt)@))),
            Ok(()),
        ),
        Instruction::Sgn { rd, rs } => (s.with_reg(rd.0 as int, t(sgn(s.reg(rs)@))), Ok(())),
        Instruction::AddI { rd, rs, imm } => (
            write_checked(s, rd, s.reg(rs).spec_add(imm)),
            Ok(()),
        ),
        Instruction::MulI { rd, rs, imm } => (write_product(s, rd, s.reg(rs), imm), Ok(())),
        Instruction::Ld { rd, rs, imm } => {
            let res = s.reg(rs).spec_add(imm);
            let s1 = s.with_reg(7, address_flag(res));
            let addr = checked_value(res)@;
            if in_memory(addr) {
                (s1.with_reg(rd.0 as int, s1.memory[addr]), Ok(()))
            } else {
                (s1, Err(ExecError::BadAddress))
            }
        },
        Instruction::St { rd, rs, imm } => {
            let res = s.reg(rs).spec_add(imm);
            let s1 = s.with_reg(7, address_flag(res));
            let addr = checked_value(res)@;
            if in_memory(addr) {
                (s1.with_mem(addr, s.reg(rd)), Ok(()))
            } else {
                (s1, Err(ExecError::BadAddress))
            }
        },
        Instruction::Ldi { rd, imm } => (s.with_reg(rd.0 as int, imm), Ok(())),
        _ => (s, Ok(())),
    }
}

} // verus!

verus! {

impl VMState {
    /// The machine invariant: full memory and eight registers.
    pub open spec fn wf(self) -> bool {
        &&& self.memory.len() == MEM_SIZE
        &&& self.regs.len() == 8
    }

    /// The stack pointer lies in memory or just past its end, the range that
    /// calls and returns keep it in.
    pub open spec fn sp_in_range(self) -> bool {
        0 <= self.sp <= MEM_SIZE
    }
}

impl VM {
    /// A fresh machine: registers and memory zero, PC at 0, SP at the top of
    /// memory, running, no output, exit code 0.
    pub fn new() -> (vm: VM)
        ensures
            vm@.regs == Seq::new(8, |i: int| t(0)),
            vm@.memory == Seq::new(MEM_SIZE as nat, |i: int| t(0)),
            vm@.pc == 0,
            vm@.sp == MEM_SIZE - 1,
            vm@.running,
            vm@.output == Seq::<char>::empty(),
            vm@.exit_code == 0,
            vm@.wf(),
    {
        let zero = Tryte::zero();
        let mut memory: Vec<Tryte> = Vec::new();
        while memory.len() < MEM_SIZE
            invariant
                memory.len() <= MEM_SIZE,
                zero == t(0),
                forall|i: int| 0 <= i < memory.len() ==> memory@[i] == t(0),
            decreases MEM_SIZE - memory.len(),
        {
            memory.push(zero);
        }
        let vm = VM {
            regs: [zero; 8],
            pc: 0,
            sp: (MEM_SIZE - 1) as i32,
            memory,
            running: true,
            output: String::new(),
            exit_code: 0,
        };
        proof {
            assert(vm@.regs =~= Seq::new(8, |i: int| t(0)));
            assert(vm@.memory =~= Seq::new(MEM_SIZE as nat, |i: int| t(0)));
        }
        vm
    }

    /// Places a program at the start of memory. A program longer than memory
    /// is refused (`false`) and the machine is left as it was.
    pub fn load(&mut self, program: &[Tryte]) -> (ok: bool)
        requires
            old(self)@.wf(),
        ensures
            ok == (program@.len() <= MEM_SIZE),
            final(self)@.wf(),
            !ok ==> final(self)@ == old(self)@,
            ok ==> final(self)@ == (VMState {
                memory: program@ + old(self)@.memory.skip(program@.len() as int),
                ..old(self)@
            }),
    {
        if program.len() > MEM_SIZE {
            return false;
        }
        let ghost start = self@;
        let mut i: usize = 0;
        while i < program.len()
            invariant
                i <= program.len() <= MEM_SIZE,
                self@ == (VMState { memory: self@.memory, ..start }),
                self@.memory.len() == MEM_SIZE,
                forall|j: int| 0 <= j < i ==> self@.memory[j] == program@[j],
                forall|j: int| i <= j < MEM_SIZE ==> self@.memory[j] == start.memory[j],
                start.wf(),
            decreases program.len() - i,
        {
            self.memory.set(i, program[i]);
            i = i + 1;
        }
        proof {
            assert(self@.memory =~= program@ + start.memory.skip(program@.len() as int));
        }
        true
    }

    /// Reads memory; addresses outside 0..MEM_SIZE give `BadAddress`.
    pub fn mem_read(&self, addr: i32) -> (r: Result<Tryte, ExecError>)
        requires
            self@.memory.len() >= MEM_SIZE,
        ensures
            in_memory(addr as int) ==> r == Ok::<Tryte, ExecError>(self@.memory[addr as int]),
            !in_memory(addr as int) ==> r == Err::<Tryte, ExecError>(ExecError::BadAddress),
    {
        if addr < 0 || addr >= MEM_SIZE as i32 {
            return Err(ExecError::BadAddress);
        }
        Ok(self.memory[addr as usize])
    }

    /// Writes memory; addresses outside 0..MEM_SIZE give `BadAddress` and change nothing.
    pub fn mem_write(&mut self, addr: i32, val: Tryte) -> (r: Result<(), ExecError>)
        requires
            old(self)@.memory.len() >= MEM_SIZE,
        ensures
            in_memory(addr as int) ==> r == Ok::<(), ExecError>(()) && final(self)@ == old(
                self,
            )@.with_mem(addr as int, val),
            !in_memory(addr as int) ==> r == Err::<(), ExecError>(ExecError::BadAddress)
                && final(self)@ == old(self)@,
    {
        if addr < 0 || addr >= MEM_SIZE as i32 {
            return Err(ExecError::BadAddress);
        }
        self.memory[addr as usize] = val;
        Ok(())
    }

    /// Writes a checked arithmetic result to `rd` and the overflow flag to R7.
    fn write_checked(&mut self, rd: Reg, res: Result<Tryte, TryteError>)
        requires
            rd.valid(),
            !(res matches Err(TryteError::DivisionByZero)),
        ensures
            final(self)@ == write_checked(old(self)@, rd, res),
    {
        match res {
            Ok(v) => {
                self.regs[rd.idx() as usize] = v;
                self.regs[7] = Tryte::zero();
            },
            Err(TryteError::Overflow(v)) => {
                self.regs[rd.idx() as usize] = v;
                self.regs[7] = if v.to_i16() > 0 {
                    Tryte::one()
                } else {
                    Tryte::neg_one()
                };
            },
            Err(TryteError::DivisionByZero) => {},
        }
        proof {
            assert(self@.regs =~= write_checked(old(self)@, rd, res).regs);
        }
    }

    /// Saturating multiplication of `a` by `b` into `rd`, flag in R7.
    fn write_product(&mut self, rd: Reg, a: Tryte, b: Tryte)
        requires
            rd.valid(),
        ensures
            final(self)@ == write_product(old(self)@, rd, a, b),
    {
        let (hi, lo) = a.mul_wide(b);
        if hi.to_i16() != 0 {
            self.regs[rd.idx() as usize] = if a.to_i16() >= 0 && b.to_i16() >= 0 || a.to_i16() < 0
                && b.to_i16() < 0 {
                Tryte::maximum()
            } else {
                Tryte::minimum()
            };
            self.regs[7] = if hi.to_i16() > 0 {
                Tryte::one()
            } else {
                Tryte::neg_one()
            };
        } else {
            self.regs[rd.idx() as usize] = lo;
            self.regs[7] = Tryte::zero();
        }
        proof {
            assert(self@.regs =~= write_product(old(self)@, rd, a, b).regs);
        }
    }

    /// Writes a division result, or 0 with R7 = -1 after a zero divisor.
    fn write_division(&mut self, rd: Reg, res: Result<Tryte, TryteError>)
        requires
            rd.valid(),
            !(res matches Err(TryteError::Overflow(_))),
        ensures
            res matches Ok(v) ==> final(self)@ == old(self)@.with_reg(rd.0 as int, v).with_reg(
                7,
                t(0),
            ),
            res matches Err(_) ==> final(self)@ == old(self)@.with_reg(rd.0 as int, t(0)).with_reg(
                7,
                t(-1),
            ),
    {
        match res {
            Ok(v) => {
                self.regs[rd.idx() as usize] = v;
                self.regs[7] = Tryte::zero();
            },
            Err(_) => {
                self.regs[rd.idx() as usize] = Tryte::zero();
                self.regs[7] = Tryte::neg_one();
            },
        }
        proof {
            assert(self@.regs =~= final(self)@.regs);
        }
    }

    /// Computes `Rs + imm` for a memory access: sets R7 from the overflow and
    /// returns the (possibly saturated) address.
    fn address(&mut self, rs: Reg, imm: Tryte) -> (addr: i32)
        requires
            rs.valid(),
        ensures
            final(self)@ == old(self)@.with_reg(7, address_flag(old(self)@.reg(rs).spec_add(imm))),
            addr == checked_value(old(self)@.reg(rs).spec_add(imm))@,
    {
        let a = self.regs[rs.idx() as usize];
        let v = match a.add(imm) {
            Ok(v) => {
                self.regs[7] = Tryte::zero();
                v
            },
            Err(TryteError::Overflow(v)) => {
                self.regs[7] = if v.to_i16() > 0 {
                    Tryte::one()
                } else {
                    Tryte::neg_one()
                };
                v
            },
            Err(TryteError::DivisionByZero) => {
                proof {
                    assert(false);
                }
                Tryte::zero()
            },
        };
        proof {
            assert(self@.regs =~= old(self)@.with_reg(7, address_flag(a.spec_add(imm))).regs);
        }
        v.to_i16() as i32
    }
}

} // verus!

verus! {

impl VM {
    /// Executes one data instruction (formats R and I); control-flow
    /// instructions do nothing here. Arithmetic saturates and reports through
    /// R7; a memory access outside memory gives `BadAddress`.
    pub fn exec_inst(&mut self, inst: &Instruction) -> (r: Result<(), ExecError>)
        requires
            old(self)@.memory.len() >= MEM_SIZE,
            inst.wf(),
        ensures
            (final(self)@, r) == exec_spec(old(self)@, *inst),
            final(self)@.memory.len() == old(self)@.memory.len(),
            final(self)@.sp == old(self)@.sp,
            final(self)@.pc == old(self)@.pc,
    {
        match *inst {
            Instruction::Nop => {},
            Instruction::Add { rd, rs, rt } => {
                let a = self.regs[rs.idx() as usize];
                let b = self.regs[rt.idx() as usize];
                self.write_checked(rd, a.add(b));
            },
            Instruction::Sub { rd, rs, rt } => {
                let a = self.regs[rs.idx() as usize];
                let b = self.regs[rt.idx() as usize];
                self.write_checked(rd, a.sub(b));
            },
            Instruction::Mul { rd, rs, rt } => {
                let a = self.regs[rs.idx() as usize];
                let b = self.regs[rt.idx() as usize];
                self.write_product(rd, a, b);
            },
            Instruction::Div { rd, rs, rt } => {
                let a = self.regs[rs.idx() as usize];
                let b = self.regs[rt.idx() as usize];
                self.write_division(rd, a.div(b));
            },
            Instruction::Modulo { rd, rs, rt } => {
                let a = self.regs[rs.idx() as usize];
                let b = self.regs[rt.idx() as usize];
                self.write_division(rd, a.rem(b));
            },
            Instruction::Mac { rd, rs, rt } => {
                let a = self.regs[rs.idx() as usize].to_i16() as i32;
                let b = self.regs[rt.idx() as usize].to_i16() as i32;
                let acc = self.regs[rd.idx() as usize].to_i16() as i32;
                assert(-132496 <= a * b <= 132496) by (nonlinear_arith)
                    requires
                        -364 <= a <= 364,
                        -364 <= b <= 364,
                ;
                let sum: i32 = acc + a * b;
                let res = if sum > 364 {
                    Err(TryteError::Overflow(Tryte::maximum()))
                } else if sum < -364 {
                    Err(TryteError::Overflow(Tryte::minimum()))
                } else {
                    match Tryte::from_i16(sum as i16) {
                        Some(v) => Ok(v),
                        None => Err(TryteError::DivisionByZero),
                    }
                };
                self.write_checked(rd, res);
            },
            Instruction::Cmp { rd, rs, rt } => {
                let a = self.regs[rs.idx() as usize].to_i16();
                let b = self.regs[rt.idx() as usize].to_i16();
                let diff: i16 = a - b;
                self.regs[rd.idx() as usize] = if diff > 0 {
                    Tryte::one()
                } else if diff < 0 {
                    Tryte::neg_one()
                } else {
                    Tryte::zero()
                };
            },
            Instruction::Sgn { rd, rs } => {
                let v = self.regs[rs.idx() as usize].to_i16();
                self.regs[rd.idx() as usize] = if v > 0 {
                    Tryte::one()
                } else if v < 0 {
                    Tryte::neg_one()
                } else {
                    Tryte::zero()
                };
            },
            Instruction::AddI { rd, rs, imm } => {
                let a = self.regs[rs.idx() as usize];
                self.write_checked(rd, a.add(imm));
            },
            Instruction::MulI { rd, rs, imm } => {
                let a = self.regs[rs.idx() as usize];
                self.write_product(rd, a, imm);
            },
            Instruction::Ld { rd, rs, imm } => {
                let addr = self.address(rs, imm);
                let v = self.mem_read(addr)?;
                self.regs[rd.idx() as usize] = v;
            },
            Instruction::St { rd, rs, imm } => {
                let v = self.regs[rd.idx() as usize];
                let addr = self.address(rs, imm);
                self.mem_write(addr, v)?;
            },
            Instruction::Ldi { rd, imm } => {
                self.regs[rd.idx() as usize] = imm;
            },
            _ => {},
        }
        proof {
            assert(self@.regs =~= exec_spec(old(self)@, *inst).0.regs);
        }
        Ok(())
    }
}

} // verus!

verus! {

/// The return address pushed by a call: low tryte at `sp - 1`, high tryte at
/// `sp - 2`, each stored as its base-729 digit minus 364.
pub open spec fn push_return(s: VMState, ret: int) -> VMState {
    VMState {
        sp: s.sp - 2,
        memory: s.memory.update(s.sp - 1, t(ret % 729 - 364)).update(s.sp - 2, t(ret / 729 - 364)),
        ..s
    }
}

/// The address popped by a return, read back from the two trytes at `sp`.
pub open spec fn popped_return(s: VMState) -> int {
    (s.memory[s.sp]@ + 364) * 729 + (s.memory[s.sp + 1]@ + 364)
}

/// The output of printing character code `v`: codes below zero print nothing.
pub open spec fn char_out(v: int) -> Seq<char> {
    if v >= 0 {
        seq![v as char]
    } else {
        Seq::empty()
    }
}

/// Printing the zero-terminated string at `addr`, from its `k`-th character on,
/// at most 256 characters in all: the characters printed (negative codes print
/// nothing), and whether a read left memory.
pub open spec fn string_out(mem: Seq<Tryte>, addr: int, k: int) -> (Seq<char>, bool)
    decreases 256 - k,
{
    if k >= 256 {
        (Seq::empty(), false)
    } else if !in_memory(addr + k) {
        (Seq::empty(), true)
    } else if mem[addr + k]@ == 0 {
        (Seq::empty(), false)
    } else {
        let rest = string_out(mem, addr, k + 1);
        (char_out(mem[addr + k]@) + rest.0, rest.1)
    }
}

/// The effect of `SYSCALL` with function code `func`.
pub open spec fn syscall_spec(s: VMState, func: int) -> (VMState, Result<(), ExecError>) {
    let r0 = s.regs[0]@;
    if func == 1 {
        (VMState { exit_code: r0, running: false, ..s }, Ok(()))
    } else if func == 2 {
        (s.with_output(ternary_text(r0)).with_pc(s.pc + 2), Ok(()))
    } else if func == 3 {
        (s.with_output(crate::text::int_text(r0)).with_pc(s.pc + 2), Ok(()))
    } else if func == 4 {
        (s.with_output(char_out(r0)).with_pc(s.pc + 2), Ok(()))
    } else if func == 7 {
        let out = string_out(s.memory, r0, 0);
        if out.1 {
            (s.with_output(out.0), Err(ExecError::BadAddress))
        } else {
            (s.with_output(out.0).with_pc(s.pc + 2), Ok(()))
        }
    } else {
        (s.with_pc(s.pc + 2), Ok(()))
    }
}

/// The effect of a decoded instruction at `pc`.
pub open spec fn control_spec(s: VMState, inst: Instruction) -> (VMState, Result<(), ExecError>) {
    match inst {
        Instruction::Jmp { offset } => (s.with_pc(s.pc + offset@), Ok(())),
        Instruction::JmpR { rs } => (s.with_pc(s.reg(rs)@), Ok(())),
        Instruction::Bz { rs, offset } => (
            s.with_pc(
                if s.reg(rs)@ == 0 {
                    s.pc + offset@
                } else {
                    s.pc + 2
                },
            ),
            Ok(()),
        ),
        Instruction::Bn { rs, offset } => (
            s.with_pc(
                if s.reg(rs)@ < 0 {
                    s.pc + offset@
                } else {
                    s.pc + 2
                },
            ),
            Ok(()),
        ),
        Instruction::Bp { rs, offset } => (
            s.with_pc(
                if s.reg(rs)@ > 0 {
                    s.pc + offset@
                } else {
                    s.pc + 2
                },
            ),
            Ok(()),
        ),
        Instruction::Call { offset } => if s.sp < 2 {
            (s, Err(ExecError::BadAddress))
        } else {
            (push_return(s, s.pc + 2).with_pc(s.pc + offset@), Ok(()))
        },
        Instruction::Ret => if s.sp >= MEM_SIZE - 1 {
            (s, Err(ExecError::BadAddress))
        } else {
            (VMState { sp: s.sp + 2, ..s }.with_pc(popped_return(s)), Ok(()))
        },
        Instruction::Syscall { rs } => syscall_spec(s, s.reg(rs)@),
        Instruction::Halt => (VMState { running: false, ..s }, Ok(())),
        _ => {
            let (s1, r) = exec_spec(s, inst);
            match r {
                Ok(()) => (s1.with_pc(s1.pc + 2), Ok(())),
                Err(e) => (s1, Err(e)),
            }
        },
    }
}

/// The effect of one step: fetch the two trytes at PC, decode, execute.
/// A stopped machine reports `Halted`; a PC outside memory `BadAddress`; an
/// undecodable word `BadInstruction`; none of these changes the state.
pub open spec fn step_spec(s: VMState) -> (VMState, Result<(), ExecError>) {
    if !s.running {
        (s, Err(ExecError::Halted))
    } else if !in_memory(s.pc) || !in_memory(s.pc + 1) {
        (s, Err(ExecError::BadAddress))
    } else {
        match decode_word(pair_word(s.memory[s.pc], s.memory[s.pc + 1])) {
            Err(_) => (s, Err(ExecError::BadInstruction)),
            Ok(inst) => control_spec(s, inst),
        }
    }
}

/// Whether the step from `s` can be taken: a call needs the stack pointer at
/// most `MEM_SIZE` (below 2 it fails cleanly), a return needs it at least 0
/// (at `MEM_SIZE - 1` or above it fails cleanly).
pub open spec fn step_safe(s: VMState) -> bool {
    s.running && in_memory(s.pc) && in_memory(s.pc + 1) ==> match decode_word(
        pair_word(s.memory[s.pc], s.memory[s.pc + 1]),
    ) {
        Ok(Instruction::Call { .. }) => s.sp <= MEM_SIZE,
        Ok(Instruction::Ret) => s.sp >= 0,
        _ => true,
    }
}

/// Whether each of at most `n` steps from `s` can be taken.
pub open spec fn run_safe(s: VMState, n: nat) -> bool
    decreases n,
{
    if n == 0 || !s.running {
        true
    } else {
        &&& step_safe(s)
        &&& (step_spec(s).1 is Ok ==> run_safe(step_spec(s).0, (n - 1) as nat))
    }
}

/// Runs at most `n` steps, stopping early when the machine stops or a step fails.
pub open spec fn run_spec(s: VMState, n: nat) -> VMState
    decreases n,
{
    if n == 0 || !s.running {
        s
    } else {
        let (s1, r) = step_spec(s);
        match r {
            Ok(()) => run_spec(s1, (n - 1) as nat),
            Err(_) => s1,
        }
    }
}

} // verus!

verus! {

impl VM {
    /// Pushes a return address as two trytes; a stack pointer below 2 gives
    /// `BadAddress` and changes nothing.
    fn stack_push(&mut self, addr: i32) -> (r: Result<(), ExecError>)
        requires
            old(self)@.wf(),
            old(self)@.sp <= MEM_SIZE,
            0 <= addr <= MEM_SIZE,
        ensures
            old(self)@.sp < 2 ==> r == Err::<(), ExecError>(ExecError::BadAddress) && final(self)@
                == old(self)@,
            old(self)@.sp >= 2 ==> r == Ok::<(), ExecError>(()) && final(self)@ == push_return(
                old(self)@,
                addr as int,
            ),
            final(self)@.wf(),
    {
        if self.sp < 2 {
            return Err(ExecError::BadAddress);
        }
        let lo_val: i32 = addr % 729;
        let hi_val: i32 = addr / 729;
        self.sp = self.sp - 1;
        let lo = Tryte::from_i16(lo_val as i16 - 364);
        let hi = Tryte::from_i16(hi_val as i16 - 364);
        match (lo, hi) {
            (Some(lo), Some(hi)) => {
                self.memory[self.sp as usize] = lo;
                self.sp = self.sp - 1;
                self.memory[self.sp as usize] = hi;
            },
            _ => {
                proof {
                    assert(false);
                }
            },
        }
        proof {
            assert(self@.memory =~= push_return(old(self)@, addr as int).memory);
        }
        Ok(())
    }

    /// Pops a return address; a stack pointer at or above `MEM_SIZE - 1` gives
    /// `BadAddress` and changes nothing.
    fn stack_pop(&mut self) -> (r: Result<i32, ExecError>)
        requires
            old(self)@.wf(),
            old(self)@.sp >= 0,
        ensures
            old(self)@.sp >= MEM_SIZE - 1 ==> r == Err::<i32, ExecError>(ExecError::BadAddress)
                && final(self)@ == old(self)@,
            old(self)@.sp < MEM_SIZE - 1 ==> r == Ok::<i32, ExecError>(
                popped_return(old(self)@) as i32,
            ) && final(self)@ == (VMState { sp: old(self)@.sp + 2, ..old(self)@ }),
            0 <= popped_return(old(self)@) <= 728 * 729 + 728 || old(self)@.sp >= MEM_SIZE - 1,
            final(self)@.wf(),
    {
        if self.sp >= (MEM_SIZE - 1) as i32 {
            return Err(ExecError::BadAddress);
        }
        let hi: i32 = self.memory[self.sp as usize].to_i16() as i32 + 364;
        self.sp = self.sp + 1;
        let lo: i32 = self.memory[self.sp as usize].to_i16() as i32 + 364;
        self.sp = self.sp + 1;
        Ok(hi * 729 + lo)
    }

    /// Prints the zero-terminated string at the address in R0 (at most 256
    /// characters); a read outside memory stops it with `BadAddress`.
    fn print_string(&mut self) -> (r: Result<(), ExecError>)
        requires
            old(self)@.wf(),
        ensures
            final(self)@ == old(self)@.with_output(string_out(old(self)@.memory, old(self)@.regs[0]@, 0).0),
            r is Err <==> string_out(old(self)@.memory, old(self)@.regs[0]@, 0).1,
            r is Err ==> r == Err::<(), ExecError>(ExecError::BadAddress),
    {
        let start: i32 = self.regs[0].to_i16() as i32;
        let ghost s0 = self@;
        let ghost total = string_out(s0.memory, start as int, 0);
        let ghost mut printed: Seq<char> = Seq::empty();
        let mut k: i32 = 0;
        let mut done = false;
        proof {
            assert(s0.output + printed =~= s0.output);
            assert(printed + total.0 =~= total.0);
        }
        while !done && k < 256
            invariant
                0 <= k <= 256,
                -364 <= start <= 364,
                s0 == old(self)@,
                start == s0.regs[0]@,
                s0.wf(),
                self@ == s0.with_output(printed),
                total == string_out(s0.memory, start as int, 0),
                total == (
                    printed + string_out(s0.memory, start as int, k as int).0,
                    string_out(s0.memory, start as int, k as int).1,
                ),
                done ==> string_out(s0.memory, start as int, k as int) == (
                    Seq::<char>::empty(),
                    false,
                ),
            decreases 512 - 2 * k - (if done {
                1int
            } else {
                0int
            }),
        {
            let val = match self.mem_read(start + k) {
                Ok(v) => v,
                Err(e) => {
                    proof {
                        assert(printed + Seq::<char>::empty() =~= printed);
                    }
                    return Err(e);
                },
            };
            let byte: i16 = val.to_i16();
            if byte == 0 {
                done = true;
            } else {
                #[verifier::truncate]
                let code: u32 = byte as u32;
                if byte < 0 {
                    assert(code > 0x10FFFF) by (bit_vector)
                        requires
                            code == byte as u32,
                            byte < 0,
                            byte >= -364,
                    ;
                }
                match crate::text::char_from_u32(code) {
                    Some(c) => crate::text::push_char(&mut self.output, c),
                    None => {},
                }
                proof {
                    let next = string_out(s0.memory, start as int, k as int + 1);
                    assert(printed + (char_out(byte as int) + next.0) =~= printed + char_out(
                        byte as int,
                    ) + next.0);
                    printed = printed + char_out(byte as int);
                    assert(self@.output =~= s0.output + printed);
                }
                k = k + 1;
            }
        }
        proof {
            assert(string_out(s0.memory, start as int, k as int) == (Seq::<char>::empty(), false));
            assert(printed + Seq::<char>::empty() =~= printed);
        }
        Ok(())
    }
}

} // verus!

verus! {

impl VM {
    /// Executes `SYSCALL` with function code `func`: 1 exits with R0 as the code,
    /// 2 prints R0 in balanced ternary, 3 in decimal, 4 as a character, 7 prints
    /// the string at address R0; any other code does nothing.
    fn syscall(&mut self, func: i16) -> (r: Result<(), ExecError>)
        requires
            old(self)@.wf(),
            0 <= old(self)@.pc < MEM_SIZE,
        ensures
            (final(self)@, r) == syscall_spec(old(self)@, func as int),
            final(self)@.wf(),
    {
        let r0 = self.regs[0];
        if func == 1 {
            self.exit_code = r0.to_i16() as i32;
            self.running = false;
        } else if func == 2 {
            let text = r0.to_string();
            crate::text::push_chars(&mut self.output, crate::text::chars_of(text.as_str()).as_slice());
            self.pc = self.pc + 2;
        } else if func == 3 {
            crate::text::push_int(&mut self.output, r0.to_i16() as i64);
            self.pc = self.pc + 2;
        } else if func == 4 {
            let v = r0.to_i16();
            #[verifier::truncate]
            let code: u32 = v as u32;
            if v < 0 {
                assert(code > 0x10FFFF) by (bit_vector)
                    requires
                        code == v as u32,
                        v < 0,
                        v >= -364,
                ;
            }
            let ghost before = self@.output;
            match crate::text::char_from_u32(code) {
                Some(c) => crate::text::push_char(&mut self.output, c),
                None => {},
            }
            proof {
                assert(self@.output =~= before + char_out(v as int));
            }
            self.pc = self.pc + 2;
        } else if func == 7 {
            self.print_string()?;
            self.pc = self.pc + 2;
        } else {
            self.pc = self.pc + 2;
        }
        Ok(())
    }

    /// Executes the instruction at PC: fetches two trytes, decodes them, then
    /// jumps, branches, calls, returns, makes a system call, halts, or executes a
    /// data instruction and moves PC past it.
    pub fn step(&mut self) -> (r: Result<(), ExecError>)
        requires
            old(self)@.wf(),
            step_safe(old(self)@),
        ensures
            (final(self)@, r) == step_spec(old(self)@),
            final(self)@.wf(),
    {
        if !self.running {
            return Err(ExecError::Halted);
        }
        let hi = self.mem_read(self.pc)?;
        let lo = self.mem_read(self.pc + 1)?;
        let inst = match decode(hi, lo) {
            Ok(inst) => inst,
            Err(_) => return Err(ExecError::BadInstruction),
        };
        match inst {
            Instruction::Jmp { offset } => {
                self.pc = self.pc + offset.to_i16() as i32;
            },
            Instruction::JmpR { rs } => {
                self.pc = self.regs[rs.idx() as usize].to_i16() as i32;
            },
            Instruction::Bz { rs, offset } => {
                if self.regs[rs.idx() as usize].to_i16() == 0 {
                    self.pc = self.pc + offset.to_i16() as i32;
                } else {
                    self.pc = self.pc + 2;
                }
            },
            Instruction::Bn { rs, offset } => {
                if self.regs[rs.idx() as usize].to_i16() < 0 {
                    self.pc = self.pc + offset.to_i16() as i32;
                } else {
                    self.pc = self.pc + 2;
                }
            },
            Instruction::Bp { rs, offset } => {
                if self.regs[rs.idx() as usize].to_i16() > 0 {
                    self.pc = self.pc + offset.to_i16() as i32;
                } else {
                    self.pc = self.pc + 2;
                }
            },
            Instruction::Call { offset } => {
                let ret = self.pc + 2;
                self.stack_push(ret)?;
                self.pc = self.pc + offset.to_i16() as i32;
            },
            Instruction::Ret => {
                self.pc = self.stack_pop()?;
            },
            Instruction::Syscall { rs } => {
                let func = self.regs[rs.idx() as usize].to_i16();
                self.syscall(func)?;
            },
            Instruction::Halt => {
                self.running = false;
            },
            _ => {
                self.exec_inst(&inst)?;
                self.pc = self.pc + 2;
            },
        }
        Ok(())
    }

    /// Steps until the machine stops or a step fails (the failure ends the run
    /// quietly). A run gives up after `u64::MAX` steps, with the machine still
    /// running.
    pub fn run(&mut self)
        requires
            old(self)@.wf(),
            run_safe(old(self)@, u64::MAX as nat),
        ensures
            final(self)@ == run_spec(old(self)@, u64::MAX as nat),
            final(self)@.wf(),
    {
        let mut fuel: u64 = u64::MAX;
        let mut failed = false;
        while self.running && fuel > 0 && !failed
            invariant
                self@.wf(),
                !failed ==> run_safe(self@, fuel as nat),
                !failed ==> run_spec(old(self)@, u64::MAX as nat) == run_spec(self@, fuel as nat),
                failed ==> run_spec(old(self)@, u64::MAX as nat) == self@,
            decreases fuel,
        {
            if let Err(_) = self.step() {
                failed = true;
            }
            fuel = fuel - 1;
        }
    }
}

} // verus!

verus! {

/// A store followed by a load through the same base register and offset reads
/// back the value the source register held before the store (the base must
/// not be R7, which the store rewrites as its address flag).
pub proof fn lemma_store_then_load(s: VMState, src: Reg, base: Reg, dst: Reg, imm: Tryte)
    requires
        s.wf(),
        src.0 < 8,
        base.0 < 8,
        dst.0 < 8,
        base.0 != 7,
        exec_spec(s, Instruction::St { rd: src, rs: base, imm }).1 is Ok,
    ensures
        ({
            let s1 = exec_spec(s, Instruction::St { rd: src, rs: base, imm }).0;
            let (s2, r) = exec_spec(s1, Instruction::Ld { rd: dst, rs: base, imm });
            &&& r is Ok
            &&& s2.reg(dst) == s.reg(src)
            &&& s2.wf()
        }),
{
}

/// What `RET` pops is the return address that `CALL` pushed: a call followed
/// by a return comes back to the instruction after the call, with the stack
/// pointer where it was.
pub proof fn lemma_call_then_ret(s: VMState, offset: Tryte)
    requires
        s.wf(),
        2 <= s.sp <= MEM_SIZE,
        in_memory(s.pc),
    ensures
        ({
            let (s1, r1) = control_spec(s, Instruction::Call { offset });
            let (s2, r2) = control_spec(s1, Instruction::Ret);
            &&& r1 is Ok
            &&& r2 is Ok
            &&& s2.pc == s.pc + 2
            &&& s2.sp == s.sp
        }),
{
    let ret = s.pc + 2;
    let s1 = push_return(s, ret).with_pc(s.pc + offset@);
    assert(s1.memory[s.sp - 2] == t(ret / 729 - 364));
    assert(s1.memory[s.sp - 1] == t(ret % 729 - 364));
    assert(popped_return(s1) == (ret / 729) * 729 + ret % 729);
}

/// `HALT` stops the machine, and a stopped machine neither steps nor runs:
/// every step reports `Halted` and leaves the state as it was.
pub proof fn lemma_halt_stops(s: VMState, n: nat)
    ensures
        !control_spec(s, Instruction::Halt).0.running,
        !s.running ==> step_spec(s) == (s, Err::<(), ExecError>(ExecError::Halted)),
        !s.running ==> run_spec(s, n) == s,
{
}

/// The saturated value of an exact sum: the nearer bound where it leaves the tryte range.
pub open spec fn saturate(v: int) -> int {
    if v > 364 {
        364
    } else if v < -364 {
        -364
    } else {
        v
    }
}

/// Arithmetic overflow saturates: `ADD` writes the sum clamped to the tryte
/// range, and R7 records the direction of the overflow (1 above, -1 below, 0 none).
pub proof fn lemma_add_saturates(s: VMState, rd: Reg, rs: Reg, rt: Reg)
    requires
        s.wf(),
        rd.0 < 7,
        rs.0 < 8,
        rt.0 < 8,
    ensures
        ({
            let sum = s.reg(rs)@ + s.reg(rt)@;
            let s1 = exec_spec(s, Instruction::Add { rd, rs, rt }).0;
            &&& s1.reg(rd)@ == saturate(sum)
            &&& s1.reg(Reg(7))@ == sgn(sum - saturate(sum))
        }),
{
}

/// Division by zero gives zero and sets R7 to -1.
pub proof fn lemma_div_by_zero(s: VMState, rd: Reg, rs: Reg, rt: Reg)
    requires
        s.wf(),
        rd.0 < 7,
        rs.0 < 8,
        rt.0 < 8,
        s.reg(rt)@ == 0,
    ensures
        exec_spec(s, Instruction::Div { rd, rs, rt }).0.reg(rd)@ == 0,
        exec_spec(s, Instruction::Div { rd, rs, rt }).0.reg(Reg(7))@ == -1,
        exec_spec(s, Instruction::Modulo { rd, rs, rt }).0.reg(rd)@ == 0,
        exec_spec(s, Instruction::Modulo { rd, rs, rt }).0.reg(Reg(7))@ == -1,
{
}

/// A write to memory is read back, and leaves every other cell as it was.
pub proof fn lemma_write_then_read(s: VMState, addr: int, v: Tryte, other: int)
    requires
        s.wf(),
        in_memory(addr),
    ensures
        s.with_mem(addr, v).wf(),
        s.with_mem(addr, v).memory[addr] == v,
        in_memory(other) && other != addr ==> s.with_mem(addr, v).memory[other] == s.memory[other],
{
}

/// Multiply-accumulate adds the full product to the accumulator, saturating
/// like `ADD`: R7 records the direction of an overflow (1 above, -1 below, 0 none).
pub proof fn lemma_mac_saturates(s: VMState, rd: Reg, rs: Reg, rt: Reg)
    requires
        s.wf(),
        rd.0 < 7,
        rs.0 < 8,
        rt.0 < 8,
    ensures
        ({
            let sum = s.reg(rd)@ + s.reg(rs)@ * s.reg(rt)@;
            let s1 = exec_spec(s, Instruction::Mac { rd, rs, rt }).0;
            &&& s1.reg(rd)@ == saturate(sum)
            &&& s1.reg(Reg(7))@ == sgn(sum - saturate(sum))
        }),
{
}

/// A step keeps the stack pointer in range: calls and returns only move it
/// when it stays inside, and nothing else moves it.
pub proof fn lemma_step_keeps_sp(s: VMState)
    requires
        s.wf(),
        s.sp_in_range(),
    ensures
        step_safe(s),
        step_spec(s).0.wf(),
        step_spec(s).0.sp_in_range(),
{
    if s.running && in_memory(s.pc) && in_memory(s.pc + 1) {
        if let Ok(inst) = decode_word(pair_word(s.memory[s.pc], s.memory[s.pc + 1])) {
            lemma_decode_wf(s);
            match inst {
                Instruction::Call { .. } | Instruction::Ret | Instruction::Jmp { .. }
                | Instruction::JmpR { .. } | Instruction::Bz { .. } | Instruction::Bn { .. }
                | Instruction::Bp { .. } | Instruction::Halt => {},
                Instruction::Syscall { rs } => {
                    lemma_syscall_keeps_sp(s, s.reg(rs)@);
                },
                _ => {
                    lemma_exec_keeps_sp(s, inst);
                },
            }
        }
    }
}

proof fn lemma_decode_wf(s: VMState)
    requires
        in_memory(s.pc),
        in_memory(s.pc + 1),
    ensures
        decode_word(pair_word(s.memory[s.pc], s.memory[s.pc + 1])) matches Ok(inst) ==> inst.wf(),
{
}

proof fn lemma_syscall_keeps_sp(s: VMState, func: int)
    requires
        s.wf(),
        s.sp_in_range(),
    ensures
        syscall_spec(s, func).0.wf(),
        syscall_spec(s, func).0.sp_in_range(),
{
}

proof fn lemma_exec_keeps_sp(s: VMState, inst: Instruction)
    requires
        s.wf(),
        s.sp_in_range(),
        inst.wf(),
    ensures
        exec_spec(s, inst).0.wf(),
        exec_spec(s, inst).0.sp == s.sp,
{
}

/// A machine whose stack pointer is in range can take every step of a run.
pub proof fn lemma_run_safe(s: VMState, n: nat)
    requires
        s.wf(),
        s.sp_in_range(),
    ensures
        run_safe(s, n),
    decreases n,
{
    if n > 0 && s.running {
        lemma_step_keeps_sp(s);
        lemma_run_safe(step_spec(s).0, (n - 1) as nat);
    }
}

/// Whether a run from `s` ends within `n` steps: the machine stops, or a step fails.
pub open spec fn run_ends_within(s: VMState, n: nat) -> bool
    decreases n,
{
    if !s.running {
        true
    } else if n == 0 {
        false
    } else {
        match step_spec(s).1 {
            Ok(()) => run_ends_within(step_spec(s).0, (n - 1) as nat),
            Err(_) => true,
        }
    }
}

/// A run that ends within `n` steps ends in the same state whatever larger
/// budget it is given: stepping until the machine stops or a step fails does
/// not depend on the budget once the run has ended. So `VM::run`, whose budget
/// is `u64::MAX`, reaches that state for every run that ends.
pub proof fn lemma_run_settles(s: VMState, n: nat, m: nat)
    requires
        run_ends_within(s, n),
        n <= m,
    ensures
        run_spec(s, m) == run_spec(s, n),
    decreases n,
{
    if s.running && n > 0 {
        if step_spec(s).1 is Ok {
            lemma_run_settles(step_spec(s).0, (n - 1) as nat, (m - 1) as nat);
        }
    }
}

/// `CMP` compares in signed order: `rd` gets 1 when `Rs > Rt`, -1 when
/// `Rs < Rt`, 0 when they are equal; `SGN` gives the sign of `Rs` the same
/// way. No other register changes.
pub proof fn lemma_compare_and_sign(s: VMState, rd: Reg, rs: Reg, rt: Reg)
    requires
        s.wf(),
        rd.0 < 8,
        rs.0 < 8,
        rt.0 < 8,
    ensures
        ({
            let a = s.reg(rs)@;
            let b = s.reg(rt)@;
            let c = exec_spec(s, Instruction::Cmp { rd, rs, rt }).0;
            let g = exec_spec(s, Instruction::Sgn { rd, rs }).0;
            &&& a > b ==> c.reg(rd)@ == 1
            &&& a < b ==> c.reg(rd)@ == -1
            &&& a == b ==> c.reg(rd)@ == 0
            &&& a > 0 ==> g.reg(rd)@ == 1
            &&& a < 0 ==> g.reg(rd)@ == -1
            &&& a == 0 ==> g.reg(rd)@ == 0
            &&& forall|i: int| 0 <= i < 8 && i != rd.0 ==> #[trigger] c.regs[i] == s.regs[i]
                && g.regs[i] == s.regs[i]
        }),
{
}

/// `DIV` and `MOD` by a nonzero divisor give the truncating quotient and its
/// remainder: quotient times divisor plus remainder is the dividend, the
/// remainder is smaller than the divisor and has the sign of the dividend,
/// and R7 is cleared.
pub proof fn lemma_div_mod_results(s: VMState, rd: Reg, rs: Reg, rt: Reg)
    requires
        s.wf(),
        rd.0 < 7,
        rs.0 < 8,
        rt.0 < 8,
        crate::tryte::in_tryte_range(s.reg(rs)@),
        crate::tryte::in_tryte_range(s.reg(rt)@),
        s.reg(rt)@ != 0,
    ensures
        ({
            let a = s.reg(rs)@;
            let b = s.reg(rt)@;
            let q = exec_spec(s, Instruction::Div { rd, rs, rt }).0;
            let r = exec_spec(s, Instruction::Modulo { rd, rs, rt }).0;
            &&& q.reg(rd)@ * b + r.reg(rd)@ == a
            &&& crate::tryte::abs(r.reg(rd)@) < crate::tryte::abs(b)
            &&& (a >= 0 ==> r.reg(rd)@ >= 0)
            &&& (a <= 0 ==> r.reg(rd)@ <= 0)
            &&& q.reg(Reg(7))@ == 0
            &&& r.reg(Reg(7))@ == 0
        }),
{
    let a = s.reg(rs)@;
    let b = s.reg(rt)@;
    crate::tryte::lemma_div_rem(a, b);
    crate::tryte::lemma_trunc_in_range(a, b);
}

/// `SYSCALL` with function code 3 appends R0 in decimal: what it appends reads
/// back, sign included, as R0's value; the rest of the output is kept and PC
/// moves past the instruction.
pub proof fn lemma_print_decimal(s: VMState, rs: Reg)
    requires
        s.wf(),
        rs.0 < 8,
        s.reg(rs)@ == 3,
    ensures
        ({
            let (s1, r) = control_spec(s, Instruction::Syscall { rs });
            let n = s.output.len() as int;
            &&& r is Ok
            &&& s1.output.len() > n
            &&& s1.output.subrange(0, n) == s.output
            &&& crate::assembler::number::signed_value(s1.output.skip(n), 10) == Some(s.regs[0]@)
            &&& s1.pc == s.pc + 2
        }),
{
    let r0 = s.regs[0]@;
    crate::assembler::number::lemma_decimal_text_reads_back(r0);
    let s1 = control_spec(s, Instruction::Syscall { rs }).0;
    let n = s.output.len() as int;
    assert(s1.output == s.output + crate::text::int_text(r0));
    assert(s1.output.subrange(0, n) =~= s.output);
    assert(s1.output.skip(n) =~= crate::text::int_text(r0));
    lemma_int_text_nonempty(r0);
}

proof fn lemma_int_text_nonempty(v: int)
    ensures
        crate::text::int_text(v).len() > 0,
{
    if v < 0 {
    } else {
        let n = v as nat;
        if n >= 10 {
        }
    }
}

} // verus!

