use lib::instruction::{Instruction, Reg};
use lib::tryte::Tryte;
use lib::vm::{ExecError, VM};

fn t(v: i16) -> Tryte {
    Tryte::from_i16(v).unwrap()
}

#[test]
fn vm_store_then_load_same_address() {
    let mut vm = VM::new();
    vm.regs[1] = t(-99);
    vm.regs[2] = t(300);
    vm.exec_inst(&Instruction::St { rd: Reg(1), rs: Reg(2), imm: t(5) }).unwrap();
    vm.exec_inst(&Instruction::Ld { rd: Reg(3), rs: Reg(2), imm: t(5) }).unwrap();
    assert_eq!(vm.regs[3], t(-99));
    assert_eq!(vm.memory[305], t(-99));
    assert_eq!(vm.memory[304], t(0));
}

#[test]
fn vm_call_then_ret_restores_pc_and_sp() {
    let mut vm = VM::new();
    let sp = vm.sp;
    let (hi, lo) = lib::instruction::encode(&Instruction::Call { offset: t(10) });
    vm.memory[20] = hi;
    vm.memory[21] = lo;
    let (hi, lo) = lib::instruction::encode(&Instruction::Ret);
    vm.memory[30] = hi;
    vm.memory[31] = lo;
    vm.pc = 20;
    vm.step().unwrap();
    assert_eq!(vm.pc, 30);
    assert_eq!(vm.sp, sp - 2);
    vm.step().unwrap();
    assert_eq!(vm.pc, 22);
    assert_eq!(vm.sp, sp);
}

#[test]
fn vm_halted_machine_does_not_step() {
    let mut vm = VM::new();
    let (hi, lo) = lib::instruction::encode(&Instruction::Halt);
    vm.memory[0] = hi;
    vm.memory[1] = lo;
    vm.step().unwrap();
    assert!(!vm.running);
    let pc = vm.pc;
    assert_eq!(vm.step(), Err(ExecError::Halted));
    assert_eq!(vm.pc, pc);
    vm.run();
    assert_eq!(vm.pc, pc);
}

#[test]
fn vm_mul_saturates_below() {
    let mut vm = VM::new();
    vm.regs[1] = t(-20);
    vm.regs[2] = t(20);
    vm.exec_inst(&Instruction::Mul { rd: Reg(0), rs: Reg(1), rt: Reg(2) }).unwrap();
    assert_eq!(vm.regs[0], t(-364));
    assert_eq!(vm.regs[7], t(-1));
}

#[test]
fn vm_bad_instruction_and_pc_outside_memory() {
    let mut vm = VM::new();
    // format I opcode (1, 1) is reserved
    vm.memory[0] = Tryte::from_trits([
        lib::trit::Trit::Zero,
        lib::trit::Trit::Zero,
        lib::trit::Trit::Zero,
        lib::trit::Trit::One,
        lib::trit::Trit::One,
        lib::trit::Trit::One,
    ]);
    assert_eq!(vm.step(), Err(ExecError::BadInstruction));
    assert_eq!(vm.pc, 0);
    vm.pc = -2;
    assert_eq!(vm.step(), Err(ExecError::BadAddress));
}

#[test]
fn vm_mac_adds_full_product_and_saturates() {
    let mut vm = VM::new();
    vm.regs[1] = t(20);
    vm.regs[2] = t(20);
    assert_eq!(vm.exec_inst(&Instruction::Mac { rd: Reg(0), rs: Reg(1), rt: Reg(2) }), Ok(()));
    assert_eq!(vm.regs[0].to_i16(), 364);
    assert_eq!(vm.regs[7].to_i16(), 1);
    vm.regs[0] = t(-300);
    vm.regs[1] = t(-10);
    vm.regs[2] = t(10);
    vm.exec_inst(&Instruction::Mac { rd: Reg(0), rs: Reg(1), rt: Reg(2) }).unwrap();
    assert_eq!(vm.regs[0].to_i16(), -364);
    assert_eq!(vm.regs[7].to_i16(), -1);
    vm.regs[0] = t(-300);
    vm.regs[1] = t(20);
    vm.regs[2] = t(20);
    vm.exec_inst(&Instruction::Mac { rd: Reg(0), rs: Reg(1), rt: Reg(2) }).unwrap();
    assert_eq!(vm.regs[0].to_i16(), 100);
    assert_eq!(vm.regs[7].to_i16(), 0);
}

#[test]
fn vm_store_from_r7_stores_its_old_value() {
    let mut vm = VM::new();
    vm.regs[7] = t(5);
    vm.regs[1] = t(10);
    assert_eq!(vm.exec_inst(&Instruction::St { rd: Reg(7), rs: Reg(1), imm: Tryte::zero() }), Ok(()));
    assert_eq!(vm.memory[10].to_i16(), 5);
    assert_eq!(vm.regs[7].to_i16(), 0);
}
