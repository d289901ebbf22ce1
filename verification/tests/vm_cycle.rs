use simulatron::vm::bus::DeviceBytes;
use simulatron::vm::cpu::{
    Registers, TypedValue, INTERRUPT_ILLEGAL_OPERATION, INTERRUPT_PAGE_FAULT, INTERRUPT_SYSCALL,
};
use simulatron::vm::cycle::{CycleAction, FloatOp, FloatRequest, Machine};
use simulatron::vm::memory::{Memory, Stored};

fn devices() -> DeviceBytes {
    DeviceBytes {
        keyboard: vec![0, 0],
        disk_a_control: vec![0; 9],
        disk_b_control: vec![0; 9],
        disk_a_data: vec![0; 0x1000],
        disk_b_data: vec![0; 0x1000],
    }
}

/// A machine in kernel mode with `code` in RAM at `at`, the program
/// counter there.
fn machine(at: u32, code: &[u8]) -> Machine {
    let mut mem = Memory::new(vec![0u8; 512]);
    for (i, b) in code.iter().enumerate() {
        mem.store_physical_8(at + i as u32, *b);
    }
    Machine { regs: Registers::new(), mem, pc: at, pfsr: 0, acts: vec![] }
}

/// A machine in user mode whose virtual page 0 maps to frame 0x6000 with
/// the given page flags, with `code` at virtual address 0x10.
fn user_machine(flags: u32, code: &[u8]) -> Machine {
    let mut m = machine(0x6010, code);
    m.mem.store_physical_32(0x4000, 0x5000 | 1);
    m.mem.store_physical_32(0x5000, 0x6000 | flags);
    m.regs.write_to_register(0x23, TypedValue::Word(0x4000)).unwrap();
    m.regs.set_kernel_mode(false);
    m.pc = 0x10;
    m
}

fn word(m: &Machine, reg: u8) -> u32 {
    match m.regs.read_from_register(reg, m.pfsr) {
        Ok(TypedValue::Word(w)) => w,
        other => panic!("not a word: {:?}", other),
    }
}

#[test]
fn test_cycle_runs_a_program() {
    let code = [
        0x0A, 0x00, 0x00, 0x00, 0x00, 0x05, // COPY r0 5
        0x21, 0x00, 0x00, 0x00, 0x00, 0x03, // ADD r0 3
        0x68, 0x00, 0x00, 0x40, 0x20, // CALL 0x4020
        0x00, // HALT
    ];
    let mut m = machine(0x4000, &code);
    m.mem.store_physical_8(0x4020, 0x6A); // RETURN
    let dev = devices();
    assert_eq!(m.cycle(&dev, None), Some(CycleAction::Next));
    assert_eq!(word(&m, 0), 5);
    assert_eq!(m.pc, 0x4006);
    assert_eq!(m.cycle(&dev, None), Some(CycleAction::Next));
    assert_eq!(word(&m, 0), 8);
    assert_eq!(m.cycle(&dev, None), Some(CycleAction::Next));
    assert_eq!(m.pc, 0x4020);
    assert_eq!(m.regs.stack_pointer(), 0xFFFF_FFFC);
    assert_eq!(m.cycle(&dev, None), Some(CycleAction::Next));
    assert_eq!(m.pc, 0x4011);
    assert_eq!(m.regs.stack_pointer(), 0);
    assert_eq!(m.cycle(&dev, None), Some(CycleAction::Halt));
    assert_eq!(m.pc, 0x4012);
    assert_eq!(m.acts, vec![Stored::Memory; 4]);
}

#[test]
fn test_cycle_pause_timer_syscall() {
    let code = [
        0x01, // PAUSE
        0x02, 0x00, 0x00, 0x03, 0xE8, // TIMER 1000
        0x6B, // SYSCALL
    ];
    let mut m = machine(0x4000, &code);
    let dev = devices();
    assert_eq!(m.cycle(&dev, None), Some(CycleAction::Pause));
    assert_eq!(m.cycle(&dev, None), Some(CycleAction::SetTimer(1000)));
    assert_eq!(m.cycle(&dev, None), Some(CycleAction::Raise(INTERRUPT_SYSCALL)));
    assert_eq!(m.pc, 0x4007);
}

#[test]
fn test_cycle_unknown_opcode_goes_on() {
    let mut m = machine(0x4000, &[0xFF]);
    let dev = devices();
    assert_eq!(m.cycle(&dev, None), Some(CycleAction::Raise(INTERRUPT_ILLEGAL_OPERATION)));
    assert_eq!(m.pc, 0x4001);
}

#[test]
fn test_cycle_privileged_in_user_mode_is_retried() {
    let mut m = user_machine(0x1F, &[0x00]);
    let dev = devices();
    assert_eq!(m.cycle(&dev, None), Some(CycleAction::Retry(INTERRUPT_ILLEGAL_OPERATION)));
    assert_eq!(m.pc, 0x10);
    assert_eq!(m.pfsr, 0);
    // PAUSE and TIMER are privileged too.
    let mut m = user_machine(0x1F, &[0x01]);
    assert_eq!(m.cycle(&dev, None), Some(CycleAction::Retry(INTERRUPT_ILLEGAL_OPERATION)));
    assert_eq!(m.pc, 0x10);
    let mut m = user_machine(0x1F, &[0x02, 0x00, 0x00, 0x00, 0x10]);
    assert_eq!(m.cycle(&dev, None), Some(CycleAction::Retry(INTERRUPT_ILLEGAL_OPERATION)));
    assert_eq!(m.pc, 0x10);
}

#[test]
fn test_cycle_page_fault_is_retried() {
    // Valid but not present.
    let mut m = user_machine(0x01, &[0x6B]);
    let dev = devices();
    assert_eq!(m.cycle(&dev, None), Some(CycleAction::Retry(INTERRUPT_PAGE_FAULT)));
    assert_eq!(m.pc, 0x10);
    assert_eq!(m.pfsr, 2);
    // Readable but not executable: an illegal access.
    let mut m = user_machine(0x07, &[0x6B]);
    assert_eq!(m.cycle(&dev, None), Some(CycleAction::Retry(INTERRUPT_PAGE_FAULT)));
    assert_eq!(m.pfsr, 1);
    // Executable: the system call goes through.
    let mut m = user_machine(0x1F, &[0x6B]);
    assert_eq!(m.cycle(&dev, None), Some(CycleAction::Raise(INTERRUPT_SYSCALL)));
    assert_eq!(m.pc, 0x11);
}

#[test]
fn test_cycle_bad_operand_is_retried() {
    // COPY r0 f0: registers of different types.
    let mut m = machine(0x4000, &[0x0B, 0x00, 0x18]);
    let dev = devices();
    assert_eq!(m.cycle(&dev, None), Some(CycleAction::Retry(INTERRUPT_ILLEGAL_OPERATION)));
    assert_eq!(m.pc, 0x4000);
}

#[test]
fn test_cycle_takes_an_interrupt() {
    let mut m = machine(0x4000, &[0x00]);
    m.mem.store_physical_32(8, 0x4100); // the handler of interrupt 2
    m.mem.store_physical_8(0x4100, 0x01); // PAUSE
    m.regs.set_imr(0x00FF);
    let dev = devices();
    assert_eq!(m.cycle(&dev, Some(2)), Some(CycleAction::Pause));
    assert_eq!(m.pc, 0x4101);
    assert_eq!(m.regs.imr(), 0);
    assert_eq!(m.regs.stack_pointer(), 0xFFFF_FFF8);
    // The program counter that was pushed is where the program stood.
    assert_eq!(m.mem.load_physical_32(&dev, 0xFFFF_FFFA), Some(0x4000));
    assert_eq!(m.acts.len(), 8);
}

#[test]
fn test_cycle_float_work_goes_out() {
    let code = [
        0x0A, 0x18, 0x3F, 0x80, 0x00, 0x00, // COPY f0 1.0
        0x21, 0x18, 0x40, 0x00, 0x00, 0x00, // ADD f0 2.0
    ];
    let mut m = machine(0x4000, &code);
    let dev = devices();
    assert_eq!(m.cycle(&dev, None), Some(CycleAction::Next));
    let req = match m.cycle(&dev, None) {
        Some(CycleAction::Float(req)) => req,
        other => panic!("no float request: {:?}", other),
    };
    assert_eq!(req, FloatRequest { op: FloatOp::Add, reg: 0x18, x: 0x3F80_0000, y: 0x4000_0000, retry_pc: 0x4006 });
    let sum = (f32::from_bits(req.x) + f32::from_bits(req.y)).to_bits();
    assert_eq!(m.finish_float(req, sum, 0), CycleAction::Next);
    assert_eq!(m.regs.read_from_register(0x18, 0), Ok(TypedValue::Float(0x4040_0000)));
    assert_eq!(m.pc, 0x400C);
}

#[test]
fn test_finish_float_compare_and_bad_register() {
    let mut m = machine(0x4000, &[]);
    let cmp = FloatRequest { op: FloatOp::Compare, reg: 0x18, x: 0, y: 0, retry_pc: 0x4000 };
    assert_eq!(m.finish_float(cmp, 0, 0x01), CycleAction::Next);
    assert_eq!(m.regs.flags(), 0x01);
    // A conversion to an integer into a register that is no word register.
    m.pc = 0x4100;
    let conv = FloatRequest { op: FloatOp::FloatToSigned, reg: 0x18, x: 0, y: 0, retry_pc: 0x4000 };
    assert_eq!(m.finish_float(conv, 7, 0), CycleAction::Retry(INTERRUPT_ILLEGAL_OPERATION));
    assert_eq!(m.pc, 0x4000);
}
