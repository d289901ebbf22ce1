//! One cycle of the processor: taking an interrupt, fetching the opcode at
//! the program counter, fetching its operands, and executing it.
//!
//! A cycle ends in an action for whoever runs the machine: go on, halt,
//! pause until an interrupt, set the timer, raise an interrupt and go on,
//! raise an interrupt and try the instruction again (the program counter
//! then back where the instruction began, and for a page fault the page
//! fault status register set), compute a floating-point result (which
//! `finish_float` then writes), or stop on a fatal error. Stores to the
//! display and the devices come back in the machine's list of stores.
//!
//! Where the processor would stop on an arithmetic overflow of its own (an
//! address past 2^32, the carry pushed past the largest operand, negating
//! the most negative value), a cycle gives `None`.
use vstd::prelude::*;
use crate::vm::access::{
    access_fits, enter_interrupt, enter_interrupt_spec, entry_fits, load_typed_spec, pop_spec, push_fits, push_spec,
    pushed_sp, store_typed_spec, type_bytes, type_of, block_fits, blockcopy_spec, blockset_spec,
};
use crate::vm::bus::{directory_fits, Access, DeviceBytes, DeviceBytesView};
use crate::vm::alu::{lemma_read_typed, execute_int_op, execute_spec, int_negate, int_not, is_count, not_spec, typed_value, value_bits, IntOp};
use crate::vm::cpu::{
    condition_holds, flag_bit, jump_condition, width, push_address, read_spec, write_spec, reg_ref_type, reg_type, regs_ok, stack_pointer_spec,
    Condition, RegState, Registers, TypedValue, ValueType, FLAG_NEGATIVE, FLAG_ZERO, INTERRUPT_ILLEGAL_OPERATION,
    INTERRUPT_PAGE_FAULT, INTERRUPT_SYSCALL,
};
use crate::vm::memory::{Memory, MemoryView, Stored};

verus! {

/// The processor's state: its registers, the memory, the program counter,
/// the page fault status register, and the stores made so far.
#[derive(Debug)]
pub struct Machine {
    pub regs: Registers,
    pub mem: Memory,
    pub pc: u32,
    pub pfsr: u32,
    pub acts: Vec<Stored>,
}

/// The abstract state of the processor.
pub struct MState {
    pub regs: RegState,
    pub mem: MemoryView,
    pub pc: u32,
    pub pfsr: u32,
    pub acts: Seq<Stored>,
}

impl View for Machine {
    type V = MState;

    open spec fn view(&self) -> MState {
        MState { regs: self.regs@, mem: self.mem@, pc: self.pc, pfsr: self.pfsr, acts: self.acts@ }
    }
}

impl Machine {
    /// Whether the register file and the memory are well formed.
    pub open spec fn wf(&self) -> bool {
        regs_ok(self.regs@) && self.mem.wf()
    }
}

/// Why an instruction stops: an interrupt (illegal operation, division by
/// zero), or a page fault of a kind.
#[derive(Debug, Clone, Copy, PartialEq, Eq, Structural)]
pub enum Fault {
    Interrupt(u32),
    PageFault(u32),
}

/// The illegal-operation fault.
pub open spec fn illegal() -> Fault {
    Fault::Interrupt(INTERRUPT_ILLEGAL_OPERATION)
}

/// The value of a step that went through.
pub open spec fn ok_val(r: Option<Result<u32, Fault>>) -> u32 {
    match r {
        Some(Ok(v)) => v,
        _ => 0,
    }
}

/// The outcome of a step that did not go through, for a step of another
/// result type.
pub open spec fn fail<A, T>(r: Option<Result<A, Fault>>) -> Option<Result<T, Fault>> {
    match r {
        Some(Err(f)) => Some(Err(f)),
        _ => None,
    }
}

/// The fault of a failed memory access.
pub open spec fn access_fault<T>(a: Access<T>) -> Fault {
    match a {
        Access::PageFault(f) => Fault::PageFault(f),
        _ => illegal(),
    }
}

/// Fetch a value of type `ty` at the program counter, for execution, and
/// move the program counter past it; its bits.
pub open spec fn fetch_s(d: DeviceBytesView, s: MState, ty: ValueType) -> (MState, Option<Result<u32, Fault>>) {
    if !access_fits(s.regs, s.pc, type_bytes(ty)) {
        (s, None)
    } else {
        match load_typed_spec(s.regs, s.mem, d, s.pc, true, ty) {
            Access::Done(v) => (
                MState { pc: ((s.pc + type_bytes(ty)) % 0x1_0000_0000) as u32, ..s },
                Some(Ok(value_bits(v) as u32)),
            ),
            Access::Illegal => (s, Some(Err(illegal()))),
            Access::PageFault(f) => (s, Some(Err(Fault::PageFault(f)))),
        }
    }
}

/// A typed load gives a value of the type asked for, within the type's
/// range.
pub proof fn lemma_loaded_type(s: RegState, m: MemoryView, d: DeviceBytesView, a: u32, is_fetch: bool, ty: ValueType)
    ensures
        load_typed_spec(s, m, d, a, is_fetch, ty) matches Access::Done(v) ==> crate::vm::access::type_of(v) == ty
            && 0 <= crate::vm::alu::value_bits(v) < crate::vm::cpu::width(ty),
{
}

/// Whether an access of `n` bytes at `a` fits, as `access_fits` says.
#[verifier::spinoff_prover]
pub fn check_fits(regs: &Registers, a: u32, n: u32) -> (r: bool)
    requires
        n >= 1,
    ensures
        r == access_fits(regs@, a, n as nat),
{
    if a as u64 + n as u64 - 1 > 0xFFFF_FFFF {
        return false;
    }
    if regs.kernel_mode() {
        return true;
    }
    let last = a + (n - 1);
    let top: u64 = regs.pdpr() as u64 + 4 * ((last >> 22u32) as u64) + 3;
    assert((last >> 22u32) == last / 0x40_0000) by (bit_vector);
    proof {
        let pdpr = regs@.pdpr;
        if top <= 0xFFFF_FFFF {
            assert forall|i: int| 0 <= i < n implies pdpr + 4 * crate::vm::mmu::directory_index(
                #[trigger] ((a + i) as u32),
            ) + 3 <= u32::MAX by {
                vstd::arithmetic::div_mod::lemma_div_is_ordered((a + i) as int, last as int, 0x40_0000);
            }
        } else {
            assert(((a + (n - 1) as int) as u32) == last);
            assert(!(pdpr + 4 * crate::vm::mmu::directory_index(((a + (n - 1) as int) as u32)) + 3 <= u32::MAX));
        }
    }
    top <= 0xFFFF_FFFF
}

impl Machine {
    /// Fetch a value at the program counter, as `fetch_s` says.
    #[verifier::spinoff_prover]
    #[verifier::rlimit(40)]
    pub fn fetch(&mut self, dev: &DeviceBytes, ty: ValueType) -> (r: Option<Result<u32, Fault>>)
        requires
            old(self).wf(),
            crate::vm::bus::devices_wf(dev@),
        ensures
            final(self).wf(),
            (final(self)@, r) == fetch_s(dev@, old(self)@, ty),
            r matches Some(Ok(v)) ==> v < crate::vm::cpu::width(ty),
    {
        let n: u32 = match ty {
            ValueType::Byte => 1,
            ValueType::Half => 2,
            _ => 4,
        };
        if !check_fits(&self.regs, self.pc, n) {
            return None;
        }
        let a = crate::vm::access::load_typed(&self.regs, &self.mem, dev, self.pc, true, ty);
        proof {
            lemma_loaded_type(self.regs@, self.mem@, dev@, self.pc, true, ty);
        }
        match a {
            Access::Done(v) => {
                self.pc = self.pc.wrapping_add(n);
                let bits = match v {
                    TypedValue::Byte(b) => b as u32,
                    TypedValue::Half(h) => h as u32,
                    TypedValue::Word(w) => w,
                    TypedValue::Float(f) => f,
                };
                Some(Ok(bits))
            },
            Access::Illegal => Some(Err(Fault::Interrupt(INTERRUPT_ILLEGAL_OPERATION))),
            Access::PageFault(f) => Some(Err(Fault::PageFault(f))),
        }
    }
}

/// A request for floating-point work: the operation, the register it is
/// about, the operands' bits, and the program counter to go back to if the
/// result cannot be written.
#[derive(Debug, Clone, Copy, PartialEq, Eq, Structural)]
pub struct FloatRequest {
    pub op: FloatOp,
    pub reg: u8,
    pub x: u32,
    pub y: u32,
    pub retry_pc: u32,
}

/// The floating-point operations: arithmetic on a float register with a
/// float operand, negation, comparison (flags only), and the conversions
/// between a word register and a float register, signed or unsigned.
#[derive(Debug, Clone, Copy, PartialEq, Eq, Structural)]
pub enum FloatOp {
    Add,
    Sub,
    Mul,
    Div,
    Rem,
    Negate,
    Compare,
    SignedToFloat,
    UnsignedToFloat,
    FloatToSigned,
    FloatToUnsigned,
}

/// What a cycle asks of whoever runs the machine.
#[derive(Debug, Clone, Copy, PartialEq, Eq, Structural)]
pub enum CycleAction {
    Next,
    Halt,
    Pause,
    SetTimer(u32),
    Raise(u32),
    Retry(u32),
    Float(FloatRequest),
    Fatal,
}

/// The outcome of a step that ends an instruction: its action, a fault, or
/// `None` where the processor would stop on an overflow of its own.
pub open spec fn act(s: MState, a: CycleAction) -> (MState, Option<Result<CycleAction, Fault>>) {
    (s, Some(Ok(a)))
}

/// A register's value, or the illegal-operation fault where it cannot be
/// read.
pub open spec fn read_s(s: MState, reg: u8) -> Result<TypedValue, Fault> {
    match read_spec(s.regs, reg, s.pfsr) {
        Some(v) => Ok(v),
        None => Err(illegal()),
    }
}

/// A register's value as a word: the illegal-operation fault where it is
/// not a word register.
pub open spec fn read_word_s(s: MState, reg: u8) -> Result<u32, Fault> {
    match read_s(s, reg) {
        Ok(TypedValue::Word(w)) => Ok(w),
        Ok(_) => Err(illegal()),
        Err(e) => Err(e),
    }
}

/// A register's value as a byte: the illegal-operation fault where it is
/// not a byte register.
pub open spec fn read_byte_s(s: MState, reg: u8) -> Result<u8, Fault> {
    match read_s(s, reg) {
        Ok(TypedValue::Byte(b)) => Ok(b),
        Ok(_) => Err(illegal()),
        Err(e) => Err(e),
    }
}

/// A register's type, or the illegal-operation fault where there is no
/// such register.
pub open spec fn reg_ty_s(reg: u8) -> Result<ValueType, Fault> {
    match reg_type(reg) {
        Some(t) => Ok(t),
        None => Err(illegal()),
    }
}

/// Push a value onto the current stack, as `push_spec` says.
pub open spec fn push_m(d: DeviceBytesView, s: MState, v: TypedValue) -> (MState, Option<Result<(), Fault>>) {
    if !push_fits(s.regs, v) {
        (s, None)
    } else {
        let (r1, m1, a, res) = push_spec(s.regs, s.mem, d, v);
        (MState { regs: r1, mem: m1, acts: s.acts + a, ..s }, match res {
            Access::Done(_) => Some(Ok(())),
            other => Some(Err(access_fault(other))),
        })
    }
}

/// Pop a value off the current stack, as `pop_spec` says.
pub open spec fn pop_m(d: DeviceBytesView, s: MState, ty: ValueType) -> (MState, Option<Result<TypedValue, Fault>>) {
    if !access_fits(s.regs, stack_pointer_spec(s.regs), type_bytes(ty)) {
        (s, None)
    } else {
        let (r1, a) = pop_spec(s.regs, s.mem, d, ty);
        (MState { regs: r1, ..s }, match a {
            Access::Done(v) => Some(Ok(v)),
            other => Some(Err(access_fault(other))),
        })
    }
}

impl Machine {
    /// A register's value, as `read_s` says.
    #[verifier::spinoff_prover]
    pub fn read(&self, reg: u8) -> (r: Result<TypedValue, Fault>)
        requires
            self.wf(),
        ensures
            r == read_s(self@, reg),
    {
        match self.regs.read_from_register(reg, self.pfsr) {
            Ok(v) => Ok(v),
            Err(_) => Err(Fault::Interrupt(INTERRUPT_ILLEGAL_OPERATION)),
        }
    }

    /// A register's value as a word, as `read_word_s` says.
    #[verifier::spinoff_prover]
    pub fn read_word(&self, reg: u8) -> (r: Result<u32, Fault>)
        requires
            self.wf(),
        ensures
            r == read_word_s(self@, reg),
    {
        match self.read(reg) {
            Ok(TypedValue::Word(w)) => Ok(w),
            Ok(_) => Err(Fault::Interrupt(INTERRUPT_ILLEGAL_OPERATION)),
            Err(e) => Err(e),
        }
    }

    /// A register's value as a byte, as `read_byte_s` says.
    #[verifier::spinoff_prover]
    pub fn read_byte(&self, reg: u8) -> (r: Result<u8, Fault>)
        requires
            self.wf(),
        ensures
            r == read_byte_s(self@, reg),
    {
        match self.read(reg) {
            Ok(TypedValue::Byte(b)) => Ok(b),
            Ok(_) => Err(Fault::Interrupt(INTERRUPT_ILLEGAL_OPERATION)),
            Err(e) => Err(e),
        }
    }

    /// Push a value onto the current stack, as `push_m` says.
    #[verifier::spinoff_prover]
    pub fn push(&mut self, dev: &DeviceBytes, v: TypedValue) -> (r: Option<Result<(), Fault>>)
        requires
            old(self).wf(),
            crate::vm::bus::devices_wf(dev@),
        ensures
            final(self).wf(),
            (final(self)@, r) == push_m(dev@, old(self)@, v),
    {
        let n = v.size_in_bytes();
        let sp = push_address(self.regs.stack_pointer(), n);
        if !check_fits(&self.regs, sp, n) {
            return None;
        }
        let (mut a, res) = crate::vm::access::push(&mut self.regs, &mut self.mem, dev, v);
        self.acts.append(&mut a);
        match res {
            Access::Done(_) => Some(Ok(())),
            Access::Illegal => Some(Err(Fault::Interrupt(INTERRUPT_ILLEGAL_OPERATION))),
            Access::PageFault(f) => Some(Err(Fault::PageFault(f))),
        }
    }

    /// Pop a value off the current stack, as `pop_m` says.
    #[verifier::spinoff_prover]
    pub fn pop(&mut self, dev: &DeviceBytes, ty: ValueType) -> (r: Option<Result<TypedValue, Fault>>)
        requires
            old(self).wf(),
            crate::vm::bus::devices_wf(dev@),
        ensures
            final(self).wf(),
            (final(self)@, r) == pop_m(dev@, old(self)@, ty),
    {
        let n: u32 = match ty {
            ValueType::Byte => 1,
            ValueType::Half => 2,
            _ => 4,
        };
        if !check_fits(&self.regs, self.regs.stack_pointer(), n) {
            return None;
        }
        match crate::vm::access::pop(&mut self.regs, &self.mem, dev, ty) {
            Access::Done(v) => Some(Ok(v)),
            Access::Illegal => Some(Err(Fault::Interrupt(INTERRUPT_ILLEGAL_OPERATION))),
            Access::PageFault(f) => Some(Err(Fault::PageFault(f))),
        }
    }
}

/// The result of an instruction that only needs kernel mode: the
/// illegal-operation fault in user mode.
pub open spec fn privileged_s(s: MState, a: CycleAction) -> (MState, Option<Result<CycleAction, Fault>>) {
    if !s.regs.kernel_mode {
        (s, Some(Err(illegal())))
    } else {
        act(s, a)
    }
}

/// TIMER: set the timer to a number of milliseconds, a literal word or a
/// word register's value; kernel mode only.
pub open spec fn timer_s(d: DeviceBytesView, s: MState, literal: bool) -> (MState, Option<Result<CycleAction, Fault>>) {
    if !s.regs.kernel_mode {
        (s, Some(Err(illegal())))
    } else if literal {
        let (s1, r1) = fetch_s(d, s, ValueType::Word);
        if !(r1 matches Some(Ok(_))) {
            (s1, fail(r1))
        } else {
            act(s1, CycleAction::SetTimer(ok_val(r1)))
        }
    } else {
        let (s1, r1) = fetch_s(d, s, ValueType::Byte);
        if !(r1 matches Some(Ok(_))) {
            (s1, fail(r1))
        } else {
            match read_word_s(s1, ok_val(r1) as u8) {
                Ok(ms) => act(s1, CycleAction::SetTimer(ms)),
                Err(e) => (s1, Some(Err(e))),
            }
        }
    }
}

/// An address operand: a literal word, or a word register's value.
pub open spec fn address_s(d: DeviceBytesView, s: MState, literal: bool) -> (MState, Option<Result<u32, Fault>>) {
    if literal {
        fetch_s(d, s, ValueType::Word)
    } else {
        let (s1, r1) = fetch_s(d, s, ValueType::Byte);
        if !(r1 matches Some(Ok(_))) {
            (s1, r1)
        } else {
            (s1, Some(read_word_s(s1, ok_val(r1) as u8)))
        }
    }
}

/// JUMP, or a conditional jump where `c` is given: to the address operand,
/// where the condition holds of the flags.
pub open spec fn jump_s(d: DeviceBytesView, s: MState, literal: bool, c: Option<Condition>) -> (
    MState,
    Option<Result<CycleAction, Fault>>,
) {
    let (s1, r1) = address_s(d, s, literal);
    if !(r1 matches Some(Ok(_))) {
        (s1, fail(r1))
    } else {
        let go = match c {
            None => true,
            Some(c) => condition_holds(c, s1.regs.flags),
        };
        act(if go {
            MState { pc: ok_val(r1), ..s1 }
        } else {
            s1
        }, CycleAction::Next)
    }
}

/// CALL: push the address of the next instruction, then jump to the
/// address operand.
pub open spec fn call_s(d: DeviceBytesView, s: MState, literal: bool) -> (MState, Option<Result<CycleAction, Fault>>) {
    let (s1, r1) = address_s(d, s, literal);
    if !(r1 matches Some(Ok(_))) {
        (s1, fail(r1))
    } else {
        let (s2, r2) = push_m(d, s1, TypedValue::Word(s1.pc));
        match r2 {
            Some(Ok(_)) => act(MState { pc: ok_val(r1), ..s2 }, CycleAction::Next),
            other => (s2, fail(other)),
        }
    }
}

/// RETURN: pop the return address into the program counter.
pub open spec fn return_s(d: DeviceBytesView, s: MState) -> (MState, Option<Result<CycleAction, Fault>>) {
    let (s1, r1) = pop_m(d, s, ValueType::Word);
    match r1 {
        Some(Ok(TypedValue::Word(a))) => act(MState { pc: a, ..s1 }, CycleAction::Next),
        Some(Ok(_)) => (s1, Some(Err(illegal()))),
        other => (s1, fail(other)),
    }
}

/// USERMODE: pop the address to go on at, clear the flags and enter user
/// mode; kernel mode only.
pub open spec fn usermode_s(d: DeviceBytesView, s: MState) -> (MState, Option<Result<CycleAction, Fault>>) {
    if !s.regs.kernel_mode {
        (s, Some(Err(illegal())))
    } else {
        let (s1, r1) = pop_m(d, s, ValueType::Word);
        match r1 {
            Some(Ok(TypedValue::Word(a))) => act(
                MState { pc: a, regs: RegState { flags: 0, kernel_mode: false, ..s1.regs }, ..s1 },
                CycleAction::Next,
            ),
            Some(Ok(_)) => (s1, Some(Err(illegal()))),
            other => (s1, fail(other)),
        }
    }
}

/// IRETURN: pop the interrupt mask, the program counter and the flags word
/// that entering the interrupt pushed; bit 15 of the flags word clear means
/// user mode. Where a pop fails, what was popped is pushed back; kernel mode
/// only.
pub open spec fn ireturn_s(d: DeviceBytesView, s: MState) -> (MState, Option<Result<CycleAction, Fault>>) {
    if !s.regs.kernel_mode {
        (s, Some(Err(illegal())))
    } else {
        let (s1, r1) = pop_m(d, s, ValueType::Half);
        match r1 {
            Some(Ok(TypedValue::Half(imr))) => {
                let (s2, r2) = pop_m(d, s1, ValueType::Word);
                match r2 {
                    Some(Ok(TypedValue::Word(pc))) => {
                        let (s3, r3) = pop_m(d, s2, ValueType::Half);
                        match r3 {
                            Some(Ok(TypedValue::Half(fl))) => act(
                                MState {
                                    pc,
                                    regs: RegState {
                                        kernel_mode: fl >= 0x8000,
                                        imr,
                                        flags: (fl % 0x8000) as u16,
                                        ..s3.regs
                                    },
                                    ..s3
                                },
                                CycleAction::Next,
                            ),
                            Some(Ok(_)) => (s3, Some(Err(illegal()))),
                            Some(Err(e)) => {
                                let (s4, u1) = push_m(d, s3, TypedValue::Word(pc));
                                if !(u1 matches Some(Ok(_))) {
                                    (s4, None)
                                } else {
                                    let (s5, u2) = push_m(d, s4, TypedValue::Half(imr));
                                    if !(u2 matches Some(Ok(_))) {
                                        (s5, None)
                                    } else {
                                        (s5, Some(Err(e)))
                                    }
                                }
                            },
                            None => (s3, None),
                        }
                    },
                    Some(Ok(_)) => (s2, Some(Err(illegal()))),
                    Some(Err(e)) => {
                        let (s3, u) = push_m(d, s2, TypedValue::Half(imr));
                        if !(u matches Some(Ok(_))) {
                            (s3, None)
                        } else {
                            (s3, Some(Err(e)))
                        }
                    },
                    None => (s2, None),
                }
            },
            Some(Ok(_)) => (s1, Some(Err(illegal()))),
            other => (s1, fail(other)),
        }
    }
}

impl Machine {
    /// TIMER, as `timer_s` says.
    #[verifier::spinoff_prover]
    fn op_timer(&mut self, dev: &DeviceBytes, literal: bool) -> (r: Option<Result<CycleAction, Fault>>)
        requires
            old(self).wf(),
            crate::vm::bus::devices_wf(dev@),
        ensures
            final(self).wf(),
            (final(self)@, r) == timer_s(dev@, old(self)@, literal),
    {
        if !self.regs.kernel_mode() {
            return Some(Err(Fault::Interrupt(INTERRUPT_ILLEGAL_OPERATION)));
        }
        if literal {
            match self.fetch(dev, ValueType::Word) {
                Some(Ok(ms)) => Some(Ok(CycleAction::SetTimer(ms))),
                Some(Err(e)) => Some(Err(e)),
                None => None,
            }
        } else {
            let reg = match self.fetch(dev, ValueType::Byte) {
                Some(Ok(v)) => v as u8,
                Some(Err(e)) => return Some(Err(e)),
                None => return None,
            };
            match self.read_word(reg) {
                Ok(ms) => Some(Ok(CycleAction::SetTimer(ms))),
                Err(e) => Some(Err(e)),
            }
        }
    }

    /// An address operand, as `address_s` says.
    #[verifier::spinoff_prover]
    fn address(&mut self, dev: &DeviceBytes, literal: bool) -> (r: Option<Result<u32, Fault>>)
        requires
            old(self).wf(),
            crate::vm::bus::devices_wf(dev@),
        ensures
            final(self).wf(),
            (final(self)@, r) == address_s(dev@, old(self)@, literal),
    {
        if literal {
            self.fetch(dev, ValueType::Word)
        } else {
            let reg = match self.fetch(dev, ValueType::Byte) {
                Some(Ok(v)) => v as u8,
                Some(Err(e)) => return Some(Err(e)),
                None => return None,
            };
            Some(self.read_word(reg))
        }
    }

    /// JUMP and the conditional jumps, as `jump_s` says.
    #[verifier::spinoff_prover]
    fn op_jump(&mut self, dev: &DeviceBytes, literal: bool, c: Option<Condition>) -> (r: Option<Result<CycleAction, Fault>>)
        requires
            old(self).wf(),
            crate::vm::bus::devices_wf(dev@),
        ensures
            final(self).wf(),
            (final(self)@, r) == jump_s(dev@, old(self)@, literal, c),
    {
        let a = match self.address(dev, literal) {
            Some(Ok(a)) => a,
            Some(Err(e)) => return Some(Err(e)),
            None => return None,
        };
        let go = match c {
            None => true,
            Some(c) => jump_condition(c, self.regs.flags()),
        };
        if go {
            self.pc = a;
        }
        Some(Ok(CycleAction::Next))
    }

    /// CALL, as `call_s` says.
    #[verifier::spinoff_prover]
    fn op_call(&mut self, dev: &DeviceBytes, literal: bool) -> (r: Option<Result<CycleAction, Fault>>)
        requires
            old(self).wf(),
            crate::vm::bus::devices_wf(dev@),
        ensures
            final(self).wf(),
            (final(self)@, r) == call_s(dev@, old(self)@, literal),
    {
        let a = match self.address(dev, literal) {
            Some(Ok(a)) => a,
            Some(Err(e)) => return Some(Err(e)),
            None => return None,
        };
        let ret = self.pc;
        match self.push(dev, TypedValue::Word(ret)) {
            Some(Ok(_)) => {},
            Some(Err(e)) => return Some(Err(e)),
            None => return None,
        }
        self.pc = a;
        Some(Ok(CycleAction::Next))
    }

    /// RETURN, as `return_s` says.
    #[verifier::spinoff_prover]
    fn op_return(&mut self, dev: &DeviceBytes) -> (r: Option<Result<CycleAction, Fault>>)
        requires
            old(self).wf(),
            crate::vm::bus::devices_wf(dev@),
        ensures
            final(self).wf(),
            (final(self)@, r) == return_s(dev@, old(self)@),
    {
        match self.pop(dev, ValueType::Word) {
            Some(Ok(TypedValue::Word(a))) => {
                self.pc = a;
                Some(Ok(CycleAction::Next))
            },
            Some(Ok(_)) => Some(Err(Fault::Interrupt(INTERRUPT_ILLEGAL_OPERATION))),
            Some(Err(e)) => Some(Err(e)),
            None => None,
        }
    }

    /// USERMODE, as `usermode_s` says.
    #[verifier::spinoff_prover]
    fn op_usermode(&mut self, dev: &DeviceBytes) -> (r: Option<Result<CycleAction, Fault>>)
        requires
            old(self).wf(),
            crate::vm::bus::devices_wf(dev@),
        ensures
            final(self).wf(),
            (final(self)@, r) == usermode_s(dev@, old(self)@),
    {
        if !self.regs.kernel_mode() {
            return Some(Err(Fault::Interrupt(INTERRUPT_ILLEGAL_OPERATION)));
        }
        match self.pop(dev, ValueType::Word) {
            Some(Ok(TypedValue::Word(a))) => {
                self.pc = a;
                self.regs.set_flags(0);
                self.regs.set_kernel_mode(false);
                Some(Ok(CycleAction::Next))
            },
            Some(Ok(_)) => Some(Err(Fault::Interrupt(INTERRUPT_ILLEGAL_OPERATION))),
            Some(Err(e)) => Some(Err(e)),
            None => None,
        }
    }

    /// IRETURN, as `ireturn_s` says.
    #[verifier::spinoff_prover]
    fn op_ireturn(&mut self, dev: &DeviceBytes) -> (r: Option<Result<CycleAction, Fault>>)
        requires
            old(self).wf(),
            crate::vm::bus::devices_wf(dev@),
        ensures
            final(self).wf(),
            (final(self)@, r) == ireturn_s(dev@, old(self)@),
    {
        if !self.regs.kernel_mode() {
            return Some(Err(Fault::Interrupt(INTERRUPT_ILLEGAL_OPERATION)));
        }
        let imr = match self.pop(dev, ValueType::Half) {
            Some(Ok(TypedValue::Half(h))) => h,
            Some(Ok(_)) => return Some(Err(Fault::Interrupt(INTERRUPT_ILLEGAL_OPERATION))),
            Some(Err(e)) => return Some(Err(e)),
            None => return None,
        };
        let pc = match self.pop(dev, ValueType::Word) {
            Some(Ok(TypedValue::Word(w))) => w,
            Some(Ok(_)) => return Some(Err(Fault::Interrupt(INTERRUPT_ILLEGAL_OPERATION))),
            Some(Err(e)) => {
                return match self.push(dev, TypedValue::Half(imr)) {
                    Some(Ok(_)) => Some(Err(e)),
                    _ => None,
                };
            },
            None => return None,
        };
        let fl = match self.pop(dev, ValueType::Half) {
            Some(Ok(TypedValue::Half(h))) => h,
            Some(Ok(_)) => return Some(Err(Fault::Interrupt(INTERRUPT_ILLEGAL_OPERATION))),
            Some(Err(e)) => {
                match self.push(dev, TypedValue::Word(pc)) {
                    Some(Ok(_)) => {},
                    _ => return None,
                }
                return match self.push(dev, TypedValue::Half(imr)) {
                    Some(Ok(_)) => Some(Err(e)),
                    _ => None,
                };
            },
            None => return None,
        };
        let (kernel, flags) = crate::vm::cpu::returned_state(fl);
        self.regs.set_kernel_mode(kernel);
        self.regs.set_imr(imr);
        self.regs.set_flags(flags);
        self.pc = pc;
        Some(Ok(CycleAction::Next))
    }
}

/// A value of a type with the given bits.
pub open spec fn tv_of(ty: ValueType, bits: u32) -> TypedValue {
    match ty {
        ValueType::Byte => TypedValue::Byte(bits as u8),
        ValueType::Half => TypedValue::Half(bits as u16),
        ValueType::Word => TypedValue::Word(bits),
        ValueType::Float => TypedValue::Float(bits),
    }
}

/// The outcome of a memory access as the end of an instruction.
pub open spec fn done_or<T>(a: Access<T>) -> Option<Result<CycleAction, Fault>> {
    match a {
        Access::Done(_) => Some(Ok(CycleAction::Next)),
        other => Some(Err(access_fault(other))),
    }
}

/// A typed load from `a` in the current mode.
pub open spec fn load_m(d: DeviceBytesView, s: MState, a: u32, ty: ValueType) -> Option<Result<TypedValue, Fault>> {
    if !access_fits(s.regs, a, type_bytes(ty)) {
        None
    } else {
        match load_typed_spec(s.regs, s.mem, d, a, false, ty) {
            Access::Done(v) => Some(Ok(v)),
            other => Some(Err(access_fault(other))),
        }
    }
}

/// A typed store at `a` in the current mode.
pub open spec fn store_m(d: DeviceBytesView, s: MState, a: u32, v: TypedValue) -> (MState, Option<Result<CycleAction, Fault>>) {
    if !access_fits(s.regs, a, type_bytes(type_of(v))) {
        (s, None)
    } else {
        let (m1, a1, r) = store_typed_spec(s.regs, s.mem, d, a, v);
        (MState { mem: m1, acts: s.acts + a1, ..s }, done_or(r))
    }
}

/// Write a register; the illegal-operation fault where it cannot be
/// written.
pub open spec fn write_m(s: MState, reg: u8, v: TypedValue) -> (MState, Option<Result<CycleAction, Fault>>) {
    match write_spec(s.regs, reg, v) {
        Some(r1) => (MState { regs: r1, ..s }, Some(Ok(CycleAction::Next))),
        None => (s, Some(Err(illegal()))),
    }
}

/// LOAD: a register gets the value of its type at the address operand.
pub open spec fn load_op_s(d: DeviceBytesView, s: MState, literal: bool) -> (MState, Option<Result<CycleAction, Fault>>) {
    let (s1, r1) = fetch_s(d, s, ValueType::Byte);
    if !(r1 matches Some(Ok(_))) {
        (s1, fail(r1))
    } else {
        let dest = ok_val(r1) as u8;
        let (s2, r2) = address_s(d, s1, literal);
        if !(r2 matches Some(Ok(_))) {
            (s2, fail(r2))
        } else {
            match reg_ty_s(dest) {
                Err(e) => (s2, Some(Err(e))),
                Ok(ty) => match load_m(d, s2, ok_val(r2), ty) {
                    Some(Ok(v)) => write_m(s2, dest, v),
                    other => (s2, fail(other)),
                },
            }
        }
    }
}

/// STORE: a register's value is stored at the address operand, which is
/// fetched before the register operand.
pub open spec fn store_op_s(d: DeviceBytesView, s: MState, literal: bool) -> (MState, Option<Result<CycleAction, Fault>>) {
    let (s1, r1) = fetch_s(d, s, if literal {
        ValueType::Word
    } else {
        ValueType::Byte
    });
    if !(r1 matches Some(Ok(_))) {
        (s1, fail(r1))
    } else {
        let (s2, r2) = fetch_s(d, s1, ValueType::Byte);
        if !(r2 matches Some(Ok(_))) {
            (s2, fail(r2))
        } else {
            let src = ok_val(r2) as u8;
            let addr = if literal {
                Ok(ok_val(r1))
            } else {
                read_word_s(s2, ok_val(r1) as u8)
            };
            match addr {
                Err(e) => (s2, Some(Err(e))),
                Ok(a) => match read_s(s2, src) {
                    Err(e) => (s2, Some(Err(e))),
                    Ok(v) => store_m(d, s2, a, v),
                },
            }
        }
    }
}

/// COPY: a register gets a literal of its type, or the value of a register
/// of the same type.
pub open spec fn copy_op_s(d: DeviceBytesView, s: MState, literal: bool) -> (MState, Option<Result<CycleAction, Fault>>) {
    let (s1, r1) = fetch_s(d, s, ValueType::Byte);
    if !(r1 matches Some(Ok(_))) {
        (s1, fail(r1))
    } else {
        let dest = ok_val(r1) as u8;
        if literal {
            match reg_ty_s(dest) {
                Err(e) => (s1, Some(Err(e))),
                Ok(ty) => {
                    let (s2, r2) = fetch_s(d, s1, ty);
                    if !(r2 matches Some(Ok(_))) {
                        (s2, fail(r2))
                    } else {
                        write_m(s2, dest, tv_of(ty, ok_val(r2)))
                    }
                },
            }
        } else {
            let (s2, r2) = fetch_s(d, s1, ValueType::Byte);
            if !(r2 matches Some(Ok(_))) {
                (s2, fail(r2))
            } else {
                let src = ok_val(r2) as u8;
                match same_type_s(dest, src) {
                    Err(e) => (s2, Some(Err(e))),
                    Ok(_) => match read_s(s2, src) {
                        Err(e) => (s2, Some(Err(e))),
                        Ok(v) => write_m(s2, dest, v),
                    },
                }
            }
        }
    }
}

/// Two registers' common type: the illegal-operation fault where either is
/// no register or their types differ.
pub open spec fn same_type_s(a: u8, b: u8) -> Result<ValueType, Fault> {
    match (reg_ty_s(a), reg_ty_s(b)) {
        (Err(e), _) => Err(e),
        (Ok(_), Err(e)) => Err(e),
        (Ok(x), Ok(y)) => if x == y {
            Ok(x)
        } else {
            Err(illegal())
        },
    }
}

/// SWAP: a register and the value of its type at the address operand
/// change places.
pub open spec fn swap_op_s(d: DeviceBytesView, s: MState, literal: bool) -> (MState, Option<Result<CycleAction, Fault>>) {
    let (s1, r1) = fetch_s(d, s, ValueType::Byte);
    if !(r1 matches Some(Ok(_))) {
        (s1, fail(r1))
    } else {
        let reg = ok_val(r1) as u8;
        let (s2, r2) = address_s(d, s1, literal);
        if !(r2 matches Some(Ok(_))) {
            (s2, fail(r2))
        } else {
            let a = ok_val(r2);
            match read_s(s2, reg) {
                Err(e) => (s2, Some(Err(e))),
                Ok(rv) => match load_m(d, s2, a, type_of(rv)) {
                    Some(Ok(mv)) => {
                        let (s3, r3) = write_m(s2, reg, mv);
                        if !(r3 matches Some(Ok(_))) {
                            (s3, r3)
                        } else {
                            store_m(d, s3, a, rv)
                        }
                    },
                    other => (s2, fail(other)),
                },
            }
        }
    }
}

/// PUSH: a register's value onto the current stack.
pub open spec fn push_op_s(d: DeviceBytesView, s: MState) -> (MState, Option<Result<CycleAction, Fault>>) {
    let (s1, r1) = fetch_s(d, s, ValueType::Byte);
    if !(r1 matches Some(Ok(_))) {
        (s1, fail(r1))
    } else {
        match read_s(s1, ok_val(r1) as u8) {
            Err(e) => (s1, Some(Err(e))),
            Ok(v) => {
                let (s2, r2) = push_m(d, s1, v);
                match r2 {
                    Some(Ok(_)) => act(s2, CycleAction::Next),
                    other => (s2, fail(other)),
                }
            },
        }
    }
}

/// POP: a value of a register's type off the current stack into it.
pub open spec fn pop_op_s(d: DeviceBytesView, s: MState) -> (MState, Option<Result<CycleAction, Fault>>) {
    let (s1, r1) = fetch_s(d, s, ValueType::Byte);
    if !(r1 matches Some(Ok(_))) {
        (s1, fail(r1))
    } else {
        let reg = ok_val(r1) as u8;
        match reg_ty_s(reg) {
            Err(e) => (s1, Some(Err(e))),
            Ok(ty) => {
                let (s2, r2) = pop_m(d, s1, ty);
                match r2 {
                    Some(Ok(v)) => write_m(s2, reg, v),
                    other => (s2, fail(other)),
                }
            },
        }
    }
}

impl Machine {
    /// A register's type, as `reg_ty_s` says.
    #[verifier::spinoff_prover]
    fn reg_ty(reg: u8) -> (r: Result<ValueType, Fault>)
        ensures
            r == reg_ty_s(reg),
    {
        match reg_ref_type(reg) {
            Some(t) => Ok(t),
            None => Err(Fault::Interrupt(INTERRUPT_ILLEGAL_OPERATION)),
        }
    }

    /// Two registers' common type, as `same_type_s` says.
    #[verifier::spinoff_prover]
    fn same_type(a: u8, b: u8) -> (r: Result<ValueType, Fault>)
        ensures
            r == same_type_s(a, b),
    {
        let x = match Self::reg_ty(a) {
            Err(e) => return Err(e),
            Ok(t) => t,
        };
        let y = match Self::reg_ty(b) {
            Err(e) => return Err(e),
            Ok(t) => t,
        };
        if x == y {
            Ok(x)
        } else {
            Err(Fault::Interrupt(INTERRUPT_ILLEGAL_OPERATION))
        }
    }

    /// A typed load, as `load_m` says.
    #[verifier::spinoff_prover]
    fn load_m(&self, dev: &DeviceBytes, a: u32, ty: ValueType) -> (r: Option<Result<TypedValue, Fault>>)
        requires
            self.wf(),
            crate::vm::bus::devices_wf(dev@),
        ensures
            r == load_m(dev@, self@, a, ty),
    {
        let n: u32 = match ty {
            ValueType::Byte => 1,
            ValueType::Half => 2,
            _ => 4,
        };
        if !check_fits(&self.regs, a, n) {
            return None;
        }
        match crate::vm::access::load_typed(&self.regs, &self.mem, dev, a, false, ty) {
            Access::Done(v) => Some(Ok(v)),
            Access::Illegal => Some(Err(Fault::Interrupt(INTERRUPT_ILLEGAL_OPERATION))),
            Access::PageFault(f) => Some(Err(Fault::PageFault(f))),
        }
    }

    /// A typed store, as `store_m` says.
    #[verifier::spinoff_prover]
    fn store_m(&mut self, dev: &DeviceBytes, a: u32, v: TypedValue) -> (r: Option<Result<CycleAction, Fault>>)
        requires
            old(self).wf(),
            crate::vm::bus::devices_wf(dev@),
        ensures
            final(self).wf(),
            (final(self)@, r) == store_m(dev@, old(self)@, a, v),
    {
        if !check_fits(&self.regs, a, v.size_in_bytes()) {
            return None;
        }
        let (mut acts, res) = crate::vm::access::store_typed(&self.regs, &mut self.mem, dev, a, v);
        self.acts.append(&mut acts);
        match res {
            Access::Done(_) => Some(Ok(CycleAction::Next)),
            Access::Illegal => Some(Err(Fault::Interrupt(INTERRUPT_ILLEGAL_OPERATION))),
            Access::PageFault(f) => Some(Err(Fault::PageFault(f))),
        }
    }

    /// Write a register, as `write_m` says.
    #[verifier::spinoff_prover]
    fn write_m(&mut self, reg: u8, v: TypedValue) -> (r: Option<Result<CycleAction, Fault>>)
        requires
            old(self).wf(),
        ensures
            final(self).wf(),
            (final(self)@, r) == write_m(old(self)@, reg, v),
    {
        match self.regs.write_to_register(reg, v) {
            Ok(()) => Some(Ok(CycleAction::Next)),
            Err(_) => Some(Err(Fault::Interrupt(INTERRUPT_ILLEGAL_OPERATION))),
        }
    }

    /// LOAD, as `load_op_s` says.
    #[verifier::spinoff_prover]
    fn op_load(&mut self, dev: &DeviceBytes, literal: bool) -> (r: Option<Result<CycleAction, Fault>>)
        requires
            old(self).wf(),
            crate::vm::bus::devices_wf(dev@),
        ensures
            final(self).wf(),
            (final(self)@, r) == load_op_s(dev@, old(self)@, literal),
    {
        let dest = match self.fetch(dev, ValueType::Byte) {
            Some(Ok(v)) => v as u8,
            Some(Err(e)) => return Some(Err(e)),
            None => return None,
        };
        let a = match self.address(dev, literal) {
            Some(Ok(a)) => a,
            Some(Err(e)) => return Some(Err(e)),
            None => return None,
        };
        let ty = match Self::reg_ty(dest) {
            Err(e) => return Some(Err(e)),
            Ok(t) => t,
        };
        match self.load_m(dev, a, ty) {
            Some(Ok(v)) => self.write_m(dest, v),
            Some(Err(e)) => Some(Err(e)),
            None => None,
        }
    }

    /// STORE, as `store_op_s` says.
    #[verifier::spinoff_prover]
    fn op_store(&mut self, dev: &DeviceBytes, literal: bool) -> (r: Option<Result<CycleAction, Fault>>)
        requires
            old(self).wf(),
            crate::vm::bus::devices_wf(dev@),
        ensures
            final(self).wf(),
            (final(self)@, r) == store_op_s(dev@, old(self)@, literal),
    {
        let first = match self.fetch(dev, if literal { ValueType::Word } else { ValueType::Byte }) {
            Some(Ok(v)) => v,
            Some(Err(e)) => return Some(Err(e)),
            None => return None,
        };
        let src = match self.fetch(dev, ValueType::Byte) {
            Some(Ok(v)) => v as u8,
            Some(Err(e)) => return Some(Err(e)),
            None => return None,
        };
        let a = if literal {
            first
        } else {
            match self.read_word(first as u8) {
                Ok(w) => w,
                Err(e) => return Some(Err(e)),
            }
        };
        match self.read(src) {
            Err(e) => Some(Err(e)),
            Ok(v) => self.store_m(dev, a, v),
        }
    }

    /// COPY, as `copy_op_s` says.
    #[verifier::spinoff_prover]
    fn op_copy(&mut self, dev: &DeviceBytes, literal: bool) -> (r: Option<Result<CycleAction, Fault>>)
        requires
            old(self).wf(),
            crate::vm::bus::devices_wf(dev@),
        ensures
            final(self).wf(),
            (final(self)@, r) == copy_op_s(dev@, old(self)@, literal),
    {
        let dest = match self.fetch(dev, ValueType::Byte) {
            Some(Ok(v)) => v as u8,
            Some(Err(e)) => return Some(Err(e)),
            None => return None,
        };
        if literal {
            let ty = match Self::reg_ty(dest) {
                Err(e) => return Some(Err(e)),
                Ok(t) => t,
            };
            let bits = match self.fetch(dev, ty) {
                Some(Ok(v)) => v,
                Some(Err(e)) => return Some(Err(e)),
                None => return None,
            };
            let v = match ty {
                ValueType::Byte => TypedValue::Byte(bits as u8),
                ValueType::Half => TypedValue::Half(bits as u16),
                ValueType::Word => TypedValue::Word(bits),
                ValueType::Float => TypedValue::Float(bits),
            };
            self.write_m(dest, v)
        } else {
            let src = match self.fetch(dev, ValueType::Byte) {
                Some(Ok(v)) => v as u8,
                Some(Err(e)) => return Some(Err(e)),
                None => return None,
            };
            match Self::same_type(dest, src) {
                Err(e) => return Some(Err(e)),
                Ok(_) => {},
            }
            match self.read(src) {
                Err(e) => Some(Err(e)),
                Ok(v) => self.write_m(dest, v),
            }
        }
    }

    /// SWAP, as `swap_op_s` says.
    #[verifier::spinoff_prover]
    fn op_swap(&mut self, dev: &DeviceBytes, literal: bool) -> (r: Option<Result<CycleAction, Fault>>)
        requires
            old(self).wf(),
            crate::vm::bus::devices_wf(dev@),
        ensures
            final(self).wf(),
            (final(self)@, r) == swap_op_s(dev@, old(self)@, literal),
    {
        let reg = match self.fetch(dev, ValueType::Byte) {
            Some(Ok(v)) => v as u8,
            Some(Err(e)) => return Some(Err(e)),
            None => return None,
        };
        let a = match self.address(dev, literal) {
            Some(Ok(a)) => a,
            Some(Err(e)) => return Some(Err(e)),
            None => return None,
        };
        let rv = match self.read(reg) {
            Err(e) => return Some(Err(e)),
            Ok(v) => v,
        };
        let mv = match self.load_m(dev, a, rv.value_type()) {
            Some(Ok(v)) => v,
            Some(Err(e)) => return Some(Err(e)),
            None => return None,
        };
        match self.write_m(reg, mv) {
            Some(Ok(_)) => {},
            other => return other,
        }
        self.store_m(dev, a, rv)
    }

    /// PUSH, as `push_op_s` says.
    #[verifier::spinoff_prover]
    fn op_push(&mut self, dev: &DeviceBytes) -> (r: Option<Result<CycleAction, Fault>>)
        requires
            old(self).wf(),
            crate::vm::bus::devices_wf(dev@),
        ensures
            final(self).wf(),
            (final(self)@, r) == push_op_s(dev@, old(self)@),
    {
        let reg = match self.fetch(dev, ValueType::Byte) {
            Some(Ok(v)) => v as u8,
            Some(Err(e)) => return Some(Err(e)),
            None => return None,
        };
        let v = match self.read(reg) {
            Err(e) => return Some(Err(e)),
            Ok(v) => v,
        };
        match self.push(dev, v) {
            Some(Ok(_)) => Some(Ok(CycleAction::Next)),
            Some(Err(e)) => Some(Err(e)),
            None => None,
        }
    }

    /// POP, as `pop_op_s` says.
    #[verifier::spinoff_prover]
    fn op_pop(&mut self, dev: &DeviceBytes) -> (r: Option<Result<CycleAction, Fault>>)
        requires
            old(self).wf(),
            crate::vm::bus::devices_wf(dev@),
        ensures
            final(self).wf(),
            (final(self)@, r) == pop_op_s(dev@, old(self)@),
    {
        let reg = match self.fetch(dev, ValueType::Byte) {
            Some(Ok(v)) => v as u8,
            Some(Err(e)) => return Some(Err(e)),
            None => return None,
        };
        let ty = match Self::reg_ty(reg) {
            Err(e) => return Some(Err(e)),
            Ok(t) => t,
        };
        match self.pop(dev, ty) {
            Some(Ok(v)) => self.write_m(reg, v),
            Some(Err(e)) => Some(Err(e)),
            None => None,
        }
    }
}

/// BLOCKCOMPARE from byte `i` on: the bytes at `a + i` and `b + i` loaded in
/// turn; the flags of the first pair that differ (none where the first is
/// greater, negative where the second is), zero where all are equal.
pub open spec fn blockcomp_from(s: RegState, m: MemoryView, d: DeviceBytesView, i: nat, n: nat, a: u32, b: u32) -> Access<u16>
    decreases n - i,
{
    if i >= n {
        Access::Done(FLAG_ZERO)
    } else {
        match load_typed_spec(s, m, d, (a + i) as u32, false, ValueType::Byte) {
            Access::Done(x) => match load_typed_spec(s, m, d, (b + i) as u32, false, ValueType::Byte) {
                Access::Done(y) => if value_bits(x) > value_bits(y) {
                    Access::Done(0)
                } else if value_bits(y) > value_bits(x) {
                    Access::Done(FLAG_NEGATIVE)
                } else {
                    blockcomp_from(s, m, d, i + 1, n, a, b)
                },
                Access::Illegal => Access::Illegal,
                Access::PageFault(f) => Access::PageFault(f),
            },
            Access::Illegal => Access::Illegal,
            Access::PageFault(f) => Access::PageFault(f),
        }
    }
}

/// A literal word or a register operand, fetched: a byte for a register.
pub open spec fn operand_s(d: DeviceBytesView, s: MState, is_ref: bool) -> (MState, Option<Result<u32, Fault>>) {
    fetch_s(d, s, if is_ref {
        ValueType::Byte
    } else {
        ValueType::Word
    })
}

/// A fetched operand's value: a literal as it is, a register's word.
pub open spec fn resolve_s(s: MState, is_ref: bool, v: u32) -> Result<u32, Fault> {
    if is_ref {
        read_word_s(s, v as u8)
    } else {
        Ok(v)
    }
}

/// The three operands of BLOCKCOPY and BLOCKCOMPARE: all fetched, then the
/// registers among them read, in order.
pub open spec fn three_s(d: DeviceBytesView, s: MState, k: u8) -> (MState, Option<Result<(u32, u32, u32), Fault>>) {
    let (s1, r1) = operand_s(d, s, k & 4 != 0);
    if !(r1 matches Some(Ok(_))) {
        (s1, fail(r1))
    } else {
        let (s2, r2) = operand_s(d, s1, k & 2 != 0);
        if !(r2 matches Some(Ok(_))) {
            (s2, fail(r2))
        } else {
            let (s3, r3) = operand_s(d, s2, k & 1 != 0);
            if !(r3 matches Some(Ok(_))) {
                (s3, fail(r3))
            } else {
                match resolve_s(s3, k & 4 != 0, ok_val(r1)) {
                    Err(e) => (s3, Some(Err(e))),
                    Ok(x) => match resolve_s(s3, k & 2 != 0, ok_val(r2)) {
                        Err(e) => (s3, Some(Err(e))),
                        Ok(y) => match resolve_s(s3, k & 1 != 0, ok_val(r3)) {
                            Err(e) => (s3, Some(Err(e))),
                            Ok(z) => (s3, Some(Ok((x, y, z)))),
                        },
                    },
                }
            }
        }
    }
}

/// BLOCKCOPY (`k` the opcode's low three bits: length, destination and
/// source each from a register where its bit is set).
pub open spec fn blockcopy_op_s(d: DeviceBytesView, s: MState, k: u8) -> (MState, Option<Result<CycleAction, Fault>>) {
    let (s1, r1) = three_s(d, s, k);
    match r1 {
        Some(Ok((n, dest, src))) => if !(block_fits(s1.regs, dest, n as nat) && block_fits(s1.regs, src, n as nat)) {
            (s1, None)
        } else {
            let (m2, a2, r2) = blockcopy_spec(s1.regs, s1.mem, d, n as nat, dest, src);
            (MState { mem: m2, acts: s1.acts + a2, ..s1 }, done_or(r2))
        },
        Some(Err(e)) => (s1, Some(Err(e))),
        None => (s1, None),
    }
}

/// BLOCKCOMPARE: the flags of comparing two blocks, as `blockcomp_from` says.
pub open spec fn blockcomp_op_s(d: DeviceBytesView, s: MState, k: u8) -> (MState, Option<Result<CycleAction, Fault>>) {
    let (s1, r1) = three_s(d, s, k);
    match r1 {
        Some(Ok((n, a, b))) => if !(block_fits(s1.regs, a, n as nat) && block_fits(s1.regs, b, n as nat)) {
            (s1, None)
        } else {
            match blockcomp_from(s1.regs, s1.mem, d, 0, n as nat, a, b) {
                Access::Done(f) => act(MState { regs: RegState { flags: f, ..s1.regs }, ..s1 }, CycleAction::Next),
                other => (s1, Some(Err(access_fault(other)))),
            }
        },
        Some(Err(e)) => (s1, Some(Err(e))),
        None => (s1, None),
    }
}

/// BLOCKSET: length, destination and value, each read from its register
/// as soon as its reference is fetched; the value a byte.
pub open spec fn blockset_op_s(d: DeviceBytesView, s: MState, k: u8) -> (MState, Option<Result<CycleAction, Fault>>) {
    let (s1, r1) = address_s(d, s, k & 4 == 0);
    if !(r1 matches Some(Ok(_))) {
        (s1, fail(r1))
    } else {
        let (s2, r2) = address_s(d, s1, k & 2 == 0);
        if !(r2 matches Some(Ok(_))) {
            (s2, fail(r2))
        } else {
            let (s3, r3) = fetch_s(d, s2, ValueType::Byte);
            if !(r3 matches Some(Ok(_))) {
                (s3, fail(r3))
            } else {
                let value = if k & 1 != 0 {
                    read_byte_s(s3, ok_val(r3) as u8)
                } else {
                    Ok(ok_val(r3) as u8)
                };
                match value {
                    Err(e) => (s3, Some(Err(e))),
                    Ok(v) => {
                        let n = ok_val(r1);
                        let dest = ok_val(r2);
                        if !block_fits(s3.regs, dest, n as nat) {
                            (s3, None)
                        } else {
                            let (m4, a4, r4) = blockset_spec(s3.regs, s3.mem, d, n as nat, dest, v);
                            (MState { mem: m4, acts: s3.acts + a4, ..s3 }, done_or(r4))
                        }
                    },
                }
            }
        }
    }
}

/// Whether a block fits, as `block_fits` says.
#[verifier::spinoff_prover]
fn check_block(regs: &Registers, a: u32, n: u32) -> (r: bool)
    ensures
        r == block_fits(regs@, a, n as nat),
{
    n == 0 || check_fits(regs, a, n)
}

/// Compare two blocks, as `blockcomp_from` says from byte zero.
#[verifier::spinoff_prover]
fn block_compare_mem(regs: &Registers, mem: &Memory, dev: &DeviceBytes, n: u32, a: u32, b: u32) -> (r: Access<u16>)
    requires
        mem.wf(),
        crate::vm::bus::devices_wf(dev@),
        block_fits(regs@, a, n as nat),
        block_fits(regs@, b, n as nat),
    ensures
        r == blockcomp_from(regs@, mem@, dev@, 0, n as nat, a, b),
{
    let mut i: u32 = 0;
    while i < n
        invariant
            i <= n,
            mem.wf(),
            crate::vm::bus::devices_wf(dev@),
            block_fits(regs@, a, n as nat),
            block_fits(regs@, b, n as nat),
            blockcomp_from(regs@, mem@, dev@, 0, n as nat, a, b) == blockcomp_from(regs@, mem@, dev@, i as nat, n as nat, a, b),
        decreases n - i,
    {
        assert(directory_fits(regs@.pdpr, a, n as nat) ==> directory_fits(regs@.pdpr, (a + i) as u32, 1)) by {
            if directory_fits(regs@.pdpr, a, n as nat) {
                assert(regs@.pdpr + 4 * crate::vm::mmu::directory_index(((a + (i as int)) as u32)) + 3 <= u32::MAX);
                assert((((a + i) as u32) + 0int) as u32 == ((a + (i as int)) as u32));
            }
        }
        assert(directory_fits(regs@.pdpr, b, n as nat) ==> directory_fits(regs@.pdpr, (b + i) as u32, 1)) by {
            if directory_fits(regs@.pdpr, b, n as nat) {
                assert(regs@.pdpr + 4 * crate::vm::mmu::directory_index(((b + (i as int)) as u32)) + 3 <= u32::MAX);
                assert((((b + i) as u32) + 0int) as u32 == ((b + (i as int)) as u32));
            }
        }
        let x = match crate::vm::access::load_typed(regs, mem, dev, a + i, false, ValueType::Byte) {
            Access::Done(TypedValue::Byte(x)) => x,
            Access::Done(_) => {
                proof {
                    lemma_loaded_type(regs@, mem@, dev@, (a + i) as u32, false, ValueType::Byte);
                }
                return Access::Illegal;
            },
            Access::Illegal => return Access::Illegal,
            Access::PageFault(f) => return Access::PageFault(f),
        };
        let y = match crate::vm::access::load_typed(regs, mem, dev, b + i, false, ValueType::Byte) {
            Access::Done(TypedValue::Byte(y)) => y,
            Access::Done(_) => {
                proof {
                    lemma_loaded_type(regs@, mem@, dev@, (b + i) as u32, false, ValueType::Byte);
                }
                return Access::Illegal;
            },
            Access::Illegal => return Access::Illegal,
            Access::PageFault(f) => return Access::PageFault(f),
        };
        if x > y {
            return Access::Done(0);
        } else if y > x {
            return Access::Done(FLAG_NEGATIVE);
        }
        i = i + 1;
    }
    Access::Done(FLAG_ZERO)
}

impl Machine {
    /// A literal word or register operand, as `operand_s` says.
    #[verifier::spinoff_prover]
    fn operand(&mut self, dev: &DeviceBytes, is_ref: bool) -> (r: Option<Result<u32, Fault>>)
        requires
            old(self).wf(),
            crate::vm::bus::devices_wf(dev@),
        ensures
            final(self).wf(),
            (final(self)@, r) == operand_s(dev@, old(self)@, is_ref),
    {
        self.fetch(dev, if is_ref { ValueType::Byte } else { ValueType::Word })
    }

    /// A fetched operand's value, as `resolve_s` says.
    #[verifier::spinoff_prover]
    fn resolve(&self, is_ref: bool, v: u32) -> (r: Result<u32, Fault>)
        requires
            self.wf(),
        ensures
            r == resolve_s(self@, is_ref, v),
    {
        if is_ref {
            self.read_word(v as u8)
        } else {
            Ok(v)
        }
    }

    /// Three block operands, as `three_s` says.
    #[verifier::spinoff_prover]
    fn three(&mut self, dev: &DeviceBytes, k: u8) -> (r: Option<Result<(u32, u32, u32), Fault>>)
        requires
            old(self).wf(),
            crate::vm::bus::devices_wf(dev@),
        ensures
            final(self).wf(),
            (final(self)@, r) == three_s(dev@, old(self)@, k),
    {
        let v1 = match self.operand(dev, k & 4 != 0) {
            Some(Ok(v)) => v,
            Some(Err(e)) => return Some(Err(e)),
            None => return None,
        };
        let v2 = match self.operand(dev, k & 2 != 0) {
            Some(Ok(v)) => v,
            Some(Err(e)) => return Some(Err(e)),
            None => return None,
        };
        let v3 = match self.operand(dev, k & 1 != 0) {
            Some(Ok(v)) => v,
            Some(Err(e)) => return Some(Err(e)),
            None => return None,
        };
        let x = match self.resolve(k & 4 != 0, v1) {
            Ok(x) => x,
            Err(e) => return Some(Err(e)),
        };
        let y = match self.resolve(k & 2 != 0, v2) {
            Ok(y) => y,
            Err(e) => return Some(Err(e)),
        };
        let z = match self.resolve(k & 1 != 0, v3) {
            Ok(z) => z,
            Err(e) => return Some(Err(e)),
        };
        Some(Ok((x, y, z)))
    }

    /// BLOCKCOPY, as `blockcopy_op_s` says.
    #[verifier::spinoff_prover]
    fn op_blockcopy(&mut self, dev: &DeviceBytes, k: u8) -> (r: Option<Result<CycleAction, Fault>>)
        requires
            old(self).wf(),
            crate::vm::bus::devices_wf(dev@),
        ensures
            final(self).wf(),
            (final(self)@, r) == blockcopy_op_s(dev@, old(self)@, k),
    {
        let (n, dest, src) = match self.three(dev, k) {
            Some(Ok(t)) => t,
            Some(Err(e)) => return Some(Err(e)),
            None => return None,
        };
        if !(check_block(&self.regs, dest, n) && check_block(&self.regs, src, n)) {
            return None;
        }
        let (mut acts, res) = crate::vm::access::instruction_blockcopy(&self.regs, &mut self.mem, dev, n, dest, src);
        self.acts.append(&mut acts);
        match res {
            Access::Done(_) => Some(Ok(CycleAction::Next)),
            Access::Illegal => Some(Err(Fault::Interrupt(INTERRUPT_ILLEGAL_OPERATION))),
            Access::PageFault(f) => Some(Err(Fault::PageFault(f))),
        }
    }

    /// BLOCKCOMPARE, as `blockcomp_op_s` says.
    #[verifier::spinoff_prover]
    fn op_blockcomp(&mut self, dev: &DeviceBytes, k: u8) -> (r: Option<Result<CycleAction, Fault>>)
        requires
            old(self).wf(),
            crate::vm::bus::devices_wf(dev@),
        ensures
            final(self).wf(),
            (final(self)@, r) == blockcomp_op_s(dev@, old(self)@, k),
    {
        let (n, a, b) = match self.three(dev, k) {
            Some(Ok(t)) => t,
            Some(Err(e)) => return Some(Err(e)),
            None => return None,
        };
        if !(check_block(&self.regs, a, n) && check_block(&self.regs, b, n)) {
            return None;
        }
        match block_compare_mem(&self.regs, &self.mem, dev, n, a, b) {
            Access::Done(f) => {
                self.regs.set_flags(f);
                Some(Ok(CycleAction::Next))
            },
            Access::Illegal => Some(Err(Fault::Interrupt(INTERRUPT_ILLEGAL_OPERATION))),
            Access::PageFault(f) => Some(Err(Fault::PageFault(f))),
        }
    }

    /// BLOCKSET, as `blockset_op_s` says.
    #[verifier::spinoff_prover]
    fn op_blockset(&mut self, dev: &DeviceBytes, k: u8) -> (r: Option<Result<CycleAction, Fault>>)
        requires
            old(self).wf(),
            crate::vm::bus::devices_wf(dev@),
        ensures
            final(self).wf(),
            (final(self)@, r) == blockset_op_s(dev@, old(self)@, k),
    {
        let n = match self.address(dev, k & 4 == 0) {
            Some(Ok(v)) => v,
            Some(Err(e)) => return Some(Err(e)),
            None => return None,
        };
        let dest = match self.address(dev, k & 2 == 0) {
            Some(Ok(v)) => v,
            Some(Err(e)) => return Some(Err(e)),
            None => return None,
        };
        let raw = match self.fetch(dev, ValueType::Byte) {
            Some(Ok(v)) => v,
            Some(Err(e)) => return Some(Err(e)),
            None => return None,
        };
        let v = if k & 1 != 0 {
            match self.read_byte(raw as u8) {
                Ok(b) => b,
                Err(e) => return Some(Err(e)),
            }
        } else {
            raw as u8
        };
        if !check_block(&self.regs, dest, n) {
            return None;
        }
        let (mut acts, res) = crate::vm::access::instruction_blockset(&self.regs, &mut self.mem, dev, n, dest, v);
        self.acts.append(&mut acts);
        match res {
            Access::Done(_) => Some(Ok(CycleAction::Next)),
            Access::Illegal => Some(Err(Fault::Interrupt(INTERRUPT_ILLEGAL_OPERATION))),
            Access::PageFault(f) => Some(Err(Fault::PageFault(f))),
        }
    }
}

/// Whether an instruction takes a float register, and its floating-point
/// operation.
pub open spec fn float_of(op: IntOp) -> Option<FloatOp> {
    match op {
        IntOp::Add => Some(FloatOp::Add),
        IntOp::Sub => Some(FloatOp::Sub),
        IntOp::Mult => Some(FloatOp::Mul),
        IntOp::SDiv => Some(FloatOp::Div),
        IntOp::SRem => Some(FloatOp::Rem),
        IntOp::Compare => Some(FloatOp::Compare),
        _ => None,
    }
}

/// A register's integer type: the illegal-operation fault for no register
/// or a float register.
pub open spec fn int_ty_s(reg: u8) -> Result<ValueType, Fault> {
    match reg_ty_s(reg) {
        Ok(ValueType::Float) => Err(illegal()),
        other => other,
    }
}

/// Apply an arithmetic, bitwise, shift, rotate or compare instruction to a
/// register of type `ty` with the operand `y`: floating-point work goes out
/// as a request; the carry pushing the largest operand past its type stops
/// the processor; otherwise as `execute_spec` says.
pub open spec fn apply_s(s: MState, op: IntOp, reg: u8, ty: ValueType, y: u32) -> (MState, Option<Result<CycleAction, Fault>>) {
    if ty == ValueType::Float {
        match read_s(s, reg) {
            Ok(v) => act(s, CycleAction::Float(FloatRequest {
                op: float_of(op)->0,
                reg,
                x: value_bits(v) as u32,
                y,
                retry_pc: 0,
            })),
            Err(e) => (s, Some(Err(e))),
        }
    } else if (op == IntOp::AddCarry || op == IntOp::SubBorrow) && flag_bit(s.regs.flags, 2) && y == width(ty) - 1 {
        (s, None)
    } else {
        match execute_spec(s.regs, op, reg, y, s.pfsr) {
            Ok(r1) => act(MState { regs: r1, ..s }, CycleAction::Next),
            Err(i) => (s, Some(Err(Fault::Interrupt(i)))),
        }
    }
}

/// An arithmetic instruction with a literal operand (a byte count for
/// shifts and rotations, else of the register's type).
pub open spec fn alu_literal_s(d: DeviceBytesView, s: MState, op: IntOp) -> (MState, Option<Result<CycleAction, Fault>>) {
    let (s1, r1) = fetch_s(d, s, ValueType::Byte);
    if !(r1 matches Some(Ok(_))) {
        (s1, fail(r1))
    } else {
        let reg = ok_val(r1) as u8;
        match if float_of(op) is Some {
            reg_ty_s(reg)
        } else {
            int_ty_s(reg)
        } {
            Err(e) => (s1, Some(Err(e))),
            Ok(ty) => {
                let (s2, r2) = fetch_s(d, s1, if is_count(op) {
                    ValueType::Byte
                } else {
                    ty
                });
                if !(r2 matches Some(Ok(_))) {
                    (s2, fail(r2))
                } else {
                    apply_s(s2, op, reg, ty, ok_val(r2))
                }
            },
        }
    }
}

/// An arithmetic instruction with a register operand (a byte register for
/// shifts and rotations, else one of the same type).
pub open spec fn alu_ref_s(d: DeviceBytesView, s: MState, op: IntOp) -> (MState, Option<Result<CycleAction, Fault>>) {
    let (s1, r1) = fetch_s(d, s, ValueType::Byte);
    if !(r1 matches Some(Ok(_))) {
        (s1, fail(r1))
    } else {
        let dest = ok_val(r1) as u8;
        let checked = if float_of(op) is Some {
            Ok(ValueType::Word)
        } else {
            int_ty_s(dest)
        };
        match checked {
            Err(e) => (s1, Some(Err(e))),
            Ok(dty) => {
                let (s2, r2) = fetch_s(d, s1, ValueType::Byte);
                if !(r2 matches Some(Ok(_))) {
                    (s2, fail(r2))
                } else {
                    let src = ok_val(r2) as u8;
                    if is_count(op) {
                        match read_byte_s(s2, src) {
                            Err(e) => (s2, Some(Err(e))),
                            Ok(n) => apply_s(s2, op, dest, dty, n as u32),
                        }
                    } else {
                        match same_type_s(dest, src) {
                            Err(e) => (s2, Some(Err(e))),
                            Ok(ty) => match read_s(s2, src) {
                                Err(e) => (s2, Some(Err(e))),
                                Ok(v) => apply_s(s2, op, dest, ty, value_bits(v) as u32),
                            },
                        }
                    }
                }
            },
        }
    }
}

/// NEGATE: a register's two's complement, or for a float register a
/// floating-point request; negating the most negative value stops the
/// processor. No flags change.
pub open spec fn negate_s(d: DeviceBytesView, s: MState) -> (MState, Option<Result<CycleAction, Fault>>) {
    let (s1, r1) = fetch_s(d, s, ValueType::Byte);
    if !(r1 matches Some(Ok(_))) {
        (s1, fail(r1))
    } else {
        let reg = ok_val(r1) as u8;
        match read_s(s1, reg) {
            Err(e) => (s1, Some(Err(e))),
            Ok(TypedValue::Float(x)) => act(s1, CycleAction::Float(FloatRequest {
                op: FloatOp::Negate,
                reg,
                x,
                y: 0,
                retry_pc: 0,
            })),
            Ok(v) => {
                let ty = type_of(v);
                let x = value_bits(v);
                if x == width(ty) / 2 {
                    (s1, None)
                } else {
                    write_m(s1, reg, typed_value(ty, (width(ty) - x) % width(ty)))
                }
            },
        }
    }
}

/// NOT: a register's bitwise complement, and the flags of the result.
pub open spec fn not_s(d: DeviceBytesView, s: MState) -> (MState, Option<Result<CycleAction, Fault>>) {
    let (s1, r1) = fetch_s(d, s, ValueType::Byte);
    if !(r1 matches Some(Ok(_))) {
        (s1, fail(r1))
    } else {
        let reg = ok_val(r1) as u8;
        match int_ty_s(reg) {
            Err(e) => (s1, Some(Err(e))),
            Ok(_) => match read_s(s1, reg) {
                Err(e) => (s1, Some(Err(e))),
                Ok(v) => {
                    let ty = type_of(v);
                    let (res, f) = not_spec(width(ty), value_bits(v));
                    let (s2, r2) = write_m(s1, reg, typed_value(ty, res));
                    if !(r2 matches Some(Ok(_))) {
                        (s2, r2)
                    } else {
                        act(MState { regs: RegState { flags: f, ..s2.regs }, ..s2 }, CycleAction::Next)
                    }
                },
            },
        }
    }
}

/// SCONVERT and UCONVERT: from a word register to a float register or back,
/// as a floating-point request; other pairs of types are an illegal
/// operation.
pub open spec fn convert_s(d: DeviceBytesView, s: MState, signed: bool) -> (MState, Option<Result<CycleAction, Fault>>) {
    let (s1, r1) = fetch_s(d, s, ValueType::Byte);
    if !(r1 matches Some(Ok(_))) {
        (s1, fail(r1))
    } else {
        let (s2, r2) = fetch_s(d, s1, ValueType::Byte);
        if !(r2 matches Some(Ok(_))) {
            (s2, fail(r2))
        } else {
            let dest = ok_val(r1) as u8;
            let src = ok_val(r2) as u8;
            match (reg_ty_s(dest), reg_ty_s(src)) {
                (Err(e), _) => (s2, Some(Err(e))),
                (Ok(_), Err(e)) => (s2, Some(Err(e))),
                (Ok(dt), Ok(st)) => if (st == ValueType::Word && dt == ValueType::Float) || (st == ValueType::Float && dt
                    == ValueType::Word) {
                    match read_s(s2, src) {
                        Err(e) => (s2, Some(Err(e))),
                        Ok(v) => act(s2, CycleAction::Float(FloatRequest {
                            op: if dt == ValueType::Float {
                                if signed {
                                    FloatOp::SignedToFloat
                                } else {
                                    FloatOp::UnsignedToFloat
                                }
                            } else if signed {
                                FloatOp::FloatToSigned
                            } else {
                                FloatOp::FloatToUnsigned
                            },
                            reg: dest,
                            x: value_bits(v) as u32,
                            y: 0,
                            retry_pc: 0,
                        })),
                    }
                } else {
                    (s2, Some(Err(illegal())))
                },
            }
        }
    }
}

/// The number of values of a type, for execution.
#[verifier::spinoff_prover]
fn width_of(ty: ValueType) -> (r: u64)
    ensures
        r == width(ty),
{
    match ty {
        ValueType::Byte => 0x100,
        ValueType::Half => 0x1_0000,
        _ => 0x1_0000_0000,
    }
}

/// The bits of a value.
#[verifier::spinoff_prover]
fn bits_of(v: TypedValue) -> (r: u32)
    ensures
        r == value_bits(v),
{
    match v {
        TypedValue::Byte(b) => b as u32,
        TypedValue::Half(h) => h as u32,
        TypedValue::Word(w) => w,
        TypedValue::Float(f) => f,
    }
}

impl Machine {
    /// Apply an instruction to a register, as `apply_s` says.
    #[verifier::spinoff_prover]
    fn apply(&mut self, op: IntOp, reg: u8, ty: ValueType, y: u32) -> (r: Option<Result<CycleAction, Fault>>)
        requires
            old(self).wf(),
            reg_type(reg) == Some(ty),
            ty == ValueType::Float ==> float_of(op) is Some,
            ty != ValueType::Float ==> (is_count(op) ==> y < 256) && (!is_count(op) ==> y < width(ty)),
        ensures
            final(self).wf(),
            (final(self)@, r) == apply_s(old(self)@, op, reg, ty, y),
    {
        if let ValueType::Float = ty {
            return match self.read(reg) {
                Ok(v) => {
                    let fop = match op {
                        IntOp::Add => FloatOp::Add,
                        IntOp::Sub => FloatOp::Sub,
                        IntOp::Mult => FloatOp::Mul,
                        IntOp::SDiv => FloatOp::Div,
                        IntOp::SRem => FloatOp::Rem,
                        _ => FloatOp::Compare,
                    };
                    Some(Ok(CycleAction::Float(FloatRequest { op: fop, reg, x: bits_of(v), y, retry_pc: 0 })))
                },
                Err(e) => Some(Err(e)),
            };
        }
        let flags = self.regs.flags();
        assert((flags & 4 != 0) == ((flags / 4) % 2 == 1)) by (bit_vector);
        if (op == IntOp::AddCarry || op == IntOp::SubBorrow) && flags & 4 != 0 && y as u64 == width_of(ty) - 1 {
            return None;
        }
        match execute_int_op(&mut self.regs, op, reg, y, self.pfsr) {
            Ok(()) => Some(Ok(CycleAction::Next)),
            Err(i) => Some(Err(Fault::Interrupt(i))),
        }
    }

    /// A register's integer type, as `int_ty_s` says.
    #[verifier::spinoff_prover]
    fn int_ty(reg: u8) -> (r: Result<ValueType, Fault>)
        ensures
            r == int_ty_s(reg),
    {
        match Self::reg_ty(reg) {
            Ok(ValueType::Float) => Err(Fault::Interrupt(INTERRUPT_ILLEGAL_OPERATION)),
            other => other,
        }
    }

    /// An arithmetic instruction with a literal operand, as `alu_literal_s`
    /// says.
    #[verifier::spinoff_prover]
    fn op_alu_literal(&mut self, dev: &DeviceBytes, op: IntOp) -> (r: Option<Result<CycleAction, Fault>>)
        requires
            old(self).wf(),
            crate::vm::bus::devices_wf(dev@),
        ensures
            final(self).wf(),
            (final(self)@, r) == alu_literal_s(dev@, old(self)@, op),
    {
        let reg = match self.fetch(dev, ValueType::Byte) {
            Some(Ok(v)) => v as u8,
            Some(Err(e)) => return Some(Err(e)),
            None => return None,
        };
        let floats = match op {
            IntOp::Add | IntOp::Sub | IntOp::Mult | IntOp::SDiv | IntOp::SRem | IntOp::Compare => true,
            _ => false,
        };
        let t = if floats { Self::reg_ty(reg) } else { Self::int_ty(reg) };
        let ty = match t {
            Err(e) => return Some(Err(e)),
            Ok(ty) => ty,
        };
        let counted = match op {
            IntOp::LShift | IntOp::SRShift | IntOp::URShift | IntOp::LRot | IntOp::RRot | IntOp::LRotCarry
            | IntOp::RRotCarry => true,
            _ => false,
        };
        let y = match self.fetch(dev, if counted { ValueType::Byte } else { ty }) {
            Some(Ok(v)) => v,
            Some(Err(e)) => return Some(Err(e)),
            None => return None,
        };
        self.apply(op, reg, ty, y)
    }

    /// An arithmetic instruction with a register operand, as `alu_ref_s`
    /// says.
    #[verifier::spinoff_prover]
    fn op_alu_ref(&mut self, dev: &DeviceBytes, op: IntOp) -> (r: Option<Result<CycleAction, Fault>>)
        requires
            old(self).wf(),
            crate::vm::bus::devices_wf(dev@),
        ensures
            final(self).wf(),
            (final(self)@, r) == alu_ref_s(dev@, old(self)@, op),
    {
        let dest = match self.fetch(dev, ValueType::Byte) {
            Some(Ok(v)) => v as u8,
            Some(Err(e)) => return Some(Err(e)),
            None => return None,
        };
        let floats = match op {
            IntOp::Add | IntOp::Sub | IntOp::Mult | IntOp::SDiv | IntOp::SRem | IntOp::Compare => true,
            _ => false,
        };
        let dty = if floats {
            ValueType::Word
        } else {
            match Self::int_ty(dest) {
                Err(e) => return Some(Err(e)),
                Ok(t) => t,
            }
        };
        let src = match self.fetch(dev, ValueType::Byte) {
            Some(Ok(v)) => v as u8,
            Some(Err(e)) => return Some(Err(e)),
            None => return None,
        };
        let counted = match op {
            IntOp::LShift | IntOp::SRShift | IntOp::URShift | IntOp::LRot | IntOp::RRot | IntOp::LRotCarry
            | IntOp::RRotCarry => true,
            _ => false,
        };
        if counted {
            match self.read_byte(src) {
                Err(e) => Some(Err(e)),
                Ok(n) => self.apply(op, dest, dty, n as u32),
            }
        } else {
            let ty = match Self::same_type(dest, src) {
                Err(e) => return Some(Err(e)),
                Ok(t) => t,
            };
            match self.read(src) {
                Err(e) => Some(Err(e)),
                Ok(v) => {
                    proof {
                        if ty != ValueType::Float {
                            lemma_read_typed(self.regs@, src, self.pfsr);
                        }
                    }
                    self.apply(op, dest, ty, bits_of(v))
                },
            }
        }
    }

    /// NEGATE, as `negate_s` says.
    #[verifier::spinoff_prover]
    fn op_negate(&mut self, dev: &DeviceBytes) -> (r: Option<Result<CycleAction, Fault>>)
        requires
            old(self).wf(),
            crate::vm::bus::devices_wf(dev@),
        ensures
            final(self).wf(),
            (final(self)@, r) == negate_s(dev@, old(self)@),
    {
        let reg = match self.fetch(dev, ValueType::Byte) {
            Some(Ok(v)) => v as u8,
            Some(Err(e)) => return Some(Err(e)),
            None => return None,
        };
        let v = match self.read(reg) {
            Err(e) => return Some(Err(e)),
            Ok(v) => v,
        };
        if let TypedValue::Float(x) = v {
            return Some(Ok(CycleAction::Float(FloatRequest { op: FloatOp::Negate, reg, x, y: 0, retry_pc: 0 })));
        }
        let ty = v.value_type();
        let x = bits_of(v);
        if x as u64 == width_of(ty) / 2 {
            return None;
        }
        let n = int_negate(ty, x);
        let nv = match ty {
            ValueType::Byte => TypedValue::Byte(n as u8),
            ValueType::Half => TypedValue::Half(n as u16),
            _ => TypedValue::Word(n),
        };
        self.write_m(reg, nv)
    }

    /// NOT, as `not_s` says.
    #[verifier::spinoff_prover]
    fn op_not(&mut self, dev: &DeviceBytes) -> (r: Option<Result<CycleAction, Fault>>)
        requires
            old(self).wf(),
            crate::vm::bus::devices_wf(dev@),
        ensures
            final(self).wf(),
            (final(self)@, r) == not_s(dev@, old(self)@),
    {
        let reg = match self.fetch(dev, ValueType::Byte) {
            Some(Ok(v)) => v as u8,
            Some(Err(e)) => return Some(Err(e)),
            None => return None,
        };
        match Self::int_ty(reg) {
            Err(e) => return Some(Err(e)),
            Ok(_) => {},
        }
        let v = match self.read(reg) {
            Err(e) => return Some(Err(e)),
            Ok(v) => v,
        };
        proof {
            lemma_read_typed(self.regs@, reg, self.pfsr);
        }
        let ty = v.value_type();
        let (res, f) = int_not(ty, bits_of(v));
        let nv = match ty {
            ValueType::Byte => TypedValue::Byte(res as u8),
            ValueType::Half => TypedValue::Half(res as u16),
            _ => TypedValue::Word(res),
        };
        match self.write_m(reg, nv) {
            Some(Ok(_)) => {},
            other => return other,
        }
        self.regs.set_flags(f);
        Some(Ok(CycleAction::Next))
    }

    /// SCONVERT and UCONVERT, as `convert_s` says.
    #[verifier::spinoff_prover]
    fn op_convert(&mut self, dev: &DeviceBytes, signed: bool) -> (r: Option<Result<CycleAction, Fault>>)
        requires
            old(self).wf(),
            crate::vm::bus::devices_wf(dev@),
        ensures
            final(self).wf(),
            (final(self)@, r) == convert_s(dev@, old(self)@, signed),
    {
        let dest = match self.fetch(dev, ValueType::Byte) {
            Some(Ok(v)) => v as u8,
            Some(Err(e)) => return Some(Err(e)),
            None => return None,
        };
        let src = match self.fetch(dev, ValueType::Byte) {
            Some(Ok(v)) => v as u8,
            Some(Err(e)) => return Some(Err(e)),
            None => return None,
        };
        let dt = match Self::reg_ty(dest) {
            Err(e) => return Some(Err(e)),
            Ok(t) => t,
        };
        let st = match Self::reg_ty(src) {
            Err(e) => return Some(Err(e)),
            Ok(t) => t,
        };
        let to_float = st == ValueType::Word && dt == ValueType::Float;
        let to_int = st == ValueType::Float && dt == ValueType::Word;
        if !(to_float || to_int) {
            return Some(Err(Fault::Interrupt(INTERRUPT_ILLEGAL_OPERATION)));
        }
        match self.read(src) {
            Err(e) => Some(Err(e)),
            Ok(v) => {
                let op = if to_float {
                    if signed {
                        FloatOp::SignedToFloat
                    } else {
                        FloatOp::UnsignedToFloat
                    }
                } else if signed {
                    FloatOp::FloatToSigned
                } else {
                    FloatOp::FloatToUnsigned
                };
                Some(Ok(CycleAction::Float(FloatRequest { op, reg: dest, x: bits_of(v), y: 0, retry_pc: 0 })))
            },
        }
    }
}

/// The instruction of an arithmetic opcode: 0x21 to 0x32 in pairs (literal,
/// register) of ADD, ADDCARRY, SUB, SUBBORROW, MULT, SDIV, UDIV, SREM and
/// UREM; 0x34 to 0x47 in pairs of AND, OR, XOR, LSHIFT, SRSHIFT, URSHIFT,
/// LROT, RROT, LROTCARRY and RROTCARRY; 0x4A and 0x4B COMPARE.
pub open spec fn alu_op_of(op: u8) -> IntOp {
    let k = if op < 0x33 {
        (op - 0x21) / 2
    } else if op < 0x48 {
        9 + (op - 0x34) / 2
    } else {
        19
    };
    if k == 0 {
        IntOp::Add
    } else if k == 1 {
        IntOp::AddCarry
    } else if k == 2 {
        IntOp::Sub
    } else if k == 3 {
        IntOp::SubBorrow
    } else if k == 4 {
        IntOp::Mult
    } else if k == 5 {
        IntOp::SDiv
    } else if k == 6 {
        IntOp::UDiv
    } else if k == 7 {
        IntOp::SRem
    } else if k == 8 {
        IntOp::URem
    } else if k == 9 {
        IntOp::And
    } else if k == 10 {
        IntOp::Or
    } else if k == 11 {
        IntOp::Xor
    } else if k == 12 {
        IntOp::LShift
    } else if k == 13 {
        IntOp::SRShift
    } else if k == 14 {
        IntOp::URShift
    } else if k == 15 {
        IntOp::LRot
    } else if k == 16 {
        IntOp::RRot
    } else if k == 17 {
        IntOp::LRotCarry
    } else if k == 18 {
        IntOp::RRotCarry
    } else {
        IntOp::Compare
    }
}

/// The condition of a conditional jump opcode, 0x54 to 0x67 in pairs
/// (literal, register).
pub open spec fn cond_of(op: u8) -> Condition {
    let k = (op - 0x54) / 2;
    if k == 0 {
        Condition::Equal
    } else if k == 1 {
        Condition::NotEqual
    } else if k == 2 {
        Condition::SignedGreater
    } else if k == 3 {
        Condition::SignedGreaterEq
    } else if k == 4 {
        Condition::UnsignedGreater
    } else if k == 5 {
        Condition::UnsignedGreaterEq
    } else if k == 6 {
        Condition::SignedLesser
    } else if k == 7 {
        Condition::SignedLesserEq
    } else if k == 8 {
        Condition::UnsignedLesser
    } else {
        Condition::UnsignedLesserEq
    }
}

/// What the instruction of opcode `op` does, its operands fetched after
/// the opcode.
#[verifier::opaque]
pub open spec fn dispatch_s(d: DeviceBytesView, s: MState, op: u8) -> (MState, Option<Result<CycleAction, Fault>>) {
    if op == 0x00 {
        privileged_s(s, CycleAction::Halt)
    } else if op == 0x01 {
        privileged_s(s, CycleAction::Pause)
    } else if op == 0x02 || op == 0x03 {
        timer_s(d, s, op == 0x02)
    } else if op == 0x04 {
        usermode_s(d, s)
    } else if op == 0x05 {
        ireturn_s(d, s)
    } else if op == 0x06 || op == 0x07 {
        load_op_s(d, s, op == 0x06)
    } else if op == 0x08 || op == 0x09 {
        store_op_s(d, s, op == 0x08)
    } else if op == 0x0A || op == 0x0B {
        copy_op_s(d, s, op == 0x0A)
    } else if op == 0x0C || op == 0x0D {
        swap_op_s(d, s, op == 0x0C)
    } else if op == 0x0E {
        push_op_s(d, s)
    } else if op == 0x0F {
        pop_op_s(d, s)
    } else if op < 0x18 {
        blockcopy_op_s(d, s, (op - 0x10) as u8)
    } else if op < 0x20 {
        blockset_op_s(d, s, (op - 0x18) as u8)
    } else if op == 0x20 {
        negate_s(d, s)
    } else if op == 0x33 {
        not_s(d, s)
    } else if op < 0x33 {
        if op % 2 == 1 {
            alu_literal_s(d, s, alu_op_of(op))
        } else {
            alu_ref_s(d, s, alu_op_of(op))
        }
    } else if op < 0x48 {
        if op % 2 == 0 {
            alu_literal_s(d, s, alu_op_of(op))
        } else {
            alu_ref_s(d, s, alu_op_of(op))
        }
    } else if op == 0x48 || op == 0x49 {
        jump_s(d, s, op == 0x48, None)
    } else if op == 0x4A {
        alu_literal_s(d, s, IntOp::Compare)
    } else if op == 0x4B {
        alu_ref_s(d, s, IntOp::Compare)
    } else if op < 0x54 {
        blockcomp_op_s(d, s, (op - 0x4C) as u8)
    } else if op < 0x68 {
        jump_s(d, s, op % 2 == 0, Some(cond_of(op)))
    } else if op == 0x68 || op == 0x69 {
        call_s(d, s, op == 0x68)
    } else if op == 0x6A {
        return_s(d, s)
    } else if op == 0x6B {
        act(s, CycleAction::Raise(INTERRUPT_SYSCALL))
    } else if op == 0x6C || op == 0x6D {
        convert_s(d, s, op == 0x6C)
    } else {
        act(s, CycleAction::Raise(INTERRUPT_ILLEGAL_OPERATION))
    }
}

/// Fetch the opcode at the program counter and execute its instruction.
#[verifier::opaque]
pub open spec fn execute_s(d: DeviceBytesView, s: MState) -> (MState, Option<Result<CycleAction, Fault>>) {
    let (s1, r1) = fetch_s(d, s, ValueType::Byte);
    if !(r1 matches Some(Ok(_))) {
        (s1, fail(r1))
    } else {
        dispatch_s(d, s1, ok_val(r1) as u8)
    }
}

/// The end of a cycle that began executing at `start`: a fault puts the
/// program counter back at `start` and asks for its interrupt to be
/// raised, a page fault also setting the page fault status register; a
/// floating-point request remembers `start`.
pub open spec fn conclude_s(s: MState, start: u32, r: Option<Result<CycleAction, Fault>>) -> (MState, Option<CycleAction>) {
    match r {
        None => (s, None),
        Some(Ok(CycleAction::Float(req))) => (s, Some(CycleAction::Float(FloatRequest { retry_pc: start, ..req }))),
        Some(Ok(a)) => (s, Some(a)),
        Some(Err(Fault::Interrupt(i))) => (MState { pc: start, ..s }, Some(CycleAction::Retry(i))),
        Some(Err(Fault::PageFault(f))) => (MState { pc: start, pfsr: f, ..s }, Some(CycleAction::Retry(INTERRUPT_PAGE_FAULT))),
    }
}

/// One cycle: where an interrupt is given, enter its handler (a failure
/// there is fatal); then fetch, decode and execute one instruction. `None`
/// where the processor would stop on an overflow of its own (including an
/// interrupt number whose vector entry lies past 2^32, and a flags word
/// with bit 15 set, which no instruction makes).
pub open spec fn cycle_s(d: DeviceBytesView, s: MState, interrupt: Option<u32>) -> (MState, Option<CycleAction>) {
    match interrupt {
        Some(i) => if !(s.regs.flags < 0x8000 && entry_fits(s.regs) && 4 * i + 3 <= u32::MAX) {
            (s, None)
        } else {
            let (r1, m1, a1, h) = enter_interrupt_spec(s.regs, s.mem, d, s.pc, i);
            let s1 = MState { regs: r1, mem: m1, acts: s.acts + a1, ..s };
            match h {
                None => (s1, Some(CycleAction::Fatal)),
                Some(handler) => {
                    let s2 = MState { pc: handler, ..s1 };
                    let (s3, r) = execute_s(d, s2);
                    conclude_s(s3, handler, r)
                },
            }
        },
        None => {
            let (s3, r) = execute_s(d, s);
            conclude_s(s3, s.pc, r)
        },
    }
}

/// Write the result of floating-point work: a comparison sets the flags;
/// arithmetic writes the float register and sets the flags; negation and a
/// conversion to float write the float register; a conversion to an
/// integer writes the word register. Where the register cannot be written,
/// the program counter goes back and the illegal-operation interrupt is
/// asked for.
pub open spec fn finish_float_s(s: MState, req: FloatRequest, result: u32, flags: u16) -> (MState, CycleAction) {
    if req.op == FloatOp::Compare {
        (MState { regs: RegState { flags, ..s.regs }, ..s }, CycleAction::Next)
    } else {
        let v = if req.op == FloatOp::FloatToSigned || req.op == FloatOp::FloatToUnsigned {
            TypedValue::Word(result)
        } else {
            TypedValue::Float(result)
        };
        let sets_flags = !(req.op == FloatOp::Negate || req.op == FloatOp::SignedToFloat || req.op
            == FloatOp::UnsignedToFloat || req.op == FloatOp::FloatToSigned || req.op == FloatOp::FloatToUnsigned);
        match write_spec(s.regs, req.reg, v) {
            Some(r1) => (MState {
                regs: if sets_flags {
                    RegState { flags, ..r1 }
                } else {
                    r1
                },
                ..s
            }, CycleAction::Next),
            None => (MState { pc: req.retry_pc, ..s }, CycleAction::Retry(INTERRUPT_ILLEGAL_OPERATION)),
        }
    }
}

/// The instruction of an arithmetic opcode, as `alu_op_of` says.
#[verifier::spinoff_prover]
fn alu_op(op: u8) -> (r: IntOp)
    requires
        (0x21 <= op < 0x33) || (0x34 <= op < 0x48),
    ensures
        r == alu_op_of(op),
{
    let k: u8 = if op < 0x33 {
        (op - 0x21) / 2
    } else {
        9 + (op - 0x34) / 2
    };
    if k == 0 {
        IntOp::Add
    } else if k == 1 {
        IntOp::AddCarry
    } else if k == 2 {
        IntOp::Sub
    } else if k == 3 {
        IntOp::SubBorrow
    } else if k == 4 {
        IntOp::Mult
    } else if k == 5 {
        IntOp::SDiv
    } else if k == 6 {
        IntOp::UDiv
    } else if k == 7 {
        IntOp::SRem
    } else if k == 8 {
        IntOp::URem
    } else if k == 9 {
        IntOp::And
    } else if k == 10 {
        IntOp::Or
    } else if k == 11 {
        IntOp::Xor
    } else if k == 12 {
        IntOp::LShift
    } else if k == 13 {
        IntOp::SRShift
    } else if k == 14 {
        IntOp::URShift
    } else if k == 15 {
        IntOp::LRot
    } else if k == 16 {
        IntOp::RRot
    } else if k == 17 {
        IntOp::LRotCarry
    } else if k == 18 {
        IntOp::RRotCarry
    } else {
        IntOp::Compare
    }
}

/// The condition of a conditional jump opcode, as `cond_of` says.
#[verifier::spinoff_prover]
fn cond(op: u8) -> (r: Condition)
    requires
        0x54 <= op,
    ensures
        r == cond_of(op),
{
    let k: u8 = (op - 0x54) / 2;
    if k == 0 {
        Condition::Equal
    } else if k == 1 {
        Condition::NotEqual
    } else if k == 2 {
        Condition::SignedGreater
    } else if k == 3 {
        Condition::SignedGreaterEq
    } else if k == 4 {
        Condition::UnsignedGreater
    } else if k == 5 {
        Condition::UnsignedGreaterEq
    } else if k == 6 {
        Condition::SignedLesser
    } else if k == 7 {
        Condition::SignedLesserEq
    } else if k == 8 {
        Condition::UnsignedLesser
    } else {
        Condition::UnsignedLesserEq
    }
}

impl Machine {
    /// Execute the instruction of an opcode, as `dispatch_s` says.
    #[verifier::spinoff_prover]
    fn dispatch(&mut self, dev: &DeviceBytes, op: u8) -> (r: Option<Result<CycleAction, Fault>>)
        requires
            old(self).wf(),
            crate::vm::bus::devices_wf(dev@),
        ensures
            final(self).wf(),
            (final(self)@, r) == dispatch_s(dev@, old(self)@, op),
    {
        proof {
            reveal(dispatch_s);
        }
        if op == 0x00 || op == 0x01 {
            if !self.regs.kernel_mode() {
                Some(Err(Fault::Interrupt(INTERRUPT_ILLEGAL_OPERATION)))
            } else if op == 0x00 {
                Some(Ok(CycleAction::Halt))
            } else {
                Some(Ok(CycleAction::Pause))
            }
        } else if op == 0x02 || op == 0x03 {
            self.op_timer(dev, op == 0x02)
        } else if op == 0x04 {
            self.op_usermode(dev)
        } else if op == 0x05 {
            self.op_ireturn(dev)
        } else if op == 0x06 || op == 0x07 {
            self.op_load(dev, op == 0x06)
        } else if op == 0x08 || op == 0x09 {
            self.op_store(dev, op == 0x08)
        } else if op == 0x0A || op == 0x0B {
            self.op_copy(dev, op == 0x0A)
        } else if op == 0x0C || op == 0x0D {
            self.op_swap(dev, op == 0x0C)
        } else if op == 0x0E {
            self.op_push(dev)
        } else if op == 0x0F {
            self.op_pop(dev)
        } else if op < 0x18 {
            self.op_blockcopy(dev, op - 0x10)
        } else if op < 0x20 {
            self.op_blockset(dev, op - 0x18)
        } else if op == 0x20 {
            self.op_negate(dev)
        } else if op == 0x33 {
            self.op_not(dev)
        } else if op < 0x33 {
            if op % 2 == 1 {
                self.op_alu_literal(dev, alu_op(op))
            } else {
                self.op_alu_ref(dev, alu_op(op))
            }
        } else if op < 0x48 {
            if op % 2 == 0 {
                self.op_alu_literal(dev, alu_op(op))
            } else {
                self.op_alu_ref(dev, alu_op(op))
            }
        } else if op == 0x48 || op == 0x49 {
            self.op_jump(dev, op == 0x48, None)
        } else if op == 0x4A {
            self.op_alu_literal(dev, IntOp::Compare)
        } else if op == 0x4B {
            self.op_alu_ref(dev, IntOp::Compare)
        } else if op < 0x54 {
            self.op_blockcomp(dev, op - 0x4C)
        } else if op < 0x68 {
            self.op_jump(dev, op % 2 == 0, Some(cond(op)))
        } else if op == 0x68 || op == 0x69 {
            self.op_call(dev, op == 0x68)
        } else if op == 0x6A {
            self.op_return(dev)
        } else if op == 0x6B {
            Some(Ok(CycleAction::Raise(INTERRUPT_SYSCALL)))
        } else if op == 0x6C || op == 0x6D {
            self.op_convert(dev, op == 0x6C)
        } else {
            Some(Ok(CycleAction::Raise(INTERRUPT_ILLEGAL_OPERATION)))
        }
    }

    /// Fetch and execute one instruction, as `execute_s` says.
    #[verifier::spinoff_prover]
    fn execute(&mut self, dev: &DeviceBytes) -> (r: Option<Result<CycleAction, Fault>>)
        requires
            old(self).wf(),
            crate::vm::bus::devices_wf(dev@),
        ensures
            final(self).wf(),
            (final(self)@, r) == execute_s(dev@, old(self)@),
    {
        proof {
            reveal(execute_s);
        }
        let op = match self.fetch(dev, ValueType::Byte) {
            Some(Ok(v)) => v as u8,
            Some(Err(e)) => return Some(Err(e)),
            None => return None,
        };
        self.dispatch(dev, op)
    }

    /// Finish a cycle that began executing at `start`, as `conclude_s`
    /// says.
    #[verifier::spinoff_prover]
    fn conclude(&mut self, start: u32, r: Option<Result<CycleAction, Fault>>) -> (a: Option<CycleAction>)
        ensures
            (final(self)@, a) == conclude_s(old(self)@, start, r),
            final(self).regs == old(self).regs,
            final(self).mem == old(self).mem,
    {
        match r {
            None => None,
            Some(Ok(CycleAction::Float(req))) => Some(CycleAction::Float(FloatRequest { retry_pc: start, ..req })),
            Some(Ok(a)) => Some(a),
            Some(Err(Fault::Interrupt(i))) => {
                self.pc = start;
                Some(CycleAction::Retry(i))
            },
            Some(Err(Fault::PageFault(f))) => {
                self.pc = start;
                self.pfsr = f;
                Some(CycleAction::Retry(INTERRUPT_PAGE_FAULT))
            },
        }
    }

    /// One cycle of the processor, as `cycle_s` says: where `interrupt` is
    /// given (an enabled interrupt, taken from the latch or the channel),
    /// enter its handler; then fetch, decode and execute an instruction.
    /// The action says what the caller does next; the stores to the
    /// display and the devices are added to `acts`.
    #[verifier::spinoff_prover]
    pub fn cycle(&mut self, dev: &DeviceBytes, interrupt: Option<u32>) -> (r: Option<CycleAction>)
        requires
            old(self).wf(),
            crate::vm::bus::devices_wf(dev@),
        ensures
            final(self).wf(),
            (final(self)@, r) == cycle_s(dev@, old(self)@, interrupt),
    {
        match interrupt {
            Some(i) => {
                if !(self.regs.flags() < 0x8000 && i <= 0x3FFF_FFFF) {
                    return None;
                }
                let sp0 = self.regs.stack_pointer();
                if !crate::vm::access::check_entry(&self.regs) {
                    return None;
                }
                let pc = self.pc;
                let (mut acts, h) = enter_interrupt(&mut self.regs, &mut self.mem, dev, pc, i);
                self.acts.append(&mut acts);
                match h {
                    None => Some(CycleAction::Fatal),
                    Some(handler) => {
                        self.pc = handler;
                        let r = self.execute(dev);
                        self.conclude(handler, r)
                    },
                }
            },
            None => {
                let start = self.pc;
                let r = self.execute(dev);
                self.conclude(start, r)
            },
        }
    }

    /// Write the result of floating-point work, as `finish_float_s` says.
    #[verifier::spinoff_prover]
    pub fn finish_float(&mut self, req: FloatRequest, result: u32, flags: u16) -> (a: CycleAction)
        requires
            old(self).wf(),
        ensures
            final(self).wf(),
            (final(self)@, a) == finish_float_s(old(self)@, req, result, flags),
    {
        if req.op == FloatOp::Compare {
            self.regs.set_flags(flags);
            return CycleAction::Next;
        }
        let to_int = req.op == FloatOp::FloatToSigned || req.op == FloatOp::FloatToUnsigned;
        let v = if to_int { TypedValue::Word(result) } else { TypedValue::Float(result) };
        let sets_flags = !(req.op == FloatOp::Negate || req.op == FloatOp::SignedToFloat || req.op
            == FloatOp::UnsignedToFloat || to_int);
        match self.regs.write_to_register(req.reg, v) {
            Ok(()) => {
                if sets_flags {
                    self.regs.set_flags(flags);
                }
                CycleAction::Next
            },
            Err(_) => {
                self.pc = req.retry_pc;
                CycleAction::Retry(INTERRUPT_ILLEGAL_OPERATION)
            },
        }
    }
}

} // verus!

verus! {

/// Whether an instruction's outcome is other than asking for a retry.
pub open spec fn no_retry(r: Option<Result<CycleAction, Fault>>) -> bool {
    !(r matches Some(Ok(CycleAction::Retry(_))))
}

/// Whether an instruction's outcome asks neither for a retry nor for what
/// only kernel mode may ask: halting, pausing, setting the timer.
pub open spec fn plain(r: Option<Result<CycleAction, Fault>>) -> bool {
    &&& no_retry(r)
    &&& !(r matches Some(Ok(CycleAction::Halt)))
    &&& !(r matches Some(Ok(CycleAction::Pause)))
    &&& !(r matches Some(Ok(CycleAction::SetTimer(_))))
}

/// The instruction of `timer_s` never asks for a retry by itself.
proof fn lemma_no_retry_timer(d: DeviceBytesView, s: MState, literal: bool)
    ensures
        no_retry(timer_s(d, s, literal).1),
{
}

/// The instruction of `usermode_s` asks for no retry, halt, pause or timer.
proof fn lemma_no_retry_usermode(d: DeviceBytesView, s: MState)
    ensures
        plain(usermode_s(d, s).1),
{
}

/// The instruction of `ireturn_s` asks for no retry, halt, pause or timer.
proof fn lemma_no_retry_ireturn(d: DeviceBytesView, s: MState)
    ensures
        plain(ireturn_s(d, s).1),
{
}

/// The instruction of `load_op_s` asks for no retry, halt, pause or timer.
proof fn lemma_no_retry_load(d: DeviceBytesView, s: MState, literal: bool)
    ensures
        plain(load_op_s(d, s, literal).1),
{
}

/// The instruction of `store_op_s` asks for no retry, halt, pause or timer.
proof fn lemma_no_retry_store(d: DeviceBytesView, s: MState, literal: bool)
    ensures
        plain(store_op_s(d, s, literal).1),
{
}

/// The instruction of `copy_op_s` asks for no retry, halt, pause or timer.
proof fn lemma_no_retry_copy(d: DeviceBytesView, s: MState, literal: bool)
    ensures
        plain(copy_op_s(d, s, literal).1),
{
}

/// The instruction of `swap_op_s` asks for no retry, halt, pause or timer.
proof fn lemma_no_retry_swap(d: DeviceBytesView, s: MState, literal: bool)
    ensures
        plain(swap_op_s(d, s, literal).1),
{
}

/// The instruction of `push_op_s` asks for no retry, halt, pause or timer.
proof fn lemma_no_retry_push(d: DeviceBytesView, s: MState)
    ensures
        plain(push_op_s(d, s).1),
{
}

/// The instruction of `pop_op_s` asks for no retry, halt, pause or timer.
proof fn lemma_no_retry_pop(d: DeviceBytesView, s: MState)
    ensures
        plain(pop_op_s(d, s).1),
{
}

/// The instruction of `blockcopy_op_s` asks for no retry, halt, pause or timer.
proof fn lemma_no_retry_blockcopy(d: DeviceBytesView, s: MState, k: u8)
    ensures
        plain(blockcopy_op_s(d, s, k).1),
{
}

/// The instruction of `blockset_op_s` asks for no retry, halt, pause or timer.
proof fn lemma_no_retry_blockset(d: DeviceBytesView, s: MState, k: u8)
    ensures
        plain(blockset_op_s(d, s, k).1),
{
}

/// The instruction of `blockcomp_op_s` asks for no retry, halt, pause or timer.
proof fn lemma_no_retry_blockcomp(d: DeviceBytesView, s: MState, k: u8)
    ensures
        plain(blockcomp_op_s(d, s, k).1),
{
}

/// The instruction of `negate_s` asks for no retry, halt, pause or timer.
proof fn lemma_no_retry_negate(d: DeviceBytesView, s: MState)
    ensures
        plain(negate_s(d, s).1),
{
}

/// The instruction of `not_s` asks for no retry, halt, pause or timer.
proof fn lemma_no_retry_not(d: DeviceBytesView, s: MState)
    ensures
        plain(not_s(d, s).1),
{
}

/// The instruction of `alu_literal_s` asks for no retry, halt, pause or timer.
proof fn lemma_no_retry_alu_literal(d: DeviceBytesView, s: MState, op: IntOp)
    ensures
        plain(alu_literal_s(d, s, op).1),
{
}

/// The instruction of `alu_ref_s` asks for no retry, halt, pause or timer.
proof fn lemma_no_retry_alu_ref(d: DeviceBytesView, s: MState, op: IntOp)
    ensures
        plain(alu_ref_s(d, s, op).1),
{
}

/// The instruction of `jump_s` asks for no retry, halt, pause or timer.
proof fn lemma_no_retry_jump(d: DeviceBytesView, s: MState, literal: bool, c: Option<Condition>)
    ensures
        plain(jump_s(d, s, literal, c).1),
{
}

/// The instruction of `call_s` asks for no retry, halt, pause or timer.
proof fn lemma_no_retry_call(d: DeviceBytesView, s: MState, literal: bool)
    ensures
        plain(call_s(d, s, literal).1),
{
}

/// The instruction of `return_s` asks for no retry, halt, pause or timer.
proof fn lemma_no_retry_return(d: DeviceBytesView, s: MState)
    ensures
        plain(return_s(d, s).1),
{
}

/// The instruction of `convert_s` asks for no retry, halt, pause or timer.
proof fn lemma_no_retry_convert(d: DeviceBytesView, s: MState, signed: bool)
    ensures
        plain(convert_s(d, s, signed).1),
{
}

/// No instruction asks by itself for a retry: that comes only from a fault.
#[verifier::spinoff_prover]
#[verifier::rlimit(60)]
proof fn lemma_dispatch_no_retry(d: DeviceBytesView, s: MState, op: u8)
    ensures
        no_retry(dispatch_s(d, s, op).1),
{
    reveal(dispatch_s);
    if op <= 0x01 {
    } else if op == 0x02 || op == 0x03 {
        lemma_no_retry_timer(d, s, op == 0x02);
    } else if op == 0x04 {
        lemma_no_retry_usermode(d, s);
    } else if op == 0x05 {
        lemma_no_retry_ireturn(d, s);
    } else if op == 0x06 || op == 0x07 {
        lemma_no_retry_load(d, s, op == 0x06);
    } else if op == 0x08 || op == 0x09 {
        lemma_no_retry_store(d, s, op == 0x08);
    } else if op == 0x0A || op == 0x0B {
        lemma_no_retry_copy(d, s, op == 0x0A);
    } else if op == 0x0C || op == 0x0D {
        lemma_no_retry_swap(d, s, op == 0x0C);
    } else if op == 0x0E {
        lemma_no_retry_push(d, s);
    } else if op == 0x0F {
        lemma_no_retry_pop(d, s);
    } else if op < 0x18 {
        lemma_no_retry_blockcopy(d, s, (op - 0x10) as u8);
    } else if op < 0x20 {
        lemma_no_retry_blockset(d, s, (op - 0x18) as u8);
    } else if op == 0x20 {
        lemma_no_retry_negate(d, s);
    } else if op == 0x33 {
        lemma_no_retry_not(d, s);
    } else if op < 0x48 {
        lemma_no_retry_alu_literal(d, s, alu_op_of(op));
        lemma_no_retry_alu_ref(d, s, alu_op_of(op));
    } else if op == 0x48 || op == 0x49 {
        lemma_no_retry_jump(d, s, op == 0x48, None);
    } else if op == 0x4A {
        lemma_no_retry_alu_literal(d, s, IntOp::Compare);
    } else if op == 0x4B {
        lemma_no_retry_alu_ref(d, s, IntOp::Compare);
    } else if op < 0x54 {
        lemma_no_retry_blockcomp(d, s, (op - 0x4C) as u8);
    } else if op < 0x68 {
        lemma_no_retry_jump(d, s, op % 2 == 0, Some(cond_of(op)));
    } else if op == 0x68 || op == 0x69 {
        lemma_no_retry_call(d, s, op == 0x68);
    } else if op == 0x6A {
        lemma_no_retry_return(d, s);
    } else if op == 0x6C || op == 0x6D {
        lemma_no_retry_convert(d, s, op == 0x6C);
    }
}

/// In user mode no instruction halts, pauses, sets the timer or asks for a
/// retry by itself.
#[verifier::spinoff_prover]
#[verifier::rlimit(60)]
proof fn lemma_dispatch_user(d: DeviceBytesView, s: MState, op: u8)
    requires
        !s.regs.kernel_mode,
    ensures
        plain(dispatch_s(d, s, op).1),
{
    reveal(dispatch_s);
    if op <= 0x03 {
    } else if op == 0x04 {
        lemma_no_retry_usermode(d, s);
    } else if op == 0x05 {
        lemma_no_retry_ireturn(d, s);
    } else if op == 0x06 || op == 0x07 {
        lemma_no_retry_load(d, s, op == 0x06);
    } else if op == 0x08 || op == 0x09 {
        lemma_no_retry_store(d, s, op == 0x08);
    } else if op == 0x0A || op == 0x0B {
        lemma_no_retry_copy(d, s, op == 0x0A);
    } else if op == 0x0C || op == 0x0D {
        lemma_no_retry_swap(d, s, op == 0x0C);
    } else if op == 0x0E {
        lemma_no_retry_push(d, s);
    } else if op == 0x0F {
        lemma_no_retry_pop(d, s);
    } else if op < 0x18 {
        lemma_no_retry_blockcopy(d, s, (op - 0x10) as u8);
    } else if op < 0x20 {
        lemma_no_retry_blockset(d, s, (op - 0x18) as u8);
    } else if op == 0x20 {
        lemma_no_retry_negate(d, s);
    } else if op == 0x33 {
        lemma_no_retry_not(d, s);
    } else if op < 0x48 {
        lemma_no_retry_alu_literal(d, s, alu_op_of(op));
        lemma_no_retry_alu_ref(d, s, alu_op_of(op));
    } else if op == 0x48 || op == 0x49 {
        lemma_no_retry_jump(d, s, op == 0x48, None);
    } else if op == 0x4A {
        lemma_no_retry_alu_literal(d, s, IntOp::Compare);
    } else if op == 0x4B {
        lemma_no_retry_alu_ref(d, s, IntOp::Compare);
    } else if op < 0x54 {
        lemma_no_retry_blockcomp(d, s, (op - 0x4C) as u8);
    } else if op < 0x68 {
        lemma_no_retry_jump(d, s, op % 2 == 0, Some(cond_of(op)));
    } else if op == 0x68 || op == 0x69 {
        lemma_no_retry_call(d, s, op == 0x68);
    } else if op == 0x6A {
        lemma_no_retry_return(d, s);
    } else if op == 0x6C || op == 0x6D {
        lemma_no_retry_convert(d, s, op == 0x6C);
    }
}

/// A cycle in user mode that takes no interrupt never halts, pauses or
/// sets the timer: those instructions are privileged.
pub proof fn lemma_user_mode_is_unprivileged(d: DeviceBytesView, s: MState)
    requires
        !s.regs.kernel_mode,
    ensures
        ({
            let a = cycle_s(d, s, None).1;
            &&& a != Some(CycleAction::Halt)
            &&& a != Some(CycleAction::Pause)
            &&& !(a matches Some(CycleAction::SetTimer(_)))
        }),
{
    reveal(execute_s);
    let (s2, h) = fetch_s(d, s, ValueType::Byte);
    if h matches Some(Ok(_)) {
        lemma_dispatch_user(d, s2, ok_val(h) as u8);
    }
}

/// Executing an instruction never asks for a retry by itself.
proof fn lemma_execute_no_retry(d: DeviceBytesView, s: MState)
    ensures
        no_retry(execute_s(d, s).1),
{
    reveal(execute_s);
    let (s2, h) = fetch_s(d, s, ValueType::Byte);
    if h matches Some(Ok(_)) {
        lemma_dispatch_no_retry(d, s2, ok_val(h) as u8);
    }
}

/// A cycle that takes no interrupt and must be tried again leaves the
/// program counter where the instruction began.
#[verifier::spinoff_prover]
#[verifier::rlimit(60)]
pub proof fn lemma_retry_restores_pc(d: DeviceBytesView, s: MState, interrupt: Option<u32>)
    ensures
        ({
            let (s1, a) = cycle_s(d, s, interrupt);
            (interrupt is None && (a matches Some(CycleAction::Retry(_)))) ==> s1.pc == s.pc
        }),
{
    lemma_execute_no_retry(d, s);
}

} // verus!
