//! The instruction set as the assembler and the processor share it: each
//! mnemonic's opcodes are the ones the processor runs as that instruction,
//! and each conditional jump after a comparison tests the comparison its
//! name says.
use vstd::prelude::*;
use vstd::string::StringSliceAdditionalSpecFns;
use crate::salt::modes::{block_opcode, mode_of, Mode};
use crate::vm::alu::IntOp;
use crate::vm::cpu::{
    condition_holds, lemma_compare_then_jump, signed, sub_spec, width, Condition, ValueType, INTERRUPT_ILLEGAL_OPERATION,
    INTERRUPT_SYSCALL,
};
use crate::vm::bus::DeviceBytesView;
use crate::vm::cycle::{
    act, alu_literal_s, alu_ref_s, blockcomp_op_s, blockcopy_op_s, blockset_op_s, call_s, cond_of, convert_s, copy_op_s,
    dispatch_s, ireturn_s, jump_s, load_op_s, negate_s, not_s, pop_op_s, privileged_s, push_op_s, return_s, store_op_s,
    swap_op_s, timer_s, usermode_s, CycleAction, Fault, MState,
};

verus! {

/// The number of opcodes of a mode: one for a mode without a choice, eight
/// for a block operation (by which of its three operands are registers),
/// otherwise two (a literal or symbol operand, or a register).
pub open spec fn mode_forms(m: Mode) -> nat {
    match m {
        Mode::NoOps(_) | Mode::Reg(_) | Mode::IntReg(_) | Mode::Convert(_) => 1,
        Mode::WordAddrAddr(_) | Mode::WordAddrByte(_) => 8,
        _ => 2,
    }
}

/// The opcode of form `j` of a mode.
pub open spec fn mode_opcode(m: Mode, j: nat) -> u8 {
    match m {
        Mode::NoOps(o) | Mode::Reg(o) | Mode::IntReg(o) | Mode::Convert(o) => o,
        Mode::WordAddrAddr(b) | Mode::WordAddrByte(b) => (b + j) as u8,
        Mode::W(a, b) | Mode::RegAddr(a, b) | Mode::AddrReg(a, b) | Mode::RegVal(a, b) | Mode::IntRegVal(a, b)
        | Mode::IntRegByte(a, b) | Mode::Addr(a, b) => if j == 0 {
            a
        } else {
            b
        },
    }
}

/// An arithmetic, bitwise, shift, rotate or compare instruction with a
/// literal operand or a register.
pub open spec fn arith(d: DeviceBytesView, s: MState, lit: bool, op: IntOp) -> (MState, Option<Result<CycleAction, Fault>>) {
    if lit {
        alu_literal_s(d, s, op)
    } else {
        alu_ref_s(d, s, op)
    }
}

/// What the processor does for the instruction with mnemonic `name` in form
/// `j` (0 with a literal or symbol operand, 1 with a register; for a block
/// operation, which operands are registers).
#[verifier::opaque]
pub open spec fn instruction_meaning(d: DeviceBytesView, s: MState, name: Seq<u8>, j: nat) -> (
    MState,
    Option<Result<CycleAction, Fault>>,
) {
    let lit = j == 0;
    if name == "halt".spec_bytes() {
        privileged_s(s, CycleAction::Halt)
    } else if name == "pause".spec_bytes() {
        privileged_s(s, CycleAction::Pause)
    } else if name == "timer".spec_bytes() {
        timer_s(d, s, lit)
    } else if name == "usermode".spec_bytes() {
        usermode_s(d, s)
    } else if name == "ireturn".spec_bytes() {
        ireturn_s(d, s)
    } else if name == "load".spec_bytes() {
        load_op_s(d, s, lit)
    } else if name == "store".spec_bytes() {
        store_op_s(d, s, lit)
    } else if name == "copy".spec_bytes() {
        copy_op_s(d, s, lit)
    } else if name == "swap".spec_bytes() {
        swap_op_s(d, s, lit)
    } else if name == "push".spec_bytes() {
        push_op_s(d, s)
    } else if name == "pop".spec_bytes() {
        pop_op_s(d, s)
    } else if name == "blockcopy".spec_bytes() {
        blockcopy_op_s(d, s, j as u8)
    } else if name == "blockset".spec_bytes() {
        blockset_op_s(d, s, j as u8)
    } else if name == "negate".spec_bytes() {
        negate_s(d, s)
    } else if name == "add".spec_bytes() {
        arith(d, s, lit, IntOp::Add)
    } else if name == "addcarry".spec_bytes() {
        arith(d, s, lit, IntOp::AddCarry)
    } else if name == "sub".spec_bytes() {
        arith(d, s, lit, IntOp::Sub)
    } else if name == "subborrow".spec_bytes() {
        arith(d, s, lit, IntOp::SubBorrow)
    } else if name == "mult".spec_bytes() {
        arith(d, s, lit, IntOp::Mult)
    } else if name == "sdiv".spec_bytes() {
        arith(d, s, lit, IntOp::SDiv)
    } else if name == "udiv".spec_bytes() {
        arith(d, s, lit, IntOp::UDiv)
    } else if name == "srem".spec_bytes() {
        arith(d, s, lit, IntOp::SRem)
    } else if name == "urem".spec_bytes() {
        arith(d, s, lit, IntOp::URem)
    } else if name == "not".spec_bytes() {
        not_s(d, s)
    } else if name == "and".spec_bytes() {
        arith(d, s, lit, IntOp::And)
    } else if name == "or".spec_bytes() {
        arith(d, s, lit, IntOp::Or)
    } else if name == "xor".spec_bytes() {
        arith(d, s, lit, IntOp::Xor)
    } else if name == "lshift".spec_bytes() {
        arith(d, s, lit, IntOp::LShift)
    } else if name == "srshift".spec_bytes() {
        arith(d, s, lit, IntOp::SRShift)
    } else if name == "urshift".spec_bytes() {
        arith(d, s, lit, IntOp::URShift)
    } else if name == "lrot".spec_bytes() {
        arith(d, s, lit, IntOp::LRot)
    } else if name == "rrot".spec_bytes() {
        arith(d, s, lit, IntOp::RRot)
    } else if name == "lrotcarry".spec_bytes() {
        arith(d, s, lit, IntOp::LRotCarry)
    } else if name == "rrotcarry".spec_bytes() {
        arith(d, s, lit, IntOp::RRotCarry)
    } else if name == "jump".spec_bytes() {
        jump_s(d, s, lit, None)
    } else if name == "compare".spec_bytes() {
        arith(d, s, lit, IntOp::Compare)
    } else if name == "blockcmp".spec_bytes() {
        blockcomp_op_s(d, s, j as u8)
    } else if name == "jequal".spec_bytes() {
        jump_s(d, s, lit, Some(Condition::Equal))
    } else if name == "jnotequal".spec_bytes() {
        jump_s(d, s, lit, Some(Condition::NotEqual))
    } else if name == "sjgreater".spec_bytes() {
        jump_s(d, s, lit, Some(Condition::SignedGreater))
    } else if name == "sjgreatereq".spec_bytes() {
        jump_s(d, s, lit, Some(Condition::SignedGreaterEq))
    } else if name == "ujgreater".spec_bytes() {
        jump_s(d, s, lit, Some(Condition::UnsignedGreater))
    } else if name == "ujgreatereq".spec_bytes() {
        jump_s(d, s, lit, Some(Condition::UnsignedGreaterEq))
    } else if name == "sjlesser".spec_bytes() {
        jump_s(d, s, lit, Some(Condition::SignedLesser))
    } else if name == "sjlessereq".spec_bytes() {
        jump_s(d, s, lit, Some(Condition::SignedLesserEq))
    } else if name == "ujlesser".spec_bytes() {
        jump_s(d, s, lit, Some(Condition::UnsignedLesser))
    } else if name == "ujlessereq".spec_bytes() {
        jump_s(d, s, lit, Some(Condition::UnsignedLesserEq))
    } else if name == "call".spec_bytes() {
        call_s(d, s, lit)
    } else if name == "return".spec_bytes() {
        return_s(d, s)
    } else if name == "syscall".spec_bytes() {
        act(s, CycleAction::Raise(INTERRUPT_SYSCALL))
    } else if name == "sconvert".spec_bytes() {
        convert_s(d, s, true)
    } else if name == "uconvert".spec_bytes() {
        convert_s(d, s, false)
    } else {
        act(s, CycleAction::Raise(INTERRUPT_ILLEGAL_OPERATION))
    }
}

/// The opcodes of `halt` run as that instruction.
proof fn lemma_decode_halt(d: DeviceBytesView, s: MState, name: Seq<u8>, j: nat)
    requires
        mode_of(name) == Some(Mode::NoOps(0x00)),
        j < mode_forms(Mode::NoOps(0x00)),
    ensures
        dispatch_s(d, s, mode_opcode(Mode::NoOps(0x00), j)) == instruction_meaning(d, s, name, j),
{
    reveal(dispatch_s);
    reveal(instruction_meaning);
}

/// The opcodes of `pause` run as that instruction.
proof fn lemma_decode_pause(d: DeviceBytesView, s: MState, name: Seq<u8>, j: nat)
    requires
        mode_of(name) == Some(Mode::NoOps(0x01)),
        j < mode_forms(Mode::NoOps(0x01)),
    ensures
        dispatch_s(d, s, mode_opcode(Mode::NoOps(0x01), j)) == instruction_meaning(d, s, name, j),
{
    reveal(dispatch_s);
    reveal(instruction_meaning);
}

/// The opcodes of `timer` run as that instruction.
proof fn lemma_decode_timer(d: DeviceBytesView, s: MState, name: Seq<u8>, j: nat)
    requires
        mode_of(name) == Some(Mode::W(0x02, 0x03)),
        j < mode_forms(Mode::W(0x02, 0x03)),
    ensures
        dispatch_s(d, s, mode_opcode(Mode::W(0x02, 0x03), j)) == instruction_meaning(d, s, name, j),
{
    reveal(dispatch_s);
    reveal(instruction_meaning);
}

/// The opcodes of `usermode` run as that instruction.
proof fn lemma_decode_usermode(d: DeviceBytesView, s: MState, name: Seq<u8>, j: nat)
    requires
        mode_of(name) == Some(Mode::NoOps(0x04)),
        j < mode_forms(Mode::NoOps(0x04)),
    ensures
        dispatch_s(d, s, mode_opcode(Mode::NoOps(0x04), j)) == instruction_meaning(d, s, name, j),
{
    reveal(dispatch_s);
    reveal(instruction_meaning);
}

/// The opcodes of `ireturn` run as that instruction.
proof fn lemma_decode_ireturn(d: DeviceBytesView, s: MState, name: Seq<u8>, j: nat)
    requires
        mode_of(name) == Some(Mode::NoOps(0x05)),
        j < mode_forms(Mode::NoOps(0x05)),
    ensures
        dispatch_s(d, s, mode_opcode(Mode::NoOps(0x05), j)) == instruction_meaning(d, s, name, j),
{
    reveal(dispatch_s);
    reveal(instruction_meaning);
}

/// The opcodes of `load` run as that instruction.
proof fn lemma_decode_load(d: DeviceBytesView, s: MState, name: Seq<u8>, j: nat)
    requires
        mode_of(name) == Some(Mode::RegAddr(0x06, 0x07)),
        j < mode_forms(Mode::RegAddr(0x06, 0x07)),
    ensures
        dispatch_s(d, s, mode_opcode(Mode::RegAddr(0x06, 0x07), j)) == instruction_meaning(d, s, name, j),
{
    reveal(dispatch_s);
    reveal(instruction_meaning);
}

/// The opcodes of `store` run as that instruction.
proof fn lemma_decode_store(d: DeviceBytesView, s: MState, name: Seq<u8>, j: nat)
    requires
        mode_of(name) == Some(Mode::AddrReg(0x08, 0x09)),
        j < mode_forms(Mode::AddrReg(0x08, 0x09)),
    ensures
        dispatch_s(d, s, mode_opcode(Mode::AddrReg(0x08, 0x09), j)) == instruction_meaning(d, s, name, j),
{
    reveal(dispatch_s);
    reveal(instruction_meaning);
}

/// The opcodes of `copy` run as that instruction.
proof fn lemma_decode_copy(d: DeviceBytesView, s: MState, name: Seq<u8>, j: nat)
    requires
        mode_of(name) == Some(Mode::RegVal(0x0A, 0x0B)),
        j < mode_forms(Mode::RegVal(0x0A, 0x0B)),
    ensures
        dispatch_s(d, s, mode_opcode(Mode::RegVal(0x0A, 0x0B), j)) == instruction_meaning(d, s, name, j),
{
    reveal(dispatch_s);
    reveal(instruction_meaning);
}

/// The opcodes of `swap` run as that instruction.
proof fn lemma_decode_swap(d: DeviceBytesView, s: MState, name: Seq<u8>, j: nat)
    requires
        mode_of(name) == Some(Mode::RegAddr(0x0C, 0x0D)),
        j < mode_forms(Mode::RegAddr(0x0C, 0x0D)),
    ensures
        dispatch_s(d, s, mode_opcode(Mode::RegAddr(0x0C, 0x0D), j)) == instruction_meaning(d, s, name, j),
{
    reveal(dispatch_s);
    reveal(instruction_meaning);
}

/// The opcodes of `push` run as that instruction.
proof fn lemma_decode_push(d: DeviceBytesView, s: MState, name: Seq<u8>, j: nat)
    requires
        mode_of(name) == Some(Mode::Reg(0x0E)),
        j < mode_forms(Mode::Reg(0x0E)),
    ensures
        dispatch_s(d, s, mode_opcode(Mode::Reg(0x0E), j)) == instruction_meaning(d, s, name, j),
{
    reveal(dispatch_s);
    reveal(instruction_meaning);
}

/// The opcodes of `pop` run as that instruction.
proof fn lemma_decode_pop(d: DeviceBytesView, s: MState, name: Seq<u8>, j: nat)
    requires
        mode_of(name) == Some(Mode::Reg(0x0F)),
        j < mode_forms(Mode::Reg(0x0F)),
    ensures
        dispatch_s(d, s, mode_opcode(Mode::Reg(0x0F), j)) == instruction_meaning(d, s, name, j),
{
    reveal(dispatch_s);
    reveal(instruction_meaning);
}

/// The opcodes of `blockcopy` run as that instruction.
proof fn lemma_decode_blockcopy(d: DeviceBytesView, s: MState, name: Seq<u8>, j: nat)
    requires
        mode_of(name) == Some(Mode::WordAddrAddr(0x10)),
        j < mode_forms(Mode::WordAddrAddr(0x10)),
    ensures
        dispatch_s(d, s, mode_opcode(Mode::WordAddrAddr(0x10), j)) == instruction_meaning(d, s, name, j),
{
    let op = (0x10 + j) as u8;
    assert(0x10 <= op < 0x10 + 8 && (op - 0x10) as u8 == j as u8);
    reveal(dispatch_s);
    reveal(instruction_meaning);
}

/// The opcodes of `blockset` run as that instruction.
proof fn lemma_decode_blockset(d: DeviceBytesView, s: MState, name: Seq<u8>, j: nat)
    requires
        mode_of(name) == Some(Mode::WordAddrByte(0x18)),
        j < mode_forms(Mode::WordAddrByte(0x18)),
    ensures
        dispatch_s(d, s, mode_opcode(Mode::WordAddrByte(0x18), j)) == instruction_meaning(d, s, name, j),
{
    let op = (0x18 + j) as u8;
    assert(0x18 <= op < 0x18 + 8 && (op - 0x18) as u8 == j as u8);
    reveal(dispatch_s);
    reveal(instruction_meaning);
}

/// The opcodes of `negate` run as that instruction.
proof fn lemma_decode_negate(d: DeviceBytesView, s: MState, name: Seq<u8>, j: nat)
    requires
        mode_of(name) == Some(Mode::Reg(0x20)),
        j < mode_forms(Mode::Reg(0x20)),
    ensures
        dispatch_s(d, s, mode_opcode(Mode::Reg(0x20), j)) == instruction_meaning(d, s, name, j),
{
    reveal(dispatch_s);
    reveal(instruction_meaning);
}

/// The opcodes of `add` run as that instruction.
proof fn lemma_decode_add(d: DeviceBytesView, s: MState, name: Seq<u8>, j: nat)
    requires
        mode_of(name) == Some(Mode::RegVal(0x21, 0x22)),
        j < mode_forms(Mode::RegVal(0x21, 0x22)),
    ensures
        dispatch_s(d, s, mode_opcode(Mode::RegVal(0x21, 0x22), j)) == instruction_meaning(d, s, name, j),
{
    reveal(dispatch_s);
    reveal(instruction_meaning);
}

/// The opcodes of `addcarry` run as that instruction.
proof fn lemma_decode_addcarry(d: DeviceBytesView, s: MState, name: Seq<u8>, j: nat)
    requires
        mode_of(name) == Some(Mode::IntRegVal(0x23, 0x24)),
        j < mode_forms(Mode::IntRegVal(0x23, 0x24)),
    ensures
        dispatch_s(d, s, mode_opcode(Mode::IntRegVal(0x23, 0x24), j)) == instruction_meaning(d, s, name, j),
{
    reveal(dispatch_s);
    reveal(instruction_meaning);
}

/// The opcodes of `sub` run as that instruction.
proof fn lemma_decode_sub(d: DeviceBytesView, s: MState, name: Seq<u8>, j: nat)
    requires
        mode_of(name) == Some(Mode::RegVal(0x25, 0x26)),
        j < mode_forms(Mode::RegVal(0x25, 0x26)),
    ensures
        dispatch_s(d, s, mode_opcode(Mode::RegVal(0x25, 0x26), j)) == instruction_meaning(d, s, name, j),
{
    reveal(dispatch_s);
    reveal(instruction_meaning);
}

/// The opcodes of `subborrow` run as that instruction.
proof fn lemma_decode_subborrow(d: DeviceBytesView, s: MState, name: Seq<u8>, j: nat)
    requires
        mode_of(name) == Some(Mode::IntRegVal(0x27, 0x28)),
        j < mode_forms(Mode::IntRegVal(0x27, 0x28)),
    ensures
        dispatch_s(d, s, mode_opcode(Mode::IntRegVal(0x27, 0x28), j)) == instruction_meaning(d, s, name, j),
{
    reveal(dispatch_s);
    reveal(instruction_meaning);
}

/// The opcodes of `mult` run as that instruction.
proof fn lemma_decode_mult(d: DeviceBytesView, s: MState, name: Seq<u8>, j: nat)
    requires
        mode_of(name) == Some(Mode::RegVal(0x29, 0x2A)),
        j < mode_forms(Mode::RegVal(0x29, 0x2A)),
    ensures
        dispatch_s(d, s, mode_opcode(Mode::RegVal(0x29, 0x2A), j)) == instruction_meaning(d, s, name, j),
{
    reveal(dispatch_s);
    reveal(instruction_meaning);
}

/// The opcodes of `sdiv` run as that instruction.
proof fn lemma_decode_sdiv(d: DeviceBytesView, s: MState, name: Seq<u8>, j: nat)
    requires
        mode_of(name) == Some(Mode::RegVal(0x2B, 0x2C)),
        j < mode_forms(Mode::RegVal(0x2B, 0x2C)),
    ensures
        dispatch_s(d, s, mode_opcode(Mode::RegVal(0x2B, 0x2C), j)) == instruction_meaning(d, s, name, j),
{
    reveal(dispatch_s);
    reveal(instruction_meaning);
}

/// The opcodes of `udiv` run as that instruction.
proof fn lemma_decode_udiv(d: DeviceBytesView, s: MState, name: Seq<u8>, j: nat)
    requires
        mode_of(name) == Some(Mode::IntRegVal(0x2D, 0x2E)),
        j < mode_forms(Mode::IntRegVal(0x2D, 0x2E)),
    ensures
        dispatch_s(d, s, mode_opcode(Mode::IntRegVal(0x2D, 0x2E), j)) == instruction_meaning(d, s, name, j),
{
    reveal(dispatch_s);
    reveal(instruction_meaning);
}

/// The opcodes of `srem` run as that instruction.
proof fn lemma_decode_srem(d: DeviceBytesView, s: MState, name: Seq<u8>, j: nat)
    requires
        mode_of(name) == Some(Mode::RegVal(0x2F, 0x30)),
        j < mode_forms(Mode::RegVal(0x2F, 0x30)),
    ensures
        dispatch_s(d, s, mode_opcode(Mode::RegVal(0x2F, 0x30), j)) == instruction_meaning(d, s, name, j),
{
    reveal(dispatch_s);
    reveal(instruction_meaning);
}

/// The opcodes of `urem` run as that instruction.
proof fn lemma_decode_urem(d: DeviceBytesView, s: MState, name: Seq<u8>, j: nat)
    requires
        mode_of(name) == Some(Mode::IntRegVal(0x31, 0x32)),
        j < mode_forms(Mode::IntRegVal(0x31, 0x32)),
    ensures
        dispatch_s(d, s, mode_opcode(Mode::IntRegVal(0x31, 0x32), j)) == instruction_meaning(d, s, name, j),
{
    reveal(dispatch_s);
    reveal(instruction_meaning);
}

/// The opcodes of `not` run as that instruction.
proof fn lemma_decode_not(d: DeviceBytesView, s: MState, name: Seq<u8>, j: nat)
    requires
        mode_of(name) == Some(Mode::IntReg(0x33)),
        j < mode_forms(Mode::IntReg(0x33)),
    ensures
        dispatch_s(d, s, mode_opcode(Mode::IntReg(0x33), j)) == instruction_meaning(d, s, name, j),
{
    reveal(dispatch_s);
    reveal(instruction_meaning);
}

/// The opcodes of `and` run as that instruction.
proof fn lemma_decode_and(d: DeviceBytesView, s: MState, name: Seq<u8>, j: nat)
    requires
        mode_of(name) == Some(Mode::IntRegVal(0x34, 0x35)),
        j < mode_forms(Mode::IntRegVal(0x34, 0x35)),
    ensures
        dispatch_s(d, s, mode_opcode(Mode::IntRegVal(0x34, 0x35), j)) == instruction_meaning(d, s, name, j),
{
    reveal(dispatch_s);
    reveal(instruction_meaning);
}

/// The opcodes of `or` run as that instruction.
proof fn lemma_decode_or(d: DeviceBytesView, s: MState, name: Seq<u8>, j: nat)
    requires
        mode_of(name) == Some(Mode::IntRegVal(0x36, 0x37)),
        j < mode_forms(Mode::IntRegVal(0x36, 0x37)),
    ensures
        dispatch_s(d, s, mode_opcode(Mode::IntRegVal(0x36, 0x37), j)) == instruction_meaning(d, s, name, j),
{
    reveal(dispatch_s);
    reveal(instruction_meaning);
}

/// The opcodes of `xor` run as that instruction.
proof fn lemma_decode_xor(d: DeviceBytesView, s: MState, name: Seq<u8>, j: nat)
    requires
        mode_of(name) == Some(Mode::IntRegVal(0x38, 0x39)),
        j < mode_forms(Mode::IntRegVal(0x38, 0x39)),
    ensures
        dispatch_s(d, s, mode_opcode(Mode::IntRegVal(0x38, 0x39), j)) == instruction_meaning(d, s, name, j),
{
    reveal(dispatch_s);
    reveal(instruction_meaning);
}

/// The opcodes of `lshift` run as that instruction.
proof fn lemma_decode_lshift(d: DeviceBytesView, s: MState, name: Seq<u8>, j: nat)
    requires
        mode_of(name) == Some(Mode::IntRegByte(0x3A, 0x3B)),
        j < mode_forms(Mode::IntRegByte(0x3A, 0x3B)),
    ensures
        dispatch_s(d, s, mode_opcode(Mode::IntRegByte(0x3A, 0x3B), j)) == instruction_meaning(d, s, name, j),
{
    reveal(dispatch_s);
    reveal(instruction_meaning);
}

/// The opcodes of `srshift` run as that instruction.
proof fn lemma_decode_srshift(d: DeviceBytesView, s: MState, name: Seq<u8>, j: nat)
    requires
        mode_of(name) == Some(Mode::IntRegByte(0x3C, 0x3D)),
        j < mode_forms(Mode::IntRegByte(0x3C, 0x3D)),
    ensures
        dispatch_s(d, s, mode_opcode(Mode::IntRegByte(0x3C, 0x3D), j)) == instruction_meaning(d, s, name, j),
{
    reveal(dispatch_s);
    reveal(instruction_meaning);
}

/// The opcodes of `urshift` run as that instruction.
proof fn lemma_decode_urshift(d: DeviceBytesView, s: MState, name: Seq<u8>, j: nat)
    requires
        mode_of(name) == Some(Mode::IntRegByte(0x3E, 0x3F)),
        j < mode_forms(Mode::IntRegByte(0x3E, 0x3F)),
    ensures
        dispatch_s(d, s, mode_opcode(Mode::IntRegByte(0x3E, 0x3F), j)) == instruction_meaning(d, s, name, j),
{
    reveal(dispatch_s);
    reveal(instruction_meaning);
}

/// The opcodes of `lrot` run as that instruction.
proof fn lemma_decode_lrot(d: DeviceBytesView, s: MState, name: Seq<u8>, j: nat)
    requires
        mode_of(name) == Some(Mode::IntRegByte(0x40, 0x41)),
        j < mode_forms(Mode::IntRegByte(0x40, 0x41)),
    ensures
        dispatch_s(d, s, mode_opcode(Mode::IntRegByte(0x40, 0x41), j)) == instruction_meaning(d, s, name, j),
{
    reveal(dispatch_s);
    reveal(instruction_meaning);
}

/// The opcodes of `rrot` run as that instruction.
proof fn lemma_decode_rrot(d: DeviceBytesView, s: MState, name: Seq<u8>, j: nat)
    requires
        mode_of(name) == Some(Mode::IntRegByte(0x42, 0x43)),
        j < mode_forms(Mode::IntRegByte(0x42, 0x43)),
    ensures
        dispatch_s(d, s, mode_opcode(Mode::IntRegByte(0x42, 0x43), j)) == instruction_meaning(d, s, name, j),
{
    reveal(dispatch_s);
    reveal(instruction_meaning);
}

/// The opcodes of `lrotcarry` run as that instruction.
proof fn lemma_decode_lrotcarry(d: DeviceBytesView, s: MState, name: Seq<u8>, j: nat)
    requires
        mode_of(name) == Some(Mode::IntRegByte(0x44, 0x45)),
        j < mode_forms(Mode::IntRegByte(0x44, 0x45)),
    ensures
        dispatch_s(d, s, mode_opcode(Mode::IntRegByte(0x44, 0x45), j)) == instruction_meaning(d, s, name, j),
{
    reveal(dispatch_s);
    reveal(instruction_meaning);
}

/// The opcodes of `rrotcarry` run as that instruction.
proof fn lemma_decode_rrotcarry(d: DeviceBytesView, s: MState, name: Seq<u8>, j: nat)
    requires
        mode_of(name) == Some(Mode::IntRegByte(0x46, 0x47)),
        j < mode_forms(Mode::IntRegByte(0x46, 0x47)),
    ensures
        dispatch_s(d, s, mode_opcode(Mode::IntRegByte(0x46, 0x47), j)) == instruction_meaning(d, s, name, j),
{
    reveal(dispatch_s);
    reveal(instruction_meaning);
}

/// The opcodes of `jump` run as that instruction.
proof fn lemma_decode_jump(d: DeviceBytesView, s: MState, name: Seq<u8>, j: nat)
    requires
        mode_of(name) == Some(Mode::Addr(0x48, 0x49)),
        j < mode_forms(Mode::Addr(0x48, 0x49)),
    ensures
        dispatch_s(d, s, mode_opcode(Mode::Addr(0x48, 0x49), j)) == instruction_meaning(d, s, name, j),
{
    reveal(dispatch_s);
    reveal(instruction_meaning);
}

/// The opcodes of `compare` run as that instruction.
proof fn lemma_decode_compare(d: DeviceBytesView, s: MState, name: Seq<u8>, j: nat)
    requires
        mode_of(name) == Some(Mode::RegVal(0x4A, 0x4B)),
        j < mode_forms(Mode::RegVal(0x4A, 0x4B)),
    ensures
        dispatch_s(d, s, mode_opcode(Mode::RegVal(0x4A, 0x4B), j)) == instruction_meaning(d, s, name, j),
{
    reveal(dispatch_s);
    reveal(instruction_meaning);
}

/// The opcodes of `blockcmp` run as that instruction.
proof fn lemma_decode_block_compare(d: DeviceBytesView, s: MState, name: Seq<u8>, j: nat)
    requires
        mode_of(name) == Some(Mode::WordAddrAddr(0x4C)),
        j < mode_forms(Mode::WordAddrAddr(0x4C)),
    ensures
        dispatch_s(d, s, mode_opcode(Mode::WordAddrAddr(0x4C), j)) == instruction_meaning(d, s, name, j),
{
    let op = (0x4C + j) as u8;
    assert(0x4C <= op < 0x4C + 8 && (op - 0x4C) as u8 == j as u8);
    reveal(dispatch_s);
    reveal(instruction_meaning);
}

/// The opcodes of `jequal` run as that instruction.
proof fn lemma_decode_jequal(d: DeviceBytesView, s: MState, name: Seq<u8>, j: nat)
    requires
        mode_of(name) == Some(Mode::Addr(0x54, 0x55)),
        j < mode_forms(Mode::Addr(0x54, 0x55)),
    ensures
        dispatch_s(d, s, mode_opcode(Mode::Addr(0x54, 0x55), j)) == instruction_meaning(d, s, name, j),
{
    reveal(dispatch_s);
    reveal(instruction_meaning);
}

/// The opcodes of `jnotequal` run as that instruction.
proof fn lemma_decode_jnotequal(d: DeviceBytesView, s: MState, name: Seq<u8>, j: nat)
    requires
        mode_of(name) == Some(Mode::Addr(0x56, 0x57)),
        j < mode_forms(Mode::Addr(0x56, 0x57)),
    ensures
        dispatch_s(d, s, mode_opcode(Mode::Addr(0x56, 0x57), j)) == instruction_meaning(d, s, name, j),
{
    reveal(dispatch_s);
    reveal(instruction_meaning);
}

/// The opcodes of `sjgreater` run as that instruction.
proof fn lemma_decode_sjgreater(d: DeviceBytesView, s: MState, name: Seq<u8>, j: nat)
    requires
        mode_of(name) == Some(Mode::Addr(0x58, 0x59)),
        j < mode_forms(Mode::Addr(0x58, 0x59)),
    ensures
        dispatch_s(d, s, mode_opcode(Mode::Addr(0x58, 0x59), j)) == instruction_meaning(d, s, name, j),
{
    reveal(dispatch_s);
    reveal(instruction_meaning);
}

/// The opcodes of `sjgreatereq` run as that instruction.
proof fn lemma_decode_sjgreatereq(d: DeviceBytesView, s: MState, name: Seq<u8>, j: nat)
    requires
        mode_of(name) == Some(Mode::Addr(0x5A, 0x5B)),
        j < mode_forms(Mode::Addr(0x5A, 0x5B)),
    ensures
        dispatch_s(d, s, mode_opcode(Mode::Addr(0x5A, 0x5B), j)) == instruction_meaning(d, s, name, j),
{
    reveal(dispatch_s);
    reveal(instruction_meaning);
}

/// The opcodes of `ujgreater` run as that instruction.
proof fn lemma_decode_ujgreater(d: DeviceBytesView, s: MState, name: Seq<u8>, j: nat)
    requires
        mode_of(name) == Some(Mode::Addr(0x5C, 0x5D)),
        j < mode_forms(Mode::Addr(0x5C, 0x5D)),
    ensures
        dispatch_s(d, s, mode_opcode(Mode::Addr(0x5C, 0x5D), j)) == instruction_meaning(d, s, name, j),
{
    reveal(dispatch_s);
    reveal(instruction_meaning);
}

/// The opcodes of `ujgreatereq` run as that instruction.
proof fn lemma_decode_ujgreatereq(d: DeviceBytesView, s: MState, name: Seq<u8>, j: nat)
    requires
        mode_of(name) == Some(Mode::Addr(0x5E, 0x5F)),
        j < mode_forms(Mode::Addr(0x5E, 0x5F)),
    ensures
        dispatch_s(d, s, mode_opcode(Mode::Addr(0x5E, 0x5F), j)) == instruction_meaning(d, s, name, j),
{
    reveal(dispatch_s);
    reveal(instruction_meaning);
}

/// The opcodes of `sjlesser` run as that instruction.
proof fn lemma_decode_sjlesser(d: DeviceBytesView, s: MState, name: Seq<u8>, j: nat)
    requires
        mode_of(name) == Some(Mode::Addr(0x60, 0x61)),
        j < mode_forms(Mode::Addr(0x60, 0x61)),
    ensures
        dispatch_s(d, s, mode_opcode(Mode::Addr(0x60, 0x61), j)) == instruction_meaning(d, s, name, j),
{
    reveal(dispatch_s);
    reveal(instruction_meaning);
}

/// The opcodes of `sjlessereq` run as that instruction.
proof fn lemma_decode_sjlessereq(d: DeviceBytesView, s: MState, name: Seq<u8>, j: nat)
    requires
        mode_of(name) == Some(Mode::Addr(0x62, 0x63)),
        j < mode_forms(Mode::Addr(0x62, 0x63)),
    ensures
        dispatch_s(d, s, mode_opcode(Mode::Addr(0x62, 0x63), j)) == instruction_meaning(d, s, name, j),
{
    reveal(dispatch_s);
    reveal(instruction_meaning);
}

/// The opcodes of `ujlesser` run as that instruction.
proof fn lemma_decode_ujlesser(d: DeviceBytesView, s: MState, name: Seq<u8>, j: nat)
    requires
        mode_of(name) == Some(Mode::Addr(0x64, 0x65)),
        j < mode_forms(Mode::Addr(0x64, 0x65)),
    ensures
        dispatch_s(d, s, mode_opcode(Mode::Addr(0x64, 0x65), j)) == instruction_meaning(d, s, name, j),
{
    reveal(dispatch_s);
    reveal(instruction_meaning);
}

/// The opcodes of `ujlessereq` run as that instruction.
proof fn lemma_decode_ujlessereq(d: DeviceBytesView, s: MState, name: Seq<u8>, j: nat)
    requires
        mode_of(name) == Some(Mode::Addr(0x66, 0x67)),
        j < mode_forms(Mode::Addr(0x66, 0x67)),
    ensures
        dispatch_s(d, s, mode_opcode(Mode::Addr(0x66, 0x67), j)) == instruction_meaning(d, s, name, j),
{
    reveal(dispatch_s);
    reveal(instruction_meaning);
}

/// The opcodes of `call` run as that instruction.
proof fn lemma_decode_call(d: DeviceBytesView, s: MState, name: Seq<u8>, j: nat)
    requires
        mode_of(name) == Some(Mode::Addr(0x68, 0x69)),
        j < mode_forms(Mode::Addr(0x68, 0x69)),
    ensures
        dispatch_s(d, s, mode_opcode(Mode::Addr(0x68, 0x69), j)) == instruction_meaning(d, s, name, j),
{
    reveal(dispatch_s);
    reveal(instruction_meaning);
}

/// The opcodes of `return` run as that instruction.
proof fn lemma_decode_return(d: DeviceBytesView, s: MState, name: Seq<u8>, j: nat)
    requires
        mode_of(name) == Some(Mode::NoOps(0x6A)),
        j < mode_forms(Mode::NoOps(0x6A)),
    ensures
        dispatch_s(d, s, mode_opcode(Mode::NoOps(0x6A), j)) == instruction_meaning(d, s, name, j),
{
    reveal(dispatch_s);
    reveal(instruction_meaning);
}

/// The opcodes of `syscall` run as that instruction.
proof fn lemma_decode_syscall(d: DeviceBytesView, s: MState, name: Seq<u8>, j: nat)
    requires
        mode_of(name) == Some(Mode::NoOps(0x6B)),
        j < mode_forms(Mode::NoOps(0x6B)),
    ensures
        dispatch_s(d, s, mode_opcode(Mode::NoOps(0x6B), j)) == instruction_meaning(d, s, name, j),
{
    reveal(dispatch_s);
    reveal(instruction_meaning);
}

/// The opcodes of `sconvert` run as that instruction.
proof fn lemma_decode_sconvert(d: DeviceBytesView, s: MState, name: Seq<u8>, j: nat)
    requires
        mode_of(name) == Some(Mode::Convert(0x6C)),
        j < mode_forms(Mode::Convert(0x6C)),
    ensures
        dispatch_s(d, s, mode_opcode(Mode::Convert(0x6C), j)) == instruction_meaning(d, s, name, j),
{
    reveal(dispatch_s);
    reveal(instruction_meaning);
}

/// The opcodes of `uconvert` run as that instruction.
proof fn lemma_decode_uconvert(d: DeviceBytesView, s: MState, name: Seq<u8>, j: nat)
    requires
        mode_of(name) == Some(Mode::Convert(0x6D)),
        j < mode_forms(Mode::Convert(0x6D)),
    ensures
        dispatch_s(d, s, mode_opcode(Mode::Convert(0x6D), j)) == instruction_meaning(d, s, name, j),
{
    reveal(dispatch_s);
    reveal(instruction_meaning);
}

/// Every mnemonic the assembler knows is coded with opcodes that the
/// processor runs as that instruction: UDIV divides unsigned, SJGREATER
/// jumps on a signed comparison, and so on.
#[verifier::spinoff_prover]
#[verifier::rlimit(100)]
pub proof fn lemma_mnemonics_decode(d: DeviceBytesView, s: MState, name: Seq<u8>, j: nat)
    requires
        mode_of(name) is Some,
        j < mode_forms(mode_of(name)->0),
    ensures
        dispatch_s(d, s, mode_opcode(mode_of(name)->0, j)) == instruction_meaning(d, s, name, j),
{
    let m = mode_of(name)->0;
    if m == Mode::NoOps(0x00) {
        lemma_decode_halt(d, s, name, j);
    } else if m == Mode::NoOps(0x01) {
        lemma_decode_pause(d, s, name, j);
    } else if m == Mode::W(0x02, 0x03) {
        lemma_decode_timer(d, s, name, j);
    } else if m == Mode::NoOps(0x04) {
        lemma_decode_usermode(d, s, name, j);
    } else if m == Mode::NoOps(0x05) {
        lemma_decode_ireturn(d, s, name, j);
    } else if m == Mode::RegAddr(0x06, 0x07) {
        lemma_decode_load(d, s, name, j);
    } else if m == Mode::AddrReg(0x08, 0x09) {
        lemma_decode_store(d, s, name, j);
    } else if m == Mode::RegVal(0x0A, 0x0B) {
        lemma_decode_copy(d, s, name, j);
    } else if m == Mode::RegAddr(0x0C, 0x0D) {
        lemma_decode_swap(d, s, name, j);
    } else if m == Mode::Reg(0x0E) {
        lemma_decode_push(d, s, name, j);
    } else if m == Mode::Reg(0x0F) {
        lemma_decode_pop(d, s, name, j);
    } else if m == Mode::WordAddrAddr(0x10) {
        lemma_decode_blockcopy(d, s, name, j);
    } else if m == Mode::WordAddrByte(0x18) {
        lemma_decode_blockset(d, s, name, j);
    } else if m == Mode::Reg(0x20) {
        lemma_decode_negate(d, s, name, j);
    } else if m == Mode::RegVal(0x21, 0x22) {
        lemma_decode_add(d, s, name, j);
    } else if m == Mode::IntRegVal(0x23, 0x24) {
        lemma_decode_addcarry(d, s, name, j);
    } else if m == Mode::RegVal(0x25, 0x26) {
        lemma_decode_sub(d, s, name, j);
    } else if m == Mode::IntRegVal(0x27, 0x28) {
        lemma_decode_subborrow(d, s, name, j);
    } else if m == Mode::RegVal(0x29, 0x2A) {
        lemma_decode_mult(d, s, name, j);
    } else if m == Mode::RegVal(0x2B, 0x2C) {
        lemma_decode_sdiv(d, s, name, j);
    } else if m == Mode::IntRegVal(0x2D, 0x2E) {
        lemma_decode_udiv(d, s, name, j);
    } else if m == Mode::RegVal(0x2F, 0x30) {
        lemma_decode_srem(d, s, name, j);
    } else if m == Mode::IntRegVal(0x31, 0x32) {
        lemma_decode_urem(d, s, name, j);
    } else if m == Mode::IntReg(0x33) {
        lemma_decode_not(d, s, name, j);
    } else if m == Mode::IntRegVal(0x34, 0x35) {
        lemma_decode_and(d, s, name, j);
    } else if m == Mode::IntRegVal(0x36, 0x37) {
        lemma_decode_or(d, s, name, j);
    } else if m == Mode::IntRegVal(0x38, 0x39) {
        lemma_decode_xor(d, s, name, j);
    } else if m == Mode::IntRegByte(0x3A, 0x3B) {
        lemma_decode_lshift(d, s, name, j);
    } else if m == Mode::IntRegByte(0x3C, 0x3D) {
        lemma_decode_srshift(d, s, name, j);
    } else if m == Mode::IntRegByte(0x3E, 0x3F) {
        lemma_decode_urshift(d, s, name, j);
    } else if m == Mode::IntRegByte(0x40, 0x41) {
        lemma_decode_lrot(d, s, name, j);
    } else if m == Mode::IntRegByte(0x42, 0x43) {
        lemma_decode_rrot(d, s, name, j);
    } else if m == Mode::IntRegByte(0x44, 0x45) {
        lemma_decode_lrotcarry(d, s, name, j);
    } else if m == Mode::IntRegByte(0x46, 0x47) {
        lemma_decode_rrotcarry(d, s, name, j);
    } else if m == Mode::Addr(0x48, 0x49) {
        lemma_decode_jump(d, s, name, j);
    } else if m == Mode::RegVal(0x4A, 0x4B) {
        lemma_decode_compare(d, s, name, j);
    } else if m == Mode::WordAddrAddr(0x4C) {
        lemma_decode_block_compare(d, s, name, j);
    } else if m == Mode::Addr(0x54, 0x55) {
        lemma_decode_jequal(d, s, name, j);
    } else if m == Mode::Addr(0x56, 0x57) {
        lemma_decode_jnotequal(d, s, name, j);
    } else if m == Mode::Addr(0x58, 0x59) {
        lemma_decode_sjgreater(d, s, name, j);
    } else if m == Mode::Addr(0x5A, 0x5B) {
        lemma_decode_sjgreatereq(d, s, name, j);
    } else if m == Mode::Addr(0x5C, 0x5D) {
        lemma_decode_ujgreater(d, s, name, j);
    } else if m == Mode::Addr(0x5E, 0x5F) {
        lemma_decode_ujgreatereq(d, s, name, j);
    } else if m == Mode::Addr(0x60, 0x61) {
        lemma_decode_sjlesser(d, s, name, j);
    } else if m == Mode::Addr(0x62, 0x63) {
        lemma_decode_sjlessereq(d, s, name, j);
    } else if m == Mode::Addr(0x64, 0x65) {
        lemma_decode_ujlesser(d, s, name, j);
    } else if m == Mode::Addr(0x66, 0x67) {
        lemma_decode_ujlessereq(d, s, name, j);
    } else if m == Mode::Addr(0x68, 0x69) {
        lemma_decode_call(d, s, name, j);
    } else if m == Mode::NoOps(0x6A) {
        lemma_decode_return(d, s, name, j);
    } else if m == Mode::NoOps(0x6B) {
        lemma_decode_syscall(d, s, name, j);
    } else if m == Mode::Convert(0x6C) {
        lemma_decode_sconvert(d, s, name, j);
    } else if m == Mode::Convert(0x6D) {
        lemma_decode_uconvert(d, s, name, j);
    }
}

/// The opcode the assembler picks for a block operation, by which of its
/// operands are registers, is the form whose bits say so, in the order the
/// processor reads them (4: the first operand, 2: the second, 1: the third).
pub proof fn lemma_block_forms(m: Mode, b0: bool, b1: bool, b2: bool)
    requires
        (m matches Mode::WordAddrAddr(base) && base <= 248) || (m matches Mode::WordAddrByte(base) && base <= 248),
    ensures
        ({
            let j = (if b0 { 4nat } else { 0nat }) + (if b1 { 2nat } else { 0nat }) + (if b2 { 1nat } else { 0nat });
            let k = j as u8;
            &&& j < mode_forms(m)
            &&& mode_opcode(m, j) == match m {
                Mode::WordAddrAddr(base) => block_opcode(base, b0, b1, b2),
                Mode::WordAddrByte(base) => block_opcode(base, b0, b1, b2),
                _ => 0u8,
            }
            &&& (k & 4 != 0) == b0
            &&& (k & 2 != 0) == b1
            &&& (k & 1 != 0) == b2
        }),
{
    let k: u8 = ((if b0 { 4nat } else { 0nat }) + (if b1 { 2nat } else { 0nat }) + (if b2 { 1nat } else { 0nat })) as u8;
    let k4: u8 = if b0 { 4 } else { 0 };
    let k2: u8 = if b1 { 2 } else { 0 };
    let k1: u8 = if b2 { 1 } else { 0 };
    assert(k == k4 + k2 + k1);
    assert((k & 4 != 0) == b0 && (k & 2 != 0) == b1 && (k & 1 != 0) == b2) by (bit_vector)
        requires
            k == k4 + k2 + k1,
            k4 == (if b0 { 4u8 } else { 0u8 }),
            k2 == (if b1 { 2u8 } else { 0u8 }),
            k1 == (if b2 { 1u8 } else { 0u8 }),
    ;
}

/// After a comparison of `x` with `y` (the flags of `x - y`), each
/// conditional jump opcode, literal or register form, is taken exactly when
/// the comparison its name says holds: JEQUAL equal, JNOTEQUAL unequal,
/// SJGREATER(EQ) and SJLESSER(EQ) on the two's complement values,
/// UJGREATER(EQ) and UJLESSER(EQ) on the unsigned values.
pub proof fn lemma_jump_after_compare(ty: ValueType, x: int, y: int, op: u8)
    requires
        ty != ValueType::Float,
        0 <= x < width(ty),
        0 <= y < width(ty),
        0x54 <= op < 0x68,
    ensures
        ({
            let m = width(ty);
            let h = condition_holds(cond_of(op), sub_spec(m, x, y).1);
            let (sx, sy) = (signed(m, x), signed(m, y));
            &&& (op == 0x54 || op == 0x55) ==> h == (x == y)
            &&& (op == 0x56 || op == 0x57) ==> h == (x != y)
            &&& (op == 0x58 || op == 0x59) ==> h == (sx > sy)
            &&& (op == 0x5A || op == 0x5B) ==> h == (sx >= sy)
            &&& (op == 0x5C || op == 0x5D) ==> h == (x > y)
            &&& (op == 0x5E || op == 0x5F) ==> h == (x >= y)
            &&& (op == 0x60 || op == 0x61) ==> h == (sx < sy)
            &&& (op == 0x62 || op == 0x63) ==> h == (sx <= sy)
            &&& (op == 0x64 || op == 0x65) ==> h == (x < y)
            &&& (op == 0x66 || op == 0x67) ==> h == (x <= y)
        }),
{
    lemma_compare_then_jump(ty, x, y);
}

/// A conditional jump opcode runs as a jump on its condition: a literal
/// address for the even opcode, a register for the odd one.
pub proof fn lemma_jump_opcodes(d: DeviceBytesView, s: MState, op: u8)
    requires
        0x54 <= op < 0x68,
    ensures
        dispatch_s(d, s, op) == jump_s(d, s, op % 2 == 0, Some(cond_of(op))),
{
    reveal(dispatch_s);
}

} // verus!
