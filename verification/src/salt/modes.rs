//! The addressing modes of SimAsm instructions: how each mode checks its
//! operands and what code it appends for them.
//!
//! The names follow the assembly language's addressing-mode shorthand: `B`,
//! `H`, `W`, `F` for a byte, half, word or float register that the operand
//! must be, their lower-case forms for a register or literal of that type,
//! and `a` for an address (a word literal, a word register or a symbol).
use vstd::prelude::*;
use crate::bytes::bytes_eq;
use vstd::string::StringSliceAdditionalSpecFns;
use crate::salt::ast::{op_indices, LitView, LiteralValue, Operand};
use crate::salt::codegen::{
    append_code, value_as_spec, CodeGenerator, GenState, Outcome, ResView, ResolvedOperand, ValueAs,
    resolve_operand_spec, msg,
};
use crate::salt::error::{ErrView, SaltError};
use crate::salt::literals::RegisterType;
use crate::salt::registers::{reg_matches, register_type_matches, RegRefType};
use crate::salt::syntax::{node_span, Span, SyntaxTree};
use crate::text::{ascii_chars, decimal, decimal_string};
use vstd::string::StringExecFns;

verus! {

/// One byte appended to the code.
pub open spec fn push_byte(s: GenState, b: u8) -> GenState {
    append_code(s, seq![b])
}

/// The code byte at `pos` replaced.
pub open spec fn set_byte(s: GenState, pos: int, b: u8) -> GenState {
    GenState { code: s.code.update(pos, b), ..s }
}

/// Go on from a done step; a failure or a stop ends there.
pub open spec fn then<A, B>(o: Outcome<A>, f: spec_fn(GenState, A) -> Outcome<B>) -> Outcome<B> {
    match o {
        Outcome::Done(s, a) => f(s, a),
        Outcome::Fail(s, e) => Outcome::Fail(s, e),
        Outcome::Stop => Outcome::Stop,
    }
}

/// The error of a wrong number of operands.
pub open spec fn count_error(span: Span, expected: nat, found: nat) -> ErrView {
    ErrView {
        span,
        message: "Expected "@ + ascii_chars(decimal(expected)) + " operands, but found "@ + ascii_chars(
            decimal(found),
        ) + "."@,
    }
}

/// An operand that must be a register of any type: its code is the
/// register's number, and the step gives the register's type.
pub open spec fn reg_any_step(s: GenState, r: ResView, sp: Span) -> Outcome<RegisterType> {
    match r {
        ResView::Literal(_) => Outcome::Fail(s, msg(sp, "Cannot use a literal here.")),
        ResView::RegRef(x, ty) => Outcome::Done(push_byte(s, x), ty),
        ResView::SymbolReference => Outcome::Fail(
            s,
            msg(sp, "Symbol references resolve to addresses, which can't be used here."),
        ),
    }
}

/// An address operand of a two-operand instruction whose opcode stands at
/// `pos`: a literal word or a symbol chooses `lit_op`, a word register
/// `reg_op`.
pub open spec fn address_step(s: GenState, r: ResView, sp: Span, lit_op: u8, reg_op: u8, pos: int) -> Outcome<()> {
    match r {
        ResView::Literal(l) => match value_as_spec(set_byte(s, pos, lit_op), l, sp, ValueAs::Word) {
            Some((s2, Some(b))) => Outcome::Done(append_code(s2, b), ()),
            _ => Outcome::Stop,
        },
        ResView::RegRef(x, ty) => if reg_matches(ty, RegRefType::RegRefWord) {
            Outcome::Done(push_byte(set_byte(s, pos, reg_op), x), ())
        } else {
            Outcome::Fail(s, msg(sp, "Expected an address (word) register reference."))
        },
        ResView::SymbolReference => Outcome::Done(set_byte(s, pos, lit_op), ()),
    }
}

/// A word operand of a three-operand instruction: a literal word, a word
/// register (the step gives `true`), or a symbol. `m` is the error where
/// the register is not a word.
pub open spec fn word_step(s: GenState, r: ResView, sp: Span, m: Seq<char>) -> Outcome<bool> {
    match r {
        ResView::Literal(l) => match value_as_spec(s, l, sp, ValueAs::Word) {
            Some((s2, Some(b))) => Outcome::Done(append_code(s2, b), false),
            _ => Outcome::Stop,
        },
        ResView::RegRef(x, ty) => if reg_matches(ty, RegRefType::RegRefWord) {
            Outcome::Done(push_byte(s, x), true)
        } else {
            Outcome::Fail(s, ErrView { span: sp, message: m })
        },
        ResView::SymbolReference => Outcome::Done(s, false),
    }
}

/// A byte operand: a literal that fits a byte, or a byte register (the step
/// gives `true`).
pub open spec fn byte_step(s: GenState, r: ResView, sp: Span) -> Outcome<bool> {
    match r {
        ResView::Literal(l) => match value_as_spec(s, l, sp, ValueAs::Byte) {
            None => Outcome::Stop,
            Some((s2, None)) => Outcome::Fail(s2, msg(sp, "Literal too large: expected single byte.")),
            Some((s2, Some(b))) => Outcome::Done(append_code(s2, b), false),
        },
        ResView::RegRef(x, ty) => if reg_matches(ty, RegRefType::RegRefByte) {
            Outcome::Done(push_byte(s, x), true)
        } else {
            Outcome::Fail(s, msg(sp, "Expected a byte register reference."))
        },
        ResView::SymbolReference => Outcome::Fail(
            s,
            msg(sp, "Symbol references resolve to addresses, which can't be used here."),
        ),
    }
}

/// The conversion of a literal for a register of the given type.
pub open spec fn kind_for(ty: RegisterType) -> ValueAs {
    match ty {
        RegisterType::Byte => ValueAs::Byte,
        RegisterType::Half => ValueAs::Half,
        RegisterType::Word => ValueAs::Word,
        RegisterType::Float => ValueAs::Float,
    }
}

/// A literal's bytes for a register of the given type appended to the code.
pub open spec fn value_step(s: GenState, l: LitView, ty: RegisterType, sp: Span) -> Outcome<()> {
    match value_as_spec(s, l, sp, kind_for(ty)) {
        None => Outcome::Stop,
        Some((s2, None)) => Outcome::Fail(s2, msg(sp, "Literal too big for register.")),
        Some((s2, Some(b))) => Outcome::Done(append_code(s2, b), ()),
    }
}

/// A destination register that must not be a float.
pub open spec fn int_reg_step(s: GenState, r: ResView, sp: Span) -> Outcome<RegisterType> {
    match r {
        ResView::Literal(_) => Outcome::Fail(s, msg(sp, "Cannot use a literal here.")),
        ResView::RegRef(x, ty) => if ty == RegisterType::Float {
            Outcome::Fail(s, msg(sp, "Operation not applicable to floats."))
        } else {
            Outcome::Done(push_byte(s, x), ty)
        },
        ResView::SymbolReference => Outcome::Fail(
            s,
            msg(sp, "Symbol references resolve to addresses, which can't be used here."),
        ),
    }
}

/// The source operand of a two-register instruction whose destination has
/// type `ty` and whose opcode stands at `pos`. `floats` says whether the
/// instruction takes floats, which only changes the error for a symbol.
pub open spec fn source_step(
    s: GenState,
    r: ResView,
    sp: Span,
    ty: RegisterType,
    lit_op: u8,
    reg_op: u8,
    pos: int,
    floats: bool,
) -> Outcome<()> {
    match r {
        ResView::Literal(l) => value_step(set_byte(s, pos, lit_op), l, ty, sp),
        ResView::RegRef(x, ty2) => if ty != ty2 {
            Outcome::Fail(s, msg(sp, "Cannot operate between differently-sized registers."))
        } else {
            Outcome::Done(push_byte(set_byte(s, pos, reg_op), x), ())
        },
        ResView::SymbolReference => if ty == RegisterType::Word {
            Outcome::Done(set_byte(s, pos, lit_op), ())
        } else if floats && ty == RegisterType::Float {
            Outcome::Fail(
                s,
                msg(sp, "Symbol references resolve to addresses, which make no sense in a float register."),
            )
        } else if floats {
            Outcome::Fail(s, msg(sp, "Symbols resolve to addresses, which are too large to use here."))
        } else {
            Outcome::Fail(
                s,
                msg(sp, "Symbol references resolve to addresses, which are too large to use here."),
            )
        },
    }
}

/// The first operand of a conversion: a word register (the step gives
/// `false`) or a float register (`true`).
pub open spec fn convert_first_step(s: GenState, r: ResView, sp: Span) -> Outcome<bool> {
    match r {
        ResView::Literal(_) => Outcome::Fail(s, msg(sp, "Cannot use a literal here.")),
        ResView::RegRef(x, ty) => if reg_matches(ty, RegRefType::RegRefWord) {
            Outcome::Done(push_byte(s, x), false)
        } else if reg_matches(ty, RegRefType::RegRefFloat) {
            Outcome::Done(push_byte(s, x), true)
        } else {
            Outcome::Fail(s, msg(sp, "Expected a word or float register reference."))
        },
        ResView::SymbolReference => Outcome::Fail(
            s,
            msg(sp, "Symbol references resolve to addresses, which can't be used here."),
        ),
    }
}

/// The second operand of a conversion: a register of the other kind.
pub open spec fn convert_second_step(s: GenState, r: ResView, sp: Span, float_first: bool) -> Outcome<()> {
    match r {
        ResView::Literal(_) => Outcome::Fail(s, msg(sp, "Cannot use a literal here.")),
        ResView::RegRef(x, ty) => if float_first {
            if reg_matches(ty, RegRefType::RegRefWord) {
                Outcome::Done(push_byte(s, x), ())
            } else {
                Outcome::Fail(s, msg(sp, "Expected a word register reference."))
            }
        } else {
            if reg_matches(ty, RegRefType::RegRefFloat) {
                Outcome::Done(push_byte(s, x), ())
            } else {
                Outcome::Fail(s, msg(sp, "Expected a float register reference."))
            }
        },
        ResView::SymbolReference => Outcome::Fail(
            s,
            msg(sp, "Symbol references resolve to addresses, which can't be used here."),
        ),
    }
}

/// The single operand of an instruction that takes a word.
pub open spec fn w_step(s: GenState, r: ResView, sp: Span, lit_op: u8, reg_op: u8) -> Outcome<()> {
    match r {
        ResView::Literal(l) => match value_as_spec(push_byte(s, lit_op), l, sp, ValueAs::Word) {
            Some((s2, Some(b))) => Outcome::Done(append_code(s2, b), ()),
            _ => Outcome::Stop,
        },
        ResView::RegRef(x, ty) => if reg_matches(ty, RegRefType::RegRefWord) {
            Outcome::Done(push_byte(push_byte(s, reg_op), x), ())
        } else {
            Outcome::Fail(s, msg(sp, "Expected a word register reference."))
        },
        ResView::SymbolReference => Outcome::Done(push_byte(s, lit_op), ()),
    }
}

/// The byte operand of a shift or rotation whose opcode stands at `pos`.
pub open spec fn shift_step(s: GenState, r: ResView, sp: Span, lit_op: u8, reg_op: u8, pos: int) -> Outcome<()> {
    match r {
        ResView::Literal(l) => match value_as_spec(set_byte(s, pos, lit_op), l, sp, ValueAs::Byte) {
            None => Outcome::Stop,
            Some((s2, None)) => Outcome::Fail(s2, msg(sp, "Literal too large: expected single byte.")),
            Some((s2, Some(b))) => Outcome::Done(append_code(s2, b), ()),
        },
        ResView::RegRef(x, ty) => if reg_matches(ty, RegRefType::RegRefByte) {
            Outcome::Done(push_byte(set_byte(s, pos, reg_op), x), ())
        } else {
            Outcome::Fail(s, msg(sp, "Expected a byte register reference."))
        },
        ResView::SymbolReference => Outcome::Fail(
            s,
            msg(sp, "Symbol references resolve to addresses, which can't be used here."),
        ),
    }
}

/// The addressing mode of an instruction, with its opcodes: for two
/// opcodes, the first is for a literal or symbol operand and the second for
/// a register; for a block operation, the base of its eight opcodes.
#[derive(Debug, Clone, Copy, PartialEq, Eq, Structural)]
pub enum Mode {
    NoOps(u8),
    W(u8, u8),
    RegAddr(u8, u8),
    AddrReg(u8, u8),
    RegVal(u8, u8),
    Reg(u8),
    WordAddrAddr(u8),
    WordAddrByte(u8),
    Convert(u8),
    IntRegVal(u8, u8),
    IntReg(u8),
    IntRegByte(u8, u8),
    Addr(u8, u8),
}

/// Operands of the generator's tree that the typed layer can look into.
pub open spec fn ops_ok(ops: Seq<Operand>, t: &SyntaxTree) -> bool {
    forall|i: int| 0 <= i < ops.len() ==> (#[trigger] ops[i]).syntax.tree == t && crate::salt::ast::ast_ok(ops[i].syntax)
}

/// The operand `i` resolved.
pub open spec fn res(s: GenState, t: &SyntaxTree, ops: Seq<usize>, i: int) -> Outcome<ResView> {
    resolve_operand_spec(s, t, ops[i] as int)
}

/// The span of operand `i`.
pub open spec fn osp(t: &SyntaxTree, ops: Seq<usize>, i: int) -> Span {
    node_span(t, ops[i] as int)
}

/// The number of operands a mode takes.
pub open spec fn mode_arity(m: Mode) -> nat {
    match m {
        Mode::NoOps(_) => 0,
        Mode::W(_, _) | Mode::Reg(_) | Mode::IntReg(_) | Mode::Addr(_, _) => 1,
        Mode::WordAddrAddr(_) | Mode::WordAddrByte(_) => 3,
        _ => 2,
    }
}

/// The opcode chosen by which of three operands are registers.
pub open spec fn block_opcode(base: u8, b0: bool, b1: bool, b2: bool) -> u8 {
    (base + (if b0 { 4int } else { 0int }) + (if b1 { 2int } else { 0int }) + (if b2 { 1int } else { 0int })) as u8
}

/// The code of an instruction's operands in the given mode, after the
/// check of their number. `span` is the instruction's.
pub open spec fn operands_spec(s: GenState, t: &SyntaxTree, ops: Seq<usize>, m: Mode) -> Outcome<()> {
    let pos = s.code.len() as int;
    let s0 = push_byte(s, 0);
    let addr = "Expected an address (word) register reference."@;
    match m {
        Mode::NoOps(op) => Outcome::Done(push_byte(s, op), ()),
        Mode::W(o0, o1) => then(res(s, t, ops, 0), |s1: GenState, r: ResView| w_step(s1, r, osp(t, ops, 0), o0, o1)),
        Mode::RegAddr(o0, o1) => then(
            res(s0, t, ops, 0),
            |s1: GenState, r: ResView|
                then(
                    reg_any_step(s1, r, osp(t, ops, 0)),
                    |s2: GenState, ty: RegisterType|
                        then(
                            res(s2, t, ops, 1),
                            |s3: GenState, r2: ResView| address_step(s3, r2, osp(t, ops, 1), o0, o1, pos),
                        ),
                ),
        ),
        Mode::AddrReg(o0, o1) => then(
            res(s0, t, ops, 0),
            |s1: GenState, r: ResView|
                then(
                    address_step(s1, r, osp(t, ops, 0), o0, o1, pos),
                    |s2: GenState, u: ()|
                        then(
                            res(s2, t, ops, 1),
                            |s3: GenState, r2: ResView|
                                then(reg_any_step(s3, r2, osp(t, ops, 1)), |s4: GenState, ty: RegisterType| Outcome::Done(s4, ())),
                        ),
                ),
        ),
        Mode::RegVal(o0, o1) => then(
            res(s0, t, ops, 0),
            |s1: GenState, r: ResView|
                then(
                    reg_any_step(s1, r, osp(t, ops, 0)),
                    |s2: GenState, ty: RegisterType|
                        then(
                            res(s2, t, ops, 1),
                            |s3: GenState, r2: ResView| source_step(s3, r2, osp(t, ops, 1), ty, o0, o1, pos, true),
                        ),
                ),
        ),
        Mode::Reg(op) => then(
            res(push_byte(s, op), t, ops, 0),
            |s1: GenState, r: ResView|
                then(reg_any_step(s1, r, osp(t, ops, 0)), |s2: GenState, ty: RegisterType| Outcome::Done(s2, ())),
        ),
        Mode::WordAddrAddr(base) => then(
            res(s0, t, ops, 0),
            |s1: GenState, r0: ResView|
                then(
                    word_step(s1, r0, osp(t, ops, 0), "Expected a word register reference."@),
                    |s2: GenState, b0: bool|
                        then(
                            res(s2, t, ops, 1),
                            |s3: GenState, r1: ResView|
                                then(
                                    word_step(s3, r1, osp(t, ops, 1), addr),
                                    |s4: GenState, b1: bool|
                                        then(
                                            res(s4, t, ops, 2),
                                            |s5: GenState, r2: ResView|
                                                then(
                                                    word_step(s5, r2, osp(t, ops, 2), addr),
                                                    |s6: GenState, b2: bool|
                                                        Outcome::Done(set_byte(s6, pos, block_opcode(base, b0, b1, b2)), ()),
                                                ),
                                        ),
                                ),
                        ),
                ),
        ),
        Mode::WordAddrByte(base) => then(
            res(s0, t, ops, 0),
            |s1: GenState, r0: ResView|
                then(
                    word_step(s1, r0, osp(t, ops, 0), "Expected a word register reference."@),
                    |s2: GenState, b0: bool|
                        then(
                            res(s2, t, ops, 1),
                            |s3: GenState, r1: ResView|
                                then(
                                    word_step(s3, r1, osp(t, ops, 1), addr),
                                    |s4: GenState, b1: bool|
                                        then(
                                            res(s4, t, ops, 2),
                                            |s5: GenState, r2: ResView|
                                                then(
                                                    byte_step(s5, r2, osp(t, ops, 2)),
                                                    |s6: GenState, b2: bool|
                                                        Outcome::Done(set_byte(s6, pos, block_opcode(base, b0, b1, b2)), ()),
                                                ),
                                        ),
                                ),
                        ),
                ),
        ),
        Mode::Convert(op) => then(
            res(push_byte(s, op), t, ops, 0),
            |s1: GenState, r0: ResView|
                then(
                    convert_first_step(s1, r0, osp(t, ops, 0)),
                    |s2: GenState, ff: bool|
                        then(res(s2, t, ops, 1), |s3: GenState, r1: ResView| convert_second_step(s3, r1, osp(t, ops, 1), ff)),
                ),
        ),
        Mode::IntRegVal(o0, o1) => then(
            res(s0, t, ops, 0),
            |s1: GenState, r: ResView|
                then(
                    int_reg_step(s1, r, osp(t, ops, 0)),
                    |s2: GenState, ty: RegisterType|
                        then(
                            res(s2, t, ops, 1),
                            |s3: GenState, r2: ResView| source_step(s3, r2, osp(t, ops, 1), ty, o0, o1, pos, false),
                        ),
                ),
        ),
        Mode::IntReg(op) => then(
            res(push_byte(s, op), t, ops, 0),
            |s1: GenState, r: ResView|
                then(int_reg_step(s1, r, osp(t, ops, 0)), |s2: GenState, ty: RegisterType| Outcome::Done(s2, ())),
        ),
        Mode::IntRegByte(o0, o1) => then(
            res(s0, t, ops, 0),
            |s1: GenState, r: ResView|
                then(
                    int_reg_step(s1, r, osp(t, ops, 0)),
                    |s2: GenState, ty: RegisterType|
                        then(res(s2, t, ops, 1), |s3: GenState, r2: ResView| shift_step(s3, r2, osp(t, ops, 1), o0, o1, pos)),
                ),
        ),
        Mode::Addr(o0, o1) => then(
            res(s0, t, ops, 0),
            |s1: GenState, r: ResView| address_step(s1, r, osp(t, ops, 0), o0, o1, pos),
        ),
    }
}

/// A mode whose opcodes fit: a block operation's eight opcodes are bytes.
pub open spec fn mode_ok(m: Mode) -> bool {
    match m {
        Mode::WordAddrAddr(b) => b <= 248,
        Mode::WordAddrByte(b) => b <= 248,
        _ => true,
    }
}

/// The addressing mode and opcodes of each instruction, by its lower-case
/// name.
pub open spec fn mode_of(name: Seq<u8>) -> Option<Mode> {
    if name == "halt".spec_bytes() {
        Some(Mode::NoOps(0x00))
    } else if name == "pause".spec_bytes() {
        Some(Mode::NoOps(0x01))
    } else if name == "timer".spec_bytes() {
        Some(Mode::W(0x02, 0x03))
    } else if name == "usermode".spec_bytes() {
        Some(Mode::NoOps(0x04))
    } else if name == "ireturn".spec_bytes() {
        Some(Mode::NoOps(0x05))
    } else if name == "load".spec_bytes() {
        Some(Mode::RegAddr(0x06, 0x07))
    } else if name == "store".spec_bytes() {
        Some(Mode::AddrReg(0x08, 0x09))
    } else if name == "copy".spec_bytes() {
        Some(Mode::RegVal(0x0A, 0x0B))
    } else if name == "swap".spec_bytes() {
        Some(Mode::RegAddr(0x0C, 0x0D))
    } else if name == "push".spec_bytes() {
        Some(Mode::Reg(0x0E))
    } else if name == "pop".spec_bytes() {
        Some(Mode::Reg(0x0F))
    } else if name == "blockcopy".spec_bytes() {
        Some(Mode::WordAddrAddr(0x10))
    } else if name == "blockset".spec_bytes() {
        Some(Mode::WordAddrByte(0x18))
    } else if name == "negate".spec_bytes() {
        Some(Mode::Reg(0x20))
    } else if name == "add".spec_bytes() {
        Some(Mode::RegVal(0x21, 0x22))
    } else if name == "addcarry".spec_bytes() {
        Some(Mode::IntRegVal(0x23, 0x24))
    } else if name == "sub".spec_bytes() {
        Some(Mode::RegVal(0x25, 0x26))
    } else if name == "subborrow".spec_bytes() {
        Some(Mode::IntRegVal(0x27, 0x28))
    } else if name == "mult".spec_bytes() {
        Some(Mode::RegVal(0x29, 0x2A))
    } else if name == "sdiv".spec_bytes() {
        Some(Mode::RegVal(0x2B, 0x2C))
    } else if name == "udiv".spec_bytes() {
        Some(Mode::IntRegVal(0x2D, 0x2E))
    } else if name == "srem".spec_bytes() {
        Some(Mode::RegVal(0x2F, 0x30))
    } else if name == "urem".spec_bytes() {
        Some(Mode::IntRegVal(0x31, 0x32))
    } else if name == "not".spec_bytes() {
        Some(Mode::IntReg(0x33))
    } else if name == "and".spec_bytes() {
        Some(Mode::IntRegVal(0x34, 0x35))
    } else if name == "or".spec_bytes() {
        Some(Mode::IntRegVal(0x36, 0x37))
    } else if name == "xor".spec_bytes() {
        Some(Mode::IntRegVal(0x38, 0x39))
    } else if name == "lshift".spec_bytes() {
        Some(Mode::IntRegByte(0x3A, 0x3B))
    } else if name == "srshift".spec_bytes() {
        Some(Mode::IntRegByte(0x3C, 0x3D))
    } else if name == "urshift".spec_bytes() {
        Some(Mode::IntRegByte(0x3E, 0x3F))
    } else if name == "lrot".spec_bytes() {
        Some(Mode::IntRegByte(0x40, 0x41))
    } else if name == "rrot".spec_bytes() {
        Some(Mode::IntRegByte(0x42, 0x43))
    } else if name == "lrotcarry".spec_bytes() {
        Some(Mode::IntRegByte(0x44, 0x45))
    } else if name == "rrotcarry".spec_bytes() {
        Some(Mode::IntRegByte(0x46, 0x47))
    } else if name == "jump".spec_bytes() {
        Some(Mode::Addr(0x48, 0x49))
    } else if name == "compare".spec_bytes() {
        Some(Mode::RegVal(0x4A, 0x4B))
    } else if name == "blockcmp".spec_bytes() {
        Some(Mode::WordAddrAddr(0x4C))
    } else if name == "jequal".spec_bytes() {
        Some(Mode::Addr(0x54, 0x55))
    } else if name == "jnotequal".spec_bytes() {
        Some(Mode::Addr(0x56, 0x57))
    } else if name == "sjgreater".spec_bytes() {
        Some(Mode::Addr(0x58, 0x59))
    } else if name == "sjgreatereq".spec_bytes() {
        Some(Mode::Addr(0x5A, 0x5B))
    } else if name == "ujgreater".spec_bytes() {
        Some(Mode::Addr(0x5C, 0x5D))
    } else if name == "ujgreatereq".spec_bytes() {
        Some(Mode::Addr(0x5E, 0x5F))
    } else if name == "sjlesser".spec_bytes() {
        Some(Mode::Addr(0x60, 0x61))
    } else if name == "sjlessereq".spec_bytes() {
        Some(Mode::Addr(0x62, 0x63))
    } else if name == "ujlesser".spec_bytes() {
        Some(Mode::Addr(0x64, 0x65))
    } else if name == "ujlessereq".spec_bytes() {
        Some(Mode::Addr(0x66, 0x67))
    } else if name == "call".spec_bytes() {
        Some(Mode::Addr(0x68, 0x69))
    } else if name == "return".spec_bytes() {
        Some(Mode::NoOps(0x6A))
    } else if name == "syscall".spec_bytes() {
        Some(Mode::NoOps(0x6B))
    } else if name == "sconvert".spec_bytes() {
        Some(Mode::Convert(0x6C))
    } else if name == "uconvert".spec_bytes() {
        Some(Mode::Convert(0x6D))
    } else {
        None
    }
}

/// The addressing mode and opcodes of an instruction, as `mode_of` says.
pub fn mode_for(name: &[u8]) -> (r: Option<Mode>)
    ensures
        r == mode_of(name@),
{
    if bytes_eq(name, "halt".as_bytes()) {
        return Some(Mode::NoOps(0x00));
    }
    if bytes_eq(name, "pause".as_bytes()) {
        return Some(Mode::NoOps(0x01));
    }
    if bytes_eq(name, "timer".as_bytes()) {
        return Some(Mode::W(0x02, 0x03));
    }
    if bytes_eq(name, "usermode".as_bytes()) {
        return Some(Mode::NoOps(0x04));
    }
    if bytes_eq(name, "ireturn".as_bytes()) {
        return Some(Mode::NoOps(0x05));
    }
    if bytes_eq(name, "load".as_bytes()) {
        return Some(Mode::RegAddr(0x06, 0x07));
    }
    if bytes_eq(name, "store".as_bytes()) {
        return Some(Mode::AddrReg(0x08, 0x09));
    }
    if bytes_eq(name, "copy".as_bytes()) {
        return Some(Mode::RegVal(0x0A, 0x0B));
    }
    if bytes_eq(name, "swap".as_bytes()) {
        return Some(Mode::RegAddr(0x0C, 0x0D));
    }
    if bytes_eq(name, "push".as_bytes()) {
        return Some(Mode::Reg(0x0E));
    }
    if bytes_eq(name, "pop".as_bytes()) {
        return Some(Mode::Reg(0x0F));
    }
    if bytes_eq(name, "blockcopy".as_bytes()) {
        return Some(Mode::WordAddrAddr(0x10));
    }
    if bytes_eq(name, "blockset".as_bytes()) {
        return Some(Mode::WordAddrByte(0x18));
    }
    if bytes_eq(name, "negate".as_bytes()) {
        return Some(Mode::Reg(0x20));
    }
    if bytes_eq(name, "add".as_bytes()) {
        return Some(Mode::RegVal(0x21, 0x22));
    }
    if bytes_eq(name, "addcarry".as_bytes()) {
        return Some(Mode::IntRegVal(0x23, 0x24));
    }
    if bytes_eq(name, "sub".as_bytes()) {
        return Some(Mode::RegVal(0x25, 0x26));
    }
    if bytes_eq(name, "subborrow".as_bytes()) {
        return Some(Mode::IntRegVal(0x27, 0x28));
    }
    if bytes_eq(name, "mult".as_bytes()) {
        return Some(Mode::RegVal(0x29, 0x2A));
    }
    if bytes_eq(name, "sdiv".as_bytes()) {
        return Some(Mode::RegVal(0x2B, 0x2C));
    }
    if bytes_eq(name, "udiv".as_bytes()) {
        return Some(Mode::IntRegVal(0x2D, 0x2E));
    }
    if bytes_eq(name, "srem".as_bytes()) {
        return Some(Mode::RegVal(0x2F, 0x30));
    }
    if bytes_eq(name, "urem".as_bytes()) {
        return Some(Mode::IntRegVal(0x31, 0x32));
    }
    if bytes_eq(name, "not".as_bytes()) {
        return Some(Mode::IntReg(0x33));
    }
    if bytes_eq(name, "and".as_bytes()) {
        return Some(Mode::IntRegVal(0x34, 0x35));
    }
    if bytes_eq(name, "or".as_bytes()) {
        return Some(Mode::IntRegVal(0x36, 0x37));
    }
    if bytes_eq(name, "xor".as_bytes()) {
        return Some(Mode::IntRegVal(0x38, 0x39));
    }
    if bytes_eq(name, "lshift".as_bytes()) {
        return Some(Mode::IntRegByte(0x3A, 0x3B));
    }
    if bytes_eq(name, "srshift".as_bytes()) {
        return Some(Mode::IntRegByte(0x3C, 0x3D));
    }
    if bytes_eq(name, "urshift".as_bytes()) {
        return Some(Mode::IntRegByte(0x3E, 0x3F));
    }
    if bytes_eq(name, "lrot".as_bytes()) {
        return Some(Mode::IntRegByte(0x40, 0x41));
    }
    if bytes_eq(name, "rrot".as_bytes()) {
        return Some(Mode::IntRegByte(0x42, 0x43));
    }
    if bytes_eq(name, "lrotcarry".as_bytes()) {
        return Some(Mode::IntRegByte(0x44, 0x45));
    }
    if bytes_eq(name, "rrotcarry".as_bytes()) {
        return Some(Mode::IntRegByte(0x46, 0x47));
    }
    if bytes_eq(name, "jump".as_bytes()) {
        return Some(Mode::Addr(0x48, 0x49));
    }
    if bytes_eq(name, "compare".as_bytes()) {
        return Some(Mode::RegVal(0x4A, 0x4B));
    }
    if bytes_eq(name, "blockcmp".as_bytes()) {
        return Some(Mode::WordAddrAddr(0x4C));
    }
    if bytes_eq(name, "jequal".as_bytes()) {
        return Some(Mode::Addr(0x54, 0x55));
    }
    if bytes_eq(name, "jnotequal".as_bytes()) {
        return Some(Mode::Addr(0x56, 0x57));
    }
    if bytes_eq(name, "sjgreater".as_bytes()) {
        return Some(Mode::Addr(0x58, 0x59));
    }
    if bytes_eq(name, "sjgreatereq".as_bytes()) {
        return Some(Mode::Addr(0x5A, 0x5B));
    }
    if bytes_eq(name, "ujgreater".as_bytes()) {
        return Some(Mode::Addr(0x5C, 0x5D));
    }
    if bytes_eq(name, "ujgreatereq".as_bytes()) {
        return Some(Mode::Addr(0x5E, 0x5F));
    }
    if bytes_eq(name, "sjlesser".as_bytes()) {
        return Some(Mode::Addr(0x60, 0x61));
    }
    if bytes_eq(name, "sjlessereq".as_bytes()) {
        return Some(Mode::Addr(0x62, 0x63));
    }
    if bytes_eq(name, "ujlesser".as_bytes()) {
        return Some(Mode::Addr(0x64, 0x65));
    }
    if bytes_eq(name, "ujlessereq".as_bytes()) {
        return Some(Mode::Addr(0x66, 0x67));
    }
    if bytes_eq(name, "call".as_bytes()) {
        return Some(Mode::Addr(0x68, 0x69));
    }
    if bytes_eq(name, "return".as_bytes()) {
        return Some(Mode::NoOps(0x6A));
    }
    if bytes_eq(name, "syscall".as_bytes()) {
        return Some(Mode::NoOps(0x6B));
    }
    if bytes_eq(name, "sconvert".as_bytes()) {
        return Some(Mode::Convert(0x6C));
    }
    if bytes_eq(name, "uconvert".as_bytes()) {
        return Some(Mode::Convert(0x6D));
    }
    None
}

/// The code of an instruction in the given mode: an error where the number
/// of operands is wrong, else the code of its operands.
pub open spec fn mode_spec(s: GenState, t: &SyntaxTree, ops: Seq<usize>, span: Span, m: Mode) -> Outcome<()> {
    if ops.len() != mode_arity(m) {
        Outcome::Fail(s, count_error(span, mode_arity(m), ops.len()))
    } else {
        operands_spec(s, t, ops, m)
    }
}

/// The error of a wrong number of operands.
fn count_message(span: Span, expected: usize, found: usize) -> (e: SaltError)
    ensures
        e@ == count_error(span, expected as nat, found as nat),
{
    let a = decimal_string(expected);
    let b = decimal_string(found);
    let mut m = String::from_str("Expected ");
    m.append(a.as_str());
    m.append(" operands, but found ");
    m.append(b.as_str());
    m.append(".");
    SaltError { span, message: m }
}

/// The result of a step as its outcome says.
pub open spec fn step_is<T, V>(r: Option<Result<T, SaltError>>, o: Outcome<V>, s1: GenState, view: spec_fn(T) -> V) -> bool {
    match o {
        Outcome::Stop => r is None,
        Outcome::Done(s2, v) => r matches Some(Ok(x)) && view(x) == v && s1 == s2,
        Outcome::Fail(s2, e) => r matches Some(Err(x)) && x@ == e && s1 == s2,
    }
}

impl<'a> CodeGenerator<'a> {
    /// Resolve the operand `ops[i]`.
    fn operand(&mut self, ops: &Vec<Operand<'a>>, i: usize) -> (r: Option<Result<(ResolvedOperand, Span), SaltError>>)
        requires
            i < ops@.len(),
            ops@[i as int].syntax.tree == old(self).tree_view(),
            crate::salt::ast::ast_ok(ops@[i as int].syntax),
        ensures
            step_is(
                r,
                resolve_operand_spec(old(self).state(), old(self).tree_view(), ops@[i as int].syntax.index as int),
                final(self).state(),
                |x: (ResolvedOperand, Span)| x.0@,
            ),
            r matches Some(Ok(x)) ==> x.1 == node_span(old(self).tree_view(), ops@[i as int].syntax.index as int),
            Self::same_input(old(self), final(self)),
    {
        let sp = ops[i].syntax.text_range();
        match self.resolve_operand(&ops[i]) {
            None => None,
            Some(Err(e)) => Some(Err(e)),
            Some(Ok(x)) => Some(Ok((x, sp))),
        }
    }

    /// An operand that must be a register of any type.
    fn reg_any(&mut self, r: ResolvedOperand, sp: Span) -> (o: Option<Result<RegisterType, SaltError>>)
        ensures
            step_is(o, reg_any_step(old(self).state(), r@, sp), final(self).state(), |x: RegisterType| x),
            Self::same_input(old(self), final(self)),
    {
        match r {
            ResolvedOperand::Literal(_) => Some(Err(SaltError::new(sp, "Cannot use a literal here."))),
            ResolvedOperand::RegRef(x, ty) => {
                self.emit(x);
                Some(Ok(ty))
            },
            ResolvedOperand::SymbolReference => Some(
                Err(SaltError::new(sp, "Symbol references resolve to addresses, which can't be used here.")),
            ),
        }
    }

    /// An address operand whose opcode stands at `pos`.
    fn address(&mut self, r: ResolvedOperand, sp: Span, lit_op: u8, reg_op: u8, pos: usize) -> (o: Option<Result<(), SaltError>>)
        requires
            pos < old(self).state().code.len(),
        ensures
            step_is(o, address_step(old(self).state(), r@, sp, lit_op, reg_op, pos as int), final(self).state(), |x: ()| x),
            Self::same_input(old(self), final(self)),
    {
        match r {
            ResolvedOperand::Literal(l) => {
                self.set_code(pos, lit_op);
                match self.value_as(&l, sp, ValueAs::Word) {
                    Some(Some(b)) => {
                        self.emit_all(b);
                        Some(Ok(()))
                    },
                    _ => None,
                }
            },
            ResolvedOperand::RegRef(x, ty) => {
                if !register_type_matches(ty, RegRefType::RegRefWord) {
                    return Some(Err(SaltError::new(sp, "Expected an address (word) register reference.")));
                }
                self.set_code(pos, reg_op);
                self.emit(x);
                Some(Ok(()))
            },
            ResolvedOperand::SymbolReference => {
                self.set_code(pos, lit_op);
                Some(Ok(()))
            },
        }
    }

    /// A word operand of a three-operand instruction.
    fn word(&mut self, r: ResolvedOperand, sp: Span, m: &str) -> (o: Option<Result<bool, SaltError>>)
        ensures
            step_is(o, word_step(old(self).state(), r@, sp, m@), final(self).state(), |x: bool| x),
            Self::same_input(old(self), final(self)),
    {
        match r {
            ResolvedOperand::Literal(l) => {
                match self.value_as(&l, sp, ValueAs::Word) {
                    Some(Some(b)) => {
                        self.emit_all(b);
                        Some(Ok(false))
                    },
                    _ => None,
                }
            },
            ResolvedOperand::RegRef(x, ty) => {
                if !register_type_matches(ty, RegRefType::RegRefWord) {
                    return Some(Err(SaltError::new(sp, m)));
                }
                self.emit(x);
                Some(Ok(true))
            },
            ResolvedOperand::SymbolReference => Some(Ok(false)),
        }
    }

    /// A byte operand.
    fn byte(&mut self, r: ResolvedOperand, sp: Span) -> (o: Option<Result<bool, SaltError>>)
        ensures
            step_is(o, byte_step(old(self).state(), r@, sp), final(self).state(), |x: bool| x),
            Self::same_input(old(self), final(self)),
    {
        match r {
            ResolvedOperand::Literal(l) => {
                match self.value_as(&l, sp, ValueAs::Byte) {
                    None => None,
                    Some(None) => Some(Err(SaltError::new(sp, "Literal too large: expected single byte."))),
                    Some(Some(b)) => {
                        self.emit_all(b);
                        Some(Ok(false))
                    },
                }
            },
            ResolvedOperand::RegRef(x, ty) => {
                if !register_type_matches(ty, RegRefType::RegRefByte) {
                    return Some(Err(SaltError::new(sp, "Expected a byte register reference.")));
                }
                self.emit(x);
                Some(Ok(true))
            },
            ResolvedOperand::SymbolReference => Some(
                Err(SaltError::new(sp, "Symbol references resolve to addresses, which can't be used here.")),
            ),
        }
    }

    /// A literal's bytes for a register of the given type.
    fn value_for(&mut self, l: &LiteralValue, ty: RegisterType, sp: Span) -> (o: Option<Result<(), SaltError>>)
        ensures
            step_is(o, value_step(old(self).state(), l@, ty, sp), final(self).state(), |x: ()| x),
            Self::same_input(old(self), final(self)),
    {
        let kind = match ty {
            RegisterType::Byte => ValueAs::Byte,
            RegisterType::Half => ValueAs::Half,
            RegisterType::Word => ValueAs::Word,
            RegisterType::Float => ValueAs::Float,
        };
        match self.value_as(l, sp, kind) {
            None => None,
            Some(None) => Some(Err(SaltError::new(sp, "Literal too big for register."))),
            Some(Some(b)) => {
                self.emit_all(b);
                Some(Ok(()))
            },
        }
    }

    /// A destination register that must not be a float.
    fn int_reg(&mut self, r: ResolvedOperand, sp: Span) -> (o: Option<Result<RegisterType, SaltError>>)
        ensures
            step_is(o, int_reg_step(old(self).state(), r@, sp), final(self).state(), |x: RegisterType| x),
            Self::same_input(old(self), final(self)),
    {
        match r {
            ResolvedOperand::Literal(_) => Some(Err(SaltError::new(sp, "Cannot use a literal here."))),
            ResolvedOperand::RegRef(x, ty) => {
                if ty == RegisterType::Float {
                    return Some(Err(SaltError::new(sp, "Operation not applicable to floats.")));
                }
                self.emit(x);
                Some(Ok(ty))
            },
            ResolvedOperand::SymbolReference => Some(
                Err(SaltError::new(sp, "Symbol references resolve to addresses, which can't be used here.")),
            ),
        }
    }

    /// The source operand of a two-register instruction.
    fn source(
        &mut self,
        r: ResolvedOperand,
        sp: Span,
        ty: RegisterType,
        lit_op: u8,
        reg_op: u8,
        pos: usize,
        floats: bool,
    ) -> (o: Option<Result<(), SaltError>>)
        requires
            pos < old(self).state().code.len(),
        ensures
            step_is(o, source_step(old(self).state(), r@, sp, ty, lit_op, reg_op, pos as int, floats), final(self).state(), |x: ()| x),
            Self::same_input(old(self), final(self)),
    {
        match r {
            ResolvedOperand::Literal(l) => {
                self.set_code(pos, lit_op);
                self.value_for(&l, ty, sp)
            },
            ResolvedOperand::RegRef(x, ty2) => {
                if ty != ty2 {
                    return Some(Err(SaltError::new(sp, "Cannot operate between differently-sized registers.")));
                }
                self.set_code(pos, reg_op);
                self.emit(x);
                Some(Ok(()))
            },
            ResolvedOperand::SymbolReference => {
                if ty == RegisterType::Word {
                    self.set_code(pos, lit_op);
                    Some(Ok(()))
                } else if floats && ty == RegisterType::Float {
                    Some(Err(SaltError::new(
                        sp,
                        "Symbol references resolve to addresses, which make no sense in a float register.",
                    )))
                } else if floats {
                    Some(Err(SaltError::new(sp, "Symbols resolve to addresses, which are too large to use here.")))
                } else {
                    Some(Err(SaltError::new(
                        sp,
                        "Symbol references resolve to addresses, which are too large to use here.",
                    )))
                }
            },
        }
    }
}

impl<'a> CodeGenerator<'a> {
    /// An instruction with a single word operand.
    fn mode_w(&mut self, ops: &Vec<Operand<'a>>, m: Mode) -> (o: Option<Result<(), SaltError>>)
        requires
            ops@.len() == 1,
            ops_ok(ops@, old(self).tree_view()),
            m matches Mode::W(_, _),
        ensures
            step_is(o, operands_spec(old(self).state(), old(self).tree_view(), op_indices(ops@), m), final(self).state(), |x: ()| x),
            Self::same_input(old(self), final(self)),
    {
        let (o0, o1) = match m {
            Mode::W(a, b) => (a, b),
            _ => (0, 0),
        };
        let (r, sp) = match self.operand(ops, 0) {
            None => return None,
            Some(Err(e)) => return Some(Err(e)),
            Some(Ok(x)) => x,
        };
        match r {
            ResolvedOperand::Literal(l) => {
                self.emit(o0);
                match self.value_as(&l, sp, ValueAs::Word) {
                    Some(Some(b)) => {
                        self.emit_all(b);
                        Some(Ok(()))
                    },
                    _ => None,
                }
            },
            ResolvedOperand::RegRef(x, ty) => {
                if !register_type_matches(ty, RegRefType::RegRefWord) {
                    return Some(Err(SaltError::new(sp, "Expected a word register reference.")));
                }
                self.emit(o1);
                self.emit(x);
                Some(Ok(()))
            },
            ResolvedOperand::SymbolReference => {
                self.emit(o0);
                Some(Ok(()))
            },
        }
    }

    /// A register and then an address.
    fn mode_reg_addr(&mut self, ops: &Vec<Operand<'a>>, m: Mode) -> (o: Option<Result<(), SaltError>>)
        requires
            ops@.len() == 2,
            ops_ok(ops@, old(self).tree_view()),
            m matches Mode::RegAddr(_, _),
        ensures
            step_is(o, operands_spec(old(self).state(), old(self).tree_view(), op_indices(ops@), m), final(self).state(), |x: ()| x),
            Self::same_input(old(self), final(self)),
    {
        let (o0, o1) = match m {
            Mode::RegAddr(a, b) => (a, b),
            _ => (0, 0),
        };
        let pos = self.code_len();
        self.emit(0);
        let (r, sp) = match self.operand(ops, 0) {
            None => return None,
            Some(Err(e)) => return Some(Err(e)),
            Some(Ok(x)) => x,
        };
        let _ty = match self.reg_any(r, sp) {
            None => return None,
            Some(Err(e)) => return Some(Err(e)),
            Some(Ok(x)) => x,
        };
        let (r2, sp2) = match self.operand(ops, 1) {
            None => return None,
            Some(Err(e)) => return Some(Err(e)),
            Some(Ok(x)) => x,
        };
        self.address(r2, sp2, o0, o1, pos)
    }

    /// An address and then a register.
    fn mode_addr_reg(&mut self, ops: &Vec<Operand<'a>>, m: Mode) -> (o: Option<Result<(), SaltError>>)
        requires
            ops@.len() == 2,
            ops_ok(ops@, old(self).tree_view()),
            m matches Mode::AddrReg(_, _),
        ensures
            step_is(o, operands_spec(old(self).state(), old(self).tree_view(), op_indices(ops@), m), final(self).state(), |x: ()| x),
            Self::same_input(old(self), final(self)),
    {
        let (o0, o1) = match m {
            Mode::AddrReg(a, b) => (a, b),
            _ => (0, 0),
        };
        let pos = self.code_len();
        self.emit(0);
        let (r, sp) = match self.operand(ops, 0) {
            None => return None,
            Some(Err(e)) => return Some(Err(e)),
            Some(Ok(x)) => x,
        };
        let _u = match self.address(r, sp, o0, o1, pos) {
            None => return None,
            Some(Err(e)) => return Some(Err(e)),
            Some(Ok(x)) => x,
        };
        let (r2, sp2) = match self.operand(ops, 1) {
            None => return None,
            Some(Err(e)) => return Some(Err(e)),
            Some(Ok(x)) => x,
        };
        let _ty = match self.reg_any(r2, sp2) {
            None => return None,
            Some(Err(e)) => return Some(Err(e)),
            Some(Ok(x)) => x,
        };
        Some(Ok(()))
    }

    /// A destination register and a source register or value of its type.
    fn mode_reg_val(&mut self, ops: &Vec<Operand<'a>>, m: Mode) -> (o: Option<Result<(), SaltError>>)
        requires
            ops@.len() == 2,
            ops_ok(ops@, old(self).tree_view()),
            m matches Mode::RegVal(_, _),
        ensures
            step_is(o, operands_spec(old(self).state(), old(self).tree_view(), op_indices(ops@), m), final(self).state(), |x: ()| x),
            Self::same_input(old(self), final(self)),
    {
        let (o0, o1) = match m {
            Mode::RegVal(a, b) => (a, b),
            _ => (0, 0),
        };
        let pos = self.code_len();
        self.emit(0);
        let (r, sp) = match self.operand(ops, 0) {
            None => return None,
            Some(Err(e)) => return Some(Err(e)),
            Some(Ok(x)) => x,
        };
        let ty = match self.reg_any(r, sp) {
            None => return None,
            Some(Err(e)) => return Some(Err(e)),
            Some(Ok(x)) => x,
        };
        let (r2, sp2) = match self.operand(ops, 1) {
            None => return None,
            Some(Err(e)) => return Some(Err(e)),
            Some(Ok(x)) => x,
        };
        self.source(r2, sp2, ty, o0, o1, pos, true)
    }

    /// A single register of any type.
    fn mode_reg(&mut self, ops: &Vec<Operand<'a>>, m: Mode) -> (o: Option<Result<(), SaltError>>)
        requires
            ops@.len() == 1,
            ops_ok(ops@, old(self).tree_view()),
            m matches Mode::Reg(_),
        ensures
            step_is(o, operands_spec(old(self).state(), old(self).tree_view(), op_indices(ops@), m), final(self).state(), |x: ()| x),
            Self::same_input(old(self), final(self)),
    {
        let op = match m {
            Mode::Reg(a) => a,
            _ => 0,
        };
        self.emit(op);
        let (r, sp) = match self.operand(ops, 0) {
            None => return None,
            Some(Err(e)) => return Some(Err(e)),
            Some(Ok(x)) => x,
        };
        let _ty = match self.reg_any(r, sp) {
            None => return None,
            Some(Err(e)) => return Some(Err(e)),
            Some(Ok(x)) => x,
        };
        Some(Ok(()))
    }

    /// An integer destination register and a source register or value of its type.
    fn mode_int_reg_val(&mut self, ops: &Vec<Operand<'a>>, m: Mode) -> (o: Option<Result<(), SaltError>>)
        requires
            ops@.len() == 2,
            ops_ok(ops@, old(self).tree_view()),
            m matches Mode::IntRegVal(_, _),
        ensures
            step_is(o, operands_spec(old(self).state(), old(self).tree_view(), op_indices(ops@), m), final(self).state(), |x: ()| x),
            Self::same_input(old(self), final(self)),
    {
        let (o0, o1) = match m {
            Mode::IntRegVal(a, b) => (a, b),
            _ => (0, 0),
        };
        let pos = self.code_len();
        self.emit(0);
        let (r, sp) = match self.operand(ops, 0) {
            None => return None,
            Some(Err(e)) => return Some(Err(e)),
            Some(Ok(x)) => x,
        };
        let ty = match self.int_reg(r, sp) {
            None => return None,
            Some(Err(e)) => return Some(Err(e)),
            Some(Ok(x)) => x,
        };
        let (r2, sp2) = match self.operand(ops, 1) {
            None => return None,
            Some(Err(e)) => return Some(Err(e)),
            Some(Ok(x)) => x,
        };
        self.source(r2, sp2, ty, o0, o1, pos, false)
    }

    /// A single integer register.
    fn mode_int_reg(&mut self, ops: &Vec<Operand<'a>>, m: Mode) -> (o: Option<Result<(), SaltError>>)
        requires
            ops@.len() == 1,
            ops_ok(ops@, old(self).tree_view()),
            m matches Mode::IntReg(_),
        ensures
            step_is(o, operands_spec(old(self).state(), old(self).tree_view(), op_indices(ops@), m), final(self).state(), |x: ()| x),
            Self::same_input(old(self), final(self)),
    {
        let op = match m {
            Mode::IntReg(a) => a,
            _ => 0,
        };
        self.emit(op);
        let (r, sp) = match self.operand(ops, 0) {
            None => return None,
            Some(Err(e)) => return Some(Err(e)),
            Some(Ok(x)) => x,
        };
        let _ty = match self.int_reg(r, sp) {
            None => return None,
            Some(Err(e)) => return Some(Err(e)),
            Some(Ok(x)) => x,
        };
        Some(Ok(()))
    }

    /// An integer register and a byte register or value.
    fn mode_int_reg_byte(&mut self, ops: &Vec<Operand<'a>>, m: Mode) -> (o: Option<Result<(), SaltError>>)
        requires
            ops@.len() == 2,
            ops_ok(ops@, old(self).tree_view()),
            m matches Mode::IntRegByte(_, _),
        ensures
            step_is(o, operands_spec(old(self).state(), old(self).tree_view(), op_indices(ops@), m), final(self).state(), |x: ()| x),
            Self::same_input(old(self), final(self)),
    {
        let (o0, o1) = match m {
            Mode::IntRegByte(a, b) => (a, b),
            _ => (0, 0),
        };
        let pos = self.code_len();
        self.emit(0);
        let (r, sp) = match self.operand(ops, 0) {
            None => return None,
            Some(Err(e)) => return Some(Err(e)),
            Some(Ok(x)) => x,
        };
        let _ty = match self.int_reg(r, sp) {
            None => return None,
            Some(Err(e)) => return Some(Err(e)),
            Some(Ok(x)) => x,
        };
        let (r2, sp2) = match self.operand(ops, 1) {
            None => return None,
            Some(Err(e)) => return Some(Err(e)),
            Some(Ok(x)) => x,
        };
        match r2 {
            ResolvedOperand::Literal(l) => {
                self.set_code(pos, o0);
                match self.value_as(&l, sp2, ValueAs::Byte) {
                    None => None,
                    Some(None) => Some(Err(SaltError::new(sp2, "Literal too large: expected single byte."))),
                    Some(Some(b)) => {
                        self.emit_all(b);
                        Some(Ok(()))
                    },
                }
            },
            ResolvedOperand::RegRef(x, ty) => {
                if !register_type_matches(ty, RegRefType::RegRefByte) {
                    return Some(Err(SaltError::new(sp2, "Expected a byte register reference.")));
                }
                self.set_code(pos, o1);
                self.emit(x);
                Some(Ok(()))
            },
            ResolvedOperand::SymbolReference => Some(
                Err(SaltError::new(sp2, "Symbol references resolve to addresses, which can't be used here.")),
            ),
        }
    }

    /// A single address.
    fn mode_addr(&mut self, ops: &Vec<Operand<'a>>, m: Mode) -> (o: Option<Result<(), SaltError>>)
        requires
            ops@.len() == 1,
            ops_ok(ops@, old(self).tree_view()),
            m matches Mode::Addr(_, _),
        ensures
            step_is(o, operands_spec(old(self).state(), old(self).tree_view(), op_indices(ops@), m), final(self).state(), |x: ()| x),
            Self::same_input(old(self), final(self)),
    {
        let (o0, o1) = match m {
            Mode::Addr(a, b) => (a, b),
            _ => (0, 0),
        };
        let pos = self.code_len();
        self.emit(0);
        let (r, sp) = match self.operand(ops, 0) {
            None => return None,
            Some(Err(e)) => return Some(Err(e)),
            Some(Ok(x)) => x,
        };
        self.address(r, sp, o0, o1, pos)
    }

    /// A conversion between a word and a float register.
    fn mode_convert(&mut self, ops: &Vec<Operand<'a>>, m: Mode) -> (o: Option<Result<(), SaltError>>)
        requires
            ops@.len() == 2,
            ops_ok(ops@, old(self).tree_view()),
            m matches Mode::Convert(_),
        ensures
            step_is(o, operands_spec(old(self).state(), old(self).tree_view(), op_indices(ops@), m), final(self).state(), |x: ()| x),
            Self::same_input(old(self), final(self)),
    {
        let op = match m {
            Mode::Convert(a) => a,
            _ => 0,
        };
        self.emit(op);
        let (r, sp) = match self.operand(ops, 0) {
            None => return None,
            Some(Err(e)) => return Some(Err(e)),
            Some(Ok(x)) => x,
        };
        let float_first = match r {
            ResolvedOperand::Literal(_) => return Some(Err(SaltError::new(sp, "Cannot use a literal here."))),
            ResolvedOperand::RegRef(x, ty) => {
                if register_type_matches(ty, RegRefType::RegRefWord) {
                    self.emit(x);
                    false
                } else if register_type_matches(ty, RegRefType::RegRefFloat) {
                    self.emit(x);
                    true
                } else {
                    return Some(Err(SaltError::new(sp, "Expected a word or float register reference.")));
                }
            },
            ResolvedOperand::SymbolReference => return Some(
                Err(SaltError::new(sp, "Symbol references resolve to addresses, which can't be used here.")),
            ),
        };
        let (r2, sp2) = match self.operand(ops, 1) {
            None => return None,
            Some(Err(e)) => return Some(Err(e)),
            Some(Ok(x)) => x,
        };
        match r2 {
            ResolvedOperand::Literal(_) => Some(Err(SaltError::new(sp2, "Cannot use a literal here."))),
            ResolvedOperand::RegRef(x, ty) => {
                if float_first {
                    if register_type_matches(ty, RegRefType::RegRefWord) {
                        self.emit(x);
                        Some(Ok(()))
                    } else {
                        Some(Err(SaltError::new(sp2, "Expected a word register reference.")))
                    }
                } else {
                    if register_type_matches(ty, RegRefType::RegRefFloat) {
                        self.emit(x);
                        Some(Ok(()))
                    } else {
                        Some(Err(SaltError::new(sp2, "Expected a float register reference.")))
                    }
                }
            },
            ResolvedOperand::SymbolReference => Some(
                Err(SaltError::new(sp2, "Symbol references resolve to addresses, which can't be used here.")),
            ),
        }
    }

    /// A block operation on two addresses.
    #[verifier::rlimit(40)]
    fn mode_word_addr_addr(&mut self, ops: &Vec<Operand<'a>>, m: Mode) -> (o: Option<Result<(), SaltError>>)
        requires
            ops@.len() == 3,
            ops_ok(ops@, old(self).tree_view()),
            m matches Mode::WordAddrAddr(base) && base <= 248,
        ensures
            step_is(o, operands_spec(old(self).state(), old(self).tree_view(), op_indices(ops@), m), final(self).state(), |x: ()| x),
            Self::same_input(old(self), final(self)),
    {
        let base = match m {
            Mode::WordAddrAddr(a) => a,
            Mode::WordAddrByte(a) => a,
            _ => 0,
        };
        let pos = self.code_len();
        self.emit(0);
        let (r0, sp0) = match self.operand(ops, 0) {
            None => return None,
            Some(Err(e)) => return Some(Err(e)),
            Some(Ok(x)) => x,
        };
        let b0 = match self.word(r0, sp0, "Expected a word register reference.") {
            None => return None,
            Some(Err(e)) => return Some(Err(e)),
            Some(Ok(x)) => x,
        };
        let (r1, sp1) = match self.operand(ops, 1) {
            None => return None,
            Some(Err(e)) => return Some(Err(e)),
            Some(Ok(x)) => x,
        };
        let b1 = match self.word(r1, sp1, "Expected an address (word) register reference.") {
            None => return None,
            Some(Err(e)) => return Some(Err(e)),
            Some(Ok(x)) => x,
        };
        let (r2, sp2) = match self.operand(ops, 2) {
            None => return None,
            Some(Err(e)) => return Some(Err(e)),
            Some(Ok(x)) => x,
        };
        let b2 = match self.word(r2, sp2, "Expected an address (word) register reference.") {
            None => return None,
            Some(Err(e)) => return Some(Err(e)),
            Some(Ok(x)) => x,
        };
        let op: u8 = base + (if b0 { 4u8 } else { 0u8 }) + (if b1 { 2u8 } else { 0u8 }) + (if b2 { 1u8 } else { 0u8 });
        self.set_code(pos, op);
        Some(Ok(()))
    }

    /// A block operation on an address and a byte.
    #[verifier::rlimit(40)]
    fn mode_word_addr_byte(&mut self, ops: &Vec<Operand<'a>>, m: Mode) -> (o: Option<Result<(), SaltError>>)
        requires
            ops@.len() == 3,
            ops_ok(ops@, old(self).tree_view()),
            m matches Mode::WordAddrByte(base) && base <= 248,
        ensures
            step_is(o, operands_spec(old(self).state(), old(self).tree_view(), op_indices(ops@), m), final(self).state(), |x: ()| x),
            Self::same_input(old(self), final(self)),
    {
        let base = match m {
            Mode::WordAddrAddr(a) => a,
            Mode::WordAddrByte(a) => a,
            _ => 0,
        };
        let pos = self.code_len();
        self.emit(0);
        let (r0, sp0) = match self.operand(ops, 0) {
            None => return None,
            Some(Err(e)) => return Some(Err(e)),
            Some(Ok(x)) => x,
        };
        let b0 = match self.word(r0, sp0, "Expected a word register reference.") {
            None => return None,
            Some(Err(e)) => return Some(Err(e)),
            Some(Ok(x)) => x,
        };
        let (r1, sp1) = match self.operand(ops, 1) {
            None => return None,
            Some(Err(e)) => return Some(Err(e)),
            Some(Ok(x)) => x,
        };
        let b1 = match self.word(r1, sp1, "Expected an address (word) register reference.") {
            None => return None,
            Some(Err(e)) => return Some(Err(e)),
            Some(Ok(x)) => x,
        };
        let (r2, sp2) = match self.operand(ops, 2) {
            None => return None,
            Some(Err(e)) => return Some(Err(e)),
            Some(Ok(x)) => x,
        };
        let b2 = match self.byte(r2, sp2) {
            None => return None,
            Some(Err(e)) => return Some(Err(e)),
            Some(Ok(x)) => x,
        };
        let op: u8 = base + (if b0 { 4u8 } else { 0u8 }) + (if b1 { 2u8 } else { 0u8 }) + (if b2 { 1u8 } else { 0u8 });
        self.set_code(pos, op);
        Some(Ok(()))
    }

    /// The code of an instruction in the given mode, as `mode_spec` says.
    pub(crate) fn run_mode(&mut self, ops: &Vec<Operand<'a>>, span: Span, m: Mode) -> (o: Option<Result<(), SaltError>>)
        requires
            ops_ok(ops@, old(self).tree_view()),
            mode_ok(m),
        ensures
            step_is(o, mode_spec(old(self).state(), old(self).tree_view(), op_indices(ops@), span, m), final(self).state(), |x: ()| x),
            Self::same_input(old(self), final(self)),
    {
        let n: usize = match m {
            Mode::NoOps(_) => 0,
            Mode::W(_, _) | Mode::Reg(_) | Mode::IntReg(_) | Mode::Addr(_, _) => 1,
            Mode::WordAddrAddr(_) | Mode::WordAddrByte(_) => 3,
            _ => 2,
        };
        if ops.len() != n {
            return Some(Err(count_message(span, n, ops.len())));
        }
        match m {
            Mode::NoOps(op) => {
                self.emit(op);
                Some(Ok(()))
            },
            Mode::W(_, _) => self.mode_w(ops, m),
            Mode::RegAddr(_, _) => self.mode_reg_addr(ops, m),
            Mode::AddrReg(_, _) => self.mode_addr_reg(ops, m),
            Mode::RegVal(_, _) => self.mode_reg_val(ops, m),
            Mode::Reg(_) => self.mode_reg(ops, m),
            Mode::WordAddrAddr(_) => self.mode_word_addr_addr(ops, m),
            Mode::WordAddrByte(_) => self.mode_word_addr_byte(ops, m),
            Mode::Convert(_) => self.mode_convert(ops, m),
            Mode::IntRegVal(_, _) => self.mode_int_reg_val(ops, m),
            Mode::IntReg(_) => self.mode_int_reg(ops, m),
            Mode::IntRegByte(_, _) => self.mode_int_reg_byte(ops, m),
            Mode::Addr(_, _) => self.mode_addr(ops, m),
        }
    }
}

} // verus!
