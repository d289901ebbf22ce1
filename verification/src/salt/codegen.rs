//! Code generation: from a program's syntax to a SimObj object file.
//!
//! The generator keeps a symbol table of constants, static data, labels and
//! external symbols, generates the code of each instruction in turn, and then
//! writes the object file: the header, the symbol table, the section headers,
//! and the code, read-only data and read-write data sections.
//!
//! Each step is stated as a function of the generator's state; a step yields
//! `None` where the generator cannot go on (a value that does not fit in the
//! object file's 32-bit fields, or an address operand whose `sizeof` names no
//! data), which the public entry points leave out.
use vstd::prelude::*;
use crate::bytes::{be_u16_bytes, be_u32_bytes, u16_to_be, u32_to_be};
use crate::salt::ast::{
    array_spec, ast_ok, base_size_of, child_or_self, const_value_spec, has_kind, ident_of, lengths_from, lit_views,
    ArrayLength, DataDecl, ident_span_of, label_target, lemma_nodes_of_kind, lower_text, node_ok,
    nodes_of_kind, op_indices, operand_spec, values_ok, ConstDecl, Instruction, Label, LitView, LiteralValue, Operand,
    OperandValue, OperandView, Program, SyntaxNode, line_items, lemma_line_items,
};
use crate::salt::objfile::{simobj_spec, sym_views, write_object};
use crate::sorting::{is_stable_order, key_views, sorted_order};
use crate::salt::modes::{mode_for, mode_of, mode_spec, Mode};
use crate::salt::registers::{get_reg_ref, is_lowercase, is_uppercase, lower_case_text, reg_ref_spec, upper_text};
use crate::text::{ascii_chars, decimal, decimal_string};
use vstd::string::StringExecFns;
use crate::salt::syntax::{children, node_span, SyntaxKind, SyntaxTree};
use crate::salt::error::{ErrView, SaltError};
use crate::salt::literals::{min_reg_type, minimum_reg_type, RegisterType};
use crate::salt::syntax::Span;

verus! {

/// Where a label points: an instruction not yet reached (by its node), or
/// an offset into the code.
#[derive(Debug, Clone, Copy, PartialEq, Eq, Structural)]
pub enum LabelLocation {
    Reference(usize),
    Offset(usize),
}

/// A symbol table entry: a constant, static data, a label, or an external
/// symbol. Data, labels and externals record where the code refers to them.
#[derive(Debug)]
pub enum SymbolTableEntry {
    C { public: bool, value: LiteralValue, span: Span, used: bool },
    D {
        public: bool,
        mutable: bool,
        size: usize,
        initialiser: Vec<u8>,
        span: Span,
        references: Vec<u32>,
    },
    L { public: bool, location: LabelLocation, span: Span, references: Vec<u32> },
    E { references: Vec<u32>, span: Span },
}

/// The abstract contents of a symbol table entry.
pub enum EntrySpec {
    C { public: bool, value: LitView, span: Span, used: bool },
    D {
        public: bool,
        mutable: bool,
        size: usize,
        initialiser: Seq<u8>,
        span: Span,
        references: Seq<u32>,
    },
    L { public: bool, location: LabelLocation, span: Span, references: Seq<u32> },
    E { references: Seq<u32>, span: Span },
}

impl View for SymbolTableEntry {
    type V = EntrySpec;

    open spec fn view(&self) -> EntrySpec {
        match self {
            SymbolTableEntry::C { public, value, span, used } => EntrySpec::C {
                public: *public,
                value: value@,
                span: *span,
                used: *used,
            },
            SymbolTableEntry::D { public, mutable, size, initialiser, span, references } => EntrySpec::D {
                public: *public,
                mutable: *mutable,
                size: *size,
                initialiser: initialiser@,
                span: *span,
                references: references@,
            },
            SymbolTableEntry::L { public, location, span, references } => EntrySpec::L {
                public: *public,
                location: *location,
                span: *span,
                references: references@,
            },
            SymbolTableEntry::E { references, span } => EntrySpec::E {
                references: references@,
                span: *span,
            },
        }
    }
}

/// A named symbol table entry.
#[derive(Debug)]
pub struct Symbol {
    pub name: Vec<u8>,
    pub entry: SymbolTableEntry,
}

impl View for Symbol {
    type V = (Seq<u8>, EntrySpec);

    open spec fn view(&self) -> (Seq<u8>, EntrySpec) {
        (self.name@, self.entry@)
    }
}

/// The views of a list of symbols.
pub open spec fn symbol_views(s: Seq<Symbol>) -> Seq<(Seq<u8>, EntrySpec)> {
    s.map_values(|x: Symbol| x@)
}

/// The views of a list of errors.
pub open spec fn err_views(s: Seq<SaltError>) -> Seq<ErrView> {
    s.map_values(|e: SaltError| e@)
}

/// The state of a generator: its symbol table, the code so far, and the
/// errors and warnings so far.
pub struct GenState {
    pub symbols: Seq<(Seq<u8>, EntrySpec)>,
    pub code: Seq<u8>,
    pub errors: Seq<ErrView>,
    pub warnings: Seq<ErrView>,
}

/// Add an error.
pub open spec fn add_error(s: GenState, e: ErrView) -> GenState {
    GenState { errors: s.errors.push(e), ..s }
}

/// Add a warning.
pub open spec fn add_warning(s: GenState, w: ErrView) -> GenState {
    GenState { warnings: s.warnings.push(w), ..s }
}

/// The first position of a name in the symbol table.
pub open spec fn lookup_from(syms: Seq<(Seq<u8>, EntrySpec)>, name: Seq<u8>, k: int) -> Option<int>
    decreases syms.len() - k,
{
    if k >= syms.len() || k < 0 {
        None
    } else if syms[k].0 == name {
        Some(k)
    } else {
        lookup_from(syms, name, k + 1)
    }
}

/// The first position of a name in the symbol table.
pub open spec fn lookup(syms: Seq<(Seq<u8>, EntrySpec)>, name: Seq<u8>) -> Option<int> {
    lookup_from(syms, name, 0)
}

proof fn lemma_lookup_from(syms: Seq<(Seq<u8>, EntrySpec)>, name: Seq<u8>, k: int)
    requires
        0 <= k <= syms.len(),
    ensures
        lookup_from(syms, name, k) matches Some(j) ==> k <= j < syms.len() && syms[j].0 == name,
    decreases syms.len() - k,
{
    if k < syms.len() {
        lemma_lookup_from(syms, name, k + 1);
    }
}

/// Insert an entry under a name: replacing the entry of that name, or
/// added at the end; and whether the name was already there.
pub open spec fn table_insert(syms: Seq<(Seq<u8>, EntrySpec)>, name: Seq<u8>, e: EntrySpec) -> (
    Seq<(Seq<u8>, EntrySpec)>,
    bool,
) {
    match lookup(syms, name) {
        Some(j) => (syms.update(j, (name, e)), true),
        None => (syms.push((name, e)), false),
    }
}

/// An error or warning with a fixed message.
pub open spec fn msg(span: Span, m: &str) -> ErrView {
    ErrView { span, message: m@ }
}

/// The size of the data that a name denotes, where it denotes data.
pub open spec fn data_size(syms: Seq<(Seq<u8>, EntrySpec)>, name: Seq<u8>) -> Option<usize> {
    match lookup(syms, name) {
        Some(j) => match syms[j].1 {
            EntrySpec::D { size, .. } => Some(size),
            _ => None,
        },
        None => None,
    }
}

/// The value of a literal: its own, or for `sizeof` the size of the named
/// data (an error where there is no such data, `None` where the size does
/// not fit in 32 bits).
pub open spec fn resolve_literal_spec(s: GenState, val: LitView, span: Span) -> Option<
    (GenState, Option<(u32, RegisterType)>),
> {
    match val {
        LitView::Lit { value, min_reg_type } => Some((s, Some((value, min_reg_type)))),
        LitView::Sizeof { ident } => match data_size(s.symbols, ident) {
            Some(size) => if size > u32::MAX {
                None
            } else {
                Some((s, Some((size as u32, min_reg_type(size as int)))))
            },
            None => Some(
                (add_error(s, msg(span, "No corresponding data declaration found in this file.")), None),
            ),
        },
    }
}

/// A literal as the bytes of a register of the given type: a byte where it
/// fits a byte register, a big-endian half where it fits a half register,
/// and a big-endian word always; `None` inside where it does not fit.
pub open spec fn bytes_as(v: u32, m: RegisterType, reg: RegisterType) -> Option<Seq<u8>> {
    match reg {
        RegisterType::Byte => if m == RegisterType::Byte {
            Some(seq![v as u8])
        } else {
            None
        },
        RegisterType::Half => if m == RegisterType::Byte || m == RegisterType::Half {
            Some(be_u16_bytes(v as u16))
        } else {
            None
        },
        _ => Some(be_u32_bytes(v)),
    }
}

/// The kind of conversion of a literal to bytes.
#[derive(Debug, Clone, Copy, PartialEq, Eq, Structural)]
pub enum ValueAs {
    Byte,
    Half,
    Word,
    Float,
    WordOrFloat,
}

/// A literal converted to bytes: as a byte, half, word (warning where it
/// is a float), float (warning where it is an integer), or word or float.
pub open spec fn value_as_spec(s: GenState, val: LitView, span: Span, kind: ValueAs) -> Option<
    (GenState, Option<Seq<u8>>),
> {
    match resolve_literal_spec(s, val, span) {
        None => None,
        Some((s1, None)) => Some((s1, None)),
        Some((s1, Some((v, m)))) => match kind {
            ValueAs::Byte => Some((s1, bytes_as(v, m, RegisterType::Byte))),
            ValueAs::Half => Some((s1, bytes_as(v, m, RegisterType::Half))),
            ValueAs::Word => Some(
                (
                    if m == RegisterType::Float {
                        add_warning(s1, msg(span, "Float literal being used as an integer."))
                    } else {
                        s1
                    },
                    Some(be_u32_bytes(v)),
                ),
            ),
            ValueAs::Float => Some(
                (
                    if m != RegisterType::Float {
                        add_warning(s1, msg(span, "Integer literal being used as a float."))
                    } else {
                        s1
                    },
                    Some(be_u32_bytes(v)),
                ),
            ),
            ValueAs::WordOrFloat => Some((s1, Some(be_u32_bytes(v)))),
        },
    }
}


/// How a step of the generator ends: done with a result, failed with an
/// error, or unable to go on.
pub enum Outcome<T> {
    Done(GenState, T),
    Fail(GenState, ErrView),
    Stop,
}

/// What an operand resolves to.
#[derive(Debug)]
pub enum ResolvedOperand {
    RegRef(u8, RegisterType),
    Literal(LiteralValue),
    SymbolReference,
}

/// The abstract value of a resolved operand.
pub enum ResView {
    RegRef(u8, RegisterType),
    Literal(LitView),
    SymbolReference,
}

impl View for ResolvedOperand {
    type V = ResView;

    open spec fn view(&self) -> ResView {
        match self {
            ResolvedOperand::RegRef(r, t) => ResView::RegRef(*r, *t),
            ResolvedOperand::Literal(l) => ResView::Literal(l@),
            ResolvedOperand::SymbolReference => ResView::SymbolReference,
        }
    }
}

/// Four zero bytes: the placeholder of an address that the linker fills.
pub open spec fn zero_word() -> Seq<u8> {
    seq![0u8, 0u8, 0u8, 0u8]
}

/// Bytes appended to the code.
pub open spec fn append_code(s: GenState, b: Seq<u8>) -> GenState {
    GenState { code: s.code + b, ..s }
}

/// An entry with one more reference from the code; a constant is left as it
/// is.
pub open spec fn add_reference(e: EntrySpec, at: u32) -> EntrySpec {
    match e {
        EntrySpec::D { public, mutable, size, initialiser, span, references } => EntrySpec::D {
            public,
            mutable,
            size,
            initialiser,
            span,
            references: references.push(at),
        },
        EntrySpec::L { public, location, span, references } => EntrySpec::L {
            public,
            location,
            span,
            references: references.push(at),
        },
        EntrySpec::E { references, span } => EntrySpec::E { references: references.push(at), span },
        EntrySpec::C { .. } => e,
    }
}

/// Resolve the operand node `n`: a literal is itself; a register name is
/// that register; a constant is its value (and is marked used); data, a
/// label or an external symbol gets a reference at the end of the code and
/// a zero placeholder word; an unknown name becomes a new external symbol
/// in the same way, with a warning where it looks like a constant.
pub open spec fn resolve_operand_spec(s: GenState, t: &SyntaxTree, n: int) -> Outcome<ResView> {
    let span = node_span(t, n);
    match operand_spec(t, n) {
        Err(e) => Outcome::Fail(s, e),
        Ok(OperandView::Lit(l)) => Outcome::Done(s, ResView::Literal(l)),
        Ok(OperandView::Ident(name)) => match reg_ref_spec(name) {
            Some((r, ty)) => Outcome::Done(s, ResView::RegRef(r, ty)),
            None => match lookup(s.symbols, name) {
                Some(j) => match s.symbols[j].1 {
                    EntrySpec::C { public, value, span: sp, used } => Outcome::Done(
                        GenState {
                            symbols: s.symbols.update(
                                j,
                                (name, EntrySpec::C { public, value, span: sp, used: true }),
                            ),
                            ..s
                        },
                        ResView::Literal(value),
                    ),
                    other => if s.code.len() > u32::MAX {
                        Outcome::Stop
                    } else {
                        Outcome::Done(
                            GenState {
                                symbols: s.symbols.update(j, (name, add_reference(other, s.code.len() as u32))),
                                code: s.code + zero_word(),
                                ..s
                            },
                            ResView::SymbolReference,
                        )
                    },
                },
                None => if s.code.len() > u32::MAX {
                    Outcome::Stop
                } else {
                    let s1 = if upper_text(name) {
                        add_warning(
                            s,
                            msg(span, "Unresolved symbol creates an external data reference, but this looks like a constant."),
                        )
                    } else {
                        s
                    };
                    Outcome::Done(
                        GenState {
                            symbols: s1.symbols.push(
                                (name, EntrySpec::E { references: seq![s.code.len() as u32], span }),
                            ),
                            code: s1.code + zero_word(),
                            ..s1
                        },
                        ResView::SymbolReference,
                    )
                },
            },
        },
    }
}

/// A label that points at the instruction node `n` now points at the code
/// offset `off`.
pub open spec fn resolve_label_entry(e: EntrySpec, n: usize, off: usize) -> EntrySpec {
    match e {
        EntrySpec::L { public, location, span, references } => match location {
            LabelLocation::Reference(m) => if m == n {
                EntrySpec::L { public, location: LabelLocation::Offset(off), span, references }
            } else {
                e
            },
            LabelLocation::Offset(_) => e,
        },
        _ => e,
    }
}

/// Every label that points at the instruction node `n` resolved to the
/// current end of the code.
pub open spec fn resolve_labels_spec(s: GenState, n: usize) -> GenState {
    GenState {
        symbols: s.symbols.map_values(
            |p: (Seq<u8>, EntrySpec)| (p.0, resolve_label_entry(p.1, n, s.code.len() as usize)),
        ),
        ..s
    }
}

/// The code of the instruction node `n`: its opcode, by its lower-case
/// name, gives the addressing mode; an unknown opcode is an error.
#[verifier::opaque]
pub open spec fn instruction_spec(s: GenState, t: &SyntaxTree, n: int) -> Outcome<()> {
    match mode_of(lower_text(ident_of(t, n))) {
        Some(m) => mode_spec(s, t, nodes_of_kind(t, children(t, n), SyntaxKind::Operand), node_span(t, n), m),
        None => Outcome::Fail(s, msg(ident_span_of(t, n), "Unrecognised opcode.")),
    }
}

/// The code of a list of instructions in turn: before each, the labels that
/// point at it are resolved; an instruction that fails adds its error and
/// the next goes on. `None` where the generator cannot go on.
pub open spec fn instructions_spec(s: GenState, t: &SyntaxTree, instrs: Seq<usize>) -> Option<GenState>
    decreases instrs.len(),
{
    if instrs.len() == 0 {
        Some(s)
    } else {
        match instruction_spec(resolve_labels_spec(s, instrs[0]), t, instrs[0] as int) {
            Outcome::Stop => None,
            Outcome::Done(s2, _) => instructions_spec(s2, t, instrs.skip(1)),
            Outcome::Fail(s2, e) => instructions_spec(add_error(s2, e), t, instrs.skip(1)),
        }
    }
}

/// A constant declaration added to the symbol table: an error where its
/// value is wrong; a warning where its name is not in upper case; an error
/// where the name was taken (the new entry replaces the old).
pub open spec fn add_const_spec(s: GenState, c: SyntaxNode) -> GenState {
    let t = c.tree;
    let n = c.index as int;
    match const_value_spec(t, n) {
        Err(e) => add_error(s, e),
        Ok(v) => {
            let name = ident_of(t, n);
            let nsp = ident_span_of(t, n);
            let s1 = if upper_text(name) {
                s
            } else {
                add_warning(s, msg(nsp, "Constant names are expected to be UPPER_SNAKE_CASE."))
            };
            let entry = EntrySpec::C {
                public: has_kind(t, children(t, n), SyntaxKind::KwPub),
                value: v,
                span: nsp,
                used: false,
            };
            let ins = table_insert(s1.symbols, name, entry);
            let s2 = GenState { symbols: ins.0, ..s1 };
            if ins.1 {
                add_error(s2, msg(nsp, "Name already in use."))
            } else {
                s2
            }
        },
    }
}

/// Constant declarations added in turn.
pub open spec fn add_consts_spec(s: GenState, cs: Seq<SyntaxNode>) -> GenState
    decreases cs.len(),
{
    if cs.len() == 0 {
        s
    } else {
        add_const_spec(add_consts_spec(s, cs.drop_last()), cs.last())
    }
}

/// A label added to the symbol table, pointing at the instruction it
/// precedes: an error where there is none, or where the name was taken
/// (the new entry replaces the old).
pub open spec fn add_label_spec(s: GenState, l: SyntaxNode) -> GenState {
    let t = l.tree;
    let n = l.index as int;
    let span = node_span(t, n);
    match label_target(t, l.index) {
        None => add_error(s, msg(span, "Label without a following instruction.")),
        Some(x) => {
            let entry = EntrySpec::L {
                public: has_kind(t, children(t, n), SyntaxKind::KwPub),
                location: LabelLocation::Reference(x),
                span,
                references: Seq::empty(),
            };
            let ins = table_insert(s.symbols, ident_of(t, n), entry);
            let s2 = GenState { symbols: ins.0, ..s };
            if ins.1 {
                add_error(s2, msg(span, "Name already in use."))
            } else {
                s2
            }
        },
    }
}

/// Labels added in turn.
pub open spec fn add_labels_spec(s: GenState, ls: Seq<SyntaxNode>) -> GenState
    decreases ls.len(),
{
    if ls.len() == 0 {
        s
    } else {
        add_label_spec(add_labels_spec(s, ls.drop_last()), ls.last())
    }
}

/// The lengths of a declared array: those the type gives, and where it
/// infers one, the initialiser's.
pub open spec fn unify_dims(ty: Seq<ArrayLength>, init: Seq<usize>) -> Seq<usize> {
    Seq::new(
        init.len(),
        |i: int|
            match ty[i] {
                ArrayLength::Literal(d) => d,
                ArrayLength::Inferred => init[i],
            },
    )
}

/// Whether the initialiser is no longer than each length the type gives.
pub open spec fn dims_fit(ty: Seq<ArrayLength>, init: Seq<usize>) -> bool {
    forall|i: int|
        0 <= i < init.len() ==> match #[trigger] ty[i] {
            ArrayLength::Literal(d) => init[i] <= d,
            ArrayLength::Inferred => true,
        }
}

/// The product of `acc` and the lengths, multiplied in turn; `None` where a
/// step goes past `usize::MAX`.
pub open spec fn size_from(acc: nat, dims: Seq<usize>) -> Option<usize>
    decreases dims.len(),
{
    if dims.len() == 0 {
        Some(acc as usize)
    } else if acc * dims[0] > usize::MAX {
        None
    } else {
        size_from((acc * dims[0]) as nat, dims.skip(1))
    }
}

/// How the literals of data of a base size become bytes.
pub open spec fn data_kind(base: usize) -> Option<ValueAs> {
    if base == 1 {
        Some(ValueAs::Byte)
    } else if base == 2 {
        Some(ValueAs::Half)
    } else if base == 4 {
        Some(ValueAs::WordOrFloat)
    } else {
        None
    }
}

/// The bytes of an initialiser's values in turn; the first that does not
/// fit is an error about the name, and ends the bytes there.
pub open spec fn init_loop(s: GenState, vals: Seq<LitView>, isp: Span, nsp: Span, kind: Option<ValueAs>) -> Option<
    (GenState, Seq<u8>),
>
    decreases vals.len(),
{
    if vals.len() == 0 {
        Some((s, Seq::empty()))
    } else {
        match kind {
            None => None,
            Some(k) => match value_as_spec(s, vals[0], isp, k) {
                None => None,
                Some((s1, None)) => Some((add_error(s1, msg(nsp, "Initialiser too big for type.")), Seq::empty())),
                Some((s1, Some(b))) => match init_loop(s1, vals.skip(1), isp, nsp, kind) {
                    None => None,
                    Some((s2, rest)) => Some((s2, b + rest)),
                },
            },
        }
    }
}

/// The error of a type and an initialiser with different numbers of
/// dimensions.
pub open spec fn dims_error(span: Span, ty: nat, init: nat) -> ErrView {
    ErrView {
        span,
        message: "Dimensions mismatch. Type specifies "@ + ascii_chars(decimal(ty)) + " dimensions but initialiser has "@
            + ascii_chars(decimal(init)) + "."@,
    }
}

/// What a data declaration says, once its lengths and initialiser are read:
/// its name, whether it is public and mutable, its base size, and the spans
/// of its name, type and initialiser.
pub struct DataPlan {
    pub name: Seq<u8>,
    pub public: bool,
    pub mutable: bool,
    pub base: usize,
    pub nsp: Span,
    pub tsp: Span,
    pub isp: Span,
}

/// The rest of adding a data declaration: errors where the dimensions
/// differ, the initialiser is too long for a given length, or the size does
/// not fit; else its bytes, padded with zeros to its size (an error where
/// they are too many), go into the table (an error where the name was
/// taken). `None` where the generator cannot go on.
pub open spec fn place_data(s1: GenState, p: DataPlan, vals: Seq<LitView>, tdims: Seq<ArrayLength>, idims: Seq<usize>) -> Option<GenState> {
    if tdims.len() != idims.len() {
        Some(add_error(s1, dims_error(p.tsp, tdims.len(), idims.len())))
    } else if !dims_fit(tdims, idims) {
        Some(add_error(s1, msg(p.isp, "Initialiser too long for stated dimensions.")))
    } else {
        match size_from(p.base as nat, unify_dims(tdims, idims)) {
            None => Some(add_error(s1, msg(p.tsp, "Array size is out of range."))),
            Some(size) => match init_loop(s1, vals, p.isp, p.nsp, data_kind(p.base)) {
                None => None,
                Some((s2, buf)) => if buf.len() > size {
                    Some(add_error(s2, msg(p.nsp, "Initialiser too big for type.")))
                } else {
                    let entry = EntrySpec::D {
                        public: p.public,
                        mutable: p.mutable,
                        size,
                        initialiser: buf + Seq::new((size - buf.len()) as nat, |i: int| 0u8),
                        span: p.nsp,
                        references: Seq::empty(),
                    };
                    let ins = table_insert(s2.symbols, p.name, entry);
                    let s3 = GenState { symbols: ins.0, ..s2 };
                    Some(
                        if ins.1 {
                            add_error(s3, msg(p.nsp, "Name already in use."))
                        } else {
                            s3
                        },
                    )
                },
            },
        }
    }
}

/// A data declaration added to the symbol table: its type's lengths and
/// its initialiser are read (errors where they are wrong); a warning where
/// its name is not in lower case; errors where the dimensions differ, the
/// initialiser is too long for a given length, or the size does not fit;
/// else its bytes, padded with zeros to its size (an error where they are
/// too many), go into the table (an error where the name was taken).
/// `None` where the generator cannot go on.
pub open spec fn add_data_spec(s: GenState, d: SyntaxNode) -> Option<GenState> {
    let t = d.tree;
    let n = d.index as int;
    let ty = child_or_self(t, n, SyntaxKind::DataType) as int;
    let init_n = child_or_self(t, n, SyntaxKind::ArrayLiteral) as int;
    match lengths_from(t, children(t, ty)) {
        Err(e) => Some(add_error(s, e)),
        Ok(ls) => {
            let tdims = ls.push(ArrayLength::Literal(1));
            match array_spec(t, init_n) {
                Err(e) => Some(add_error(s, e)),
                Ok((vals, idims)) => {
                    let name = ident_of(t, n);
                    let nsp = ident_span_of(t, n);
                    let tsp = node_span(t, ty);
                    let isp = node_span(t, init_n);
                    let base = base_size_of(t, children(t, ty));
                    let s1 = if lower_case_text(name) {
                        s
                    } else {
                        add_warning(s, msg(nsp, "Data names are expected to be lower_snake_case."))
                    };
                    place_data(
                        s1,
                        DataPlan {
                            name,
                            public: has_kind(t, children(t, n), SyntaxKind::KwPub),
                            mutable: has_kind(t, children(t, n), SyntaxKind::KwMut),
                            base,
                            nsp,
                            tsp,
                            isp,
                        },
                        vals,
                        tdims,
                        idims,
                    )
                },
            }
        },
    }
}

/// Data declarations added in turn; `None` where the generator cannot go
/// on.
pub open spec fn add_datas_spec(s: GenState, ds: Seq<SyntaxNode>) -> Option<GenState>
    decreases ds.len(),
{
    if ds.len() == 0 {
        Some(s)
    } else {
        match add_datas_spec(s, ds.drop_last()) {
            None => None,
            Some(s1) => add_data_spec(s1, ds.last()),
        }
    }
}

/// Bytes put in front of a result's bytes.
pub open spec fn prepend(b: Seq<u8>, o: Option<(GenState, Seq<u8>)>) -> Option<(GenState, Seq<u8>)> {
    match o {
        None => None,
        Some((s, r)) => Some((s, b + r)),
    }
}

/// The lengths of a declared array, as `unify_dims` says, where the
/// initialiser fits the type's given lengths.
fn unify(tdims: &Vec<ArrayLength>, idims: &Vec<usize>) -> (r: Option<Vec<usize>>)
    requires
        tdims@.len() == idims@.len(),
    ensures
        match r {
            Some(d) => dims_fit(tdims@, idims@) && d@ == unify_dims(tdims@, idims@),
            None => !dims_fit(tdims@, idims@),
        },
{
    let mut dims: Vec<usize> = Vec::new();
    let mut i: usize = 0;
    while i < tdims.len()
        invariant
            i <= tdims@.len(),
            tdims@.len() == idims@.len(),
            dims@ == unify_dims(tdims@, idims@).take(i as int),
            forall|k: int| 0 <= k < i ==> match #[trigger] tdims@[k] {
                ArrayLength::Literal(x) => idims@[k] <= x,
                ArrayLength::Inferred => true,
            },
        decreases tdims@.len() - i,
    {
        match tdims[i] {
            ArrayLength::Literal(x) => {
                if x < idims[i] {
                    assert(!(match tdims@[i as int] {
                        ArrayLength::Literal(x) => idims@[i as int] <= x,
                        ArrayLength::Inferred => true,
                    }));
                    return None;
                }
                dims.push(x);
            },
            ArrayLength::Inferred => {
                dims.push(idims[i]);
            },
        }
        assert(dims@ =~= unify_dims(tdims@, idims@).take(i + 1));
        i = i + 1;
    }
    assert(dims@ =~= unify_dims(tdims@, idims@));
    Some(dims)
}

/// The size of data, as `size_from` says.
fn total_size(base: usize, dims: &Vec<usize>) -> (r: Option<usize>)
    ensures
        r == size_from(base as nat, dims@),
{
    let mut size: usize = base;
    let mut k: usize = 0;
    assert(dims@.skip(0) =~= dims@);
    while k < dims.len()
        invariant
            k <= dims@.len(),
            size_from(base as nat, dims@) == size_from(size as nat, dims@.skip(k as int)),
        decreases dims@.len() - k,
    {
        assert(dims@.skip(k as int).skip(1) =~= dims@.skip(k + 1));
        match size.checked_mul(dims[k]) {
            Some(v) => {
                size = v;
            },
            None => {
                return None;
            },
        }
        k = k + 1;
    }
    assert(dims@.skip(k as int) =~= Seq::<usize>::empty());
    Some(size)
}

/// Bytes padded with zeros to a length.
fn pad_zeros(buf: Vec<u8>, size: usize) -> (r: Vec<u8>)
    requires
        buf@.len() <= size,
    ensures
        r@ == buf@ + Seq::new((size - buf@.len()) as nat, |i: int| 0u8),
{
    let mut buf = buf;
    let ghost b0 = buf@;
    while buf.len() < size
        invariant
            buf@.len() <= size,
            b0.len() <= buf@.len(),
            buf@ == b0 + Seq::new((buf@.len() - b0.len()) as nat, |i: int| 0u8),
        decreases size - buf@.len(),
    {
        buf.push(0);
        assert(buf@ =~= b0 + Seq::new((buf@.len() - b0.len()) as nat, |i: int| 0u8));
    }
    buf
}

/// Once a data declaration stops the generator, so do all the rest.
proof fn lemma_datas_stop(s: GenState, ds: Seq<SyntaxNode>, k: int)
    requires
        0 < k <= ds.len(),
        add_datas_spec(s, ds.take(k)) is None,
    ensures
        add_datas_spec(s, ds) is None,
    decreases ds.len() - k,
{
    if k < ds.len() {
        assert(ds.take(k + 1).drop_last() =~= ds.take(k));
        lemma_datas_stop(s, ds, k + 1);
    } else {
        assert(ds.take(k) =~= ds);
    }
}

/// The span of a private symbol that nothing uses: a constant never used,
/// data or a label never referred to.
pub open spec fn unused_span(p: (Seq<u8>, EntrySpec)) -> Option<Span> {
    match p.1 {
        EntrySpec::C { public, used, span, .. } => if !public && !used {
            Some(span)
        } else {
            None
        },
        EntrySpec::D { public, references, span, .. } => if !public && references.len() == 0 {
            Some(span)
        } else {
            None
        },
        EntrySpec::L { public, references, span, .. } => if !public && references.len() == 0 {
            Some(span)
        } else {
            None
        },
        EntrySpec::E { .. } => None,
    }
}

/// The spans of the unused private symbols, in table order.
pub open spec fn unused_spans(syms: Seq<(Seq<u8>, EntrySpec)>) -> Seq<Span>
    decreases syms.len(),
{
    if syms.len() == 0 {
        Seq::empty()
    } else {
        match unused_span(syms.last()) {
            Some(sp) => unused_spans(syms.drop_last()).push(sp),
            None => unused_spans(syms.drop_last()),
        }
    }
}

/// Sort keys of spans: by their start.
pub open spec fn span_keys(sps: Seq<Span>) -> Seq<(u64, Seq<u8>)> {
    sps.map_values(|sp: Span| (sp.start as u64, Seq::<u8>::empty()))
}

/// Sort keys of symbols: by their name.
pub open spec fn name_keys(syms: Seq<(Seq<u8>, EntrySpec)>) -> Seq<(u64, Seq<u8>)> {
    syms.map_values(|p: (Seq<u8>, EntrySpec)| (0u64, p.0))
}

/// A warning for each unused private symbol, in the order `o` of their
/// spans.
pub open spec fn with_unused_warnings(s: GenState, o: Seq<usize>) -> GenState {
    let sps = unused_spans(s.symbols);
    GenState {
        warnings: s.warnings + Seq::new(o.len(), |i: int| msg(sps[o[i] as int], "Unused private symbol.")),
        ..s
    }
}

/// Whether there would be no section: no code and no data of nonzero size.
pub open spec fn no_sections(s: GenState) -> bool {
    &&& s.code.len() == 0
    &&& forall|j: int|
        0 <= j < s.symbols.len() ==> match #[trigger] s.symbols[j].1 {
            EntrySpec::D { size, .. } => size == 0,
            _ => true,
        }
}

/// The span of a symbol's declaration.
pub open spec fn entry_span(e: EntrySpec) -> Span {
    match e {
        EntrySpec::C { span, .. } => span,
        EntrySpec::D { span, .. } => span,
        EntrySpec::L { span, .. } => span,
        EntrySpec::E { span, .. } => span,
    }
}

/// An error for each symbol at the positions `o`, in that order, that goes
/// into the symbol table (every one but a constant) with a name over 255
/// bytes, at the span of its declaration.
pub open spec fn long_name_errors(syms: Seq<(Seq<u8>, EntrySpec)>, o: Seq<usize>) -> Seq<ErrView>
    decreases o.len(),
{
    if o.len() == 0 {
        Seq::empty()
    } else {
        let rest = long_name_errors(syms, o.drop_last());
        let p = syms[o.last() as int];
        if !(p.1 is C) && p.0.len() > 255 {
            rest.push(msg(entry_span(p.1), "Symbol name too long (max 255 chars)."))
        } else {
            rest
        }
    }
}

/// The end of a run, with the symbols in the name order `o`: an error where
/// there would be no section; else an error for each name too long for the
/// symbol table, with no file; else the object file. `None` where the
/// generator cannot go on.
pub open spec fn finish_spec(s: GenState, o: Seq<usize>, entrypoint: bool) -> Option<(GenState, Seq<u8>)> {
    if no_sections(s) {
        Some((add_error(s, msg(Span { start: 0, end: 0 }, "Cannot compile an empty file.")), Seq::empty()))
    } else if long_name_errors(s.symbols, o).len() > 0 {
        Some((GenState { errors: s.errors + long_name_errors(s.symbols, o), ..s }, Seq::empty()))
    } else {
        match simobj_spec(s.symbols, s.code, o, entrypoint) {
            None => None,
            Some(b) => Some((s, b)),
        }
    }
}

/// The result of a run that ended in state `s` with the object file `b`:
/// success with the file and the warnings where there is no error, else
/// failure with the errors and warnings.
pub open spec fn run_result(s: GenState, b: Seq<u8>, r: Result<CodegenSuccess, CodegenFailure>) -> bool {
    if s.errors.len() == 0 {
        r matches Ok(x) && x.simobj@ == b && err_views(x.warnings@) == s.warnings
    } else {
        r matches Err(f) && err_views(f.errors@) == s.errors && err_views(f.warnings@) == s.warnings
    }
}

/// The nodes of a program's lines' items of a kind, in order.
pub open spec fn decl_nodes(t: &SyntaxTree, kind: SyntaxKind) -> Seq<SyntaxNode> {
    line_items(t, children(t, 0), kind).map_values(|i: usize| SyntaxNode { tree: t, index: i })
}

/// A generator's state before any declaration.
pub open spec fn empty_state() -> GenState {
    GenState { symbols: Seq::empty(), code: Seq::empty(), errors: Seq::empty(), warnings: Seq::empty() }
}

/// The state after the declarations of a program (its constants, then the
/// given extra constants, its data and its labels); `None` where the
/// generator cannot go on.
pub open spec fn declarations_spec(t: &SyntaxTree, extra: Seq<SyntaxNode>) -> Option<GenState> {
    let s1 = add_consts_spec(empty_state(), decl_nodes(t, SyntaxKind::ConstDecl) + extra);
    match add_datas_spec(s1, decl_nodes(t, SyntaxKind::DataDecl)) {
        None => None,
        Some(s2) => Some(add_labels_spec(s2, decl_nodes(t, SyntaxKind::Label))),
    }
}

/// The result of code generation.
#[derive(Debug)]
pub struct CodegenSuccess {
    pub simobj: Vec<u8>,
    pub warnings: Vec<SaltError>,
}

/// The errors and warnings of failed code generation.
#[derive(Debug)]
pub struct CodegenFailure {
    pub errors: Vec<SaltError>,
    pub warnings: Vec<SaltError>,
}

/// Adding the constants of two lists in turn is adding those of both.
proof fn lemma_add_consts_concat(s: GenState, a: Seq<SyntaxNode>, b: Seq<SyntaxNode>)
    ensures
        add_consts_spec(s, a + b) == add_consts_spec(add_consts_spec(s, a), b),
    decreases b.len(),
{
    if b.len() == 0 {
        assert(a + b =~= a);
    } else {
        lemma_add_consts_concat(s, a, b.drop_last());
        assert((a + b).drop_last() =~= a + b.drop_last());
        assert((a + b).last() == b.last());
    }
}

/// A code generator for one program.
pub struct CodeGenerator<'a> {
    tree: &'a SyntaxTree,
    symbols: Vec<Symbol>,
    code: Vec<u8>,
    errors: Vec<SaltError>,
    warnings: Vec<SaltError>,
    instructions: Vec<Instruction<'a>>,
}

impl<'a> CodeGenerator<'a> {
    /// The generator's state.
    pub closed spec fn state(&self) -> GenState {
        GenState {
            symbols: symbol_views(self.symbols@),
            code: self.code@,
            errors: err_views(self.errors@),
            warnings: err_views(self.warnings@),
        }
    }

    /// The tree the program is in.
    pub closed spec fn tree_view(&self) -> &'a SyntaxTree {
        self.tree
    }

    /// The instructions still to generate code for.
    pub closed spec fn instructions_view(&self) -> Seq<Instruction<'a>> {
        self.instructions@
    }

    /// A step that only changes the state.
    pub open spec fn same_input(a: &Self, b: &Self) -> bool {
        a.tree_view() == b.tree_view() && a.instructions_view() == b.instructions_view()
    }

    /// Add an error.
    pub(crate) fn error(&mut self, e: SaltError)
        ensures
            final(self).state() == add_error(old(self).state(), e@),
            Self::same_input(old(self), final(self)),
    {
        let ghost v = e@;
        self.errors.push(e);
        assert(err_views(self.errors@) =~= err_views(old(self).errors@).push(v));
    }

    /// Add a warning.
    pub(crate) fn warning(&mut self, w: SaltError)
        ensures
            final(self).state() == add_warning(old(self).state(), w@),
            Self::same_input(old(self), final(self)),
    {
        let ghost v = w@;
        self.warnings.push(w);
        assert(err_views(self.warnings@) =~= err_views(old(self).warnings@).push(v));
    }

    /// The position of a name in the symbol table.
    fn find(&self, name: &[u8]) -> (r: Option<usize>)
        ensures
            match r {
                Some(j) => lookup(self.state().symbols, name@) == Some(j as int),
                None => lookup(self.state().symbols, name@) is None,
            },
            r matches Some(j) ==> j < self.symbols@.len(),
    {
        let ghost syms = self.state().symbols;
        let mut i: usize = 0;
        while i < self.symbols.len()
            invariant
                i <= self.symbols@.len(),
                syms == symbol_views(self.symbols@),
                lookup(syms, name@) == lookup_from(syms, name@, i as int),
            decreases self.symbols@.len() - i,
        {
            assert(syms[i as int] == self.symbols@[i as int]@);
            if crate::bytes::bytes_eq(self.symbols[i].name.as_slice(), name) {
                return Some(i);
            }
            i = i + 1;
        }
        None
    }

    /// The length of the code so far.
    pub(crate) fn code_len(&self) -> (r: usize)
        ensures
            r == self.state().code.len(),
    {
        self.code.len()
    }

    /// Append a byte to the code.
    pub(crate) fn emit(&mut self, b: u8)
        ensures
            final(self).state() == append_code(old(self).state(), seq![b]),
            Self::same_input(old(self), final(self)),
    {
        self.code.push(b);
        assert(self.code@ =~= old(self).code@ + seq![b]);
    }

    /// Append bytes to the code.
    pub(crate) fn emit_all(&mut self, b: Vec<u8>)
        ensures
            final(self).state() == append_code(old(self).state(), b@),
            Self::same_input(old(self), final(self)),
    {
        let mut b = b;
        let ghost bv = b@;
        self.code.append(&mut b);
        assert(self.code@ =~= old(self).code@ + bv);
    }

    /// Replace the code byte at `pos`.
    pub(crate) fn set_code(&mut self, pos: usize, b: u8)
        requires
            pos < old(self).state().code.len(),
        ensures
            final(self).state() == (GenState { code: old(self).state().code.update(pos as int, b), ..old(self).state() }),
            Self::same_input(old(self), final(self)),
    {
        self.code.set(pos, b);
    }

    /// The nodes of the instructions.
    pub closed spec fn instr_nodes(&self) -> Seq<usize> {
        self.instructions@.map_values(|x: Instruction| x.syntax.index)
    }

    /// The generator's tree is one the typed layer can look into, and its
    /// instructions are nodes of it.
    pub closed spec fn wf(&self) -> bool {
        &&& node_ok(self.tree, 0)
        &&& values_ok(self.tree)
        &&& forall|i: int| 0 <= i < self.instructions@.len() ==> (#[trigger] self.instructions@[i]).syntax.tree == self.tree
            && node_ok(self.tree, self.instructions@[i].syntax.index as int)
    }

    /// Resolve the labels that point at the instruction node `n`.
    fn resolve_labels(&mut self, n: usize)
        ensures
            final(self).state() == resolve_labels_spec(old(self).state(), n),
            Self::same_input(old(self), final(self)),
            final(self).wf() == old(self).wf(),
    {
        let off = self.code.len();
        let ghost s0 = self.symbols@;
        let mut i: usize = 0;
        while i < self.symbols.len()
            invariant
                i <= self.symbols@.len(),
                self.symbols@.len() == s0.len(),
                self.code@ == old(self).code@,
                self.errors@ == old(self).errors@,
                self.warnings@ == old(self).warnings@,
                self.tree == old(self).tree,
                self.instructions@ == old(self).instructions@,
                off == self.code@.len(),
                s0 == old(self).symbols@,
                forall|k: int| 0 <= k < i ==> (#[trigger] self.symbols@[k])@ == (s0[k].name@, resolve_label_entry(s0[k].entry@, n, off)),
                forall|k: int| i <= k < s0.len() ==> #[trigger] self.symbols@[k] == s0[k],
            decreases s0.len() - i,
        {
            let hit = match &self.symbols[i].entry {
                SymbolTableEntry::L { location, .. } => match location {
                    LabelLocation::Reference(m) => *m == n,
                    LabelLocation::Offset(_) => false,
                },
                _ => false,
            };
            let ghost before = self.symbols@;
            if hit {
                let mut e = SymbolTableEntry::E { references: Vec::new(), span: Span { start: 0, end: 0 } };
                std::mem::swap(&mut e, &mut self.symbols[i].entry);
                match e {
                    SymbolTableEntry::L { public, location, span, references } => {
                        self.symbols[i].entry = SymbolTableEntry::L {
                            public,
                            location: LabelLocation::Offset(off),
                            span,
                            references,
                        };
                    },
                    other => {
                        self.symbols[i].entry = other;
                    },
                }
            }
            proof {
                assert forall|k: int| 0 <= k < self.symbols@.len() && k != i implies #[trigger] self.symbols@[k] == before[k] by {}
            }
            i = i + 1;
        }
        proof {
            assert(symbol_views(self.symbols@) =~= resolve_labels_spec(old(self).state(), n).symbols);
        }
    }

    /// The code of one instruction, as `instruction_spec` says.
    fn codegen_instruction(&mut self, instr: &Instruction<'a>) -> (o: Option<Result<(), SaltError>>)
        requires
            instr.syntax.tree == old(self).tree_view(),
            node_ok(instr.syntax.tree, instr.syntax.index as int),
            values_ok(instr.syntax.tree),
        ensures
            crate::salt::modes::step_is(
                o,
                instruction_spec(old(self).state(), old(self).tree_view(), instr.syntax.index as int),
                final(self).state(),
                |x: ()| x,
            ),
            Self::same_input(old(self), final(self)),
    {
        proof {
            reveal(instruction_spec);
        }
        let (name, op_span) = instr.opcode();
        let span = instr.syntax.text_range();
        match mode_for(name.as_slice()) {
            None => Some(Err(SaltError::new(op_span, "Unrecognised opcode."))),
            Some(m) => {
                let ops = instr.operands();
                proof {
                    let t = instr.syntax.tree;
                    let cs = children(t, instr.syntax.index as int);
                    lemma_nodes_of_kind(t, cs, SyntaxKind::Operand);
                    assert(op_indices(ops@) =~= nodes_of_kind(t, cs, SyntaxKind::Operand));
                    assert forall|i: int| 0 <= i < ops@.len() implies (#[trigger] ops@[i]).syntax.tree == t
                        && ast_ok(ops@[i].syntax) by {
                        assert(ops@[i].syntax.index == nodes_of_kind(t, cs, SyntaxKind::Operand)[i]);
                    }
                }
                self.run_mode(&ops, span, m)
            },
        }
    }

    /// Insert an entry under a name, as `table_insert` says; whether the
    /// name was already there.
    fn insert(&mut self, name: Vec<u8>, entry: SymbolTableEntry) -> (existed: bool)
        ensures
            final(self).state() == (GenState {
                symbols: table_insert(old(self).state().symbols, name@, entry@).0,
                ..old(self).state()
            }),
            existed == table_insert(old(self).state().symbols, name@, entry@).1,
            Self::same_input(old(self), final(self)),
            final(self).wf() == old(self).wf(),
    {
        let ghost nv = name@;
        let ghost ev = entry@;
        match self.find(name.as_slice()) {
            Some(j) => {
                proof {
                    lemma_lookup_from(old(self).state().symbols, nv, 0);
                }
                self.symbols.set(j, Symbol { name, entry });
                assert(self.instructions@ == old(self).instructions@);
                proof {
                    assert(symbol_views(self.symbols@) =~= old(self).state().symbols.update(j as int, (nv, ev)));
                }
                true
            },
            None => {
                self.symbols.push(Symbol { name, entry });
                assert(self.instructions@ == old(self).instructions@);
                proof {
                    assert(symbol_views(self.symbols@) =~= old(self).state().symbols.push((nv, ev)));
                }
                false
            },
        }
    }

    /// Add a constant declaration, as `add_const_spec` says.
    fn add_constant<'b>(&mut self, c: &ConstDecl<'b>)
        requires
            ast_ok(c.syntax),
        ensures
            final(self).state() == add_const_spec(old(self).state(), c.syntax),
            Self::same_input(old(self), final(self)),
            final(self).wf() == old(self).wf(),
    {
        let name = c.name();
        let public = c.public();
        let value = match c.value() {
            Ok(v) => v,
            Err(e) => {
                self.error(e);
                return;
            },
        };
        let nsp = c.name_span();
        if !is_uppercase(name.as_slice()) {
            self.warning(SaltError::new(nsp, "Constant names are expected to be UPPER_SNAKE_CASE."));
        }
        let existed = self.insert(name, SymbolTableEntry::C { public, value, span: nsp, used: false });
        if existed {
            self.error(SaltError::new(nsp, "Name already in use."));
        }
    }

    /// Add constant declarations in turn, as `add_consts_spec` says.
    fn add_constants<'b>(&mut self, consts: &Vec<ConstDecl<'b>>)
        requires
            forall|i: int| 0 <= i < consts@.len() ==> ast_ok(#[trigger] consts@[i].syntax),
        ensures
            final(self).state() == add_consts_spec(
                old(self).state(),
                consts@.map_values(|c: ConstDecl<'b>| c.syntax),
            ),
            Self::same_input(old(self), final(self)),
            final(self).wf() == old(self).wf(),
    {
        let ghost cs = consts@.map_values(|c: ConstDecl<'b>| c.syntax);
        let mut i: usize = 0;
        while i < consts.len()
            invariant
                i <= consts@.len(),
                cs == consts@.map_values(|c: ConstDecl<'b>| c.syntax),
                forall|k: int| 0 <= k < consts@.len() ==> ast_ok(#[trigger] consts@[k].syntax),
                self.state() == add_consts_spec(old(self).state(), cs.take(i as int)),
                Self::same_input(old(self), self),
                self.wf() == old(self).wf(),
            decreases consts@.len() - i,
        {
            self.add_constant(&consts[i]);
            assert(cs.take(i + 1).drop_last() =~= cs.take(i as int));
            i = i + 1;
        }
        assert(cs.take(i as int) =~= cs);
    }

    /// Add a label, as `add_label_spec` says.
    fn add_label(&mut self, l: &Label<'a>)
        requires
            node_ok(l.syntax.tree, l.syntax.index as int),
            node_ok(l.syntax.tree, 0),
        ensures
            final(self).state() == add_label_spec(old(self).state(), l.syntax),
            Self::same_input(old(self), final(self)),
            final(self).wf() == old(self).wf(),
    {
        let name = l.name();
        let public = l.public();
        let instruction = match l.instruction() {
            Ok(x) => x,
            Err(e) => {
                self.error(e);
                return;
            },
        };
        let span = l.syntax.text_range();
        let existed = self.insert(
            name,
            SymbolTableEntry::L {
                public,
                location: LabelLocation::Reference(instruction.syntax.index),
                span,
                references: Vec::new(),
            },
        );
        if existed {
            self.error(SaltError::new(span, "Name already in use."));
        }
    }

    /// Add labels in turn, as `add_labels_spec` says.
    fn add_labels(&mut self, labels: &Vec<Label<'a>>)
        requires
            forall|i: int| 0 <= i < labels@.len() ==> node_ok(#[trigger] labels@[i].syntax.tree, labels@[i].syntax.index as int)
                && node_ok(labels@[i].syntax.tree, 0),
        ensures
            final(self).state() == add_labels_spec(old(self).state(), labels@.map_values(|l: Label<'a>| l.syntax)),
            Self::same_input(old(self), final(self)),
            final(self).wf() == old(self).wf(),
    {
        let ghost ls = labels@.map_values(|l: Label<'a>| l.syntax);
        let mut i: usize = 0;
        while i < labels.len()
            invariant
                i <= labels@.len(),
                ls == labels@.map_values(|l: Label<'a>| l.syntax),
                forall|k: int| 0 <= k < labels@.len() ==> node_ok(#[trigger] labels@[k].syntax.tree, labels@[k].syntax.index as int)
                    && node_ok(labels@[k].syntax.tree, 0),
                self.state() == add_labels_spec(old(self).state(), ls.take(i as int)),
                Self::same_input(old(self), self),
                self.wf() == old(self).wf(),
            decreases labels@.len() - i,
        {
            self.add_label(&labels[i]);
            assert(ls.take(i + 1).drop_last() =~= ls.take(i as int));
            i = i + 1;
        }
        assert(ls.take(i as int) =~= ls);
    }

    /// The code of the instructions in turn, as `instructions_spec` says;
    /// `false` where the generator cannot go on.
    fn codegen_instructions(&mut self) -> (ok: bool)
        requires
            old(self).wf(),
        ensures
            match instructions_spec(old(self).state(), old(self).tree_view(), old(self).instr_nodes()) {
                None => !ok,
                Some(s1) => ok && final(self).state() == s1,
            },
            Self::same_input(old(self), final(self)),
            final(self).wf(),
    {
        let ghost nodes = self.instr_nodes();
        assert(nodes.skip(0) =~= nodes);
        let mut i: usize = 0;
        while i < self.instructions.len()
            invariant
                i <= self.instructions@.len(),
                self.wf(),
                Self::same_input(old(self), self),
                nodes == self.instr_nodes(),
                instructions_spec(old(self).state(), old(self).tree_view(), nodes) == instructions_spec(
                    self.state(),
                    self.tree,
                    nodes.skip(i as int),
                ),
            decreases self.instructions@.len() - i,
        {
            let instr = self.instructions[i];
            proof {
                assert(nodes.skip(i as int)[0] == instr.syntax.index);
                assert(nodes.skip(i as int).skip(1) =~= nodes.skip(i + 1));
            }
            self.resolve_labels(instr.syntax.index);
            match self.codegen_instruction(&instr) {
                None => return false,
                Some(Ok(())) => {},
                Some(Err(e)) => self.error(e),
            }
            i = i + 1;
        }
        assert(nodes.skip(i as int) =~= Seq::<usize>::empty());
        true
    }

    /// The bytes of an initialiser's values, as `init_loop` says.
    fn init_bytes(&mut self, vals: &Vec<LiteralValue>, isp: Span, nsp: Span, kind: Option<ValueAs>) -> (r: Option<Vec<u8>>)
        ensures
            match init_loop(old(self).state(), lit_views(vals@), isp, nsp, kind) {
                None => r is None,
                Some((s1, b)) => r matches Some(v) && v@ == b && final(self).state() == s1,
            },
            Self::same_input(old(self), final(self)),
            final(self).wf() == old(self).wf(),
    {
        let ghost vs = lit_views(vals@);
        let mut buf: Vec<u8> = Vec::new();
        let mut j: usize = 0;
        assert(vs.skip(0) =~= vs);
        assert(Seq::<u8>::empty() + Seq::<u8>::empty() =~= Seq::<u8>::empty());
        while j < vals.len()
            invariant
                j <= vals@.len(),
                vs == lit_views(vals@),
                init_loop(old(self).state(), vs, isp, nsp, kind) == prepend(
                    buf@,
                    init_loop(self.state(), vs.skip(j as int), isp, nsp, kind),
                ),
                Self::same_input(old(self), self),
                self.wf() == old(self).wf(),
            decreases vals@.len() - j,
        {
            let ghost rest = vs.skip(j as int);
            assert(rest[0] == vals@[j as int]@);
            assert(rest.skip(1) =~= vs.skip(j + 1));
            let k = match kind {
                None => return None,
                Some(k) => k,
            };
            match self.value_as(&vals[j], isp, k) {
                None => return None,
                Some(None) => {
                    self.error(SaltError::new(nsp, "Initialiser too big for type."));
                    assert(buf@ + Seq::<u8>::empty() =~= buf@);
                    return Some(buf);
                },
                Some(Some(b)) => {
                    let ghost old_buf = buf@;
                    let mut b = b;
                    let ghost bv = b@;
                    buf.append(&mut b);
                    proof {
                        match init_loop(self.state(), vs.skip(j + 1), isp, nsp, kind) {
                            None => {},
                            Some((s2, r2)) => {
                                assert(old_buf + (bv + r2) =~= buf@ + r2);
                            },
                        }
                    }
                },
            }
            j = j + 1;
        }
        assert(vs.skip(j as int) =~= Seq::<LitView>::empty());
        assert(buf@ + Seq::<u8>::empty() =~= buf@);
        Some(buf)
    }

    /// The rest of adding a data declaration, as `place_data` says; `false`
    /// where the generator cannot go on.
    fn place_data(
        &mut self,
        name: Vec<u8>,
        public: bool,
        mutable: bool,
        base: usize,
        spans: (Span, Span, Span),
        vals: Vec<LiteralValue>,
        tdims: Vec<ArrayLength>,
        idims: Vec<usize>,
    ) -> (ok: bool)
        ensures
            match place_data(
                old(self).state(),
                DataPlan { name: name@, public, mutable, base, nsp: spans.0, tsp: spans.1, isp: spans.2 },
                lit_views(vals@),
                tdims@,
                idims@,
            ) {
                None => !ok,
                Some(s1) => ok && final(self).state() == s1,
            },
            Self::same_input(old(self), final(self)),
            final(self).wf() == old(self).wf(),
    {
        let (nsp, tsp, isp) = spans;
        if tdims.len() != idims.len() {
            let a = decimal_string(tdims.len());
            let b = decimal_string(idims.len());
            let mut m = String::from_str("Dimensions mismatch. Type specifies ");
            m.append(a.as_str());
            m.append(" dimensions but initialiser has ");
            m.append(b.as_str());
            m.append(".");
            self.error(SaltError { span: tsp, message: m });
            return true;
        }
        let dims = match unify(&tdims, &idims) {
            None => {
                self.error(SaltError::new(isp, "Initialiser too long for stated dimensions."));
                return true;
            },
            Some(d) => d,
        };
        let size = match total_size(base, &dims) {
            None => {
                self.error(SaltError::new(tsp, "Array size is out of range."));
                return true;
            },
            Some(z) => z,
        };
        let kind = if base == 1 {
            Some(ValueAs::Byte)
        } else if base == 2 {
            Some(ValueAs::Half)
        } else if base == 4 {
            Some(ValueAs::WordOrFloat)
        } else {
            None
        };
        let buf = match self.init_bytes(&vals, isp, nsp, kind) {
            None => return false,
            Some(b) => b,
        };
        if buf.len() > size {
            self.error(SaltError::new(nsp, "Initialiser too big for type."));
            return true;
        }
        let buf = pad_zeros(buf, size);
        let existed = self.insert(
            name,
            SymbolTableEntry::D { public, mutable, size, initialiser: buf, span: nsp, references: Vec::new() },
        );
        if existed {
            self.error(SaltError::new(nsp, "Name already in use."));
        }
        true
    }

    /// Add a data declaration, as `add_data_spec` says; `false` where the
    /// generator cannot go on.
    fn add_one_data(&mut self, d: &DataDecl<'a>) -> (ok: bool)
        requires
            ast_ok(d.syntax),
        ensures
            match add_data_spec(old(self).state(), d.syntax) {
                None => !ok,
                Some(s1) => ok && final(self).state() == s1,
            },
            Self::same_input(old(self), final(self)),
            final(self).wf() == old(self).wf(),
    {
        let name = d.name();
        let public = d.public();
        let mutable = d.mutable();
        let ty = d.type_();
        let base = ty.base_size();
        let tdims = match ty.dimensions() {
            Ok(v) => v,
            Err(e) => {
                self.error(e);
                return true;
            },
        };
        let (vals, idims) = match d.initialiser() {
            Ok(x) => x,
            Err(e) => {
                self.error(e);
                return true;
            },
        };
        let nsp = d.name_span();
        if !is_lowercase(name.as_slice()) {
            self.warning(SaltError::new(nsp, "Data names are expected to be lower_snake_case."));
        }
        let tsp = ty.span();
        let isp = d.init_span();
        self.place_data(name, public, mutable, base, (nsp, tsp, isp), vals, tdims, idims)
    }

    /// Add data declarations in turn, as `add_datas_spec` says; `false`
    /// where the generator cannot go on.
    fn add_data(&mut self, datas: &Vec<DataDecl<'a>>) -> (ok: bool)
        requires
            forall|i: int| 0 <= i < datas@.len() ==> ast_ok(#[trigger] datas@[i].syntax),
        ensures
            match add_datas_spec(old(self).state(), datas@.map_values(|d: DataDecl<'a>| d.syntax)) {
                None => !ok,
                Some(s1) => ok && final(self).state() == s1,
            },
            Self::same_input(old(self), final(self)),
            final(self).wf() == old(self).wf(),
    {
        let ghost ds = datas@.map_values(|d: DataDecl<'a>| d.syntax);
        let mut i: usize = 0;
        while i < datas.len()
            invariant
                i <= datas@.len(),
                ds == datas@.map_values(|d: DataDecl<'a>| d.syntax),
                forall|k: int| 0 <= k < datas@.len() ==> ast_ok(#[trigger] datas@[k].syntax),
                add_datas_spec(old(self).state(), ds.take(i as int)) == Some(self.state()),
                Self::same_input(old(self), self),
                self.wf() == old(self).wf(),
            decreases datas@.len() - i,
        {
            assert(ds.take(i + 1).drop_last() =~= ds.take(i as int));
            if !self.add_one_data(&datas[i]) {
                proof {
                    lemma_datas_stop(old(self).state(), ds, i as int + 1);
                }
                return false;
            }
            i = i + 1;
        }
        assert(ds.take(i as int) =~= ds);
        true
    }

    /// Warn of each unused private symbol, in the order of their spans'
    /// starts; the order of the spans.
    fn unused_warnings(&mut self) -> (o: Vec<usize>)
        ensures
            is_stable_order(span_keys(unused_spans(old(self).state().symbols)), o@),
            final(self).state() == with_unused_warnings(old(self).state(), o@),
            Self::same_input(old(self), final(self)),
            final(self).wf() == old(self).wf(),
    {
        let ghost syms = self.state().symbols;
        let mut spans: Vec<Span> = Vec::new();
        let mut i: usize = 0;
        assert(syms.take(0) =~= Seq::<(Seq<u8>, EntrySpec)>::empty());
        while i < self.symbols.len()
            invariant
                i <= self.symbols@.len(),
                syms == symbol_views(self.symbols@),
                spans@ == unused_spans(syms.take(i as int)),
            decreases self.symbols@.len() - i,
        {
            assert(syms.take(i + 1).drop_last() =~= syms.take(i as int));
            assert(syms.take(i + 1).last() == self.symbols@[i as int]@);
            match &self.symbols[i].entry {
                SymbolTableEntry::C { public, used, span, .. } => {
                    if !*public && !*used {
                        spans.push(*span);
                    }
                },
                SymbolTableEntry::D { public, references, span, .. } => {
                    if !*public && references.len() == 0 {
                        spans.push(*span);
                    }
                },
                SymbolTableEntry::L { public, references, span, .. } => {
                    if !*public && references.len() == 0 {
                        spans.push(*span);
                    }
                },
                SymbolTableEntry::E { .. } => {},
            }
            i = i + 1;
        }
        assert(syms.take(i as int) =~= syms);
        let mut keys: Vec<(u64, Vec<u8>)> = Vec::new();
        let mut k: usize = 0;
        while k < spans.len()
            invariant
                k <= spans@.len(),
                key_views(keys@) =~= span_keys(spans@).take(k as int),
            decreases spans@.len() - k,
        {
            let e: Vec<u8> = Vec::new();
            assert(e@ =~= Seq::<u8>::empty());
            let ghost kv0 = keys@;
            keys.push((spans[k].start as u64, e));
            assert(keys@ == kv0.push((spans@[k as int].start as u64, e)));
            assert(key_views(keys@) =~= key_views(kv0).push((spans@[k as int].start as u64, Seq::<u8>::empty())));
            assert(span_keys(spans@).take(k + 1) =~= span_keys(spans@).take(k as int).push(span_keys(spans@)[k as int]));
            assert(key_views(keys@) =~= span_keys(spans@).take(k + 1));
            k = k + 1;
        }
        assert(key_views(keys@) =~= span_keys(spans@));
        let o = sorted_order(&keys);
        let ghost s0 = self.state();
        let mut m: usize = 0;
        while m < o.len()
            invariant
                m <= o@.len(),
                is_stable_order(span_keys(spans@), o@),
                spans@ == unused_spans(s0.symbols),
                self.state() == (GenState {
                    warnings: s0.warnings + Seq::new(m as nat, |i: int| msg(spans@[o@[i] as int], "Unused private symbol.")),
                    ..s0
                }),
                Self::same_input(old(self), self),
                self.wf() == old(self).wf(),
            decreases o@.len() - m,
        {
            let sp = spans[o[m]];
            self.warning(SaltError::new(sp, "Unused private symbol."));
            assert(s0.warnings + Seq::new((m + 1) as nat, |i: int| msg(spans@[o@[i] as int], "Unused private symbol."))
                =~= s0.warnings + Seq::new(m as nat, |i: int| msg(spans@[o@[i] as int], "Unused private symbol.")).push(
                msg(sp, "Unused private symbol.")));
            m = m + 1;
        }
        o
    }

    /// The positions of the symbols in name order.
    fn name_order(&self) -> (o: Vec<usize>)
        ensures
            is_stable_order(name_keys(self.state().symbols), o@),
    {
        let mut keys: Vec<(u64, Vec<u8>)> = Vec::new();
        let mut k: usize = 0;
        while k < self.symbols.len()
            invariant
                k <= self.symbols@.len(),
                key_views(keys@) =~= name_keys(self.state().symbols).take(k as int),
            decreases self.symbols@.len() - k,
        {
            let nm = crate::bytes::copy_bytes(self.symbols[k].name.as_slice());
            let ghost kv0 = keys@;
            let ghost nv = nm@;
            keys.push((0u64, nm));
            assert(keys@ == kv0.push((0u64, nm)));
            assert(key_views(keys@) =~= key_views(kv0).push((0u64, nv)));
            assert(name_keys(self.state().symbols).take(k + 1) =~= name_keys(self.state().symbols).take(k as int).push(
                name_keys(self.state().symbols)[k as int],
            ));
            assert(self.state().symbols[k as int] == self.symbols@[k as int]@);
            assert(key_views(keys@) =~= name_keys(self.state().symbols).take(k + 1));
            k = k + 1;
        }
        assert(key_views(keys@) =~= name_keys(self.state().symbols));
        sorted_order(&keys)
    }

    /// Report each symbol at the positions `o` whose name is too long for
    /// the symbol table, as `long_name_errors` says; whether there was one.
    fn report_long_names(&mut self, o: &Vec<usize>) -> (found: bool)
        requires
            forall|i: int| 0 <= i < o@.len() ==> #[trigger] o@[i] < old(self).symbols@.len(),
        ensures
            final(self).state() == (GenState {
                errors: old(self).state().errors + long_name_errors(old(self).state().symbols, o@),
                ..old(self).state()
            }),
            found == (long_name_errors(old(self).state().symbols, o@).len() > 0),
            Self::same_input(old(self), final(self)),
    {
        let ghost s0 = self.state();
        let mut found = false;
        let mut k: usize = 0;
        assert(s0.errors + long_name_errors(s0.symbols, o@.take(0)) =~= s0.errors);
        assert(self.symbols@.len() == s0.symbols.len());
        while k < o.len()
            invariant
                k <= o@.len(),
                forall|i: int| 0 <= i < o@.len() ==> #[trigger] o@[i] < s0.symbols.len(),
                s0.symbols == symbol_views(self.symbols@),
                self.state() == (GenState { errors: s0.errors + long_name_errors(s0.symbols, o@.take(k as int)), ..s0 }),
                found == (long_name_errors(s0.symbols, o@.take(k as int)).len() > 0),
                Self::same_input(old(self), self),
            decreases o@.len() - k,
        {
            let j = o[k];
            assert(self.symbols@.len() == s0.symbols.len());
            assert(o@.take(k + 1).drop_last() =~= o@.take(k as int));
            assert(o@.take(k + 1).last() == j);
            assert(s0.symbols[j as int] == self.symbols@[j as int]@);
            let sp: Option<Span> = match &self.symbols[j].entry {
                SymbolTableEntry::C { .. } => None,
                SymbolTableEntry::D { span, .. } => Some(*span),
                SymbolTableEntry::L { span, .. } => Some(*span),
                SymbolTableEntry::E { span, .. } => Some(*span),
            };
            let long = self.symbols[j].name.len() > 255;
            let ghost before = self.state();
            if long {
                if let Some(span) = sp {
                    self.error(SaltError::new(span, "Symbol name too long (max 255 chars)."));
                    found = true;
                    assert(self.state().errors =~= s0.errors + long_name_errors(s0.symbols, o@.take(k + 1)));
                }
            }
            k = k + 1;
        }
        assert(o@.take(k as int) =~= o@);
        found
    }

    /// Whether there would be no section, as `no_sections` says.
    fn has_no_sections(&self) -> (r: bool)
        ensures
            r == no_sections(self.state()),
    {
        if self.code.len() > 0 {
            return false;
        }
        let ghost syms = self.state().symbols;
        let mut i: usize = 0;
        while i < self.symbols.len()
            invariant
                i <= self.symbols@.len(),
                syms == symbol_views(self.symbols@),
                forall|j: int| 0 <= j < i ==> match #[trigger] syms[j].1 {
                    EntrySpec::D { size, .. } => size == 0,
                    _ => true,
                },
            decreases self.symbols@.len() - i,
        {
            assert(syms[i as int] == self.symbols@[i as int]@);
            match &self.symbols[i].entry {
                SymbolTableEntry::D { size, .. } => {
                    if *size != 0 {
                        assert(!(match syms[i as int].1 {
                            EntrySpec::D { size, .. } => size == 0,
                            _ => true,
                        }));
                        return false;
                    }
                },
                _ => {},
            }
            i = i + 1;
        }
        true
    }

    /// Run the generator, as `run_spec` says: `None` where it cannot go on.
    pub fn run_checked(self, entrypoint: bool) -> (r: Option<Result<CodegenSuccess, CodegenFailure>>)
        requires
            self.wf(),
        ensures
            match instructions_spec(self.state(), self.tree_view(), self.instr_nodes()) {
                None => r is None,
                Some(s1) => exists|o1: Seq<usize>, o2: Seq<usize>|
                    #![trigger is_stable_order(span_keys(unused_spans(s1.symbols)), o1), is_stable_order(name_keys(s1.symbols), o2)]
                    is_stable_order(span_keys(unused_spans(s1.symbols)), o1) && is_stable_order(name_keys(s1.symbols), o2)
                        && match finish_spec(with_unused_warnings(s1, o1), o2, entrypoint) {
                        None => r is None,
                        Some((s3, b)) => r matches Some(x) && run_result(s3, b, x),
                    },
            },
    {
        let mut g = self;
        if !g.codegen_instructions() {
            return None;
        }
        let ghost s1 = g.state();
        let o1 = g.unused_warnings();
        let o2 = g.name_order();
        assert(is_stable_order(span_keys(unused_spans(s1.symbols)), o1@) && is_stable_order(name_keys(s1.symbols), o2@));
        let bytes: Vec<u8> = if g.has_no_sections() {
            g.error(SaltError::new(Span { start: 0, end: 0 }, "Cannot compile an empty file."));
            Vec::new()
        } else {
            proof {
                assert forall|i: int| 0 <= i < o2@.len() implies #[trigger] o2@[i] < g.symbols@.len() by {
                    assert(o2@[i] < name_keys(s1.symbols).len());
                }
                assert(sym_views(g.symbols@) =~= symbol_views(g.symbols@));
            }
            if g.report_long_names(&o2) {
                Vec::new()
            } else {
                match write_object(&g.symbols, &g.code, &o2, entrypoint) {
                    None => return None,
                    Some(b) => b,
                }
            }
        };
        if g.errors.len() == 0 {
            Some(Ok(CodegenSuccess { simobj: bytes, warnings: g.warnings }))
        } else {
            Some(Err(CodegenFailure { errors: g.errors, warnings: g.warnings }))
        }
    }

    /// Whether a run goes through to its end, whatever the orders of equal
    /// keys: it does not where a count, base or address of the object file
    /// does not fit in 32 bits.
    pub open spec fn run_goes_through(&self, entrypoint: bool) -> bool {
        match instructions_spec(self.state(), self.tree_view(), self.instr_nodes()) {
            None => false,
            Some(s1) => forall|o1: Seq<usize>, o2: Seq<usize>|
                #![trigger is_stable_order(span_keys(unused_spans(s1.symbols)), o1), is_stable_order(name_keys(s1.symbols), o2)]
                is_stable_order(span_keys(unused_spans(s1.symbols)), o1) && is_stable_order(name_keys(s1.symbols), o2)
                    ==> finish_spec(with_unused_warnings(s1, o1), o2, entrypoint) is Some,
        }
    }

    /// Run the generator: generate the code of each instruction, warn of
    /// the unused private symbols, and write the object file; success with
    /// the file and the warnings where there is no error, else failure with
    /// the errors and warnings.
    pub fn run(self, entrypoint: bool) -> (r: Result<CodegenSuccess, CodegenFailure>)
        requires
            self.wf(),
            self.run_goes_through(entrypoint),
        ensures
            instructions_spec(self.state(), self.tree_view(), self.instr_nodes()) matches Some(s1) && exists|
                o1: Seq<usize>,
                o2: Seq<usize>,
            |
                #![trigger is_stable_order(span_keys(unused_spans(s1.symbols)), o1), is_stable_order(name_keys(s1.symbols), o2)]
                is_stable_order(span_keys(unused_spans(s1.symbols)), o1) && is_stable_order(name_keys(s1.symbols), o2)
                    && (finish_spec(with_unused_warnings(s1, o1), o2, entrypoint) matches Some((s3, b)) && run_result(
                    s3,
                    b,
                    r,
                )),
    {
        let ghost st = self.state();
        let ghost t = self.tree_view();
        let ghost nodes = self.instr_nodes();
        match self.run_checked(entrypoint) {
            Some(x) => x,
            None => {
                proof {
                    let s1 = instructions_spec(st, t, nodes).unwrap();
                    let (o1, o2) = choose|o1: Seq<usize>, o2: Seq<usize>|
                        #![trigger is_stable_order(span_keys(unused_spans(s1.symbols)), o1), is_stable_order(name_keys(s1.symbols), o2)]
                        is_stable_order(span_keys(unused_spans(s1.symbols)), o1) && is_stable_order(name_keys(s1.symbols), o2)
                            && match finish_spec(with_unused_warnings(s1, o1), o2, entrypoint) {
                            None => true,
                            Some((s3, b)) => false,
                        };
                    assert(finish_spec(with_unused_warnings(s1, o1), o2, entrypoint) is Some);
                }
                Err(CodegenFailure { errors: Vec::new(), warnings: Vec::new() })
            },
        }
    }

    /// Make a generator for a program, with the public constants of other
    /// files: add its constants, the extra constants, its data and its
    /// labels to the symbol table, as `declarations_spec` says; failure
    /// with the errors and warnings where there is an error. `None` where
    /// the generator cannot go on.
    pub fn new_checked<'b>(program: Program<'a>, extra_consts: &Vec<ConstDecl<'b>>) -> (r: Option<Result<Self, CodegenFailure>>)
        requires
            ast_ok(program.syntax),
            program.syntax.index == 0,
            forall|i: int| 0 <= i < extra_consts@.len() ==> ast_ok(#[trigger] extra_consts@[i].syntax),
        ensures
            match declarations_spec(program.syntax.tree, extra_consts@.map_values(|c: ConstDecl<'b>| c.syntax)) {
                None => r is None,
                Some(s) => if s.errors.len() == 0 {
                    r matches Some(Ok(g)) && g.state() == s && g.wf() && g.tree_view() == program.syntax.tree
                        && g.instr_nodes() == line_items(
                        program.syntax.tree,
                        children(program.syntax.tree, 0),
                        SyntaxKind::Instruction,
                    )
                } else {
                    r matches Some(Err(f)) && err_views(f.errors@) == s.errors && err_views(f.warnings@) == s.warnings
                },
            },
    {
        let t = program.syntax.tree;
        let consts = program.const_decls();
        let datas = program.data_decls();
        let labels = program.labels();
        let instructions = program.instructions();
        let ghost cs = children(t, 0);
        proof {
            lemma_line_items(t, cs, SyntaxKind::ConstDecl);
            lemma_line_items(t, cs, SyntaxKind::DataDecl);
            lemma_line_items(t, cs, SyntaxKind::Label);
            lemma_line_items(t, cs, SyntaxKind::Instruction);
            assert forall|i: int| 0 <= i < consts@.len() implies ast_ok(#[trigger] consts@[i].syntax) by {
                assert(consts@[i].syntax.index == line_items(t, cs, SyntaxKind::ConstDecl)[i]);
            }
            assert forall|i: int| 0 <= i < datas@.len() implies ast_ok(#[trigger] datas@[i].syntax) by {
                assert(datas@[i].syntax.index == line_items(t, cs, SyntaxKind::DataDecl)[i]);
            }
            assert forall|i: int| 0 <= i < labels@.len() implies node_ok(#[trigger] labels@[i].syntax.tree, labels@[i].syntax.index as int)
                && node_ok(labels@[i].syntax.tree, 0) by {
                assert(labels@[i].syntax.index == line_items(t, cs, SyntaxKind::Label)[i]);
            }
            assert(consts@.map_values(|c: ConstDecl<'a>| c.syntax) =~= decl_nodes(t, SyntaxKind::ConstDecl));
            assert(datas@.map_values(|d: DataDecl<'a>| d.syntax) =~= decl_nodes(t, SyntaxKind::DataDecl));
            assert(labels@.map_values(|l: Label<'a>| l.syntax) =~= decl_nodes(t, SyntaxKind::Label));
            lemma_add_consts_concat(
                empty_state(),
                decl_nodes(t, SyntaxKind::ConstDecl),
                extra_consts@.map_values(|c: ConstDecl<'b>| c.syntax),
            );
        }
        let mut g = CodeGenerator {
            tree: t,
            symbols: Vec::new(),
            code: Vec::new(),
            errors: Vec::new(),
            warnings: Vec::new(),
            instructions,
        };
        proof {
            assert(g.state() =~= empty_state()) by {
                assert(symbol_views(g.symbols@) =~= Seq::<(Seq<u8>, EntrySpec)>::empty());
                assert(err_views(g.errors@) =~= Seq::<ErrView>::empty());
                assert(err_views(g.warnings@) =~= Seq::<ErrView>::empty());
            }
            assert forall|i: int| 0 <= i < g.instructions@.len() implies (#[trigger] g.instructions@[i]).syntax.tree == g.tree
                && node_ok(g.tree, g.instructions@[i].syntax.index as int) by {
                assert(g.instructions@[i].syntax.index == line_items(t, cs, SyntaxKind::Instruction)[i]);
            }
            assert(g.instr_nodes() =~= line_items(t, cs, SyntaxKind::Instruction));
        }
        g.add_constants(&consts);
        g.add_constants(extra_consts);
        if !g.add_data(&datas) {
            return None;
        }
        g.add_labels(&labels);
        if g.errors.len() == 0 {
            Some(Ok(g))
        } else {
            Some(Err(CodegenFailure { errors: g.errors, warnings: g.warnings }))
        }
    }

    /// Make a generator for a program, as `new_checked` says, where its
    /// declarations go through.
    pub fn new<'b>(program: Program<'a>, extra_consts: &Vec<ConstDecl<'b>>) -> (r: Result<Self, CodegenFailure>)
        requires
            ast_ok(program.syntax),
            program.syntax.index == 0,
            forall|i: int| 0 <= i < extra_consts@.len() ==> ast_ok(#[trigger] extra_consts@[i].syntax),
            declarations_spec(program.syntax.tree, extra_consts@.map_values(|c: ConstDecl<'b>| c.syntax)) is Some,
        ensures
            declarations_spec(program.syntax.tree, extra_consts@.map_values(|c: ConstDecl<'b>| c.syntax)) matches Some(s)
                && if s.errors.len() == 0 {
                r matches Ok(g) && g.state() == s && g.wf() && g.tree_view() == program.syntax.tree
                    && g.instr_nodes() == line_items(
                    program.syntax.tree,
                    children(program.syntax.tree, 0),
                    SyntaxKind::Instruction,
                )
            } else {
                r matches Err(f) && err_views(f.errors@) == s.errors && err_views(f.warnings@) == s.warnings
            },
    {
        match Self::new_checked(program, extra_consts) {
            Some(x) => x,
            None => Err(CodegenFailure { errors: Vec::new(), warnings: Vec::new() }),
        }
    }

    /// Append four zero bytes to the code.
    fn push_zero_word(&mut self)
        ensures
            final(self).state() == append_code(old(self).state(), zero_word()),
            Self::same_input(old(self), final(self)),
    {
        self.code.push(0);
        self.code.push(0);
        self.code.push(0);
        self.code.push(0);
        assert(self.code@ =~= old(self).code@ + zero_word());
    }

    /// Resolve an operand, as `resolve_operand_spec` says.
    pub(crate) fn resolve_operand(&mut self, operand: &Operand<'a>) -> (r: Option<Result<ResolvedOperand, SaltError>>)
        requires
            operand.syntax.tree == old(self).tree_view(),
            ast_ok(operand.syntax),
        ensures
            match resolve_operand_spec(old(self).state(), old(self).tree_view(), operand.syntax.index as int) {
                Outcome::Stop => r is None,
                Outcome::Done(s1, v) => r matches Some(Ok(x)) && x@ == v && final(self).state() == s1,
                Outcome::Fail(s1, e) => r matches Some(Err(x)) && x@ == e && final(self).state() == s1,
            },
            Self::same_input(old(self), final(self)),
    {
        let ghost s0 = self.state();
        let span = operand.syntax.text_range();
        let ident = match operand.value() {
            Err(e) => return Some(Err(e)),
            Ok(OperandValue::Lit(l)) => return Some(Ok(ResolvedOperand::Literal(l))),
            Ok(OperandValue::Ident(name)) => name,
        };
        match get_reg_ref(ident.as_slice()) {
            Some((r, ty)) => return Some(Ok(ResolvedOperand::RegRef(r, ty))),
            None => {},
        }
        match self.find(ident.as_slice()) {
            Some(j) => {
                proof {
                    assert(s0.symbols[j as int] == self.symbols@[j as int]@);
                    lemma_lookup_from(s0.symbols, ident@, 0);
                }
                let ghost syms0 = self.symbols@;
                let is_const = match &self.symbols[j].entry {
                    SymbolTableEntry::C { .. } => true,
                    _ => false,
                };
                if is_const {
                    let mut e = SymbolTableEntry::E { references: Vec::new(), span };
                    std::mem::swap(&mut e, &mut self.symbols[j].entry);
                    match e {
                        SymbolTableEntry::C { public, value, span: sp, used } => {
                            let v = value.copy();
                            self.symbols[j].entry = SymbolTableEntry::C { public, value, span: sp, used: true };
                            proof {
                                assert forall|k: int| 0 <= k < self.symbols@.len() implies #[trigger] self.symbols@[k]@ == s0.symbols.update(
                                    j as int,
                                    (ident@, EntrySpec::C { public, value: v@, span: sp, used: true }),
                                )[k] by {
                                    if k != j {
                                        assert(self.symbols@[k] == syms0[k]);
                                    }
                                }
                                assert(symbol_views(self.symbols@) =~= s0.symbols.update(
                                    j as int,
                                    (ident@, EntrySpec::C { public, value: v@, span: sp, used: true }),
                                ));
                            }
                            Some(Ok(ResolvedOperand::Literal(v)))
                        },
                        _ => {
                            self.symbols[j].entry = e;
                            None
                        },
                    }
                } else {
                    if self.code.len() > 0xFFFF_FFFF {
                        return None;
                    }
                    let at = self.code.len() as u32;
                    let mut e = SymbolTableEntry::E { references: Vec::new(), span };
                    std::mem::swap(&mut e, &mut self.symbols[j].entry);
                    let ghost old_e = e@;
                    let e2 = match e {
                        SymbolTableEntry::D { public, mutable, size, initialiser, span: sp, mut references } => {
                            references.push(at);
                            SymbolTableEntry::D { public, mutable, size, initialiser, span: sp, references }
                        },
                        SymbolTableEntry::L { public, location, span: sp, mut references } => {
                            references.push(at);
                            SymbolTableEntry::L { public, location, span: sp, references }
                        },
                        SymbolTableEntry::E { mut references, span: sp } => {
                            references.push(at);
                            SymbolTableEntry::E { references, span: sp }
                        },
                        c => c,
                    };
                    assert(e2@ == add_reference(old_e, at));
                    self.symbols[j].entry = e2;
                    proof {
                        assert forall|k: int| 0 <= k < self.symbols@.len() implies #[trigger] self.symbols@[k]@ == s0.symbols.update(
                            j as int,
                            (ident@, add_reference(old_e, at)),
                        )[k] by {
                            if k != j {
                                assert(self.symbols@[k] == syms0[k]);
                            }
                        }
                        assert(symbol_views(self.symbols@) =~= s0.symbols.update(
                            j as int,
                            (ident@, add_reference(old_e, at)),
                        ));
                    }
                    self.push_zero_word();
                    Some(Ok(ResolvedOperand::SymbolReference))
                }
            },
            None => {
                if self.code.len() > 0xFFFF_FFFF {
                    return None;
                }
                if is_uppercase(ident.as_slice()) {
                    self.warning(SaltError::new(
                        span,
                        "Unresolved symbol creates an external data reference, but this looks like a constant.",
                    ));
                }
                let at = self.code.len() as u32;
                let mut refs: Vec<u32> = Vec::new();
                refs.push(at);
                let ghost name_v = ident@;
                let ghost mid = self.symbols@;
                self.symbols.push(Symbol { name: ident, entry: SymbolTableEntry::E { references: refs, span } });
                proof {
                    assert(refs@ =~= seq![at]);
                    assert(symbol_views(self.symbols@) =~= symbol_views(mid).push(
                        (name_v, EntrySpec::E { references: seq![at], span }),
                    ));
                }
                self.push_zero_word();
                Some(Ok(ResolvedOperand::SymbolReference))
            },
        }
    }

    /// Resolve a literal, as `resolve_literal_spec` says; `None` where the
    /// generator cannot go on.
    fn resolve_literal(&mut self, val: &LiteralValue, span: Span) -> (r: Option<Option<(u32, RegisterType)>>)
        ensures
            match resolve_literal_spec(old(self).state(), val@, span) {
                None => r is None,
                Some(p) => r == Some(p.1) && final(self).state() == p.0,
            },
            Self::same_input(old(self), final(self)),
    {
        match val {
            LiteralValue::Lit { value, min_reg_type } => Some(Some((*value, *min_reg_type))),
            LiteralValue::Sizeof { ident } => {
                let ghost s0 = self.state();
                assert(val@ == LitView::Sizeof { ident: ident@ });
                let found: Option<usize> = match self.find(ident.as_slice()) {
                    Some(j) => {
                        proof {
                            assert(s0.symbols[j as int] == self.symbols@[j as int]@);
                        }
                        match &self.symbols[j].entry {
                            SymbolTableEntry::D { size, .. } => Some(*size),
                            _ => None,
                        }
                    },
                    None => None,
                };
                assert(found == data_size(s0.symbols, ident@));
                match found {
                    Some(size) => {
                        if size > 0xFFFF_FFFF {
                            None
                        } else {
                            let sz = size as u32;
                            Some(Some((sz, minimum_reg_type(sz as i64))))
                        }
                    },
                    None => {
                        self.error(SaltError::new(span, "No corresponding data declaration found in this file."));
                        Some(None)
                    },
                }
            },
        }
    }

    /// Convert a literal to bytes, as `value_as_spec` says; `None` where the
    /// generator cannot go on.
    pub(crate) fn value_as(&mut self, val: &LiteralValue, span: Span, kind: ValueAs) -> (r: Option<Option<Vec<u8>>>)
        ensures
            match value_as_spec(old(self).state(), val@, span, kind) {
                None => r is None,
                Some((s1, x)) => final(self).state() == s1 && match x {
                    Some(b) => r matches Some(Some(v)) && v@ == b,
                    None => r == Some(None::<Vec<u8>>),
                },
            },
            Self::same_input(old(self), final(self)),
    {
        let (v, m) = match self.resolve_literal(val, span) {
            None => return None,
            Some(None) => return Some(None),
            Some(Some(x)) => x,
        };
        match kind {
            ValueAs::Byte => {
                if m == RegisterType::Byte {
                    let mut b: Vec<u8> = Vec::new();
                    b.push(v as u8);
                    assert(b@ =~= seq![v as u8]);
                    Some(Some(b))
                } else {
                    Some(None)
                }
            },
            ValueAs::Half => {
                if m == RegisterType::Byte || m == RegisterType::Half {
                    let a = u16_to_be(v as u16);
                    let mut b: Vec<u8> = Vec::new();
                    b.push(a[0]);
                    b.push(a[1]);
                    assert(b@ =~= a@);
                    Some(Some(b))
                } else {
                    Some(None)
                }
            },
            _ => {
                if kind == ValueAs::Word && m == RegisterType::Float {
                    self.warning(SaltError::new(span, "Float literal being used as an integer."));
                }
                if kind == ValueAs::Float && m != RegisterType::Float {
                    self.warning(SaltError::new(span, "Integer literal being used as a float."));
                }
                let a = u32_to_be(v);
                let mut b: Vec<u8> = Vec::new();
                b.push(a[0]);
                b.push(a[1]);
                b.push(a[2]);
                b.push(a[3]);
                assert(b@ =~= a@);
                Some(Some(b))
            },
        }
    }
}

} // verus!
