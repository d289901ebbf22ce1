//! The processor's typed memory accesses: physical in kernel mode, virtual
//! through the page directory register in user mode; the stack of the
//! current mode; and the entry into an interrupt handler.
use vstd::prelude::*;
use crate::bytes::{be_u16_bytes, be_u32_bytes};
use crate::vm::bus::{
    directory_fits, load_intent, load_virtual_view, refused, store_bytes_view, store_virtual_view, word_spec, Access,
    DeviceBytes, DeviceBytesView,
};
use crate::vm::cpu::{
    pop_address, push_address, pushed_flags, pushed_flags_spec, read_spec, reg_ref_type, reg_type, regs_ok,
    stack_pointer_spec, with_stack_pointer, write_spec, RegState, Registers, TypedValue, ValueType,
};
use crate::vm::memory::{Memory, MemoryView, Stored};

verus! {

/// The number of bytes of a value of a type.
pub open spec fn type_bytes(ty: ValueType) -> nat {
    match ty {
        ValueType::Byte => 1,
        ValueType::Half => 2,
        _ => 4,
    }
}

/// The type of a value.
pub open spec fn type_of(v: TypedValue) -> ValueType {
    match v {
        TypedValue::Byte(_) => ValueType::Byte,
        TypedValue::Half(_) => ValueType::Half,
        TypedValue::Word(_) => ValueType::Word,
        TypedValue::Float(_) => ValueType::Float,
    }
}

/// The bytes of a value in memory, big-endian; a float by its bits.
pub open spec fn typed_bytes(v: TypedValue) -> Seq<u8> {
    match v {
        TypedValue::Byte(b) => seq![b],
        TypedValue::Half(h) => be_u16_bytes(h),
        TypedValue::Word(w) => be_u32_bytes(w),
        TypedValue::Float(w) => be_u32_bytes(w),
    }
}

/// Whether an access of `n` bytes at `a` stays below 2^32, and in user mode
/// each byte's directory entry does too.
pub open spec fn access_fits(s: RegState, a: u32, n: nat) -> bool {
    &&& a + n - 1 <= u32::MAX
    &&& !s.kernel_mode ==> directory_fits(s.pdpr, a, n)
}

/// A typed load from `a` in the mode of `s`: the bytes big-endian, from
/// physical memory in kernel mode, else through the page tables at
/// `s.pdpr`, for execution where it fetches an instruction.
pub open spec fn load_typed_spec(s: RegState, m: MemoryView, d: DeviceBytesView, a: u32, is_fetch: bool, ty: ValueType) -> Access<
    TypedValue,
> {
    let raw = if s.kernel_mode {
        match word_spec(m, d, a, type_bytes(ty)) {
            Some(w) => Access::Done(w),
            None => Access::Illegal,
        }
    } else {
        load_virtual_view(m, d, s.pdpr, a, type_bytes(ty), load_intent(is_fetch))
    };
    match raw {
        Access::Done(w) => Access::Done(
            match ty {
                ValueType::Byte => TypedValue::Byte(w as u8),
                ValueType::Half => TypedValue::Half(w as u16),
                ValueType::Word => TypedValue::Word(w as u32),
                ValueType::Float => TypedValue::Float(w as u32),
            },
        ),
        Access::Illegal => Access::Illegal,
        Access::PageFault(f) => Access::PageFault(f),
    }
}

/// A typed store at `a` in the mode of `s`: the memory after it, what each
/// byte's store did, and the outcome.
pub open spec fn store_typed_spec(s: RegState, m: MemoryView, d: DeviceBytesView, a: u32, v: TypedValue) -> (
    MemoryView,
    Seq<Stored>,
    Access<()>,
) {
    if s.kernel_mode {
        let (m1, acts) = store_bytes_view(m, a, typed_bytes(v));
        (m1, acts, if refused(acts) {
            Access::Illegal
        } else {
            Access::Done(())
        })
    } else {
        store_virtual_view(m, d, s.pdpr, a, typed_bytes(v))
    }
}

/// Load a typed value, as `load_typed_spec` says.
pub fn load_typed(regs: &Registers, mem: &Memory, dev: &DeviceBytes, address: u32, is_fetch: bool, ty: ValueType) -> (r:
    Access<TypedValue>)
    requires
        mem.wf(),
        crate::vm::bus::devices_wf(dev@),
        access_fits(regs@, address, type_bytes(ty)),
    ensures
        r == load_typed_spec(regs@, mem@, dev@, address, is_fetch, ty),
{
    match ty {
        ValueType::Byte => {
            let raw = if regs.kernel_mode() {
                match crate::vm::bus::read_byte(mem, dev, address) {
                    Some(b) => Access::Done(b),
                    None => Access::Illegal,
                }
            } else {
                mem.load_virtual_8(dev, regs.pdpr(), address, is_fetch)
            };
            proof {
                reveal_with_fuel(word_spec, 2);
                reveal_with_fuel(load_virtual_view, 2);
            }
            match raw {
                Access::Done(b) => Access::Done(TypedValue::Byte(b)),
                Access::Illegal => Access::Illegal,
                Access::PageFault(f) => Access::PageFault(f),
            }
        },
        ValueType::Half => {
            let raw = if regs.kernel_mode() {
                match mem.load_physical_16(dev, address) {
                    Some(h) => Access::Done(h),
                    None => Access::Illegal,
                }
            } else {
                mem.load_virtual_16(dev, regs.pdpr(), address, is_fetch)
            };
            match raw {
                Access::Done(h) => Access::Done(TypedValue::Half(h)),
                Access::Illegal => Access::Illegal,
                Access::PageFault(f) => Access::PageFault(f),
            }
        },
        _ => {
            let raw = if regs.kernel_mode() {
                match mem.load_physical_32(dev, address) {
                    Some(w) => Access::Done(w),
                    None => Access::Illegal,
                }
            } else {
                mem.load_virtual_32(dev, regs.pdpr(), address, is_fetch)
            };
            match raw {
                Access::Done(w) => Access::Done(
                    if let ValueType::Float = ty {
                        TypedValue::Float(w)
                    } else {
                        TypedValue::Word(w)
                    },
                ),
                Access::Illegal => Access::Illegal,
                Access::PageFault(f) => Access::PageFault(f),
            }
        },
    }
}

/// Store a typed value, as `store_typed_spec` says: what each byte's store
/// did, and the outcome.
pub fn store_typed(regs: &Registers, mem: &mut Memory, dev: &DeviceBytes, address: u32, value: TypedValue) -> (r: (
    Vec<Stored>,
    Access<()>,
))
    requires
        old(mem).wf(),
        crate::vm::bus::devices_wf(dev@),
        access_fits(regs@, address, type_bytes(type_of(value))),
    ensures
        final(mem).wf(),
        (final(mem)@, r.0@, r.1) == store_typed_spec(regs@, old(mem)@, dev@, address, value),
{
    if regs.kernel_mode() {
        let acts = match value {
            TypedValue::Byte(b) => {
                let ghost m0 = mem@;
                let st = mem.store_physical_8(address, b);
                proof {
                    reveal_with_fuel(store_bytes_view, 2);
                    assert(seq![b].drop_last() =~= Seq::<u8>::empty());
                }
                let mut v: Vec<Stored> = Vec::new();
                v.push(st);
                assert(v@ =~= seq![st]);
                v
            },
            TypedValue::Half(h) => mem.store_physical_16(address, h),
            TypedValue::Word(w) => mem.store_physical_32(address, w),
            TypedValue::Float(w) => mem.store_physical_32(address, w),
        };
        let n = acts.len();
        let failed = n > 0 && matches!(acts[n - 1], Stored::Refused);
        (acts, if failed {
            Access::Illegal
        } else {
            Access::Done(())
        })
    } else {
        let pdpr = regs.pdpr();
        match value {
            TypedValue::Byte(b) => mem.store_virtual_8(dev, pdpr, address, b),
            TypedValue::Half(h) => mem.store_virtual_16(dev, pdpr, address, h),
            TypedValue::Word(w) => mem.store_virtual_32(dev, pdpr, address, w),
            TypedValue::Float(w) => mem.store_virtual_32(dev, pdpr, address, w),
        }
    }
}

/// The stack pointer after pushing a value of `n` bytes.
pub open spec fn pushed_sp(s: RegState, n: nat) -> u32 {
    ((stack_pointer_spec(s) as int - n as int) % 0x1_0000_0000) as u32
}

/// Whether a push of `v` stays below 2^32.
pub open spec fn push_fits(s: RegState, v: TypedValue) -> bool {
    access_fits(s, pushed_sp(s, type_bytes(type_of(v))), type_bytes(type_of(v)))
}

/// A push of `v` onto the current mode's stack: the stack pointer moves
/// down by its size, wrapping, then the value is stored there. The
/// registers, the memory, what the stores did and the outcome.
pub open spec fn push_spec(s: RegState, m: MemoryView, d: DeviceBytesView, v: TypedValue) -> (
    RegState,
    MemoryView,
    Seq<Stored>,
    Access<()>,
) {
    let sp = pushed_sp(s, type_bytes(type_of(v)));
    let s1 = with_stack_pointer(s, sp);
    let (m1, acts, r) = store_typed_spec(s1, m, d, sp, v);
    (s1, m1, acts, r)
}

/// A pop of a value of type `ty` off the current mode's stack: the value
/// loaded at the stack pointer, which then moves up by its size, wrapping;
/// where the load fails, the registers are unchanged.
pub open spec fn pop_spec(s: RegState, m: MemoryView, d: DeviceBytesView, ty: ValueType) -> (RegState, Access<TypedValue>) {
    match load_typed_spec(s, m, d, stack_pointer_spec(s), false, ty) {
        Access::Done(v) => (
            with_stack_pointer(s, ((stack_pointer_spec(s) as int + type_bytes(ty) as int) % 0x1_0000_0000) as u32),
            Access::Done(v),
        ),
        Access::Illegal => (s, Access::Illegal),
        Access::PageFault(f) => (s, Access::PageFault(f)),
    }
}

/// Push a value onto the current mode's stack, as `push_spec` says.
pub fn push(regs: &mut Registers, mem: &mut Memory, dev: &DeviceBytes, value: TypedValue) -> (r: (Vec<Stored>, Access<()>))
    requires
        old(mem).wf(),
        crate::vm::bus::devices_wf(dev@),
        push_fits(old(regs)@, value),
    ensures
        final(mem).wf(),
        (final(regs)@, final(mem)@, r.0@, r.1) == push_spec(old(regs)@, old(mem)@, dev@, value),
{
    let size = value.size_in_bytes();
    let sp = push_address(regs.stack_pointer(), size);
    regs.set_stack_pointer(sp);
    store_typed(regs, mem, dev, sp, value)
}

/// Pop a value off the current mode's stack, as `pop_spec` says.
pub fn pop(regs: &mut Registers, mem: &Memory, dev: &DeviceBytes, ty: ValueType) -> (r: Access<TypedValue>)
    requires
        mem.wf(),
        crate::vm::bus::devices_wf(dev@),
        access_fits(old(regs)@, stack_pointer_spec(old(regs)@), type_bytes(ty)),
    ensures
        (final(regs)@, r) == pop_spec(old(regs)@, mem@, dev@, ty),
{
    let sp = regs.stack_pointer();
    let v = load_typed(regs, mem, dev, sp, false, ty);
    match v {
        Access::Done(x) => {
            let size: u32 = match ty {
                ValueType::Byte => 1,
                ValueType::Half => 2,
                _ => 4,
            };
            regs.set_stack_pointer(pop_address(sp, size));
            Access::Done(x)
        },
        Access::Illegal => Access::Illegal,
        Access::PageFault(f) => Access::PageFault(f),
    }
}

/// The registers in kernel mode, before entering an interrupt handler.
pub open spec fn in_kernel(s: RegState) -> RegState {
    RegState { kernel_mode: true, ..s }
}

/// Whether the three pushes of entering an interrupt handler stay below
/// 2^32: the flags word, the program counter, the interrupt mask.
pub open spec fn entry_fits(s: RegState) -> bool {
    let s0 = in_kernel(s);
    let s1 = with_stack_pointer(s0, pushed_sp(s0, 2));
    let s2 = with_stack_pointer(s1, pushed_sp(s1, 4));
    &&& push_fits(s0, TypedValue::Half(0))
    &&& push_fits(s1, TypedValue::Word(0))
    &&& push_fits(s2, TypedValue::Half(0))
}

/// Entering the handler of interrupt `i` with the program counter at `pc`:
/// into kernel mode; push the flags word (bit 15 the old mode), the program
/// counter and the interrupt mask onto the kernel stack; mask every
/// interrupt; and jump to the handler's address, the word at `4 * i`. The
/// registers, the memory, what the stores did, and the new program counter,
/// or `None` where an access failed, which stops the processor.
pub open spec fn enter_interrupt_spec(s: RegState, m: MemoryView, d: DeviceBytesView, pc: u32, i: u32) -> (
    RegState,
    MemoryView,
    Seq<Stored>,
    Option<u32>,
) {
    let (s1, m1, a1, r1) = push_spec(in_kernel(s), m, d, TypedValue::Half(pushed_flags_spec(s.flags, s.kernel_mode)));
    if !(r1 is Done) {
        (s1, m1, a1, None)
    } else {
        let (s2, m2, a2, r2) = push_spec(s1, m1, d, TypedValue::Word(pc));
        if !(r2 is Done) {
            (s2, m2, a1 + a2, None)
        } else {
            let (s3, m3, a3, r3) = push_spec(s2, m2, d, TypedValue::Half(s.imr));
            if !(r3 is Done) {
                (s3, m3, a1 + a2 + a3, None)
            } else {
                let s4 = RegState { imr: 0, ..s3 };
                match load_typed_spec(s4, m3, d, (4 * i) as u32, false, ValueType::Word) {
                    Access::Done(TypedValue::Word(h)) => (s4, m3, a1 + a2 + a3, Some(h)),
                    _ => (s4, m3, a1 + a2 + a3, None),
                }
            }
        }
    }
}

/// Enter the handler of an interrupt, as `enter_interrupt_spec` says.
pub fn enter_interrupt(regs: &mut Registers, mem: &mut Memory, dev: &DeviceBytes, pc: u32, interrupt: u32) -> (r: (
    Vec<Stored>,
    Option<u32>,
))
    requires
        old(mem).wf(),
        crate::vm::bus::devices_wf(dev@),
        old(regs)@.flags < 0x8000,
        entry_fits(old(regs)@),
        4 * interrupt + 3 <= u32::MAX,
    ensures
        final(mem).wf(),
        (final(regs)@, final(mem)@, r.0@, r.1) == enter_interrupt_spec(old(regs)@, old(mem)@, dev@, pc, interrupt),
{
    let old_mode = regs.kernel_mode();
    let flags = pushed_flags(regs.flags(), old_mode);
    let imr = regs.imr();
    regs.set_kernel_mode(true);
    let (mut acts, r1) = push(regs, mem, dev, TypedValue::Half(flags));
    if !matches!(r1, Access::Done(_)) {
        return (acts, None);
    }
    let (a2, r2) = push(regs, mem, dev, TypedValue::Word(pc));
    let mut a2 = a2;
    acts.append(&mut a2);
    if !matches!(r2, Access::Done(_)) {
        return (acts, None);
    }
    let (a3, r3) = push(regs, mem, dev, TypedValue::Half(imr));
    let mut a3 = a3;
    acts.append(&mut a3);
    if !matches!(r3, Access::Done(_)) {
        return (acts, None);
    }
    regs.set_imr(0);
    match load_typed(regs, mem, dev, 4 * interrupt, false, ValueType::Word) {
        Access::Done(TypedValue::Word(h)) => (acts, Some(h)),
        _ => (acts, None),
    }
}

/// LOAD: the register `dest` gets the value of its type at `a`; a
/// register reference that names no register, or one that cannot be
/// written, is an illegal operation.
pub open spec fn load_instr_spec(s: RegState, m: MemoryView, d: DeviceBytesView, dest: u8, a: u32) -> (RegState, Access<()>) {
    match reg_type(dest) {
        None => (s, Access::Illegal),
        Some(ty) => match load_typed_spec(s, m, d, a, false, ty) {
            Access::Done(v) => match write_spec(s, dest, v) {
                Some(s1) => (s1, Access::Done(())),
                None => (s, Access::Illegal),
            },
            Access::Illegal => (s, Access::Illegal),
            Access::PageFault(f) => (s, Access::PageFault(f)),
        },
    }
}

/// STORE: the value of the register `src` is stored at `a`; a register
/// that cannot be read is an illegal operation.
pub open spec fn store_instr_spec(s: RegState, m: MemoryView, d: DeviceBytesView, a: u32, src: u8, pfsr: u32) -> (
    MemoryView,
    Seq<Stored>,
    Access<()>,
) {
    match read_spec(s, src, pfsr) {
        None => (m, Seq::empty(), Access::Illegal),
        Some(v) => store_typed_spec(s, m, d, a, v),
    }
}

/// SWAP: the register `reg` and the value of its type at `a` change
/// places: the memory's value is loaded and written to the register, then
/// the register's old value is stored.
pub open spec fn swap_instr_spec(s: RegState, m: MemoryView, d: DeviceBytesView, reg: u8, a: u32, pfsr: u32) -> (
    RegState,
    MemoryView,
    Seq<Stored>,
    Access<()>,
) {
    match read_spec(s, reg, pfsr) {
        None => (s, m, Seq::empty(), Access::Illegal),
        Some(rv) => match load_typed_spec(s, m, d, a, false, type_of(rv)) {
            Access::Done(mv) => match write_spec(s, reg, mv) {
                None => (s, m, Seq::empty(), Access::Illegal),
                Some(s1) => {
                    let (m1, acts, r) = store_typed_spec(s1, m, d, a, rv);
                    (s1, m1, acts, r)
                },
            },
            Access::Illegal => (s, m, Seq::empty(), Access::Illegal),
            Access::PageFault(f) => (s, m, Seq::empty(), Access::PageFault(f)),
        },
    }
}

/// The LOAD instruction, as `load_instr_spec` says.
pub fn instruction_load(regs: &mut Registers, mem: &Memory, dev: &DeviceBytes, dest: u8, address: u32) -> (r: Access<()>)
    requires
        regs_ok(old(regs)@),
        mem.wf(),
        crate::vm::bus::devices_wf(dev@),
        reg_type(dest) matches Some(ty) ==> access_fits(old(regs)@, address, type_bytes(ty)),
    ensures
        regs_ok(final(regs)@),
        (final(regs)@, r) == load_instr_spec(old(regs)@, mem@, dev@, dest, address),
{
    let ty = match reg_ref_type(dest) {
        None => return Access::Illegal,
        Some(t) => t,
    };
    match load_typed(regs, mem, dev, address, false, ty) {
        Access::Done(v) => match regs.write_to_register(dest, v) {
            Ok(()) => Access::Done(()),
            Err(_) => Access::Illegal,
        },
        Access::Illegal => Access::Illegal,
        Access::PageFault(f) => Access::PageFault(f),
    }
}

/// The STORE instruction, as `store_instr_spec` says.
pub fn instruction_store(regs: &Registers, mem: &mut Memory, dev: &DeviceBytes, address: u32, src: u8, pfsr: u32) -> (r: (
    Vec<Stored>,
    Access<()>,
))
    requires
        regs_ok(regs@),
        old(mem).wf(),
        crate::vm::bus::devices_wf(dev@),
        read_spec(regs@, src, pfsr) matches Some(v) ==> access_fits(regs@, address, type_bytes(type_of(v))),
    ensures
        final(mem).wf(),
        (final(mem)@, r.0@, r.1) == store_instr_spec(regs@, old(mem)@, dev@, address, src, pfsr),
{
    match regs.read_from_register(src, pfsr) {
        Err(_) => (Vec::new(), Access::Illegal),
        Ok(v) => store_typed(regs, mem, dev, address, v),
    }
}

/// The SWAP instruction, as `swap_instr_spec` says.
pub fn instruction_swap(regs: &mut Registers, mem: &mut Memory, dev: &DeviceBytes, reg: u8, address: u32, pfsr: u32) -> (r: (
    Vec<Stored>,
    Access<()>,
))
    requires
        regs_ok(old(regs)@),
        old(mem).wf(),
        crate::vm::bus::devices_wf(dev@),
        read_spec(old(regs)@, reg, pfsr) matches Some(v) ==> access_fits(old(regs)@, address, type_bytes(type_of(v))),
        read_spec(old(regs)@, reg, pfsr) matches Some(v) ==> (write_spec(old(regs)@, reg, v) matches Some(s1)
            ==> access_fits(s1, address, type_bytes(type_of(v)))),
    ensures
        regs_ok(final(regs)@),
        final(mem).wf(),
        (final(regs)@, final(mem)@, r.0@, r.1) == swap_instr_spec(old(regs)@, old(mem)@, dev@, reg, address, pfsr),
{
    let rv = match regs.read_from_register(reg, pfsr) {
        Err(_) => return (Vec::new(), Access::Illegal),
        Ok(v) => v,
    };
    let ty = rv.value_type();
    let mv = match load_typed(regs, mem, dev, address, false, ty) {
        Access::Done(v) => v,
        Access::Illegal => return (Vec::new(), Access::Illegal),
        Access::PageFault(f) => return (Vec::new(), Access::PageFault(f)),
    };
    match regs.write_to_register(reg, mv) {
        Err(_) => return (Vec::new(), Access::Illegal),
        Ok(()) => {},
    }
    store_typed(regs, mem, dev, address, rv)
}

/// BLOCKSET of the first `n` bytes: `value` stored at `dest`, `dest + 1`,
/// and on, in the mode of `s`, the first failure ending it.
pub open spec fn blockset_spec(s: RegState, m: MemoryView, d: DeviceBytesView, n: nat, dest: u32, value: u8) -> (
    MemoryView,
    Seq<Stored>,
    Access<()>,
)
    decreases n,
{
    if n == 0 {
        (m, Seq::empty(), Access::Done(()))
    } else {
        let (m1, acts, r) = blockset_spec(s, m, d, (n - 1) as nat, dest, value);
        match r {
            Access::Done(_) => {
                let (m2, a2, r2) = store_typed_spec(s, m1, d, (dest + n - 1) as u32, TypedValue::Byte(value));
                (m2, acts + a2, r2)
            },
            _ => (m1, acts, r),
        }
    }
}

/// BLOCKCOPY of the first `n` bytes: each byte loaded from `src + i` and
/// stored at `dest + i`, in ascending order, in the mode of `s`, the first
/// failure ending it.
pub open spec fn blockcopy_spec(s: RegState, m: MemoryView, d: DeviceBytesView, n: nat, dest: u32, src: u32) -> (
    MemoryView,
    Seq<Stored>,
    Access<()>,
)
    decreases n,
{
    if n == 0 {
        (m, Seq::empty(), Access::Done(()))
    } else {
        let (m1, acts, r) = blockcopy_spec(s, m, d, (n - 1) as nat, dest, src);
        match r {
            Access::Done(_) => match load_typed_spec(s, m1, d, (src + n - 1) as u32, false, ValueType::Byte) {
                Access::Done(v) => {
                    let (m2, a2, r2) = store_typed_spec(s, m1, d, (dest + n - 1) as u32, v);
                    (m2, acts + a2, r2)
                },
                Access::Illegal => (m1, acts, Access::Illegal),
                Access::PageFault(f) => (m1, acts, Access::PageFault(f)),
            },
            _ => (m1, acts, r),
        }
    }
}

/// Once a prefix of a BLOCKSET fails, the whole stops there.
proof fn lemma_blockset_stuck(s: RegState, m: MemoryView, d: DeviceBytesView, k: nat, n: nat, dest: u32, value: u8)
    requires
        k <= n,
        !(blockset_spec(s, m, d, k, dest, value).2 is Done),
    ensures
        blockset_spec(s, m, d, n, dest, value) == blockset_spec(s, m, d, k, dest, value),
    decreases n - k,
{
    if k < n {
        lemma_blockset_stuck(s, m, d, k, (n - 1) as nat, dest, value);
    }
}

/// Once a prefix of a BLOCKCOPY fails, the whole stops there.
proof fn lemma_blockcopy_stuck(s: RegState, m: MemoryView, d: DeviceBytesView, k: nat, n: nat, dest: u32, src: u32)
    requires
        k <= n,
        !(blockcopy_spec(s, m, d, k, dest, src).2 is Done),
    ensures
        blockcopy_spec(s, m, d, n, dest, src) == blockcopy_spec(s, m, d, k, dest, src),
    decreases n - k,
{
    if k < n {
        lemma_blockcopy_stuck(s, m, d, k, (n - 1) as nat, dest, src);
    }
}

/// Whether a block of `n` bytes at `a` can be accessed byte by byte in the
/// mode of `s` without passing 2^32.
pub open spec fn block_fits(s: RegState, a: u32, n: nat) -> bool {
    n > 0 ==> access_fits(s, a, n)
}

/// A byte of a block that fits lies where an access of one byte fits.
proof fn lemma_block_byte_fits(s: RegState, a: u32, n: nat, i: nat)
    requires
        block_fits(s, a, n),
        i < n,
    ensures
        crate::vm::bus::directory_fits(s.pdpr, a, n) ==> crate::vm::bus::directory_fits(s.pdpr, (a + i) as u32, 1),
        a + i <= u32::MAX,
{
    if crate::vm::bus::directory_fits(s.pdpr, a, n) {
        assert(s.pdpr + 4 * crate::vm::mmu::directory_index(((a + (i as int)) as u32)) + 3 <= u32::MAX);
        assert((((a + i) as u32) + 0int) as u32 == ((a + (i as int)) as u32));
    }
}

/// The BLOCKSET instruction, as `blockset_spec` says.
pub fn instruction_blockset(regs: &Registers, mem: &mut Memory, dev: &DeviceBytes, length: u32, dest: u32, value: u8) -> (r: (
    Vec<Stored>,
    Access<()>,
))
    requires
        old(mem).wf(),
        crate::vm::bus::devices_wf(dev@),
        block_fits(regs@, dest, length as nat),
    ensures
        final(mem).wf(),
        (final(mem)@, r.0@, r.1) == blockset_spec(regs@, old(mem)@, dev@, length as nat, dest, value),
{
    let mut acts: Vec<Stored> = Vec::new();
    let mut i: u32 = 0;
    while i < length
        invariant
            i <= length,
            mem.wf(),
            crate::vm::bus::devices_wf(dev@),
            block_fits(regs@, dest, length as nat),
            (mem@, acts@, Access::<()>::Done(())) == blockset_spec(regs@, old(mem)@, dev@, i as nat, dest, value),
        decreases length - i,
    {
        assert(crate::vm::bus::directory_fits(regs@.pdpr, dest, length as nat) ==> crate::vm::bus::directory_fits(
            regs@.pdpr,
            (dest + i) as u32,
            1,
        )) by {
            if crate::vm::bus::directory_fits(regs@.pdpr, dest, length as nat) {
                assert(regs@.pdpr + 4 * crate::vm::mmu::directory_index(((dest + (i as int)) as u32)) + 3 <= u32::MAX);
                assert((((dest + i) as u32) + 0int) as u32 == ((dest + (i as int)) as u32));
            }
        }
        let (mut a2, r2) = store_typed(regs, mem, dev, dest + i, TypedValue::Byte(value));
        acts.append(&mut a2);
        match r2 {
            Access::Done(_) => {},
            _ => {
                proof {
                    lemma_blockset_stuck(regs@, old(mem)@, dev@, (i + 1) as nat, length as nat, dest, value);
                }
                return (acts, r2);
            },
        }
        i = i + 1;
    }
    (acts, Access::Done(()))
}

/// The BLOCKCOPY instruction, as `blockcopy_spec` says.
#[verifier::spinoff_prover]
#[verifier::rlimit(40)]
pub fn instruction_blockcopy(regs: &Registers, mem: &mut Memory, dev: &DeviceBytes, length: u32, dest: u32, src: u32) -> (r: (
    Vec<Stored>,
    Access<()>,
))
    requires
        old(mem).wf(),
        crate::vm::bus::devices_wf(dev@),
        block_fits(regs@, dest, length as nat),
        block_fits(regs@, src, length as nat),
    ensures
        final(mem).wf(),
        (final(mem)@, r.0@, r.1) == blockcopy_spec(regs@, old(mem)@, dev@, length as nat, dest, src),
{
    let mut acts: Vec<Stored> = Vec::new();
    let mut i: u32 = 0;
    while i < length
        invariant
            i <= length,
            mem.wf(),
            crate::vm::bus::devices_wf(dev@),
            block_fits(regs@, dest, length as nat),
            block_fits(regs@, src, length as nat),
            (mem@, acts@, Access::<()>::Done(())) == blockcopy_spec(regs@, old(mem)@, dev@, i as nat, dest, src),
        decreases length - i,
    {
        proof {
            lemma_block_byte_fits(regs@, dest, length as nat, i as nat);
            lemma_block_byte_fits(regs@, src, length as nat, i as nat);
        }
        let v = match load_typed(regs, mem, dev, src + i, false, ValueType::Byte) {
            Access::Done(v) => v,
            Access::Illegal => {
                proof {
                    lemma_blockcopy_stuck(regs@, old(mem)@, dev@, (i + 1) as nat, length as nat, dest, src);
                }
                return (acts, Access::Illegal);
            },
            Access::PageFault(f) => {
                proof {
                    lemma_blockcopy_stuck(regs@, old(mem)@, dev@, (i + 1) as nat, length as nat, dest, src);
                }
                return (acts, Access::PageFault(f));
            },
        };
        let (mut a2, r2) = store_typed(regs, mem, dev, dest + i, v);
        acts.append(&mut a2);
        match r2 {
            Access::Done(_) => {},
            _ => {
                proof {
                    lemma_blockcopy_stuck(regs@, old(mem)@, dev@, (i + 1) as nat, length as nat, dest, src);
                }
                return (acts, r2);
            },
        }
        i = i + 1;
    }
    (acts, Access::Done(()))
}

/// Whether entering an interrupt handler stays below 2^32, as
/// `entry_fits` says.
pub fn check_entry(regs: &Registers) -> (r: bool)
    ensures
        r == entry_fits(regs@),
{
    let k = regs.stack_pointer();
    let kernel = regs.kernel_mode();
    let k0: u32 = if kernel { k } else { regs.kernel_stack_pointer() };
    let k1 = push_address(k0, 2);
    let k2 = push_address(k1, 4);
    let k3 = push_address(k2, 2);
    k1 as u64 + 1 <= 0xFFFF_FFFF && k2 as u64 + 3 <= 0xFFFF_FFFF && k3 as u64 + 1 <= 0xFFFF_FFFF
}

} // verus!
