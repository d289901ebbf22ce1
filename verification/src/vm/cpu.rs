//! The processor's register file, its flags, its integer arithmetic, shifts
//! and rotations, and its interrupt latch.
//!
//! A float register holds its value's bits. Where an operation is illegal
//! (a wrong register, a register of the wrong type, or a privileged
//! register in user mode), it yields `None` or an error, and the processor
//! raises the illegal-operation interrupt.
use vstd::prelude::*;
use vstd::arithmetic::div_mod::{lemma_div_multiples_vanish, lemma_hoist_over_denominator};
use vstd::arithmetic::power2::{lemma2_to64, lemma_pow2_adds, lemma_pow2_strictly_increases, pow2};
use vstd::bits::{lemma_u64_pow2_no_overflow, lemma_u64_shl_is_mul};

verus! {

/// The interrupt of an illegal operation.
pub const INTERRUPT_ILLEGAL_OPERATION: u32 = 0;

/// The interrupt of a division by zero.
pub const INTERRUPT_DIV_BY_0: u32 = 1;

/// The interrupt of a page fault.
pub const INTERRUPT_PAGE_FAULT: u32 = 2;

/// The interrupt of a key press.
pub const INTERRUPT_KEYBOARD: u32 = 3;

/// The interrupt of disk A.
pub const INTERRUPT_DISK_A: u32 = 4;

/// The interrupt of disk B.
pub const INTERRUPT_DISK_B: u32 = 5;

/// The interrupt of the timer.
pub const INTERRUPT_TIMER: u32 = 6;

/// The interrupt of a system call.
pub const INTERRUPT_SYSCALL: u32 = 7;

/// Not an interrupt: the command to stop the processor.
pub const JOIN_THREAD: u32 = 0xFFFF_FFFF;

/// The flag of a zero result.
pub const FLAG_ZERO: u16 = 0x01;

/// The flag of a negative result.
pub const FLAG_NEGATIVE: u16 = 0x02;

/// The flag of an unsigned carry or borrow.
pub const FLAG_CARRY: u16 = 0x04;

/// The flag of a signed overflow.
pub const FLAG_OVERFLOW: u16 = 0x08;

/// The errors of a processor cycle.
#[derive(Debug, Clone, Copy, PartialEq, Eq, Structural)]
pub enum CPUError {
    TryAgainError,
    FatalError,
}

/// The types of value the processor works with.
#[derive(Debug, Clone, Copy, PartialEq, Eq, Structural)]
pub enum ValueType {
    Byte,
    Half,
    Word,
    Float,
}

/// A value of one of the processor's types; a float by its bits.
#[derive(Debug, Clone, Copy, PartialEq, Eq, Structural)]
pub enum TypedValue {
    Byte(u8),
    Half(u16),
    Word(u32),
    Float(u32),
}

impl TypedValue {
    /// The type of the value.
    pub fn value_type(&self) -> (r: ValueType)
        ensures
            r == (match *self {
                TypedValue::Byte(_) => ValueType::Byte,
                TypedValue::Half(_) => ValueType::Half,
                TypedValue::Word(_) => ValueType::Word,
                TypedValue::Float(_) => ValueType::Float,
            }),
    {
        match *self {
            TypedValue::Byte(_) => ValueType::Byte,
            TypedValue::Half(_) => ValueType::Half,
            TypedValue::Word(_) => ValueType::Word,
            TypedValue::Float(_) => ValueType::Float,
        }
    }

    /// The number of bytes the value takes in memory.
    pub fn size_in_bytes(&self) -> (r: u32)
        ensures
            r == (match *self {
                TypedValue::Byte(_) => 1u32,
                TypedValue::Half(_) => 2u32,
                _ => 4u32,
            }),
    {
        match *self {
            TypedValue::Byte(_) => 1,
            TypedValue::Half(_) => 2,
            TypedValue::Word(_) => 4,
            TypedValue::Float(_) => 4,
        }
    }

    /// Whether the value is an integer equal to zero.
    pub fn is_integer_zero(&self) -> (r: bool)
        ensures
            r == (match *self {
                TypedValue::Byte(x) => x == 0,
                TypedValue::Half(x) => x == 0,
                TypedValue::Word(x) => x == 0,
                TypedValue::Float(_) => false,
            }),
    {
        match *self {
            TypedValue::Byte(x) => x == 0,
            TypedValue::Half(x) => x == 0,
            TypedValue::Word(x) => x == 0,
            TypedValue::Float(_) => false,
        }
    }
}

/// The type of the register a reference names: `r0`-`r7` words, their
/// halves and bytes, `f0`-`f7` floats, then FLAGS (half), USPR, KSPR, PDPR
/// (words), IMR (half) and PFSR (word).
pub open spec fn reg_type(reg_ref: u8) -> Option<ValueType> {
    if reg_ref < 0x08 {
        Some(ValueType::Word)
    } else if reg_ref < 0x10 {
        Some(ValueType::Half)
    } else if reg_ref < 0x18 {
        Some(ValueType::Byte)
    } else if reg_ref < 0x20 {
        Some(ValueType::Float)
    } else if reg_ref == 0x20 {
        Some(ValueType::Half)
    } else if reg_ref < 0x24 {
        Some(ValueType::Word)
    } else if reg_ref == 0x24 {
        Some(ValueType::Half)
    } else if reg_ref == 0x25 {
        Some(ValueType::Word)
    } else {
        None
    }
}

/// The type of a register, as `reg_type` says; `None` for a reference that
/// names no register.
pub fn reg_ref_type(reg_ref: u8) -> (r: Option<ValueType>)
    ensures
        r == reg_type(reg_ref),
{
    if reg_ref < 0x08 {
        Some(ValueType::Word)
    } else if reg_ref < 0x10 {
        Some(ValueType::Half)
    } else if reg_ref < 0x18 {
        Some(ValueType::Byte)
    } else if reg_ref < 0x20 {
        Some(ValueType::Float)
    } else if reg_ref == 0x20 {
        Some(ValueType::Half)
    } else if reg_ref < 0x24 {
        Some(ValueType::Word)
    } else if reg_ref == 0x24 {
        Some(ValueType::Half)
    } else if reg_ref == 0x25 {
        Some(ValueType::Word)
    } else {
        None
    }
}

/// The abstract register file.
pub struct RegState {
    pub r: Seq<u32>,
    pub f: Seq<u32>,
    pub flags: u16,
    pub uspr: u32,
    pub kspr: u32,
    pub pdpr: u32,
    pub imr: u16,
    pub kernel_mode: bool,
}

/// The stack pointer of the current mode.
pub open spec fn stack_pointer_spec(s: RegState) -> u32 {
    if s.kernel_mode {
        s.kspr
    } else {
        s.uspr
    }
}

/// The registers with the current mode's stack pointer set to `sp`.
pub open spec fn with_stack_pointer(s: RegState, sp: u32) -> RegState {
    if s.kernel_mode {
        RegState { kspr: sp, ..s }
    } else {
        RegState { uspr: sp, ..s }
    }
}

/// The register file: eight general registers, eight float registers (by
/// their bits), the flags, the user and kernel stack pointers, the page
/// directory pointer, the interrupt mask, and whether in kernel mode.
#[derive(Debug)]
pub struct Registers {
    r: Vec<u32>,
    f: Vec<u32>,
    flags: u16,
    uspr: u32,
    kspr: u32,
    pdpr: u32,
    imr: u16,
    kernel_mode: bool,
}

impl View for Registers {
    type V = RegState;

    closed spec fn view(&self) -> RegState {
        RegState {
            r: self.r@,
            f: self.f@,
            flags: self.flags,
            uspr: self.uspr,
            kspr: self.kspr,
            pdpr: self.pdpr,
            imr: self.imr,
            kernel_mode: self.kernel_mode,
        }
    }
}

/// A register file of eight general and eight float registers.
pub open spec fn regs_ok(s: RegState) -> bool {
    s.r.len() == 8 && s.f.len() == 8
}

/// The register file after writing `value` to the register `reg_ref`:
/// a half or byte writes the low bits of its general register, FLAGS keeps
/// its low fifteen bits, KSPR, PDPR and IMR only in kernel mode; `None`
/// where the write is illegal (no such register, the wrong type, PFSR, or a
/// privileged register in user mode).
pub open spec fn write_spec(s: RegState, reg_ref: u8, value: TypedValue) -> Option<RegState> {
    if reg_ref < 0x08 {
        match value {
            TypedValue::Word(w) => Some(RegState { r: s.r.update(reg_ref as int, w), ..s }),
            _ => None,
        }
    } else if reg_ref < 0x10 {
        let i = (reg_ref - 0x08) as int;
        match value {
            TypedValue::Half(h) => Some(RegState { r: s.r.update(i, (s.r[i] & 0xFFFF0000u32) | (h as u32)), ..s }),
            _ => None,
        }
    } else if reg_ref < 0x18 {
        let i = (reg_ref - 0x10) as int;
        match value {
            TypedValue::Byte(b) => Some(RegState { r: s.r.update(i, (s.r[i] & 0xFFFFFF00u32) | (b as u32)), ..s }),
            _ => None,
        }
    } else if reg_ref < 0x20 {
        match value {
            TypedValue::Float(bits) => Some(RegState { f: s.f.update(reg_ref - 0x18, bits), ..s }),
            _ => None,
        }
    } else if reg_ref == 0x20 {
        match value {
            TypedValue::Half(h) => Some(RegState { flags: h & 0x7FFFu16, ..s }),
            _ => None,
        }
    } else if reg_ref == 0x21 {
        match value {
            TypedValue::Word(w) => Some(RegState { uspr: w, ..s }),
            _ => None,
        }
    } else if reg_ref == 0x22 {
        match value {
            TypedValue::Word(w) => if s.kernel_mode {
                Some(RegState { kspr: w, ..s })
            } else {
                None
            },
            _ => None,
        }
    } else if reg_ref == 0x23 {
        match value {
            TypedValue::Word(w) => if s.kernel_mode {
                Some(RegState { pdpr: w, ..s })
            } else {
                None
            },
            _ => None,
        }
    } else if reg_ref == 0x24 {
        match value {
            TypedValue::Half(h) => if s.kernel_mode {
                Some(RegState { imr: h, ..s })
            } else {
                None
            },
            _ => None,
        }
    } else {
        None
    }
}

/// The value of the register `reg_ref`: a half or byte is the low bits of
/// its general register; KSPR, PDPR, IMR and PFSR (whose value is `pfsr`)
/// only in kernel mode; `None` where the read is illegal.
pub open spec fn read_spec(s: RegState, reg_ref: u8, pfsr: u32) -> Option<TypedValue> {
    if reg_ref < 0x08 {
        Some(TypedValue::Word(s.r[reg_ref as int]))
    } else if reg_ref < 0x10 {
        Some(TypedValue::Half((s.r[reg_ref - 0x08] % 0x10000) as u16))
    } else if reg_ref < 0x18 {
        Some(TypedValue::Byte((s.r[reg_ref - 0x10] % 0x100) as u8))
    } else if reg_ref < 0x20 {
        Some(TypedValue::Float(s.f[reg_ref - 0x18]))
    } else if reg_ref == 0x20 {
        Some(TypedValue::Half(s.flags))
    } else if reg_ref == 0x21 {
        Some(TypedValue::Word(s.uspr))
    } else if 0x22 <= reg_ref <= 0x25 && !s.kernel_mode {
        None
    } else if reg_ref == 0x22 {
        Some(TypedValue::Word(s.kspr))
    } else if reg_ref == 0x23 {
        Some(TypedValue::Word(s.pdpr))
    } else if reg_ref == 0x24 {
        Some(TypedValue::Half(s.imr))
    } else if reg_ref == 0x25 {
        Some(TypedValue::Word(pfsr))
    } else {
        None
    }
}

impl Registers {
    /// The register file at reset: all zero, in kernel mode.
    pub fn new() -> (r: Self)
        ensures
            regs_ok(r@),
            r@.r == Seq::new(8, |i: int| 0u32),
            r@.f == Seq::new(8, |i: int| 0u32),
            r@.flags == 0,
            r@.uspr == 0,
            r@.kspr == 0,
            r@.pdpr == 0,
            r@.imr == 0,
            r@.kernel_mode,
    {
        let r: Vec<u32> = vec![0u32, 0u32, 0u32, 0u32, 0u32, 0u32, 0u32, 0u32];
        let f: Vec<u32> = vec![0u32, 0u32, 0u32, 0u32, 0u32, 0u32, 0u32, 0u32];
        let regs = Registers { r, f, flags: 0, uspr: 0, kspr: 0, pdpr: 0, imr: 0, kernel_mode: true };
        assert(regs@.r =~= Seq::new(8, |i: int| 0u32));
        assert(regs@.f =~= Seq::new(8, |i: int| 0u32));
        regs
    }

    /// The flags.
    pub fn flags(&self) -> (r: u16)
        ensures
            r == self@.flags,
    {
        self.flags
    }

    /// Set the flags.
    pub fn set_flags(&mut self, flags: u16)
        ensures
            final(self)@ == (RegState { flags, ..old(self)@ }),
    {
        self.flags = flags;
    }

    /// Whether in kernel mode.
    pub fn kernel_mode(&self) -> (r: bool)
        ensures
            r == self@.kernel_mode,
    {
        self.kernel_mode
    }

    /// The page directory pointer register.
    pub fn pdpr(&self) -> (r: u32)
        ensures
            r == self@.pdpr,
    {
        self.pdpr
    }

    /// The interrupt mask register.
    pub fn imr(&self) -> (r: u16)
        ensures
            r == self@.imr,
    {
        self.imr
    }

    /// Set the interrupt mask register.
    pub fn set_imr(&mut self, imr: u16)
        ensures
            final(self)@ == (RegState { imr, ..old(self)@ }),
    {
        self.imr = imr;
    }

    /// The kernel stack pointer register.
    pub fn kernel_stack_pointer(&self) -> (r: u32)
        ensures
            r == self@.kspr,
    {
        self.kspr
    }

    /// The stack pointer of the current mode: the kernel's in kernel mode,
    /// else the user's.
    pub fn stack_pointer(&self) -> (r: u32)
        ensures
            r == stack_pointer_spec(self@),
    {
        if self.kernel_mode {
            self.kspr
        } else {
            self.uspr
        }
    }

    /// Set the stack pointer of the current mode.
    pub fn set_stack_pointer(&mut self, sp: u32)
        ensures
            final(self)@ == with_stack_pointer(old(self)@, sp),
    {
        if self.kernel_mode {
            self.kspr = sp;
        } else {
            self.uspr = sp;
        }
    }

    /// Enter or leave kernel mode.
    pub fn set_kernel_mode(&mut self, kernel_mode: bool)
        ensures
            final(self)@ == (RegState { kernel_mode, ..old(self)@ }),
    {
        self.kernel_mode = kernel_mode;
    }

    /// Write a register, as `write_spec` says; an error, and the register
    /// file unchanged, where the write is illegal.
    pub fn write_to_register(&mut self, reg_ref: u8, value: TypedValue) -> (r: Result<(), CPUError>)
        requires
            regs_ok(old(self)@),
        ensures
            match write_spec(old(self)@, reg_ref, value) {
                Some(s) => r is Ok && final(self)@ == s,
                None => r == Err::<(), CPUError>(CPUError::TryAgainError) && final(self)@ == old(self)@,
            },
            regs_ok(final(self)@),
    {
        if reg_ref < 0x08 {
            if let TypedValue::Word(w) = value {
                self.r.set(reg_ref as usize, w);
                return Ok(());
            }
        } else if reg_ref < 0x10 {
            if let TypedValue::Half(h) = value {
                let index = (reg_ref - 0x08) as usize;
                let masked = self.r[index] & 0xFFFF0000u32;
                self.r.set(index, masked | (h as u32));
                return Ok(());
            }
        } else if reg_ref < 0x18 {
            if let TypedValue::Byte(b) = value {
                let index = (reg_ref - 0x10) as usize;
                let masked = self.r[index] & 0xFFFFFF00u32;
                self.r.set(index, masked | (b as u32));
                return Ok(());
            }
        } else if reg_ref < 0x20 {
            if let TypedValue::Float(bits) = value {
                let index = (reg_ref - 0x18) as usize;
                self.f.set(index, bits);
                return Ok(());
            }
        } else if reg_ref == 0x20 {
            if let TypedValue::Half(h) = value {
                self.flags = h & 0x7FFFu16;
                return Ok(());
            }
        } else if reg_ref == 0x21 {
            if let TypedValue::Word(w) = value {
                self.uspr = w;
                return Ok(());
            }
        } else if reg_ref == 0x22 {
            if let TypedValue::Word(w) = value {
                if !self.kernel_mode {
                    return Err(CPUError::TryAgainError);
                }
                self.kspr = w;
                return Ok(());
            }
        } else if reg_ref == 0x23 {
            if let TypedValue::Word(w) = value {
                if !self.kernel_mode {
                    return Err(CPUError::TryAgainError);
                }
                self.pdpr = w;
                return Ok(());
            }
        } else if reg_ref == 0x24 {
            if let TypedValue::Half(h) = value {
                if !self.kernel_mode {
                    return Err(CPUError::TryAgainError);
                }
                self.imr = h;
                return Ok(());
            }
        }
        Err(CPUError::TryAgainError)
    }

    /// Read a register, as `read_spec` says, where PFSR holds `pfsr`; an
    /// error where the read is illegal.
    pub fn read_from_register(&self, reg_ref: u8, pfsr: u32) -> (r: Result<TypedValue, CPUError>)
        requires
            regs_ok(self@),
        ensures
            match read_spec(self@, reg_ref, pfsr) {
                Some(v) => r == Ok::<TypedValue, CPUError>(v),
                None => r == Err::<TypedValue, CPUError>(CPUError::TryAgainError),
            },
    {
        if reg_ref < 0x08 {
            Ok(TypedValue::Word(self.r[reg_ref as usize]))
        } else if reg_ref < 0x10 {
            Ok(TypedValue::Half((self.r[(reg_ref - 0x08) as usize] % 0x10000) as u16))
        } else if reg_ref < 0x18 {
            Ok(TypedValue::Byte((self.r[(reg_ref - 0x10) as usize] % 0x100) as u8))
        } else if reg_ref < 0x20 {
            Ok(TypedValue::Float(self.f[(reg_ref - 0x18) as usize]))
        } else if reg_ref == 0x20 {
            Ok(TypedValue::Half(self.flags))
        } else if reg_ref == 0x21 {
            Ok(TypedValue::Word(self.uspr))
        } else if 0x22 <= reg_ref && reg_ref <= 0x25 && !self.kernel_mode {
            Err(CPUError::TryAgainError)
        } else if reg_ref == 0x22 {
            Ok(TypedValue::Word(self.kspr))
        } else if reg_ref == 0x23 {
            Ok(TypedValue::Word(self.pdpr))
        } else if reg_ref == 0x24 {
            Ok(TypedValue::Half(self.imr))
        } else if reg_ref == 0x25 {
            Ok(TypedValue::Word(pfsr))
        } else {
            Err(CPUError::TryAgainError)
        }
    }
}

/// A write to a general register is read back, in the register's own type.
pub proof fn lemma_write_then_read(s: RegState, reg_ref: u8, w: u32, pfsr: u32)
    requires
        regs_ok(s),
        reg_ref < 0x08,
    ensures
        write_spec(s, reg_ref, TypedValue::Word(w)) matches Some(s2) && read_spec(s2, reg_ref, pfsr) == Some(
            TypedValue::Word(w),
        ),
{
}

/// What is written to a register other than FLAGS is read back.
pub proof fn lemma_read_back(s: RegState, reg_ref: u8, value: TypedValue, pfsr: u32)
    requires
        regs_ok(s),
        reg_ref != 0x20,
        write_spec(s, reg_ref, value) is Some,
    ensures
        read_spec(write_spec(s, reg_ref, value).unwrap(), reg_ref, pfsr) == Some(value),
{
    if 0x08 <= reg_ref < 0x10 {
        let i = (reg_ref - 0x08) as int;
        let x = s.r[i];
        match value {
            TypedValue::Half(h) => {
                assert(((x & 0xFFFF0000u32) | (h as u32)) % 0x10000 == h as u32) by (bit_vector);
            },
            _ => {},
        }
    } else if 0x10 <= reg_ref < 0x18 {
        let i = (reg_ref - 0x10) as int;
        let x = s.r[i];
        match value {
            TypedValue::Byte(b) => {
                assert(((x & 0xFFFFFF00u32) | (b as u32)) % 0x100 == b as u32) by (bit_vector);
            },
            _ => {},
        }
    }
}

/// The number of values of an integer type: 2 to the power of its bits.
pub open spec fn width(ty: ValueType) -> int {
    match ty {
        ValueType::Byte => 0x100,
        ValueType::Half => 0x10000,
        _ => 0x1_0000_0000,
    }
}

/// A value of `m` values read as signed (two's complement).
pub open spec fn signed(m: int, x: int) -> int {
    if x >= m / 2 {
        x - m
    } else {
        x
    }
}

/// The flags of an integer result of a type of `m` values: zero, or
/// negative where its top bit is set; carry; overflow.
pub open spec fn int_flags(m: int, result: int, carry: bool, overflow: bool) -> u16 {
    ((if result == 0 {
        1int
    } else if result >= m / 2 {
        2int
    } else {
        0int
    }) + (if carry {
        4int
    } else {
        0int
    }) + (if overflow {
        8int
    } else {
        0int
    })) as u16
}

/// The flags of an integer result, as `int_flags` says.
pub fn make_flags(ty: ValueType, result: u32, carry: bool, overflow: bool) -> (r: u16)
    requires
        ty != ValueType::Float,
    ensures
        r == int_flags(width(ty), result as int, carry, overflow),
{
    let half: u64 = match ty {
        ValueType::Byte => 0x80,
        ValueType::Half => 0x8000,
        _ => 0x8000_0000,
    };
    let zn: u16 = if result == 0 {
        FLAG_ZERO
    } else if result as u64 >= half {
        FLAG_NEGATIVE
    } else {
        0
    };
    zn + (if carry { FLAG_CARRY } else { 0 }) + (if overflow { FLAG_OVERFLOW } else { 0 })
}

/// Addition of integers of a type of `m` values: the sum modulo `m`, with
/// carry where the unsigned sum does not fit and overflow where the signed
/// sum does not.
pub open spec fn add_spec(m: int, x: int, y: int) -> (int, u16) {
    let sum = x + y;
    let res = if sum >= m {
        sum - m
    } else {
        sum
    };
    let ss = signed(m, x) + signed(m, y);
    (res, int_flags(m, res, sum >= m, ss < -(m / 2) || ss >= m / 2))
}

/// Subtraction of integers of a type of `m` values: the difference modulo
/// `m`, with carry where the unsigned difference is negative (a borrow) and
/// overflow where the signed difference does not fit.
pub open spec fn sub_spec(m: int, x: int, y: int) -> (int, u16) {
    let d = x - y;
    let res = if d < 0 {
        d + m
    } else {
        d
    };
    let sd = signed(m, x) - signed(m, y);
    (res, int_flags(m, res, d < 0, sd < -(m / 2) || sd >= m / 2))
}

/// Add two integers of a type, as `add_spec` says: the result and the
/// flags.
pub fn int_add(ty: ValueType, x: u32, y: u32) -> (r: (u32, u16))
    requires
        ty != ValueType::Float,
        x < width(ty),
        y < width(ty),
    ensures
        (r.0 as int, r.1) == add_spec(width(ty), x as int, y as int),
{
    let m: u64 = match ty {
        ValueType::Byte => 0x100,
        ValueType::Half => 0x10000,
        _ => 0x1_0000_0000,
    };
    let half: i64 = (m / 2) as i64;
    let sum: u64 = x as u64 + y as u64;
    let res: u64 = if sum >= m { sum - m } else { sum };
    let sx: i64 = if x as i64 >= half { x as i64 - m as i64 } else { x as i64 };
    let sy: i64 = if y as i64 >= half { y as i64 - m as i64 } else { y as i64 };
    let ss: i64 = sx + sy;
    let flags = make_flags(ty, res as u32, sum >= m, ss < -half || ss >= half);
    (res as u32, flags)
}

/// Subtract two integers of a type, as `sub_spec` says: the result and the
/// flags. A comparison sets the same flags.
pub fn int_sub(ty: ValueType, x: u32, y: u32) -> (r: (u32, u16))
    requires
        ty != ValueType::Float,
        x < width(ty),
        y < width(ty),
    ensures
        (r.0 as int, r.1) == sub_spec(width(ty), x as int, y as int),
{
    let m: u64 = match ty {
        ValueType::Byte => 0x100,
        ValueType::Half => 0x10000,
        _ => 0x1_0000_0000,
    };
    let half: i64 = (m / 2) as i64;
    let borrow = x < y;
    let res: u64 = if borrow { x as u64 + m - y as u64 } else { x as u64 - y as u64 };
    let sx: i64 = if x as i64 >= half { x as i64 - m as i64 } else { x as i64 };
    let sy: i64 = if y as i64 >= half { y as i64 - m as i64 } else { y as i64 };
    let sd: i64 = sx - sy;
    let flags = make_flags(ty, res as u32, borrow, sd < -half || sd >= half);
    (res as u32, flags)
}

/// Rotate left through the carry: the top bit goes to the carry, the carry
/// comes in at the bottom.
pub open spec fn rcl_spec(m: int, x: int, carry: bool) -> (int, bool) {
    (((2 * x) % m) + (if carry {
        1int
    } else {
        0int
    }), x >= m / 2)
}

/// Rotate right through the carry: the bottom bit goes to the carry, the
/// carry comes in at the top.
pub open spec fn rcr_spec(m: int, x: int, carry: bool) -> (int, bool) {
    ((x / 2) + (if carry {
        m / 2
    } else {
        0int
    }), x % 2 == 1)
}

/// Rotate an integer of a type left through the carry, as `rcl_spec` says.
pub fn rcl(ty: ValueType, x: u32, carry: bool) -> (r: (u32, bool))
    requires
        ty != ValueType::Float,
        x < width(ty),
    ensures
        (r.0 as int, r.1) == rcl_spec(width(ty), x as int, carry),
        r.0 < width(ty),
{
    let m: u64 = match ty {
        ValueType::Byte => 0x100,
        ValueType::Half => 0x10000,
        _ => 0x1_0000_0000,
    };
    let doubled: u64 = (2 * x as u64) % m;
    ((doubled + if carry { 1 } else { 0 }) as u32, x as u64 >= m / 2)
}

/// Rotate an integer of a type right through the carry, as `rcr_spec`
/// says.
pub fn rcr(ty: ValueType, x: u32, carry: bool) -> (r: (u32, bool))
    requires
        ty != ValueType::Float,
        x < width(ty),
    ensures
        (r.0 as int, r.1) == rcr_spec(width(ty), x as int, carry),
        r.0 < width(ty),
{
    let m: u64 = match ty {
        ValueType::Byte => 0x100,
        ValueType::Half => 0x10000,
        _ => 0x1_0000_0000,
    };
    ((x as u64 / 2 + if carry { m / 2 } else { 0 }) as u32, x % 2 == 1)
}

/// The number of bits of an integer type.
pub open spec fn bits(ty: ValueType) -> nat {
    match ty {
        ValueType::Byte => 8,
        ValueType::Half => 16,
        _ => 32,
    }
}

/// Shift left by `n` bits: what passes the top is lost, and the carry tells
/// whether any set bit was lost; by the type's width or more, zero with the
/// carry set.
pub open spec fn lshift_spec(ty: ValueType, x: int, n: nat) -> (int, u16) {
    let m = width(ty);
    if n >= bits(ty) {
        (0, int_flags(m, 0, true, false))
    } else {
        let p = x * (pow2(n) as int);
        (p % m, int_flags(m, p % m, p >= m, false))
    }
}

/// Unsigned shift right by `n` bits: the quotient by `2^n`, with the carry
/// set where a set bit was lost; by the type's width or more, zero with the
/// carry set.
pub open spec fn urshift_spec(ty: ValueType, x: int, n: nat) -> (int, u16) {
    let m = width(ty);
    if n >= bits(ty) {
        (0, int_flags(m, 0, true, false))
    } else {
        let q = x / (pow2(n) as int);
        (q, int_flags(m, q, x % (pow2(n) as int) != 0, false))
    }
}

/// Signed shift right by `n` bits: the signed value divided by `2^n`,
/// rounded down, with the carry set where a set bit was lost; by the type's
/// width or more, all ones for a negative value and zero otherwise, with the
/// carry set.
pub open spec fn srshift_spec(ty: ValueType, x: int, n: nat) -> (int, u16) {
    let m = width(ty);
    if n >= bits(ty) {
        let r = if x >= m / 2 {
            m - 1
        } else {
            0
        };
        (r, int_flags(m, r, true, false))
    } else {
        let q = signed(m, x) / (pow2(n) as int);
        let r = if q < 0 {
            q + m
        } else {
            q
        };
        (r, int_flags(m, r, x % (pow2(n) as int) != 0, false))
    }
}

/// `2^n` for a shift within a word.
fn pow2_u64(n: u8) -> (r: u64)
    requires
        n < 32,
    ensures
        r == pow2(n as nat),
        0 < r <= 0x8000_0000,
{
    proof {
        lemma_u64_pow2_no_overflow(n as nat);
        lemma_u64_shl_is_mul(1, n as u64);
        lemma2_to64();
        if n < 31 {
            lemma_pow2_strictly_increases(n as nat, 31);
        }
    }
    1u64 << (n as u64)
}

/// The number of bits and of values of an integer type.
fn type_size(ty: ValueType) -> (r: (u8, u64))
    requires
        ty != ValueType::Float,
    ensures
        r.0 == bits(ty),
        r.1 == width(ty),
        r.1 == pow2(r.0 as nat),
{
    proof {
        lemma2_to64();
    }
    match ty {
        ValueType::Byte => (8, 0x100),
        ValueType::Half => (16, 0x10000),
        _ => (32, 0x1_0000_0000),
    }
}

/// Shift an integer of a type left, as `lshift_spec` says: the result and
/// the flags.
pub fn int_lshift(ty: ValueType, x: u32, n: u8) -> (r: (u32, u16))
    requires
        ty != ValueType::Float,
        x < width(ty),
    ensures
        (r.0 as int, r.1) == lshift_spec(ty, x as int, n as nat),
{
    let (b, m) = type_size(ty);
    if n >= b {
        (0, make_flags(ty, 0, true, false))
    } else {
        let p = pow2_u64(n);
        assert(x as u64 * p <= 0xFFFF_FFFF * 0x8000_0000) by (nonlinear_arith)
            requires
                x <= 0xFFFF_FFFF,
                p <= 0x8000_0000,
        ;
        let prod: u64 = x as u64 * p;
        let res: u64 = prod % m;
        (res as u32, make_flags(ty, res as u32, prod >= m, false))
    }
}

/// Shift an integer of a type right without sign, as `urshift_spec` says:
/// the result and the flags.
pub fn int_urshift(ty: ValueType, x: u32, n: u8) -> (r: (u32, u16))
    requires
        ty != ValueType::Float,
        x < width(ty),
    ensures
        (r.0 as int, r.1) == urshift_spec(ty, x as int, n as nat),
{
    let (b, m) = type_size(ty);
    if n >= b {
        (0, make_flags(ty, 0, true, false))
    } else {
        let p = pow2_u64(n);
        let q: u64 = x as u64 / p;
        assert(q <= x) by (nonlinear_arith)
            requires
                q == x as u64 / p,
                p > 0,
        ;
        (q as u32, make_flags(ty, q as u32, x as u64 % p != 0, false))
    }
}

/// Shift an integer of a type right keeping its sign, as `srshift_spec`
/// says: the result and the flags.
pub fn int_srshift(ty: ValueType, x: u32, n: u8) -> (r: (u32, u16))
    requires
        ty != ValueType::Float,
        x < width(ty),
    ensures
        (r.0 as int, r.1) == srshift_spec(ty, x as int, n as nat),
{
    let (b, m) = type_size(ty);
    let negative = x as u64 >= m / 2;
    if n >= b {
        let r: u64 = if negative { m - 1 } else { 0 };
        (r as u32, make_flags(ty, r as u32, true, false))
    } else {
        let p = pow2_u64(n);
        let q: u64 = x as u64 / p;
        let mp: u64 = m / p;
        let ghost k: nat = pow2((b - n) as nat);
        proof {
            lemma_pow2_strictly_increases(n as nat, b as nat);
            lemma_pow2_adds(n as nat, (b - n) as nat);
            assert(m == p * k);
            lemma_div_multiples_vanish(k as int, p as int);
            vstd::arithmetic::mul::lemma_mul_is_commutative(k as int, p as int);
            assert(mp == k);
            assert(q <= x) by (nonlinear_arith)
                requires
                    q == x as u64 / p,
                    p > 0,
            ;
            assert(mp >= 1) by (nonlinear_arith)
                requires
                    mp == m / p,
                    p <= m,
                    p > 0,
            ;
        }
        let res: u64 = if negative {
            proof {
                lemma_hoist_over_denominator(x as int, -(k as int), p as nat);
                assert((x as int) + (-(k as int)) * p == x - m) by (nonlinear_arith)
                    requires
                        m == p * k,
                ;
                assert(q < mp) by (nonlinear_arith)
                    requires
                        q == x as u64 / p,
                        x < m,
                        m == p * mp,
                        p > 0,
                ;
            }
            q + m - mp
        } else {
            q
        };
        (res as u32, make_flags(ty, res as u32, x as u64 % p != 0, false))
    }
}

/// The flags word that entering an interrupt handler pushes: the flags,
/// with bit 15 set where the processor was in kernel mode.
pub open spec fn pushed_flags_spec(flags: u16, kernel_mode: bool) -> u16 {
    if kernel_mode {
        (flags as int + 0x8000) as u16
    } else {
        flags
    }
}

/// The flags word to push on entering an interrupt handler, as
/// `pushed_flags_spec` says. The flags register holds fifteen bits.
pub fn pushed_flags(flags: u16, kernel_mode: bool) -> (r: u16)
    requires
        flags < 0x8000,
    ensures
        r == pushed_flags_spec(flags, kernel_mode),
{
    assert(flags < 0x8000 ==> (flags | 0x8000u16) == flags + 0x8000) by (bit_vector);
    if kernel_mode {
        flags | 0x8000
    } else {
        flags
    }
}

/// What returning from an interrupt makes of the popped flags word: the
/// processor stays in kernel mode where bit 15 is set and enters user mode
/// otherwise, and the flags are the low fifteen bits.
pub fn returned_state(popped: u16) -> (r: (bool, u16))
    ensures
        r.0 == (popped >= 0x8000),
        r.1 == popped % 0x8000,
{
    assert((popped & 0x8000u16) == 0 <==> popped < 0x8000) by (bit_vector);
    assert((popped & 0x7FFFu16) == popped % 0x8000) by (bit_vector);
    ((popped & 0x8000) != 0, popped & 0x7FFF)
}

/// Returning from an interrupt restores the mode and the flags that
/// entering it saved.
pub proof fn lemma_interrupt_round_trip(flags: u16, kernel_mode: bool)
    requires
        flags < 0x8000,
    ensures
        (pushed_flags_spec(flags, kernel_mode) >= 0x8000) == kernel_mode,
        pushed_flags_spec(flags, kernel_mode) % 0x8000 == flags,
{
}

/// The stack pointer after pushing a value of `size` bytes: moved down,
/// wrapping around the address space.
pub fn push_address(sp: u32, size: u32) -> (r: u32)
    ensures
        r == (sp as int - size as int) % 0x1_0000_0000,
{
    sp.wrapping_sub(size)
}

/// The stack pointer after popping a value of `size` bytes: moved up,
/// wrapping around the address space.
pub fn pop_address(sp: u32, size: u32) -> (r: u32)
    ensures
        r == (sp as int + size as int) % 0x1_0000_0000,
{
    sp.wrapping_add(size)
}

/// Popping a value of the size just pushed puts the stack pointer back.
pub proof fn lemma_push_pop(sp: u32, size: u32)
    ensures
        ((((sp as int - size as int) % 0x1_0000_0000) + size as int) % 0x1_0000_0000) == sp,
{
}

/// The conditions of the conditional jumps.
#[derive(Debug, Clone, Copy, PartialEq, Eq, Structural)]
pub enum Condition {
    Equal,
    NotEqual,
    SignedGreater,
    SignedGreaterEq,
    UnsignedGreater,
    UnsignedGreaterEq,
    SignedLesser,
    SignedLesserEq,
    UnsignedLesser,
    UnsignedLesserEq,
}

/// Whether bit `k` (0 to 3) of the flags is set.
pub open spec fn flag_bit(flags: u16, k: nat) -> bool {
    (flags as int / (if k == 0 {
        1int
    } else if k == 1 {
        2int
    } else if k == 2 {
        4int
    } else {
        8int
    })) % 2 == 1
}

/// Whether a condition holds of the flags: zero is bit 0, negative bit 1,
/// carry bit 2 and overflow bit 3.
pub open spec fn condition_holds(c: Condition, flags: u16) -> bool {
    let z = flag_bit(flags, 0);
    let n = flag_bit(flags, 1);
    let cy = flag_bit(flags, 2);
    let v = flag_bit(flags, 3);
    match c {
        Condition::Equal => z,
        Condition::NotEqual => !z,
        Condition::SignedGreater => !z && n == v,
        Condition::SignedGreaterEq => z || n == v,
        Condition::UnsignedGreater => !cy && !z,
        Condition::UnsignedGreaterEq => !cy || z,
        Condition::SignedLesser => n != v,
        Condition::SignedLesserEq => z || n != v,
        Condition::UnsignedLesser => cy,
        Condition::UnsignedLesserEq => cy || z,
    }
}

/// Whether a conditional jump is taken with the given flags, as
/// `condition_holds` says.
pub fn jump_condition(c: Condition, flags: u16) -> (r: bool)
    ensures
        r == condition_holds(c, flags),
{
    assert((flags & FLAG_ZERO != 0) == ((flags / 1) % 2 == 1)) by (bit_vector);
    assert((flags & FLAG_NEGATIVE != 0) == ((flags / 2) % 2 == 1)) by (bit_vector);
    assert((flags & FLAG_CARRY != 0) == ((flags / 4) % 2 == 1)) by (bit_vector);
    assert((flags & FLAG_OVERFLOW != 0) == ((flags / 8) % 2 == 1)) by (bit_vector);
    let z = flags & FLAG_ZERO != 0;
    let n = flags & FLAG_NEGATIVE != 0;
    let cy = flags & FLAG_CARRY != 0;
    let v = flags & FLAG_OVERFLOW != 0;
    match c {
        Condition::Equal => z,
        Condition::NotEqual => !z,
        Condition::SignedGreater => !z && n == v,
        Condition::SignedGreaterEq => z || n == v,
        Condition::UnsignedGreater => !cy && !z,
        Condition::UnsignedGreaterEq => !cy || z,
        Condition::SignedLesser => n != v,
        Condition::SignedLesserEq => z || n != v,
        Condition::UnsignedLesser => cy,
        Condition::UnsignedLesserEq => cy || z,
    }
}

/// After a comparison of `x` with `y` (the flags of `x - y`), each
/// conditional jump is taken exactly when its comparison holds of the two
/// values: unsigned for the unsigned jumps, signed (two's complement) for
/// the signed ones.
pub proof fn lemma_compare_then_jump(ty: ValueType, x: int, y: int)
    requires
        ty != ValueType::Float,
        0 <= x < width(ty),
        0 <= y < width(ty),
    ensures
        ({
            let m = width(ty);
            let f = sub_spec(m, x, y).1;
            let sx = signed(m, x);
            let sy = signed(m, y);
            &&& condition_holds(Condition::Equal, f) == (x == y)
            &&& condition_holds(Condition::NotEqual, f) == (x != y)
            &&& condition_holds(Condition::UnsignedGreater, f) == (x > y)
            &&& condition_holds(Condition::UnsignedGreaterEq, f) == (x >= y)
            &&& condition_holds(Condition::UnsignedLesser, f) == (x < y)
            &&& condition_holds(Condition::UnsignedLesserEq, f) == (x <= y)
            &&& condition_holds(Condition::SignedGreater, f) == (sx > sy)
            &&& condition_holds(Condition::SignedGreaterEq, f) == (sx >= sy)
            &&& condition_holds(Condition::SignedLesser, f) == (sx < sy)
            &&& condition_holds(Condition::SignedLesserEq, f) == (sx <= sy)
        }),
{
    let m = width(ty);
    let d = x - y;
    let res = if d < 0 {
        d + m
    } else {
        d
    };
    let sd = signed(m, x) - signed(m, y);
    let z = res == 0;
    let n = res != 0 && res >= m / 2;
    let cy = d < 0;
    let v = sd < -(m / 2) || sd >= m / 2;
    let f = sub_spec(m, x, y).1;
    let total: int = (if z {
        1int
    } else if n {
        2int
    } else {
        0int
    }) + (if cy {
        4int
    } else {
        0int
    }) + (if v {
        8int
    } else {
        0int
    });
    assert(f as int == total);
    assert(flag_bit(f, 0) == z);
    assert(flag_bit(f, 1) == n);
    assert(flag_bit(f, 2) == cy);
    assert(flag_bit(f, 3) == v);
}

/// Compare two blocks of bytes, first byte first: the flags that the
/// comparison sets are zero where they are equal, none where the first is
/// greater at the first difference and negative where it is smaller.
pub open spec fn block_compare_spec(a: Seq<u8>, b: Seq<u8>) -> u16
    decreases a.len(),
{
    if a.len() == 0 || b.len() == 0 {
        FLAG_ZERO
    } else if a[0] > b[0] {
        0
    } else if b[0] > a[0] {
        FLAG_NEGATIVE
    } else {
        block_compare_spec(a.drop_first(), b.drop_first())
    }
}

/// The flags of comparing two blocks of equal length, as
/// `block_compare_spec` says.
pub fn block_compare(a: &[u8], b: &[u8]) -> (r: u16)
    requires
        a@.len() == b@.len(),
    ensures
        r == block_compare_spec(a@, b@),
{
    let mut i: usize = 0;
    assert(a@.skip(0) =~= a@);
    assert(b@.skip(0) =~= b@);
    while i < a.len()
        invariant
            i <= a@.len(),
            a@.len() == b@.len(),
            block_compare_spec(a@, b@) == block_compare_spec(a@.skip(i as int), b@.skip(i as int)),
        decreases a@.len() - i,
    {
        let x = a[i];
        let y = b[i];
        assert(a@.skip(i as int).drop_first() =~= a@.skip(i + 1));
        assert(b@.skip(i as int).drop_first() =~= b@.skip(i + 1));
        if x > y {
            return 0;
        } else if y > x {
            return FLAG_NEGATIVE;
        }
        i = i + 1;
    }
    FLAG_ZERO
}

/// The interrupts held back while masked: one flag for each of the eight.
#[derive(Debug)]
pub struct InterruptLatch {
    latched: Vec<bool>,
}

/// Whether the interrupt mask enables interrupt `i`.
pub open spec fn enabled(imr: u16, i: u32) -> bool {
    (imr >> i) % 2 == 1
}

impl View for InterruptLatch {
    type V = Seq<bool>;

    closed spec fn view(&self) -> Seq<bool> {
        self.latched@
    }
}

impl InterruptLatch {
    /// A latch with nothing latched.
    pub fn new() -> (r: Self)
        ensures
            r@ == Seq::new(8, |i: int| false),
    {
        let l = InterruptLatch { latched: vec![false, false, false, false, false, false, false, false] };
        assert(l@ =~= Seq::new(8, |i: int| false));
        l
    }

    /// Take the lowest latched interrupt that the mask enables, unlatching
    /// it; `None` where there is none.
    pub fn take_latched(&mut self, imr: u16) -> (r: Option<u32>)
        requires
            old(self)@.len() == 8,
        ensures
            match r {
                Some(i) => i < 8 && old(self)@[i as int] && enabled(imr, i) && (forall|j: int|
                    0 <= j < i ==> !(#[trigger] old(self)@[j] && enabled(imr, j as u32))) && final(self)@
                    == old(self)@.update(i as int, false),
                None => (forall|j: int| 0 <= j < 8 ==> !(#[trigger] old(self)@[j] && enabled(imr, j as u32)))
                    && final(self)@ == old(self)@,
            },
    {
        let mut i: u32 = 0;
        while i < 8
            invariant
                i <= 8,
                self@ == old(self)@,
                self@.len() == 8,
                forall|j: int| 0 <= j < i ==> !(#[trigger] self@[j] && enabled(imr, j as u32)),
            decreases 8 - i,
        {
            if self.latched[i as usize] && (imr >> i) % 2 == 1 {
                self.latched.set(i as usize, false);
                return Some(i);
            }
            i = i + 1;
        }
        None
    }

    /// Offer an interrupt that arrived: the stop command or an enabled
    /// interrupt is to be handled now (`true`); a masked one is latched.
    pub fn offer(&mut self, interrupt: u32, imr: u16) -> (r: bool)
        requires
            old(self)@.len() == 8,
            interrupt == JOIN_THREAD || interrupt < 8,
        ensures
            r == (interrupt == JOIN_THREAD || enabled(imr, interrupt)),
            r ==> final(self)@ == old(self)@,
            !r ==> final(self)@ == old(self)@.update(interrupt as int, true),
            final(self)@.len() == 8,
    {
        if interrupt == JOIN_THREAD || (imr >> interrupt) % 2 == 1 {
            true
        } else {
            self.latched.set(interrupt as usize, true);
            false
        }
    }
}

} // verus!
