//! The processor's integer instructions beyond addition, subtraction and
//! shifts: addition and subtraction with the carry, multiplication,
//! division and remainder, the bitwise operations, negation and rotations.
//!
//! Each takes the register's value and the operand, both of the register's
//! type, and gives the result and the flags that the instruction sets.
use vstd::prelude::*;
use vstd::arithmetic::div_mod::{
    lemma_fundamental_div_mod, lemma_mod_mod, lemma_mod_multiples_basic, lemma_mod_pos_bound,
    lemma_multiply_divide_lt,
};
use vstd::arithmetic::mul::{lemma_mul_inequality, lemma_mul_is_commutative};
use vstd::arithmetic::power2::{lemma2_to64, lemma_pow2_adds, lemma_pow2_strictly_increases, pow2};
use crate::vm::cpu::{
    add_spec, bits, flag_bit, int_add, int_flags, int_lshift, int_srshift, int_sub, int_urshift, lshift_spec,
    make_flags, rcl, rcl_spec, rcr, rcr_spec, read_spec, reg_type, regs_ok, signed, srshift_spec, sub_spec,
    urshift_spec, width, write_spec, RegState, Registers, TypedValue, ValueType, FLAG_CARRY,
    INTERRUPT_DIV_BY_0, INTERRUPT_ILLEGAL_OPERATION,
};

verus! {

/// Add with the carry: the operand plus one where the carry is set. The
/// operand is incremented in its own type first, so the inputs where a set
/// carry meets the largest operand are left out.
pub fn int_addcarry(ty: ValueType, x: u32, y: u32, carry: bool) -> (r: (u32, u16))
    requires
        ty != ValueType::Float,
        x < width(ty),
        y < width(ty),
        !(carry && y == width(ty) - 1),
    ensures
        (r.0 as int, r.1) == add_spec(width(ty), x as int, y + (if carry {
            1int
        } else {
            0int
        })),
{
    let y1 = if carry { y + 1 } else { y };
    int_add(ty, x, y1)
}

/// Subtract with the borrow: the operand plus one where the carry is set.
/// The inputs where a set carry meets the largest operand are left out.
pub fn int_subborrow(ty: ValueType, x: u32, y: u32, carry: bool) -> (r: (u32, u16))
    requires
        ty != ValueType::Float,
        x < width(ty),
        y < width(ty),
        !(carry && y == width(ty) - 1),
    ensures
        (r.0 as int, r.1) == sub_spec(width(ty), x as int, y + (if carry {
            1int
        } else {
            0int
        })),
{
    let y1 = if carry { y + 1 } else { y };
    int_sub(ty, x, y1)
}

/// The number of values of a type, for execution.
fn modulus(ty: ValueType) -> (r: u64)
    requires
        ty != ValueType::Float,
    ensures
        r == width(ty),
{
    match ty {
        ValueType::Byte => 0x100,
        ValueType::Half => 0x10000,
        _ => 0x1_0000_0000,
    }
}

/// Multiplication: the product modulo `m`, with carry where the unsigned
/// product does not fit and overflow where the signed product does not.
pub open spec fn mul_spec(m: int, x: int, y: int) -> (int, u16) {
    let p = x * y;
    let res = p % m;
    let sp = signed(m, x) * signed(m, y);
    (res, int_flags(m, res, p >= m, sp < -(m / 2) || sp >= m / 2))
}

/// Multiply two integers of a type, as `mul_spec` says.
pub fn int_mul(ty: ValueType, x: u32, y: u32) -> (r: (u32, u16))
    requires
        ty != ValueType::Float,
        x < width(ty),
        y < width(ty),
    ensures
        (r.0 as int, r.1) == mul_spec(width(ty), x as int, y as int),
{
    let m = modulus(ty);
    let half: i64 = (m / 2) as i64;
    assert(x as u64 * y as u64 <= 0xFFFF_FFFF * 0xFFFF_FFFF) by (nonlinear_arith)
        requires
            x <= 0xFFFF_FFFF,
            y <= 0xFFFF_FFFF,
    ;
    let p: u64 = x as u64 * y as u64;
    let res: u64 = p % m;
    let sx: i64 = if x as i64 >= half { x as i64 - m as i64 } else { x as i64 };
    let sy: i64 = if y as i64 >= half { y as i64 - m as i64 } else { y as i64 };
    assert(-0x8000_0000 <= sx <= 0x8000_0000 && -0x8000_0000 <= sy <= 0x8000_0000);
    assert(-0x4000_0000_0000_0000 <= sx * sy <= 0x4000_0000_0000_0000) by (nonlinear_arith)
        requires
            -0x8000_0000 <= sx <= 0x8000_0000,
            -0x8000_0000 <= sy <= 0x8000_0000,
    ;
    let sp: i64 = sx * sy;
    let flags = make_flags(ty, res as u32, p >= m, sp < -half || sp >= half);
    (res as u32, flags)
}

/// Division of integers rounding towards zero.
pub open spec fn tdiv(a: int, b: int) -> int {
    let q = (if a < 0 {
        -a
    } else {
        a
    }) / (if b < 0 {
        -b
    } else {
        b
    });
    if (a < 0) == (b < 0) {
        q
    } else {
        -q
    }
}

/// The remainder of `tdiv`: it has the sign of the dividend.
pub open spec fn trem(a: int, b: int) -> int {
    a - b * tdiv(a, b)
}

/// A signed result of a type of `m` values, as its unsigned bits.
pub open spec fn wrap(m: int, v: int) -> int {
    if v < 0 {
        v + m
    } else {
        v
    }
}

/// Signed division: the quotient of the signed values rounded towards
/// zero, with overflow for the one quotient that does not fit (the most
/// negative value divided by minus one, which gives the most negative
/// value back).
pub open spec fn sdiv_spec(m: int, x: int, y: int) -> (int, u16) {
    let q = tdiv(signed(m, x), signed(m, y));
    let res = if q >= m / 2 {
        q
    } else {
        wrap(m, q)
    };
    (res, int_flags(m, res, false, q >= m / 2))
}

/// Signed remainder: the remainder of `tdiv`, with overflow where the
/// most negative value is divided by minus one (the remainder is zero).
pub open spec fn srem_spec(m: int, x: int, y: int) -> (int, u16) {
    let r = trem(signed(m, x), signed(m, y));
    let res = wrap(m, r);
    (res, int_flags(m, res, false, x == m / 2 && y == m - 1))
}

/// Unsigned division: the quotient, with no carry or overflow.
pub open spec fn udiv_spec(m: int, x: int, y: int) -> (int, u16) {
    (x / y, int_flags(m, x / y, false, false))
}

/// Unsigned remainder, with no carry or overflow.
pub open spec fn urem_spec(m: int, x: int, y: int) -> (int, u16) {
    (x % y, int_flags(m, x % y, false, false))
}

/// The magnitude and the sign of a value of a type read as signed.
fn magnitude(m: u64, x: u32) -> (r: (u64, bool))
    requires
        m == 0x100 || m == 0x10000 || m == 0x1_0000_0000,
        x < m,
    ensures
        r.1 == (signed(m as int, x as int) < 0),
        r.0 == (if r.1 {
            -signed(m as int, x as int)
        } else {
            signed(m as int, x as int)
        }),
{
    if x as u64 >= m / 2 {
        (m - x as u64, true)
    } else {
        (x as u64, false)
    }
}

/// Divide two integers of a type as signed, as `sdiv_spec` says. A zero
/// divisor raises the division-by-zero interrupt instead, so it is left
/// out.
pub fn int_sdiv(ty: ValueType, x: u32, y: u32) -> (r: (u32, u16))
    requires
        ty != ValueType::Float,
        x < width(ty),
        y < width(ty),
        y != 0,
    ensures
        (r.0 as int, r.1) == sdiv_spec(width(ty), x as int, y as int),
{
    let m = modulus(ty);
    let (ax, nx) = magnitude(m, x);
    let (ay, ny) = magnitude(m, y);
    let q: u64 = ax / ay;
    assert(q <= ax) by (nonlinear_arith)
        requires
            q == ax / ay,
            ay > 0,
    ;
    let overflow = nx == ny && q >= m / 2;
    let res: u64 = if nx == ny {
        q
    } else if q == 0 {
        0
    } else {
        m - q
    };
    let flags = make_flags(ty, res as u32, false, overflow);
    (res as u32, flags)
}

/// The remainder of dividing two integers of a type as signed, as
/// `srem_spec` says. A zero divisor is left out, as for `int_sdiv`.
pub fn int_srem(ty: ValueType, x: u32, y: u32) -> (r: (u32, u16))
    requires
        ty != ValueType::Float,
        x < width(ty),
        y < width(ty),
        y != 0,
    ensures
        (r.0 as int, r.1) == srem_spec(width(ty), x as int, y as int),
{
    let m = modulus(ty);
    let (ax, nx) = magnitude(m, x);
    let (ay, ny) = magnitude(m, y);
    let rem: u64 = ax % ay;
    let q: u64 = ax / ay;
    proof {
        let sx = signed(m as int, x as int);
        let sy = signed(m as int, y as int);
        let t = tdiv(sx, sy);
        assert(ax == ay * q + rem && rem < ay) by (nonlinear_arith)
            requires
                q == ax / ay,
                rem == ax % ay,
                ay > 0,
        ;
        assert(nx == ny ==> t == q as int);
        assert(nx != ny ==> t == -(q as int));
        assert(sx - sy * t == (if nx {
            -(rem as int)
        } else {
            rem as int
        })) by (nonlinear_arith)
            requires
                ax == ay * q + rem,
                nx == (sx < 0),
                ny == (sy < 0),
                ax == (if nx {
                    -sx
                } else {
                    sx
                }),
                ay == (if ny {
                    -sy
                } else {
                    sy
                }),
                nx == ny ==> t == q,
                nx != ny ==> t == -q,
        ;
    }
    let res: u64 = if nx && rem != 0 { m - rem } else { rem };
    assert(rem < m) by (nonlinear_arith)
        requires
            rem == ax % ay,
            ay > 0,
            ay <= m,
    ;
    let flags = make_flags(ty, res as u32, false, x as u64 == m / 2 && y as u64 == m - 1);
    (res as u32, flags)
}

/// Divide two integers of a type without sign, as `udiv_spec` says. A zero
/// divisor is left out, as for `int_sdiv`.
pub fn int_udiv(ty: ValueType, x: u32, y: u32) -> (r: (u32, u16))
    requires
        ty != ValueType::Float,
        x < width(ty),
        y < width(ty),
        y != 0,
    ensures
        (r.0 as int, r.1) == udiv_spec(width(ty), x as int, y as int),
{
    let q = x / y;
    assert(q <= x) by (nonlinear_arith)
        requires
            q == x / y,
            y > 0,
    ;
    (q, make_flags(ty, q, false, false))
}

/// The remainder of dividing two integers of a type without sign, as
/// `urem_spec` says. A zero divisor is left out, as for `int_sdiv`.
pub fn int_urem(ty: ValueType, x: u32, y: u32) -> (r: (u32, u16))
    requires
        ty != ValueType::Float,
        x < width(ty),
        y < width(ty),
        y != 0,
    ensures
        (r.0 as int, r.1) == urem_spec(width(ty), x as int, y as int),
{
    let q = x % y;
    assert(q < y) by (nonlinear_arith)
        requires
            q == x % y,
            y > 0,
    ;
    (q, make_flags(ty, q, false, false))
}


/// The bitwise operations.
#[derive(Debug, Clone, Copy, PartialEq, Eq, Structural)]
pub enum BitOp {
    And,
    Or,
    Xor,
}

/// A bitwise operation on two values.
pub open spec fn bitop_spec(op: BitOp, x: u32, y: u32) -> u32 {
    match op {
        BitOp::And => x & y,
        BitOp::Or => x | y,
        BitOp::Xor => x ^ y,
    }
}

/// Apply a bitwise operation to two integers of a type: the result, with
/// the zero and negative flags only.
pub fn int_bitop(ty: ValueType, op: BitOp, x: u32, y: u32) -> (r: (u32, u16))
    requires
        ty != ValueType::Float,
        x < width(ty),
        y < width(ty),
    ensures
        r.0 == bitop_spec(op, x, y),
        r.1 == int_flags(width(ty), r.0 as int, false, false),
{
    let v = match op {
        BitOp::And => x & y,
        BitOp::Or => x | y,
        BitOp::Xor => x ^ y,
    };
    assert(x < 0x100 && y < 0x100 ==> (x & y) < 0x100 && (x | y) < 0x100 && (x ^ y) < 0x100) by (bit_vector);
    assert(x < 0x10000 && y < 0x10000 ==> (x & y) < 0x10000 && (x | y) < 0x10000 && (x ^ y) < 0x10000)
        by (bit_vector);
    (v, make_flags(ty, v, false, false))
}

/// Bitwise not of an integer of a type of `m` values: `m - 1 - x`, with
/// the zero and negative flags only.
pub open spec fn not_spec(m: int, x: int) -> (int, u16) {
    (m - 1 - x, int_flags(m, m - 1 - x, false, false))
}

/// Bitwise not of an integer of a type, as `not_spec` says.
pub fn int_not(ty: ValueType, x: u32) -> (r: (u32, u16))
    requires
        ty != ValueType::Float,
        x < width(ty),
    ensures
        (r.0 as int, r.1) == not_spec(width(ty), x as int),
{
    let m = modulus(ty);
    let v = (m - 1 - x as u64) as u32;
    (v, make_flags(ty, v, false, false))
}

/// Negate an integer of a type: its two's complement, `m - x` modulo `m`.
/// Negating the most negative value overflows, so it is left out; negation
/// sets no flags.
pub fn int_negate(ty: ValueType, x: u32) -> (r: u32)
    requires
        ty != ValueType::Float,
        x < width(ty),
        x != width(ty) / 2,
    ensures
        r == (width(ty) - x) % width(ty),
{
    let m = modulus(ty);
    if x == 0 {
        0
    } else {
        (m - x as u64) as u32
    }
}

/// Rotate left by `n` bits (taken modulo the type's bits): the bits that
/// leave the top come in at the bottom; the zero and negative flags only.
pub open spec fn lrot_spec(ty: ValueType, x: int, n: nat) -> (int, u16) {
    let m = width(ty);
    let k = n % bits(ty);
    let res = (x * pow2(k) as int) % m + x / pow2((bits(ty) - k) as nat) as int;
    (res, int_flags(m, res, false, false))
}

/// Rotate right by `n` bits (taken modulo the type's bits): the bits that
/// leave the bottom come in at the top; the zero and negative flags only.
pub open spec fn rrot_spec(ty: ValueType, x: int, n: nat) -> (int, u16) {
    let m = width(ty);
    let k = n % bits(ty);
    let res = x / pow2(k) as int + (x * pow2((bits(ty) - k) as nat) as int) % m;
    (res, int_flags(m, res, false, false))
}

/// `2^n` for `n` up to 32.
fn pow2_upto32(n: u64) -> (r: u64)
    requires
        n <= 32,
    ensures
        r == pow2(n as nat),
        0 < r <= 0x1_0000_0000,
{
    let mut p: u64 = 1;
    let mut i: u64 = 0;
    proof {
        lemma2_to64();
    }
    while i < n
        invariant
            i <= n <= 32,
            p == pow2(i as nat),
            0 < p <= 0x1_0000_0000,
            p <= pow2(32),
        decreases n - i,
    {
        proof {
            lemma_pow2_adds(i as nat, 1);
            lemma2_to64();
            if i + 1 < 32 {
                lemma_pow2_strictly_increases((i + 1) as nat, 32);
            }
        }
        p = p * 2;
        i = i + 1;
    }
    p
}

/// The bits of a split rotation: the low part shifted up and the high
/// part shifted down fit side by side.
proof fn lemma_rotate_parts(x: int, m: int, a: int, b: int)
    requires
        0 <= x < m,
        a > 0,
        b > 0,
        m == a * b,
    ensures
        (x * a) % m + x / b < m,
{
    let r = (x * a) % m;
    lemma_mod_mod(x * a, a, b);
    lemma_mod_multiples_basic(x, a);
    assert(r % a == 0);
    lemma_mod_pos_bound(x * a, m);
    lemma_fundamental_div_mod(r, a);
    let t = r / a;
    assert(r == a * t);
    lemma_multiply_divide_lt(r, a, b);
    assert(t <= b - 1);
    lemma_mul_inequality(t, b - 1, a);
    lemma_mul_is_commutative(t, a);
    lemma_mul_is_commutative(b - 1, a);
    assert(a * (b - 1) == m - a) by (nonlinear_arith)
        requires
            m == a * b,
    ;
    lemma_mul_is_commutative(a, b);
    assert(x < b * a);
    lemma_multiply_divide_lt(x, b, a);
}

/// Rotate an integer of a type left, as `lrot_spec` says.
pub fn int_lrot(ty: ValueType, x: u32, n: u8) -> (r: (u32, u16))
    requires
        ty != ValueType::Float,
        x < width(ty),
    ensures
        (r.0 as int, r.1) == lrot_spec(ty, x as int, n as nat),
{
    let m = modulus(ty);
    let b: u64 = match ty {
        ValueType::Byte => 8,
        ValueType::Half => 16,
        _ => 32,
    };
    let k: u64 = n as u64 % b;
    let up = pow2_upto32(k);
    let down = pow2_upto32(b - k);
    proof {
        lemma2_to64();
        lemma_pow2_adds(k as nat, (b - k) as nat);
        assert(m == up * down);
        lemma_rotate_parts(x as int, m as int, up as int, down as int);
    }
    assert(x as u64 * up <= 0xFFFF_FFFF * 0x1_0000_0000) by (nonlinear_arith)
        requires
            x <= 0xFFFF_FFFF,
            up <= 0x1_0000_0000,
    ;
    let res: u64 = (x as u64 * up) % m + x as u64 / down;
    (res as u32, make_flags(ty, res as u32, false, false))
}

/// Rotate an integer of a type right, as `rrot_spec` says.
pub fn int_rrot(ty: ValueType, x: u32, n: u8) -> (r: (u32, u16))
    requires
        ty != ValueType::Float,
        x < width(ty),
    ensures
        (r.0 as int, r.1) == rrot_spec(ty, x as int, n as nat),
{
    let m = modulus(ty);
    let b: u64 = match ty {
        ValueType::Byte => 8,
        ValueType::Half => 16,
        _ => 32,
    };
    let k: u64 = n as u64 % b;
    let down = pow2_upto32(k);
    let up = pow2_upto32(b - k);
    proof {
        lemma2_to64();
        lemma_pow2_adds(k as nat, (b - k) as nat);
        lemma_mul_is_commutative(up as int, down as int);
        assert(m == up * down);
        lemma_rotate_parts(x as int, m as int, up as int, down as int);
    }
    assert(x as u64 * up <= 0xFFFF_FFFF * 0x1_0000_0000) by (nonlinear_arith)
        requires
            x <= 0xFFFF_FFFF,
            up <= 0x1_0000_0000,
    ;
    let res: u64 = x as u64 / down + (x as u64 * up) % m;
    (res as u32, make_flags(ty, res as u32, false, false))
}

/// Rotate through the carry `n` times, leftwards or rightwards.
pub open spec fn rotc_times(m: int, x: int, carry: bool, n: nat, left: bool) -> (int, bool)
    decreases n,
{
    if n == 0 {
        (x, carry)
    } else {
        let (y, c) = if left {
            rcl_spec(m, x, carry)
        } else {
            rcr_spec(m, x, carry)
        };
        rotc_times(m, y, c, (n - 1) as nat, left)
    }
}

/// Rotate an integer of a type through the carry `n` times: the result and
/// the flags, whose carry is the final carry.
pub fn int_rotate_carry(ty: ValueType, x: u32, carry: bool, n: u8, left: bool) -> (r: (u32, u16))
    requires
        ty != ValueType::Float,
        x < width(ty),
    ensures
        ({
            let (v, c) = rotc_times(width(ty), x as int, carry, n as nat, left);
            r.0 == v && r.1 == int_flags(width(ty), v, c, false)
        }),
{
    let mut v = x;
    let mut c = carry;
    let mut i: u8 = 0;
    while i < n
        invariant
            i <= n,
            ty != ValueType::Float,
            v < width(ty),
            rotc_times(width(ty), x as int, carry, n as nat, left) == rotc_times(
                width(ty),
                v as int,
                c,
                (n - i) as nat,
                left,
            ),
        decreases n - i,
    {
        let (v1, c1) = if left { rcl(ty, v, c) } else { rcr(ty, v, c) };
        v = v1;
        c = c1;
        i = i + 1;
    }
    (v, make_flags(ty, v, c, false))
}


/// The integer instructions on a register and an operand: a value of the
/// register's type, or for the shifts and rotations a count of bits.
#[derive(Debug, Clone, Copy, PartialEq, Eq, Structural)]
pub enum IntOp {
    Add,
    AddCarry,
    Sub,
    SubBorrow,
    Mult,
    SDiv,
    UDiv,
    SRem,
    URem,
    And,
    Or,
    Xor,
    LShift,
    SRShift,
    URShift,
    LRot,
    RRot,
    LRotCarry,
    RRotCarry,
    Compare,
}

/// Whether the operand of an instruction is a count of bits.
pub open spec fn is_count(op: IntOp) -> bool {
    op == IntOp::LShift || op == IntOp::SRShift || op == IntOp::URShift || op == IntOp::LRot || op
        == IntOp::RRot || op == IntOp::LRotCarry || op == IntOp::RRotCarry
}

/// Whether an instruction divides by its operand.
pub open spec fn is_division(op: IntOp) -> bool {
    op == IntOp::SDiv || op == IntOp::UDiv || op == IntOp::SRem || op == IntOp::URem
}

/// What an instruction gives for the register's value `x` and the operand
/// `y`, of a type, with the flags `flags` before it: the result and the new
/// flags (the carry in is bit 2 of the flags before).
pub open spec fn int_op_spec(op: IntOp, ty: ValueType, x: int, y: int, flags: u16) -> (int, u16) {
    let m = width(ty);
    let c: int = if flag_bit(flags, 2) {
        1
    } else {
        0
    };
    match op {
        IntOp::Add => add_spec(m, x, y),
        IntOp::AddCarry => add_spec(m, x, y + c),
        IntOp::Sub => sub_spec(m, x, y),
        IntOp::SubBorrow => sub_spec(m, x, y + c),
        IntOp::Mult => mul_spec(m, x, y),
        IntOp::SDiv => sdiv_spec(m, x, y),
        IntOp::UDiv => udiv_spec(m, x, y),
        IntOp::SRem => srem_spec(m, x, y),
        IntOp::URem => urem_spec(m, x, y),
        IntOp::And => {
            let v = bitop_spec(BitOp::And, x as u32, y as u32);
            (v as int, int_flags(m, v as int, false, false))
        },
        IntOp::Or => {
            let v = bitop_spec(BitOp::Or, x as u32, y as u32);
            (v as int, int_flags(m, v as int, false, false))
        },
        IntOp::Xor => {
            let v = bitop_spec(BitOp::Xor, x as u32, y as u32);
            (v as int, int_flags(m, v as int, false, false))
        },
        IntOp::LShift => lshift_spec(ty, x, y as nat),
        IntOp::SRShift => srshift_spec(ty, x, y as nat),
        IntOp::URShift => urshift_spec(ty, x, y as nat),
        IntOp::LRot => lrot_spec(ty, x, y as nat),
        IntOp::RRot => rrot_spec(ty, x, y as nat),
        IntOp::LRotCarry => {
            let (v, cy) = rotc_times(m, x, flag_bit(flags, 2), y as nat, true);
            (v, int_flags(m, v, cy, false))
        },
        IntOp::RRotCarry => {
            let (v, cy) = rotc_times(m, x, flag_bit(flags, 2), y as nat, false);
            (v, int_flags(m, v, cy, false))
        },
        IntOp::Compare => sub_spec(m, x, y),
    }
}

/// The bits of an integer value.
pub open spec fn value_bits(v: TypedValue) -> int {
    match v {
        TypedValue::Byte(b) => b as int,
        TypedValue::Half(h) => h as int,
        TypedValue::Word(w) => w as int,
        TypedValue::Float(f) => f as int,
    }
}

/// A value of an integer type.
pub open spec fn typed_value(ty: ValueType, v: int) -> TypedValue {
    match ty {
        ValueType::Byte => TypedValue::Byte(v as u8),
        ValueType::Half => TypedValue::Half(v as u16),
        _ => TypedValue::Word(v as u32),
    }
}

/// What an integer instruction does to the registers: a division by zero
/// raises its interrupt; a register that cannot be read or written raises
/// the illegal-operation interrupt; otherwise the register gets the result
/// (a comparison writes nothing) and the flags are set. `Err` holds the
/// interrupt, and the registers are then unchanged.
pub open spec fn execute_spec(s: RegState, op: IntOp, reg_ref: u8, operand: u32, pfsr: u32) -> Result<
    RegState,
    u32,
> {
    let ty = reg_type(reg_ref)->0;
    if is_division(op) && operand == 0 {
        Err(INTERRUPT_DIV_BY_0)
    } else {
        match read_spec(s, reg_ref, pfsr) {
            None => Err(INTERRUPT_ILLEGAL_OPERATION),
            Some(v) => {
                let (res, f) = int_op_spec(op, ty, value_bits(v), operand as int, s.flags);
                if op == IntOp::Compare {
                    Ok(RegState { flags: f, ..s })
                } else {
                    match write_spec(s, reg_ref, typed_value(ty, res)) {
                        None => Err(INTERRUPT_ILLEGAL_OPERATION),
                        Some(s2) => Ok(RegState { flags: f, ..s2 }),
                    }
                }
            },
        }
    }
}

/// What a register reads is of the register's type and within its range.
pub proof fn lemma_read_typed(s: RegState, reg_ref: u8, pfsr: u32)
    requires
        regs_ok(s),
        reg_type(reg_ref) is Some,
        reg_type(reg_ref)->0 != ValueType::Float,
    ensures
        read_spec(s, reg_ref, pfsr) matches Some(v) ==> typed_value(reg_type(reg_ref)->0, value_bits(v)) == v
            && 0 <= value_bits(v) < width(reg_type(reg_ref)->0),
{
}

/// Execute an integer instruction on a register of an integer type, as
/// `execute_spec` says. The operand is of the register's type (a count of
/// bits for a shift or rotation); the inputs on which the carry would push
/// the largest operand past its type are left out.
pub fn execute_int_op(regs: &mut Registers, op: IntOp, reg_ref: u8, operand: u32, pfsr: u32) -> (r: Result<(), u32>)
    requires
        regs_ok(old(regs)@),
        reg_type(reg_ref) is Some,
        reg_type(reg_ref)->0 != ValueType::Float,
        is_count(op) ==> operand < 256,
        !is_count(op) ==> operand < width(reg_type(reg_ref)->0),
        !((op == IntOp::AddCarry || op == IntOp::SubBorrow) && flag_bit(old(regs)@.flags, 2) && operand == width(
            reg_type(reg_ref)->0,
        ) - 1),
    ensures
        regs_ok(final(regs)@),
        match execute_spec(old(regs)@, op, reg_ref, operand, pfsr) {
            Ok(s) => r is Ok && final(regs)@ == s,
            Err(i) => r == Err::<(), u32>(i) && final(regs)@ == old(regs)@,
        },
{
    let ty = crate::vm::cpu::reg_ref_type(reg_ref).unwrap();
    let is_div = op == IntOp::SDiv || op == IntOp::UDiv || op == IntOp::SRem || op == IntOp::URem;
    if is_div && operand == 0 {
        return Err(INTERRUPT_DIV_BY_0);
    }
    let flags = regs.flags();
    assert((flags & FLAG_CARRY != 0) == ((flags / 4) % 2 == 1)) by (bit_vector);
    let carry = flags & FLAG_CARRY != 0;
    proof {
        lemma_read_typed(old(regs)@, reg_ref, pfsr);
    }
    let x = match regs.read_from_register(reg_ref, pfsr) {
        Ok(TypedValue::Byte(b)) => b as u32,
        Ok(TypedValue::Half(h)) => h as u32,
        Ok(TypedValue::Word(w)) => w,
        Ok(TypedValue::Float(f)) => f,
        Err(_) => return Err(INTERRUPT_ILLEGAL_OPERATION),
    };
    let count = operand as u8;
    let (res, f) = match op {
        IntOp::Add => int_add(ty, x, operand),
        IntOp::AddCarry => int_addcarry(ty, x, operand, carry),
        IntOp::Sub => int_sub(ty, x, operand),
        IntOp::SubBorrow => int_subborrow(ty, x, operand, carry),
        IntOp::Mult => int_mul(ty, x, operand),
        IntOp::SDiv => int_sdiv(ty, x, operand),
        IntOp::UDiv => int_udiv(ty, x, operand),
        IntOp::SRem => int_srem(ty, x, operand),
        IntOp::URem => int_urem(ty, x, operand),
        IntOp::And => int_bitop(ty, BitOp::And, x, operand),
        IntOp::Or => int_bitop(ty, BitOp::Or, x, operand),
        IntOp::Xor => int_bitop(ty, BitOp::Xor, x, operand),
        IntOp::LShift => int_lshift(ty, x, count),
        IntOp::SRShift => int_srshift(ty, x, count),
        IntOp::URShift => int_urshift(ty, x, count),
        IntOp::LRot => int_lrot(ty, x, count),
        IntOp::RRot => int_rrot(ty, x, count),
        IntOp::LRotCarry => int_rotate_carry(ty, x, carry, count, true),
        IntOp::RRotCarry => int_rotate_carry(ty, x, carry, count, false),
        IntOp::Compare => int_sub(ty, x, operand),
    };
    if op == IntOp::Compare {
        regs.set_flags(f);
        return Ok(());
    }
    let value = match ty {
        ValueType::Byte => TypedValue::Byte(res as u8),
        ValueType::Half => TypedValue::Half(res as u16),
        _ => TypedValue::Word(res),
    };
    match regs.write_to_register(reg_ref, value) {
        Ok(()) => {
            regs.set_flags(f);
            Ok(())
        },
        Err(_) => Err(INTERRUPT_ILLEGAL_OPERATION),
    }
}

} // verus!
