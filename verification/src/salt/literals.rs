//! The values of SimAsm literals: integers in decimal (with an optional
//! exponent), binary and hexadecimal; characters, with a few escapes and two
//! characters outside ASCII; and the smallest register each value fits.
use vstd::prelude::*;
use crate::salt::lexer::{all_in, digits_text, exponent_text, int_text, is_digit, is_hex_digit, unsigned_int_text};
use crate::salt::error::SaltError;
use crate::salt::syntax::Span;

verus! {

/// The types of register.
#[derive(Debug, Clone, Copy, PartialEq, Eq, Structural)]
pub enum RegisterType {
    Byte,
    Half,
    Word,
    Float,
}

/// Why an integer literal has no value.
#[derive(Debug, Clone, Copy, PartialEq, Eq, Structural)]
pub enum IntLiteralError {
    OutOfRange,
    NegativeExponent,
}

/// The value of a digit character (`0`-`9`, `a`-`f`, `A`-`F`).
pub open spec fn digit_value(c: u8) -> int {
    if 48 <= c <= 57 {
        c - 48
    } else if 97 <= c <= 102 {
        c - 87
    } else {
        c - 55
    }
}

/// The value of a sequence of digits in a base.
pub open spec fn radix_value(s: Seq<u8>, base: int) -> int
    decreases s.len(),
{
    if s.len() == 0 {
        0
    } else {
        radix_value(s.drop_last(), base) * base + digit_value(s.last())
    }
}

/// The index of the first `e`, or the length where there is none.
pub open spec fn first_e(s: Seq<u8>, from: int) -> int
    decreases s.len() - from,
{
    if from >= s.len() {
        s.len() as int
    } else if s[from] == 101 {
        from
    } else {
        first_e(s, from + 1)
    }
}

/// Ten to the power `n`.
pub open spec fn pow10(n: nat) -> int
    decreases n,
{
    if n == 0 {
        1
    } else {
        10 * pow10((n - 1) as nat)
    }
}

/// An integer literal's value once its magnitude is known: negated after a
/// minus sign, and refused outside the combined range of `i32` and `u32`.
pub open spec fn signed_in_range(neg: bool, mag: int) -> Result<int, IntLiteralError> {
    let v = if neg {
        -mag
    } else {
        mag
    };
    if v > u32::MAX || v < i32::MIN {
        Err(IntLiteralError::OutOfRange)
    } else {
        Ok(v)
    }
}

/// Where an integer literal's number starts: after a minus sign, if any.
pub open spec fn int_ns(t: Seq<u8>) -> int {
    if t[0] == 45 { 1 } else { 0 }
}

/// The base of an integer literal: 2 after `0b`, 16 after `0x`, else 10.
pub open spec fn int_base(t: Seq<u8>) -> int {
    let ns = int_ns(t);
    if t[ns] == 48 && ns + 1 < t.len() && t[ns + 1] == 98 {
        2
    } else if t[ns] == 48 && ns + 1 < t.len() && t[ns + 1] == 120 {
        16
    } else {
        10
    }
}

/// Where an integer literal's digits start.
pub open spec fn int_ds(t: Seq<u8>) -> int {
    if int_base(t) == 10 { int_ns(t) } else { int_ns(t) + 2 }
}

/// Where an integer literal's digits end: at the exponent's `e` in base 10.
pub open spec fn int_de(t: Seq<u8>) -> int {
    if int_base(t) == 10 { first_e(t, 0) } else { t.len() as int }
}

/// Whether the exponent is negative.
pub open spec fn exp_neg(t: Seq<u8>) -> bool {
    t[int_de(t) + 1] == 45
}

/// Where the exponent's digits start.
pub open spec fn exp_ds(t: Seq<u8>) -> int {
    if exp_neg(t) { int_de(t) + 2 } else { int_de(t) + 1 }
}

/// The value of an integer literal: its digits in base 2 (`0b`), 16 (`0x`)
/// or 10, times ten to the power of a decimal exponent, negated after a
/// minus sign. Magnitudes past `i64::MAX` and exponents past `i32` are out of
/// range, and negative exponents are refused.
pub open spec fn int_literal_spec(t: Seq<u8>) -> Result<int, IntLiteralError> {
    let mag = radix_value(t.subrange(int_ds(t), int_de(t)), int_base(t));
    if mag > i64::MAX {
        Err(IntLiteralError::OutOfRange)
    } else if int_de(t) < t.len() {
        let ev = radix_value(t.subrange(exp_ds(t), t.len() as int), 10);
        if (exp_neg(t) && ev > 0x8000_0000) || (!exp_neg(t) && ev > 0x7FFF_FFFF) {
            Err(IntLiteralError::OutOfRange)
        } else if exp_neg(t) && ev > 0 {
            Err(IntLiteralError::NegativeExponent)
        } else if pow10(ev as nat) > i64::MAX || mag * pow10(ev as nat) > i64::MAX {
            Err(IntLiteralError::OutOfRange)
        } else {
            signed_in_range(int_ns(t) == 1, mag * pow10(ev as nat))
        }
    } else {
        signed_in_range(int_ns(t) == 1, mag)
    }
}

proof fn lemma_radix_push(s: Seq<u8>, c: u8, base: int)
    ensures
        radix_value(s.push(c), base) == radix_value(s, base) * base + digit_value(c),
{
    assert(s.push(c).drop_last() =~= s);
}

proof fn lemma_radix_nonneg(s: Seq<u8>, base: int)
    requires
        base >= 2,
        forall|i: int| 0 <= i < s.len() ==> 0 <= #[trigger] digit_value(s[i]) < base,
    ensures
        radix_value(s, base) >= 0,
    decreases s.len(),
{
    if s.len() > 0 {
        let d = s.drop_last();
        assert forall|i: int| 0 <= i < d.len() implies 0 <= #[trigger] digit_value(d[i]) < base by {
            assert(d[i] == s[i]);
        }
        lemma_radix_nonneg(d, base);
        assert(radix_value(d, base) * base >= 0) by (nonlinear_arith)
            requires
                radix_value(d, base) >= 0,
                base >= 2,
        ;
    }
}

/// Appending digits never makes a value smaller.
proof fn lemma_radix_rest_grows(t: Seq<u8>, from: int, j: int, to: int, base: int, limit: int)
    requires
        0 <= from <= j <= to <= t.len(),
        base >= 2,
        forall|i: int| from <= i < to ==> 0 <= #[trigger] digit_value(t[i]) < base,
        radix_value(t.subrange(from, j), base) > limit,
        limit >= 0,
    ensures
        radix_value(t.subrange(from, to), base) > limit,
    decreases to - j,
{
    if j < to {
        lemma_radix_push(t.subrange(from, j), t[j], base);
        assert(t.subrange(from, j).push(t[j]) =~= t.subrange(from, j + 1));
        let v = radix_value(t.subrange(from, j), base);
        assert(0 <= digit_value(t[j]));
        assert(v * base + digit_value(t[j]) > limit) by (nonlinear_arith)
            requires
                v > limit,
                limit >= 0,
                base >= 2,
                digit_value(t[j]) >= 0,
        ;
        lemma_radix_rest_grows(t, from, j + 1, to, base, limit);
    }
}

/// The value of the digits `t[from..to]` in `base`, or `None` where it
/// exceeds `limit`.
fn radix_parse(t: &[u8], from: usize, to: usize, base: u64, limit: u64) -> (r: Option<u64>)
    requires
        from <= to <= t@.len(),
        base == 2 || base == 10 || base == 16,
        limit >= 16,
        forall|i: int| from <= i < to ==> 0 <= #[trigger] digit_value(t@[i]) < base,
    ensures
        match r {
            Some(v) => v == radix_value(t@.subrange(from as int, to as int), base as int) && v <= limit,
            None => radix_value(t@.subrange(from as int, to as int), base as int) > limit,
        },
{
    let mut v: u64 = 0;
    let mut i = from;
    assert(t@.subrange(from as int, from as int) =~= Seq::<u8>::empty());
    while i < to
        invariant
            from <= i <= to <= t@.len(),
            base == 2 || base == 10 || base == 16,
            forall|k: int| from <= k < to ==> 0 <= #[trigger] digit_value(t@[k]) < base,
            v == radix_value(t@.subrange(from as int, i as int), base as int),
            v <= limit,
            limit >= 16,
        decreases to - i,
    {
        let c = t[i];
        assert(0 <= digit_value(t@[i as int]) < base);
        let d: u64 = if 48 <= c && c <= 57 {
            (c - 48) as u64
        } else if 97 <= c && c <= 102 {
            (c - 87) as u64
        } else {
            (c - 55) as u64
        };
        assert(0 <= digit_value(t@[i as int]) < base);
        proof {
            lemma_radix_push(t@.subrange(from as int, i as int), c, base as int);
            assert(t@.subrange(from as int, i as int).push(c) =~= t@.subrange(from as int, i + 1));
        }
        if v > (limit - d) / base {
            proof {
                assert(v * base + d > limit) by (nonlinear_arith)
                    requires
                        v > ((limit - d) as u64) / base,
                        base >= 2,
                        d < base,
                        d <= limit,
                ;
                lemma_radix_rest_grows(t@, from as int, i + 1, to as int, base as int, limit as int);
            }
            return None;
        }
        assert(v * base + d <= limit) by (nonlinear_arith)
            requires
                v <= ((limit - d) as u64) / base,
                base >= 2,
                d < base,
                d <= limit,
        ;
        v = v * base + d;
        i = i + 1;
    }
    Some(v)
}


/// The digits of a decimal integer literal: where the first `e` is, and that
/// digits lie before it and (after an optional minus) after it.
proof fn lemma_decimal_shape(u: Seq<u8>, k: int)
    requires
        1 <= k <= u.len(),
        digits_text(u.take(k)),
        exponent_text(u.skip(k)),
    ensures
        first_e(u, 0) == k || (k == u.len() && first_e(u, 0) == u.len()),
        forall|i: int| 0 <= i < k ==> 0 <= #[trigger] digit_value(u[i]) < 10,
        k < u.len() ==> u[k] == 101 && (if u[k + 1] == 45 {
            k + 2 < u.len() && forall|i: int| k + 2 <= i < u.len() ==> 0 <= #[trigger] digit_value(u[i]) < 10
        } else {
            k + 1 < u.len() && forall|i: int| k + 1 <= i < u.len() ==> 0 <= #[trigger] digit_value(u[i]) < 10
        }),
{
    assert forall|i: int| 0 <= i < k implies 0 <= #[trigger] digit_value(u[i]) < 10 by {
        assert(u.take(k)[i] == u[i]);
        assert(is_digit(u.take(k)[i]));
    }
    assert forall|i: int| 0 <= i < k implies is_digit(#[trigger] u[i]) by {
        assert(u.take(k)[i] == u[i]);
        assert(is_digit(u.take(k)[i]));
    }
    lemma_first_e_skip(u, 0, k, k);
    if k < u.len() {
        let e = u.skip(k);
        assert(e[0] == u[k]);
        assert(e.len() >= 2);
        if u[k + 1] == 45 {
            assert(e[1] == u[k + 1]);
            assert(!digits_text(e.skip(1))) by {
                assert(e.skip(1)[0] == 45);
            }
            assert(digits_text(e.skip(2)));
            assert forall|i: int| k + 2 <= i < u.len() implies 0 <= #[trigger] digit_value(u[i]) < 10 by {
                assert(e.skip(2)[i - k - 2] == u[i]);
            }
        } else {
            assert(e[1] == u[k + 1]);
            assert(digits_text(e.skip(1)));
            assert forall|i: int| k + 1 <= i < u.len() implies 0 <= #[trigger] digit_value(u[i]) < 10 by {
                assert(e.skip(1)[i - k - 1] == u[i]);
            }
        }
    } else {
        assert(first_e(u, k) == u.len());
    }
}

/// No `e` among decimal digits before `k`.
proof fn lemma_first_e_skip(u: Seq<u8>, from: int, i: int, k: int)
    requires
        0 <= from <= i <= k <= u.len(),
        forall|j: int| from <= j < k ==> is_digit(#[trigger] u[j]),
    ensures
        first_e(u, from) == first_e(u, i),
    decreases i - from,
{
    if from < i {
        lemma_first_e_skip(u, from + 1, i, k);
    }
}


/// Powers of ten grow.
proof fn lemma_pow10_mono(a: nat, b: nat)
    requires
        a <= b,
    ensures
        pow10(a) <= pow10(b),
        pow10(a) >= 1,
    decreases b,
{
    if a < b {
        lemma_pow10_mono(a, (b - 1) as nat);
    }
    if a > 0 {
        lemma_pow10_mono((a - 1) as nat, (a - 1) as nat);
    }
}

/// The error for an integer literal out of range.
fn out_of_range(span: Span) -> (e: SaltError)
    ensures
        e.span == span,
        e.message@ == "Integer literal out of range."@,
{
    SaltError::new(span, "Integer literal out of range.")
}

/// The digits of an integer literal are digits of its base, and so are
/// those of its exponent.
proof fn lemma_int_parts(t: Seq<u8>)
    requires
        int_text(t),
    ensures
        t.len() >= 1,
        0 <= int_ns(t) < t.len(),
        int_ds(t) <= int_de(t) <= t.len(),
        forall|i: int| int_ds(t) <= i < int_de(t) ==> 0 <= #[trigger] digit_value(t[i]) < int_base(t),
        int_de(t) < t.len() ==> int_de(t) + 1 < t.len() && exp_ds(t) <= t.len() && forall|i: int|
            exp_ds(t) <= i < t.len() ==> 0 <= #[trigger] digit_value(t[i]) < 10,
{
    let ns = int_ns(t);
    let u = t.skip(ns);
    if ns == 1 {
        assert(!unsigned_int_text(t)) by {
            if exists|k: int| 1 <= k <= t.len() && digits_text(t.take(k)) && exponent_text(t.skip(k)) {
                let k = choose|k: int| 1 <= k <= t.len() && digits_text(t.take(k)) && exponent_text(t.skip(k));
                assert(t.take(k)[0] == 45);
            }
        }
    } else {
        assert(u =~= t);
    }
    assert(unsigned_int_text(u));
    let base = int_base(t);
    assert(u[0] == t[ns]);
    if u.len() > 1 {
        assert(u[1] == t[ns + 1]);
    }
    if base == 10 {
        if !(exists|k: int| 1 <= k <= u.len() && digits_text(u.take(k)) && exponent_text(u.skip(k))) {
            assert(false);
        }
        let k = choose|k: int| 1 <= k <= u.len() && digits_text(u.take(k)) && exponent_text(u.skip(k));
        lemma_decimal_shape(u, k);
        assert(first_e(t, 0) == first_e(t, ns));
        lemma_first_e_shift(t, ns, 0);
        assert(int_de(t) == ns + k);
        assert forall|i: int| int_ds(t) <= i < int_de(t) implies 0 <= #[trigger] digit_value(t[i]) < 10 by {
            assert(t[i] == u[i - ns]);
        }
        if int_de(t) < t.len() {
            assert(t[int_de(t) + 1] == u[k + 1]);
            assert forall|i: int| exp_ds(t) <= i < t.len() implies 0 <= #[trigger] digit_value(t[i]) < 10 by {
                assert(t[i] == u[i - ns]);
            }
        }
    } else {
        assert(!(exists|k: int| 1 <= k <= u.len() && digits_text(u.take(k)) && exponent_text(u.skip(k)))) by {
            if exists|k: int| 1 <= k <= u.len() && digits_text(u.take(k)) && exponent_text(u.skip(k)) {
                let k = choose|k: int| 1 <= k <= u.len() && digits_text(u.take(k)) && exponent_text(u.skip(k));
                lemma_decimal_shape(u, k);
                if k >= 2 {
                    assert(0 <= digit_value(u[1]) < 10);
                }
            }
        }
        assert forall|i: int| int_ds(t) <= i < int_de(t) implies 0 <= #[trigger] digit_value(t[i]) < base by {
            assert(t[i] == u[i - ns]);
            if base == 16 {
                assert(is_hex_digit(u[i - ns]));
            }
        }
    }
}

/// Ten to the power `ev`, or `None` past `i64::MAX`.
fn checked_pow10(ev: u64) -> (r: Option<u64>)
    ensures
        match r {
            Some(p) => p == pow10(ev as nat) && p <= i64::MAX,
            None => pow10(ev as nat) > i64::MAX,
        },
{
    let mut p: u64 = 1;
    let mut k: u64 = 0;
    while k < ev
        invariant
            k <= ev,
            p == pow10(k as nat),
            p <= 0x7FFF_FFFF_FFFF_FFFF,
        decreases ev - k,
    {
        if p > 0x7FFF_FFFF_FFFF_FFFF / 10 {
            proof {
                lemma_pow10_mono((k + 1) as nat, ev as nat);
            }
            return None;
        }
        p = p * 10;
        k = k + 1;
    }
    Some(p)
}

/// Negate after a minus sign and check the range.
fn finish_int(neg: bool, mag: u64, span: Span) -> (r: Result<i64, SaltError>)
    requires
        mag <= i64::MAX,
    ensures
        match signed_in_range(neg, mag as int) {
            Ok(v) => r matches Ok(x) && x == v,
            Err(_) => r matches Err(e) && e.span == span && e.message@ == "Integer literal out of range."@,
        },
{
    let v: i64 = if neg {
        -(mag as i64)
    } else {
        mag as i64
    };
    if v > 0xFFFF_FFFF || v < -0x8000_0000 {
        return Err(out_of_range(span));
    }
    Ok(v)
}

/// The value of an integer literal token, as `int_literal_spec` says; an
/// error about `span` where it has none.
pub fn int_literal_value(text: &[u8], span: Span) -> (r: Result<i64, SaltError>)
    requires
        int_text(text@),
    ensures
        match int_literal_spec(text@) {
            Ok(v) => r matches Ok(x) && x == v,
            Err(IntLiteralError::OutOfRange) => r matches Err(e) && e.span == span && e.message@
                == "Integer literal out of range."@,
            Err(IntLiteralError::NegativeExponent) => r matches Err(e) && e.span == span
                && e.message@ == "Integer exponents cannot be negative."@,
        },
{
    let ghost t = text@;
    proof {
        lemma_int_parts(t);
    }
    let len = text.len();
    let ns: usize = if text[0] == 45 {
        1
    } else {
        0
    };
    let base: u64 = if text[ns] == 48 && ns + 1 < len && text[ns + 1] == 98 {
        2
    } else if text[ns] == 48 && ns + 1 < len && text[ns + 1] == 120 {
        16
    } else {
        10
    };
    let ds: usize = if base == 10 {
        ns
    } else {
        ns + 2
    };
    let mut de: usize = 0;
    if base == 10 {
        while de < len && text[de] != 101
            invariant
                de <= len == t.len(),
                t == text@,
                first_e(t, 0) == first_e(t, de as int),
            decreases len - de,
        {
            de = de + 1;
        }
    } else {
        de = len;
    }
    assert(ds == int_ds(t) && de == int_de(t) && base == int_base(t));
    let mag = match radix_parse(text, ds, de, base, 0x7FFF_FFFF_FFFF_FFFF) {
        Some(v) => v,
        None => return Err(out_of_range(span)),
    };
    if de < len {
        let neg_e = text[de + 1] == 45;
        let es = if neg_e {
            de + 2
        } else {
            de + 1
        };
        assert(es == exp_ds(t) && neg_e == exp_neg(t));
        let ev = match radix_parse(text, es, len, 10, 0x8000_0000) {
            Some(v) => v,
            None => return Err(out_of_range(span)),
        };
        if !neg_e && ev > 0x7FFF_FFFF {
            return Err(out_of_range(span));
        }
        if neg_e && ev > 0 {
            return Err(SaltError::new(span, "Integer exponents cannot be negative."));
        }
        let p = match checked_pow10(ev) {
            Some(p) => p,
            None => return Err(out_of_range(span)),
        };
        proof {
            lemma_pow10_mono(0, ev as nat);
        }
        if mag > 0x7FFF_FFFF_FFFF_FFFF / p {
            assert(mag * p > 0x7FFF_FFFF_FFFF_FFFF) by (nonlinear_arith)
                requires
                    mag > 0x7FFF_FFFF_FFFF_FFFFu64 / p,
                    p >= 1,
            ;
            return Err(out_of_range(span));
        }
        assert(mag * p <= 0x7FFF_FFFF_FFFF_FFFF) by (nonlinear_arith)
            requires
                mag <= 0x7FFF_FFFF_FFFF_FFFFu64 / p,
                p >= 1,
        ;
        return finish_int(ns == 1, mag * p, span);
    }
    finish_int(ns == 1, mag, span)
}

/// `first_e` counted from a later start is shifted accordingly.
proof fn lemma_first_e_shift(t: Seq<u8>, ns: int, from: int)
    requires
        0 <= ns <= t.len(),
        0 <= from <= t.len() - ns,
    ensures
        first_e(t, ns + from) == first_e(t.skip(ns), from) + ns,
    decreases t.len() - ns - from,
{
    if from < t.len() - ns {
        assert(t.skip(ns)[from] == t[ns + from]);
        lemma_first_e_shift(t, ns, from + 1);
    }
}


/// Whether the character after an opening quote at `t[0]` has a value: one
/// of the escapes `\n`, `\'`, `\"`, `\\`; `£` or `¬`; or printable ASCII.
pub open spec fn char_value_ok(t: Seq<u8>) -> bool {
    t.len() >= 2 && if t[1] == 92 {
        t.len() >= 3 && (t[2] == 110 || t[2] == 39 || t[2] == 34 || t[2] == 92)
    } else if t[1] == 0xC2 {
        t.len() >= 3 && (t[2] == 0xA3 || t[2] == 0xAC)
    } else {
        32 <= t[1] <= 126
    }
}

/// The value of the character after an opening quote, and whether it was an
/// escape: `\n` is 15 and `£` is 31 and `¬` is 127 in the Simulatron
/// character set, which otherwise follows ASCII.
pub open spec fn char_value(t: Seq<u8>) -> (u32, bool) {
    if t[1] == 92 {
        (
            if t[2] == 110 {
                15
            } else {
                t[2] as u32
            },
            true,
        )
    } else if t[1] == 0xC2 {
        (
            if t[2] == 0xA3 {
                31
            } else {
                127
            },
            false,
        )
    } else {
        (t[1] as u32, false)
    }
}

/// The value of a character literal (or of a character in a string literal,
/// with the byte before it in place of the quote), and whether it was an
/// escape.
pub fn char_literal_value(text: &[u8]) -> (r: (u32, bool))
    requires
        char_value_ok(text@),
    ensures
        r == char_value(text@),
{
    let c1 = text[1];
    if c1 == 92 {
        let c2 = text[2];
        let value: u32 = if c2 == 110 {
            15
        } else {
            c2 as u32
        };
        (value, true)
    } else if c1 == 0xC2 {
        if text[2] == 0xA3 {
            (31, false)
        } else {
            (127, false)
        }
    } else {
        (c1 as u32, false)
    }
}

/// Whether every character of a string literal's body has a value: escapes
/// as in character literals, and otherwise printable ASCII.
pub open spec fn string_value_ok(b: Seq<u8>) -> bool
    decreases b.len(),
{
    if b.len() == 0 {
        true
    } else if b[0] == 92 {
        b.len() >= 2 && (b[1] == 110 || b[1] == 39 || b[1] == 34 || b[1] == 92) && string_value_ok(b.skip(2))
    } else {
        32 <= b[0] <= 126 && string_value_ok(b.skip(1))
    }
}

/// Whether a character literal's text has a value, as `char_value_ok`
/// says.
pub fn char_literal_ok(t: &Vec<u8>) -> (r: bool)
    ensures
        r == char_value_ok(t@),
{
    if t.len() < 2 {
        false
    } else if t[1] == 92 {
        t.len() >= 3 && (t[2] == 110 || t[2] == 39 || t[2] == 34 || t[2] == 92)
    } else if t[1] == 0xC2 {
        t.len() >= 3 && (t[2] == 0xA3 || t[2] == 0xAC)
    } else {
        32 <= t[1] && t[1] <= 126
    }
}

/// Whether the bytes `from..to` form a string literal's body that has a
/// value, as `string_value_ok` says.
pub fn string_body_ok(b: &Vec<u8>, from: usize, to: usize) -> (r: bool)
    requires
        from <= to <= b@.len(),
    ensures
        r == string_value_ok(b@.subrange(from as int, to as int)),
{
    let mut i = from;
    while i < to
        invariant
            from <= i <= to <= b@.len(),
            string_value_ok(b@.subrange(from as int, to as int)) == string_value_ok(b@.subrange(i as int, to as int)),
        decreases to - i,
    {
        let ghost rest = b@.subrange(i as int, to as int);
        if b[i] == 92 {
            if i + 1 < to && (b[i + 1] == 110 || b[i + 1] == 39 || b[i + 1] == 34 || b[i + 1] == 92) {
                assert(rest.skip(2) =~= b@.subrange(i + 2, to as int));
                i = i + 2;
            } else {
                return false;
            }
        } else if 32 <= b[i] && b[i] <= 126 {
            assert(rest.skip(1) =~= b@.subrange(i + 1, to as int));
            i = i + 1;
        } else {
            return false;
        }
    }
    true
}

/// The values of the characters of a string literal's body.
pub open spec fn string_values(b: Seq<u8>) -> Seq<u32>
    decreases b.len(),
{
    if b.len() == 0 {
        Seq::empty()
    } else if b[0] == 92 && b.len() >= 2 {
        seq![if b[1] == 110 { 15u32 } else { b[1] as u32 }] + string_values(b.skip(2))
    } else {
        seq![b[0] as u32] + string_values(b.skip(1))
    }
}

/// A character literal's value is the character's code in the Simulatron
/// character set, the one its key sends: a printable character, `£` or `¬`
/// has its code there, and the escape `\n` is the code of the Enter key.
pub proof fn lemma_char_literals_in_character_set(t: Seq<u8>)
    requires
        char_value_ok(t),
    ensures
        t[1] != 92 ==> Some(char_value(t).0 as u8) == crate::vm::keys::char_code(
            if t[1] == 0xC2 { t[2] as char } else { t[1] as char },
        ) && char_value(t).0 < 256,
        t[1] == 92 && t[2] == 110 ==> Some(char_value(t).0 as u8) == crate::vm::keys::key_code(
            crate::vm::keys::KeyCode::Enter,
        ),
        t[1] == 92 && t[2] != 110 ==> char_value(t).0 == t[2] as u32 && Some(t[2]) == crate::vm::keys::char_code(t[2] as char),
{
}

/// Each character of a string literal has the value that the same text has
/// as a character literal: the first value of a body is that of the
/// character literal it starts, and the rest are those of what follows that
/// character (two bytes for an escape, one otherwise).
pub proof fn lemma_string_chars_as_char_literals(b: Seq<u8>)
    requires
        string_value_ok(b),
        b.len() > 0,
    ensures
        ({
            let t = seq![39u8] + b;
            let (v, esc) = char_value(t);
            &&& char_value_ok(t)
            &&& string_values(b) == seq![v] + string_values(b.skip(if esc { 2 } else { 1 }))
        }),
{
    let t = seq![39u8] + b;
    assert(t[1] == b[0]);
    if b.len() >= 2 {
        assert(t[2] == b[1]);
    }
}

/// The smallest register type that holds a value: byte for `-128..=255`,
/// half for `-32768..=65535`, else word.
pub open spec fn min_reg_type(v: int) -> RegisterType {
    if v < -32768 {
        RegisterType::Word
    } else if v < -128 {
        RegisterType::Half
    } else if v <= 255 {
        RegisterType::Byte
    } else if v <= 65535 {
        RegisterType::Half
    } else {
        RegisterType::Word
    }
}

/// The smallest register type that holds a value in the combined range of
/// `i32` and `u32`.
pub fn minimum_reg_type(value: i64) -> (r: RegisterType)
    requires
        i32::MIN <= value <= u32::MAX,
    ensures
        r == min_reg_type(value as int),
{
    if value < -32768 {
        RegisterType::Word
    } else if value < -128 {
        RegisterType::Half
    } else if value <= 255 {
        RegisterType::Byte
    } else if value <= 65535 {
        RegisterType::Half
    } else {
        RegisterType::Word
    }
}

/// The number of bytes of the smallest register that holds a value in the
/// combined range of `i32` and `u32`.
pub fn minimum_size(value: i64) -> (r: usize)
    requires
        i32::MIN <= value <= u32::MAX,
    ensures
        r == (match min_reg_type(value as int) {
            RegisterType::Byte => 1usize,
            RegisterType::Half => 2usize,
            _ => 4usize,
        }),
{
    if value < -32768 {
        4
    } else if value < -128 {
        2
    } else if value <= 255 {
        1
    } else if value <= 65535 {
        2
    } else {
        4
    }
}

} // verus!
