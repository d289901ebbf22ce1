//! Decimal and hexadecimal rendering of numbers as ASCII bytes, and the
//! conversion of ASCII bytes to `String`.
use vstd::prelude::*;

verus! {

/// The ASCII decimal representation of `n`, without leading zeros.
pub open spec fn decimal(n: nat) -> Seq<u8>
    decreases n,
{
    if n < 10 {
        seq![(48 + n) as u8]
    } else {
        decimal(n / 10).push((48 + n % 10) as u8)
    }
}

/// Every byte of a decimal representation is an ASCII digit.
pub proof fn lemma_decimal_digits(n: nat)
    ensures
        decimal(n).len() >= 1,
        forall|i: int| 0 <= i < decimal(n).len() ==> 48 <= #[trigger] decimal(n)[i] <= 57,
    decreases n,
{
    if n >= 10 {
        lemma_decimal_digits(n / 10);
    }
}

/// Render `n` in decimal.
pub fn decimal_bytes(n: u64) -> (r: Vec<u8>)
    ensures
        r@ == decimal(n as nat),
{
    let mut digits: Vec<u8> = Vec::new();
    let mut m: u64 = n;
    // digits holds the low-order digits of n, least significant first.
    while m >= 10
        invariant
            decimal(n as nat) == decimal(m as nat) + digits@.reverse(),
        decreases m,
    {
        let d = (48 + m % 10) as u8;
        assert(decimal(m as nat) == decimal((m / 10) as nat).push(d));
        assert(decimal((m / 10) as nat).push(d) + digits@.reverse() =~= decimal((m / 10) as nat)
            + digits@.push(d).reverse());
        digits.push(d);
        m = m / 10;
    }
    let mut r: Vec<u8> = Vec::new();
    r.push((48 + m) as u8);
    assert(decimal(n as nat) == r@ + digits@.reverse());
    let mut i: usize = digits.len();
    while i > 0
        invariant
            i <= digits@.len(),
            decimal(n as nat) == r@ + digits@.subrange(0, i as int).reverse(),
        decreases i,
    {
        i = i - 1;
        let ghost old_r = r@;
        assert(digits@.subrange(0, i + 1).reverse() =~= seq![digits@[i as int]]
            + digits@.subrange(0, i as int).reverse());
        r.push(digits[i]);
        assert(old_r + digits@.subrange(0, i + 1).reverse() =~= r@ + digits@.subrange(
            0,
            i as int,
        ).reverse());
    }
    assert(digits@.subrange(0, 0).reverse() =~= Seq::<u8>::empty());
    assert(r@ =~= r@ + Seq::<u8>::empty());
    r
}

/// The upper-case hexadecimal digit for a value below sixteen.
pub open spec fn hex_digit(v: nat) -> u8 {
    if v < 10 {
        (48 + v) as u8
    } else {
        (55 + v) as u8
    }
}

/// `n` as exactly `width` upper-case hexadecimal digits (most significant
/// first), keeping only the low-order digits.
pub open spec fn hex_fixed(n: nat, width: nat) -> Seq<u8>
    decreases width,
{
    if width == 0 {
        Seq::empty()
    } else {
        hex_fixed(n / 16, (width - 1) as nat).push(hex_digit(n % 16))
    }
}

/// Render the low `width` hexadecimal digits of `n`.
pub fn hex_bytes(n: u64, width: usize) -> (r: Vec<u8>)
    ensures
        r@ == hex_fixed(n as nat, width as nat),
        r@.len() == width,
{
    let mut low: Vec<u8> = Vec::new();
    let mut m: u64 = n;
    let mut j: usize = 0;
    // low holds the j least significant digits, least significant first.
    while j < width
        invariant
            j <= width,
            hex_fixed(n as nat, width as nat) == hex_fixed(m as nat, (width - j) as nat)
                + low@.reverse(),
        decreases width - j,
    {
        let digit = m % 16;
        let b: u8 = if digit < 10 {
            (48 + digit) as u8
        } else {
            (55 + digit) as u8
        };
        assert(hex_fixed(m as nat, (width - j) as nat) == hex_fixed(
            (m / 16) as nat,
            (width - j - 1) as nat,
        ).push(b));
        assert(hex_fixed((m / 16) as nat, (width - j - 1) as nat).push(b) + low@.reverse()
            =~= hex_fixed((m / 16) as nat, (width - j - 1) as nat) + low@.push(b).reverse());
        low.push(b);
        m = m / 16;
        j = j + 1;
    }
    assert(hex_fixed(m as nat, 0) =~= Seq::<u8>::empty());
    let mut r: Vec<u8> = Vec::new();
    let mut i: usize = low.len();
    while i > 0
        invariant
            i <= low@.len(),
            hex_fixed(n as nat, width as nat) == r@ + low@.subrange(0, i as int).reverse(),
        decreases i,
    {
        i = i - 1;
        let ghost old_r = r@;
        assert(low@.subrange(0, i + 1).reverse() =~= seq![low@[i as int]] + low@.subrange(
            0,
            i as int,
        ).reverse());
        r.push(low[i]);
        assert(old_r + low@.subrange(0, i + 1).reverse() =~= r@ + low@.subrange(
            0,
            i as int,
        ).reverse());
    }
    assert(low@.subrange(0, 0).reverse() =~= Seq::<u8>::empty());
    assert(r@ =~= r@ + Seq::<u8>::empty());
    proof {
        lemma_hex_fixed_len(n as nat, width as nat);
    }
    r
}

/// A fixed-width rendering has exactly that many digits.
pub proof fn lemma_hex_fixed_len(n: nat, width: nat)
    ensures
        hex_fixed(n, width).len() == width,
    decreases width,
{
    if width > 0 {
        lemma_hex_fixed_len(n / 16, (width - 1) as nat);
    }
}

/// Hexadecimal digits are ASCII.
pub proof fn lemma_hex_fixed_ascii(n: nat, width: nat)
    ensures
        is_ascii_bytes(hex_fixed(n, width)),
    decreases width,
{
    if width > 0 {
        lemma_hex_fixed_ascii(n / 16, (width - 1) as nat);
        let p = hex_fixed(n / 16, (width - 1) as nat);
        assert forall|i: int| 0 <= i < p.push(hex_digit(n % 16)).len() implies #[trigger] p.push(
            hex_digit(n % 16),
        )[i] < 128 by {
            if i < p.len() {
                assert(p.push(hex_digit(n % 16))[i] == p[i]);
            }
        }
    }
}

/// A word as eight upper-case hexadecimal digits, as a `String`.
pub fn hex_string(n: u32) -> (r: String)
    ensures
        r@ == ascii_chars(hex_fixed(n as nat, 8)),
{
    let d = hex_bytes(n as u64, 8);
    proof {
        lemma_hex_fixed_ascii(n as nat, 8);
    }
    bytes_to_string(d.as_slice())
}

/// Whether every byte is 7-bit ASCII.
pub open spec fn is_ascii_bytes(s: Seq<u8>) -> bool {
    forall|i: int| 0 <= i < s.len() ==> s[i] < 128
}

/// The characters of an ASCII byte sequence.
pub open spec fn ascii_chars(s: Seq<u8>) -> Seq<char> {
    s.map_values(|b: u8| b as char)
}

/// The text that `String::from_utf8_lossy` makes of some bytes: the bytes
/// decoded as UTF-8, each invalid sequence replaced by U+FFFD.
pub uninterp spec fn utf8_lossy(b: Seq<u8>) -> Seq<char>;

/// The text that `String::from_utf8` decodes from some bytes, where they are
/// valid UTF-8.
pub uninterp spec fn utf8_decode(b: Seq<u8>) -> Option<Seq<char>>;

/// Convert bytes to a `String` through `String::from_utf8_lossy`. The result
/// is named by `utf8_lossy`; for ASCII input, which is always valid UTF-8
/// and returned unchanged, it is the input's characters.
#[verifier::external_body]
pub fn bytes_to_string(b: &[u8]) -> (s: String)
    ensures
        s@ == utf8_lossy(b@),
        is_ascii_bytes(b@) ==> s@ == ascii_chars(b@),
{
    String::from_utf8_lossy(b).into_owned()
}

/// The text of bytes that are valid UTF-8, through `String::from_utf8`:
/// `None` where they are not. The result is named by `utf8_decode`; ASCII
/// bytes are valid UTF-8 and decode to their characters.
#[verifier::external_body]
pub fn utf8_text(b: &[u8]) -> (r: Option<String>)
    ensures
        utf8_decode(b@) is Some <==> r is Some,
        r matches Some(s) ==> utf8_decode(b@) == Some(s@),
        is_ascii_bytes(b@) ==> r is Some,
        r matches Some(s) ==> (is_ascii_bytes(b@) ==> s@ == ascii_chars(b@)),
{
    String::from_utf8(b.to_vec()).ok()
}

/// A number in decimal, as a `String`.
pub fn decimal_string(n: usize) -> (r: String)
    ensures
        r@ == ascii_chars(decimal(n as nat)),
{
    let d = decimal_bytes(n as u64);
    proof {
        lemma_decimal_digits(n as nat);
    }
    bytes_to_string(d.as_slice())
}

} // verus!
