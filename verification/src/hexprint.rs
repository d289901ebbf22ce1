//! Hex dumps of byte buffers: sixteen bytes a line, each line headed by its
//! address and followed by the bytes as printable ASCII.
use vstd::prelude::*;
use crate::text::{ascii_chars, bytes_to_string, hex_bytes, hex_digit, hex_fixed, is_ascii_bytes, lemma_hex_fixed_len};

verus! {

/// `n` in upper-case hexadecimal, with at least `w` digits.
pub open spec fn hex_min(n: nat, w: nat) -> Seq<u8>
    decreases n + w,
{
    if n < 16 && w <= 1 {
        seq![hex_digit(n)]
    } else {
        hex_min(n / 16, if w > 0 { (w - 1) as nat } else { 0 }).push(hex_digit(n % 16))
    }
}

/// A byte as it appears in the ASCII column: itself where printable, else a
/// dot.
pub open spec fn printable_byte(b: u8) -> u8 {
    if 32 <= b <= 126 {
        b
    } else {
        46u8
    }
}

/// The ASCII column of some bytes.
pub open spec fn ascii_column(s: Seq<u8>) -> Seq<u8> {
    s.map_values(|b: u8| printable_byte(b))
}

/// `n` spaces.
pub open spec fn spaces(n: nat) -> Seq<u8> {
    Seq::new(n, |i: int| 32u8)
}

/// What comes before byte `i`: the line's address at the start of a line, a
/// double space after each group of four, else a single space.
pub open spec fn byte_prefix(start: nat, i: nat) -> Seq<u8> {
    if i % 16 == 0 {
        seq![48u8, 120u8] + hex_min(start + i, 8) + spaces(4)
    } else if i % 16 == 4 || i % 16 == 8 || i % 16 == 12 {
        spaces(2)
    } else {
        spaces(1)
    }
}

/// What follows byte `i`: the ASCII column after the last byte of a line,
/// and a newline unless the buffer ends there.
pub open spec fn byte_suffix(buf: Seq<u8>, i: nat) -> Seq<u8> {
    if i % 16 == 15 {
        seq![32u8, 32u8, 124u8] + ascii_column(buf.subrange(i as int - 15, i as int + 1)) + seq![124u8] + if i + 1
            != buf.len() {
            seq![10u8]
        } else {
            Seq::empty()
        }
    } else {
        Seq::empty()
    }
}

/// The dump of the first `k` bytes.
pub open spec fn hex_prefix(buf: Seq<u8>, start: nat, k: nat) -> Seq<u8>
    decreases k,
{
    if k == 0 {
        Seq::empty()
    } else {
        hex_prefix(buf, start, (k - 1) as nat) + byte_prefix(start, (k - 1) as nat) + hex_fixed(
            buf[k - 1] as nat,
            2,
        ) + byte_suffix(buf, (k - 1) as nat)
    }
}

/// The padding and ASCII column that end a last line of fewer than sixteen
/// bytes.
pub open spec fn hex_tail(buf: Seq<u8>) -> Seq<u8> {
    let rem = buf.len() % 16;
    if rem == 0 {
        Seq::empty()
    } else {
        spaces(((16 - rem) * 2 + 18 - (rem - 1) - (rem - 1) / 4) as nat) + seq![32u8, 32u8, 124u8]
            + ascii_column(buf.subrange(buf.len() - rem, buf.len() as int)) + seq![124u8]
    }
}

/// The whole dump, addresses counted from `start`.
pub open spec fn hex_block(buf: Seq<u8>, start: nat) -> Seq<u8> {
    hex_prefix(buf, start, buf.len()) + hex_tail(buf)
}

/// Hexadecimal digits are ASCII.
proof fn lemma_hex_fixed_ascii(n: nat, w: nat)
    ensures
        is_ascii_bytes(hex_fixed(n, w)),
    decreases w,
{
    if w > 0 {
        lemma_hex_fixed_ascii(n / 16, (w - 1) as nat);
    }
}

/// Render `n` in hexadecimal with at least `w` digits.
fn hex_min_bytes(n: u64, w: usize) -> (r: Vec<u8>)
    requires
        w <= 16,
    ensures
        r@ == hex_min(n as nat, w as nat),
        is_ascii_bytes(r@),
    decreases n as int + w as int,
{
    if n < 16 && w <= 1 {
        let d: u8 = if n < 10 {
            (48 + n) as u8
        } else {
            (55 + n) as u8
        };
        let mut r: Vec<u8> = Vec::new();
        r.push(d);
        assert(r@ =~= seq![hex_digit(n as nat)]);
        r
    } else {
        let w2: usize = if w > 0 {
            w - 1
        } else {
            0
        };
        let mut r = hex_min_bytes(n / 16, w2);
        let m = n % 16;
        let d: u8 = if m < 10 {
            (48 + m) as u8
        } else {
            (55 + m) as u8
        };
        r.push(d);
        r
    }
}

/// The character shown for a byte in the ASCII column.
pub fn printable(chr: u8) -> (r: u8)
    ensures
        r == printable_byte(chr),
{
    if 32 <= chr && chr <= 126 {
        chr
    } else {
        46
    }
}

/// Append `n` spaces.
fn push_spaces(out: &mut Vec<u8>, n: usize)
    ensures
        final(out)@ == old(out)@ + spaces(n as nat),
{
    let ghost start = out@;
    let mut k: usize = 0;
    while k < n
        invariant
            k <= n,
            out@ == start + spaces(k as nat),
        decreases n - k,
    {
        out.push(32);
        k = k + 1;
        assert(out@ =~= start + spaces(k as nat));
    }
}

/// Append the ASCII column of `buf[from..to]`.
fn push_ascii_column(out: &mut Vec<u8>, buf: &Vec<u8>, from: usize, to: usize)
    requires
        from <= to <= buf@.len(),
    ensures
        final(out)@ == old(out)@ + ascii_column(buf@.subrange(from as int, to as int)),
{
    let ghost start = out@;
    let mut k: usize = from;
    while k < to
        invariant
            from <= k <= to,
            to <= buf@.len(),
            out@ == start + ascii_column(buf@.subrange(from as int, k as int)),
        decreases to - k,
    {
        let c = printable(buf[k]);
        out.push(c);
        k = k + 1;
        assert(out@ =~= start + ascii_column(buf@.subrange(from as int, k as int)));
    }
}

/// Every byte of the dump is ASCII.
pub proof fn lemma_hex_block_ascii(buf: Seq<u8>, start: nat)
    ensures
        is_ascii_bytes(hex_block(buf, start)),
{
    lemma_hex_prefix_ascii(buf, start, buf.len());
    let t = hex_tail(buf);
    assert(is_ascii_bytes(t)) by {
        let rem = buf.len() % 16;
        if rem != 0 {
            let col = ascii_column(buf.subrange(buf.len() - rem, buf.len() as int));
            assert(is_ascii_bytes(col));
        }
    }
}

/// Every byte of a prefix of the dump is ASCII.
proof fn lemma_hex_prefix_ascii(buf: Seq<u8>, start: nat, k: nat)
    requires
        k <= buf.len(),
    ensures
        is_ascii_bytes(hex_prefix(buf, start, k)),
    decreases k,
{
    if k > 0 {
        lemma_hex_prefix_ascii(buf, start, (k - 1) as nat);
        let i = (k - 1) as nat;
        lemma_hex_fixed_ascii(buf[i as int] as nat, 2);
        lemma_hex_min_ascii(start + i, 8);
        if i % 16 == 15 {
            let col = ascii_column(buf.subrange(i as int - 15, i as int + 1));
            assert(is_ascii_bytes(col));
        }
    }
}

/// Every digit of `hex_min` is ASCII.
proof fn lemma_hex_min_ascii(n: nat, w: nat)
    ensures
        is_ascii_bytes(hex_min(n, w)),
    decreases n + w,
{
    if !(n < 16 && w <= 1) {
        lemma_hex_min_ascii(n / 16, if w > 0 { (w - 1) as nat } else { 0 });
    }
}

/// Format a buffer as a hex block, addresses starting from `start`.
pub fn pretty_print_hex_block(buf: &Vec<u8>, start: usize) -> (r: String)
    requires
        start + buf@.len() <= usize::MAX,
    ensures
        r@ == ascii_chars(hex_block(buf@, start as nat)),
{
    let out = hex_block_bytes(buf, start);
    proof {
        lemma_hex_block_ascii(buf@, start as nat);
    }
    bytes_to_string(out.as_slice())
}

/// The bytes of the hex block of a buffer, addresses starting from `start`.
pub fn hex_block_bytes(buf: &Vec<u8>, start: usize) -> (out: Vec<u8>)
    requires
        start + buf@.len() <= usize::MAX,
    ensures
        out@ == hex_block(buf@, start as nat),
{
    let mut out: Vec<u8> = Vec::new();
    let mut i: usize = 0;
    while i < buf.len()
        invariant
            i <= buf@.len(),
            start + buf@.len() <= usize::MAX,
            out@ == hex_prefix(buf@, start as nat, i as nat),
        decreases buf@.len() - i,
    {
        let ghost before = out@;
        let col = i % 16;
        if col == 0 {
            out.push(48);
            out.push(120);
            let addr = hex_min_bytes((start + i) as u64, 8);
            crate::bytes::extend_bytes(&mut out, addr.as_slice());
            push_spaces(&mut out, 4);
            assert(out@ =~= before + byte_prefix(start as nat, i as nat));
        } else if col == 4 || col == 8 || col == 12 {
            push_spaces(&mut out, 2);
        } else {
            push_spaces(&mut out, 1);
        }
        let ghost mid = out@;
        let digits = hex_bytes(buf[i] as u64, 2);
        crate::bytes::extend_bytes(&mut out, digits.as_slice());
        let ghost mid2 = out@;
        if col == 15 {
            out.push(32);
            out.push(32);
            out.push(124);
            push_ascii_column(&mut out, buf, i - 15, i + 1);
            out.push(124);
            if i + 1 != buf.len() {
                out.push(10);
            }
            assert(out@ =~= mid2 + byte_suffix(buf@, i as nat));
        } else {
            assert(out@ =~= mid2 + byte_suffix(buf@, i as nat));
        }
        i = i + 1;
    }
    let ghost body = out@;
    let remainder = buf.len() % 16;
    if remainder != 0 {
        let n = (16 - remainder) * 2 + 18 - (remainder - 1) - (remainder - 1) / 4;
        push_spaces(&mut out, n);
        out.push(32);
        out.push(32);
        out.push(124);
        push_ascii_column(&mut out, buf, buf.len() - remainder, buf.len());
        out.push(124);
        assert(out@ =~= body + hex_tail(buf@));
    } else {
        assert(out@ =~= body + hex_tail(buf@));
    }
    out
}

/// Format a buffer as a hex block, addresses starting from zero.
pub fn pretty_print_hex_block_zero(buf: &Vec<u8>) -> (r: String)
    ensures
        r@ == ascii_chars(hex_block(buf@, 0)),
{
    let len = buf.len();
    assert(buf@.len() == len);
    pretty_print_hex_block(buf, 0)
}

} // verus!
