//! The SimAsm lexer: it splits source text into tokens that together cover
//! the whole text, each byte in exactly one token.
use vstd::prelude::*;
use vstd::string::StringSliceAdditionalSpecFns;

verus! {

/// The kinds of token.
#[derive(Debug, Clone, Copy, PartialEq, Eq, Structural)]
pub enum TokenType {
    Pub,
    Const,
    Static,
    Mut,
    Byte,
    Half,
    Word,
    Sizeof,
    OpenSquare,
    CloseSquare,
    OpenParen,
    CloseParen,
    Comma,
    Colon,
    DoubleDot,
    IntLiteral,
    FloatLiteral,
    CharLiteral,
    StringLiteral,
    Identifier,
    Comment,
    Newline,
    Whitespace,
    Unknown,
}

/// A token: its kind and the byte range `start..end` of the source it covers.
#[derive(Debug, Clone, Copy, PartialEq, Eq, Structural)]
pub struct Token {
    pub tt: TokenType,
    pub start: usize,
    pub end: usize,
}

pub open spec fn is_digit(c: u8) -> bool {
    48 <= c <= 57
}

pub open spec fn is_hex_digit(c: u8) -> bool {
    is_digit(c) || (65 <= c <= 70) || (97 <= c <= 102)
}

pub open spec fn is_ident_start(c: u8) -> bool {
    (65 <= c <= 90) || (97 <= c <= 122) || c == 95
}

pub open spec fn is_ident_continue(c: u8) -> bool {
    is_ident_start(c) || is_digit(c)
}

/// Horizontal white space: space, tab, vertical tab, form feed.
pub open spec fn is_blank(c: u8) -> bool {
    c == 32 || c == 9 || c == 11 || c == 12
}

/// The number of bytes of the UTF-8 character that starts with `b` (one for
/// a byte that cannot start one).
pub open spec fn utf8_len(b: u8) -> nat {
    if b < 0xC0 {
        1
    } else if b < 0xE0 {
        2
    } else if b < 0xF0 {
        3
    } else {
        4
    }
}

/// Whether every byte of `s[from..to]` satisfies `p`.
pub open spec fn all_in(s: Seq<u8>, from: int, to: int, p: spec_fn(u8) -> bool) -> bool {
    forall|i: int| from <= i < to ==> p(#[trigger] s[i])
}

/// An identifier: a letter or underscore, then letters, digits, underscores.
pub open spec fn ident_text(s: Seq<u8>) -> bool {
    s.len() >= 1 && is_ident_start(s[0]) && all_in(s, 1, s.len() as int, |c: u8| is_ident_continue(c))
}

/// Whether `s` is the three bytes `a b c`.
pub open spec fn spells3(s: Seq<u8>, a: u8, b: u8, c: u8) -> bool {
    s.len() == 3 && s[0] == a && s[1] == b && s[2] == c
}

/// Whether `s` is the four bytes `a b c d`.
pub open spec fn spells4(s: Seq<u8>, a: u8, b: u8, c: u8, d: u8) -> bool {
    s.len() == 4 && s[0] == a && s[1] == b && s[2] == c && s[3] == d
}

/// The keyword an identifier-shaped text is, if any: `pub`, `const`,
/// `static`, `mut`, `byte`, `half`, `word` or `sizeof`.
pub open spec fn keyword(s: Seq<u8>) -> Option<TokenType> {
    if spells3(s, 112, 117, 98) {
        Some(TokenType::Pub)
    } else if s.len() == 5 && s[0] == 99 && s[1] == 111 && s[2] == 110 && s[3] == 115 && s[4] == 116 {
        Some(TokenType::Const)
    } else if s.len() == 6 && s[0] == 115 && s[1] == 116 && s[2] == 97 && s[3] == 116 && s[4] == 105
        && s[5] == 99 {
        Some(TokenType::Static)
    } else if spells3(s, 109, 117, 116) {
        Some(TokenType::Mut)
    } else if spells4(s, 98, 121, 116, 101) {
        Some(TokenType::Byte)
    } else if spells4(s, 104, 97, 108, 102) {
        Some(TokenType::Half)
    } else if spells4(s, 119, 111, 114, 100) {
        Some(TokenType::Word)
    } else if s.len() == 6 && s[0] == 115 && s[1] == 105 && s[2] == 122 && s[3] == 101 && s[4] == 111
        && s[5] == 102 {
        Some(TokenType::Sizeof)
    } else {
        None
    }
}

/// One or more decimal digits.
pub open spec fn digits_text(s: Seq<u8>) -> bool {
    s.len() >= 1 && all_in(s, 0, s.len() as int, |c: u8| is_digit(c))
}

/// An optional exponent: empty, or `e`, an optional `-`, and digits.
pub open spec fn exponent_text(s: Seq<u8>) -> bool {
    s.len() == 0 || (s[0] == 101 && (digits_text(s.skip(1)) || (s.len() >= 2 && s[1] == 45
        && digits_text(s.skip(2)))))
}

/// An integer literal without its sign: decimal digits with an optional
/// exponent, or `0b` and binary digits, or `0x` and hexadecimal digits.
pub open spec fn unsigned_int_text(s: Seq<u8>) -> bool {
    (exists|k: int| 1 <= k <= s.len() && digits_text(s.take(k)) && exponent_text(s.skip(k)))
        || (s.len() >= 3 && s[0] == 48 && s[1] == 98 && all_in(s, 2, s.len() as int, |c: u8| c == 48 || c == 49))
        || (s.len() >= 3 && s[0] == 48 && s[1] == 120 && all_in(s, 2, s.len() as int, |c: u8| is_hex_digit(c)))
}

/// An integer literal: an optional `-` and an unsigned integer literal.
pub open spec fn int_text(s: Seq<u8>) -> bool {
    unsigned_int_text(s) || (s.len() >= 1 && s[0] == 45 && unsigned_int_text(s.skip(1)))
}

/// A float literal without its sign: digits, a point, digits, and an
/// optional exponent.
pub open spec fn unsigned_float_text(s: Seq<u8>) -> bool {
    exists|k: int, m: int|
        1 <= k && k + 1 < m <= s.len() && digits_text(s.take(k)) && s[k] == 46 && digits_text(
            s.subrange(k + 1, m),
        ) && exponent_text(s.skip(m))
}

/// A float literal: an optional `-` and an unsigned float literal.
pub open spec fn float_text(s: Seq<u8>) -> bool {
    unsigned_float_text(s) || (s.len() >= 1 && s[0] == 45 && unsigned_float_text(s.skip(1)))
}

/// A character literal: a quote, then a backslash and one character other
/// than a newline, or one character other than a newline, backslash or
/// quote, then a quote.
pub open spec fn char_text(s: Seq<u8>) -> bool {
    s.len() >= 3 && s[0] == 39 && s[s.len() - 1] == 39 && (if s[1] == 92 {
        s.len() >= 4 && s[2] != 10 && s.len() == 3 + utf8_len(s[2])
    } else {
        s[1] != 10 && s[1] != 39 && s.len() == 2 + utf8_len(s[1])
    })
}

/// The inside of a string literal: characters other than a newline,
/// backslash or double quote, and backslashes each followed by a byte other
/// than a newline.
pub open spec fn string_body(s: Seq<u8>) -> bool
    decreases s.len(),
{
    if s.len() == 0 {
        true
    } else if s[0] == 92 {
        s.len() >= 2 && s[1] != 10 && string_body(s.skip(2))
    } else {
        s[0] != 10 && s[0] != 34 && string_body(s.skip(1))
    }
}

/// A string literal: double quotes around a string body.
pub open spec fn string_text(s: Seq<u8>) -> bool {
    s.len() >= 2 && s[0] == 34 && s[s.len() - 1] == 34 && string_body(s.subrange(1, s.len() - 1))
}

/// A comment: `//` and then anything but a line break.
pub open spec fn comment_text(s: Seq<u8>) -> bool {
    s.len() >= 2 && s[0] == 47 && s[1] == 47 && all_in(s, 2, s.len() as int, |c: u8| c != 10 && c != 13)
}

/// A line break: `\n`, `\r` or `\r\n`.
pub open spec fn newline_text(s: Seq<u8>) -> bool {
    s == seq![10u8] || s == seq![13u8] || s == seq![13u8, 10u8]
}

/// What the text of a token of each kind looks like.
pub open spec fn token_text_ok(tt: TokenType, s: Seq<u8>) -> bool {
    match tt {
        TokenType::OpenSquare => s == seq![91u8],
        TokenType::CloseSquare => s == seq![93u8],
        TokenType::OpenParen => s == seq![40u8],
        TokenType::CloseParen => s == seq![41u8],
        TokenType::Comma => s == seq![44u8],
        TokenType::Colon => s == seq![58u8],
        TokenType::DoubleDot => s == seq![46u8, 46u8],
        TokenType::IntLiteral => int_text(s),
        TokenType::FloatLiteral => float_text(s),
        TokenType::CharLiteral => char_text(s),
        TokenType::StringLiteral => string_text(s),
        TokenType::Identifier => ident_text(s) && keyword(s) is None,
        TokenType::Comment => comment_text(s),
        TokenType::Newline => newline_text(s),
        TokenType::Whitespace => s.len() >= 1 && all_in(s, 0, s.len() as int, |c: u8| is_blank(c)),
        TokenType::Unknown => s.len() >= 1,
        _ => keyword(s) == Some(tt),
    }
}

/// The source text a token covers.
pub open spec fn token_text(src: Seq<u8>, t: Token) -> Seq<u8> {
    src.subrange(t.start as int, t.end as int)
}

/// Tokens that cover `src` in order, each non-empty, each of the shape its
/// kind says.
pub open spec fn tokens_cover(src: Seq<u8>, toks: Seq<Token>) -> bool {
    &&& (toks.len() == 0 <==> src.len() == 0)
    &&& toks.len() > 0 ==> toks[0].start == 0 && toks.last().end == src.len()
    &&& forall|i: int| 0 <= i < toks.len() - 1 ==> #[trigger] toks[i].end == toks[i + 1].start
    &&& forall|i: int| 0 <= i < toks.len() ==> #[trigger] toks[i].start < toks[i].end <= src.len()
    &&& forall|i: int| 0 <= i < toks.len() ==> token_text_ok(#[trigger] toks[i].tt, token_text(src, toks[i]))
}

/// The concatenation of the texts of tokens.
pub open spec fn tokens_text(src: Seq<u8>, toks: Seq<Token>) -> Seq<u8>
    decreases toks.len(),
{
    if toks.len() == 0 {
        Seq::empty()
    } else {
        tokens_text(src, toks.drop_last()) + token_text(src, toks.last())
    }
}

/// Covering tokens give back the source: the text of the tokens up to `k` is
/// the source up to where token `k` starts.
pub proof fn lemma_tokens_text(src: Seq<u8>, toks: Seq<Token>, k: int)
    requires
        tokens_cover(src, toks),
        0 <= k <= toks.len(),
    ensures
        tokens_text(src, toks.take(k)) == src.take(if k < toks.len() { toks[k].start as int } else { src.len() as int }),
    decreases k,
{
    if k == 0 {
        assert(toks.take(0) =~= Seq::<Token>::empty());
        if toks.len() > 0 {
            assert(src.take(0) =~= Seq::<u8>::empty());
        } else {
            assert(src.take(src.len() as int) =~= src);
            assert(src =~= Seq::<u8>::empty());
        }
    } else {
        lemma_tokens_text(src, toks, k - 1);
        assert(toks.take(k).drop_last() =~= toks.take(k - 1));
        let t = toks[k - 1];
        let e = if k < toks.len() { toks[k].start as int } else { src.len() as int };
        assert(t.end == e);
        assert(src.take(t.start as int) + token_text(src, t) =~= src.take(e));
    }
}

/// Lexing is lossless: the tokens' texts put together are the source.
pub proof fn lemma_tokens_lossless(src: Seq<u8>, toks: Seq<Token>)
    requires
        tokens_cover(src, toks),
    ensures
        tokens_text(src, toks) == src,
{
    lemma_tokens_text(src, toks, toks.len() as int);
    assert(toks.take(toks.len() as int) =~= toks);
    assert(src.take(src.len() as int) =~= src);
}


/// The end of the run of decimal digits from `i`.
fn scan_digits(src: &Vec<u8>, i: usize) -> (j: usize)
    requires
        i <= src@.len(),
    ensures
        i <= j <= src@.len(),
        all_in(src@, i as int, j as int, |c: u8| is_digit(c)),
        j == src@.len() || !is_digit(src@[j as int]),
{
    let mut j = i;
    while j < src.len() && src[j] >= 48 && src[j] <= 57
        invariant
            i <= j <= src@.len(),
            all_in(src@, i as int, j as int, |c: u8| is_digit(c)),
        decreases src@.len() - j,
    {
        j = j + 1;
    }
    j
}

/// The end of the run of bytes from `i` that `kind` accepts: binary digits
/// (0), hexadecimal digits (1), identifier characters (2), blanks (3), or
/// anything but a line break (4).
fn scan_run(src: &Vec<u8>, i: usize, kind: u8) -> (j: usize)
    requires
        i <= src@.len(),
        kind <= 4,
    ensures
        i <= j <= src@.len(),
        kind == 0 ==> all_in(src@, i as int, j as int, |c: u8| c == 48 || c == 49) && (j == src@.len()
            || !(src@[j as int] == 48 || src@[j as int] == 49)),
        kind == 1 ==> all_in(src@, i as int, j as int, |c: u8| is_hex_digit(c)) && (j == src@.len()
            || !is_hex_digit(src@[j as int])),
        kind == 2 ==> all_in(src@, i as int, j as int, |c: u8| is_ident_continue(c)) && (j
            == src@.len() || !is_ident_continue(src@[j as int])),
        kind == 3 ==> all_in(src@, i as int, j as int, |c: u8| is_blank(c)) && (j == src@.len()
            || !is_blank(src@[j as int])),
        kind == 4 ==> all_in(src@, i as int, j as int, |c: u8| c != 10 && c != 13) && (j == src@.len()
            || src@[j as int] == 10 || src@[j as int] == 13),
{
    let mut j = i;
    while j < src.len()
        invariant
            i <= j <= src@.len(),
            kind <= 4,
            kind == 0 ==> all_in(src@, i as int, j as int, |c: u8| c == 48 || c == 49),
            kind == 1 ==> all_in(src@, i as int, j as int, |c: u8| is_hex_digit(c)),
            kind == 2 ==> all_in(src@, i as int, j as int, |c: u8| is_ident_continue(c)),
            kind == 3 ==> all_in(src@, i as int, j as int, |c: u8| is_blank(c)),
            kind == 4 ==> all_in(src@, i as int, j as int, |c: u8| c != 10 && c != 13),
        decreases src@.len() - j,
    {
        let c = src[j];
        let ok = if kind == 0 {
            c == 48 || c == 49
        } else if kind == 1 {
            (48 <= c && c <= 57) || (65 <= c && c <= 70) || (97 <= c && c <= 102)
        } else if kind == 2 {
            (65 <= c && c <= 90) || (97 <= c && c <= 122) || c == 95 || (48 <= c && c <= 57)
        } else if kind == 3 {
            c == 32 || c == 9 || c == 11 || c == 12
        } else {
            c != 10 && c != 13
        };
        if !ok {
            return j;
        }
        j = j + 1;
    }
    j
}

/// The length of an exponent (`e`, an optional `-`, digits) at `q`, or zero
/// where there is none.
fn scan_exponent(src: &Vec<u8>, q: usize) -> (n: usize)
    requires
        q <= src@.len(),
    ensures
        q + n <= src@.len(),
        exponent_text(src@.subrange(q as int, q + n)),
        forall|e: int| q + n < e <= src@.len() ==> !exponent_text(#[trigger] src@.subrange(q as int, e)),
{
    let ghost full = src@;
    proof {
        assert forall|e: int| q < e <= full.len() && exponent_text(#[trigger] full.subrange(q as int, e)) implies {
            &&& full[q as int] == 101
            &&& (e == q + 1 || is_digit(full[q + 1]) || (full[q + 1] == 45 && e >= q + 3 && is_digit(full[q + 2])))
            &&& is_digit(full[q + 1]) ==> all_in(full, q + 1, e, |c: u8| is_digit(c))
            &&& !is_digit(full[q + 1]) ==> full[q + 1] == 45 && all_in(full, q + 2, e, |c: u8| is_digit(c))
        } by {
            let x = full.subrange(q as int, e);
            if is_digit(full[q + 1]) {
                assert forall|i: int| q + 1 <= i < e implies is_digit(#[trigger] full[i]) by {
                    if !digits_text(x.skip(1)) {
                        assert(x[1] == 45);
                    }
                    assert(x.skip(1)[i - q - 1] == full[i]);
                }
            } else {
                assert(x.skip(1)[0] == full[q + 1]);
                assert(x[1] == 45);
                assert forall|i: int| q + 2 <= i < e implies is_digit(#[trigger] full[i]) by {
                    assert(x.skip(2)[i - q - 2] == full[i]);
                }
                assert(x.skip(2)[0] == full[q + 2]);
            }
        }
    }
    if q < src.len() && src[q] == 101 {
        if q + 1 < src.len() && src[q + 1] >= 48 && src[q + 1] <= 57 {
            let e = scan_digits(src, q + 1);
            assert(src@.subrange(q as int, e as int).skip(1) =~= src@.subrange(q + 1, e as int));
            assert(all_in(src@.subrange(q + 1, e as int), 0, (e - q - 1) as int, |c: u8| is_digit(c)));
            return e - q;
        }
        if q + 1 < src.len() && src[q + 1] == 45 && q + 2 < src.len() && src[q + 2] >= 48 && src[q + 2] <= 57 {
            let e = scan_digits(src, q + 2);
            assert(src@.subrange(q as int, e as int).skip(2) =~= src@.subrange(q + 2, e as int));
            assert(all_in(src@.subrange(q + 2, e as int), 0, (e - q - 2) as int, |c: u8| is_digit(c)));
            return e - q;
        }
    }
    assert(src@.subrange(q as int, q as int) =~= Seq::<u8>::empty());
    0
}


/// The text of a sign and the unsigned part `u` from `p0` is an integer
/// literal when `u` is.
proof fn lemma_signed(full: Seq<u8>, pos: int, p0: int, e: int, neg: bool, float: bool)
    requires
        0 <= pos <= p0 <= e <= full.len(),
        neg ==> full[pos] == 45 && p0 == pos + 1,
        !neg ==> p0 == pos,
        !float ==> unsigned_int_text(full.subrange(p0, e)),
        float ==> unsigned_float_text(full.subrange(p0, e)),
    ensures
        !float ==> int_text(full.subrange(pos, e)),
        float ==> float_text(full.subrange(pos, e)),
{
    if neg {
        assert(full.subrange(pos, e).skip(1) =~= full.subrange(p0, e));
    } else {
        assert(full.subrange(pos, e) =~= full.subrange(p0, e));
    }
}

/// Digits and an exponent make an integer literal.
proof fn lemma_decimal_int(full: Seq<u8>, pos: int, p0: int, d: int, e: int, neg: bool)
    requires
        0 <= pos <= p0 < d <= e <= full.len(),
        neg ==> full[pos] == 45 && p0 == pos + 1,
        !neg ==> p0 == pos,
        all_in(full, p0, d, |c: u8| is_digit(c)),
        exponent_text(full.subrange(d, e)),
    ensures
        int_text(full.subrange(pos, e)),
{
    let u = full.subrange(p0, e);
    let k = d - p0;
    assert(u.take(k) =~= full.subrange(p0, d));
    assert(digits_text(u.take(k))) by {
        assert forall|i: int| 0 <= i < k implies is_digit(#[trigger] u.take(k)[i]) by {
            assert(u.take(k)[i] == full[p0 + i]);
        }
    }
    assert(u.skip(k) =~= full.subrange(d, e));
    assert(unsigned_int_text(u));
    lemma_signed(full, pos, p0, e, neg, false);
}

/// `0b` and binary digits, or `0x` and hexadecimal digits, make an integer
/// literal.
proof fn lemma_prefixed_int(full: Seq<u8>, pos: int, p0: int, e: int, binary: bool, neg: bool)
    requires
        0 <= pos <= p0 && p0 + 3 <= e <= full.len(),
        neg ==> full[pos] == 45 && p0 == pos + 1,
        !neg ==> p0 == pos,
        full[p0] == 48,
        binary ==> full[p0 + 1] == 98 && all_in(full, p0 + 2, e, |c: u8| c == 48 || c == 49),
        !binary ==> full[p0 + 1] == 120 && all_in(full, p0 + 2, e, |c: u8| is_hex_digit(c)),
    ensures
        int_text(full.subrange(pos, e)),
{
    let u = full.subrange(p0, e);
    if binary {
        assert(all_in(u, 2, u.len() as int, |c: u8| c == 48 || c == 49)) by {
            assert forall|i: int| 2 <= i < u.len() implies (#[trigger] u[i] == 48 || u[i] == 49) by {
                assert(u[i] == full[p0 + i]);
            }
        }
    } else {
        assert(all_in(u, 2, u.len() as int, |c: u8| is_hex_digit(c))) by {
            assert forall|i: int| 2 <= i < u.len() implies is_hex_digit(#[trigger] u[i]) by {
                assert(u[i] == full[p0 + i]);
            }
        }
    }
    assert(unsigned_int_text(u));
    lemma_signed(full, pos, p0, e, neg, false);
}

/// Digits, a point, digits and an exponent make a float literal.
proof fn lemma_float(full: Seq<u8>, pos: int, p0: int, d: int, f: int, e: int, neg: bool)
    requires
        0 <= pos <= p0 < d && d + 1 < f <= e <= full.len(),
        neg ==> full[pos] == 45 && p0 == pos + 1,
        !neg ==> p0 == pos,
        all_in(full, p0, d, |c: u8| is_digit(c)),
        full[d] == 46,
        all_in(full, d + 1, f, |c: u8| is_digit(c)),
        exponent_text(full.subrange(f, e)),
    ensures
        float_text(full.subrange(pos, e)),
{
    let u = full.subrange(p0, e);
    let k = d - p0;
    let m = f - p0;
    assert(u.take(k) =~= full.subrange(p0, d));
    assert(digits_text(u.take(k))) by {
        assert forall|i: int| 0 <= i < k implies is_digit(#[trigger] u.take(k)[i]) by {
            assert(u.take(k)[i] == full[p0 + i]);
        }
    }
    assert(u.subrange(k + 1, m) =~= full.subrange(d + 1, f));
    assert(digits_text(u.subrange(k + 1, m))) by {
        assert forall|i: int| 0 <= i < m - k - 1 implies is_digit(#[trigger] u.subrange(k + 1, m)[i]) by {
            assert(u.subrange(k + 1, m)[i] == full[d + 1 + i]);
        }
    }
    assert(u.skip(m) =~= full.subrange(f, e));
    assert(u[k] == 46);
    assert(unsigned_float_text(u));
    lemma_signed(full, pos, p0, e, neg, true);
}

/// The decimal form of an unsigned integer at `p0` (digits, then an
/// exponent) ends within the run of digits from `p0`, or runs on as an
/// exponent from the run's end `d`.
proof fn lemma_decimal_form_bound(src: Seq<u8>, p0: int, d: int, e: int)
    requires
        0 <= p0 < d <= src.len(),
        p0 <= e <= src.len(),
        all_in(src, p0, d, |c: u8| is_digit(c)),
        d == src.len() || !is_digit(src[d]),
        exists|k: int|
            1 <= k <= e - p0 && digits_text(#[trigger] src.subrange(p0, e).take(k)) && exponent_text(
                src.subrange(p0, e).skip(k),
            ),
    ensures
        e <= d || exponent_text(src.subrange(d, e)),
{
    let u = src.subrange(p0, e);
    let k = choose|k: int| 1 <= k <= e - p0 && digits_text(#[trigger] u.take(k)) && exponent_text(u.skip(k));
    if p0 + k < d {
        if e > p0 + k {
            assert(u.skip(k)[0] == src[p0 + k]);
            assert(is_digit(src[p0 + k]));
        }
    } else if p0 + k > d {
        assert(u.take(k)[d - p0] == src[d]);
    } else {
        assert(u.skip(k) =~= src.subrange(d, e));
    }
}

/// The float form of an unsigned number at `p0` has its point at the end
/// `d` of the run of digits from `p0`, and a digit after it.
proof fn lemma_float_point(src: Seq<u8>, p0: int, d: int, e: int)
    requires
        0 <= p0 < d <= src.len(),
        p0 <= e <= src.len(),
        all_in(src, p0, d, |c: u8| is_digit(c)),
        d == src.len() || !is_digit(src[d]),
        unsigned_float_text(src.subrange(p0, e)),
    ensures
        d + 1 < e,
        src[d] == 46,
        is_digit(src[d + 1]),
{
    let u = src.subrange(p0, e);
    let (k, m) = choose|k: int, m: int|
        1 <= k && k + 1 < m <= u.len() && digits_text(u.take(k)) && u[k] == 46 && digits_text(u.subrange(k + 1, m))
            && exponent_text(u.skip(m));
    if p0 + k > d {
        assert(u.take(k)[d - p0] == src[d]);
    }
    assert(u[k] == src[p0 + k]);
    assert(p0 + k == d);
    assert(u.subrange(k + 1, m)[0] == src[d + 1]);
}

/// The float form of an unsigned number at `p0` has its point at the end
/// `d` of the run of digits from `p0`, a digit after it, and ends within the
/// run of digits from `d + 1` or runs on as an exponent from its end `f`.
proof fn lemma_float_form_bound(src: Seq<u8>, p0: int, d: int, f: int, e: int)
    requires
        0 <= p0 < d <= src.len(),
        p0 <= e <= src.len(),
        all_in(src, p0, d, |c: u8| is_digit(c)),
        d == src.len() || !is_digit(src[d]),
        unsigned_float_text(src.subrange(p0, e)),
        d + 1 <= f <= src.len(),
        all_in(src, d + 1, f, |c: u8| is_digit(c)),
        f == src.len() || !is_digit(src[f]),
    ensures
        d + 1 < e,
        src[d] == 46,
        is_digit(src[d + 1]),
        e <= f || exponent_text(src.subrange(f, e)),
{
    let u = src.subrange(p0, e);
    let (k, m) = choose|k: int, m: int|
        1 <= k && k + 1 < m <= u.len() && digits_text(u.take(k)) && u[k] == 46 && digits_text(u.subrange(k + 1, m))
            && exponent_text(u.skip(m));
    if p0 + k > d {
        assert(u.take(k)[d - p0] == src[d]);
    }
    assert(u[k] == src[p0 + k]);
    assert(p0 + k == d);
    assert(u.subrange(k + 1, m)[0] == src[d + 1]);
    if p0 + m < f {
        if e > p0 + m {
            assert(u.skip(m)[0] == src[p0 + m]);
            assert(is_digit(src[p0 + m]));
        }
    } else if p0 + m > f {
        assert(u.subrange(k + 1, m)[f - d - 1] == src[f]);
    } else {
        assert(u.skip(m) =~= src.subrange(f, e));
    }
}

/// A `0b` or `0x` prefixed number at `p0` ends within the run of digits of
/// its base from `p0 + 2`, which ends at `r`.
proof fn lemma_prefixed_form_bound(src: Seq<u8>, p0: int, r: int, e: int, binary: bool)
    requires
        0 <= p0 && p0 + 2 <= r < e <= src.len(),
        binary ==> src[p0 + 1] == 98 && !(src[r] == 48 || src[r] == 49),
        !binary ==> src[p0 + 1] == 120 && !is_hex_digit(src[r]),
    ensures
        ({
            let u = src.subrange(p0, e);
            &&& !(u.len() >= 3 && u[0] == 48 && u[1] == 98 && all_in(u, 2, u.len() as int, |c: u8| c == 48 || c == 49))
            &&& !(u.len() >= 3 && u[0] == 48 && u[1] == 120 && all_in(u, 2, u.len() as int, |c: u8| is_hex_digit(c)))
        }),
{
    let u = src.subrange(p0, e);
    assert(u[1] == src[p0 + 1]);
    assert(u[r - p0] == src[r]);
}

/// A number's text with its sign: where the text starts with `-` its
/// unsigned part follows it, and where it starts with a digit it is all
/// unsigned.
proof fn lemma_sign_reduce(src: Seq<u8>, pos: int, p0: int, e: int)
    requires
        0 <= pos <= p0 < e <= src.len(),
        src[pos] == 45 ==> p0 == pos + 1,
        src[pos] != 45 ==> p0 == pos,
    ensures
        int_text(src.subrange(pos, e)) ==> unsigned_int_text(src.subrange(p0, e)),
        float_text(src.subrange(pos, e)) ==> unsigned_float_text(src.subrange(p0, e)),
{
    let s = src.subrange(pos, e);
    if src[pos] == 45 {
        if unsigned_int_text(s) || unsigned_float_text(s) {
            lemma_unsigned_number_starts(s);
        }
        assert(s.skip(1) =~= src.subrange(p0, e));
    }
}

/// A text that starts with a byte other than a digit is no unsigned number.
proof fn lemma_unsigned_needs_digit(u: Seq<u8>)
    requires
        u.len() == 0 || !is_digit(u[0]),
    ensures
        !unsigned_int_text(u),
        !unsigned_float_text(u),
{
    if unsigned_int_text(u) || unsigned_float_text(u) {
        lemma_unsigned_number_starts(u);
    }
}

/// Scan a number at `pos`, where there is a digit or `-`: the longest
/// integer or float literal there, or `None` where there is none.
fn scan_number(src: &Vec<u8>, pos: usize) -> (r: Option<(TokenType, usize)>)
    requires
        pos < src@.len(),
    ensures
        r matches Some((tt, end)) ==> pos < end <= src@.len() && (tt == TokenType::IntLiteral
            || tt == TokenType::FloatLiteral) && token_text_ok(tt, src@.subrange(pos as int, end as int)),
        r matches Some((tt, end)) ==> forall|e: int|
            end < e <= src@.len() ==> !int_text(#[trigger] src@.subrange(pos as int, e)) && !float_text(
                src@.subrange(pos as int, e),
            ),
        r is None ==> forall|e: int|
            pos < e <= src@.len() ==> !int_text(#[trigger] src@.subrange(pos as int, e)) && !float_text(
                src@.subrange(pos as int, e),
            ),
{
    let ghost full = src@;
    assert(pos < src.len());
    let neg = src[pos] == 45;
    let p0 = if neg {
        pos + 1
    } else {
        pos
    };
    if p0 >= src.len() || !(src[p0] >= 48 && src[p0] <= 57) {
        proof {
            assert forall|e: int| pos < e <= full.len() implies !int_text(#[trigger] full.subrange(pos as int, e))
                && !float_text(full.subrange(pos as int, e)) by {
                let s = full.subrange(pos as int, e);
                if neg {
                    assert(s.skip(1) =~= full.subrange(p0 as int, e));
                    if e > p0 {
                        assert(full.subrange(p0 as int, e)[0] == full[p0 as int]);
                    }
                    lemma_unsigned_needs_digit(full.subrange(p0 as int, e));
                    lemma_unsigned_needs_digit(s);
                } else {
                    lemma_unsigned_needs_digit(s);
                }
            }
        }
        return None;
    }
    let prefixed = src[p0] == 48 && p0 + 1 < src.len() && (src[p0 + 1] == 98 || src[p0 + 1] == 120) && p0 + 2
        < src.len();
    if prefixed {
        let binary = src[p0 + 1] == 98;
        let c = src[p0 + 2];
        let ok = if binary {
            c == 48 || c == 49
        } else {
            (48 <= c && c <= 57) || (65 <= c && c <= 70) || (97 <= c && c <= 102)
        };
        if ok {
            let e = if binary {
                scan_run(src, p0 + 2, 0)
            } else {
                scan_run(src, p0 + 2, 1)
            };
            proof {
                lemma_prefixed_int(full, pos as int, p0 as int, e as int, binary, neg);
                assert forall|e2: int| e < e2 <= full.len() implies !int_text(#[trigger] full.subrange(pos as int, e2))
                    && !float_text(full.subrange(pos as int, e2)) by {
                    lemma_sign_reduce(full, pos as int, p0 as int, e2);
                    let u = full.subrange(p0 as int, e2);
                    if unsigned_int_text(u) {
                        if exists|k: int| 1 <= k <= e2 - p0 && digits_text(#[trigger] u.take(k)) && exponent_text(u.skip(k)) {
                            lemma_decimal_form_bound(full, p0 as int, p0 + 1, e2);
                            assert(full.subrange(p0 + 1, e2)[0] == full[p0 + 1]);
                        }
                        lemma_prefixed_form_bound(full, p0 as int, e as int, e2, binary);
                    }
                    if unsigned_float_text(u) {
                        lemma_float_point(full, p0 as int, p0 + 1, e2);
                    }
                }
            }
            return Some((TokenType::IntLiteral, e));
        }
    }
    let d = scan_digits(src, p0);
    if d < src.len() && src[d] == 46 && d + 1 < src.len() && src[d + 1] >= 48 && src[d + 1] <= 57 {
        let f = scan_digits(src, d + 1);
        let x = scan_exponent(src, f);
        proof {
            lemma_float(full, pos as int, p0 as int, d as int, f as int, (f + x) as int, neg);
            assert forall|e2: int| f + x < e2 <= full.len() implies !int_text(#[trigger] full.subrange(pos as int, e2))
                && !float_text(full.subrange(pos as int, e2)) by {
                lemma_sign_reduce(full, pos as int, p0 as int, e2);
                let u = full.subrange(p0 as int, e2);
                if unsigned_int_text(u) {
                    if exists|k: int| 1 <= k <= e2 - p0 && digits_text(#[trigger] u.take(k)) && exponent_text(u.skip(k)) {
                        lemma_decimal_form_bound(full, p0 as int, d as int, e2);
                        assert(full.subrange(d as int, e2)[0] == full[d as int]);
                    }
                    assert(u[1] == full[p0 + 1]);
                    if d > p0 + 1 {
                        assert(is_digit(full[p0 + 1]));
                    }
                }
                if unsigned_float_text(u) {
                    lemma_float_form_bound(full, p0 as int, d as int, f as int, e2);
                }
            }
        }
        return Some((TokenType::FloatLiteral, f + x));
    }
    let x = scan_exponent(src, d);
    proof {
        lemma_decimal_int(full, pos as int, p0 as int, d as int, (d + x) as int, neg);
        assert forall|e2: int| d + x < e2 <= full.len() implies !int_text(#[trigger] full.subrange(pos as int, e2))
            && !float_text(full.subrange(pos as int, e2)) by {
            lemma_sign_reduce(full, pos as int, p0 as int, e2);
            let u = full.subrange(p0 as int, e2);
            if unsigned_int_text(u) {
                if exists|k: int| 1 <= k <= e2 - p0 && digits_text(#[trigger] u.take(k)) && exponent_text(u.skip(k)) {
                    lemma_decimal_form_bound(full, p0 as int, d as int, e2);
                }
                if u.len() >= 3 && u[0] == 48 && (u[1] == 98 || u[1] == 120) {
                    assert(u[1] == full[p0 + 1]);
                    assert(u[2] == full[p0 + 2]);
                }
            }
            if unsigned_float_text(u) {
                lemma_float_point(full, p0 as int, d as int, e2);
            }
        }
    }
    Some((TokenType::IntLiteral, d + x))
}

/// `utf8_len`, computed.
fn utf8_length(b: u8) -> (n: usize)
    ensures
        n == utf8_len(b),
{
    if b < 0xC0 {
        1
    } else if b < 0xE0 {
        2
    } else if b < 0xF0 {
        3
    } else {
        4
    }
}

/// Scan a character literal at `pos`, where there is a quote.
fn scan_char(src: &Vec<u8>, pos: usize) -> (r: Option<usize>)
    requires
        pos < src@.len(),
        src@[pos as int] == 39,
    ensures
        r matches Some(end) ==> pos < end <= src@.len() && char_text(src@.subrange(pos as int, end as int)),
        forall|e: int|
            pos < e <= src@.len() && char_text(#[trigger] src@.subrange(pos as int, e)) ==> r == Some(e as usize),
{
    let len = src.len();
    proof {
        assert forall|e: int| pos < e <= src@.len() && char_text(#[trigger] src@.subrange(pos as int, e)) implies {
            let s = src@.subrange(pos as int, e);
            &&& s[1] == src@[pos + 1]
            &&& s[s.len() - 1] == src@[e - 1]
            &&& (s[1] == 92 ==> s[2] == src@[pos + 2] && e == pos + 3 + utf8_len(src@[pos + 2]))
            &&& (s[1] != 92 ==> e == pos + 2 + utf8_len(src@[pos + 1]))
        } by {}
    }
    if pos + 1 >= len {
        return None;
    }
    let c1 = src[pos + 1];
    if c1 == 92 {
        if pos + 2 >= src.len() || src[pos + 2] == 10 {
            return None;
        }
        let l = utf8_length(src[pos + 2]);
        if l > src.len() - pos - 2 {
            return None;
        }
        let q = pos + 2 + l;
        if q < src.len() && src[q] == 39 {
            return Some(q + 1);
        }
        None
    } else {
        if c1 == 10 || c1 == 39 {
            return None;
        }
        let l = utf8_length(c1);
        if l > src.len() - pos - 1 {
            return None;
        }
        let q = pos + 1 + l;
        if q < src.len() && src[q] == 39 {
            return Some(q + 1);
        }
        None
    }
}

/// String bodies put together make a string body.
proof fn lemma_string_body_append(a: Seq<u8>, b: Seq<u8>)
    requires
        string_body(a),
        string_body(b),
    ensures
        string_body(a + b),
    decreases a.len(),
{
    if a.len() > 0 {
        if a[0] == 92 {
            lemma_string_body_append(a.skip(2), b);
            assert((a + b).skip(2) =~= a.skip(2) + b);
        } else {
            lemma_string_body_append(a.skip(1), b);
            assert((a + b).skip(1) =~= a.skip(1) + b);
        }
    } else {
        assert(a + b =~= b);
    }
}

/// After a string body, whether more is a string body depends on the rest
/// alone.
proof fn lemma_body_then(y: Seq<u8>, w: Seq<u8>)
    requires
        string_body(y),
    ensures
        string_body(y + w) == string_body(w),
    decreases y.len(),
{
    if y.len() > 0 {
        if y[0] == 92 {
            lemma_body_then(y.skip(2), w);
            assert((y + w).skip(2) =~= y.skip(2) + w);
        } else {
            lemma_body_then(y.skip(1), w);
            assert((y + w).skip(1) =~= y.skip(1) + w);
        }
    } else {
        assert(y + w =~= w);
    }
}

/// The string literal from `pos` that closes at `j` is its body between the
/// quotes.
proof fn lemma_string_at(src: Seq<u8>, pos: int, j: int)
    requires
        0 <= pos < j < src.len(),
    ensures
        string_text(src.subrange(pos, j + 1)) == (src[pos] == 34 && src[j] == 34 && string_body(
            src.subrange(pos + 1, j),
        )),
{
    let s = src.subrange(pos, j + 1);
    assert(s.subrange(1, s.len() - 1) =~= src.subrange(pos + 1, j));
}

/// A body that goes on past position `i` of the source, where a body
/// `src[pos + 1..i]` ends, is a body only if `src[i..]` starts one.
proof fn lemma_body_past(src: Seq<u8>, pos: int, i: int, j: int)
    requires
        0 <= pos < i <= j <= src.len(),
        string_body(src.subrange(pos + 1, i)),
    ensures
        string_body(src.subrange(pos + 1, j)) == string_body(src.subrange(i, j)),
{
    lemma_body_then(src.subrange(pos + 1, i), src.subrange(i, j));
    assert(src.subrange(pos + 1, i) + src.subrange(i, j) =~= src.subrange(pos + 1, j));
}

/// Scan a string literal at `pos`, where there is a double quote.
fn scan_string(src: &Vec<u8>, pos: usize) -> (r: Option<usize>)
    requires
        pos < src@.len(),
        src@[pos as int] == 34,
    ensures
        r matches Some(end) ==> pos < end <= src@.len() && string_text(src@.subrange(pos as int, end as int)),
        forall|e: int|
            pos < e <= src@.len() && string_text(#[trigger] src@.subrange(pos as int, e)) ==> r == Some(e as usize),
{
    let ghost full = src@;
    assert(pos < src.len());
    let mut i = pos + 1;
    assert(string_body(src@.subrange(pos + 1, i as int))) by {
        assert(src@.subrange(pos + 1, i as int) =~= Seq::<u8>::empty());
    }
    proof {
        assert forall|e: int| pos < e <= pos + 1 implies !string_text(#[trigger] full.subrange(pos as int, e)) by {}
    }
    while i < src.len()
        invariant
            pos < i <= src@.len(),
            full == src@,
            src@[pos as int] == 34,
            string_body(src@.subrange(pos + 1, i as int)),
            forall|e: int| pos < e <= i ==> !string_text(#[trigger] full.subrange(pos as int, e)),
        decreases src@.len() - i,
    {
        let c = src[i];
        if c == 34 {
            proof {
                lemma_string_at(full, pos as int, i as int);
                assert forall|e: int| i + 1 < e <= full.len() implies !string_text(
                    #[trigger] full.subrange(pos as int, e),
                ) by {
                    lemma_string_at(full, pos as int, e - 1);
                    lemma_body_past(full, pos as int, i as int, e - 1);
                }
            }
            return Some(i + 1);
        }
        if c == 10 {
            proof {
                assert forall|e: int| i < e <= full.len() implies !string_text(#[trigger] full.subrange(pos as int, e)) by {
                    lemma_string_at(full, pos as int, e - 1);
                    lemma_body_past(full, pos as int, i as int, e - 1);
                }
            }
            return None;
        }
        if c == 92 {
            if i + 1 >= src.len() || src[i + 1] == 10 {
                proof {
                    assert forall|e: int| i < e <= full.len() implies !string_text(
                        #[trigger] full.subrange(pos as int, e),
                    ) by {
                        lemma_string_at(full, pos as int, e - 1);
                        lemma_body_past(full, pos as int, i as int, e - 1);
                    }
                }
                return None;
            }
            let ghost item = src@.subrange(i as int, i + 2);
            assert(string_body(item)) by {
                assert(item[0] == 92 && item[1] == src@[i + 1]);
                assert(item.skip(2) =~= Seq::<u8>::empty());
                assert(string_body(item.skip(2)));
            }
            proof {
                lemma_string_body_append(src@.subrange(pos + 1, i as int), item);
                assert(src@.subrange(pos + 1, i as int) + item =~= src@.subrange(pos + 1, i + 2));
                assert forall|e: int| i < e <= i + 2 implies !string_text(#[trigger] full.subrange(pos as int, e)) by {
                    lemma_string_at(full, pos as int, e - 1);
                    lemma_body_past(full, pos as int, i as int, e - 1);
                }
            }
            i = i + 2;
        } else {
            let ghost item = src@.subrange(i as int, i + 1);
            assert(string_body(item)) by {
                assert(item[0] == c);
                assert(item.skip(1) =~= Seq::<u8>::empty());
                assert(string_body(item.skip(1)));
            }
            proof {
                lemma_string_body_append(src@.subrange(pos + 1, i as int), item);
                assert(src@.subrange(pos + 1, i as int) + item =~= src@.subrange(pos + 1, i + 1));
                assert forall|e: int| i < e <= i + 1 implies !string_text(#[trigger] full.subrange(pos as int, e)) by {
                    lemma_string_at(full, pos as int, e - 1);
                }
            }
            i = i + 1;
        }
    }
    None
}

/// The keyword that `src[from..to]` spells, if any.
fn keyword_of(src: &Vec<u8>, from: usize, to: usize) -> (r: Option<TokenType>)
    requires
        from <= to <= src@.len(),
    ensures
        r == keyword(src@.subrange(from as int, to as int)),
{
    let ghost s = src@.subrange(from as int, to as int);
    let n = to - from;
    let r = if n == 3 && src[from] == 112 && src[from + 1] == 117 && src[from + 2] == 98 {
        Some(TokenType::Pub)
    } else if n == 5 && src[from] == 99 && src[from + 1] == 111 && src[from + 2] == 110 && src[from + 3] == 115 && src[from + 4] == 116 {
        Some(TokenType::Const)
    } else if n == 6 && src[from] == 115 && src[from + 1] == 116 && src[from + 2] == 97 && src[from + 3] == 116 && src[from + 4] == 105 && src[from + 5]
        == 99 {
        Some(TokenType::Static)
    } else if n == 3 && src[from] == 109 && src[from + 1] == 117 && src[from + 2] == 116 {
        Some(TokenType::Mut)
    } else if n == 4 && src[from] == 98 && src[from + 1] == 121 && src[from + 2] == 116 && src[from + 3] == 101 {
        Some(TokenType::Byte)
    } else if n == 4 && src[from] == 104 && src[from + 1] == 97 && src[from + 2] == 108 && src[from + 3] == 102 {
        Some(TokenType::Half)
    } else if n == 4 && src[from] == 119 && src[from + 1] == 111 && src[from + 2] == 114 && src[from + 3] == 100 {
        Some(TokenType::Word)
    } else if n == 6 && src[from] == 115 && src[from + 1] == 105 && src[from + 2] == 122 && src[from + 3] == 101 && src[from + 4] == 111 && src[from + 5]
        == 102 {
        Some(TokenType::Sizeof)
    } else {
        None
    };
    r
}


/// An unrecognised character at `pos`: its UTF-8 length, cut short at the end
/// of the source.
fn unknown_token(src: &Vec<u8>, pos: usize) -> (t: Token)
    requires
        pos < src@.len(),
    ensures
        t.tt == TokenType::Unknown,
        t.start == pos,
        pos < t.end <= src@.len(),
        t.end == (if pos + utf8_len(src@[pos as int]) > src@.len() {
            src@.len() as int
        } else {
            pos + utf8_len(src@[pos as int])
        }),
{
    let l = utf8_length(src[pos]);
    let end = if l > src.len() - pos {
        src.len()
    } else {
        pos + l
    };
    Token { tt: TokenType::Unknown, start: pos, end }
}

/// No kind of token but `Unknown` has the text `s`.
pub open spec fn no_token(s: Seq<u8>) -> bool {
    forall|tt: TokenType| tt != TokenType::Unknown ==> !token_text_ok(tt, s)
}

/// No text of the source from `pos` that ends after `end` is a token.
pub open spec fn none_longer(src: Seq<u8>, pos: int, end: int) -> bool {
    forall|e: int| end < e <= src.len() ==> no_token(#[trigger] src.subrange(pos, e))
}

/// The bytes a token of each kind can start with.
pub open spec fn first_byte_ok(tt: TokenType, c: u8) -> bool {
    match tt {
        TokenType::OpenSquare => c == 91,
        TokenType::CloseSquare => c == 93,
        TokenType::OpenParen => c == 40,
        TokenType::CloseParen => c == 41,
        TokenType::Comma => c == 44,
        TokenType::Colon => c == 58,
        TokenType::DoubleDot => c == 46,
        TokenType::IntLiteral => c == 45 || is_digit(c),
        TokenType::FloatLiteral => c == 45 || is_digit(c),
        TokenType::CharLiteral => c == 39,
        TokenType::StringLiteral => c == 34,
        TokenType::Comment => c == 47,
        TokenType::Newline => c == 10 || c == 13,
        TokenType::Whitespace => is_blank(c),
        TokenType::Unknown => true,
        _ => is_ident_start(c),
    }
}

/// A keyword is spelt with identifier characters only.
proof fn lemma_keyword_letters(s: Seq<u8>)
    requires
        keyword(s) is Some,
    ensures
        s.len() >= 3,
        is_ident_start(s[0]),
        forall|i: int| 0 <= i < s.len() ==> is_ident_continue(#[trigger] s[i]),
{
}

/// An unsigned number starts with a digit.
proof fn lemma_unsigned_number_starts(s: Seq<u8>)
    requires
        unsigned_int_text(s) || unsigned_float_text(s),
    ensures
        s.len() >= 1 && is_digit(s[0]),
{
    if unsigned_float_text(s) {
        let (k, m) = choose|k: int, m: int|
            1 <= k && k + 1 < m <= s.len() && digits_text(s.take(k)) && s[k] == 46 && digits_text(
                s.subrange(k + 1, m),
            ) && exponent_text(s.skip(m));
        assert(s.take(k)[0] == s[0]);
    } else if exists|k: int| 1 <= k <= s.len() && digits_text(s.take(k)) && exponent_text(s.skip(k)) {
        let k = choose|k: int| 1 <= k <= s.len() && digits_text(s.take(k)) && exponent_text(s.skip(k));
        assert(s.take(k)[0] == s[0]);
    }
}

/// A token's first byte is one its kind can start with.
proof fn lemma_first_byte(tt: TokenType, s: Seq<u8>)
    requires
        tt != TokenType::Unknown,
        token_text_ok(tt, s),
    ensures
        s.len() >= 1,
        first_byte_ok(tt, s[0]),
{
    match tt {
        TokenType::IntLiteral => {
            if unsigned_int_text(s) {
                lemma_unsigned_number_starts(s);
            }
        },
        TokenType::FloatLiteral => {
            if unsigned_float_text(s) {
                lemma_unsigned_number_starts(s);
            }
        },
        TokenType::Identifier => {},
        TokenType::Pub | TokenType::Const | TokenType::Static | TokenType::Mut | TokenType::Byte
        | TokenType::Half | TokenType::Word | TokenType::Sizeof => {
            lemma_keyword_letters(s);
        },
        _ => {},
    }
}

/// A text whose first byte no kind of token starts with is no token.
proof fn lemma_no_kind_starts(s: Seq<u8>)
    requires
        s.len() >= 1,
        forall|tt: TokenType| tt != TokenType::Unknown ==> !first_byte_ok(tt, #[trigger] s[0]),
    ensures
        no_token(s),
{
    assert forall|tt: TokenType| tt != TokenType::Unknown implies !token_text_ok(tt, s) by {
        if token_text_ok(tt, s) {
            lemma_first_byte(tt, s);
        }
    }
}

/// Where only one kind of token starts with the text's first byte, the text
/// is no token unless it is one of that kind.
proof fn lemma_only_kind(s: Seq<u8>, only: TokenType)
    requires
        s.len() >= 1,
        only != TokenType::Unknown,
        forall|tt: TokenType| tt != TokenType::Unknown && tt != only ==> !first_byte_ok(tt, #[trigger] s[0]),
        !token_text_ok(only, s),
    ensures
        no_token(s),
{
    assert forall|tt: TokenType| tt != TokenType::Unknown implies !token_text_ok(tt, s) by {
        if token_text_ok(tt, s) && tt != only {
            lemma_first_byte(tt, s);
        }
    }
}

/// A text that starts with an identifier character and holds a byte that
/// cannot continue an identifier is no token.
proof fn lemma_not_ident(s: Seq<u8>, k: int)
    requires
        1 <= k < s.len(),
        is_ident_start(s[0]),
        !is_ident_continue(s[k]),
    ensures
        no_token(s),
{
    assert forall|tt: TokenType| tt != TokenType::Unknown implies !token_text_ok(tt, s) by {
        if token_text_ok(tt, s) {
            lemma_first_byte(tt, s);
            if keyword(s) is Some {
                lemma_keyword_letters(s);
            }
        }
    }
}

/// Where only two kinds of token start with the text's first byte, the text
/// is no token unless it is one of those kinds.
proof fn lemma_only_kinds(s: Seq<u8>, a: TokenType, b: TokenType)
    requires
        s.len() >= 1,
        a != TokenType::Unknown,
        b != TokenType::Unknown,
        forall|tt: TokenType| tt != TokenType::Unknown && tt != a && tt != b ==> !first_byte_ok(tt, #[trigger] s[0]),
        !token_text_ok(a, s),
        !token_text_ok(b, s),
    ensures
        no_token(s),
{
    assert forall|tt: TokenType| tt != TokenType::Unknown implies !token_text_ok(tt, s) by {
        if token_text_ok(tt, s) && tt != a && tt != b {
            lemma_first_byte(tt, s);
        }
    }
}

/// The end of an unrecognised character at `pos`: its UTF-8 length, cut
/// short at the end of the source.
pub open spec fn unknown_end(src: Seq<u8>, pos: int) -> int {
    if pos + utf8_len(src[pos]) > src.len() {
        src.len() as int
    } else {
        pos + utf8_len(src[pos])
    }
}

/// The token that starts at `pos`: the longest text there that is a token
/// of some kind (the kind of a text being unique), or, where no text there
/// is a token, one unrecognised character.
pub fn next_token(src: &Vec<u8>, pos: usize) -> (t: Token)
    requires
        pos < src@.len(),
    ensures
        t.start == pos,
        pos < t.end <= src@.len(),
        token_text_ok(t.tt, token_text(src@, t)),
        t.tt != TokenType::Unknown ==> none_longer(src@, pos as int, t.end as int),
        t.tt == TokenType::Unknown ==> none_longer(src@, pos as int, pos as int) && t.end == unknown_end(
            src@,
            pos as int,
        ),
{
    let len = src.len();
    let c = src[pos];
    let ghost full = src@;
    let one = |tt: TokenType| -> (t: Token)
        requires
            pos < len,
        ensures
            t == (Token { tt, start: pos, end: (pos + 1) as usize }),
        { Token { tt, start: pos, end: pos + 1 } };
    if c == 10 {
        let t = one(TokenType::Newline);
        assert(token_text(full, t) =~= seq![10u8]);
        proof {
            assert forall|e: int| pos + 1 < e <= full.len() implies no_token(#[trigger] full.subrange(pos as int, e)) by {
                lemma_only_kind(full.subrange(pos as int, e), TokenType::Newline);
            }
        }
        return t;
    }
    if c == 13 {
        if pos + 1 < len && src[pos + 1] == 10 {
            let t = Token { tt: TokenType::Newline, start: pos, end: pos + 2 };
            assert(token_text(full, t) =~= seq![13u8, 10u8]);
            proof {
                assert forall|e: int| pos + 2 < e <= full.len() implies no_token(#[trigger] full.subrange(pos as int, e)) by {
                    lemma_only_kind(full.subrange(pos as int, e), TokenType::Newline);
                }
            }
            return t;
        }
        let t = one(TokenType::Newline);
        assert(token_text(full, t) =~= seq![13u8]);
        proof {
            assert forall|e: int| pos + 1 < e <= full.len() implies no_token(#[trigger] full.subrange(pos as int, e)) by {
                let s = full.subrange(pos as int, e);
                assert(s[1] == full[pos + 1]);
                lemma_only_kind(s, TokenType::Newline);
            }
        }
        return t;
    }
    if c == 32 || c == 9 || c == 11 || c == 12 {
        let e = scan_run(src, pos, 3);
        let t = Token { tt: TokenType::Whitespace, start: pos, end: e };
        assert(all_in(token_text(full, t), 0, (e - pos) as int, |c: u8| is_blank(c))) by {
            assert forall|i: int| 0 <= i < e - pos implies is_blank(#[trigger] token_text(full, t)[i]) by {
                assert(token_text(full, t)[i] == full[pos + i]);
            }
        }
        proof {
            assert forall|e2: int| e < e2 <= full.len() implies no_token(#[trigger] full.subrange(pos as int, e2)) by {
                let s = full.subrange(pos as int, e2);
                assert(s[e - pos] == full[e as int]);
                lemma_only_kind(s, TokenType::Whitespace);
            }
        }
        return t;
    }
    if c == 47 && pos + 1 < len && src[pos + 1] == 47 {
        let e = scan_run(src, pos + 2, 4);
        let t = Token { tt: TokenType::Comment, start: pos, end: e };
        assert(all_in(token_text(full, t), 2, (e - pos) as int, |c: u8| c != 10 && c != 13)) by {
            assert forall|i: int| 2 <= i < e - pos implies #[trigger] token_text(full, t)[i] != 10 && token_text(full, t)[i] != 13 by {
                assert(token_text(full, t)[i] == full[pos + i]);
            }
        }
        proof {
            assert forall|e2: int| e < e2 <= full.len() implies no_token(#[trigger] full.subrange(pos as int, e2)) by {
                let s = full.subrange(pos as int, e2);
                assert(s[e - pos] == full[e as int]);
                lemma_only_kind(s, TokenType::Comment);
            }
        }
        return t;
    }
    if c == 91 || c == 93 || c == 40 || c == 41 || c == 44 || c == 58 {
        let tt = if c == 91 {
            TokenType::OpenSquare
        } else if c == 93 {
            TokenType::CloseSquare
        } else if c == 40 {
            TokenType::OpenParen
        } else if c == 41 {
            TokenType::CloseParen
        } else if c == 44 {
            TokenType::Comma
        } else {
            TokenType::Colon
        };
        let t = one(tt);
        assert(token_text(full, t) =~= seq![c]);
        proof {
            assert forall|e: int| pos + 1 < e <= full.len() implies no_token(#[trigger] full.subrange(pos as int, e)) by {
                lemma_only_kind(full.subrange(pos as int, e), tt);
            }
        }
        return t;
    }
    if c == 46 && pos + 1 < len && src[pos + 1] == 46 {
        let t = Token { tt: TokenType::DoubleDot, start: pos, end: pos + 2 };
        assert(token_text(full, t) =~= seq![46u8, 46u8]);
        proof {
            assert forall|e: int| pos + 2 < e <= full.len() implies no_token(#[trigger] full.subrange(pos as int, e)) by {
                lemma_only_kind(full.subrange(pos as int, e), TokenType::DoubleDot);
            }
        }
        return t;
    }
    if c == 39 {
        let r = scan_char(src, pos);
        if let Some(e) = r {
            proof {
                assert forall|e2: int| e < e2 <= full.len() implies no_token(#[trigger] full.subrange(pos as int, e2)) by {
                    lemma_only_kind(full.subrange(pos as int, e2), TokenType::CharLiteral);
                }
            }
            return Token { tt: TokenType::CharLiteral, start: pos, end: e };
        }
        proof {
            assert forall|e2: int| pos < e2 <= full.len() implies no_token(#[trigger] full.subrange(pos as int, e2)) by {
                lemma_only_kind(full.subrange(pos as int, e2), TokenType::CharLiteral);
            }
        }
        return unknown_token(src, pos);
    }
    if c == 34 {
        let r = scan_string(src, pos);
        if let Some(e) = r {
            proof {
                assert forall|e2: int| e < e2 <= full.len() implies no_token(#[trigger] full.subrange(pos as int, e2)) by {
                    lemma_only_kind(full.subrange(pos as int, e2), TokenType::StringLiteral);
                }
            }
            return Token { tt: TokenType::StringLiteral, start: pos, end: e };
        }
        proof {
            assert forall|e2: int| pos < e2 <= full.len() implies no_token(#[trigger] full.subrange(pos as int, e2)) by {
                lemma_only_kind(full.subrange(pos as int, e2), TokenType::StringLiteral);
            }
        }
        return unknown_token(src, pos);
    }
    if c == 45 || (48 <= c && c <= 57) {
        let r = scan_number(src, pos);
        if let Some((tt, e)) = r {
            proof {
                assert forall|e2: int| e < e2 <= full.len() implies no_token(#[trigger] full.subrange(pos as int, e2)) by {
                    lemma_only_kinds(full.subrange(pos as int, e2), TokenType::IntLiteral, TokenType::FloatLiteral);
                }
            }
            return Token { tt, start: pos, end: e };
        }
        proof {
            assert forall|e2: int| pos < e2 <= full.len() implies no_token(#[trigger] full.subrange(pos as int, e2)) by {
                lemma_only_kinds(full.subrange(pos as int, e2), TokenType::IntLiteral, TokenType::FloatLiteral);
            }
        }
        return unknown_token(src, pos);
    }
    if (65 <= c && c <= 90) || (97 <= c && c <= 122) || c == 95 {
        let e = scan_run(src, pos + 1, 2);
        let kw = keyword_of(src, pos, e);
        let tt = match kw {
            Some(k) => k,
            None => TokenType::Identifier,
        };
        let t = Token { tt, start: pos, end: e };
        proof {
            let s = token_text(full, t);
            assert(all_in(s, 1, s.len() as int, |c: u8| is_ident_continue(c))) by {
                assert forall|i: int| 1 <= i < s.len() implies is_ident_continue(#[trigger] s[i]) by {
                    assert(s[i] == full[pos + i]);
                }
            }
            assert(ident_text(s));
            assert forall|e2: int| e < e2 <= full.len() implies no_token(#[trigger] full.subrange(pos as int, e2)) by {
                let s2 = full.subrange(pos as int, e2);
                assert(s2[e - pos] == full[e as int]);
                lemma_not_ident(s2, e - pos);
            }
        }
        return t;
    }
    proof {
        assert forall|e2: int| pos < e2 <= full.len() implies no_token(#[trigger] full.subrange(pos as int, e2)) by {
            let s = full.subrange(pos as int, e2);
            if c == 47 {
                if e2 > pos + 1 {
                    assert(s[1] == full[pos + 1]);
                }
                lemma_only_kind(s, TokenType::Comment);
            } else if c == 46 {
                if e2 > pos + 1 {
                    assert(s[1] == full[pos + 1]);
                }
                lemma_only_kind(s, TokenType::DoubleDot);
            } else {
                lemma_no_kind_starts(s);
            }
        }
    }
    unknown_token(src, pos)
}

/// An unsigned integer literal has no point.
proof fn lemma_int_no_point(u: Seq<u8>, i: int)
    requires
        unsigned_int_text(u),
        0 <= i < u.len(),
    ensures
        u[i] != 46,
{
    if exists|k: int| 1 <= k <= u.len() && digits_text(u.take(k)) && exponent_text(u.skip(k)) {
        let k = choose|k: int| 1 <= k <= u.len() && digits_text(u.take(k)) && exponent_text(u.skip(k));
        if i < k {
            assert(u.take(k)[i] == u[i]);
        } else {
            let x = u.skip(k);
            assert(x[i - k] == u[i]);
            if i - k >= 2 || (i - k == 1 && x[1] != 45) {
                if digits_text(x.skip(1)) {
                    assert(x.skip(1)[i - k - 1] == x[i - k]);
                } else {
                    assert(x.skip(2)[i - k - 2] == x[i - k]);
                }
            }
        }
    }
}

/// No text is both an integer and a float literal.
proof fn lemma_int_not_float(s: Seq<u8>)
    ensures
        !(int_text(s) && float_text(s)),
{
    if int_text(s) && float_text(s) {
        let u = if s.len() >= 1 && s[0] == 45 {
            if unsigned_int_text(s) || unsigned_float_text(s) {
                lemma_unsigned_number_starts(s);
            }
            s.skip(1)
        } else {
            s
        };
        assert(unsigned_int_text(u) && unsigned_float_text(u));
        let (k, m) = choose|k: int, m: int|
            1 <= k && k + 1 < m <= u.len() && digits_text(u.take(k)) && u[k] == 46 && digits_text(
                u.subrange(k + 1, m),
            ) && exponent_text(u.skip(m));
        lemma_int_no_point(u, k);
    }
}

/// A text is a token of at most one kind.
pub proof fn lemma_kind_unique(s: Seq<u8>, a: TokenType, b: TokenType)
    requires
        a != TokenType::Unknown,
        b != TokenType::Unknown,
        token_text_ok(a, s),
        token_text_ok(b, s),
    ensures
        a == b,
{
    lemma_first_byte(a, s);
    lemma_first_byte(b, s);
    if (a == TokenType::IntLiteral && b == TokenType::FloatLiteral) || (a == TokenType::FloatLiteral && b
        == TokenType::IntLiteral) {
        lemma_int_not_float(s);
    }
}

/// Whether a token is as long as lexing makes it: the longest token text at
/// its start, or one unrecognised character where no text there is a token.
pub open spec fn token_maximal(src: Seq<u8>, t: Token) -> bool {
    if t.tt != TokenType::Unknown {
        none_longer(src, t.start as int, t.end as int)
    } else {
        none_longer(src, t.start as int, t.start as int) && t.end == unknown_end(src, t.start as int)
    }
}

/// The tokens of a source: they cover it, and each is as long as lexing
/// makes it.
pub open spec fn lexed(src: Seq<u8>, toks: Seq<Token>) -> bool {
    &&& tokens_cover(src, toks)
    &&& forall|i: int| 0 <= i < toks.len() ==> token_maximal(src, #[trigger] toks[i])
}

/// Two tokens at one place, each as long as lexing makes it, are one.
proof fn lemma_token_unique(src: Seq<u8>, t1: Token, t2: Token)
    requires
        t1.start == t2.start,
        t1.start < t1.end <= src.len(),
        t2.start < t2.end <= src.len(),
        token_text_ok(t1.tt, token_text(src, t1)),
        token_text_ok(t2.tt, token_text(src, t2)),
        token_maximal(src, t1),
        token_maximal(src, t2),
    ensures
        t1 == t2,
{
    let p = t1.start as int;
    if t1.tt != TokenType::Unknown && t2.tt != TokenType::Unknown {
        if t1.end < t2.end {
            assert(no_token(src.subrange(p, t2.end as int)));
        } else if t2.end < t1.end {
            assert(no_token(src.subrange(p, t1.end as int)));
        } else {
            lemma_kind_unique(token_text(src, t1), t1.tt, t2.tt);
        }
    } else if t1.tt != TokenType::Unknown {
        assert(no_token(src.subrange(p, t1.end as int)));
    } else if t2.tt != TokenType::Unknown {
        assert(no_token(src.subrange(p, t2.end as int)));
    }
}

/// A source has one way to be lexed: any two token sequences that cover it
/// with each token as long as lexing makes it are the same.
pub proof fn lemma_lexing_unique(src: Seq<u8>, a: Seq<Token>, b: Seq<Token>)
    requires
        lexed(src, a),
        lexed(src, b),
    ensures
        a == b,
{
    if a.len() == 0 || b.len() == 0 {
        return;
    }
    let n = if a.len() < b.len() {
        a.len()
    } else {
        b.len()
    };
    assert forall|i: int| 0 <= i < n implies a[i] == b[i] by {
        lemma_same_prefix(src, a, b, i);
    }
    if a.len() < b.len() {
        lemma_same_prefix(src, a, b, a.len() - 1);
        assert(b[a.len() - 1].end == b[a.len() as int].start);
    } else if b.len() < a.len() {
        lemma_same_prefix(src, a, b, b.len() - 1);
        assert(a[b.len() - 1].end == a[b.len() as int].start);
    }
    assert(a =~= b);
}

/// The first `i + 1` tokens of two lexings agree.
proof fn lemma_same_prefix(src: Seq<u8>, a: Seq<Token>, b: Seq<Token>, i: int)
    requires
        lexed(src, a),
        lexed(src, b),
        0 <= i < a.len(),
        i < b.len(),
    ensures
        a[i] == b[i],
    decreases i,
{
    if i > 0 {
        lemma_same_prefix(src, a, b, i - 1);
        assert(a[i - 1].end == a[i].start);
        assert(b[i - 1].end == b[i].start);
    }
    lemma_token_unique(src, a[i], b[i]);
}

/// Split a whole source into tokens, each as long as it can be: the one
/// way to lex the source (`lemma_lexing_unique`).
pub fn lex(src: &Vec<u8>) -> (toks: Vec<Token>)
    ensures
        lexed(src@, toks@),
{
    let mut toks: Vec<Token> = Vec::new();
    let mut pos: usize = 0;
    while pos < src.len()
        invariant
            pos <= src@.len(),
            toks@.len() == 0 <==> pos == 0,
            toks@.len() > 0 ==> toks@[0].start == 0 && toks@.last().end == pos,
            forall|i: int| 0 <= i < toks@.len() - 1 ==> #[trigger] toks@[i].end == toks@[i + 1].start,
            forall|i: int| 0 <= i < toks@.len() ==> #[trigger] toks@[i].start < toks@[i].end <= src@.len(),
            forall|i: int| 0 <= i < toks@.len() ==> token_text_ok(#[trigger] toks@[i].tt, token_text(src@, toks@[i])),
            forall|i: int| 0 <= i < toks@.len() ==> token_maximal(src@, #[trigger] toks@[i]),
        decreases src@.len() - pos,
    {
        let t = next_token(src, pos);
        let ghost before = toks@;
        toks.push(t);
        assert forall|i: int| 0 <= i < toks@.len() - 1 implies #[trigger] toks@[i].end == toks@[i + 1].start by {
            if i < before.len() - 1 {
                assert(toks@[i] == before[i] && toks@[i + 1] == before[i + 1]);
            }
        }
        pos = t.end;
    }
    toks
}

/// A lexer over a source text.
pub struct Lexer {
    source: Vec<u8>,
}

impl Lexer {
    /// A lexer over the given source.
    pub fn new(source: &str) -> (r: Self)
        ensures
            r.source_view() == crate::salt::lexer::str_bytes(source),
    {
        Lexer { source: string_bytes(source) }
    }

    /// The source's bytes.
    pub closed spec fn source_view(&self) -> Seq<u8> {
        self.source@
    }

    /// The source's bytes.
    pub fn source(&self) -> (r: &Vec<u8>)
        ensures
            r@ == self.source_view(),
    {
        &self.source
    }

    /// Take the source's bytes out.
    pub fn into_source(self) -> (r: Vec<u8>)
        ensures
            r@ == self.source_view(),
    {
        self.source
    }
}

/// The UTF-8 bytes of a string.
pub open spec fn str_bytes(s: &str) -> Seq<u8> {
    s.spec_bytes()
}

/// The UTF-8 bytes of a string.
fn string_bytes(s: &str) -> (r: Vec<u8>)
    ensures
        r@ == str_bytes(s),
{
    crate::bytes::copy_bytes(s.as_bytes())
}

} // verus!
