//! Reporting diagnostics: the line of the source that a span lies in, with a
//! row of carets under the span, and the public constants that later files
//! of an assembly may use.
use vstd::prelude::*;
use crate::salt::ast::ConstDecl;
use crate::salt::ast::{has_kind, node_ok};
use crate::salt::syntax::{children, SyntaxKind};
use crate::text::{decimal, decimal_bytes};

verus! {

/// The start of the line that holds position `p`: just after the last
/// newline before it.
pub open spec fn line_start_at(s: Seq<u8>, p: int) -> int
    decreases p,
{
    if p <= 0 || p > s.len() {
        0
    } else if s[p - 1] == 10 {
        p
    } else {
        line_start_at(s, p - 1)
    }
}

/// The number (from one) of the line that holds position `p`: one more
/// than the newlines before it.
pub open spec fn line_number_at(s: Seq<u8>, p: int) -> int
    decreases p,
{
    if p <= 0 || p > s.len() {
        1
    } else {
        line_number_at(s, p - 1) + (if s[p - 1] == 10 {
            1int
        } else {
            0int
        })
    }
}

/// The end of the line from position `p` on: the first newline at or after
/// it, or the end of the text.
pub open spec fn line_end_from(s: Seq<u8>, p: int) -> int
    decreases s.len() - p,
{
    if p < 0 || p >= s.len() {
        s.len() as int
    } else if s[p] == 10 {
        p
    } else {
        line_end_from(s, p + 1)
    }
}

/// The first position at or after `p` that does not hold a space.
pub open spec fn first_nonspace(s: Seq<u8>, p: int) -> int
    decreases s.len() - p,
{
    if p < 0 || p >= s.len() {
        s.len() as int
    } else if s[p] != 32 {
        p
    } else {
        first_nonspace(s, p + 1)
    }
}

/// Just after the last position before `p` that does not hold a space.
pub open spec fn nonspace_end(s: Seq<u8>, p: int) -> int
    decreases p,
{
    if p <= 0 || p > s.len() {
        0
    } else if s[p - 1] != 32 {
        p
    } else {
        nonspace_end(s, p - 1)
    }
}

/// The context of a span: its line's number and text, and a highlight of
/// the span for printing under `"<number> | <text>"`.
#[derive(Debug)]
pub struct Context {
    pub line: usize,
    pub text: Vec<u8>,
    pub highlight: Vec<u8>,
}

/// The highlight of the span `start..end` in `s`: nothing for an empty
/// span; else, under the line printed after the prefix `"<number> | "`,
/// spaces up to the span's first non-space byte and carets to just after
/// its last.
pub open spec fn highlight_spec(s: Seq<u8>, start: int, end: int) -> Seq<u8> {
    if start == end {
        Seq::empty()
    } else {
        let prefix = decimal(line_number_at(s, start) as nat).len() + 3;
        let ls = line_start_at(s, start);
        let hs = first_nonspace(s, start) + prefix - ls;
        let he = nonspace_end(s, end) + prefix - ls;
        Seq::new(hs as nat, |i: int| 32u8) + Seq::new((he - hs) as nat, |i: int| 94u8)
    }
}

proof fn lemma_line_start_bounds(s: Seq<u8>, p: int)
    requires
        0 <= p <= s.len(),
    ensures
        0 <= line_start_at(s, p) <= p,
        1 <= line_number_at(s, p) <= p + 1,
    decreases p,
{
    if p > 0 {
        lemma_line_start_bounds(s, p - 1);
    }
}

proof fn lemma_line_end_bounds(s: Seq<u8>, p: int)
    requires
        0 <= p <= s.len(),
    ensures
        p <= line_end_from(s, p) <= s.len(),
    decreases s.len() - p,
{
    if p < s.len() {
        lemma_line_end_bounds(s, p + 1);
    }
}

/// Where the span holds a byte other than a space, its first non-space
/// byte lies at or before it, and its last at or after it.
proof fn lemma_nonspace_within(s: Seq<u8>, start: int, end: int, k: int)
    requires
        0 <= start <= k < end <= s.len(),
        s[k] != 32,
    ensures
        start <= first_nonspace(s, start) <= k,
        k < nonspace_end(s, end) <= end,
{
    lemma_first_nonspace(s, start, k);
    lemma_nonspace_end(s, end, k);
}

proof fn lemma_first_nonspace(s: Seq<u8>, p: int, k: int)
    requires
        0 <= p <= k < s.len(),
        s[k] != 32,
    ensures
        p <= first_nonspace(s, p) <= k,
    decreases k - p,
{
    if s[p] == 32 {
        lemma_first_nonspace(s, p + 1, k);
    }
}

proof fn lemma_nonspace_end(s: Seq<u8>, p: int, k: int)
    requires
        0 <= k < p <= s.len(),
        s[k] != 32,
    ensures
        k < nonspace_end(s, p) <= p,
    decreases p - k,
{
    if s[p - 1] == 32 {
        lemma_nonspace_end(s, p - 1, k);
    }
}

/// The context of the span `start..end` of `reference`: the number and text
/// of the line that holds its start (the text runs to the first newline at
/// or after its end), and its highlight as `highlight_spec` says. A span
/// that is not empty must hold a byte other than a space.
pub fn find_context(reference: &Vec<u8>, start: usize, end: usize) -> (r: Context)
    requires
        start <= end <= reference@.len(),
        2 * reference@.len() + 64 <= usize::MAX,
        start < end ==> exists|k: int| start <= k < end && reference@[k] != 32,
    ensures
        r.line == line_number_at(reference@, start as int),
        r.text@ == reference@.subrange(line_start_at(reference@, start as int), line_end_from(reference@, end as int)),
        r.highlight@ == highlight_spec(reference@, start as int, end as int),
{
    let ghost s = reference@;
    let mut line: usize = 1;
    let mut line_start: usize = 0;
    let mut i: usize = 0;
    while i < start
        invariant
            s == reference@,
            i <= start <= reference@.len(),
            2 * reference@.len() + 64 <= usize::MAX,
            line == line_number_at(s, i as int),
            line_start == line_start_at(s, i as int),
        decreases start - i,
    {
        proof {
            lemma_line_start_bounds(s, i as int);
        }
        if reference[i] == 10 {
            line = line + 1;
            line_start = i + 1;
        }
        i = i + 1;
    }
    let mut line_end: usize = end;
    while line_end < reference.len() && reference[line_end] != 10
        invariant
            s == reference@,
            end <= line_end <= reference@.len(),
            line_end_from(s, end as int) == line_end_from(s, line_end as int),
        decreases reference@.len() - line_end,
    {
        line_end = line_end + 1;
    }
    proof {
        lemma_line_start_bounds(s, start as int);
        lemma_line_end_bounds(s, end as int);
    }
    let mut text: Vec<u8> = Vec::new();
    let mut j: usize = line_start;
    while j < line_end
        invariant
            s == reference@,
            line_start <= j <= line_end <= reference@.len(),
            text@ == s.subrange(line_start as int, j as int),
        decreases line_end - j,
    {
        text.push(reference[j]);
        assert(text@ =~= s.subrange(line_start as int, j + 1));
        j = j + 1;
    }
    let mut highlight: Vec<u8> = Vec::new();
    if start == end {
        assert(highlight@ =~= highlight_spec(s, start as int, end as int));
        return Context { line, text, highlight };
    }
    let ghost k = choose|k: int| start <= k < end && s[k] != 32;
    proof {
        lemma_nonspace_within(s, start as int, end as int, k);
    }
    let mut hs: usize = start;
    while reference[hs] == 32
        invariant
            s == reference@,
            start <= hs <= k,
            k < reference@.len(),
            2 * reference@.len() + 64 <= usize::MAX,
            s[k] != 32,
            first_nonspace(s, start as int) == first_nonspace(s, hs as int),
        decreases k - hs,
    {
        hs = hs + 1;
    }
    let mut he: usize = end;
    while reference[he - 1] == 32
        invariant
            s == reference@,
            0 <= k < he <= end <= reference@.len(),
            s[k] != 32,
            nonspace_end(s, end as int) == nonspace_end(s, he as int),
        decreases he - k,
    {
        he = he - 1;
    }
    let digits = decimal_bytes(line as u64);
    proof {
        lemma_decimal_len(line as nat);
        lemma_line_start_bounds(s, start as int);
    }
    let prefix = digits.len() + 3;
    let h_start = (hs - line_start) + prefix;
    let h_end = (he - line_start) + prefix;
    let mut c: usize = 0;
    while c < h_start
        invariant
            c <= h_start,
            highlight@ == Seq::new(c as nat, |i: int| 32u8),
        decreases h_start - c,
    {
        highlight.push(32);
        assert(highlight@ =~= Seq::new((c + 1) as nat, |i: int| 32u8));
        c = c + 1;
    }
    let mut c: usize = h_start;
    while c < h_end
        invariant
            h_start <= c <= h_end,
            highlight@ == Seq::new(h_start as nat, |i: int| 32u8) + Seq::new((c - h_start) as nat, |i: int| 94u8),
        decreases h_end - c,
    {
        highlight.push(94);
        assert(highlight@ =~= Seq::new(h_start as nat, |i: int| 32u8) + Seq::new((c + 1 - h_start) as nat, |i: int| 94u8));
        c = c + 1;
    }
    Context { line, text, highlight }
}

/// A number has no more decimal digits than one more than itself.
proof fn lemma_decimal_len(n: nat)
    ensures
        decimal(n).len() <= n + 1,
    decreases n,
{
    if n >= 10 {
        lemma_decimal_len(n / 10);
    }
}

/// Whether a constant declaration is public.
pub open spec fn decl_public(c: ConstDecl) -> bool {
    has_kind(c.syntax.tree, children(c.syntax.tree, c.syntax.index as int), SyntaxKind::KwPub)
}

/// The public declarations among `s`, in order.
pub open spec fn public_decls<'a>(s: Seq<ConstDecl<'a>>) -> Seq<ConstDecl<'a>>
    decreases s.len(),
{
    if s.len() == 0 {
        s
    } else if decl_public(s.last()) {
        public_decls(s.drop_last()).push(s.last())
    } else {
        public_decls(s.drop_last())
    }
}

/// Add the public constants of `consts`, in order, to `accumulator`.
pub fn add_public_consts<'a>(accumulator: &mut Vec<ConstDecl<'a>>, consts: Vec<ConstDecl<'a>>)
    requires
        forall|i: int| 0 <= i < consts@.len() ==> node_ok((#[trigger] consts@[i]).syntax.tree, consts@[i].syntax.index as int),
    ensures
        final(accumulator)@ == old(accumulator)@ + public_decls(consts@),
{
    let mut i: usize = 0;
    assert(consts@.take(0) =~= Seq::<ConstDecl<'a>>::empty());
    assert(old(accumulator)@ + public_decls(consts@.take(0)) =~= old(accumulator)@);
    while i < consts.len()
        invariant
            i <= consts@.len(),
            forall|j: int| 0 <= j < consts@.len() ==> node_ok((#[trigger] consts@[j]).syntax.tree, consts@[j].syntax.index as int),
            accumulator@ == old(accumulator)@ + public_decls(consts@.take(i as int)),
        decreases consts@.len() - i,
    {
        let c = consts[i];
        assert(consts@.take(i + 1).drop_last() =~= consts@.take(i as int));
        assert(consts@.take(i + 1).last() == c);
        if c.public() {
            accumulator.push(c);
            assert(accumulator@ =~= old(accumulator)@ + public_decls(consts@.take(i + 1)));
        }
        i = i + 1;
    }
    assert(consts@.take(i as int) =~= consts@);
}

} // verus!
