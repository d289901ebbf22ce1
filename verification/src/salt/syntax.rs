//! The concrete syntax tree: a flat list of events (a node starts, a token,
//! a node finishes) over the source's tokens, with each node's matching
//! finish and the tokens it spans recorded beside it.
use vstd::prelude::*;
use crate::salt::lexer::{token_text, tokens_cover, tokens_text, Token, TokenType, lemma_tokens_text};

verus! {

/// The kinds of syntax tree node and token.
#[derive(Debug, Clone, Copy, PartialEq, Eq, Structural)]
pub enum SyntaxKind {
    Program,
    Line,
    ConstDecl,
    DataDecl,
    DataType,
    Label,
    Instruction,
    Operand,
    ArrayLiteral,
    Literal,
    KwPub,
    KwConst,
    KwStatic,
    KwMut,
    KwByte,
    KwHalf,
    KwWord,
    KwSizeof,
    OpenSquare,
    CloseSquare,
    OpenParen,
    CloseParen,
    Comma,
    Colon,
    DoubleDot,
    IntLiteral,
    FloatLiteral,
    CharLiteral,
    StringLiteral,
    Identifier,
    Comment,
    Newline,
    Whitespace,
    Unknown,
}

/// The syntax kind of a token type.
pub open spec fn token_kind(tt: TokenType) -> SyntaxKind {
    match tt {
        TokenType::Pub => SyntaxKind::KwPub,
        TokenType::Const => SyntaxKind::KwConst,
        TokenType::Static => SyntaxKind::KwStatic,
        TokenType::Mut => SyntaxKind::KwMut,
        TokenType::Byte => SyntaxKind::KwByte,
        TokenType::Half => SyntaxKind::KwHalf,
        TokenType::Word => SyntaxKind::KwWord,
        TokenType::Sizeof => SyntaxKind::KwSizeof,
        TokenType::OpenSquare => SyntaxKind::OpenSquare,
        TokenType::CloseSquare => SyntaxKind::CloseSquare,
        TokenType::OpenParen => SyntaxKind::OpenParen,
        TokenType::CloseParen => SyntaxKind::CloseParen,
        TokenType::Comma => SyntaxKind::Comma,
        TokenType::Colon => SyntaxKind::Colon,
        TokenType::DoubleDot => SyntaxKind::DoubleDot,
        TokenType::IntLiteral => SyntaxKind::IntLiteral,
        TokenType::FloatLiteral => SyntaxKind::FloatLiteral,
        TokenType::CharLiteral => SyntaxKind::CharLiteral,
        TokenType::StringLiteral => SyntaxKind::StringLiteral,
        TokenType::Identifier => SyntaxKind::Identifier,
        TokenType::Comment => SyntaxKind::Comment,
        TokenType::Newline => SyntaxKind::Newline,
        TokenType::Whitespace => SyntaxKind::Whitespace,
        TokenType::Unknown => SyntaxKind::Unknown,
    }
}

impl From<TokenType> for SyntaxKind {
    fn from(tt: TokenType) -> (r: Self) {
        match tt {
            TokenType::Pub => SyntaxKind::KwPub,
            TokenType::Const => SyntaxKind::KwConst,
            TokenType::Static => SyntaxKind::KwStatic,
            TokenType::Mut => SyntaxKind::KwMut,
            TokenType::Byte => SyntaxKind::KwByte,
            TokenType::Half => SyntaxKind::KwHalf,
            TokenType::Word => SyntaxKind::KwWord,
            TokenType::Sizeof => SyntaxKind::KwSizeof,
            TokenType::OpenSquare => SyntaxKind::OpenSquare,
            TokenType::CloseSquare => SyntaxKind::CloseSquare,
            TokenType::OpenParen => SyntaxKind::OpenParen,
            TokenType::CloseParen => SyntaxKind::CloseParen,
            TokenType::Comma => SyntaxKind::Comma,
            TokenType::Colon => SyntaxKind::Colon,
            TokenType::DoubleDot => SyntaxKind::DoubleDot,
            TokenType::IntLiteral => SyntaxKind::IntLiteral,
            TokenType::FloatLiteral => SyntaxKind::FloatLiteral,
            TokenType::CharLiteral => SyntaxKind::CharLiteral,
            TokenType::StringLiteral => SyntaxKind::StringLiteral,
            TokenType::Identifier => SyntaxKind::Identifier,
            TokenType::Comment => SyntaxKind::Comment,
            TokenType::Newline => SyntaxKind::Newline,
            TokenType::Whitespace => SyntaxKind::Whitespace,
            TokenType::Unknown => SyntaxKind::Unknown,
        }
    }
}

impl vstd::std_specs::convert::FromSpecImpl<TokenType> for SyntaxKind {
    open spec fn obeys_from_spec() -> bool {
        true
    }

    open spec fn from_spec(tt: TokenType) -> SyntaxKind {
        token_kind(tt)
    }
}

/// A step of the tree, in source order.
#[derive(Debug, Clone, Copy, PartialEq, Eq, Structural)]
pub enum Event {
    /// A node of this kind starts.
    Start(SyntaxKind),
    /// The token at this index.
    Token(usize),
    /// The innermost open node finishes.
    Finish,
}

/// The token indices of the token events, in order.
pub open spec fn token_seq(events: Seq<Event>) -> Seq<usize>
    decreases events.len(),
{
    if events.len() == 0 {
        Seq::empty()
    } else {
        match events.last() {
            Event::Token(k) => token_seq(events.drop_last()).push(k),
            _ => token_seq(events.drop_last()),
        }
    }
}

/// The text of the token events, put together.
pub open spec fn events_text(src: Seq<u8>, toks: Seq<Token>, events: Seq<Event>) -> Seq<u8>
    decreases events.len(),
{
    if events.len() == 0 {
        Seq::empty()
    } else {
        match events.last() {
            Event::Token(k) => events_text(src, toks, events.drop_last()) + token_text(src, toks[k as int]),
            _ => events_text(src, toks, events.drop_last()),
        }
    }
}

/// The indices `0..n` in order.
pub open spec fn first_indices(n: nat) -> Seq<usize> {
    Seq::new(n, |i: int| i as usize)
}

/// Token events for exactly the first `n` tokens, in order, spell the text
/// of those tokens.
pub proof fn lemma_events_text(src: Seq<u8>, toks: Seq<Token>, events: Seq<Event>)
    requires
        token_seq(events).len() <= toks.len(),
        toks.len() <= usize::MAX,
        token_seq(events) == first_indices(token_seq(events).len()),
    ensures
        events_text(src, toks, events) == tokens_text(src, toks.take(token_seq(events).len() as int)),
    decreases events.len(),
{
    if events.len() > 0 {
        let d = events.drop_last();
        let ts = token_seq(events);
        match events.last() {
            Event::Token(k) => {
                assert(ts == token_seq(d).push(k));
                assert(token_seq(d) =~= ts.drop_last());
                assert(token_seq(d) =~= first_indices(token_seq(d).len()));
                lemma_events_text(src, toks, d);
                let m = token_seq(d).len();
                assert(ts.len() == m + 1);
                assert(k == ts[m as int]);
                assert(ts[m as int] == first_indices(ts.len())[m as int]);
                assert(ts[m as int] == m as usize);
                assert(toks.take(m as int + 1).drop_last() =~= toks.take(m as int));
                assert(toks.take(m as int + 1).last() == toks[m as int]);
                assert(ts.len() == m + 1);
            },
            _ => {
                assert(token_seq(d) == ts);
                lemma_events_text(src, toks, d);
            },
        }
    } else {
        assert(toks.take(0) =~= Seq::<Token>::empty());
    }
}

/// A source span.
#[derive(Debug, Clone, Copy, PartialEq, Eq, Structural)]
pub struct Span {
    pub start: usize,
    pub end: usize,
}

/// A syntax tree over a source text. For a `Start` event at `i`, `close[i]`
/// is the index of its `Finish`, and the node spans the tokens
/// `lo[i]..hi[i]`. `float_bits[k]` holds the bits of the 32-bit float that
/// token `k` denotes, where it is a float literal whose value has been set.
#[derive(Debug)]
pub struct SyntaxTree {
    pub source: Vec<u8>,
    pub tokens: Vec<Token>,
    pub events: Vec<Event>,
    pub close: Vec<usize>,
    pub lo: Vec<usize>,
    pub hi: Vec<usize>,
    pub float_bits: Vec<Option<u32>>,
}

/// The text of a tree: its token events' texts put together.
pub open spec fn tree_text(t: &SyntaxTree) -> Seq<u8> {
    events_text(t.source@, t.tokens@, t.events@)
}

/// A tree whose tokens cover its source and whose token events are exactly
/// all the tokens, in order: the tree holds the source, losslessly.
pub open spec fn lossless(t: &SyntaxTree) -> bool {
    &&& tokens_cover(t.source@, t.tokens@)
    &&& token_seq(t.events@) == first_indices(t.tokens@.len())
}

/// Whether each token event is of a token of the source.
pub open spec fn token_events_ok(t: &SyntaxTree) -> bool {
    forall|i: int|
        0 <= i < t.events@.len() ==> match #[trigger] t.events@[i] {
            Event::Token(k) => k < t.tokens@.len() && t.tokens@[k as int].start <= t.tokens@[k as int].end
                <= t.source@.len(),
            _ => true,
        }
}

/// A lossless tree's text is its source.
pub proof fn lemma_lossless_text(t: &SyntaxTree)
    requires
        lossless(t),
    ensures
        tree_text(t) == t.source@,
{
    assert(t.tokens.len() == t.tokens@.len());
    lemma_events_text(t.source@, t.tokens@, t.events@);
    assert(t.tokens@.take(t.tokens@.len() as int) =~= t.tokens@);
    crate::salt::lexer::lemma_tokens_lossless(t.source@, t.tokens@);
}

/// Whether the bookkeeping of a tree is consistent: one entry per event and
/// per token, each node's tokens within the tokens, and the tokens covering
/// the source.
pub open spec fn well_kept(t: &SyntaxTree) -> bool {
    &&& tokens_cover(t.source@, t.tokens@)
    &&& t.float_bits@.len() == t.tokens@.len()
    &&& t.close@.len() == t.events@.len()
    &&& t.lo@.len() == t.events@.len()
    &&& t.hi@.len() == t.events@.len()
    &&& forall|i: int| 0 <= i < t.events@.len() ==> #[trigger] t.lo@[i] <= t.hi@[i] <= t.tokens@.len()
}


/// A child of a node: a node, by the index of its start event, or a token,
/// by its index.
#[derive(Debug, Clone, Copy, PartialEq, Eq, Structural)]
pub enum Element {
    Node(usize),
    Token(usize),
}

/// The elements that start at the events `i..end`, skipping over nodes.
pub open spec fn children_from(t: &SyntaxTree, i: int, end: int) -> Seq<Element>
    decreases end - i,
{
    if i >= end || i < 0 || i >= t.events@.len() || i >= t.close@.len() {
        Seq::empty()
    } else {
        match t.events@[i] {
            Event::Start(_) => {
                let next = if t.close@[i] > i {
                    t.close@[i] + 1
                } else {
                    i + 1
                };
                if next >= end {
                    seq![Element::Node(i as usize)]
                } else {
                    seq![Element::Node(i as usize)] + children_from(t, next, end)
                }
            },
            Event::Token(k) => seq![Element::Token(k)] + children_from(t, i + 1, end),
            Event::Finish => children_from(t, i + 1, end),
        }
    }
}

/// The children of the node that starts at event `n`, in order.
pub open spec fn children(t: &SyntaxTree, n: int) -> Seq<Element> {
    children_from(t, n + 1, t.close@[n] as int)
}

/// The kind of the node that starts at event `n`, if one does.
pub open spec fn node_kind(t: &SyntaxTree, n: int) -> Option<SyntaxKind> {
    if 0 <= n < t.events@.len() {
        match t.events@[n] {
            Event::Start(k) => Some(k),
            _ => None,
        }
    } else {
        None
    }
}

/// The kind of an element.
pub open spec fn element_kind(t: &SyntaxTree, e: Element) -> Option<SyntaxKind> {
    match e {
        Element::Node(n) => node_kind(t, n as int),
        Element::Token(k) => if k < t.tokens@.len() {
            Some(token_kind(t.tokens@[k as int].tt))
        } else {
            None
        },
    }
}

/// Where token `k` starts, or the end of the source past the last token.
pub open spec fn token_offset(t: &SyntaxTree, k: int) -> int {
    if 0 <= k < t.tokens@.len() {
        t.tokens@[k].start as int
    } else {
        t.source@.len() as int
    }
}

/// The span of source that the node at event `n` covers: from its first
/// token to the end of its last, or an empty span where it has none.
pub open spec fn node_span(t: &SyntaxTree, n: int) -> Span {
    let lo = t.lo@[n] as int;
    let hi = t.hi@[n] as int;
    if lo < hi && hi <= t.tokens@.len() {
        Span { start: t.tokens@[lo].start, end: t.tokens@[hi - 1].end }
    } else {
        Span { start: token_offset(t, lo) as usize, end: token_offset(t, lo) as usize }
    }
}

/// The span of token `k`.
pub open spec fn token_span(t: &SyntaxTree, k: int) -> Span {
    Span { start: t.tokens@[k].start, end: t.tokens@[k].end }
}

impl SyntaxTree {
    /// The children of the node that starts at event `n`.
    pub fn children_of(&self, n: usize) -> (r: Vec<Element>)
        requires
            well_kept(self),
            n < self.events@.len(),
        ensures
            r@ == children(self, n as int),
    {
        let len = self.events.len();
        let end = self.close[n];
        let mut acc: Vec<Element> = Vec::new();
        let mut i = n + 1;
        while i < end && i < self.events.len()
            invariant
                well_kept(self),
                n < self.events@.len(),
                end == self.close@[n as int],
                i > n,
                children(self, n as int) == acc@ + children_from(self, i as int, end as int),
            decreases end - i,
        {
            let ghost before = acc@;
            match self.events[i] {
                Event::Start(_) => {
                    acc.push(Element::Node(i));
                    let c = self.close[i];
                    let nxt = if c > i {
                        if c >= end {
                            assert(children_from(self, end as int, end as int) =~= Seq::<Element>::empty());
                            assert(seq![Element::Node(i)] =~= seq![Element::Node(i)] + Seq::<Element>::empty());
                            end
                        } else {
                            c + 1
                        }
                    } else {
                        i + 1
                    };
                    assert(acc@ + children_from(self, nxt as int, end as int) =~= before + children_from(self, i as int, end as int));
                    i = nxt;
                },
                Event::Token(k) => {
                    acc.push(Element::Token(k));
                    assert(acc@ + children_from(self, i + 1, end as int) =~= before + children_from(self, i as int, end as int));
                    i = i + 1;
                },
                Event::Finish => {
                    i = i + 1;
                },
            }
        }
        assert(children_from(self, i as int, end as int) =~= Seq::<Element>::empty());
        assert(acc@ =~= acc@ + Seq::<Element>::empty());
        acc
    }

    /// The kind of an element.
    pub fn kind_of(&self, e: Element) -> (r: Option<SyntaxKind>)
        ensures
            r == element_kind(self, e),
    {
        match e {
            Element::Node(n) => if n < self.events.len() {
                match self.events[n] {
                    Event::Start(k) => Some(k),
                    _ => None,
                }
            } else {
                None
            },
            Element::Token(k) => if k < self.tokens.len() {
                Some(SyntaxKind::from(self.tokens[k].tt))
            } else {
                None
            },
        }
    }

    /// The span of the node at event `n`.
    pub fn node_span_of(&self, n: usize) -> (r: Span)
        requires
            well_kept(self),
            n < self.events@.len(),
        ensures
            r == node_span(self, n as int),
    {
        let lo = self.lo[n];
        let hi = self.hi[n];
        if lo < hi && hi <= self.tokens.len() {
            Span { start: self.tokens[lo].start, end: self.tokens[hi - 1].end }
        } else {
            let o = if lo < self.tokens.len() {
                self.tokens[lo].start
            } else {
                self.source.len()
            };
            Span { start: o, end: o }
        }
    }

    /// The text of the tree: the texts of its token events in order, as
    /// `tree_text` says where each token event is of a token of the source.
    pub fn text(&self) -> (r: Vec<u8>)
        ensures
            token_events_ok(self) ==> r@ == tree_text(self),
    {
        let mut r: Vec<u8> = Vec::new();
        let mut i: usize = 0;
        while i < self.events.len()
            invariant
                i <= self.events@.len(),
                token_events_ok(self) ==> r@ == events_text(self.source@, self.tokens@, self.events@.take(i as int)),
            decreases self.events@.len() - i,
        {
            assert(self.events@.take(i + 1).drop_last() =~= self.events@.take(i as int));
            match self.events[i] {
                Event::Token(k) => {
                    if k < self.tokens.len() && self.tokens[k].start <= self.tokens[k].end && self.tokens[k].end
                        <= self.source.len() {
                        let b = self.token_bytes(k);
                        let mut b = b;
                        r.append(&mut b);
                    } else {
                        assert(!token_events_ok(self));
                    }
                },
                _ => {},
            }
            i = i + 1;
        }
        assert(self.events@.take(i as int) =~= self.events@);
        r
    }

    /// The text of token `k`.
    pub fn token_bytes(&self, k: usize) -> (r: Vec<u8>)
        requires
            k < self.tokens@.len(),
            self.tokens@[k as int].start <= self.tokens@[k as int].end <= self.source@.len(),
        ensures
            r@ == token_text(self.source@, self.tokens@[k as int]),
    {
        let t = self.tokens[k];
        let mut r: Vec<u8> = Vec::new();
        let mut i = t.start;
        while i < t.end
            invariant
                t == self.tokens@[k as int],
                t.start <= i <= t.end <= self.source@.len(),
                r@ == self.source@.subrange(t.start as int, i as int),
            decreases t.end - i,
        {
            r.push(self.source[i]);
            i = i + 1;
            assert(r@ =~= self.source@.subrange(t.start as int, i as int));
        }
        r
    }
}


/// Whether every float literal token has its value set.
pub open spec fn floats_set(t: &SyntaxTree) -> bool {
    forall|k: int|
        0 <= k < t.tokens@.len() && #[trigger] t.tokens@[k].tt == TokenType::FloatLiteral ==> t.float_bits@[k] is Some
}

impl SyntaxTree {
    /// The indices of the float literal tokens, in order.
    pub fn float_tokens(&self) -> (r: Vec<usize>)
        ensures
            forall|i: int| 0 <= i < r@.len() ==> #[trigger] r@[i] < self.tokens@.len() && self.tokens@[r@[i] as int].tt
                == TokenType::FloatLiteral,
            forall|k: int|
                0 <= k < self.tokens@.len() && #[trigger] self.tokens@[k].tt == TokenType::FloatLiteral ==> r@.contains(k as usize),
    {
        let mut r: Vec<usize> = Vec::new();
        let mut k: usize = 0;
        while k < self.tokens.len()
            invariant
                k <= self.tokens@.len(),
                forall|i: int| 0 <= i < r@.len() ==> #[trigger] r@[i] < self.tokens@.len() && self.tokens@[r@[i] as int].tt
                    == TokenType::FloatLiteral,
                forall|j: int|
                    0 <= j < k && #[trigger] self.tokens@[j].tt == TokenType::FloatLiteral ==> r@.contains(j as usize),
            decreases self.tokens@.len() - k,
        {
            if self.tokens[k].tt == TokenType::FloatLiteral {
                let ghost before = r@;
                r.push(k);
                assert forall|j: int|
                    0 <= j < k + 1 && #[trigger] self.tokens@[j].tt == TokenType::FloatLiteral implies r@.contains(j as usize) by {
                    if j < k {
                        let w = choose|w: int| 0 <= w < before.len() && before[w] == j as usize;
                        assert(r@[w] == j as usize);
                    } else {
                        assert(r@[r@.len() - 1] == j as usize);
                    }
                }
            }
            k = k + 1;
        }
        r
    }

    /// Set the value of a float literal token.
    pub fn set_float_bits(&mut self, k: usize, bits: u32)
        requires
            k < old(self).float_bits@.len(),
        ensures
            final(self).float_bits@ == old(self).float_bits@.update(k as int, Some(bits)),
            final(self).source == old(self).source,
            final(self).tokens == old(self).tokens,
            final(self).events == old(self).events,
            final(self).close == old(self).close,
            final(self).lo == old(self).lo,
            final(self).hi == old(self).hi,
    {
        self.float_bits.set(k, Some(bits));
    }
}

} // verus!
