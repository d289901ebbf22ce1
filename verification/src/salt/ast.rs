//! A thin, strongly typed layer over the syntax tree: programs, lines,
//! declarations, labels, instructions, operands and literals.
use vstd::prelude::*;
use crate::salt::error::{is_err, ErrView, SaltError, SaltResult};
use crate::salt::lexer::{int_text, token_text, tokens_cover, TokenType};
use crate::salt::literals::{
    char_literal_ok, char_literal_value, char_value, char_value_ok, int_literal_spec, string_body_ok, int_literal_value,
    min_reg_type, minimum_reg_type, string_value_ok, string_values, IntLiteralError, RegisterType,
};
use crate::salt::syntax::{
    children, element_kind, node_kind, node_span, token_kind, token_span, well_kept, Element, Span,
    SyntaxKind, SyntaxTree,
};

verus! {

/// The first node among `cs` of the given kind.
pub open spec fn first_node(t: &SyntaxTree, cs: Seq<Element>, kind: SyntaxKind) -> Option<usize>
    decreases cs.len(),
{
    if cs.len() == 0 {
        None
    } else {
        match cs[0] {
            Element::Node(n) => if node_kind(t, n as int) == Some(kind) {
                Some(n)
            } else {
                first_node(t, cs.skip(1), kind)
            },
            Element::Token(_) => first_node(t, cs.skip(1), kind),
        }
    }
}

/// The first token among `cs` of the given kind.
pub open spec fn first_token(t: &SyntaxTree, cs: Seq<Element>, kind: SyntaxKind) -> Option<usize>
    decreases cs.len(),
{
    if cs.len() == 0 {
        None
    } else {
        match cs[0] {
            Element::Token(k) => if element_kind(t, cs[0]) == Some(kind) {
                Some(k)
            } else {
                first_token(t, cs.skip(1), kind)
            },
            Element::Node(_) => first_token(t, cs.skip(1), kind),
        }
    }
}

/// Whether any of `cs` is of the given kind.
pub open spec fn has_kind(t: &SyntaxTree, cs: Seq<Element>, kind: SyntaxKind) -> bool {
    exists|i: int| 0 <= i < cs.len() && element_kind(t, #[trigger] cs[i]) == Some(kind)
}

/// The nodes among `cs` of the given kind, in order.
pub open spec fn nodes_of_kind(t: &SyntaxTree, cs: Seq<Element>, kind: SyntaxKind) -> Seq<usize>
    decreases cs.len(),
{
    if cs.len() == 0 {
        Seq::empty()
    } else {
        let rest = nodes_of_kind(t, cs.drop_last(), kind);
        match cs.last() {
            Element::Node(n) => if node_kind(t, n as int) == Some(kind) {
                rest.push(n)
            } else {
                rest
            },
            Element::Token(_) => rest,
        }
    }
}

/// For each line among `cs`, its first child node of the given kind, where
/// it has one.
pub open spec fn line_items(t: &SyntaxTree, cs: Seq<Element>, kind: SyntaxKind) -> Seq<usize>
    decreases cs.len(),
{
    if cs.len() == 0 {
        Seq::empty()
    } else {
        let rest = line_items(t, cs.drop_last(), kind);
        match cs.last() {
            Element::Node(l) => if node_kind(t, l as int) == Some(SyntaxKind::Line) {
                match first_node(t, children(t, l as int), kind) {
                    Some(x) => rest.push(x),
                    None => rest,
                }
            } else {
                rest
            },
            Element::Token(_) => rest,
        }
    }
}

/// The text of a token, where it is one of the tree's tokens.
pub open spec fn token_bytes_of(t: &SyntaxTree, k: usize) -> Seq<u8> {
    token_text(t.source@, t.tokens@[k as int])
}

/// The text of the node's first identifier token, or nothing.
pub open spec fn ident_of(t: &SyntaxTree, n: int) -> Seq<u8> {
    match first_token(t, children(t, n), SyntaxKind::Identifier) {
        Some(k) => token_bytes_of(t, k),
        None => Seq::empty(),
    }
}

/// The span of the node's first identifier token, or an empty span at zero.
pub open spec fn ident_span_of(t: &SyntaxTree, n: int) -> Span {
    match first_token(t, children(t, n), SyntaxKind::Identifier) {
        Some(k) => token_span(t, k as int),
        None => Span { start: 0, end: 0 },
    }
}

/// A node of a tree that the typed layer can look into.
pub open spec fn node_ok(t: &SyntaxTree, n: int) -> bool {
    well_kept(t) && 0 <= n < t.events@.len()
}

/// The first node among `cs` of the given kind.
fn find_node(t: &SyntaxTree, cs: &Vec<Element>, kind: SyntaxKind) -> (r: Option<usize>)
    ensures
        r == first_node(t, cs@, kind),
{
    let mut i: usize = 0;
    assert(cs@.skip(0) =~= cs@);
    while i < cs.len()
        invariant
            i <= cs@.len(),
            first_node(t, cs@, kind) == first_node(t, cs@.skip(i as int), kind),
        decreases cs@.len() - i,
    {
        assert(cs@.skip(i as int)[0] == cs@[i as int]);
        assert(cs@.skip(i as int).skip(1) =~= cs@.skip(i + 1));
        match cs[i] {
            Element::Node(n) => {
                if t.kind_of(Element::Node(n)) == Some(kind) {
                    return Some(n);
                }
            },
            Element::Token(_) => {},
        }
        i = i + 1;
    }
    assert(cs@.skip(i as int) =~= Seq::<Element>::empty());
    None
}

/// The first token among `cs` of the given kind.
fn find_token(t: &SyntaxTree, cs: &Vec<Element>, kind: SyntaxKind) -> (r: Option<usize>)
    ensures
        r == first_token(t, cs@, kind),
        r matches Some(k) ==> k < t.tokens@.len() && token_kind(t.tokens@[k as int].tt) == kind,
{
    let mut i: usize = 0;
    assert(cs@.skip(0) =~= cs@);
    while i < cs.len()
        invariant
            i <= cs@.len(),
            first_token(t, cs@, kind) == first_token(t, cs@.skip(i as int), kind),
        decreases cs@.len() - i,
    {
        assert(cs@.skip(i as int)[0] == cs@[i as int]);
        assert(cs@.skip(i as int).skip(1) =~= cs@.skip(i + 1));
        let e = cs[i];
        match e {
            Element::Token(k) => {
                if t.kind_of(e) == Some(kind) {
                    return Some(k);
                }
            },
            Element::Node(_) => {},
        }
        i = i + 1;
    }
    assert(cs@.skip(i as int) =~= Seq::<Element>::empty());
    None
}

/// Whether any of `cs` is of the given kind.
fn contains_kind(t: &SyntaxTree, cs: &Vec<Element>, kind: SyntaxKind) -> (r: bool)
    ensures
        r == has_kind(t, cs@, kind),
{
    let mut i: usize = 0;
    while i < cs.len()
        invariant
            i <= cs@.len(),
            forall|j: int| 0 <= j < i ==> element_kind(t, #[trigger] cs@[j]) != Some(kind),
        decreases cs@.len() - i,
    {
        if t.kind_of(cs[i]) == Some(kind) {
            return true;
        }
        i = i + 1;
    }
    false
}

/// The nodes among `cs` of the given kind.
fn collect_nodes(t: &SyntaxTree, cs: &Vec<Element>, kind: SyntaxKind) -> (r: Vec<usize>)
    ensures
        r@ == nodes_of_kind(t, cs@, kind),
{
    let mut r: Vec<usize> = Vec::new();
    let mut i: usize = 0;
    while i < cs.len()
        invariant
            i <= cs@.len(),
            r@ == nodes_of_kind(t, cs@.take(i as int), kind),
        decreases cs@.len() - i,
    {
        assert(cs@.take(i + 1).drop_last() =~= cs@.take(i as int));
        let e = cs[i];
        match e {
            Element::Node(n) => {
                if t.kind_of(e) == Some(kind) {
                    r.push(n);
                }
            },
            Element::Token(_) => {},
        }
        i = i + 1;
    }
    assert(cs@.take(i as int) =~= cs@);
    r
}

/// A node of a syntax tree: the tree and the index of the node's start
/// event.
#[derive(Debug, Clone, Copy)]
pub struct SyntaxNode<'a> {
    pub tree: &'a SyntaxTree,
    pub index: usize,
}

impl<'a> SyntaxNode<'a> {
    /// The root of a tree.
    pub fn root(tree: &'a SyntaxTree) -> (r: Self)
        ensures
            r.tree == tree,
            r.index == 0,
    {
        SyntaxNode { tree, index: 0 }
    }

    /// The node's kind.
    pub fn kind(&self) -> (r: Option<SyntaxKind>)
        ensures
            r == node_kind(self.tree, self.index as int),
    {
        self.tree.kind_of(Element::Node(self.index))
    }

    /// The node's children, nodes and tokens, in order.
    pub fn children(&self) -> (r: Vec<Element>)
        requires
            node_ok(self.tree, self.index as int),
        ensures
            r@ == children(self.tree, self.index as int),
    {
        self.tree.children_of(self.index)
    }

    /// The span of source the node covers.
    pub fn text_range(&self) -> (r: Span)
        requires
            node_ok(self.tree, self.index as int),
        ensures
            r == node_span(self.tree, self.index as int),
    {
        self.tree.node_span_of(self.index)
    }

    /// The text of the node's first identifier, and its span.
    fn identifier(&self) -> (r: (Vec<u8>, Span))
        requires
            node_ok(self.tree, self.index as int),
        ensures
            r.0@ == ident_of(self.tree, self.index as int),
            r.1 == ident_span_of(self.tree, self.index as int),
    {
        let cs = self.children();
        match find_token(self.tree, &cs, SyntaxKind::Identifier) {
            Some(k) => {
                let tk = self.tree.tokens[k];
                (self.tree.token_bytes(k), Span { start: tk.start, end: tk.end })
            },
            None => (Vec::new(), Span { start: 0, end: 0 }),
        }
    }

    /// Whether the node has a child of the given kind.
    fn has_child(&self, kind: SyntaxKind) -> (r: bool)
        requires
            node_ok(self.tree, self.index as int),
        ensures
            r == has_kind(self.tree, children(self.tree, self.index as int), kind),
    {
        let cs = self.children();
        contains_kind(self.tree, &cs, kind)
    }
}


/// The node of a whole program.
#[derive(Debug, Clone, Copy)]
pub struct Program<'a> {
    pub syntax: SyntaxNode<'a>,
}

impl<'a> Program<'a> {
    /// View a node as a whole program, where it is one.
    pub fn cast(syntax: SyntaxNode<'a>) -> (r: Option<Self>)
        ensures
            (r is Some) == (node_kind(syntax.tree, syntax.index as int) == Some(SyntaxKind::Program)),
            r matches Some(x) ==> x.syntax == syntax,
    {
        match syntax.kind() {
            Some(SyntaxKind::Program) => Some(Program { syntax }),
            _ => None,
        }
    }

    /// The underlying node.
    pub fn syntax(&self) -> (r: SyntaxNode<'a>)
        ensures
            r == self.syntax,
    {
        self.syntax
    }
}

/// The node of a line.
#[derive(Debug, Clone, Copy)]
pub struct Line<'a> {
    pub syntax: SyntaxNode<'a>,
}

impl<'a> Line<'a> {
    /// View a node as a line, where it is one.
    pub fn cast(syntax: SyntaxNode<'a>) -> (r: Option<Self>)
        ensures
            (r is Some) == (node_kind(syntax.tree, syntax.index as int) == Some(SyntaxKind::Line)),
            r matches Some(x) ==> x.syntax == syntax,
    {
        match syntax.kind() {
            Some(SyntaxKind::Line) => Some(Line { syntax }),
            _ => None,
        }
    }

    /// The underlying node.
    pub fn syntax(&self) -> (r: SyntaxNode<'a>)
        ensures
            r == self.syntax,
    {
        self.syntax
    }
}

/// The node of a constant declaration.
#[derive(Debug, Clone, Copy)]
pub struct ConstDecl<'a> {
    pub syntax: SyntaxNode<'a>,
}

impl<'a> ConstDecl<'a> {
    /// View a node as a constant declaration, where it is one.
    pub fn cast(syntax: SyntaxNode<'a>) -> (r: Option<Self>)
        ensures
            (r is Some) == (node_kind(syntax.tree, syntax.index as int) == Some(SyntaxKind::ConstDecl)),
            r matches Some(x) ==> x.syntax == syntax,
    {
        match syntax.kind() {
            Some(SyntaxKind::ConstDecl) => Some(ConstDecl { syntax }),
            _ => None,
        }
    }

    /// The underlying node.
    pub fn syntax(&self) -> (r: SyntaxNode<'a>)
        ensures
            r == self.syntax,
    {
        self.syntax
    }
}

/// The node of a static data declaration.
#[derive(Debug, Clone, Copy)]
pub struct DataDecl<'a> {
    pub syntax: SyntaxNode<'a>,
}

impl<'a> DataDecl<'a> {
    /// View a node as a static data declaration, where it is one.
    pub fn cast(syntax: SyntaxNode<'a>) -> (r: Option<Self>)
        ensures
            (r is Some) == (node_kind(syntax.tree, syntax.index as int) == Some(SyntaxKind::DataDecl)),
            r matches Some(x) ==> x.syntax == syntax,
    {
        match syntax.kind() {
            Some(SyntaxKind::DataDecl) => Some(DataDecl { syntax }),
            _ => None,
        }
    }

    /// The underlying node.
    pub fn syntax(&self) -> (r: SyntaxNode<'a>)
        ensures
            r == self.syntax,
    {
        self.syntax
    }
}

/// The node of a data type.
#[derive(Debug, Clone, Copy)]
pub struct DataType<'a> {
    pub syntax: SyntaxNode<'a>,
}

impl<'a> DataType<'a> {
    /// View a node as a data type, where it is one.
    pub fn cast(syntax: SyntaxNode<'a>) -> (r: Option<Self>)
        ensures
            (r is Some) == (node_kind(syntax.tree, syntax.index as int) == Some(SyntaxKind::DataType)),
            r matches Some(x) ==> x.syntax == syntax,
    {
        match syntax.kind() {
            Some(SyntaxKind::DataType) => Some(DataType { syntax }),
            _ => None,
        }
    }

    /// The underlying node.
    pub fn syntax(&self) -> (r: SyntaxNode<'a>)
        ensures
            r == self.syntax,
    {
        self.syntax
    }
}

/// The node of a label.
#[derive(Debug, Clone, Copy)]
pub struct Label<'a> {
    pub syntax: SyntaxNode<'a>,
}

impl<'a> Label<'a> {
    /// View a node as a label, where it is one.
    pub fn cast(syntax: SyntaxNode<'a>) -> (r: Option<Self>)
        ensures
            (r is Some) == (node_kind(syntax.tree, syntax.index as int) == Some(SyntaxKind::Label)),
            r matches Some(x) ==> x.syntax == syntax,
    {
        match syntax.kind() {
            Some(SyntaxKind::Label) => Some(Label { syntax }),
            _ => None,
        }
    }

    /// The underlying node.
    pub fn syntax(&self) -> (r: SyntaxNode<'a>)
        ensures
            r == self.syntax,
    {
        self.syntax
    }
}

/// The node of an instruction.
#[derive(Debug, Clone, Copy)]
pub struct Instruction<'a> {
    pub syntax: SyntaxNode<'a>,
}

impl<'a> Instruction<'a> {
    /// View a node as an instruction, where it is one.
    pub fn cast(syntax: SyntaxNode<'a>) -> (r: Option<Self>)
        ensures
            (r is Some) == (node_kind(syntax.tree, syntax.index as int) == Some(SyntaxKind::Instruction)),
            r matches Some(x) ==> x.syntax == syntax,
    {
        match syntax.kind() {
            Some(SyntaxKind::Instruction) => Some(Instruction { syntax }),
            _ => None,
        }
    }

    /// The underlying node.
    pub fn syntax(&self) -> (r: SyntaxNode<'a>)
        ensures
            r == self.syntax,
    {
        self.syntax
    }
}

/// The node of an operand.
#[derive(Debug, Clone, Copy)]
pub struct Operand<'a> {
    pub syntax: SyntaxNode<'a>,
}

impl<'a> Operand<'a> {
    /// View a node as an operand, where it is one.
    pub fn cast(syntax: SyntaxNode<'a>) -> (r: Option<Self>)
        ensures
            (r is Some) == (node_kind(syntax.tree, syntax.index as int) == Some(SyntaxKind::Operand)),
            r matches Some(x) ==> x.syntax == syntax,
    {
        match syntax.kind() {
            Some(SyntaxKind::Operand) => Some(Operand { syntax }),
            _ => None,
        }
    }

    /// The underlying node.
    pub fn syntax(&self) -> (r: SyntaxNode<'a>)
        ensures
            r == self.syntax,
    {
        self.syntax
    }
}

/// The node of an array literal.
#[derive(Debug, Clone, Copy)]
pub struct ArrayLiteral<'a> {
    pub syntax: SyntaxNode<'a>,
}

impl<'a> ArrayLiteral<'a> {
    /// View a node as an array literal, where it is one.
    pub fn cast(syntax: SyntaxNode<'a>) -> (r: Option<Self>)
        ensures
            (r is Some) == (node_kind(syntax.tree, syntax.index as int) == Some(SyntaxKind::ArrayLiteral)),
            r matches Some(x) ==> x.syntax == syntax,
    {
        match syntax.kind() {
            Some(SyntaxKind::ArrayLiteral) => Some(ArrayLiteral { syntax }),
            _ => None,
        }
    }

    /// The underlying node.
    pub fn syntax(&self) -> (r: SyntaxNode<'a>)
        ensures
            r == self.syntax,
    {
        self.syntax
    }
}

/// The node of a literal.
#[derive(Debug, Clone, Copy)]
pub struct Literal<'a> {
    pub syntax: SyntaxNode<'a>,
}

impl<'a> Literal<'a> {
    /// View a node as a literal, where it is one.
    pub fn cast(syntax: SyntaxNode<'a>) -> (r: Option<Self>)
        ensures
            (r is Some) == (node_kind(syntax.tree, syntax.index as int) == Some(SyntaxKind::Literal)),
            r matches Some(x) ==> x.syntax == syntax,
    {
        match syntax.kind() {
            Some(SyntaxKind::Literal) => Some(Literal { syntax }),
            _ => None,
        }
    }

    /// The underlying node.
    pub fn syntax(&self) -> (r: SyntaxNode<'a>)
        ensures
            r == self.syntax,
    {
        self.syntax
    }
}

/// What a literal stands for: a value with the smallest register type that
/// holds it, or the size of the named data.
#[derive(Debug)]
pub enum LiteralValue {
    Lit { value: u32, min_reg_type: RegisterType },
    Sizeof { ident: Vec<u8> },
}

/// The abstract value of a literal.
pub enum LitView {
    Lit { value: u32, min_reg_type: RegisterType },
    Sizeof { ident: Seq<u8> },
}

impl View for LiteralValue {
    type V = LitView;

    open spec fn view(&self) -> LitView {
        match self {
            LiteralValue::Lit { value, min_reg_type } => LitView::Lit { value: *value, min_reg_type: *min_reg_type },
            LiteralValue::Sizeof { ident } => LitView::Sizeof { ident: ident@ },
        }
    }
}

impl LiteralValue {
    /// A copy of the value.
    pub fn copy(&self) -> (r: Self)
        ensures
            r@ == self@,
    {
        match self {
            LiteralValue::Lit { value, min_reg_type } => LiteralValue::Lit { value: *value, min_reg_type: *min_reg_type },
            LiteralValue::Sizeof { ident } => LiteralValue::Sizeof { ident: crate::bytes::copy_bytes(ident.as_slice()) },
        }
    }
}

/// Whether every character and string literal of a tree has a value, and
/// every float literal's value has been set.
pub open spec fn values_ok(t: &SyntaxTree) -> bool {
    &&& forall|k: int| 0 <= k < t.tokens@.len() && #[trigger] t.tokens@[k].tt == TokenType::CharLiteral ==> char_value_ok(
        token_bytes_of(t, k as usize),
    )
    &&& forall|k: int| 0 <= k < t.tokens@.len() && #[trigger] t.tokens@[k].tt == TokenType::StringLiteral ==> string_value_ok(
        token_bytes_of(t, k as usize).subrange(1, token_bytes_of(t, k as usize).len() - 1),
    )
    &&& crate::salt::syntax::floats_set(t)
}

/// Whether every character and string literal of a tree has a value and
/// every float literal's value has been set, as `values_ok` says. The
/// assembler refuses a tree where this fails.
pub fn values_ready(t: &SyntaxTree) -> (r: bool)
    requires
        tokens_cover(t.source@, t.tokens@),
        t.float_bits@.len() == t.tokens@.len(),
    ensures
        r == values_ok(t),
{
    let mut k: usize = 0;
    while k < t.tokens.len()
        invariant
            k <= t.tokens@.len(),
            tokens_cover(t.source@, t.tokens@),
            t.float_bits@.len() == t.tokens@.len(),
            forall|j: int| 0 <= j < k && #[trigger] t.tokens@[j].tt == TokenType::CharLiteral ==> char_value_ok(
                token_bytes_of(t, j as usize),
            ),
            forall|j: int| 0 <= j < k && #[trigger] t.tokens@[j].tt == TokenType::StringLiteral ==> string_value_ok(
                token_bytes_of(t, j as usize).subrange(1, token_bytes_of(t, j as usize).len() - 1),
            ),
            forall|j: int| 0 <= j < k && #[trigger] t.tokens@[j].tt == TokenType::FloatLiteral ==> t.float_bits@[j] is Some,
        decreases t.tokens@.len() - k,
    {
        let tt = t.tokens[k].tt;
        if tt == TokenType::CharLiteral {
            let text = t.token_bytes(k);
            if !char_literal_ok(&text) {
                return false;
            }
        } else if tt == TokenType::StringLiteral {
            let text = t.token_bytes(k);
            assert(crate::salt::lexer::string_text(text@));
            if !string_body_ok(&text, 1, text.len() - 1) {
                return false;
            }
        } else if tt == TokenType::FloatLiteral {
            if t.float_bits[k].is_none() {
                return false;
            }
        }
        k = k + 1;
    }
    true
}

/// The value of the literal node `n`: from its integer, float or character
/// token, else `sizeof` of its identifier.
pub open spec fn literal_spec(t: &SyntaxTree, n: int) -> Result<LitView, ErrView> {
    let cs = children(t, n);
    match first_token(t, cs, SyntaxKind::IntLiteral) {
        Some(k) => match int_literal_spec(token_bytes_of(t, k)) {
            Ok(v) => Ok(LitView::Lit { value: v as u32, min_reg_type: min_reg_type(v) }),
            Err(IntLiteralError::OutOfRange) => Err(
                ErrView { span: token_span(t, k as int), message: "Integer literal out of range."@ },
            ),
            Err(IntLiteralError::NegativeExponent) => Err(
                ErrView { span: token_span(t, k as int), message: "Integer exponents cannot be negative."@ },
            ),
        },
        None => match first_token(t, cs, SyntaxKind::FloatLiteral) {
            Some(k) => Ok(
                LitView::Lit {
                    value: match t.float_bits@[k as int] {
                        Some(b) => b,
                        None => 0,
                    },
                    min_reg_type: RegisterType::Float,
                },
            ),
            None => match first_token(t, cs, SyntaxKind::CharLiteral) {
                Some(k) => Ok(LitView::Lit { value: char_value(token_bytes_of(t, k)).0, min_reg_type: RegisterType::Byte }),
                None => Ok(LitView::Sizeof { ident: ident_of(t, n) }),
            },
        },
    }
}

/// Whether the layer can work on a node: a kept tree whose literals all
/// have values.
pub open spec fn ast_ok(node: SyntaxNode) -> bool {
    node_ok(node.tree, node.index as int) && values_ok(node.tree)
}

impl<'a> Literal<'a> {
    /// The literal's value, as `literal_spec` says.
    pub fn value(&self) -> (r: SaltResult<LiteralValue>)
        requires
            ast_ok(self.syntax),
        ensures
            match literal_spec(self.syntax.tree, self.syntax.index as int) {
                Ok(v) => r matches Ok(x) && x@ == v,
                Err(ev) => r matches Err(e) && is_err(&e, ev),
            },
    {
        let t = self.syntax.tree;
        let cs = self.syntax.children();
        match find_token(t, &cs, SyntaxKind::IntLiteral) {
            Some(k) => {
                let text = t.token_bytes(k);
                let tk = t.tokens[k];
                assert(t.tokens@[k as int].tt == TokenType::IntLiteral);
                assert(int_text(text@));
                let v = int_literal_value(text.as_slice(), Span { start: tk.start, end: tk.end })?;
                let min = minimum_reg_type(v);
                Ok(LiteralValue::Lit { value: v as u32, min_reg_type: min })
            },
            None => match find_token(t, &cs, SyntaxKind::FloatLiteral) {
                Some(k) => {
                    let value = match t.float_bits[k] {
                        Some(b) => b,
                        None => 0,
                    };
                    Ok(LiteralValue::Lit { value, min_reg_type: RegisterType::Float })
                },
                None => match find_token(t, &cs, SyntaxKind::CharLiteral) {
                    Some(k) => {
                        let text = t.token_bytes(k);
                        assert(t.tokens@[k as int].tt == TokenType::CharLiteral);
                        let (value, _) = char_literal_value(text.as_slice());
                        Ok(LiteralValue::Lit { value, min_reg_type: RegisterType::Byte })
                    },
                    None => {
                        let (name, _) = self.syntax.identifier();
                        Ok(LiteralValue::Sizeof { ident: name })
                    },
                },
            },
        }
    }
}


impl<'a> Program<'a> {
    fn items(&self, kind: SyntaxKind) -> (r: Vec<usize>)
        requires
            node_ok(self.syntax.tree, self.syntax.index as int),
        ensures
            r@ == line_items(self.syntax.tree, children(self.syntax.tree, self.syntax.index as int), kind),
            forall|i: int| 0 <= i < r@.len() ==> node_kind(self.syntax.tree, #[trigger] r@[i] as int) == Some(kind),
    {
        let t = self.syntax.tree;
        let cs = self.syntax.children();
        let mut r: Vec<usize> = Vec::new();
        let mut i: usize = 0;
        while i < cs.len()
            invariant
                i <= cs@.len(),
                cs@ == children(t, self.syntax.index as int),
                node_ok(t, self.syntax.index as int),
                r@ == line_items(t, cs@.take(i as int), kind),
                forall|j: int| 0 <= j < r@.len() ==> node_kind(t, #[trigger] r@[j] as int) == Some(kind),
            decreases cs@.len() - i,
        {
            assert(cs@.take(i + 1).drop_last() =~= cs@.take(i as int));
            let e = cs[i];
            match e {
                Element::Node(l) => {
                    if t.kind_of(e) == Some(SyntaxKind::Line) {
                        let lc = t.children_of(l);
                        match find_node(t, &lc, kind) {
                            Some(x) => {
                                proof {
                                    lemma_first_node_kind(t, lc@, kind);
                                }
                                r.push(x);
                            },
                            None => {},
                        }
                    }
                },
                Element::Token(_) => {},
            }
            i = i + 1;
        }
        assert(cs@.take(i as int) =~= cs@);
        r
    }

    /// The constant declarations, in order.
    pub fn const_decls(&self) -> (r: Vec<ConstDecl<'a>>)
        requires
            node_ok(self.syntax.tree, self.syntax.index as int),
        ensures
            r@.len() == line_items(self.syntax.tree, children(self.syntax.tree, self.syntax.index as int), SyntaxKind::ConstDecl).len(),
            forall|i: int| 0 <= i < r@.len() ==> (#[trigger] r@[i]).syntax.tree == self.syntax.tree && r@[i].syntax.index
                == line_items(self.syntax.tree, children(self.syntax.tree, self.syntax.index as int), SyntaxKind::ConstDecl)[i],
    {
        let idx = self.items(SyntaxKind::ConstDecl);
        let mut r: Vec<ConstDecl<'a>> = Vec::new();
        let mut i: usize = 0;
        while i < idx.len()
            invariant
                i <= idx@.len(),
                r@.len() == i,
                forall|j: int| 0 <= j < i ==> (#[trigger] r@[j]).syntax.tree == self.syntax.tree && r@[j].syntax.index == idx@[j],
            decreases idx@.len() - i,
        {
            r.push(ConstDecl { syntax: SyntaxNode { tree: self.syntax.tree, index: idx[i] } });
            i = i + 1;
        }
        r
    }

    /// The data declarations, in order.
    pub fn data_decls(&self) -> (r: Vec<DataDecl<'a>>)
        requires
            node_ok(self.syntax.tree, self.syntax.index as int),
        ensures
            r@.len() == line_items(self.syntax.tree, children(self.syntax.tree, self.syntax.index as int), SyntaxKind::DataDecl).len(),
            forall|i: int| 0 <= i < r@.len() ==> (#[trigger] r@[i]).syntax.tree == self.syntax.tree && r@[i].syntax.index
                == line_items(self.syntax.tree, children(self.syntax.tree, self.syntax.index as int), SyntaxKind::DataDecl)[i],
    {
        let idx = self.items(SyntaxKind::DataDecl);
        let mut r: Vec<DataDecl<'a>> = Vec::new();
        let mut i: usize = 0;
        while i < idx.len()
            invariant
                i <= idx@.len(),
                r@.len() == i,
                forall|j: int| 0 <= j < i ==> (#[trigger] r@[j]).syntax.tree == self.syntax.tree && r@[j].syntax.index == idx@[j],
            decreases idx@.len() - i,
        {
            r.push(DataDecl { syntax: SyntaxNode { tree: self.syntax.tree, index: idx[i] } });
            i = i + 1;
        }
        r
    }

    /// The labels, in order.
    pub fn labels(&self) -> (r: Vec<Label<'a>>)
        requires
            node_ok(self.syntax.tree, self.syntax.index as int),
        ensures
            r@.len() == line_items(self.syntax.tree, children(self.syntax.tree, self.syntax.index as int), SyntaxKind::Label).len(),
            forall|i: int| 0 <= i < r@.len() ==> (#[trigger] r@[i]).syntax.tree == self.syntax.tree && r@[i].syntax.index
                == line_items(self.syntax.tree, children(self.syntax.tree, self.syntax.index as int), SyntaxKind::Label)[i],
    {
        let idx = self.items(SyntaxKind::Label);
        let mut r: Vec<Label<'a>> = Vec::new();
        let mut i: usize = 0;
        while i < idx.len()
            invariant
                i <= idx@.len(),
                r@.len() == i,
                forall|j: int| 0 <= j < i ==> (#[trigger] r@[j]).syntax.tree == self.syntax.tree && r@[j].syntax.index == idx@[j],
            decreases idx@.len() - i,
        {
            r.push(Label { syntax: SyntaxNode { tree: self.syntax.tree, index: idx[i] } });
            i = i + 1;
        }
        r
    }

    /// The instructions, in order.
    pub fn instructions(&self) -> (r: Vec<Instruction<'a>>)
        requires
            node_ok(self.syntax.tree, self.syntax.index as int),
        ensures
            r@.len() == line_items(self.syntax.tree, children(self.syntax.tree, self.syntax.index as int), SyntaxKind::Instruction).len(),
            forall|i: int| 0 <= i < r@.len() ==> (#[trigger] r@[i]).syntax.tree == self.syntax.tree && r@[i].syntax.index
                == line_items(self.syntax.tree, children(self.syntax.tree, self.syntax.index as int), SyntaxKind::Instruction)[i],
    {
        let idx = self.items(SyntaxKind::Instruction);
        let mut r: Vec<Instruction<'a>> = Vec::new();
        let mut i: usize = 0;
        while i < idx.len()
            invariant
                i <= idx@.len(),
                r@.len() == i,
                forall|j: int| 0 <= j < i ==> (#[trigger] r@[j]).syntax.tree == self.syntax.tree && r@[j].syntax.index == idx@[j],
            decreases idx@.len() - i,
        {
            r.push(Instruction { syntax: SyntaxNode { tree: self.syntax.tree, index: idx[i] } });
            i = i + 1;
        }
        r
    }
}

/// The nodes that `nodes_of_kind` lists are of the kind asked for.
pub proof fn lemma_nodes_of_kind(t: &SyntaxTree, cs: Seq<Element>, kind: SyntaxKind)
    ensures
        forall|i: int| 0 <= i < nodes_of_kind(t, cs, kind).len() ==> node_kind(t, #[trigger] nodes_of_kind(t, cs, kind)[i] as int) == Some(kind),
    decreases cs.len(),
{
    if cs.len() > 0 {
        lemma_nodes_of_kind(t, cs.drop_last(), kind);
    }
}

/// The nodes that `line_items` lists are of the kind asked for.
pub proof fn lemma_line_items(t: &SyntaxTree, cs: Seq<Element>, kind: SyntaxKind)
    ensures
        forall|i: int| 0 <= i < line_items(t, cs, kind).len() ==> node_kind(t, #[trigger] line_items(t, cs, kind)[i] as int) == Some(kind),
    decreases cs.len(),
{
    if cs.len() > 0 {
        lemma_line_items(t, cs.drop_last(), kind);
        match cs.last() {
            Element::Node(l) => {
                lemma_first_node_kind(t, children(t, l as int), kind);
            },
            Element::Token(_) => {},
        }
    }
}

/// What `first_node` finds is of the kind asked for.
proof fn lemma_first_node_kind(t: &SyntaxTree, cs: Seq<Element>, kind: SyntaxKind)
    ensures
        first_node(t, cs, kind) matches Some(n) ==> node_kind(t, n as int) == Some(kind),
    decreases cs.len(),
{
    if cs.len() > 0 {
        lemma_first_node_kind(t, cs.skip(1), kind);
    }
}

impl<'a> Line<'a> {
    fn item(&self, kind: SyntaxKind) -> (r: Option<usize>)
        requires
            node_ok(self.syntax.tree, self.syntax.index as int),
        ensures
            r == first_node(self.syntax.tree, children(self.syntax.tree, self.syntax.index as int), kind),
    {
        let cs = self.syntax.children();
        find_node(self.syntax.tree, &cs, kind)
    }

    /// The line's constant declaration, if it is one.
    pub fn as_const(&self) -> (r: Option<ConstDecl<'a>>)
        requires
            node_ok(self.syntax.tree, self.syntax.index as int),
        ensures
            match first_node(self.syntax.tree, children(self.syntax.tree, self.syntax.index as int), SyntaxKind::ConstDecl) {
                Some(n) => r matches Some(x) && x.syntax.tree == self.syntax.tree && x.syntax.index == n,
                None => r is None,
            },
    {
        match self.item(SyntaxKind::ConstDecl) {
            Some(n) => Some(ConstDecl { syntax: SyntaxNode { tree: self.syntax.tree, index: n } }),
            None => None,
        }
    }

    /// The line's data declaration, if it is one.
    pub fn as_data(&self) -> (r: Option<DataDecl<'a>>)
        requires
            node_ok(self.syntax.tree, self.syntax.index as int),
        ensures
            match first_node(self.syntax.tree, children(self.syntax.tree, self.syntax.index as int), SyntaxKind::DataDecl) {
                Some(n) => r matches Some(x) && x.syntax.tree == self.syntax.tree && x.syntax.index == n,
                None => r is None,
            },
    {
        match self.item(SyntaxKind::DataDecl) {
            Some(n) => Some(DataDecl { syntax: SyntaxNode { tree: self.syntax.tree, index: n } }),
            None => None,
        }
    }

    /// The line's label, if it is one.
    pub fn as_label(&self) -> (r: Option<Label<'a>>)
        requires
            node_ok(self.syntax.tree, self.syntax.index as int),
        ensures
            match first_node(self.syntax.tree, children(self.syntax.tree, self.syntax.index as int), SyntaxKind::Label) {
                Some(n) => r matches Some(x) && x.syntax.tree == self.syntax.tree && x.syntax.index == n,
                None => r is None,
            },
    {
        match self.item(SyntaxKind::Label) {
            Some(n) => Some(Label { syntax: SyntaxNode { tree: self.syntax.tree, index: n } }),
            None => None,
        }
    }

    /// The line's instruction, if it is one.
    pub fn as_instruction(&self) -> (r: Option<Instruction<'a>>)
        requires
            node_ok(self.syntax.tree, self.syntax.index as int),
        ensures
            match first_node(self.syntax.tree, children(self.syntax.tree, self.syntax.index as int), SyntaxKind::Instruction) {
                Some(n) => r matches Some(x) && x.syntax.tree == self.syntax.tree && x.syntax.index == n,
                None => r is None,
            },
    {
        match self.item(SyntaxKind::Instruction) {
            Some(n) => Some(Instruction { syntax: SyntaxNode { tree: self.syntax.tree, index: n } }),
            None => None,
        }
    }
}


/// An array length: given, or inferred from the initialiser.
#[derive(Debug, Clone, Copy, PartialEq, Eq, Structural)]
pub enum ArrayLength {
    Literal(usize),
    Inferred,
}

/// The array lengths among `cs`, in order: `..` is inferred, an integer
/// literal gives its value, which must not be negative.
pub open spec fn lengths_from(t: &SyntaxTree, cs: Seq<Element>) -> Result<Seq<ArrayLength>, ErrView>
    decreases cs.len(),
{
    if cs.len() == 0 {
        Ok(Seq::empty())
    } else {
        let first: Result<Option<ArrayLength>, ErrView> = if element_kind(t, cs[0]) == Some(SyntaxKind::DoubleDot) {
            Ok(Some(ArrayLength::Inferred))
        } else if element_kind(t, cs[0]) == Some(SyntaxKind::IntLiteral) && cs[0] is Token {
            let k = cs[0]->Token_0;
            match int_literal_spec(token_bytes_of(t, k)) {
                Ok(v) => if v >= 0 {
                    Ok(Some(ArrayLength::Literal(v as usize)))
                } else {
                    Err(ErrView { span: token_span(t, k as int), message: "Array lengths cannot be negative."@ })
                },
                Err(IntLiteralError::OutOfRange) => Err(
                    ErrView { span: token_span(t, k as int), message: "Integer literal out of range."@ },
                ),
                Err(IntLiteralError::NegativeExponent) => Err(
                    ErrView { span: token_span(t, k as int), message: "Integer exponents cannot be negative."@ },
                ),
            }
        } else {
            Ok(None)
        };
        match first {
            Err(e) => Err(e),
            Ok(f) => match lengths_from(t, cs.skip(1)) {
                Err(e) => Err(e),
                Ok(rest) => Ok(
                    match f {
                        Some(l) => seq![l] + rest,
                        None => rest,
                    },
                ),
            },
        }
    }
}

/// The size in bytes of `byte`, `half` or `word` among `cs` (zero where
/// there is none).
pub open spec fn base_size_of(t: &SyntaxTree, cs: Seq<Element>) -> usize {
    if has_kind(t, cs, SyntaxKind::KwByte) {
        1
    } else if has_kind(t, cs, SyntaxKind::KwHalf) {
        2
    } else if has_kind(t, cs, SyntaxKind::KwWord) {
        4
    } else {
        0
    }
}

impl<'a> DataType<'a> {
    /// The size in bytes of the base type: 1 for `byte`, 2 for `half`, 4 for
    /// `word`.
    pub fn base_size(&self) -> (r: usize)
        requires
            node_ok(self.syntax.tree, self.syntax.index as int),
        ensures
            r == base_size_of(self.syntax.tree, children(self.syntax.tree, self.syntax.index as int)),
    {
        if self.syntax.has_child(SyntaxKind::KwByte) {
            1
        } else if self.syntax.has_child(SyntaxKind::KwHalf) {
            2
        } else if self.syntax.has_child(SyntaxKind::KwWord) {
            4
        } else {
            0
        }
    }

    /// The array lengths, outermost first, and a final length of one for
    /// the base type.
    pub fn dimensions(&self) -> (r: SaltResult<Vec<ArrayLength>>)
        requires
            node_ok(self.syntax.tree, self.syntax.index as int),
        ensures
            match lengths_from(self.syntax.tree, children(self.syntax.tree, self.syntax.index as int)) {
                Ok(ls) => r matches Ok(v) && v@ == ls.push(ArrayLength::Literal(1)),
                Err(ev) => r matches Err(e) && is_err(&e, ev),
            },
    {
        let t = self.syntax.tree;
        let cs = self.syntax.children();
        let mut lengths: Vec<ArrayLength> = Vec::new();
        let mut i: usize = 0;
        assert(cs@.skip(0) =~= cs@);
        while i < cs.len()
            invariant
                i <= cs@.len(),
                well_kept(t),
                t == self.syntax.tree,
                cs@ == children(self.syntax.tree, self.syntax.index as int),
                lengths_from(t, cs@) == match lengths_from(t, cs@.skip(i as int)) {
                    Ok(rest) => Ok(lengths@ + rest),
                    Err(e) => Err(e),
                },
            decreases cs@.len() - i,
        {
            let ghost rest = cs@.skip(i as int);
            assert(rest[0] == cs@[i as int]);
            assert(rest.skip(1) =~= cs@.skip(i + 1));
            let ghost old_l = lengths@;
            let e = cs[i];
            let kind = t.kind_of(e);
            if kind == Some(SyntaxKind::DoubleDot) {
                lengths.push(ArrayLength::Inferred);
            } else if kind == Some(SyntaxKind::IntLiteral) {
                match e {
                    Element::Token(k) => {
                        let tk = t.tokens[k];
                        let text = t.token_bytes(k);
                        assert(t.tokens@[k as int].tt == TokenType::IntLiteral);
                        let span = Span { start: tk.start, end: tk.end };
                        let v = int_literal_value(text.as_slice(), span)?;
                        if v >= 0 {
                            lengths.push(ArrayLength::Literal(v as usize));
                        } else {
                            return Err(SaltError::new(span, "Array lengths cannot be negative."));
                        }
                    },
                    Element::Node(_) => {},
                }
            }
            proof {
                match lengths_from(t, cs@.skip(i + 1)) {
                    Ok(r2) => {
                        if lengths@.len() > old_l.len() {
                            assert(lengths@ + r2 =~= old_l + (seq![lengths@.last()] + r2));
                        } else {
                            assert(lengths@ == old_l);
                        }
                    },
                    Err(_) => {},
                }
            }
            i = i + 1;
        }
        assert(cs@.skip(i as int) =~= Seq::<Element>::empty());
        assert(lengths@ + Seq::<ArrayLength>::empty() =~= lengths@);
        lengths.push(ArrayLength::Literal(1));
        Ok(lengths)
    }

    /// The span of source the data type covers.
    pub fn span(&self) -> (r: Span)
        requires
            node_ok(self.syntax.tree, self.syntax.index as int),
        ensures
            r == node_span(self.syntax.tree, self.syntax.index as int),
    {
        self.syntax.text_range()
    }
}


/// The views of a list of literal values.
pub open spec fn lit_views(s: Seq<LiteralValue>) -> Seq<LitView> {
    s.map_values(|v: LiteralValue| v@)
}

/// Dimension `i` of a child's dimensions: one past its end.
pub open spec fn dim_at(c: Seq<usize>, i: int) -> usize {
    if 0 <= i < c.len() {
        c[i]
    } else {
        1
    }
}

/// The largest dimension `i` among the first `j` children, at least one.
pub open spec fn max_dim_upto(cds: Seq<Seq<usize>>, i: int, j: int) -> usize
    decreases j,
{
    if j <= 0 {
        1
    } else {
        let p = max_dim_upto(cds, i, j - 1);
        let d = dim_at(cds[j - 1], i);
        if d > p {
            d
        } else {
            p
        }
    }
}

/// The most dimensions among the first `j` children.
pub open spec fn max_len_upto(cds: Seq<Seq<usize>>, j: int) -> nat
    decreases j,
{
    if j <= 0 {
        0
    } else {
        let p = max_len_upto(cds, j - 1);
        if cds[j - 1].len() > p {
            cds[j - 1].len()
        } else {
            p
        }
    }
}

/// How many dimensions an array of the given children has: one more than
/// the most its children have (one, where it has none).
pub open spec fn num_dims(cds: Seq<Seq<usize>>) -> usize {
    let m = if cds.len() == 0 {
        1
    } else {
        max_len_upto(cds, cds.len() as int)
    };
    if m < usize::MAX {
        (m + 1) as usize
    } else {
        usize::MAX
    }
}

/// The dimensions of an array: the number of children, then for each
/// further dimension the largest among the children.
pub open spec fn combine_dims(cds: Seq<Seq<usize>>) -> Seq<usize> {
    seq![cds.len() as usize] + Seq::new(
        (num_dims(cds) - 1) as nat,
        |i: int| max_dim_upto(cds, i, cds.len() as int),
    )
}

/// The values of a string literal's characters.
pub open spec fn string_lits(text: Seq<u8>) -> Seq<LitView> {
    string_values(text.subrange(1, text.len() - 1)).map_values(
        |v: u32| LitView::Lit { value: v, min_reg_type: RegisterType::Byte },
    )
}

/// The values and dimensions of the array literal node `n`: a literal is
/// one value; a string literal its characters; an array its elements'
/// values, one after another.
pub open spec fn array_spec(t: &SyntaxTree, n: int) -> Result<(Seq<LitView>, Seq<usize>), ErrView>
    decreases t.events@.len() - n, 1int, 0int,
{
    if !(0 <= n < t.events@.len()) {
        Ok((Seq::empty(), seq![1usize]))
    } else {
        let cs = children(t, n);
        match first_node(t, cs, SyntaxKind::Literal) {
            Some(l) => match literal_spec(t, l as int) {
                Ok(v) => Ok((seq![v], seq![1usize])),
                Err(e) => Err(e),
            },
            None => match first_token(t, cs, SyntaxKind::StringLiteral) {
                Some(k) => {
                    let vals = string_lits(token_bytes_of(t, k));
                    Ok((vals, seq![vals.len() as usize, 1usize]))
                },
                None => if has_kind(t, cs, SyntaxKind::OpenSquare) {
                    match elems_spec(t, n, nodes_of_kind(t, cs, SyntaxKind::ArrayLiteral), 0) {
                        Ok((vals, cds)) => Ok((vals, combine_dims(cds))),
                        Err(e) => Err(e),
                    }
                } else {
                    Ok((Seq::empty(), seq![1usize]))
                },
            },
        }
    }
}

/// The values and dimensions of the element arrays `kids[i..]` of node
/// `n`, in order.
pub open spec fn elems_spec(t: &SyntaxTree, n: int, kids: Seq<usize>, i: int) -> Result<
    (Seq<LitView>, Seq<Seq<usize>>),
    ErrView,
>
    decreases t.events@.len() - n, 0int, kids.len() - i,
{
    if i >= kids.len() || i < 0 {
        Ok((Seq::empty(), Seq::empty()))
    } else if kids[i] <= n || kids[i] >= t.events@.len() {
        elems_spec(t, n, kids, i + 1)
    } else {
        match array_spec(t, kids[i] as int) {
            Err(e) => Err(e),
            Ok((v, d)) => match elems_spec(t, n, kids, i + 1) {
                Err(e) => Err(e),
                Ok((vs, ds)) => Ok((v + vs, seq![d] + ds)),
            },
        }
    }
}

/// The values of a string literal's characters.
fn string_literal_values(text: &Vec<u8>) -> (r: Vec<LiteralValue>)
    requires
        text@.len() >= 2,
        string_value_ok(text@.subrange(1, text@.len() - 1)),
    ensures
        lit_views(r@) == string_lits(text@),
{
    let ghost body = text@.subrange(1, text@.len() - 1);
    let end = text.len() - 1;
    let mut r: Vec<LiteralValue> = Vec::new();
    let mut i: usize = 1;
    assert(body.skip(0) =~= body);
    while i < end
        invariant
            1 <= i <= end + 1,
            end == text@.len() - 1,
            body == text@.subrange(1, end as int),
            i <= end ==> string_value_ok(body.skip(i - 1)),
            i <= end ==> string_lits(text@) == lit_views(r@) + string_values(body.skip(i - 1)).map_values(
                |v: u32| LitView::Lit { value: v, min_reg_type: RegisterType::Byte },
            ),
            i > end ==> string_lits(text@) == lit_views(r@),
        decreases end + 1 - i,
    {
        let ghost b = body.skip(i - 1);
        assert(b[0] == text@[i as int]);
        let ghost before = r@;
        if text[i] == 92 {
            assert(b[1] == text@[i + 1]);
            let c = text[i + 1];
            let v: u32 = if c == 110 {
                15
            } else {
                c as u32
            };
            r.push(LiteralValue::Lit { value: v, min_reg_type: RegisterType::Byte });
            assert(b.skip(2) =~= body.skip(i + 1));
            proof {
                assert(lit_views(r@) =~= lit_views(before).push(LitView::Lit { value: v, min_reg_type: RegisterType::Byte }));
                let m = |x: u32| LitView::Lit { value: x, min_reg_type: RegisterType::Byte };
                assert(string_values(b) == seq![v] + string_values(b.skip(2)));
                assert((seq![v] + string_values(b.skip(2))).map_values(m) =~= seq![m(v)] + string_values(b.skip(2)).map_values(m));
                if i + 2 > end {
                    assert(b.skip(2) =~= Seq::<u8>::empty());
                    assert(string_values(b.skip(2)).map_values(m) =~= Seq::<LitView>::empty());
                }
            }
            i = i + 2;
        } else {
            let v = text[i] as u32;
            r.push(LiteralValue::Lit { value: v, min_reg_type: RegisterType::Byte });
            assert(b.skip(1) =~= body.skip(i as int));
            proof {
                assert(lit_views(r@) =~= lit_views(before).push(LitView::Lit { value: v, min_reg_type: RegisterType::Byte }));
                let m = |x: u32| LitView::Lit { value: x, min_reg_type: RegisterType::Byte };
                assert(string_values(b) == seq![v] + string_values(b.skip(1)));
                assert((seq![v] + string_values(b.skip(1))).map_values(m) =~= seq![m(v)] + string_values(b.skip(1)).map_values(m));
                if i + 1 > end {
                    assert(b.skip(1) =~= Seq::<u8>::empty());
                    assert(string_values(b.skip(1)).map_values(m) =~= Seq::<LitView>::empty());
                }
            }
            i = i + 1;
        }
    }
    proof {
        if i == end {
            assert(body.skip(i - 1) =~= Seq::<u8>::empty());
            let m = |x: u32| LitView::Lit { value: x, min_reg_type: RegisterType::Byte };
            assert(string_values(body.skip(i - 1)).map_values(m) =~= Seq::<LitView>::empty());
            assert(lit_views(r@) + Seq::<LitView>::empty() =~= lit_views(r@));
        }
    }
    r
}


/// The views of a list of dimension lists.
pub open spec fn dims_views(v: Seq<Vec<usize>>) -> Seq<Seq<usize>> {
    v.map_values(|d: Vec<usize>| d@)
}

/// Combine the children's dimensions, as `combine_dims` says.
fn combine_dimensions(cds: &Vec<Vec<usize>>) -> (r: Vec<usize>)
    ensures
        r@ == combine_dims(dims_views(cds@)),
{
    let ghost cv = dims_views(cds@);
    let count = cds.len();
    let mut m: usize = 0;
    let mut j: usize = 0;
    while j < count
        invariant
            j <= count == cds@.len() == cv.len(),
            cv == dims_views(cds@),
            m == max_len_upto(cv, j as int),
        decreases count - j,
    {
        assert(cv[j as int] == cds@[j as int]@);
        if cds[j].len() > m {
            m = cds[j].len();
        }
        j = j + 1;
    }
    if count == 0 {
        m = 1;
    }
    let nd: usize = if m < usize::MAX {
        m + 1
    } else {
        usize::MAX
    };
    assert(nd == num_dims(cv));
    let mut dims: Vec<usize> = Vec::new();
    dims.push(count);
    while dims.len() < nd
        invariant
            1 <= dims@.len() <= nd,
            dims@[0] == count,
            forall|i: int| 1 <= i < dims@.len() ==> #[trigger] dims@[i] == 1,
        decreases nd - dims@.len(),
    {
        dims.push(1);
    }
    let mut j: usize = 0;
    while j < count
        invariant
            j <= count == cds@.len() == cv.len(),
            cv == dims_views(cds@),
            dims@.len() == nd,
            nd >= 1,
            dims@[0] == count,
            forall|i: int| 1 <= i < nd ==> #[trigger] dims@[i] == max_dim_upto(cv, i - 1, j as int),
        decreases count - j,
    {
        assert(cv[j as int] == cds@[j as int]@);
        let c = &cds[j];
        let mut i: usize = 1;
        while i < nd
            invariant
                1 <= i <= nd,
                dims@.len() == nd,
                dims@[0] == count,
                j < count == cds@.len() == cv.len(),
                cv == dims_views(cds@),
                c@ == cv[j as int],
                forall|k: int| 1 <= k < i ==> #[trigger] dims@[k] == max_dim_upto(cv, k - 1, j + 1),
                forall|k: int| i <= k < nd ==> #[trigger] dims@[k] == max_dim_upto(cv, k - 1, j as int),
            decreases nd - i,
        {
            let d = if i - 1 < c.len() {
                c[i - 1]
            } else {
                1
            };
            assert(d == dim_at(cv[j as int], i - 1));
            if d > dims[i] {
                dims.set(i, d);
            }
            i = i + 1;
        }
        j = j + 1;
    }
    assert(dims@ =~= combine_dims(cv));
    dims
}


/// A one-element dimension list.
fn one_dim(a: usize) -> (r: Vec<usize>)
    ensures
        r@ == seq![a],
{
    let mut r: Vec<usize> = Vec::new();
    r.push(a);
    assert(r@ =~= seq![a]);
    r
}

/// The values and dimensions of the array literal node `n`, as
/// `array_spec` says.
fn array_values_of(t: &SyntaxTree, n: usize) -> (r: SaltResult<(Vec<LiteralValue>, Vec<usize>)>)
    requires
        well_kept(t),
        values_ok(t),
    ensures
        match array_spec(t, n as int) {
            Ok((vs, ds)) => r matches Ok((v, d)) && lit_views(v@) == vs && d@ == ds,
            Err(ev) => r matches Err(e) && is_err(&e, ev),
        },
    decreases t.events@.len() - n, 1int,
{
    if n >= t.events.len() {
        let v: Vec<LiteralValue> = Vec::new();
        assert(lit_views(v@) =~= Seq::<LitView>::empty());
        return Ok((v, one_dim(1)));
    }
    let node = SyntaxNode { tree: t, index: n };
    let cs = node.children();
    match find_node(t, &cs, SyntaxKind::Literal) {
        Some(l) => {
            proof {
                lemma_first_node_kind(t, cs@, SyntaxKind::Literal);
            }
            let lit = Literal { syntax: SyntaxNode { tree: t, index: l } };
            let v = lit.value()?;
            let mut vs: Vec<LiteralValue> = Vec::new();
            vs.push(v);
            assert(lit_views(vs@) =~= seq![vs@[0]@]);
            Ok((vs, one_dim(1)))
        },
        None => match find_token(t, &cs, SyntaxKind::StringLiteral) {
            Some(k) => {
                let text = t.token_bytes(k);
                assert(t.tokens@[k as int].tt == TokenType::StringLiteral);
                let vals = string_literal_values(&text);
                let mut dims = one_dim(vals.len());
                dims.push(1);
                assert(dims@ =~= seq![vals@.len() as usize, 1usize]);
                Ok((vals, dims))
            },
            None => {
                if contains_kind(t, &cs, SyntaxKind::OpenSquare) {
                    let kids = collect_nodes(t, &cs, SyntaxKind::ArrayLiteral);
                    let (vals, cds) = elems_of(t, n, &kids)?;
                    let dims = combine_dimensions(&cds);
                    Ok((vals, dims))
                } else {
                    let v: Vec<LiteralValue> = Vec::new();
                    assert(lit_views(v@) =~= Seq::<LitView>::empty());
                    Ok((v, one_dim(1)))
                }
            },
        },
    }
}

/// The values and dimensions of the element arrays `kids` of node `n`, as
/// `elems_spec` says.
fn elems_of(t: &SyntaxTree, n: usize, kids: &Vec<usize>) -> (r: SaltResult<(Vec<LiteralValue>, Vec<Vec<usize>>)>)
    requires
        well_kept(t),
        values_ok(t),
        n < t.events@.len(),
    ensures
        match elems_spec(t, n as int, kids@, 0) {
            Ok((vs, ds)) => r matches Ok((v, d)) && lit_views(v@) == vs && dims_views(d@) == ds,
            Err(ev) => r matches Err(e) && is_err(&e, ev),
        },
    decreases t.events@.len() - n, 0int,
{
    let mut vals: Vec<LiteralValue> = Vec::new();
    let mut cds: Vec<Vec<usize>> = Vec::new();
    let mut i: usize = 0;
    assert(lit_views(vals@) =~= Seq::<LitView>::empty());
    assert(dims_views(cds@) =~= Seq::<Seq<usize>>::empty());
    while i < kids.len()
        invariant
            i <= kids@.len(),
            well_kept(t),
            values_ok(t),
            n < t.events@.len(),
            elems_spec(t, n as int, kids@, 0) == match elems_spec(t, n as int, kids@, i as int) {
                Ok((vs, ds)) => Ok((lit_views(vals@) + vs, dims_views(cds@) + ds)),
                Err(e) => Err(e),
            },
        decreases kids@.len() - i,
    {
        let kid = kids[i];
        if kid > n && kid < t.events.len() {
            let (mut v, d) = array_values_of(t, kid)?;
            let ghost old_vals = lit_views(vals@);
            let ghost old_cds = dims_views(cds@);
            let ghost vv = lit_views(v@);
            let ghost dv = d@;
            vals.append(&mut v);
            cds.push(d);
            assert(lit_views(vals@) =~= old_vals + vv);
            assert(dims_views(cds@) =~= old_cds.push(dv));
            proof {
                match elems_spec(t, n as int, kids@, i + 1) {
                    Ok((vs, ds)) => {
                        assert(lit_views(vals@) + vs =~= old_vals + (vv + vs));
                        assert(dims_views(cds@) + ds =~= old_cds + (seq![dv] + ds));
                    },
                    Err(_) => {},
                }
            }
        }
        i = i + 1;
    }
    assert(lit_views(vals@) + Seq::<LitView>::empty() =~= lit_views(vals@));
    assert(dims_views(cds@) + Seq::<Seq<usize>>::empty() =~= dims_views(cds@));
    Ok((vals, cds))
}

impl<'a> ArrayLiteral<'a> {
    /// The values and dimensions of the array literal, as `array_spec`
    /// says.
    pub fn values(&self) -> (r: SaltResult<(Vec<LiteralValue>, Vec<usize>)>)
        requires
            ast_ok(self.syntax),
        ensures
            match array_spec(self.syntax.tree, self.syntax.index as int) {
                Ok((vs, ds)) => r matches Ok((v, d)) && lit_views(v@) == vs && d@ == ds,
                Err(ev) => r matches Err(e) && is_err(&e, ev),
            },
    {
        array_values_of(self.syntax.tree, self.syntax.index)
    }
}


/// The value of a constant declaration: that of its literal.
pub open spec fn const_value_spec(t: &SyntaxTree, n: int) -> Result<LitView, ErrView> {
    match first_node(t, children(t, n), SyntaxKind::Literal) {
        Some(l) => literal_spec(t, l as int),
        None => Ok(LitView::Sizeof { ident: Seq::empty() }),
    }
}

impl<'a> ConstDecl<'a> {
    /// The name.
    pub fn name(&self) -> (r: Vec<u8>)
        requires
            node_ok(self.syntax.tree, self.syntax.index as int),
        ensures
            r@ == ident_of(self.syntax.tree, self.syntax.index as int),
    {
        self.syntax.identifier().0
    }

    /// Whether it is public.
    pub fn public(&self) -> (r: bool)
        requires
            node_ok(self.syntax.tree, self.syntax.index as int),
        ensures
            r == has_kind(self.syntax.tree, children(self.syntax.tree, self.syntax.index as int), SyntaxKind::KwPub),
    {
        self.syntax.has_child(SyntaxKind::KwPub)
    }

    /// The span of the name.
    pub fn name_span(&self) -> (r: Span)
        requires
            node_ok(self.syntax.tree, self.syntax.index as int),
        ensures
            r == ident_span_of(self.syntax.tree, self.syntax.index as int),
    {
        self.syntax.identifier().1
    }

    /// The value.
    pub fn value(&self) -> (r: SaltResult<LiteralValue>)
        requires
            ast_ok(self.syntax),
        ensures
            match const_value_spec(self.syntax.tree, self.syntax.index as int) {
                Ok(v) => r matches Ok(x) && x@ == v,
                Err(ev) => r matches Err(e) && is_err(&e, ev),
            },
    {
        let t = self.syntax.tree;
        let cs = self.syntax.children();
        match find_node(t, &cs, SyntaxKind::Literal) {
            Some(l) => {
                proof {
                    lemma_first_node_kind(t, cs@, SyntaxKind::Literal);
                }
                Literal { syntax: SyntaxNode { tree: t, index: l } }.value()
            },
            None => Ok(LiteralValue::Sizeof { ident: Vec::new() }),
        }
    }
}

/// The first child node of a kind, or the node itself where there is none.
pub open spec fn child_or_self(t: &SyntaxTree, n: int, kind: SyntaxKind) -> usize {
    match first_node(t, children(t, n), kind) {
        Some(c) => c,
        None => n as usize,
    }
}

impl<'a> DataDecl<'a> {
    /// The name.
    pub fn name(&self) -> (r: Vec<u8>)
        requires
            node_ok(self.syntax.tree, self.syntax.index as int),
        ensures
            r@ == ident_of(self.syntax.tree, self.syntax.index as int),
    {
        self.syntax.identifier().0
    }

    /// Whether it is public.
    pub fn public(&self) -> (r: bool)
        requires
            node_ok(self.syntax.tree, self.syntax.index as int),
        ensures
            r == has_kind(self.syntax.tree, children(self.syntax.tree, self.syntax.index as int), SyntaxKind::KwPub),
    {
        self.syntax.has_child(SyntaxKind::KwPub)
    }

    /// The span of the name.
    pub fn name_span(&self) -> (r: Span)
        requires
            node_ok(self.syntax.tree, self.syntax.index as int),
        ensures
            r == ident_span_of(self.syntax.tree, self.syntax.index as int),
    {
        self.syntax.identifier().1
    }

    /// Whether the data is mutable.
    pub fn mutable(&self) -> (r: bool)
        requires
            node_ok(self.syntax.tree, self.syntax.index as int),
        ensures
            r == has_kind(self.syntax.tree, children(self.syntax.tree, self.syntax.index as int), SyntaxKind::KwMut),
    {
        self.syntax.has_child(SyntaxKind::KwMut)
    }

    fn child(&self, kind: SyntaxKind) -> (r: usize)
        requires
            node_ok(self.syntax.tree, self.syntax.index as int),
        ensures
            r == child_or_self(self.syntax.tree, self.syntax.index as int, kind),
            node_ok(self.syntax.tree, r as int),
    {
        let cs = self.syntax.children();
        proof {
            lemma_first_node_kind(self.syntax.tree, cs@, kind);
        }
        match find_node(self.syntax.tree, &cs, kind) {
            Some(c) => c,
            None => self.syntax.index,
        }
    }

    /// The data type.
    pub fn type_(&self) -> (r: DataType<'a>)
        requires
            node_ok(self.syntax.tree, self.syntax.index as int),
        ensures
            r.syntax.tree == self.syntax.tree,
            r.syntax.index == child_or_self(self.syntax.tree, self.syntax.index as int, SyntaxKind::DataType),
            node_ok(r.syntax.tree, r.syntax.index as int),
    {
        DataType { syntax: SyntaxNode { tree: self.syntax.tree, index: self.child(SyntaxKind::DataType) } }
    }

    /// The span of the initialiser.
    pub fn init_span(&self) -> (r: Span)
        requires
            node_ok(self.syntax.tree, self.syntax.index as int),
        ensures
            r == node_span(self.syntax.tree, child_or_self(self.syntax.tree, self.syntax.index as int, SyntaxKind::ArrayLiteral) as int),
    {
        let c = self.child(SyntaxKind::ArrayLiteral);
        self.syntax.tree.node_span_of(c)
    }

    /// The initialiser's values and dimensions.
    pub fn initialiser(&self) -> (r: SaltResult<(Vec<LiteralValue>, Vec<usize>)>)
        requires
            ast_ok(self.syntax),
        ensures
            match array_spec(self.syntax.tree, child_or_self(self.syntax.tree, self.syntax.index as int, SyntaxKind::ArrayLiteral) as int) {
                Ok((vs, ds)) => r matches Ok((v, d)) && lit_views(v@) == vs && d@ == ds,
                Err(ev) => r matches Err(e) && is_err(&e, ev),
            },
    {
        let c = self.child(SyntaxKind::ArrayLiteral);
        array_values_of(self.syntax.tree, c)
    }
}

/// The instruction a label points at, scanning the program's lines from
/// `i`: once the label's own line has been seen, the first instruction.
pub open spec fn target_from(t: &SyntaxTree, lines: Seq<Element>, label: usize, i: int, seen: bool) -> Option<usize>
    decreases lines.len() - i,
{
    if i >= lines.len() || i < 0 {
        None
    } else {
        match lines[i] {
            Element::Node(l) => if node_kind(t, l as int) == Some(SyntaxKind::Line) {
                let lc = children(t, l as int);
                let seen2 = seen || lc.contains(Element::Node(label));
                if seen2 {
                    match first_node(t, lc, SyntaxKind::Instruction) {
                        Some(x) => Some(x),
                        None => target_from(t, lines, label, i + 1, seen2),
                    }
                } else {
                    target_from(t, lines, label, i + 1, seen2)
                }
            } else {
                target_from(t, lines, label, i + 1, seen)
            },
            Element::Token(_) => target_from(t, lines, label, i + 1, seen),
        }
    }
}

/// The instruction the label node `label` points at: the first instruction
/// on its line or a later line of the program.
pub open spec fn label_target(t: &SyntaxTree, label: usize) -> Option<usize> {
    target_from(t, children(t, 0), label, 0, false)
}

/// Whether an element is among `cs`.
fn has_element(cs: &Vec<Element>, e: Element) -> (r: bool)
    ensures
        r == cs@.contains(e),
{
    let mut i: usize = 0;
    while i < cs.len()
        invariant
            i <= cs@.len(),
            forall|j: int| 0 <= j < i ==> cs@[j] != e,
        decreases cs@.len() - i,
    {
        if cs[i] == e {
            return true;
        }
        i = i + 1;
    }
    false
}

impl<'a> Label<'a> {
    /// The name.
    pub fn name(&self) -> (r: Vec<u8>)
        requires
            node_ok(self.syntax.tree, self.syntax.index as int),
        ensures
            r@ == ident_of(self.syntax.tree, self.syntax.index as int),
    {
        self.syntax.identifier().0
    }

    /// Whether it is public.
    pub fn public(&self) -> (r: bool)
        requires
            node_ok(self.syntax.tree, self.syntax.index as int),
        ensures
            r == has_kind(self.syntax.tree, children(self.syntax.tree, self.syntax.index as int), SyntaxKind::KwPub),
    {
        self.syntax.has_child(SyntaxKind::KwPub)
    }

    /// The instruction the label points at: the first instruction on the
    /// label's line or a later one.
    pub fn instruction(&self) -> (r: SaltResult<Instruction<'a>>)
        requires
            node_ok(self.syntax.tree, self.syntax.index as int),
            node_ok(self.syntax.tree, 0),
        ensures
            match label_target(self.syntax.tree, self.syntax.index) {
                Some(n) => r matches Ok(x) && x.syntax.tree == self.syntax.tree && x.syntax.index == n,
                None => r matches Err(e) && e.span == node_span(self.syntax.tree, self.syntax.index as int)
                    && e.message@ == "Label without a following instruction."@,
            },
    {
        let t = self.syntax.tree;
        let lines = t.children_of(0);
        let mut i: usize = 0;
        let mut seen = false;
        while i < lines.len()
            invariant
                i <= lines@.len(),
                well_kept(t),
                t == self.syntax.tree,
                lines@ == children(t, 0),
                label_target(t, self.syntax.index) == target_from(t, lines@, self.syntax.index, i as int, seen),
            decreases lines@.len() - i,
        {
            let e = lines[i];
            match e {
                Element::Node(l) => {
                    if t.kind_of(e) == Some(SyntaxKind::Line) {
                        let lc = t.children_of(l);
                        if !seen {
                            if has_element(&lc, Element::Node(self.syntax.index)) {
                                seen = true;
                            }
                        }
                        if seen {
                            match find_node(t, &lc, SyntaxKind::Instruction) {
                                Some(x) => {
                                    return Ok(Instruction { syntax: SyntaxNode { tree: t, index: x } });
                                },
                                None => {},
                            }
                        }
                    }
                },
                Element::Token(_) => {},
            }
            i = i + 1;
        }
        Err(SaltError::new(self.syntax.text_range(), "Label without a following instruction."))
    }
}


/// ASCII lower case of a byte.
pub open spec fn lower_byte(c: u8) -> u8 {
    if 65 <= c <= 90 {
        (c + 32) as u8
    } else {
        c
    }
}

/// ASCII lower case of a text.
pub open spec fn lower_text(s: Seq<u8>) -> Seq<u8> {
    s.map_values(|c: u8| lower_byte(c))
}

/// What an operand is: a name or a literal.
#[derive(Debug)]
pub enum OperandValue {
    Ident(Vec<u8>),
    Lit(LiteralValue),
}

/// The abstract value of an operand.
pub enum OperandView {
    Ident(Seq<u8>),
    Lit(LitView),
}

impl View for OperandValue {
    type V = OperandView;

    open spec fn view(&self) -> OperandView {
        match self {
            OperandValue::Ident(s) => OperandView::Ident(s@),
            OperandValue::Lit(l) => OperandView::Lit(l@),
        }
    }
}

/// The value of the operand node `n`: its identifier, else its literal's
/// value.
pub open spec fn operand_spec(t: &SyntaxTree, n: int) -> Result<OperandView, ErrView> {
    let cs = children(t, n);
    match first_token(t, cs, SyntaxKind::Identifier) {
        Some(k) => Ok(OperandView::Ident(token_bytes_of(t, k))),
        None => match first_node(t, cs, SyntaxKind::Literal) {
            Some(l) => match literal_spec(t, l as int) {
                Ok(v) => Ok(OperandView::Lit(v)),
                Err(e) => Err(e),
            },
            None => Ok(OperandView::Ident(Seq::empty())),
        },
    }
}

impl<'a> Instruction<'a> {
    /// The opcode in lower case, and its span.
    pub fn opcode(&self) -> (r: (Vec<u8>, Span))
        requires
            node_ok(self.syntax.tree, self.syntax.index as int),
        ensures
            r.0@ == lower_text(ident_of(self.syntax.tree, self.syntax.index as int)),
            r.1 == ident_span_of(self.syntax.tree, self.syntax.index as int),
    {
        let (name, span) = self.syntax.identifier();
        let mut lower: Vec<u8> = Vec::new();
        let mut i: usize = 0;
        while i < name.len()
            invariant
                i <= name@.len(),
                lower@ == lower_text(name@.take(i as int)),
            decreases name@.len() - i,
        {
            let c = name[i];
            let l = if 65 <= c && c <= 90 {
                c + 32
            } else {
                c
            };
            lower.push(l);
            i = i + 1;
            assert(lower@ =~= lower_text(name@.take(i as int)));
        }
        assert(name@.take(i as int) =~= name@);
        (lower, span)
    }

    /// The operands, in order.
    pub fn operands(&self) -> (r: Vec<Operand<'a>>)
        requires
            node_ok(self.syntax.tree, self.syntax.index as int),
        ensures
            r@.len() == nodes_of_kind(self.syntax.tree, children(self.syntax.tree, self.syntax.index as int), SyntaxKind::Operand).len(),
            forall|i: int| 0 <= i < r@.len() ==> (#[trigger] r@[i]).syntax.tree == self.syntax.tree && r@[i].syntax.index
                == nodes_of_kind(self.syntax.tree, children(self.syntax.tree, self.syntax.index as int), SyntaxKind::Operand)[i],
    {
        let cs = self.syntax.children();
        let idx = collect_nodes(self.syntax.tree, &cs, SyntaxKind::Operand);
        let mut r: Vec<Operand<'a>> = Vec::new();
        let mut i: usize = 0;
        while i < idx.len()
            invariant
                i <= idx@.len(),
                r@.len() == i,
                forall|j: int| 0 <= j < i ==> (#[trigger] r@[j]).syntax.tree == self.syntax.tree && r@[j].syntax.index == idx@[j],
            decreases idx@.len() - i,
        {
            r.push(Operand { syntax: SyntaxNode { tree: self.syntax.tree, index: idx[i] } });
            i = i + 1;
        }
        r
    }
}

/// The nodes of a list of operands.
pub open spec fn op_indices(ops: Seq<Operand>) -> Seq<usize> {
    ops.map_values(|o: Operand| o.syntax.index)
}

impl<'a> Operand<'a> {
    /// The operand's value, as `operand_spec` says.
    pub fn value(&self) -> (r: SaltResult<OperandValue>)
        requires
            ast_ok(self.syntax),
        ensures
            match operand_spec(self.syntax.tree, self.syntax.index as int) {
                Ok(v) => r matches Ok(x) && x@ == v,
                Err(ev) => r matches Err(e) && is_err(&e, ev),
            },
    {
        let t = self.syntax.tree;
        let cs = self.syntax.children();
        match find_token(t, &cs, SyntaxKind::Identifier) {
            Some(k) => Ok(OperandValue::Ident(t.token_bytes(k))),
            None => match find_node(t, &cs, SyntaxKind::Literal) {
                Some(l) => {
                    proof {
                        lemma_first_node_kind(t, cs@, SyntaxKind::Literal);
                    }
                    let v = Literal { syntax: SyntaxNode { tree: t, index: l } }.value()?;
                    Ok(OperandValue::Lit(v))
                },
                None => Ok(OperandValue::Ident(Vec::new())),
            },
        }
    }
}

} // verus!
