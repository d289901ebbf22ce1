//! The SimAsm parser: a mostly LL(1) recursive descent parser, with the
//! occasional second token of lookahead, that builds a lossless syntax tree.
//! White space belongs to the node of the token that follows it.
use vstd::prelude::*;
use crate::salt::error::{ErrView, SaltError};
use crate::salt::codegen::err_views;
use crate::salt::lexer::{lemma_lexing_unique, lex, lexed, tokens_cover, Lexer, Token, TokenType};
use crate::salt::syntax::{
    first_indices, lossless, token_seq, tree_text, well_kept, Event, Span, SyntaxKind, SyntaxTree,
};

verus! {

/// Why a production stopped: a token it did not expect, or the end of the
/// input.
#[derive(Debug, Clone, Copy, PartialEq, Eq, Structural)]
pub enum Failure {
    WrongToken,
    Eof,
}

/// Whether a sequence goes on or has ended.
#[derive(Debug, Clone, Copy, PartialEq, Eq, Structural)]
pub enum SequenceResult {
    GoAgain,
    GracefulEnd,
}

/// The index of the first token from `from` on that is not white space.
pub open spec fn first_non_ws(toks: Seq<Token>, from: int) -> Option<int>
    decreases toks.len() - from,
{
    if from >= toks.len() || from < 0 {
        None
    } else if toks[from].tt != TokenType::Whitespace {
        Some(from)
    } else {
        first_non_ws(toks, from + 1)
    }
}

proof fn lemma_first_non_ws(toks: Seq<Token>, from: int)
    requires
        0 <= from <= toks.len(),
    ensures
        first_non_ws(toks, from) matches Some(j) ==> from <= j < toks.len() && toks[j].tt
            != TokenType::Whitespace,
    decreases toks.len() - from,
{
    if from < toks.len() {
        lemma_first_non_ws(toks, from + 1);
    }
}

/// The tokens before the first that is not white space are white space; where
/// there is none, all the tokens left are.
proof fn lemma_ws_before(toks: Seq<Token>, from: int)
    requires
        0 <= from <= toks.len(),
    ensures
        match first_non_ws(toks, from) {
            Some(j) => forall|i: int| from <= i < j ==> #[trigger] toks[i].tt == TokenType::Whitespace,
            None => forall|i: int| from <= i < toks.len() ==> #[trigger] toks[i].tt == TokenType::Whitespace,
        },
    decreases toks.len() - from,
{
    if from < toks.len() {
        lemma_ws_before(toks, from + 1);
    }
}

/// No token in `a..b` is a newline.
pub open spec fn no_newline(toks: Seq<Token>, a: int, b: int) -> bool {
    forall|i: int| a <= i < b ==> #[trigger] toks[i].tt != TokenType::Newline
}

/// The token types that can open an operand.
pub open spec fn operand_start(p: Result<TokenType, Failure>) -> bool {
    p matches Ok(t) && (t == TokenType::Identifier || t == TokenType::IntLiteral || t == TokenType::FloatLiteral
        || t == TokenType::CharLiteral || t == TokenType::Sizeof)
}

/// The token types that are a literal by themselves.
pub open spec fn simple_literal(t: TokenType) -> bool {
    t == TokenType::IntLiteral || t == TokenType::FloatLiteral || t == TokenType::CharLiteral
}

/// The token types that can open a line.
pub open spec fn line_start(t: TokenType) -> bool {
    t == TokenType::Pub || t == TokenType::Const || t == TokenType::Static || t == TokenType::Identifier
        || t == TokenType::Comment || t == TokenType::Newline
}

/// The last token consumed ends a line: a newline, or a comment, which runs
/// to the end of its line.
pub open spec fn line_ended(toks: Seq<Token>, pos: int) -> bool {
    pos > 0 && (toks[pos - 1].tt == TokenType::Newline || toks[pos - 1].tt == TokenType::Comment)
}

/// What parsing has built and where it stands: the position in the tokens,
/// the tree's events, the errors, and the span of the last token consumed.
pub struct PState {
    pub pos: int,
    pub events: Seq<Event>,
    pub errors: Seq<ErrView>,
    pub last: Span,
}

/// Take the token at the position into the tree.
pub open spec fn eat_g(toks: Seq<Token>, s: PState) -> PState {
    PState {
        pos: s.pos + 1,
        events: s.events.push(Event::Token(s.pos as usize)),
        last: Span { start: toks[s.pos].start, end: toks[s.pos].end },
        ..s
    }
}

/// Take white space and the next token that is not white space; at the end
/// of the input, the white space left and `Eof`.
pub open spec fn consume_g(toks: Seq<Token>, s: PState) -> (PState, Result<(), Failure>)
    decreases toks.len() - s.pos,
{
    if s.pos < 0 || s.pos >= toks.len() {
        (s, Err(Failure::Eof))
    } else if toks[s.pos].tt != TokenType::Whitespace {
        (eat_g(toks, s), Ok(()))
    } else {
        consume_g(toks, eat_g(toks, s))
    }
}

/// Open a node of a kind.
pub open spec fn start_g(s: PState, kind: SyntaxKind) -> PState {
    PState { events: s.events.push(Event::Start(kind)), ..s }
}

/// Close the innermost open node.
pub open spec fn finish_g(s: PState) -> PState {
    PState { events: s.events.push(Event::Finish), ..s }
}

/// Take the next token with an error at its span.
pub open spec fn error_consume_g(toks: Seq<Token>, s: PState, m: Seq<char>) -> PState {
    let s1 = consume_g(toks, s).0;
    PState { errors: s1.errors.push(ErrView { span: s1.last, message: m }), ..s1 }
}

/// Take the next token if it is of type `t`.
pub open spec fn try_consume_exact_g(toks: Seq<Token>, s: PState, t: TokenType) -> (PState, Result<(), Failure>) {
    match peek_spec(toks, s.pos) {
        Err(e) => (s, Err(e)),
        Ok(x) => if x == t {
            consume_g(toks, s)
        } else {
            (s, Err(Failure::WrongToken))
        },
    }
}

/// Take the next token if it is of type `t`, else take it with the error `m`.
pub open spec fn consume_exact_g(toks: Seq<Token>, s: PState, t: TokenType, m: Seq<char>) -> (
    PState,
    Result<(), Failure>,
) {
    match peek_spec(toks, s.pos) {
        Err(e) => (s, Err(e)),
        Ok(x) => if x == t {
            consume_g(toks, s)
        } else {
            (error_consume_g(toks, s, m), Err(Failure::WrongToken))
        },
    }
}

/// Take the next token if it is of type `t`; nothing else where it is not.
pub open spec fn optional_g(toks: Seq<Token>, s: PState, t: TokenType) -> (PState, Result<(), Failure>) {
    match peek_spec(toks, s.pos) {
        Err(e) => (s, Err(e)),
        Ok(x) => if x == t {
            consume_g(toks, s)
        } else {
            (s, Ok(()))
        },
    }
}

/// Literal: an integer, float or character literal, or `sizeof (name)`.
pub open spec fn literal_g(toks: Seq<Token>, s: PState) -> (PState, Result<(), Failure>) {
    match peek_spec(toks, s.pos) {
        Err(e) => (s, Err(e)),
        Ok(t) => if simple_literal(t) {
            consume_g(toks, s)
        } else if t == TokenType::Sizeof {
            let (s1, r1) = consume_g(toks, s);
            if r1 is Err {
                (s1, r1)
            } else {
                let (s2, r2) = consume_exact_g(toks, s1, TokenType::OpenParen, "Expected '('."@);
                if r2 is Err {
                    (s2, r2)
                } else {
                    let (s3, r3) = consume_exact_g(toks, s2, TokenType::Identifier, "Expected data identifier."@);
                    if r3 is Err {
                        (s3, r3)
                    } else {
                        consume_exact_g(toks, s3, TokenType::CloseParen, "Expected ')'."@)
                    }
                }
            }
        } else {
            (error_consume_g(toks, s, "Expected integer, float, or character literal."@), Err(Failure::WrongToken))
        },
    }
}

/// A Literal node.
pub open spec fn parse_literal_g(toks: Seq<Token>, s: PState) -> (PState, Result<(), Failure>) {
    let r = literal_g(toks, start_g(s, SyntaxKind::Literal));
    (finish_g(r.0), r.1)
}

/// ConstDecl: an optional `pub`, `const`, a name and a literal.
pub open spec fn const_decl_g(toks: Seq<Token>, s: PState) -> (PState, Result<(), Failure>) {
    let (s1, r1) = optional_g(toks, s, TokenType::Pub);
    if r1 is Err {
        (s1, r1)
    } else {
        let (s2, r2) = consume_exact_g(toks, s1, TokenType::Const, "Expected const keyword."@);
        if r2 is Err {
            (s2, r2)
        } else {
            let (s3, r3) = consume_exact_g(toks, s2, TokenType::Identifier, "Expected constant name."@);
            if r3 is Err {
                (s3, r3)
            } else {
                parse_literal_g(toks, s3)
            }
        }
    }
}

/// A ConstDecl node.
pub open spec fn parse_const_decl_g(toks: Seq<Token>, s: PState) -> (PState, Result<(), Failure>) {
    let r = const_decl_g(toks, start_g(s, SyntaxKind::ConstDecl));
    (finish_g(r.0), r.1)
}

/// The array lengths of a data type, from where `s` stands.
pub open spec fn dims_g(toks: Seq<Token>, s: PState) -> (PState, Result<(), Failure>)
    decreases toks.len() - s.pos,
{
    match peek_spec(toks, s.pos) {
        Err(e) => (s, Err(e)),
        Ok(t) => if t != TokenType::OpenSquare {
            (s, Ok(()))
        } else {
            let (s1, r1) = consume_g(toks, s);
            if r1 is Err {
                (s1, r1)
            } else {
                match peek_spec(toks, s1.pos) {
                    Err(e) => (s1, Err(e)),
                    Ok(u) => if u == TokenType::IntLiteral || u == TokenType::DoubleDot {
                        let (s2, r2) = consume_g(toks, s1);
                        if r2 is Err {
                            (s2, r2)
                        } else {
                            let (s3, r3) = consume_exact_g(toks, s2, TokenType::CloseSquare, "Expected ']'."@);
                            if r3 is Err {
                                (s3, r3)
                            } else if s.pos < s3.pos <= toks.len() {
                                dims_g(toks, s3)
                            } else {
                                (s3, Ok(()))
                            }
                        }
                    } else {
                        (error_consume_g(toks, s1, "Expected array length."@), Err(Failure::WrongToken))
                    },
                }
            }
        },
    }
}

/// DataType: `byte`, `half` or `word`, then its array lengths.
pub open spec fn data_type_g(toks: Seq<Token>, s: PState) -> (PState, Result<(), Failure>) {
    match peek_spec(toks, s.pos) {
        Err(e) => (s, Err(e)),
        Ok(t) => if t == TokenType::Byte || t == TokenType::Half || t == TokenType::Word {
            let (s1, r1) = consume_g(toks, s);
            if r1 is Err {
                (s1, r1)
            } else {
                dims_g(toks, s1)
            }
        } else {
            (error_consume_g(toks, s, "Expected data type."@), Err(Failure::WrongToken))
        },
    }
}

/// A DataType node.
pub open spec fn parse_data_type_g(toks: Seq<Token>, s: PState) -> (PState, Result<(), Failure>) {
    let r = data_type_g(toks, start_g(s, SyntaxKind::DataType));
    (finish_g(r.0), r.1)
}

/// An ArrayLiteral node.
pub open spec fn parse_array_g(toks: Seq<Token>, s: PState) -> (PState, Result<(), Failure>)
    decreases toks.len() - s.pos, 1nat,
{
    let r = array_g(toks, start_g(s, SyntaxKind::ArrayLiteral));
    (finish_g(r.0), r.1)
}

/// ArrayLiteral: a literal, a string literal, or square brackets around
/// array literals separated by commas.
pub open spec fn array_g(toks: Seq<Token>, s: PState) -> (PState, Result<(), Failure>)
    decreases toks.len() - s.pos, 0nat,
{
    match peek_spec(toks, s.pos) {
        Err(e) => (s, Err(e)),
        Ok(t) => if simple_literal(t) || t == TokenType::Sizeof {
            parse_literal_g(toks, s)
        } else if t == TokenType::StringLiteral {
            consume_g(toks, s)
        } else if t == TokenType::OpenSquare {
            let (s1, r1) = consume_g(toks, s);
            if r1 is Err {
                (s1, r1)
            } else {
                match peek_spec(toks, s1.pos) {
                    Err(e) => (s1, Err(e)),
                    Ok(u) => if u != TokenType::CloseSquare {
                        if s.pos < s1.pos <= toks.len() {
                            let (s2, r2) = items_g(toks, s1);
                            if r2 is Err {
                                (s2, r2)
                            } else {
                                consume_g(toks, s2)
                            }
                        } else {
                            (s1, Ok(()))
                        }
                    } else {
                        consume_g(toks, s1)
                    },
                }
            }
        } else {
            (error_consume_g(toks, s, "Expected literal."@), Err(Failure::WrongToken))
        },
    }
}

/// The items of a bracketed array literal, up to its `]`.
pub open spec fn items_g(toks: Seq<Token>, s: PState) -> (PState, Result<(), Failure>)
    decreases toks.len() - s.pos, 2nat,
{
    let (s1, r1) = parse_array_g(toks, s);
    if r1 is Err {
        (s1, r1)
    } else {
        match peek_spec(toks, s1.pos) {
            Err(e) => (s1, Err(e)),
            Ok(n) => if n == TokenType::Comma {
                let (s2, r2) = consume_g(toks, s1);
                if r2 is Err {
                    (s2, r2)
                } else if s.pos < s2.pos <= toks.len() {
                    items_g(toks, s2)
                } else {
                    (s2, Ok(()))
                }
            } else if n == TokenType::CloseSquare {
                (s1, Ok(()))
            } else {
                (error_consume_g(toks, s1, "Expected ',' or ']'"@), Err(Failure::WrongToken))
            },
        }
    }
}

/// DataDecl: an optional `pub`, `static`, an optional `mut`, a data type, a
/// DataDecl: an optional `pub`, `static`, an optional `mut`, a data type, a
/// name and an array literal.
pub open spec fn data_decl_g(toks: Seq<Token>, s: PState) -> (PState, Result<(), Failure>) {
    let (s1, r1) = optional_g(toks, s, TokenType::Pub);
    if r1 is Err {
        (s1, r1)
    } else {
        let (s2, r2) = consume_exact_g(toks, s1, TokenType::Static, "Expected static keyword."@);
        if r2 is Err {
            (s2, r2)
        } else {
            let (s3, r3) = optional_g(toks, s2, TokenType::Mut);
            if r3 is Err {
                (s3, r3)
            } else {
                let (s4, r4) = parse_data_type_g(toks, s3);
                if r4 is Err {
                    (s4, r4)
                } else {
                    let (s5, r5) = consume_exact_g(toks, s4, TokenType::Identifier, "Expected data name."@);
                    if r5 is Err {
                        (s5, r5)
                    } else {
                        parse_array_g(toks, s5)
                    }
                }
            }
        }
    }
}

/// A DataDecl node.
pub open spec fn parse_data_decl_g(toks: Seq<Token>, s: PState) -> (PState, Result<(), Failure>) {
    let r = data_decl_g(toks, start_g(s, SyntaxKind::DataDecl));
    (finish_g(r.0), r.1)
}

/// Label: an optional `pub`, a name and a colon.
pub open spec fn label_g(toks: Seq<Token>, s: PState) -> (PState, Result<(), Failure>) {
    let (s1, r1) = optional_g(toks, s, TokenType::Pub);
    if r1 is Err {
        (s1, r1)
    } else {
        let (s2, r2) = consume_exact_g(toks, s1, TokenType::Identifier, "Expected label name."@);
        if r2 is Err {
            (s2, r2)
        } else {
            consume_exact_g(toks, s2, TokenType::Colon, "Expected ':'"@)
        }
    }
}

/// A Label node.
pub open spec fn parse_label_g(toks: Seq<Token>, s: PState) -> (PState, Result<(), Failure>) {
    let r = label_g(toks, start_g(s, SyntaxKind::Label));
    (finish_g(r.0), r.1)
}

/// Operand: an identifier or a literal in an Operand node; the end of the
/// operands where the next token opens neither.
pub open spec fn operand_g(toks: Seq<Token>, s: PState) -> (PState, Result<SequenceResult, Failure>) {
    match peek_spec(toks, s.pos) {
        Err(_) => (s, Ok(SequenceResult::GracefulEnd)),
        Ok(t) => if operand_start(Ok(t)) {
            let r = if t == TokenType::Identifier {
                consume_g(toks, start_g(s, SyntaxKind::Operand))
            } else {
                parse_literal_g(toks, start_g(s, SyntaxKind::Operand))
            };
            (finish_g(r.0), match r.1 {
                Err(e) => Err(e),
                Ok(_) => Ok(SequenceResult::GoAgain),
            })
        } else {
            (s, Ok(SequenceResult::GracefulEnd))
        },
    }
}

/// The operands of an instruction.
pub open spec fn operands_g(toks: Seq<Token>, s: PState) -> (PState, Result<(), Failure>)
    decreases toks.len() - s.pos,
{
    let (s1, r) = operand_g(toks, s);
    match r {
        Err(e) => (s1, Err(e)),
        Ok(SequenceResult::GracefulEnd) => (s1, Ok(())),
        Ok(SequenceResult::GoAgain) => if s.pos < s1.pos <= toks.len() {
            operands_g(toks, s1)
        } else {
            (s1, Ok(()))
        },
    }
}

/// Instruction: an opcode and its operands.
pub open spec fn instruction_g(toks: Seq<Token>, s: PState) -> (PState, Result<(), Failure>) {
    let (s1, r1) = consume_exact_g(toks, s, TokenType::Identifier, "Expected opcode."@);
    if r1 is Err {
        (s1, r1)
    } else {
        operands_g(toks, s1)
    }
}

/// An Instruction node.
pub open spec fn parse_instruction_g(toks: Seq<Token>, s: PState) -> (PState, Result<(), Failure>) {
    let r = instruction_g(toks, start_g(s, SyntaxKind::Instruction));
    (finish_g(r.0), r.1)
}

/// Everything up to and including the next newline.
pub open spec fn till_nl_g(toks: Seq<Token>, s: PState) -> (PState, Result<(), Failure>)
    decreases toks.len() - s.pos,
{
    let (s1, r) = try_consume_exact_g(toks, s, TokenType::Newline);
    match r {
        Ok(_) => (s1, Ok(())),
        Err(Failure::Eof) => (s1, Err(Failure::Eof)),
        Err(Failure::WrongToken) => {
            let (s2, r2) = consume_g(toks, s1);
            if r2 is Err {
                (s2, r2)
            } else if s.pos < s2.pos <= toks.len() {
                till_nl_g(toks, s2)
            } else {
                (s2, Ok(()))
            }
        },
    }
}

/// What a line holds before its end, by its first token.
pub open spec fn line_head_g(toks: Seq<Token>, s: PState, first: TokenType) -> (PState, Result<(), Failure>) {
    if first == TokenType::Pub {
        match second_spec(toks, s.pos) {
            Err(e) => (s, Err(e)),
            Ok(second) => if second == TokenType::Const {
                parse_const_decl_g(toks, s)
            } else if second == TokenType::Static {
                parse_data_decl_g(toks, s)
            } else if second == TokenType::Identifier {
                parse_label_g(toks, s)
            } else {
                (
                    error_consume_g(
                        toks,
                        s,
                        "The 'pub' qualifier can only be applied to const declarations, data declarations, and labels."@,
                    ),
                    Err(Failure::WrongToken),
                )
            },
        }
    } else if first == TokenType::Const {
        parse_const_decl_g(toks, s)
    } else if first == TokenType::Static {
        parse_data_decl_g(toks, s)
    } else if first == TokenType::Identifier {
        if second_spec(toks, s.pos) == Ok::<TokenType, Failure>(TokenType::Colon) {
            parse_label_g(toks, s)
        } else {
            parse_instruction_g(toks, s)
        }
    } else if first == TokenType::Comment {
        consume_g(toks, s)
    } else if first == TokenType::Newline {
        (s, Ok(()))
    } else {
        (
            error_consume_g(
                toks,
                s,
                "Unexpected token at start of line: expected const declaration, data declaration, label, instruction, or comment."@,
            ),
            Err(Failure::WrongToken),
        )
    }
}

/// `r` as the result of a line that goes on.
pub open spec fn go_again(r: (PState, Result<(), Failure>)) -> (PState, Result<SequenceResult, Failure>) {
    (r.0, match r.1 {
        Err(e) => Err(e),
        Ok(_) => Ok(SequenceResult::GoAgain),
    })
}

/// The end of a line: a comment and the newline after it, or a newline; else
/// an error and the rest of the line; or the end of the input.
pub open spec fn line_end_g(toks: Seq<Token>, s: PState) -> (PState, Result<SequenceResult, Failure>) {
    match peek_spec(toks, s.pos) {
        Err(_) => (s, Ok(SequenceResult::GracefulEnd)),
        Ok(n) => if n == TokenType::Comment {
            let (s1, r1) = consume_g(toks, s);
            match r1 {
                Err(e) => (s1, Err(e)),
                Ok(_) => (try_consume_exact_g(toks, s1, TokenType::Newline).0, Ok(SequenceResult::GoAgain)),
            }
        } else if n == TokenType::Newline {
            go_again(consume_g(toks, s))
        } else {
            go_again(till_nl_g(toks, error_consume_g(toks, s, "Unexpected token after end of line; expected newline."@)))
        },
    }
}

/// A line's contents, after its first token `first`: an error skips the rest
/// of the line.
pub open spec fn line_body_g(toks: Seq<Token>, s: PState, first: TokenType) -> (PState, Result<SequenceResult, Failure>) {
    let (s1, r) = line_head_g(toks, s, first);
    match r {
        Ok(_) => line_end_g(toks, s1),
        Err(Failure::WrongToken) => go_again(till_nl_g(toks, s1)),
        Err(Failure::Eof) => (s1, Err(Failure::Eof)),
    }
}

/// A Line node, or the graceful end where only white space is left.
pub open spec fn line_g(toks: Seq<Token>, s: PState) -> (PState, Result<SequenceResult, Failure>) {
    match peek_spec(toks, s.pos) {
        Err(_) => (s, Ok(SequenceResult::GracefulEnd)),
        Ok(first) => {
            let r = line_body_g(toks, start_g(s, SyntaxKind::Line), first);
            (finish_g(r.0), r.1)
        },
    }
}

/// The lines from where `s` stands; an unexpected end of the input is an
/// error.
pub open spec fn lines_g(toks: Seq<Token>, s: PState) -> PState
    decreases toks.len() - s.pos,
{
    let (s1, r) = line_g(toks, s);
    match r {
        Ok(SequenceResult::GoAgain) => if s.pos < s1.pos <= toks.len() {
            lines_g(toks, s1)
        } else {
            s1
        },
        Ok(SequenceResult::GracefulEnd) => s1,
        Err(_) => error_consume_g(toks, s1, "Unexpected EOF"@),
    }
}

/// The tokens left, taken into the tree.
pub open spec fn rest_g(toks: Seq<Token>, s: PState) -> PState
    decreases toks.len() - s.pos,
{
    if 0 <= s.pos < toks.len() {
        rest_g(toks, eat_g(toks, s))
    } else {
        s
    }
}

/// The parse of a program's tokens: a Program node holding its lines, then
/// any white space left; the events of its tree and its errors.
pub open spec fn program_g(toks: Seq<Token>) -> PState {
    let s0 = PState { pos: 0, events: seq![Event::Start(SyntaxKind::Program)], errors: Seq::empty(), last: Span { start: 0, end: 0 } };
    finish_g(rest_g(toks, lines_g(toks, s0)))
}

/// The tokens of a source: those of its lexing, which is unique.
pub open spec fn tokens_of(src: Seq<u8>) -> Seq<Token> {
    choose|t: Seq<Token>| lexed(src, t)
}

/// The events of the syntax tree that parsing a source builds.
pub open spec fn parse_events(src: Seq<u8>) -> Seq<Event> {
    program_g(tokens_of(src)).events
}

/// The errors that parsing a source reports, in order.
pub open spec fn parse_errors(src: Seq<u8>) -> Seq<ErrView> {
    program_g(tokens_of(src)).errors
}

/// What the next token (past white space) is.
pub open spec fn peek_spec(toks: Seq<Token>, pos: int) -> Result<TokenType, Failure> {
    match first_non_ws(toks, pos) {
        Some(j) => Ok(toks[j].tt),
        None => Err(Failure::Eof),
    }
}

/// What the token after the next is (past white space).
pub open spec fn second_spec(toks: Seq<Token>, pos: int) -> Result<TokenType, Failure> {
    match first_non_ws(toks, pos) {
        Some(j) => match first_non_ws(toks, j + 1) {
            Some(k) => Ok(toks[k].tt),
            None => Err(Failure::Eof),
        },
        None => Err(Failure::Eof),
    }
}

/// A parser over the tokens of a source text.
pub struct Parser {
    source: Vec<u8>,
    tokens: Vec<Token>,
    pos: usize,
    events: Vec<Event>,
    close: Vec<usize>,
    lo: Vec<usize>,
    hi: Vec<usize>,
    stack: Vec<usize>,
    last_span: Span,
    errors: Vec<SaltError>,
}

impl Parser {
    /// The parser's invariant: the tokens cover the source, the token events
    /// are the tokens consumed so far, in order, and the bookkeeping is kept.
    pub closed spec fn inv(&self) -> bool {
        &&& tokens_cover(self.source@, self.tokens@)
        &&& self.pos <= self.tokens@.len()
        &&& token_seq(self.events@) == first_indices(self.pos as nat)
        &&& self.close@.len() == self.events@.len()
        &&& self.lo@.len() == self.events@.len()
        &&& self.hi@.len() == self.events@.len()
        &&& forall|i: int| 0 <= i < self.events@.len() ==> #[trigger] self.lo@[i] <= self.hi@[i] <= self.tokens@.len()
        &&& forall|k: int| 0 <= k < self.stack@.len() ==> #[trigger] self.stack@[k] < self.events@.len()
    }

    /// Where parsing stands, and what it has built.
    pub closed spec fn pstate(&self) -> PState {
        PState { pos: self.pos as int, events: self.events@, errors: err_views(self.errors@), last: self.last_span }
    }

    /// The tokens being parsed.
    pub closed spec fn tokens_view(&self) -> Seq<Token> {
        self.tokens@
    }

    /// The source being parsed.
    pub closed spec fn source_view(&self) -> Seq<u8> {
        self.source@
    }

    /// How many tokens have been consumed.
    pub closed spec fn pos_view(&self) -> int {
        self.pos as int
    }

    /// A step of parsing from `a` to `b`: the invariant is kept, the tokens
    /// and open nodes are as they were, and no consumed token is taken back.
    pub closed spec fn step(a: &Self, b: &Self) -> bool {
        &&& b.inv()
        &&& b.tokens@ == a.tokens@
        &&& b.source@ == a.source@
        &&& b.stack@ == a.stack@
        &&& a.pos <= b.pos
        &&& a.events@.len() <= b.events@.len()
        &&& forall|i: int| 0 <= i < a.events@.len() ==> #[trigger] b.events@[i] == a.events@[i]
    }

    /// A parser that has not started: nothing consumed, no node open, no
    /// errors.
    pub closed spec fn fresh(&self) -> bool {
        &&& self.inv()
        &&& self.pos == 0
        &&& self.stack@.len() == 0
        &&& self.events@.len() == 0
        &&& self.errors@.len() == 0
        &&& self.last_span == Span { start: 0, end: 0 }
        &&& lexed(self.source@, self.tokens@)
    }

    /// A parser over the tokens of the lexer's source.
    pub fn new(tokens: Lexer) -> (r: Self)
        ensures
            r.fresh(),
            r.source_view() == tokens.source_view(),
    {
        let source = tokens.into_source();
        let toks = lex(&source);
        let r = Parser {
            source,
            tokens: toks,
            pos: 0,
            events: Vec::new(),
            close: Vec::new(),
            lo: Vec::new(),
            hi: Vec::new(),
            stack: Vec::new(),
            last_span: Span { start: 0, end: 0 },
            errors: Vec::new(),
        };
        assert(token_seq(r.events@) =~= first_indices(0));
        r
    }

    /// Parse the whole source: the tree, where there were no errors, or the
    /// errors. The tree holds the source losslessly.
    pub fn run(self) -> (r: Result<SyntaxTree, Vec<SaltError>>)
        requires
            self.fresh(),
        ensures
            r matches Ok(t) ==> lossless(&t) && well_kept(&t) && t.source@ == self.source_view()
                && tree_text(&t) == self.source_view() && t.events@.len() > 0 && t.events@[0]
                == Event::Start(SyntaxKind::Program),
            r matches Err(errs) ==> errs@.len() > 0,
            r is Ok <==> parse_errors(self.source_view()).len() == 0,
            r matches Ok(t) ==> t.events@ == parse_events(self.source_view()),
            r matches Err(errs) ==> err_views(errs@) == parse_errors(self.source_view()),
    {
        let (tree, errors) = self.parse();
        if errors.len() == 0 {
            Ok(tree)
        } else {
            Err(errors)
        }
    }

    /// Parse the whole source: the tree, which holds the source losslessly
    /// whether or not there were errors, and the errors.
    pub fn parse(self) -> (r: (SyntaxTree, Vec<SaltError>))
        requires
            self.fresh(),
        ensures
            lossless(&r.0),
            well_kept(&r.0),
            r.0.source@ == self.source_view(),
            tree_text(&r.0) == self.source_view(),
            r.0.events@.len() > 0,
            r.0.events@[0] == Event::Start(SyntaxKind::Program),
            r.0.events@ == parse_events(self.source_view()),
            err_views(r.1@) == parse_errors(self.source_view()),
    {
        let mut p = self;
        let ghost src = p.source@;
        p.parse_program();
        proof {
            assert(lexed(src, p.tokens@));
            lemma_lexing_unique(src, p.tokens@, tokens_of(src));
        }
        let mut float_bits: Vec<Option<u32>> = Vec::new();
        while float_bits.len() < p.tokens.len()
            invariant
                float_bits@.len() <= p.tokens@.len(),
            decreases p.tokens@.len() - float_bits@.len(),
        {
            float_bits.push(None);
        }
        let tree = SyntaxTree {
            source: p.source,
            tokens: p.tokens,
            events: p.events,
            close: p.close,
            lo: p.lo,
            hi: p.hi,
            float_bits,
        };
        proof {
            crate::salt::syntax::lemma_lossless_text(&tree);
        }
        (tree, p.errors)
    }

    /// Start a node of the given kind.
    fn start_node(&mut self, kind: SyntaxKind)
        requires
            old(self).inv(),
        ensures
            final(self).inv(),
            final(self).tokens@ == old(self).tokens@,
            final(self).source@ == old(self).source@,
            final(self).pos == old(self).pos,
            final(self).stack@ == old(self).stack@.push(old(self).events@.len() as usize),
            final(self).errors@ == old(self).errors@,
            final(self).events@ == old(self).events@.push(Event::Start(kind)),
            final(self).events@.len() == old(self).events@.len() + 1,
            final(self).pstate() == start_g(old(self).pstate(), kind),
    {
        let i = self.events.len();
        self.events.push(Event::Start(kind));
        self.close.push(i);
        self.lo.push(self.pos);
        self.hi.push(self.pos);
        self.stack.push(i);
        assert(self.events@.drop_last() =~= old(self).events@);
        assert(token_seq(self.events@) =~= token_seq(old(self).events@));
    }

    /// Finish the innermost open node.
    fn finish_node(&mut self)
        requires
            old(self).inv(),
            old(self).stack@.len() > 0,
        ensures
            final(self).inv(),
            final(self).tokens@ == old(self).tokens@,
            final(self).source@ == old(self).source@,
            final(self).pos == old(self).pos,
            final(self).stack@ == old(self).stack@.drop_last(),
            final(self).errors@ == old(self).errors@,
            final(self).events@ == old(self).events@.push(Event::Finish),
            final(self).pstate() == finish_g(old(self).pstate()),
    {
        let s = self.stack.pop().unwrap();
        let f = self.events.len();
        self.events.push(Event::Finish);
        self.close.push(f);
        self.lo.push(self.pos);
        self.hi.push(self.pos);
        let ghost before = self.close@;
        self.close.set(s, f);
        let lo_s = self.lo[s];
        if lo_s <= self.pos {
            self.hi.set(s, self.pos);
        }
        assert(self.events@.drop_last() =~= old(self).events@);
        assert(token_seq(self.events@) =~= token_seq(old(self).events@));
        assert forall|k: int| 0 <= k < self.stack@.len() implies #[trigger] self.stack@[k] < self.events@.len() by {
            assert(self.stack@[k] == old(self).stack@[k]);
        }
    }

    /// Add the token at the current position to the tree.
    fn eat(&mut self)
        requires
            old(self).inv(),
            old(self).pos < old(self).tokens@.len(),
        ensures
            final(self).inv(),
            final(self).tokens@ == old(self).tokens@,
            final(self).source@ == old(self).source@,
            final(self).pos == old(self).pos + 1,
            final(self).stack@ == old(self).stack@,
            final(self).errors@ == old(self).errors@,
            final(self).events@ == old(self).events@.push(Event::Token(old(self).pos)),
            final(self).pstate() == eat_g(old(self).tokens@, old(self).pstate()),
    {
        let n = self.tokens.len();
        let i = self.events.len();
        let t = self.tokens[self.pos];
        self.events.push(Event::Token(self.pos));
        self.close.push(i);
        self.lo.push(self.pos);
        self.hi.push(self.pos);
        self.last_span = Span { start: t.start, end: t.end };
        self.pos = self.pos + 1;
        assert(self.events@.drop_last() =~= old(self).events@);
        assert(token_seq(self.events@) =~= first_indices(self.pos as nat));
    }

    /// The type of the next token that is not white space.
    fn peek(&self) -> (r: Result<TokenType, Failure>)
        requires
            self.inv(),
        ensures
            r == peek_spec(self.tokens@, self.pos as int),
    {
        let mut i = self.pos;
        while i < self.tokens.len()
            invariant
                self.pos <= i <= self.tokens@.len(),
                first_non_ws(self.tokens@, self.pos as int) == first_non_ws(self.tokens@, i as int),
            decreases self.tokens@.len() - i,
        {
            if self.tokens[i].tt != TokenType::Whitespace {
                return Ok(self.tokens[i].tt);
            }
            i = i + 1;
        }
        Err(Failure::Eof)
    }

    /// The type of the token after the next, skipping white space.
    fn double_lookahead(&self) -> (r: Result<TokenType, Failure>)
        requires
            self.inv(),
        ensures
            r == second_spec(self.tokens@, self.pos as int),
    {
        let mut i = self.pos;
        let mut seen: usize = 0;
        let ghost first: Option<int> = first_non_ws(self.tokens@, self.pos as int);
        while i < self.tokens.len()
            invariant
                self.pos <= i <= self.tokens@.len(),
                seen <= 1,
                first == first_non_ws(self.tokens@, self.pos as int),
                seen == 0 ==> first == first_non_ws(self.tokens@, i as int),
                seen == 1 ==> (first matches Some(j) && j < i && first_non_ws(self.tokens@, j + 1)
                    == first_non_ws(self.tokens@, i as int)),
            decreases self.tokens@.len() - i,
        {
            if self.tokens[i].tt != TokenType::Whitespace {
                if seen == 1 {
                    return Ok(self.tokens[i].tt);
                }
                seen = 1;
            }
            i = i + 1;
        }
        Err(Failure::Eof)
    }

    /// Consume the next token that is not white space and the white space
    /// before it; at the end of the input, consume the white space left.
    fn consume(&mut self) -> (r: Result<(), Failure>)
        requires
            old(self).inv(),
        ensures
            Self::step(old(self), final(self)),
            final(self).errors@ == old(self).errors@,
            match first_non_ws(old(self).tokens@, old(self).pos as int) {
                Some(j) => r == Ok::<(), Failure>(()) && final(self).pos == j + 1,
                None => r == Err::<(), Failure>(Failure::Eof) && final(self).pos == old(self).tokens@.len(),
            },
            (final(self).pstate(), r) == consume_g(old(self).tokens@, old(self).pstate()),
    {
        proof {
            lemma_first_non_ws(self.tokens@, self.pos as int);
        }
        while self.pos < self.tokens.len()
            invariant
                Self::step(old(self), self),
                self.errors@ == old(self).errors@,
                first_non_ws(old(self).tokens@, old(self).pos as int) == first_non_ws(self.tokens@, self.pos as int),
                consume_g(old(self).tokens@, old(self).pstate()) == consume_g(self.tokens@, self.pstate()),
            decreases self.tokens@.len() - self.pos,
        {
            let tt = self.tokens[self.pos].tt;
            self.eat();
            if tt != TokenType::Whitespace {
                return Ok(());
            }
        }
        Err(Failure::Eof)
    }

    /// Consume the next token if it is of the given type.
    fn try_consume_exact(&mut self, target: TokenType) -> (r: Result<(), Failure>)
        requires
            old(self).inv(),
        ensures
            Self::step(old(self), final(self)),
            final(self).errors@ == old(self).errors@,
            r is Ok ==> final(self).pos > old(self).pos,
            r is Ok ==> (first_non_ws(old(self).tokens@, old(self).pos as int) matches Some(j) && final(self).pos == j + 1
                && old(self).tokens@[j].tt == target),
            r == Err::<(), Failure>(Failure::Eof) ==> first_non_ws(old(self).tokens@, old(self).pos as int) is None
                && final(self).pos == old(self).pos,
            r == Err::<(), Failure>(Failure::WrongToken) ==> final(self).pos == old(self).pos
                && (first_non_ws(old(self).tokens@, old(self).pos as int) matches Some(j) && old(self).tokens@[j].tt
                != target),
            (final(self).pstate(), r) == try_consume_exact_g(old(self).tokens@, old(self).pstate(), target),
    {
        proof {
            lemma_first_non_ws(self.tokens@, self.pos as int);
        }
        if self.peek()? == target {
            self.consume()?;
            Ok(())
        } else {
            Err(Failure::WrongToken)
        }
    }

    /// Consume the next token, recording an error about it.
    fn error_consume(&mut self, message: &str)
        requires
            old(self).inv(),
        ensures
            Self::step(old(self), final(self)),
            final(self).errors@.len() == old(self).errors@.len() + 1,
            first_non_ws(old(self).tokens@, old(self).pos as int) is Some ==> final(self).pos > old(self).pos,
            final(self).pstate() == error_consume_g(old(self).tokens@, old(self).pstate(), message@),
    {
        proof {
            lemma_first_non_ws(self.tokens@, self.pos as int);
        }
        let _ = self.consume();
        let ghost mid = *self;
        assert(Self::step(old(self), &mid));
        let e = SaltError::new(self.last_span, message);
        let ghost ev = e@;
        let ghost before = self.errors@;
        self.errors.push(e);
        assert(err_views(self.errors@) =~= err_views(before).push(ev));
        assert(self.inv() == mid.inv());
    }

    /// Consume the next token if it is of the given type; otherwise consume
    /// it with an error.
    fn consume_exact(&mut self, target: TokenType, message: &str) -> (r: Result<(), Failure>)
        requires
            old(self).inv(),
        ensures
            Self::step(old(self), final(self)),
            r != Err::<(), Failure>(Failure::Eof) ==> final(self).pos > old(self).pos,
            r is Ok ==> final(self).errors@.len() == old(self).errors@.len(),
            final(self).errors@.len() >= old(self).errors@.len(),
            r == Err::<(), Failure>(Failure::WrongToken) ==> final(self).errors@.len() > old(self).errors@.len(),
            (final(self).pstate(), r) == consume_exact_g(old(self).tokens@, old(self).pstate(), target, message@),
    {
        proof {
            lemma_first_non_ws(self.tokens@, self.pos as int);
        }
        if self.peek()? == target {
            self.consume()?;
            Ok(())
        } else {
            self.error_consume(message);
            Err(Failure::WrongToken)
        }
    }

    /// Consume everything up to and including a newline.
    fn consume_till_nl(&mut self) -> (r: Result<(), Failure>)
        requires
            old(self).inv(),
        ensures
            Self::step(old(self), final(self)),
            r != Err::<(), Failure>(Failure::WrongToken),
            final(self).errors@ == old(self).errors@,
            r is Ok ==> old(self).pos < final(self).pos && final(self).tokens@[final(self).pos - 1].tt
                == TokenType::Newline && no_newline(old(self).tokens@, old(self).pos as int, final(self).pos - 1),
            r is Err ==> first_non_ws(final(self).tokens@, final(self).pos as int) is None && no_newline(
                old(self).tokens@,
                old(self).pos as int,
                old(self).tokens@.len() as int,
            ),
            (final(self).pstate(), r) == till_nl_g(old(self).tokens@, old(self).pstate()),
    {
        loop
            invariant
                Self::step(old(self), self),
                self.errors@ == old(self).errors@,
                no_newline(self.tokens@, old(self).pos as int, self.pos as int),
                till_nl_g(old(self).tokens@, old(self).pstate()) == till_nl_g(self.tokens@, self.pstate()),
            decreases self.tokens@.len() - self.pos,
        {
            let ghost before = self.pos;
            proof {
                lemma_first_non_ws(self.tokens@, before as int);
                lemma_ws_before(self.tokens@, before as int);
            }
            match self.try_consume_exact(TokenType::Newline) {
                Ok(()) => {
                    assert(no_newline(self.tokens@, old(self).pos as int, self.pos - 1));
                    return Ok(());
                },
                Err(Failure::WrongToken) => {
                    self.consume()?;
                    assert(no_newline(self.tokens@, old(self).pos as int, self.pos as int));
                },
                Err(Failure::Eof) => {
                    assert(no_newline(self.tokens@, old(self).pos as int, self.tokens@.len() as int));
                    return Err(Failure::Eof);
                },
            }
        }
    }

    /// ConstDecl: an optional `pub`, `const`, a name and a literal.
    fn parse_const_decl(&mut self) -> (r: Result<(), Failure>)
        requires
            old(self).inv(),
        ensures
            Self::step(old(self), final(self)),
            r != Err::<(), Failure>(Failure::Eof) ==> final(self).pos > old(self).pos,
            (final(self).pstate(), r) == parse_const_decl_g(old(self).tokens@, old(self).pstate()),
    {
        self.start_node(SyntaxKind::ConstDecl);
        let r = self.const_decl_body();
        self.finish_node();
        assert(self.stack@ =~= old(self).stack@);
        r
    }

    fn const_decl_body(&mut self) -> (r: Result<(), Failure>)
        requires
            old(self).inv(),
        ensures
            Self::step(old(self), final(self)),
            r != Err::<(), Failure>(Failure::Eof) ==> final(self).pos > old(self).pos,
            (final(self).pstate(), r) == const_decl_g(old(self).tokens@, old(self).pstate()),
    {
        if self.peek()? == TokenType::Pub {
            self.consume()?;
        }
        self.consume_exact(TokenType::Const, "Expected const keyword.")?;
        self.consume_exact(TokenType::Identifier, "Expected constant name.")?;
        self.parse_literal()?;
        Ok(())
    }

    /// DataDecl: an optional `pub`, `static`, an optional `mut`, a data type, a
    /// name and an array literal.
    fn parse_data_decl(&mut self) -> (r: Result<(), Failure>)
        requires
            old(self).inv(),
        ensures
            Self::step(old(self), final(self)),
            r != Err::<(), Failure>(Failure::Eof) ==> final(self).pos > old(self).pos,
            (final(self).pstate(), r) == parse_data_decl_g(old(self).tokens@, old(self).pstate()),
    {
        self.start_node(SyntaxKind::DataDecl);
        let r = self.data_decl_body();
        self.finish_node();
        assert(self.stack@ =~= old(self).stack@);
        r
    }

    fn data_decl_body(&mut self) -> (r: Result<(), Failure>)
        requires
            old(self).inv(),
        ensures
            Self::step(old(self), final(self)),
            r != Err::<(), Failure>(Failure::Eof) ==> final(self).pos > old(self).pos,
            (final(self).pstate(), r) == data_decl_g(old(self).tokens@, old(self).pstate()),
    {
        if self.peek()? == TokenType::Pub {
            self.consume()?;
        }
        self.consume_exact(TokenType::Static, "Expected static keyword.")?;
        if self.peek()? == TokenType::Mut {
            self.consume()?;
        }
        self.parse_data_type()?;
        self.consume_exact(TokenType::Identifier, "Expected data name.")?;
        self.parse_array_literal()?;
        Ok(())
    }

    /// DataType: `byte`, `half` or `word`, then any number of array lengths in
    /// square brackets, each an integer literal or `..`.
    fn parse_data_type(&mut self) -> (r: Result<(), Failure>)
        requires
            old(self).inv(),
        ensures
            Self::step(old(self), final(self)),
            r != Err::<(), Failure>(Failure::Eof) ==> final(self).pos > old(self).pos,
            (final(self).pstate(), r) == parse_data_type_g(old(self).tokens@, old(self).pstate()),
    {
        self.start_node(SyntaxKind::DataType);
        let r = self.data_type_body();
        self.finish_node();
        assert(self.stack@ =~= old(self).stack@);
        r
    }

    fn data_type_body(&mut self) -> (r: Result<(), Failure>)
        requires
            old(self).inv(),
        ensures
            Self::step(old(self), final(self)),
            r != Err::<(), Failure>(Failure::Eof) ==> final(self).pos > old(self).pos,
            (final(self).pstate(), r) == data_type_g(old(self).tokens@, old(self).pstate()),
    {
        proof {
            lemma_first_non_ws(self.tokens@, self.pos as int);
        }
        let t = self.peek()?;
        if t == TokenType::Byte || t == TokenType::Half || t == TokenType::Word {
            self.consume()?;
        } else {
            self.error_consume("Expected data type.");
            return Err(Failure::WrongToken);
        }
        let ghost start = old(self).pos;
        while self.peek()? == TokenType::OpenSquare
            invariant
                Self::step(old(self), self),
                self.pos > start,
                start == old(self).pos,
                data_type_g(old(self).tokens@, old(self).pstate()) == dims_g(self.tokens@, self.pstate()),
            decreases self.tokens@.len() - self.pos,
        {
            proof {
                lemma_first_non_ws(self.tokens@, self.pos as int);
            }
            self.consume()?;
            proof {
                lemma_first_non_ws(self.tokens@, self.pos as int);
            }
            let t = self.peek()?;
            if t == TokenType::IntLiteral || t == TokenType::DoubleDot {
                self.consume()?;
            } else {
                self.error_consume("Expected array length.");
                return Err(Failure::WrongToken);
            }
            self.consume_exact(TokenType::CloseSquare, "Expected ']'.")?;
        }
        Ok(())
    }

    /// Label: an optional `pub`, a name and a colon.
    fn parse_label(&mut self) -> (r: Result<(), Failure>)
        requires
            old(self).inv(),
        ensures
            Self::step(old(self), final(self)),
            r != Err::<(), Failure>(Failure::Eof) ==> final(self).pos > old(self).pos,
            (final(self).pstate(), r) == parse_label_g(old(self).tokens@, old(self).pstate()),
    {
        self.start_node(SyntaxKind::Label);
        let r = self.label_body();
        self.finish_node();
        assert(self.stack@ =~= old(self).stack@);
        r
    }

    fn label_body(&mut self) -> (r: Result<(), Failure>)
        requires
            old(self).inv(),
        ensures
            Self::step(old(self), final(self)),
            r != Err::<(), Failure>(Failure::Eof) ==> final(self).pos > old(self).pos,
            (final(self).pstate(), r) == label_g(old(self).tokens@, old(self).pstate()),
    {
        if self.peek()? == TokenType::Pub {
            self.consume()?;
        }
        self.consume_exact(TokenType::Identifier, "Expected label name.")?;
        self.consume_exact(TokenType::Colon, "Expected ':'")?;
        Ok(())
    }

    /// Instruction: an opcode and any number of operands.
    fn parse_instruction(&mut self) -> (r: Result<(), Failure>)
        requires
            old(self).inv(),
        ensures
            Self::step(old(self), final(self)),
            r != Err::<(), Failure>(Failure::Eof) ==> final(self).pos > old(self).pos,
            (final(self).pstate(), r) == parse_instruction_g(old(self).tokens@, old(self).pstate()),
    {
        self.start_node(SyntaxKind::Instruction);
        let r = self.instruction_body();
        self.finish_node();
        assert(self.stack@ =~= old(self).stack@);
        r
    }

    fn instruction_body(&mut self) -> (r: Result<(), Failure>)
        requires
            old(self).inv(),
        ensures
            Self::step(old(self), final(self)),
            r != Err::<(), Failure>(Failure::Eof) ==> final(self).pos > old(self).pos,
            (final(self).pstate(), r) == instruction_g(old(self).tokens@, old(self).pstate()),
    {
        self.consume_exact(TokenType::Identifier, "Expected opcode.")?;
        let ghost start = old(self).pos;
        loop
            invariant_except_break
                instruction_g(old(self).tokens@, old(self).pstate()) == operands_g(self.tokens@, self.pstate()),
            invariant
                Self::step(old(self), self),
                self.pos > start,
                start == old(self).pos,
            ensures
                instruction_g(old(self).tokens@, old(self).pstate()) == (self.pstate(), Ok::<(), Failure>(())),
            decreases self.tokens@.len() - self.pos,
        {
            if let SequenceResult::GracefulEnd = self.parse_operand()? {
                break;
            }
        }
        Ok(())
    }

    /// Operand: an identifier or a literal; the end of the operands where
    /// the next token is neither.
    fn parse_operand(&mut self) -> (r: Result<SequenceResult, Failure>)
        requires
            old(self).inv(),
        ensures
            Self::step(old(self), final(self)),
            r == Ok::<SequenceResult, Failure>(SequenceResult::GoAgain) ==> final(self).pos > old(self).pos,
            !operand_start(peek_spec(old(self).tokens@, old(self).pos as int)) ==> r == Ok::<
                SequenceResult,
                Failure,
            >(SequenceResult::GracefulEnd) && final(self).pos == old(self).pos && final(self).events@
                == old(self).events@ && final(self).errors@ == old(self).errors@,
            operand_start(peek_spec(old(self).tokens@, old(self).pos as int)) ==> r != Ok::<
                SequenceResult,
                Failure,
            >(SequenceResult::GracefulEnd) && final(self).pos > old(self).pos && final(self).events@.len()
                > old(self).events@.len() && final(self).events@[old(self).events@.len() as int] == Event::Start(
                SyntaxKind::Operand,
            ),
            peek_spec(old(self).tokens@, old(self).pos as int) matches Ok(t) && (t == TokenType::Identifier
                || simple_literal(t)) ==> r == Ok::<SequenceResult, Failure>(SequenceResult::GoAgain)
                && final(self).errors@ == old(self).errors@,
            (final(self).pstate(), r) == operand_g(old(self).tokens@, old(self).pstate()),
    {
        proof {
            lemma_first_non_ws(self.tokens@, self.pos as int);
        }
        let tt = self.peek();
        match tt {
            Ok(t) => {
                if t == TokenType::Identifier || t == TokenType::IntLiteral || t
                    == TokenType::FloatLiteral || t == TokenType::CharLiteral || t == TokenType::Sizeof {
                    self.start_node(SyntaxKind::Operand);
                    let r = if t == TokenType::Identifier {
                        self.consume()
                    } else {
                        self.parse_literal()
                    };
                    self.finish_node();
                    assert(self.stack@ =~= old(self).stack@);
                    r?;
                    Ok(SequenceResult::GoAgain)
                } else {
                    Ok(SequenceResult::GracefulEnd)
                }
            },
            Err(_) => Ok(SequenceResult::GracefulEnd),
        }
    }

    /// ArrayLiteral: a literal, a string literal, or square brackets around
    /// array literals separated by commas.
    fn parse_array_literal(&mut self) -> (r: Result<(), Failure>)
        requires
            old(self).inv(),
        ensures
            Self::step(old(self), final(self)),
            r != Err::<(), Failure>(Failure::Eof) ==> final(self).pos > old(self).pos,
            (final(self).pstate(), r) == parse_array_g(old(self).tokens@, old(self).pstate()),
        decreases old(self).tokens@.len() - old(self).pos, 1nat,
    {
        self.start_node(SyntaxKind::ArrayLiteral);
        let r = self.array_literal_body();
        self.finish_node();
        assert(self.stack@ =~= old(self).stack@);
        r
    }

    fn array_literal_body(&mut self) -> (r: Result<(), Failure>)
        requires
            old(self).inv(),
        ensures
            Self::step(old(self), final(self)),
            r != Err::<(), Failure>(Failure::Eof) ==> final(self).pos > old(self).pos,
            (final(self).pstate(), r) == array_g(old(self).tokens@, old(self).pstate()),
        decreases old(self).tokens@.len() - old(self).pos, 0nat,
    {
        proof {
            lemma_first_non_ws(self.tokens@, self.pos as int);
        }
        let t = self.peek()?;
        if t == TokenType::IntLiteral || t == TokenType::FloatLiteral || t == TokenType::CharLiteral
            || t == TokenType::Sizeof {
            self.parse_literal()?;
        } else if t == TokenType::StringLiteral {
            self.consume()?;
        } else if t == TokenType::OpenSquare {
            self.consume()?;
            proof {
                lemma_first_non_ws(self.tokens@, self.pos as int);
            }
            if self.peek()? != TokenType::CloseSquare {
                self.array_items()?;
            }
            self.consume()?;
        } else {
            self.error_consume("Expected literal.");
            return Err(Failure::WrongToken);
        }
        Ok(())
    }

    /// The items of a bracketed array literal, separated by commas, up to
    /// its `]`.
    fn array_items(&mut self) -> (r: Result<(), Failure>)
        requires
            old(self).inv(),
        ensures
            Self::step(old(self), final(self)),
            r != Err::<(), Failure>(Failure::Eof) ==> final(self).pos > old(self).pos,
            (final(self).pstate(), r) == items_g(old(self).tokens@, old(self).pstate()),
        decreases old(self).tokens@.len() - old(self).pos, 2nat,
    {
        let ghost start = old(self).pos;
        loop
            invariant_except_break
                items_g(old(self).tokens@, old(self).pstate()) == items_g(self.tokens@, self.pstate()),
            invariant
                Self::step(old(self), self),
                self.pos >= start,
                start == old(self).pos,
            ensures
                Self::step(old(self), self),
                self.pos > start,
                items_g(old(self).tokens@, old(self).pstate()) == (self.pstate(), Ok::<(), Failure>(())),
            decreases self.tokens@.len() - self.pos,
        {
            self.parse_array_literal()?;
            proof {
                lemma_first_non_ws(self.tokens@, self.pos as int);
            }
            let n = self.peek()?;
            if n == TokenType::Comma {
                self.consume()?;
            } else if n == TokenType::CloseSquare {
                break;
            } else {
                self.error_consume("Expected ',' or ']'");
                return Err(Failure::WrongToken);
            }
        }
        Ok(())
    }

    /// Literal: an integer, float or character literal, or `sizeof` and a
    /// name in parentheses.
    fn parse_literal(&mut self) -> (r: Result<(), Failure>)
        requires
            old(self).inv(),
        ensures
            Self::step(old(self), final(self)),
            r != Err::<(), Failure>(Failure::Eof) ==> final(self).pos > old(self).pos,
            first_non_ws(old(self).tokens@, old(self).pos as int) is Some ==> final(self).pos > old(self).pos,
            peek_spec(old(self).tokens@, old(self).pos as int) matches Ok(t) && simple_literal(t) ==> r is Ok
                && final(self).errors@ == old(self).errors@ && final(self).pos == first_non_ws(
                old(self).tokens@,
                old(self).pos as int,
            )->0 + 1,
            (final(self).pstate(), r) == parse_literal_g(old(self).tokens@, old(self).pstate()),
    {
        self.start_node(SyntaxKind::Literal);
        let r = self.literal_body();
        self.finish_node();
        assert(self.stack@ =~= old(self).stack@);
        r
    }

    fn literal_body(&mut self) -> (r: Result<(), Failure>)
        requires
            old(self).inv(),
        ensures
            Self::step(old(self), final(self)),
            r != Err::<(), Failure>(Failure::Eof) ==> final(self).pos > old(self).pos,
            first_non_ws(old(self).tokens@, old(self).pos as int) is Some ==> final(self).pos > old(self).pos,
            peek_spec(old(self).tokens@, old(self).pos as int) matches Ok(t) && simple_literal(t) ==> r is Ok
                && final(self).errors@ == old(self).errors@ && final(self).pos == first_non_ws(
                old(self).tokens@,
                old(self).pos as int,
            )->0 + 1,
            (final(self).pstate(), r) == literal_g(old(self).tokens@, old(self).pstate()),
    {
        proof {
            lemma_first_non_ws(self.tokens@, self.pos as int);
        }
        let t = self.peek()?;
        if t == TokenType::IntLiteral || t == TokenType::FloatLiteral || t == TokenType::CharLiteral {
            self.consume()?;
        } else if t == TokenType::Sizeof {
            self.consume()?;
            self.consume_exact(TokenType::OpenParen, "Expected '('.")?;
            self.consume_exact(TokenType::Identifier, "Expected data identifier.")?;
            self.consume_exact(TokenType::CloseParen, "Expected ')'.")?;
        } else {
            self.error_consume("Expected integer, float, or character literal.");
            return Err(Failure::WrongToken);
        }
        Ok(())
    }

    /// Line: a declaration, label or instruction, or a comment, or nothing,
    /// then a comment or a newline. After an error, the rest of the line is
    /// skipped.
    fn parse_line(&mut self) -> (r: Result<SequenceResult, Failure>)
        requires
            old(self).inv(),
        ensures
            Self::step(old(self), final(self)),
            r != Err::<SequenceResult, Failure>(Failure::WrongToken),
            r == Ok::<SequenceResult, Failure>(SequenceResult::GoAgain) ==> final(self).pos > old(self).pos,
            first_non_ws(old(self).tokens@, old(self).pos as int) is None ==> r == Ok::<
                SequenceResult,
                Failure,
            >(SequenceResult::GracefulEnd) && final(self).pos == old(self).pos && final(self).events@
                == old(self).events@ && final(self).errors@ == old(self).errors@,
            first_non_ws(old(self).tokens@, old(self).pos as int) is Some ==> final(self).events@.len()
                > old(self).events@.len() + 1 && final(self).events@[old(self).events@.len() as int] == Event::Start(
                SyntaxKind::Line,
            ) && final(self).events@.last() == Event::Finish,
            r == Ok::<SequenceResult, Failure>(SequenceResult::GracefulEnd) ==> first_non_ws(
                final(self).tokens@,
                final(self).pos as int,
            ) is None,
            r == Ok::<SequenceResult, Failure>(SequenceResult::GoAgain) ==> line_ended(
                final(self).tokens@,
                final(self).pos as int,
            ),
            peek_spec(old(self).tokens@, old(self).pos as int) == Ok::<TokenType, Failure>(TokenType::Newline) ==> r
                == Ok::<SequenceResult, Failure>(SequenceResult::GoAgain) && final(self).errors@ == old(self).errors@
                && final(self).pos == first_non_ws(old(self).tokens@, old(self).pos as int)->0 + 1,
            peek_spec(old(self).tokens@, old(self).pos as int) matches Ok(t) && !line_start(t)
                ==> final(self).errors@.len() > old(self).errors@.len(),
            (final(self).pstate(), r) == line_g(old(self).tokens@, old(self).pstate()),
    {
        proof {
            lemma_first_non_ws(self.tokens@, self.pos as int);
        }
        let first = match self.peek() {
            Err(_) => return Ok(SequenceResult::GracefulEnd),
            Ok(t) => t,
        };
        self.start_node(SyntaxKind::Line);
        let r = self.line_body(first);
        self.finish_node();
        assert(self.stack@ =~= old(self).stack@);
        r
    }

    fn line_body(&mut self, first: TokenType) -> (r: Result<SequenceResult, Failure>)
        requires
            old(self).inv(),
            peek_spec(old(self).tokens@, old(self).pos as int) == Ok::<TokenType, Failure>(first),
        ensures
            Self::step(old(self), final(self)),
            r != Err::<SequenceResult, Failure>(Failure::WrongToken),
            r == Ok::<SequenceResult, Failure>(SequenceResult::GoAgain) ==> final(self).pos > old(self).pos,
            r == Ok::<SequenceResult, Failure>(SequenceResult::GracefulEnd) ==> first_non_ws(
                final(self).tokens@,
                final(self).pos as int,
            ) is None,
            r == Ok::<SequenceResult, Failure>(SequenceResult::GoAgain) ==> line_ended(
                final(self).tokens@,
                final(self).pos as int,
            ),
            peek_spec(old(self).tokens@, old(self).pos as int) == Ok::<TokenType, Failure>(TokenType::Newline) ==> r
                == Ok::<SequenceResult, Failure>(SequenceResult::GoAgain) && final(self).errors@ == old(self).errors@
                && final(self).pos == first_non_ws(old(self).tokens@, old(self).pos as int)->0 + 1,
            peek_spec(old(self).tokens@, old(self).pos as int) matches Ok(t) && !line_start(t)
                ==> final(self).errors@.len() > old(self).errors@.len(),
            (final(self).pstate(), r) == line_body_g(old(self).tokens@, old(self).pstate(), first),
    {
        let line_result = self.line_head(first);
        match line_result {
            Ok(()) => {},
            Err(Failure::WrongToken) => {
                self.consume_till_nl()?;
                return Ok(SequenceResult::GoAgain);
            },
            Err(Failure::Eof) => return Err(Failure::Eof),
        }
        self.line_end()
    }

    /// What a line holds before its end, by its first token.
    fn line_head(&mut self, first: TokenType) -> (r: Result<(), Failure>)
        requires
            old(self).inv(),
            peek_spec(old(self).tokens@, old(self).pos as int) == Ok::<TokenType, Failure>(first),
        ensures
            Self::step(old(self), final(self)),
            first == TokenType::Newline ==> r is Ok && final(self).pos == old(self).pos && final(self).errors@
                == old(self).errors@,
            !line_start(first) ==> r == Err::<(), Failure>(Failure::WrongToken) && final(self).errors@.len()
                > old(self).errors@.len(),
            (final(self).pstate(), r) == line_head_g(old(self).tokens@, old(self).pstate(), first),
    {
        proof {
            lemma_first_non_ws(self.tokens@, self.pos as int);
        }
if first == TokenType::Pub {
            match self.double_lookahead() {
                Err(e) => Err(e),
                Ok(second) => {
                    if second == TokenType::Const {
                        self.parse_const_decl()
                    } else if second == TokenType::Static {
                        self.parse_data_decl()
                    } else if second == TokenType::Identifier {
                        self.parse_label()
                    } else {
                        self.error_consume(
                            "The 'pub' qualifier can only be applied to const declarations, data declarations, and labels.",
                        );
                        Err(Failure::WrongToken)
                    }
                },
            }
        } else if first == TokenType::Const {
            self.parse_const_decl()
        } else if first == TokenType::Static {
            self.parse_data_decl()
        } else if first == TokenType::Identifier {
            let second = self.double_lookahead();
            let is_label = match second {
                Ok(t) => t == TokenType::Colon,
                Err(_) => false,
            };
            if is_label {
                self.parse_label()
            } else {
                self.parse_instruction()
            }
        } else if first == TokenType::Comment {
            self.consume()
        } else if first == TokenType::Newline {
            Ok(())
        } else {
            self.error_consume(
                "Unexpected token at start of line: expected const declaration, data declaration, label, instruction, or comment.",
            );
            Err(Failure::WrongToken)
        }
    }

    /// The end of a line: a comment or a newline, or else an error and the
    /// rest of the line skipped; or the end of the input.
    fn line_end(&mut self) -> (r: Result<SequenceResult, Failure>)
        requires
            old(self).inv(),
        ensures
            Self::step(old(self), final(self)),
            r != Err::<SequenceResult, Failure>(Failure::WrongToken),
            final(self).errors@.len() >= old(self).errors@.len(),
            r == Ok::<SequenceResult, Failure>(SequenceResult::GoAgain) ==> final(self).pos > old(self).pos
                && line_ended(final(self).tokens@, final(self).pos as int),
            r == Ok::<SequenceResult, Failure>(SequenceResult::GracefulEnd) ==> first_non_ws(
                final(self).tokens@,
                final(self).pos as int,
            ) is None,
            peek_spec(old(self).tokens@, old(self).pos as int) == Ok::<TokenType, Failure>(TokenType::Newline) ==> r
                == Ok::<SequenceResult, Failure>(SequenceResult::GoAgain) && final(self).errors@ == old(self).errors@
                && final(self).pos == first_non_ws(old(self).tokens@, old(self).pos as int)->0 + 1,
            (final(self).pstate(), r) == line_end_g(old(self).tokens@, old(self).pstate()),
    {
        proof {
            lemma_first_non_ws(self.tokens@, self.pos as int);
        }
        let next = match self.peek() {
            Err(_) => return Ok(SequenceResult::GracefulEnd),
            Ok(t) => t,
        };
        if next == TokenType::Comment {
            self.consume()?;
            assert(line_ended(self.tokens@, self.pos as int));
            // A comment runs to the end of its line, so a newline or the end
            // of the input follows it.
            let ghost mid = self.pos;
            let nl = self.try_consume_exact(TokenType::Newline);
            proof {
                match nl {
                    Ok(_) => {
                        let j = first_non_ws(self.tokens@, mid as int)->0;
                        assert(self.pos == j + 1);
                        assert(self.tokens@[j].tt == TokenType::Newline);
                    },
                    Err(Failure::Eof) => {
                        assert(self.pos == mid);
                    },
                    Err(Failure::WrongToken) => {
                        assert(self.pos == mid);
                    },
                }
            }
        } else if next == TokenType::Newline {
            self.consume()?;
        } else {
            self.error_consume("Unexpected token after end of line; expected newline.");
            self.consume_till_nl()?;
            return Ok(SequenceResult::GoAgain);
        }
        Ok(SequenceResult::GoAgain)
    }

    /// Program: lines up to the end of the input, then any white space left.
    fn parse_program(&mut self)
        requires
            old(self).fresh(),
        ensures
            final(self).inv(),
            final(self).tokens@ == old(self).tokens@,
            final(self).source@ == old(self).source@,
            final(self).pos == final(self).tokens@.len(),
            final(self).events@.len() > 0,
            final(self).events@[0] == Event::Start(SyntaxKind::Program),
            final(self).pstate() == program_g(old(self).tokens@),
    {
        self.start_node(SyntaxKind::Program);
        let ghost s0 = self.pstate();
        assert(s0 == PState {
            pos: 0,
            events: seq![Event::Start(SyntaxKind::Program)],
            errors: Seq::<ErrView>::empty(),
            last: Span { start: 0, end: 0 },
        }) by {
            assert(s0.events =~= seq![Event::Start(SyntaxKind::Program)]);
            assert(s0.errors =~= Seq::<ErrView>::empty());
        }
        loop
            invariant_except_break
                lines_g(old(self).tokens@, s0) == lines_g(self.tokens@, self.pstate()),
            invariant
                self.inv(),
                self.tokens@ == old(self).tokens@,
                self.source@ == old(self).source@,
                self.stack@.len() == 1,
                self.events@.len() > 0,
                self.events@[0] == Event::Start(SyntaxKind::Program),
            ensures
                lines_g(old(self).tokens@, s0) == self.pstate(),
            decreases self.tokens@.len() - self.pos,
        {
            let ghost ev = self.events@;
            match self.parse_line() {
                Ok(SequenceResult::GoAgain) => {},
                Ok(SequenceResult::GracefulEnd) => break,
                Err(_) => {
                    self.error_consume("Unexpected EOF");
                    break;
                },
            }
        }
        let ghost after_lines = self.pstate();
        while self.pos < self.tokens.len()
            invariant
                self.inv(),
                self.tokens@ == old(self).tokens@,
                self.source@ == old(self).source@,
                self.stack@.len() == 1,
                self.events@.len() > 0,
                self.events@[0] == Event::Start(SyntaxKind::Program),
                rest_g(old(self).tokens@, after_lines) == rest_g(self.tokens@, self.pstate()),
            decreases self.tokens@.len() - self.pos,
        {
            self.eat();
        }
        self.finish_node();
        assert(self.events@[0] == Event::Start(SyntaxKind::Program));
    }
}

} // verus!
