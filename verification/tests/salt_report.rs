use simulatron::salt::ast::{ConstDecl, Program, SyntaxNode};
use simulatron::salt::lexer::Lexer;
use simulatron::salt::parser::Parser;
use simulatron::salt::report::{add_public_consts, find_context};

#[test]
fn test_find_context_highlight() {
    let src = b"foo: bar\n  baz qux\nend".to_vec();
    let c = find_context(&src, 11, 14);
    assert_eq!(c.line, 2);
    assert_eq!(c.text, b"  baz qux".to_vec());
    assert_eq!(c.highlight, b"      ^^^".to_vec());
    // Spaces at the edges of a span are not highlighted.
    let c = find_context(&src, 10, 15);
    assert_eq!(c.highlight, b"      ^^^".to_vec());
}

#[test]
fn test_find_context_empty_span() {
    let src = b"foo: bar\n  baz qux\nend".to_vec();
    let c = find_context(&src, 0, 0);
    assert_eq!(c.line, 1);
    assert_eq!(c.text, b"foo: bar".to_vec());
    assert_eq!(c.highlight, Vec::<u8>::new());
    // A span at the very end of the text is on the last line.
    let c = find_context(&src, 22, 22);
    assert_eq!(c.line, 3);
    assert_eq!(c.text, b"end".to_vec());
}

#[test]
fn test_find_context_wide_line_numbers() {
    let mut src = Vec::new();
    for _ in 0..11 {
        src.extend_from_slice(b"x\n");
    }
    src.extend_from_slice(b"abc def");
    let start = src.len() - 3;
    let c = find_context(&src, start, src.len());
    assert_eq!(c.line, 12);
    assert_eq!(c.text, b"abc def".to_vec());
    // "12 | " is five characters wide.
    assert_eq!(c.highlight, b"         ^^^".to_vec());
}

#[test]
fn test_add_public_consts() {
    let tree = Parser::new(Lexer::new("pub const A 1\nconst B 2\npub const C 3\n")).run().unwrap();
    let program = Program::cast(SyntaxNode::root(&tree)).unwrap();
    let mut acc: Vec<ConstDecl> = Vec::new();
    add_public_consts(&mut acc, program.const_decls());
    let names: Vec<Vec<u8>> = acc.iter().map(|c| c.name()).collect();
    assert_eq!(names, vec![b"A".to_vec(), b"C".to_vec()]);
    add_public_consts(&mut acc, program.const_decls());
    assert_eq!(acc.len(), 4);
}
