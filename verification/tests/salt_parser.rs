use simulatron::salt::ast::{LiteralValue, Program, SyntaxNode};
use simulatron::salt::lexer::Lexer;
use simulatron::salt::parser::Parser;
use simulatron::salt::syntax::SyntaxTree;

/// Parse a source that has no syntax error; its tree holds the source.
fn parse_ok(src: &str) -> SyntaxTree {
    let tree = Parser::new(Lexer::new(src)).run().unwrap();
    assert_eq!(tree.text(), src.as_bytes().to_vec());
    tree
}

/// Parse a source with syntax errors; the tree still holds the source.
fn parse_errors(src: &str) -> Vec<String> {
    let (tree, errors) = Parser::new(Lexer::new(src)).parse();
    assert_eq!(tree.text(), src.as_bytes().to_vec());
    assert!(!errors.is_empty());
    errors.into_iter().map(|e| e.message).collect()
}

/// The numbers of constants, data, labels and instructions.
fn counts(tree: &SyntaxTree) -> (usize, usize, usize, usize) {
    let p = Program::cast(SyntaxNode::root(tree)).unwrap();
    (p.const_decls().len(), p.data_decls().len(), p.labels().len(), p.instructions().len())
}

#[test]
fn parser_test_arrays() {
    let src = "static byte[2][3] grid [[1, 2, 3], [4, 5, 6]]\nstatic mut word[2] pair [0x10, 0x20]\n";
    let tree = parse_ok(src);
    assert_eq!(counts(&tree), (0, 2, 0, 0));
    let p = Program::cast(SyntaxNode::root(&tree)).unwrap();
    let (vals, dims) = p.data_decls()[0].initialiser().unwrap();
    assert_eq!(vals.len(), 6);
    assert_eq!(dims, vec![2, 3, 1]);
}

#[test]
fn test_arrays_inferred() {
    let src = "static half[..] vals [1, 2, 3]\nstatic byte[..][..] rows [[1], [2, 3]]\n";
    let tree = parse_ok(src);
    assert_eq!(counts(&tree), (0, 2, 0, 0));
    let p = Program::cast(SyntaxNode::root(&tree)).unwrap();
    let (vals, dims) = p.data_decls()[1].initialiser().unwrap();
    assert_eq!(vals.len(), 3);
    assert_eq!(dims, vec![2, 2, 1]);
}

#[test]
fn parser_test_bad_tokens() {
    let errors = parse_errors("copy r0 $\nhalt ?\n");
    assert_eq!(errors.len(), 2);
}

#[test]
fn test_char_literals() {
    let src = "copy r0b 'a'\ncopy r1b '\\n'\ncopy r2b '£'\n";
    let tree = parse_ok(src);
    assert_eq!(counts(&tree), (0, 0, 0, 3));
    let p = Program::cast(SyntaxNode::root(&tree)).unwrap();
    let ins = p.instructions();
    let value = |i: usize| match ins[i].operands()[1].value().unwrap() {
        simulatron::salt::ast::OperandValue::Lit(LiteralValue::Lit { value, .. }) => value,
        _ => panic!("not a literal"),
    };
    assert_eq!(value(0), 97);
    assert_eq!(value(1), 15);
    assert_eq!(value(2), 31);
}

#[test]
fn parser_test_comments() {
    let tree = parse_ok("// A program.\nhalt // stop here\n// The end.\n");
    assert_eq!(counts(&tree), (0, 0, 0, 1));
    let tree = parse_ok("// Only comments.\n// Nothing else.\n");
    assert_eq!(counts(&tree), (0, 0, 0, 0));
}

#[test]
fn parser_test_consts() {
    let tree = parse_ok("const ONE 1\npub const TWO 0x2\nconst BIG -1e3\n");
    assert_eq!(counts(&tree), (3, 0, 0, 0));
    let p = Program::cast(SyntaxNode::root(&tree)).unwrap();
    let consts = p.const_decls();
    assert_eq!(consts[0].name(), b"ONE".to_vec());
    assert!(!consts[0].public());
    assert!(consts[1].public());
    match consts[2].value().unwrap() {
        LiteralValue::Lit { value, .. } => assert_eq!(value, (-1000i32) as u32),
        _ => panic!("not a literal"),
    }
}

#[test]
fn parser_test_empty() {
    let tree = parse_ok("");
    assert_eq!(counts(&tree), (0, 0, 0, 0));
}

#[test]
fn parser_test_error_recovery() {
    let src = "123 bad line\nhalt\n";
    let errors = parse_errors(src);
    assert_eq!(errors.len(), 1);
    let (tree, _) = Parser::new(Lexer::new(src)).parse();
    assert_eq!(counts(&tree).3, 1);
}

#[test]
fn parser_test_hello_world() {
    let src = "static byte[..] message \"Hello, World!\"\npub main:\n    load r0b message\n    halt\n";
    let tree = parse_ok(src);
    assert_eq!(counts(&tree), (0, 1, 1, 2));
    let p = Program::cast(SyntaxNode::root(&tree)).unwrap();
    let (vals, dims) = p.data_decls()[0].initialiser().unwrap();
    assert_eq!(vals.len(), 13);
    assert_eq!(dims, vec![13, 1]);
}

#[test]
fn parser_test_instruction_block() {
    let src = "copy r0 1\nadd r0 r1\nstore 0x1000 r0\nHALT\n";
    let tree = parse_ok(src);
    assert_eq!(counts(&tree), (0, 0, 0, 4));
    let p = Program::cast(SyntaxNode::root(&tree)).unwrap();
    let ins = p.instructions();
    assert_eq!(ins[3].opcode().0, b"halt".to_vec());
    assert_eq!(ins[2].operands().len(), 2);
}

#[test]
fn parser_test_minimal() {
    let tree = parse_ok("halt\n");
    assert_eq!(counts(&tree), (0, 0, 0, 1));
}

#[test]
fn parser_test_numeric_literals() {
    let src = "const A 0x1F\nconst B 0b101\nconst C -5\nconst D 2e2\nconst E 1.5\n";
    let mut tree = parse_ok(src);
    for k in tree.float_tokens() {
        let text = tree.token_bytes(k);
        let value: f32 = std::str::from_utf8(&text).unwrap().parse().unwrap();
        tree.set_float_bits(k, value.to_bits());
    }
    let p = Program::cast(SyntaxNode::root(&tree)).unwrap();
    let values: Vec<u32> = p
        .const_decls()
        .iter()
        .map(|c| match c.value().unwrap() {
            LiteralValue::Lit { value, .. } => value,
            _ => panic!("not a literal"),
        })
        .collect();
    assert_eq!(values, vec![31, 5, (-5i32) as u32, 200, 1.5f32.to_bits()]);
}

#[test]
fn parser_test_publics() {
    let src = "pub const K 1\npub static byte d 2\npub entry:\n    halt\n";
    let tree = parse_ok(src);
    assert_eq!(counts(&tree), (1, 1, 1, 1));
    let p = Program::cast(SyntaxNode::root(&tree)).unwrap();
    assert!(p.const_decls()[0].public());
    assert!(p.data_decls()[0].public());
    assert!(p.labels()[0].public());
    assert_eq!(
        parse_errors("pub 5\nhalt\n")[0],
        "The 'pub' qualifier can only be applied to const declarations, data declarations, and labels."
    );
    assert_eq!(parse_errors("pub halt\n"), vec!["Expected ':'", "Unexpected EOF"]);
}

#[test]
fn parser_test_statics() {
    let src = "static byte a 1\nstatic mut half b 2\nstatic word c sizeof(a)\n";
    let tree = parse_ok(src);
    assert_eq!(counts(&tree), (0, 3, 0, 0));
    let p = Program::cast(SyntaxNode::root(&tree)).unwrap();
    let datas = p.data_decls();
    assert!(!datas[0].mutable());
    assert!(datas[1].mutable());
    assert_eq!(datas[1].type_().base_size(), 2);
    assert_eq!(datas[2].type_().base_size(), 4);
}

#[test]
fn test_strings() {
    let src = "static byte[..] s \"a\\\"b\"\n";
    let tree = parse_ok(src);
    let p = Program::cast(SyntaxNode::root(&tree)).unwrap();
    let (vals, dims) = p.data_decls()[0].initialiser().unwrap();
    assert_eq!(dims, vec![3, 1]);
    let values: Vec<u32> = vals
        .iter()
        .map(|v| match v {
            LiteralValue::Lit { value, .. } => *value,
            _ => panic!("not a literal"),
        })
        .collect();
    assert_eq!(values, vec![97, 34, 98]);
}
