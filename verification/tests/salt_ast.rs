use simulatron::salt::ast::{ArrayLength, LiteralValue, OperandValue, Program, SyntaxNode};
use simulatron::salt::literals::RegisterType;
use simulatron::salt::lexer::Lexer;
use simulatron::salt::parser::Parser;
use simulatron::salt::syntax::SyntaxTree;

fn parse(src: &str) -> SyntaxTree {
    Parser::new(Lexer::new(src)).run().unwrap()
}

/// An operand's value as text: a name, or a literal's value and type.
fn show(v: &OperandValue) -> String {
    match v {
        OperandValue::Ident(name) => String::from_utf8(name.clone()).unwrap(),
        OperandValue::Lit(LiteralValue::Lit { value, min_reg_type }) => format!("{} {:?}", value, min_reg_type),
        OperandValue::Lit(LiteralValue::Sizeof { ident }) => format!("sizeof {}", String::from_utf8(ident.clone()).unwrap()),
    }
}

#[test]
fn ast_test_data() {
    let src = "static byte[3] arr [1, 2, 3]\n\
               static word[2][2] primes_and_doubles [[2, 4], [3, 6]]\n\
               static byte[0] empty []\n\
               static mut half[4] zeros [0, 0, 0, 0]\n\
               static byte[-1] negative [1]\n\
               static byte[99999999999] too_big [1]\n\
               static byte[1] init_too_big [1, 2]\n\
               static byte[3] init_too_small [-1, 2]\n";
    let tree = parse(src);
    let ast = Program::cast(SyntaxNode::root(&tree)).unwrap();
    let data = ast.data_decls();
    assert_eq!(data.len(), 8);
    let names = ["arr", "primes_and_doubles", "empty", "zeros", "negative", "too_big", "init_too_big", "init_too_small"];
    for (d, name) in data.iter().zip(names.iter()) {
        assert_eq!(d.name(), name.as_bytes().to_vec());
        assert_eq!(d.mutable(), *name == "zeros");
    }
    assert_eq!(data[0].type_().dimensions().unwrap(), vec![ArrayLength::Literal(3), ArrayLength::Literal(1)]);
    assert_eq!(
        data[1].type_().dimensions().unwrap(),
        vec![ArrayLength::Literal(2), ArrayLength::Literal(2), ArrayLength::Literal(1)]
    );
    assert_eq!(data[2].type_().dimensions().unwrap(), vec![ArrayLength::Literal(0), ArrayLength::Literal(1)]);
    let (vals, dims) = data[1].initialiser().unwrap();
    assert_eq!(vals.len(), 4);
    assert_eq!(dims, vec![2, 2, 1]);
    let (vals, _) = data[3].initialiser().unwrap();
    assert_eq!(vals.len(), 4);
    // A negative length and one out of range are refused.
    assert_eq!(data[4].type_().dimensions().unwrap_err().message, "Array lengths cannot be negative.");
    assert!(data[5].type_().dimensions().is_err());
    // Initialisers of the wrong length are read as they stand; the code
    // generator compares them with the type.
    let (vals, dims) = data[6].initialiser().unwrap();
    assert_eq!(vals.len(), 2);
    assert_eq!(dims, vec![2, 1]);
    let (vals, _) = data[7].initialiser().unwrap();
    assert_eq!(vals.len(), 2);
    // The byte -1 is held as its two's complement.
    assert!(matches!(vals[0], LiteralValue::Lit { value: 0xFFFF_FFFF, min_reg_type: RegisterType::Byte }));
}

#[test]
fn ast_test_labels() {
    let src = "somelabel:\n    copy r0 1\n    halt\nother:\n    halt\n";
    let tree = parse(src);
    let ast = Program::cast(SyntaxNode::root(&tree)).unwrap();
    let first_instruction = &ast.instructions()[0];
    let label = &ast.labels()[0];
    assert_eq!(label.name(), b"somelabel".to_vec());
    assert_eq!(label.instruction().unwrap().syntax().text_range(), first_instruction.syntax().text_range());
    assert_eq!(ast.labels()[1].instruction().unwrap().syntax().text_range(), ast.instructions()[2].syntax().text_range());
}

#[test]
fn ast_test_instructions() {
    let src = "const X 2\n\
               static byte[..] message \"Hi\"\n\
               main:\n\
               \x20   copy r0 X\n\
               \x20   mult r0 3\n\
               \x20   add r0 r1\n\
               \x20   add r0 0x10\n\
               \x20   blockcopy 2 0x1000 message\n\
               \x20   halt\n";
    let tree = parse(src);
    let ast = Program::cast(SyntaxNode::root(&tree)).unwrap();
    let instructions = ast.instructions();
    assert_eq!(instructions.len(), 6);
    let opcodes = ["copy", "mult", "add", "add", "blockcopy", "halt"];
    for (i, op) in instructions.iter().zip(opcodes.iter()) {
        assert_eq!(i.opcode().0, op.as_bytes().to_vec());
    }
    let values = |k: usize| -> Vec<String> {
        instructions[k].operands().iter().map(|o| show(&o.value().unwrap())).collect()
    };
    assert_eq!(values(0), vec!["r0", "X"]);
    assert_eq!(values(1), vec!["r0", "3 Byte"]);
    assert_eq!(values(2), vec!["r0", "r1"]);
    assert_eq!(values(3), vec!["r0", "16 Byte"]);
    assert_eq!(values(4), vec!["2 Byte", "4096 Half", "message"]);
    assert!(values(5).is_empty());
}
