use simulatron::salt::ast::{Program, SyntaxNode};
use simulatron::salt::codegen::{CodeGenerator, CodegenFailure, CodegenSuccess};
use simulatron::salt::lexer::Lexer;
use simulatron::salt::parser::Parser;
use simulatron::salt::syntax::SyntaxTree;

/// Parse a source that has no syntax error, and give each float literal its
/// value.
fn tree_of(src: &str) -> SyntaxTree {
    let mut tree = Parser::new(Lexer::new(src)).run().unwrap();
    for k in tree.float_tokens() {
        let text = tree.token_bytes(k);
        let value: f32 = std::str::from_utf8(&text).unwrap().parse().unwrap();
        tree.set_float_bits(k, value.to_bits());
    }
    tree
}

fn assemble(src: &str, entrypoint: bool) -> Result<CodegenSuccess, CodegenFailure> {
    let tree = tree_of(src);
    let program = Program::cast(SyntaxNode::root(&tree)).unwrap();
    CodeGenerator::new(program, &Vec::new()).and_then(|g| g.run(entrypoint))
}

fn success(src: &str, entrypoint: bool) -> Vec<u8> {
    let s = assemble(src, entrypoint).unwrap();
    assert_eq!(s.warnings.len(), 0, "unexpected warnings: {:?}", s.warnings);
    s.simobj
}

fn success_with_warnings(src: &str, entrypoint: bool) -> (Vec<u8>, Vec<String>) {
    let s = assemble(src, entrypoint).unwrap();
    assert!(s.warnings.len() > 0);
    (s.simobj, s.warnings.into_iter().map(|w| w.message).collect())
}

fn failure(src: &str) -> Vec<String> {
    let f = assemble(src, true).unwrap_err();
    f.errors.into_iter().map(|e| e.message).collect()
}

/// The header of an object file with the given numbers of symbols and
/// sections.
fn header(symbols: u8, sections: u8) -> Vec<u8> {
    vec![0x53, 0x49, 0x4D, 0x4F, 0x42, 0x4A, 0x00, 0x01, 0, 0, 0, symbols, 0, 0, 0, sections]
}

/// An object file with only a code section.
fn code_only(entrypoint: bool, code: &[u8]) -> Vec<u8> {
    let mut v = header(0, 1);
    v.push(if entrypoint { 0x11 } else { 0x10 });
    v.extend_from_slice(&(code.len() as u32).to_be_bytes());
    v.extend_from_slice(code);
    v
}

#[test]
fn test_addressing_modes() {
    let code = [0x06, 0x00, 0x12, 0x34, 0x56, 0x78, 0x07, 0x09, 0x02, 0x00];
    let mut expected = header(1, 1);
    expected.extend_from_slice(&[0x50, 0, 0, 0, 0x24, 5, b's', b't', b'a', b'r', b't', 0, 0, 0, 0]);
    expected.extend_from_slice(&[0x11, 0, 0, 0, 10]);
    expected.extend_from_slice(&code);
    assert_eq!(success("pub start:\n    load r0 0x12345678\n    load r1h r2\n    halt\n", true), expected);

    let code2 = [
        0x06, 0x00, 0x00, 0x00, 0x00, 0x10, 0x09, 0x00, 0x11, 0x48, 0x00, 0x00, 0x01, 0x00, 0x00,
    ];
    assert_eq!(success("load r0 0x10\nstore r0 r1b\njump 0x100\nhalt\n", true), code_only(true, &code2));
}

#[test]
fn test_arithmetic() {
    let code = [
        0x21, 0x00, 0x00, 0x00, 0x00, 0x01, 0x26, 0x09, 0x0A, 0x2A, 0x18, 0x19, 0x2B, 0x13, 0x05, 0x00,
    ];
    assert_eq!(
        success("add r0 1\nsub r1h r2h\nmult f0 f1\nsdiv r3b 5\nhalt\n", true),
        code_only(true, &code)
    );
    assert_eq!(failure("add r0 r1b\nhalt\n"), vec!["Cannot operate between differently-sized registers."]);
}

#[test]
fn test_array_inferred() {
    let mut expected = header(2, 2);
    expected.extend_from_slice(&[0x50, 0, 0, 0, 0x3A, 4, b'm', b'a', b'i', b'n', 0, 0, 0, 0]);
    expected.extend_from_slice(&[0x49, 0, 0, 0, 0x41, 4, b'v', b'a', b'l', b's', 0, 0, 0, 1, 0, 0, 0, 0x3C]);
    expected.extend_from_slice(&[0x11, 0, 0, 0, 7, 0x0C, 0, 0, 0, 6]);
    expected.extend_from_slice(&[0x06, 0x08, 0, 0, 0, 0, 0x00]);
    expected.extend_from_slice(&[0, 1, 0, 2, 0, 3]);
    assert_eq!(
        success("static mut half[..] vals [1, 2, 3]\npub main:\n    load r0h vals\n    halt\n", true),
        expected
    );
    assert_eq!(
        failure("static byte[2] arr [1, 2, 3]\nhalt\n"),
        vec!["Initialiser too long for stated dimensions."]
    );
}

#[test]
fn test_bitwise() {
    let code = [
        0x34, 0x00, 0x00, 0x00, 0x00, 0xFF, 0x33, 0x01, 0x3A, 0x02, 0x03, 0x39, 0x10, 0x11, 0x00,
    ];
    assert_eq!(
        success("and r0 0xFF\nnot r1\nlshift r2 3\nxor r0b r1b\nhalt\n", true),
        code_only(true, &code)
    );
    assert_eq!(failure("not f0\nhalt\n"), vec!["Operation not applicable to floats."]);
}

#[test]
fn test_blockcopy() {
    let code = [
        0x10, 0x00, 0x00, 0x00, 0x10, 0x00, 0x00, 0x10, 0x00, 0x00, 0x00, 0x20, 0x00, 0x17, 0x00, 0x01, 0x02,
        0x00,
    ];
    assert_eq!(
        success("blockcopy 16 0x1000 0x2000\nblockcopy r0 r1 r2\nhalt\n", false),
        code_only(false, &code)
    );
    assert_eq!(failure("blockcopy r0b 1 2\nhalt\n"), vec!["Expected a word register reference."]);
}

#[test]
fn test_blockset() {
    let code = [
        0x18, 0x00, 0x00, 0x00, 0x08, 0x00, 0x00, 0x01, 0x00, 0x00, 0x1F, 0x00, 0x01, 0x12, 0x00,
    ];
    assert_eq!(
        success("blockset 8 0x100 0\nblockset r0 r1 r2b\nhalt\n", true),
        code_only(true, &code)
    );
    assert_eq!(failure("blockset 8 0x100 300\nhalt\n"), vec!["Literal too large: expected single byte."]);
}

#[test]
fn test_branching() {
    let src = "pub main:\n    compare r0 0\n    jequal done\n    jump main\ndone:\nspare:\n    halt\n";
    let mut expected = header(3, 1);
    expected.extend_from_slice(&[
        0x49, 0, 0, 0, 0x58, 4, b'd', b'o', b'n', b'e', 0, 0, 0, 1, 0, 0, 0, 0x4F,
    ]);
    expected.extend_from_slice(&[
        0x50, 0, 0, 0, 0x48, 4, b'm', b'a', b'i', b'n', 0, 0, 0, 1, 0, 0, 0, 0x54,
    ]);
    expected.extend_from_slice(&[0x49, 0, 0, 0, 0x58, 5, b's', b'p', b'a', b'r', b'e', 0, 0, 0, 0]);
    expected.extend_from_slice(&[0x11, 0, 0, 0, 17]);
    expected.extend_from_slice(&[
        0x4A, 0x00, 0x00, 0x00, 0x00, 0x00, 0x54, 0x00, 0x00, 0x00, 0x00, 0x48, 0x00, 0x00, 0x00, 0x00, 0x00,
    ]);
    let (simobj, warnings) = success_with_warnings(src, true);
    assert_eq!(simobj, expected);
    assert_eq!(warnings, vec!["Unused private symbol."]);
    assert_eq!(failure("jump r0b\nhalt\n"), vec!["Expected an address (word) register reference."]);
    assert_eq!(failure("halt\nlast:\n"), vec!["Label without a following instruction."]);
}

#[test]
fn tests_test_comments() {
    let src = "// A comment\nstatic byte x 5 // trailing comment\nhalt // end\n";
    let mut expected = header(1, 2);
    expected.extend_from_slice(&[0x49, 0, 0, 0, 0x26, 1, b'x', 0, 0, 0, 0]);
    expected.extend_from_slice(&[0x10, 0, 0, 0, 1, 0x04, 0, 0, 0, 1]);
    expected.extend_from_slice(&[0x00, 0x05]);
    let (simobj, warnings) = success_with_warnings(src, false);
    assert_eq!(simobj, expected);
    assert_eq!(warnings, vec!["Unused private symbol."]);
}

#[test]
fn test_convert() {
    let code = [0x6C, 0x00, 0x19, 0x6D, 0x1A, 0x03, 0x00];
    assert_eq!(success("sconvert r0 f1\nuconvert f2 r3\nhalt\n", true), code_only(true, &code));
    assert_eq!(failure("sconvert r0 r1\nhalt\n"), vec!["Expected a float register reference."]);
}

#[test]
fn test_copy() {
    let code = [
        0x0A, 0x00, 0x12, 0x34, 0x56, 0x78, 0x0A, 0x11, 0x41, 0x0A, 0x18, 0x3F, 0xC0, 0x00, 0x00, 0x0B, 0x0A,
        0x0B, 0x00,
    ];
    assert_eq!(
        success("copy r0 0x12345678\ncopy r1b 'A'\ncopy f0 1.5\ncopy r2h r3h\nhalt\n", true),
        code_only(true, &code)
    );
    assert_eq!(failure("copy r0b 300\nhalt\n"), vec!["Literal too big for register."]);
}

#[test]
fn tests_test_empty() {
    assert_eq!(failure(""), vec!["Cannot compile an empty file."]);
}

#[test]
fn test_external_refs() {
    let src = "load r0 EXTERNAL_THING\ncall other_func\nhalt\n";
    let mut expected = header(2, 1);
    expected.extend_from_slice(&[0x45, 0, 0, 0, 0, 14]);
    expected.extend_from_slice(b"EXTERNAL_THING");
    expected.extend_from_slice(&[0, 0, 0, 1, 0, 0, 0, 0x4B]);
    expected.extend_from_slice(&[0x45, 0, 0, 0, 0, 10]);
    expected.extend_from_slice(b"other_func");
    expected.extend_from_slice(&[0, 0, 0, 1, 0, 0, 0, 0x50]);
    expected.extend_from_slice(&[0x10, 0, 0, 0, 12]);
    expected.extend_from_slice(&[0x06, 0x00, 0x00, 0x00, 0x00, 0x00, 0x68, 0x00, 0x00, 0x00, 0x00, 0x00]);
    let (simobj, warnings) = success_with_warnings(src, false);
    assert_eq!(simobj, expected);
    assert_eq!(
        warnings,
        vec!["Unresolved symbol creates an external data reference, but this looks like a constant."]
    );
}

#[test]
fn tests_test_hello_world() {
    let src = "const LEN 5\nstatic byte[..] greeting \"Hello\"\npub main:\n    copy r0 sizeof(greeting)\n    load r1b greeting\n    halt\n";
    let mut expected = header(2, 2);
    expected.extend_from_slice(&[0x49, 0, 0, 0, 0x4B, 8]);
    expected.extend_from_slice(b"greeting");
    expected.extend_from_slice(&[0, 0, 0, 1, 0, 0, 0, 0x46]);
    expected.extend_from_slice(&[0x50, 0, 0, 0, 0x3E, 4, b'm', b'a', b'i', b'n', 0, 0, 0, 0]);
    expected.extend_from_slice(&[0x11, 0, 0, 0, 13, 0x04, 0, 0, 0, 5]);
    expected.extend_from_slice(&[0x0A, 0x00, 0x00, 0x00, 0x00, 0x05, 0x06, 0x11, 0x00, 0x00, 0x00, 0x00, 0x00]);
    expected.extend_from_slice(b"Hello");
    let (simobj, warnings) = success_with_warnings(src, true);
    assert_eq!(simobj, expected);
    assert_eq!(warnings, vec!["Unused private symbol."]);
}

#[test]
fn tests_test_minimal() {
    assert_eq!(success("halt\n", true), code_only(true, &[0x00]));
}

#[test]
fn test_naming_violations() {
    let src = "const lower_const 1\nstatic byte Upper_Data 2\npub main:\n    copy r0 lower_const\n    load r0b Upper_Data\n    halt\n";
    let mut expected = header(2, 2);
    expected.extend_from_slice(&[0x49, 0, 0, 0, 0x4D, 10]);
    expected.extend_from_slice(b"Upper_Data");
    expected.extend_from_slice(&[0, 0, 0, 1, 0, 0, 0, 0x48]);
    expected.extend_from_slice(&[0x50, 0, 0, 0, 0x40, 4, b'm', b'a', b'i', b'n', 0, 0, 0, 0]);
    expected.extend_from_slice(&[0x11, 0, 0, 0, 13, 0x04, 0, 0, 0, 1]);
    expected.extend_from_slice(&[0x0A, 0x00, 0x00, 0x00, 0x00, 0x01, 0x06, 0x10, 0x00, 0x00, 0x00, 0x00, 0x00]);
    expected.push(0x02);
    let (simobj, warnings) = success_with_warnings(src, true);
    assert_eq!(simobj, expected);
    assert_eq!(
        warnings,
        vec![
            "Constant names are expected to be UPPER_SNAKE_CASE.",
            "Data names are expected to be lower_snake_case."
        ]
    );
}

#[test]
fn test_negate() {
    assert_eq!(success("negate r0\nnegate f1\nhalt\n", true), code_only(true, &[0x20, 0x00, 0x20, 0x19, 0x00]));
}

#[test]
fn test_push_pop() {
    assert_eq!(success("push r0\npop r1h\nhalt\n", true), code_only(true, &[0x0E, 0x00, 0x0F, 0x09, 0x00]));
    assert_eq!(failure("push 5\nhalt\n"), vec!["Cannot use a literal here."]);
}

#[test]
fn test_store() {
    let code = [0x08, 0x00, 0x00, 0x20, 0x00, 0x00, 0x09, 0x01, 0x1A, 0x00];
    assert_eq!(success("store 0x2000 r0\nstore r1 f2\nhalt\n", true), code_only(true, &code));
}

#[test]
fn test_swap() {
    let code = [0x0C, 0x00, 0x00, 0x00, 0x30, 0x00, 0x0D, 0x11, 0x02, 0x00];
    assert_eq!(success("swap r0 0x3000\nswap r1b r2\nhalt\n", true), code_only(true, &code));
}

#[test]
fn test_symbol_name_too_long() {
    let name = "a".repeat(300);
    let src = format!("pub {}:\nhalt\n", name);
    assert_eq!(failure(&src), vec!["Symbol name too long (max 255 chars)."]);
    let ok = format!("pub {}:\nhalt\n", "a".repeat(255));
    assert!(assemble(&ok, true).is_ok());
}
