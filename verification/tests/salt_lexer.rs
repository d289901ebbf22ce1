use simulatron::salt::lexer::{lex, TokenType};

/// The kinds and texts of the tokens of a source.
fn tokens(src: &str) -> Vec<(TokenType, String)> {
    let bytes = src.as_bytes().to_vec();
    lex(&bytes)
        .iter()
        .map(|t| (t.tt, String::from_utf8_lossy(&bytes[t.start..t.end]).into_owned()))
        .collect()
}

fn tt(kind: TokenType, text: &str) -> (TokenType, String) {
    (kind, text.to_string())
}

#[test]
fn test_longest_numbers() {
    assert_eq!(
        tokens("1e-"),
        vec![tt(TokenType::IntLiteral, "1"), tt(TokenType::Identifier, "e"), tt(TokenType::Unknown, "-")]
    );
    assert_eq!(tokens("0b102"), vec![tt(TokenType::IntLiteral, "0b10"), tt(TokenType::IntLiteral, "2")]);
    assert_eq!(tokens("1.5e"), vec![tt(TokenType::FloatLiteral, "1.5"), tt(TokenType::Identifier, "e")]);
    assert_eq!(tokens("-12.25e-3"), vec![tt(TokenType::FloatLiteral, "-12.25e-3")]);
    assert_eq!(tokens("0x1Fg"), vec![tt(TokenType::IntLiteral, "0x1F"), tt(TokenType::Identifier, "g")]);
    assert_eq!(tokens("0xg"), vec![tt(TokenType::IntLiteral, "0"), tt(TokenType::Identifier, "xg")]);
}

#[test]
fn test_longest_punctuation_and_words() {
    assert_eq!(tokens("..."), vec![tt(TokenType::DoubleDot, ".."), tt(TokenType::Unknown, ".")]);
    assert_eq!(
        tokens("pub public"),
        vec![tt(TokenType::Pub, "pub"), tt(TokenType::Whitespace, " "), tt(TokenType::Identifier, "public")]
    );
    assert_eq!(tokens("a/b"), vec![tt(TokenType::Identifier, "a"), tt(TokenType::Unknown, "/"), tt(TokenType::Identifier, "b")]);
    assert_eq!(tokens("// hi\r\n"), vec![tt(TokenType::Comment, "// hi"), tt(TokenType::Newline, "\r\n")]);
}

#[test]
fn test_longest_literals() {
    assert_eq!(tokens("'a''"), vec![tt(TokenType::CharLiteral, "'a'"), tt(TokenType::Unknown, "'")]);
    assert_eq!(tokens("'£'"), vec![tt(TokenType::CharLiteral, "'£'")]);
    assert_eq!(tokens(r#""a\"b"c"#), vec![tt(TokenType::StringLiteral, r#""a\"b""#), tt(TokenType::Identifier, "c")]);
    assert_eq!(tokens("\"open\n"), {
        let mut v = vec![tt(TokenType::Unknown, "\"")];
        v.push(tt(TokenType::Identifier, "open"));
        v.push(tt(TokenType::Newline, "\n"));
        v
    });
    assert_eq!(tokens("é"), vec![tt(TokenType::Unknown, "é")]);
}
