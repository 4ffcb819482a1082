use nonicc::lexer::Tokenizer;
use nonicc::types::Token;
use nonicc::types::TokenKind::{TK_EOF, TK_NUM, TK_RESERVED};

// The end-of-input token sits one past the last character.
#[test]
fn integration_test_tokenize_single_number() {
    let mut tokinizer = Tokenizer::new("0;");
    let tokens = tokinizer.tokenize().unwrap();
    let expected = vec![
        Token { kind: TK_NUM, val: Some(0), str: "0".to_string(), len: 1, pos: 0 },
        Token { kind: TK_RESERVED, val: None, str: ";".to_string(), len: 1, pos: 1 },
        Token { kind: TK_EOF, val: None, str: "<EOF>".to_string(), len: 1, pos: 2 },
    ];

    assert_eq!(tokens, expected);
}

#[test]
fn integration_test_tokenize_number_with_whitespace() {
    let mut tokinizer = Tokenizer::new(" 42; ");
    let tokens = tokinizer.tokenize().unwrap();
    let expected = vec![
        Token { kind: TK_NUM, val: Some(42), str: "42".to_string(), len: 2, pos: 1 },
        Token { kind: TK_RESERVED, val: None, str: ";".to_string(), len: 1, pos: 3 },
        Token { kind: TK_EOF, val: None, str: "<EOF>".to_string(), len: 1, pos: 5 },
    ];

    assert_eq!(tokens, expected);
}
