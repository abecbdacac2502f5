use std::borrow::Borrow;

use calc::token::{get_token_type, read_number, tokenize, Token, TokenType};
use calc::CalcError;

#[test]
fn test_get_token_type() {
    assert_eq!(get_token_type('='.borrow()).unwrap(), TokenType::Equal);
    assert_eq!(get_token_type('+'.borrow()).unwrap(), TokenType::Plus);
    assert_eq!(get_token_type('-'.borrow()).unwrap(), TokenType::Minus);
    assert_eq!(get_token_type('*'.borrow()).unwrap(), TokenType::Asterisk);
    assert_eq!(get_token_type('/'.borrow()).unwrap(), TokenType::Slash);
    assert_eq!(get_token_type('('.borrow()).unwrap(), TokenType::ParenthesisLeft);
    assert_eq!(get_token_type(')'.borrow()).unwrap(), TokenType::ParenthesisRight);
    assert_eq!(get_token_type('%'.borrow()).unwrap(), TokenType::Percent);
    assert_eq!(get_token_type(' '.borrow()).unwrap(), TokenType::Whitespace);
}

#[test]
fn test_tokenize() {
    let expected: Vec<Token> = vec![];
    assert_eq!(tokenize("").unwrap(), expected);
    assert_eq!(tokenize(" ").unwrap(), expected);
    assert_eq!(tokenize("   ").unwrap(), expected);

    let expected = vec![Token { t_type: TokenType::Plus, value: "+".to_string() }];
    assert_eq!(tokenize("+").unwrap(), expected);

    let expected = vec![
        Token { t_type: TokenType::Number, value: "1".to_string() },
        Token { t_type: TokenType::Plus, value: "+".to_string() },
        Token { t_type: TokenType::Number, value: "2".to_string() },
    ];
    assert_eq!(tokenize("1 + 2").unwrap(), expected);
    assert_eq!(tokenize("1+2").unwrap(), expected);

    let expected = vec![
        Token { t_type: TokenType::ParenthesisLeft, value: "(".to_string() },
        Token { t_type: TokenType::Number, value: "1".to_string() },
        Token { t_type: TokenType::Plus, value: "+".to_string() },
        Token { t_type: TokenType::Number, value: "2".to_string() },
        Token { t_type: TokenType::ParenthesisRight, value: ")".to_string() },
        Token { t_type: TokenType::Slash, value: "/".to_string() },
        Token { t_type: TokenType::Number, value: "3".to_string() },
    ];
    assert_eq!(tokenize("(1 + 2) / 3").unwrap(), expected);
}

#[test]
fn test_read_number() {
    {
        let mut char_vec = vec!['5', '4', '+', '3', '2', '+', '1'];
        let expected = "1".to_string();
        assert_eq!(read_number(&mut char_vec), expected);
    }

    {
        let mut char_vec = vec!['5', '4', '+', '3', '2', '1'];
        let expected = "123".to_string();
        assert_eq!(read_number(&mut char_vec), expected);
    }
}

#[test]
fn test_read_number_one_decimal_point() {
    // the first point joins the run; a second one ends it unconsumed
    let mut char_vec = vec!['3', '.', '2', '.', '1'];
    assert_eq!(read_number(&mut char_vec), "1.2".to_string());
    assert_eq!(char_vec, vec!['3', '.']);
}

#[test]
fn test_tokenize_keywords_and_identifiers() {
    let expected = vec![
        Token { t_type: TokenType::Let, value: "let".to_string() },
        Token { t_type: TokenType::Identifier, value: "a".to_string() },
        Token { t_type: TokenType::Equal, value: "=".to_string() },
        Token { t_type: TokenType::Number, value: "5".to_string() },
    ];
    assert_eq!(tokenize("let a = 5").unwrap(), expected);

    // only the exact word `let` is reserved
    let expected = vec![Token { t_type: TokenType::Identifier, value: "letter".to_string() }];
    assert_eq!(tokenize("letter").unwrap(), expected);

    let expected = vec![Token { t_type: TokenType::Identifier, value: "x_1".to_string() }];
    assert_eq!(tokenize("x_1").unwrap(), expected);
}

#[test]
fn test_tokenize_decimal_literal() {
    let expected = vec![
        Token { t_type: TokenType::Number, value: "1.2".to_string() },
        Token { t_type: TokenType::Plus, value: "+".to_string() },
        Token { t_type: TokenType::Number, value: "3".to_string() },
    ];
    assert_eq!(tokenize("1.2+3").unwrap(), expected);
}

#[test]
fn test_tokenize_rejects_unknown_character() {
    assert_eq!(tokenize("1 ? 2"), Err(CalcError::LexError { ch: '?' }));
    // a second decimal point ends the number run; the stray point that
    // follows matches no token rule
    assert_eq!(tokenize("1.2.3"), Err(CalcError::LexError { ch: '.' }));
}
