use calc::parser::{mul, number, parse, priority, sum, Node, OpType, TokenStack};
use calc::token::{tokenize, Token, TokenType};
use calc::CalcError;

fn num_token(text: &str) -> Token {
    Token { t_type: TokenType::Number, value: text.to_string() }
}

fn num_node(text: &str) -> Node {
    Node::NumberLit { text: text.to_string() }
}

#[test]
fn test_number() {
    let mut token_stack = TokenStack { tokens: vec![num_token("1")] };
    let expected = num_node("1");
    assert_eq!(number(&mut token_stack).unwrap(), expected);
}

#[test]
fn test_sum() {
    let mut token_stack = TokenStack {
        tokens: vec![
            num_token("2"),
            Token { t_type: TokenType::Plus, value: "+".to_string() },
            num_token("1"),
        ],
    };
    let one_plus_two = Node::BinaryOp {
        op: OpType::Plus,
        left: Box::new(num_node("1")),
        right: Box::new(num_node("2")),
    };
    assert_eq!(sum(&mut token_stack).unwrap(), one_plus_two);

    let mut token_stack = TokenStack {
        tokens: vec![
            num_token("3"),
            Token { t_type: TokenType::Plus, value: "+".to_string() },
            num_token("2"),
            Token { t_type: TokenType::Plus, value: "+".to_string() },
            num_token("1"),
        ],
    };
    let expected = Node::BinaryOp {
        op: OpType::Plus,
        left: Box::new(one_plus_two),
        right: Box::new(num_node("3")),
    };
    assert_eq!(sum(&mut token_stack).unwrap(), expected);
}

#[test]
fn test_mul() {
    let mut token_stack = TokenStack {
        tokens: vec![
            num_token("3"),
            Token { t_type: TokenType::Asterisk, value: "*".to_string() },
            num_token("1"),
        ],
    };
    let one_product_three = Node::BinaryOp {
        op: OpType::Asterisk,
        left: Box::new(num_node("1")),
        right: Box::new(num_node("3")),
    };
    assert_eq!(mul(&mut token_stack).unwrap(), one_product_three);

    let mut token_stack = TokenStack {
        tokens: vec![
            num_token("5"),
            Token { t_type: TokenType::Asterisk, value: "*".to_string() },
            num_token("3"),
            Token { t_type: TokenType::Asterisk, value: "*".to_string() },
            num_token("1"),
        ],
    };
    let expected = Node::BinaryOp {
        op: OpType::Asterisk,
        left: Box::new(one_product_three),
        right: Box::new(num_node("5")),
    };
    assert_eq!(mul(&mut token_stack).unwrap(), expected);
}

#[test]
fn test_priority() {
    let mut token_stack = TokenStack { tokens: vec![num_token("1")] };
    let expected = num_node("1");
    assert_eq!(priority(&mut token_stack).unwrap(), expected);

    let mut token_stack = TokenStack {
        tokens: vec![
            Token { t_type: TokenType::Plus, value: "+".to_string() },
            num_token("2"),
        ],
    };
    let expected = num_node("2");
    assert_eq!(priority(&mut token_stack).unwrap(), expected);

    let mut token_stack = TokenStack {
        tokens: vec![
            Token { t_type: TokenType::ParenthesisRight, value: ")".to_string() },
            num_token("2"),
            Token { t_type: TokenType::Plus, value: "+".to_string() },
            num_token("2"),
            Token { t_type: TokenType::ParenthesisLeft, value: "(".to_string() },
        ],
    };
    let expected = Node::BinaryOp {
        op: OpType::Plus,
        left: Box::new(num_node("2")),
        right: Box::new(num_node("2")),
    };
    assert_eq!(priority(&mut token_stack).unwrap(), expected);
}

#[test]
fn test_parse_left_associativity() {
    // "3+2+1" parses as (3+2)+1
    let mut token_stack = TokenStack::new(tokenize("3+2+1").unwrap());
    let expected = Node::BinaryOp {
        op: OpType::Plus,
        left: Box::new(Node::BinaryOp {
            op: OpType::Plus,
            left: Box::new(num_node("3")),
            right: Box::new(num_node("2")),
        }),
        right: Box::new(num_node("1")),
    };
    assert_eq!(parse(&mut token_stack).unwrap(), expected);
}

#[test]
fn test_parse_precedence_tree() {
    // "1+2*3" parses as 1+(2*3)
    let mut token_stack = TokenStack::new(tokenize("1+2*3").unwrap());
    let expected = Node::BinaryOp {
        op: OpType::Plus,
        left: Box::new(num_node("1")),
        right: Box::new(Node::BinaryOp {
            op: OpType::Asterisk,
            left: Box::new(num_node("2")),
            right: Box::new(num_node("3")),
        }),
    };
    assert_eq!(parse(&mut token_stack).unwrap(), expected);
}

#[test]
fn test_parse_assignment() {
    let mut token_stack = TokenStack::new(tokenize("let a = 5").unwrap());
    let expected = Node::Assignment {
        name: "a".to_string(),
        value: Box::new(num_node("5")),
    };
    assert_eq!(parse(&mut token_stack).unwrap(), expected);
}

#[test]
fn test_parse_unbalanced_parenthesis() {
    // "(1+2" fails naming the missing right parenthesis
    let mut token_stack = TokenStack::new(tokenize("(1+2").unwrap());
    assert_eq!(
        parse(&mut token_stack),
        Err(CalcError::ParseError { expected: TokenType::ParenthesisRight, found: None })
    );
}

#[test]
fn test_parse_empty_input() {
    let mut token_stack = TokenStack::new(tokenize("").unwrap());
    assert_eq!(parse(&mut token_stack), Err(CalcError::EmptyInputError));
}

#[test]
fn test_parse_malformed_assignment() {
    let mut token_stack = TokenStack::new(tokenize("let 5 = 3").unwrap());
    assert_eq!(
        parse(&mut token_stack),
        Err(CalcError::ParseError {
            expected: TokenType::Identifier,
            found: Some(TokenType::Number),
        })
    );
}
