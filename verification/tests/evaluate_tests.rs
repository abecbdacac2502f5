use calc::context::Context;
use calc::evaluate::{evaluate, run_line};
use calc::parser::{parse, Node, TokenStack};
use calc::token::tokenize;
use calc::CalcError;

fn bits_of(x: f64) -> Option<u64> {
    Some(x.to_bits())
}

#[test]
fn test_evaluate() {
    {
        let mut context = Context::new();
        let node = parse(&mut TokenStack::new(tokenize("(12+2)*3").unwrap())).unwrap();
        let expected: f64 = 42.0;
        assert_eq!(evaluate(&node, &mut context).unwrap(), bits_of(expected));
    }
    {
        let mut context = Context::new();
        let node = parse(&mut TokenStack::new(tokenize("(12/2) - 3").unwrap())).unwrap();
        let expected: f64 = 3.0;
        assert_eq!(evaluate(&node, &mut context).unwrap(), bits_of(expected));
    }
    {
        let mut context = Context::new();
        let node = parse(&mut TokenStack::new(tokenize("(12%20) - 10").unwrap())).unwrap();
        let expected: f64 = 2.0;
        assert_eq!(evaluate(&node, &mut context).unwrap(), bits_of(expected));
    }
    {
        let mut context = Context::new();
        let node = parse(&mut TokenStack::new(tokenize("0.8 + 3").unwrap())).unwrap();
        let expected: f64 = 3.8;
        assert_eq!(evaluate(&node, &mut context).unwrap(), bits_of(expected));
    }
}

#[test]
fn test_precedence() {
    let mut context = Context::new();
    assert_eq!(run_line("1+2*3", &mut context), Ok(bits_of(7.0)));
    assert_eq!(run_line("(1+2)*3", &mut context), Ok(bits_of(9.0)));
}

#[test]
fn test_left_associativity() {
    let mut context = Context::new();
    assert_eq!(run_line("3+2+1", &mut context), Ok(bits_of(6.0)));
    assert_eq!(run_line("5*3*1", &mut context), Ok(bits_of(15.0)));
    assert_eq!(run_line("3-2-1", &mut context), Ok(bits_of(0.0)));
    assert_eq!(run_line("12/2/3", &mut context), Ok(bits_of(2.0)));
}

#[test]
fn test_decimal_literals() {
    let mut context = Context::new();
    assert_eq!(run_line("0.8+3", &mut context), Ok(bits_of(0.8 + 3.0)));
    assert_eq!(run_line("0.1+0.2", &mut context), Ok(bits_of(0.1 + 0.2)));
    assert_eq!(run_line("1. + 2", &mut context), Ok(bits_of(3.0)));
    // the run "1.2" ends at the second point, which matches no token rule
    assert_eq!(run_line("1.2.3", &mut context), Err(CalcError::LexError { ch: '.' }));
}

#[test]
fn test_modulo_and_division() {
    let mut context = Context::new();
    assert_eq!(run_line("12%20-10", &mut context), Ok(bits_of(2.0)));
    assert_eq!(run_line("12/2-3", &mut context), Ok(bits_of(3.0)));
    assert_eq!(run_line("7%3", &mut context), Ok(bits_of(1.0)));
    // division by zero is no error: IEEE 754 yields infinity
    assert_eq!(run_line("1/0", &mut context), Ok(bits_of(f64::INFINITY)));
}

#[test]
fn test_assignment_round_trip() {
    let mut context = Context::new();
    assert_eq!(run_line("let a = 5", &mut context), Ok(None));
    assert_eq!(context.get(&"a".to_string()), Some((5.0f64).to_bits()));
    assert_eq!(run_line("a+1", &mut context), Ok(bits_of(6.0)));
}

#[test]
fn test_reassignment_last_write_wins() {
    let mut context = Context::new();
    assert_eq!(run_line("let a = 5", &mut context), Ok(None));
    assert_eq!(run_line("let a = 9", &mut context), Ok(None));
    assert_eq!(context.get(&"a".to_string()), Some((9.0f64).to_bits()));
    assert_eq!(run_line("a", &mut context), Ok(bits_of(9.0)));
}

#[test]
fn test_undefined_variable() {
    let mut context = Context::new();
    assert_eq!(
        run_line("b+1", &mut context),
        Err(CalcError::UndefinedVariableError { name: "b".to_string() })
    );
}

#[test]
fn test_failed_line_keeps_bindings() {
    let mut context = Context::new();
    assert_eq!(run_line("let a = 5", &mut context), Ok(None));
    assert_eq!(
        run_line("let a = b+1", &mut context),
        Err(CalcError::UndefinedVariableError { name: "b".to_string() })
    );
    // the failed assignment wrote nothing
    assert_eq!(context.get(&"a".to_string()), Some((5.0f64).to_bits()));
}

#[test]
fn test_determinism_fresh_environments() {
    let mut first = Context::new();
    let mut second = Context::new();
    assert_eq!(
        run_line("(0.8+3)*1.5-12%5", &mut first),
        run_line("(0.8+3)*1.5-12%5", &mut second)
    );
}

#[test]
fn test_empty_input() {
    let mut context = Context::new();
    assert_eq!(run_line("", &mut context), Err(CalcError::EmptyInputError));
    assert_eq!(run_line("   ", &mut context), Err(CalcError::EmptyInputError));
}

#[test]
fn test_number_format_error() {
    // defensively handled: such a node cannot come from the parser, but a
    // hand-built one must fail cleanly
    let mut context = Context::new();
    let node = Node::NumberLit { text: "1.2.3".to_string() };
    assert_eq!(
        evaluate(&node, &mut context),
        Err(CalcError::NumberFormatError { text: "1.2.3".to_string() })
    );
}

#[test]
fn test_assignment_of_expression_with_variables() {
    let mut context = Context::new();
    assert_eq!(run_line("let x = 2", &mut context), Ok(None));
    assert_eq!(run_line("let y = x*x+0.25", &mut context), Ok(None));
    assert_eq!(run_line("y", &mut context), Ok(bits_of(4.25)));
}
