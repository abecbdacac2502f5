//! The evaluator: walks an abstract syntax tree against the session
//! environment, producing a numeric result or performing an assignment.
use vstd::prelude::*;
use crate::context::Context;
use crate::num::{
    add_bits, sub_bits, mul_bits, div_bits, rem_bits, literal_bits, is_number_text,
    check_number_text, apfloat_add, apfloat_sub, apfloat_mul, apfloat_div, apfloat_rem,
    apfloat_literal,
};
use crate::parser::{
    closed_node, expr_node, statement_node, parse, spec_parse, Node, NodeV, OpType, TokenStack,
};
use crate::token::{spec_tokenize, tokenize};
use crate::CalcError;
use crate::ErrorV;

verus! {

/// The bits an operand contributes: an expression's own value, or the zero
/// encoding for a nested assignment, which has no value of its own.
pub open spec fn or_zero(v: Option<u64>) -> u64 {
    match v {
        Some(b) => b,
        None => 0,
    }
}

/// The bits that `op` combines `a` and `b` into.
pub open spec fn apply_op(op: OpType, a: u64, b: u64) -> u64 {
    match op {
        OpType::Plus => add_bits(a, b),
        OpType::Minus => sub_bits(a, b),
        OpType::Asterisk => mul_bits(a, b),
        OpType::Slash => div_bits(a, b),
        OpType::Percent => rem_bits(a, b),
    }
}

/// What evaluating `n` against `env` yields, together with the environment
/// the evaluation leaves behind.  A literal must be a well-formed decimal;
/// an identifier must be bound; an assignment evaluates its right-hand side
/// first — left before right everywhere, stopping at the first error — and
/// then binds its name, returning no value.
pub open spec fn spec_eval(n: NodeV, env: Map<Seq<char>, u64>) -> (Result<
    Option<u64>,
    ErrorV,
>, Map<Seq<char>, u64>)
    decreases n,
{
    match n {
        NodeV::NumberLit { text } => {
            if is_number_text(text) {
                (Ok(Some(literal_bits(text))), env)
            } else {
                (Err(ErrorV::NumberFormatError { text }), env)
            }
        },
        NodeV::Identifier { name } => {
            if env.contains_key(name) {
                (Ok(Some(env[name])), env)
            } else {
                (Err(ErrorV::UndefinedVariableError { name }), env)
            }
        },
        NodeV::Assignment { name, value } => {
            let (r1, env1) = spec_eval(*value, env);
            match r1 {
                Ok(v) => (Ok(None), env1.insert(name, or_zero(v))),
                Err(e) => (Err(e), env1),
            }
        },
        NodeV::BinaryOp { op, left, right } => {
            let (r1, env1) = spec_eval(*left, env);
            match r1 {
                Ok(v1) => {
                    let (r2, env2) = spec_eval(*right, env1);
                    match r2 {
                        Ok(v2) => (Ok(Some(apply_op(op, or_zero(v1), or_zero(v2)))), env2),
                        Err(e) => (Err(e), env2),
                    }
                },
                Err(e) => (Err(e), env1),
            }
        },
    }
}

/// Evaluates `node` against `context`, as [`spec_eval`] says: `Some` bits
/// for an expression, `None` for an assignment (whose effect is the
/// binding), or the first error.
pub fn evaluate(node: &Node, context: &mut Context) -> (r: Result<Option<u64>, CalcError>)
    ensures
        ({
            let (res, env2) = spec_eval(node@, old(context)@);
            final(context)@ == env2 && match res {
                Ok(v) => r == Ok::<Option<u64>, CalcError>(v),
                Err(e) => r matches Err(err) && err@ == e,
            }
        }),
    decreases node,
{
    match node {
        Node::NumberLit { text } => {
            if check_number_text(text) {
                Ok(Some(apfloat_literal(text)))
            } else {
                Err(CalcError::NumberFormatError { text: text.clone() })
            }
        },
        Node::Identifier { name } => {
            match context.get(name) {
                Some(v) => Ok(Some(v)),
                None => Err(CalcError::UndefinedVariableError { name: name.clone() }),
            }
        },
        Node::Assignment { name, value } => {
            match evaluate(&**value, context) {
                Ok(v) => {
                    let bits = match v {
                        Some(b) => b,
                        None => 0,
                    };
                    context.set(name.clone(), bits);
                    Ok(None)
                },
                Err(e) => Err(e),
            }
        },
        Node::BinaryOp { op, left, right } => {
            let v1 = match evaluate(&**left, context) {
                Ok(v) => v,
                Err(e) => {
                    return Err(e);
                },
            };
            let v2 = match evaluate(&**right, context) {
                Ok(v) => v,
                Err(e) => {
                    return Err(e);
                },
            };
            let a = match v1 {
                Some(b) => b,
                None => 0,
            };
            let b = match v2 {
                Some(b2) => b2,
                None => 0,
            };
            let bits = match op {
                OpType::Plus => apfloat_add(a, b),
                OpType::Minus => apfloat_sub(a, b),
                OpType::Asterisk => apfloat_mul(a, b),
                OpType::Slash => apfloat_div(a, b),
                OpType::Percent => apfloat_rem(a, b),
            };
            Ok(Some(bits))
        },
    }
}

/// What processing one line against `env` yields, end to end: tokenize,
/// parse, evaluate.  Tokens beyond the first statement are ignored, as the
/// parser leaves them.
pub open spec fn spec_run_line(s: Seq<char>, env: Map<Seq<char>, u64>) -> (Result<
    Option<u64>,
    ErrorV,
>, Map<Seq<char>, u64>) {
    match spec_tokenize(s) {
        Ok(ts) => match spec_parse(ts) {
            Ok((n, rest)) => spec_eval(n, env),
            Err(e) => (Err(e), env),
        },
        Err(e) => (Err(e), env),
    }
}

/// Processes one line against the session environment, as
/// [`spec_run_line`] says: the statement's printable value, `None` for an
/// assignment, or the first error.  An empty or whitespace-only line is an
/// [`CalcError::EmptyInputError`].
pub fn run_line(line: &str, context: &mut Context) -> (r: Result<Option<u64>, CalcError>)
    ensures
        ({
            let (res, env2) = spec_run_line(line@, old(context)@);
            final(context)@ == env2 && match res {
                Ok(v) => r == Ok::<Option<u64>, CalcError>(v),
                Err(e) => r matches Err(err) && err@ == e,
            }
        }),
{
    let tokens = match tokenize(line) {
        Ok(t) => t,
        Err(e) => {
            return Err(e);
        },
    };
    let mut stack = TokenStack::new(tokens);
    let node = match parse(&mut stack) {
        Ok(n) => n,
        Err(e) => {
            return Err(e);
        },
    };
    evaluate(&node, context)
}

/// Determinism: a variable-free expression evaluates to the same outcome
/// against any two environments — in particular, twice against fresh ones —
/// and leaves each environment unchanged.
pub proof fn lemma_eval_env_independent(
    n: NodeV,
    env1: Map<Seq<char>, u64>,
    env2: Map<Seq<char>, u64>,
)
    requires
        closed_node(n),
    ensures
        spec_eval(n, env1).0 == spec_eval(n, env2).0,
        spec_eval(n, env1).1 == env1,
        spec_eval(n, env2).1 == env2,
    decreases n,
{
    match n {
        NodeV::BinaryOp { op, left, right } => {
            lemma_eval_env_independent(*left, env1, env2);
            lemma_eval_env_independent(*right, env1, env2);
        },
        _ => {},
    }
}

/// Determinism over a whole line: a line that parses to a variable-free
/// expression yields the same outcome against any two environments, and
/// leaves each unchanged.
pub proof fn lemma_run_line_deterministic(
    s: Seq<char>,
    env1: Map<Seq<char>, u64>,
    env2: Map<Seq<char>, u64>,
)
    requires
        spec_tokenize(s) matches Ok(ts) && spec_parse(ts) matches Ok((n, rest))
            && closed_node(n),
    ensures
        spec_run_line(s, env1).0 == spec_run_line(s, env2).0,
        spec_run_line(s, env1).1 == env1,
        spec_run_line(s, env2).1 == env2,
{
    let ts = spec_tokenize(s)->Ok_0;
    let (n, rest) = spec_parse(ts)->Ok_0;
    lemma_eval_env_independent(n, env1, env2);
}

/// A pure expression never changes the environment, whether it succeeds or
/// fails.
pub proof fn lemma_expr_preserves_env(n: NodeV, env: Map<Seq<char>, u64>)
    requires
        expr_node(n),
    ensures
        spec_eval(n, env).1 == env,
    decreases n,
{
    match n {
        NodeV::BinaryOp { op, left, right } => {
            lemma_expr_preserves_env(*left, env);
            lemma_expr_preserves_env(*right, spec_eval(*left, env).1);
        },
        _ => {},
    }
}

/// Assignment round trip: after `let name = e` succeeds, the statement
/// returned no value, and reading `name` yields exactly the value that `e`
/// evaluated to, with no further change to the environment.
pub proof fn lemma_assign_then_read(name: Seq<char>, e: NodeV, env: Map<Seq<char>, u64>)
    requires
        spec_eval(NodeV::Assignment { name, value: Box::new(e) }, env).0 is Ok,
    ensures
        ({
            let (r1, env1) = spec_eval(NodeV::Assignment { name, value: Box::new(e) }, env);
            let (r2, env2) = spec_eval(NodeV::Identifier { name }, env1);
            r1 == Ok::<Option<u64>, ErrorV>(None) && r2 == Ok::<Option<u64>, ErrorV>(
                Some(or_zero(spec_eval(e, env).0->Ok_0)),
            ) && env2 == env1
        }),
{
}

/// Re-assignment: after `let name = e1` and then `let name = e2`, the
/// environment holds for `name` exactly what `e2` evaluated to — the last
/// write wins and nothing accumulates.
pub proof fn lemma_reassign_last_wins(
    name: Seq<char>,
    e1: NodeV,
    e2: NodeV,
    env: Map<Seq<char>, u64>,
)
    requires
        expr_node(e1),
        expr_node(e2),
        spec_eval(NodeV::Assignment { name, value: Box::new(e1) }, env).0 is Ok,
        spec_eval(
            NodeV::Assignment { name, value: Box::new(e2) },
            spec_eval(NodeV::Assignment { name, value: Box::new(e1) }, env).1,
        ).0 is Ok,
    ensures
        ({
            let env1 = spec_eval(NodeV::Assignment { name, value: Box::new(e1) }, env).1;
            let env2 = spec_eval(NodeV::Assignment { name, value: Box::new(e2) }, env1).1;
            env2 == env.insert(name, or_zero(spec_eval(e2, env1).0->Ok_0))
        }),
{
    let env1 = spec_eval(NodeV::Assignment { name, value: Box::new(e1) }, env).1;
    lemma_expr_preserves_env(e1, env);
    lemma_expr_preserves_env(e2, env1);
    let v1 = or_zero(spec_eval(e1, env).0->Ok_0);
    let v2 = or_zero(spec_eval(e2, env1).0->Ok_0);
    assert(env.insert(name, v1).insert(name, v2) =~= env.insert(name, v2));
}

/// A failed statement leaves the environment untouched: no partial
/// assignment is ever visible.
pub proof fn lemma_error_preserves_env(n: NodeV, env: Map<Seq<char>, u64>)
    requires
        statement_node(n),
        spec_eval(n, env).0 is Err,
    ensures
        spec_eval(n, env).1 == env,
{
    match n {
        NodeV::Assignment { name, value } => {
            lemma_expr_preserves_env(*value, env);
        },
        _ => {
            lemma_expr_preserves_env(n, env);
        },
    }
}

/// Batch-mode safety: a line that fails — at tokenizing, parsing or
/// evaluation — leaves the environment exactly as it was, so one malformed
/// line never discards previously accumulated bindings.
pub proof fn lemma_failed_line_preserves_env(s: Seq<char>, env: Map<Seq<char>, u64>)
    requires
        spec_run_line(s, env).0 is Err,
    ensures
        spec_run_line(s, env).1 == env,
{
    match spec_tokenize(s) {
        Ok(ts) => {
            crate::parser::lemma_parse_statement_shape(ts);
            match spec_parse(ts) {
                Ok((n, rest)) => {
                    lemma_error_preserves_env(n, env);
                },
                Err(e) => {},
            }
        },
        Err(e) => {},
    }
}

/// A tree of well-formed literals never reports a number-format failure,
/// whatever the environment holds.
pub proof fn lemma_eval_no_number_format(n: NodeV, env: Map<Seq<char>, u64>)
    requires
        crate::parser::wf_literals(n),
    ensures
        !(spec_eval(n, env).0 matches Err(ErrorV::NumberFormatError { .. })),
    decreases n,
{
    match n {
        NodeV::Assignment { name, value } => {
            lemma_eval_no_number_format(*value, env);
        },
        NodeV::BinaryOp { op, left, right } => {
            lemma_eval_no_number_format(*left, env);
            lemma_eval_no_number_format(*right, spec_eval(*left, env).1);
        },
        _ => {},
    }
}

/// A line that tokenizes and parses never reports a number-format failure:
/// the evaluator's defensive check is unreachable through the pipeline.
pub proof fn lemma_parsed_line_no_number_format(s: Seq<char>, env: Map<Seq<char>, u64>)
    requires
        spec_tokenize(s) matches Ok(ts) && spec_parse(ts) is Ok,
    ensures
        !(spec_run_line(s, env).0 matches Err(ErrorV::NumberFormatError { .. })),
{
    let ts = spec_tokenize(s)->Ok_0;
    crate::token::lemma_tokenize_wf(s);
    crate::parser::lemma_parse_wf(ts);
    let (n, rest) = spec_parse(ts)->Ok_0;
    lemma_eval_no_number_format(n, env);
}

} // verus!
