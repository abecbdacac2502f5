//! The parser: recursive descent over a token stack, building an abstract
//! syntax tree under the usual operator precedence.
//!
//! The grammar, lowest precedence first:
//! ```text
//! statement  := assignment | sum
//! assignment := LET IDENTIFIER EQUAL sum
//! sum        := mul ( (PLUS|MINUS) mul )*
//! mul        := priority ( (ASTERISK|SLASH|PERCENT) priority )*
//! priority   := NUMBER | IDENTIFIER | PARENLEFT sum PARENRIGHT
//! ```
//! All binary levels are left-associative.  The specification functions below
//! carry a fuel argument only to bound their recursion; one more than the
//! number of tokens is always enough (`lemma_sum_fuel` and its companions),
//! and [`spec_parse`] is stated with exactly that fuel.
use vstd::prelude::*;
use crate::token::{Token, TokenType, TokenV, views_of, wf_token, wf_tokens};
use crate::CalcError;
use crate::ErrorV;

verus! {

/// The operator of a binary node, named for the symbol that produces it.
#[derive(Clone, Copy, Debug, PartialEq, Eq, Structural)]
pub enum OpType {
    Plus,
    Minus,
    Asterisk,
    Slash,
    Percent,
}

/// One node of the abstract syntax tree.  A tree is created by the parser
/// from one line's tokens and consumed by the evaluator.
#[derive(Debug, PartialEq, Eq)]
pub enum Node {
    /// A numeric literal, carrying its token text.
    NumberLit { text: String },
    /// A variable reference.
    Identifier { name: String },
    /// `let name = value`.
    Assignment { name: String, value: Box<Node> },
    /// A binary operation; both operands are owned by this node.
    BinaryOp { op: OpType, left: Box<Node>, right: Box<Node> },
}

/// The mathematical view of a [`Node`]: the same tree with text as
/// character sequences.
pub enum NodeV {
    NumberLit { text: Seq<char> },
    Identifier { name: Seq<char> },
    Assignment { name: Seq<char>, value: Box<NodeV> },
    BinaryOp { op: OpType, left: Box<NodeV>, right: Box<NodeV> },
}

/// The view of a [`Node`], case by case.
pub open spec fn node_view(n: Node) -> NodeV
    decreases n,
{
    match n {
        Node::NumberLit { text } => NodeV::NumberLit { text: text@ },
        Node::Identifier { name } => NodeV::Identifier { name: name@ },
        Node::Assignment { name, value } => NodeV::Assignment {
            name: name@,
            value: Box::new(node_view(*value)),
        },
        Node::BinaryOp { op, left, right } => NodeV::BinaryOp {
            op,
            left: Box::new(node_view(*left)),
            right: Box::new(node_view(*right)),
        },
    }
}

impl View for Node {
    type V = NodeV;

    open spec fn view(&self) -> NodeV {
        node_view(*self)
    }
}

/// A LIFO view over a token sequence: the token that appears first in the
/// source is at the tail of `tokens`, ready to be popped first.  The view is
/// the remaining tokens in source order.
pub struct TokenStack {
    pub tokens: Vec<Token>,
}

impl View for TokenStack {
    type V = Seq<TokenV>;

    open spec fn view(&self) -> Seq<TokenV> {
        views_of(self.tokens@).reverse()
    }
}

impl TokenStack {
    /// Builds the stack for a token sequence given in source order.
    pub fn new(_tokens: Vec<Token>) -> (r: TokenStack)
        ensures
            r@ == views_of(_tokens@),
    {
        let ghost orig = _tokens@;
        let mut source = _tokens;
        let mut rev: Vec<Token> = Vec::new();
        proof {
            assert(orig.skip(orig.len() as int) =~= Seq::<Token>::empty());
            assert(orig.skip(orig.len() as int).reverse() =~= Seq::<Token>::empty());
            assert(orig.take(orig.len() as int) =~= orig);
        }
        loop
            invariant
                source@.len() <= orig.len(),
                rev@ == orig.skip(source@.len() as int).reverse(),
                source@ == orig.take(source@.len() as int),
            ensures
                rev@ == orig.reverse(),
            decreases source@.len(),
        {
            if source.len() == 0 {
                proof {
                    assert(rev@ =~= orig.reverse());
                }
                break;
            }
            let ghost len_before = source@.len() as int;
            let t = source.pop().unwrap();
            rev.push(t);
            proof {
                assert(t@ == orig[len_before - 1]@);
                assert(source@ =~= orig.take(source@.len() as int));
                assert(rev@ =~= orig.skip(source@.len() as int).reverse());
            }
        }
        let r = TokenStack { tokens: rev };
        proof {
            assert(r@ =~= views_of(orig));
        }
        r
    }

    /// True when no tokens remain.
    pub fn is_empty(&self) -> (b: bool)
        ensures
            b == (self@.len() == 0),
    {
        self.tokens.len() == 0
    }

    /// The kind of the next token, without removing it.
    pub fn peek_type(&self) -> (t: TokenType)
        requires
            self@.len() > 0,
        ensures
            t == self@[0].t_type,
    {
        let t = self.tokens[self.tokens.len() - 1].t_type;
        proof {
            assert(self@[0] == self.tokens@[self.tokens@.len() - 1]@);
        }
        t
    }

    /// Removes and returns the next token.
    pub fn pop(&mut self) -> (t: Token)
        requires
            old(self)@.len() > 0,
        ensures
            t@ == old(self)@[0],
            final(self)@ == old(self)@.skip(1),
    {
        let t = self.tokens.pop().unwrap();
        proof {
            assert(t@ == old(self)@[0]);
            assert(self@ =~= old(self)@.skip(1));
        }
        t
    }

    /// Re-inserts a token: it becomes the next one to be popped.  Used to
    /// undo a speculative pop.
    pub fn push(&mut self, t: Token)
        ensures
            final(self)@ == seq![t@] + old(self)@,
    {
        let ghost tv = t@;
        self.tokens.push(t);
        proof {
            assert(self@ =~= seq![tv] + old(self)@);
        }
    }
}

/// The operator of a sum-level token, if it is one.
pub open spec fn sum_op(k: TokenType) -> Option<OpType> {
    if k == TokenType::Plus {
        Some(OpType::Plus)
    } else if k == TokenType::Minus {
        Some(OpType::Minus)
    } else {
        None
    }
}

/// The operator of a product-level token, if it is one.
pub open spec fn mul_op(k: TokenType) -> Option<OpType> {
    if k == TokenType::Asterisk {
        Some(OpType::Asterisk)
    } else if k == TokenType::Slash {
        Some(OpType::Slash)
    } else if k == TokenType::Percent {
        Some(OpType::Percent)
    } else {
        None
    }
}

/// One leaf: a number or an identifier, and the remaining tokens.
pub open spec fn spec_leaf(ts: Seq<TokenV>) -> Result<(NodeV, Seq<TokenV>), ErrorV> {
    if ts.len() == 0 {
        Err(ErrorV::ParseError { expected: TokenType::Number, found: None })
    } else if ts[0].t_type == TokenType::Number {
        Ok((NodeV::NumberLit { text: ts[0].value }, ts.skip(1)))
    } else if ts[0].t_type == TokenType::Identifier {
        Ok((NodeV::Identifier { name: ts[0].value }, ts.skip(1)))
    } else {
        Err(ErrorV::ParseError { expected: TokenType::Number, found: Some(ts[0].t_type) })
    }
}

/// One `priority` production: a parenthesized sum, or a leaf.  Returns the
/// node and the remaining tokens.
pub open spec fn spec_primary(ts: Seq<TokenV>, fuel: nat) -> Result<(NodeV, Seq<TokenV>), ErrorV>
    decreases fuel, 0nat,
{
    if fuel == 0 {
        Err(ErrorV::EmptyInputError)
    } else if ts.len() == 0 {
        Err(ErrorV::ParseError { expected: TokenType::Number, found: None })
    } else if ts[0].t_type == TokenType::ParenthesisLeft {
        match spec_sum(ts.skip(1), (fuel - 1) as nat) {
            Ok((n, rest)) => {
                if rest.len() == 0 {
                    Err(ErrorV::ParseError { expected: TokenType::ParenthesisRight, found: None })
                } else if rest[0].t_type == TokenType::ParenthesisRight {
                    Ok((n, rest.skip(1)))
                } else {
                    Err(ErrorV::ParseError {
                        expected: TokenType::ParenthesisRight,
                        found: Some(rest[0].t_type),
                    })
                }
            },
            Err(e) => Err(e),
        }
    } else {
        spec_leaf(ts)
    }
}

/// The iterated tail of a `mul` production: while the next token is a
/// product-level operator, combine `acc` with the next `priority`,
/// left-associatively.
pub open spec fn spec_mul_tail(acc: NodeV, ts: Seq<TokenV>, fuel: nat) -> Result<
    (NodeV, Seq<TokenV>),
    ErrorV,
>
    decreases fuel, 1nat,
{
    if fuel == 0 {
        Err(ErrorV::EmptyInputError)
    } else if ts.len() == 0 {
        Ok((acc, ts))
    } else {
        match mul_op(ts[0].t_type) {
            Some(op) => match spec_primary(ts.skip(1), fuel) {
                Ok((rhs, rest)) => spec_mul_tail(
                    NodeV::BinaryOp { op, left: Box::new(acc), right: Box::new(rhs) },
                    rest,
                    (fuel - 1) as nat,
                ),
                Err(e) => Err(e),
            },
            None => Ok((acc, ts)),
        }
    }
}

/// One `mul` production: a `priority`, then its iterated tail.
pub open spec fn spec_mul(ts: Seq<TokenV>, fuel: nat) -> Result<(NodeV, Seq<TokenV>), ErrorV>
    decreases fuel, 2nat,
{
    match spec_primary(ts, fuel) {
        Ok((n, rest)) => spec_mul_tail(n, rest, fuel),
        Err(e) => Err(e),
    }
}

/// The iterated tail of a `sum` production: while the next token is a
/// sum-level operator, combine `acc` with the next `mul`,
/// left-associatively.
pub open spec fn spec_sum_tail(acc: NodeV, ts: Seq<TokenV>, fuel: nat) -> Result<
    (NodeV, Seq<TokenV>),
    ErrorV,
>
    decreases fuel, 3nat,
{
    if fuel == 0 {
        Err(ErrorV::EmptyInputError)
    } else if ts.len() == 0 {
        Ok((acc, ts))
    } else {
        match sum_op(ts[0].t_type) {
            Some(op) => match spec_mul(ts.skip(1), fuel) {
                Ok((rhs, rest)) => spec_sum_tail(
                    NodeV::BinaryOp { op, left: Box::new(acc), right: Box::new(rhs) },
                    rest,
                    (fuel - 1) as nat,
                ),
                Err(e) => Err(e),
            },
            None => Ok((acc, ts)),
        }
    }
}

/// One `sum` production: a `mul`, then its iterated tail.
pub open spec fn spec_sum(ts: Seq<TokenV>, fuel: nat) -> Result<(NodeV, Seq<TokenV>), ErrorV>
    decreases fuel, 4nat,
{
    match spec_mul(ts, fuel) {
        Ok((n, rest)) => spec_sum_tail(n, rest, fuel),
        Err(e) => Err(e),
    }
}

/// One statement: an assignment if the first token is `let`, else a sum.
/// Zero tokens are an [`ErrorV::EmptyInputError`].
pub open spec fn spec_statement(ts: Seq<TokenV>, fuel: nat) -> Result<
    (NodeV, Seq<TokenV>),
    ErrorV,
>
    decreases fuel, 5nat,
{
    if fuel == 0 {
        Err(ErrorV::EmptyInputError)
    } else if ts.len() == 0 {
        Err(ErrorV::EmptyInputError)
    } else if ts[0].t_type == TokenType::Let {
        if ts.len() == 1 {
            Err(ErrorV::ParseError { expected: TokenType::Identifier, found: None })
        } else if ts[1].t_type != TokenType::Identifier {
            Err(ErrorV::ParseError {
                expected: TokenType::Identifier,
                found: Some(ts[1].t_type),
            })
        } else if ts.len() == 2 {
            Err(ErrorV::ParseError { expected: TokenType::Equal, found: None })
        } else if ts[2].t_type != TokenType::Equal {
            Err(ErrorV::ParseError { expected: TokenType::Equal, found: Some(ts[2].t_type) })
        } else {
            match spec_sum(ts.skip(3), fuel) {
                Ok((rhs, rest)) => Ok(
                    (NodeV::Assignment { name: ts[1].value, value: Box::new(rhs) }, rest),
                ),
                Err(e) => Err(e),
            }
        }
    } else {
        spec_sum(ts, fuel)
    }
}

/// What parsing `ts` yields: one statement and the tokens it leaves
/// unconsumed, or the first grammar mismatch.
pub open spec fn spec_parse(ts: Seq<TokenV>) -> Result<(NodeV, Seq<TokenV>), ErrorV> {
    spec_statement(ts, ts.len() + 1)
}

/// A successful `priority` consumes at least one token.
pub proof fn lemma_primary_consumes(ts: Seq<TokenV>, fuel: nat)
    ensures
        spec_primary(ts, fuel) matches Ok((n, rest)) ==> rest.len() < ts.len(),
    decreases fuel, 0nat,
{
    if fuel > 0 && ts.len() > 0 && ts[0].t_type == TokenType::ParenthesisLeft {
        lemma_sum_consumes(ts.skip(1), (fuel - 1) as nat);
    }
}

/// A `mul` tail never grows the token sequence.
pub proof fn lemma_mul_tail_consumes(acc: NodeV, ts: Seq<TokenV>, fuel: nat)
    ensures
        spec_mul_tail(acc, ts, fuel) matches Ok((n, rest)) ==> rest.len() <= ts.len(),
    decreases fuel, 1nat,
{
    if fuel > 0 && ts.len() > 0 && mul_op(ts[0].t_type) is Some {
        let op = mul_op(ts[0].t_type)->0;
        lemma_primary_consumes(ts.skip(1), fuel);
        match spec_primary(ts.skip(1), fuel) {
            Ok((rhs, rest)) => {
                lemma_mul_tail_consumes(
                    NodeV::BinaryOp { op, left: Box::new(acc), right: Box::new(rhs) },
                    rest,
                    (fuel - 1) as nat,
                );
            },
            Err(e) => {},
        }
    }
}

/// A successful `mul` consumes at least one token.
pub proof fn lemma_mul_consumes(ts: Seq<TokenV>, fuel: nat)
    ensures
        spec_mul(ts, fuel) matches Ok((n, rest)) ==> rest.len() < ts.len(),
    decreases fuel, 2nat,
{
    lemma_primary_consumes(ts, fuel);
    match spec_primary(ts, fuel) {
        Ok((n, rest)) => {
            lemma_mul_tail_consumes(n, rest, fuel);
        },
        Err(e) => {},
    }
}

/// A `sum` tail never grows the token sequence.
pub proof fn lemma_sum_tail_consumes(acc: NodeV, ts: Seq<TokenV>, fuel: nat)
    ensures
        spec_sum_tail(acc, ts, fuel) matches Ok((n, rest)) ==> rest.len() <= ts.len(),
    decreases fuel, 3nat,
{
    if fuel > 0 && ts.len() > 0 && sum_op(ts[0].t_type) is Some {
        let op = sum_op(ts[0].t_type)->0;
        lemma_mul_consumes(ts.skip(1), fuel);
        match spec_mul(ts.skip(1), fuel) {
            Ok((rhs, rest)) => {
                lemma_sum_tail_consumes(
                    NodeV::BinaryOp { op, left: Box::new(acc), right: Box::new(rhs) },
                    rest,
                    (fuel - 1) as nat,
                );
            },
            Err(e) => {},
        }
    }
}

/// A successful `sum` consumes at least one token.
pub proof fn lemma_sum_consumes(ts: Seq<TokenV>, fuel: nat)
    ensures
        spec_sum(ts, fuel) matches Ok((n, rest)) ==> rest.len() < ts.len(),
    decreases fuel, 4nat,
{
    lemma_mul_consumes(ts, fuel);
    match spec_mul(ts, fuel) {
        Ok((n, rest)) => {
            lemma_sum_tail_consumes(n, rest, fuel);
        },
        Err(e) => {},
    }
}

/// Any fuel of at least one more than the number of tokens gives `priority`
/// the same result.
pub proof fn lemma_primary_fuel(ts: Seq<TokenV>, fuel: nat)
    requires
        fuel >= ts.len() + 1,
    ensures
        spec_primary(ts, fuel) == spec_primary(ts, (ts.len() + 1) as nat),
    decreases fuel, 0nat,
{
    let c = (ts.len() + 1) as nat;
    if ts.len() > 0 && ts[0].t_type == TokenType::ParenthesisLeft {
        let inner = ts.skip(1);
        lemma_sum_fuel(inner, (fuel - 1) as nat);
        lemma_sum_fuel(inner, (c - 1) as nat);
    }
}

/// Any fuel of at least one more than the number of tokens gives a `mul`
/// tail the same result.
pub proof fn lemma_mul_tail_fuel(acc: NodeV, ts: Seq<TokenV>, fuel: nat)
    requires
        fuel >= ts.len() + 1,
    ensures
        spec_mul_tail(acc, ts, fuel) == spec_mul_tail(acc, ts, (ts.len() + 1) as nat),
    decreases fuel, 1nat,
{
    let c = (ts.len() + 1) as nat;
    if ts.len() > 0 && mul_op(ts[0].t_type) is Some {
        let op = mul_op(ts[0].t_type)->0;
        let inner = ts.skip(1);
        lemma_primary_fuel(inner, fuel);
        lemma_primary_fuel(inner, c);
        lemma_primary_consumes(inner, fuel);
        match spec_primary(inner, fuel) {
            Ok((rhs, rest)) => {
                let acc2 = NodeV::BinaryOp { op, left: Box::new(acc), right: Box::new(rhs) };
                lemma_mul_tail_fuel(acc2, rest, (fuel - 1) as nat);
                lemma_mul_tail_fuel(acc2, rest, (c - 1) as nat);
            },
            Err(e) => {},
        }
    }
}

/// Any fuel of at least one more than the number of tokens gives a `mul`
/// the same result.
pub proof fn lemma_mul_fuel(ts: Seq<TokenV>, fuel: nat)
    requires
        fuel >= ts.len() + 1,
    ensures
        spec_mul(ts, fuel) == spec_mul(ts, (ts.len() + 1) as nat),
    decreases fuel, 2nat,
{
    let c = (ts.len() + 1) as nat;
    lemma_primary_fuel(ts, fuel);
    lemma_primary_consumes(ts, c);
    match spec_primary(ts, c) {
        Ok((n, rest)) => {
            lemma_mul_tail_fuel(n, rest, fuel);
            lemma_mul_tail_fuel(n, rest, c);
        },
        Err(e) => {},
    }
}

/// Any fuel of at least one more than the number of tokens gives a `sum`
/// tail the same result.
pub proof fn lemma_sum_tail_fuel(acc: NodeV, ts: Seq<TokenV>, fuel: nat)
    requires
        fuel >= ts.len() + 1,
    ensures
        spec_sum_tail(acc, ts, fuel) == spec_sum_tail(acc, ts, (ts.len() + 1) as nat),
    decreases fuel, 3nat,
{
    let c = (ts.len() + 1) as nat;
    if ts.len() > 0 && sum_op(ts[0].t_type) is Some {
        let op = sum_op(ts[0].t_type)->0;
        let inner = ts.skip(1);
        lemma_mul_fuel(inner, fuel);
        lemma_mul_fuel(inner, c);
        lemma_mul_consumes(inner, fuel);
        match spec_mul(inner, fuel) {
            Ok((rhs, rest)) => {
                let acc2 = NodeV::BinaryOp { op, left: Box::new(acc), right: Box::new(rhs) };
                lemma_sum_tail_fuel(acc2, rest, (fuel - 1) as nat);
                lemma_sum_tail_fuel(acc2, rest, (c - 1) as nat);
            },
            Err(e) => {},
        }
    }
}

/// Any fuel of at least one more than the number of tokens gives a `sum`
/// the same result.
pub proof fn lemma_sum_fuel(ts: Seq<TokenV>, fuel: nat)
    requires
        fuel >= ts.len() + 1,
    ensures
        spec_sum(ts, fuel) == spec_sum(ts, (ts.len() + 1) as nat),
    decreases fuel, 4nat,
{
    let c = (ts.len() + 1) as nat;
    lemma_mul_fuel(ts, fuel);
    lemma_mul_consumes(ts, c);
    match spec_mul(ts, c) {
        Ok((n, rest)) => {
            lemma_sum_tail_fuel(n, rest, fuel);
            lemma_sum_tail_fuel(n, rest, c);
        },
        Err(e) => {},
    }
}

/// Pops one leaf, as [`spec_leaf`] says: a number token becomes a
/// [`Node::NumberLit`], an identifier a [`Node::Identifier`]; any other
/// token is a grammar mismatch and is pushed back.
pub fn number(token_stack: &mut TokenStack) -> (r: Result<Node, CalcError>)
    ensures
        match spec_leaf(old(token_stack)@) {
            Ok((n, rest)) => r matches Ok(node) && node@ == n && final(token_stack)@ == rest,
            Err(e) => r matches Err(err) && err@ == e && final(token_stack)@ == old(
                token_stack,
            )@,
        },
{
    if token_stack.is_empty() {
        return Err(CalcError::ParseError { expected: TokenType::Number, found: None });
    }
    let t = token_stack.pop();
    match t.t_type {
        TokenType::Number => Ok(Node::NumberLit { text: t.value }),
        TokenType::Identifier => Ok(Node::Identifier { name: t.value }),
        _ => {
            let kind = t.t_type;
            token_stack.push(t);
            proof {
                assert(token_stack@ =~= old(token_stack)@);
            }
            Err(CalcError::ParseError { expected: TokenType::Number, found: Some(kind) })
        },
    }
}

/// One `priority` production, as [`spec_primary`] says: a parenthesized sum,
/// or a leaf.
pub fn priority(token_stack: &mut TokenStack) -> (r: Result<Node, CalcError>)
    ensures
        match spec_primary(old(token_stack)@, old(token_stack)@.len() + 1) {
            Ok((n, rest)) => r matches Ok(node) && node@ == n && final(token_stack)@ == rest,
            Err(e) => r matches Err(err) && err@ == e,
        },
    decreases old(token_stack)@.len(), 0nat,
{
    let ghost ts = token_stack@;
    let ghost fuel = (ts.len() + 1) as nat;
    if token_stack.is_empty() {
        return Err(CalcError::ParseError { expected: TokenType::Number, found: None });
    }
    if token_stack.peek_type() == TokenType::ParenthesisLeft {
        let _paren = token_stack.pop();
        proof {
            assert(token_stack@ == ts.skip(1));
            assert((fuel - 1) as nat == ts.skip(1).len() + 1);
        }
        let inner = match sum(token_stack) {
            Ok(n) => n,
            Err(e) => {
                return Err(e);
            },
        };
        if token_stack.is_empty() {
            return Err(
                CalcError::ParseError { expected: TokenType::ParenthesisRight, found: None },
            );
        }
        let closing = token_stack.pop();
        if closing.t_type == TokenType::ParenthesisRight {
            Ok(inner)
        } else {
            Err(
                CalcError::ParseError {
                    expected: TokenType::ParenthesisRight,
                    found: Some(closing.t_type),
                },
            )
        }
    } else {
        number(token_stack)
    }
}

/// One `mul` production, as [`spec_mul`] says: a `priority`, then, while the
/// next token is `*`, `/` or `%`, further `priority` terms combined
/// left-associatively.
pub fn mul(token_stack: &mut TokenStack) -> (r: Result<Node, CalcError>)
    ensures
        match spec_mul(old(token_stack)@, old(token_stack)@.len() + 1) {
            Ok((n, rest)) => r matches Ok(node) && node@ == n && final(token_stack)@ == rest,
            Err(e) => r matches Err(err) && err@ == e,
        },
    decreases old(token_stack)@.len(), 1nat,
{
    let ghost ts0 = token_stack@;
    let ghost fuel0 = (ts0.len() + 1) as nat;
    let first = match priority(token_stack) {
        Ok(n) => n,
        Err(e) => {
            return Err(e);
        },
    };
    proof {
        lemma_primary_consumes(ts0, fuel0);
        lemma_mul_tail_fuel(first@, token_stack@, fuel0);
    }
    let mut acc = first;
    loop
        invariant
            ts0 == old(token_stack)@,
            fuel0 == ts0.len() + 1,
            token_stack@.len() < ts0.len(),
            spec_mul_tail(acc@, token_stack@, (token_stack@.len() + 1) as nat) == spec_mul(
                ts0,
                fuel0,
            ),
        ensures
            spec_mul(ts0, fuel0) == Ok::<(NodeV, Seq<TokenV>), ErrorV>((acc@, token_stack@)),
        decreases token_stack@.len(),
    {
        let ghost cur = token_stack@;
        let ghost cfuel = (cur.len() + 1) as nat;
        if token_stack.is_empty() {
            break;
        }
        let k = token_stack.peek_type();
        if !(k == TokenType::Asterisk || k == TokenType::Slash || k == TokenType::Percent) {
            proof {
                assert(mul_op(cur[0].t_type) is None);
            }
            break;
        }
        let op = if k == TokenType::Asterisk {
            OpType::Asterisk
        } else if k == TokenType::Slash {
            OpType::Slash
        } else {
            OpType::Percent
        };
        let _op_tok = token_stack.pop();
        proof {
            assert(mul_op(cur[0].t_type) == Some(op));
            assert(token_stack@ == cur.skip(1));
            lemma_primary_fuel(cur.skip(1), cfuel);
        }
        let rhs = match priority(token_stack) {
            Ok(n) => n,
            Err(e) => {
                return Err(e);
            },
        };
        proof {
            lemma_primary_consumes(cur.skip(1), (cur.skip(1).len() + 1) as nat);
        }
        acc = Node::BinaryOp { op, left: Box::new(acc), right: Box::new(rhs) };
        proof {
            lemma_mul_tail_fuel(acc@, token_stack@, (cfuel - 1) as nat);
        }
    }
    Ok(acc)
}

/// One `sum` production, as [`spec_sum`] says: a `mul`, then, while the next
/// token is `+` or `-`, further `mul` terms combined left-associatively.
pub fn sum(token_stack: &mut TokenStack) -> (r: Result<Node, CalcError>)
    ensures
        match spec_sum(old(token_stack)@, old(token_stack)@.len() + 1) {
            Ok((n, rest)) => r matches Ok(node) && node@ == n && final(token_stack)@ == rest,
            Err(e) => r matches Err(err) && err@ == e,
        },
    decreases old(token_stack)@.len(), 2nat,
{
    let ghost ts0 = token_stack@;
    let ghost fuel0 = (ts0.len() + 1) as nat;
    let first = match crate::parser::mul(token_stack) {
        Ok(n) => n,
        Err(e) => {
            return Err(e);
        },
    };
    proof {
        lemma_mul_consumes(ts0, fuel0);
        lemma_sum_tail_fuel(first@, token_stack@, fuel0);
    }
    let mut acc = first;
    loop
        invariant
            ts0 == old(token_stack)@,
            fuel0 == ts0.len() + 1,
            token_stack@.len() < ts0.len(),
            spec_sum_tail(acc@, token_stack@, (token_stack@.len() + 1) as nat) == spec_sum(
                ts0,
                fuel0,
            ),
        ensures
            spec_sum(ts0, fuel0) == Ok::<(NodeV, Seq<TokenV>), ErrorV>((acc@, token_stack@)),
        decreases token_stack@.len(),
    {
        let ghost cur = token_stack@;
        let ghost cfuel = (cur.len() + 1) as nat;
        if token_stack.is_empty() {
            break;
        }
        let k = token_stack.peek_type();
        if !(k == TokenType::Plus || k == TokenType::Minus) {
            proof {
                assert(sum_op(cur[0].t_type) is None);
            }
            break;
        }
        let op = if k == TokenType::Plus {
            OpType::Plus
        } else {
            OpType::Minus
        };
        let _op_tok = token_stack.pop();
        proof {
            assert(sum_op(cur[0].t_type) == Some(op));
            assert(token_stack@ == cur.skip(1));
            lemma_mul_fuel(cur.skip(1), cfuel);
        }
        let rhs = match crate::parser::mul(token_stack) {
            Ok(n) => n,
            Err(e) => {
                return Err(e);
            },
        };
        proof {
            lemma_mul_consumes(cur.skip(1), (cur.skip(1).len() + 1) as nat);
        }
        acc = Node::BinaryOp { op, left: Box::new(acc), right: Box::new(rhs) };
        proof {
            lemma_sum_tail_fuel(acc@, token_stack@, (cfuel - 1) as nat);
        }
    }
    Ok(acc)
}

/// Parses one statement, as [`spec_parse`] says: an assignment if the first
/// token is `let`, otherwise a sum.  Zero tokens are an
/// [`CalcError::EmptyInputError`]; tokens the grammar does not reach stay on
/// the stack.
pub fn parse(token_stack: &mut TokenStack) -> (r: Result<Node, CalcError>)
    ensures
        match spec_parse(old(token_stack)@) {
            Ok((n, rest)) => r matches Ok(node) && node@ == n && final(token_stack)@ == rest,
            Err(e) => r matches Err(err) && err@ == e,
        },
{
    let ghost ts = token_stack@;
    let ghost fuel = (ts.len() + 1) as nat;
    if token_stack.is_empty() {
        return Err(CalcError::EmptyInputError);
    }
    if token_stack.peek_type() == TokenType::Let {
        let _let_tok = token_stack.pop();
        if token_stack.is_empty() {
            return Err(CalcError::ParseError { expected: TokenType::Identifier, found: None });
        }
        let name_tok = token_stack.pop();
        proof {
            assert(name_tok@ == ts[1]);
        }
        if !(name_tok.t_type == TokenType::Identifier) {
            return Err(
                CalcError::ParseError {
                    expected: TokenType::Identifier,
                    found: Some(name_tok.t_type),
                },
            );
        }
        if token_stack.is_empty() {
            return Err(CalcError::ParseError { expected: TokenType::Equal, found: None });
        }
        let eq_tok = token_stack.pop();
        proof {
            assert(eq_tok@ == ts[2]);
        }
        if !(eq_tok.t_type == TokenType::Equal) {
            return Err(
                CalcError::ParseError { expected: TokenType::Equal, found: Some(eq_tok.t_type) },
            );
        }
        proof {
            assert(token_stack@ =~= ts.skip(3));
            lemma_sum_fuel(ts.skip(3), fuel);
        }
        let rhs = match sum(token_stack) {
            Ok(n) => n,
            Err(e) => {
                return Err(e);
            },
        };
        Ok(Node::Assignment { name: name_tok.value, value: Box::new(rhs) })
    } else {
        sum(token_stack)
    }
}

/// `n` holds no assignment anywhere: it is a pure expression.
pub open spec fn expr_node(n: NodeV) -> bool
    decreases n,
{
    match n {
        NodeV::NumberLit { .. } => true,
        NodeV::Identifier { .. } => true,
        NodeV::Assignment { .. } => false,
        NodeV::BinaryOp { op, left, right } => expr_node(*left) && expr_node(*right),
    }
}

/// `n` holds neither a variable reference nor an assignment: its value
/// cannot depend on the environment.
pub open spec fn closed_node(n: NodeV) -> bool
    decreases n,
{
    match n {
        NodeV::NumberLit { .. } => true,
        NodeV::Identifier { .. } => false,
        NodeV::Assignment { .. } => false,
        NodeV::BinaryOp { op, left, right } => closed_node(*left) && closed_node(*right),
    }
}

/// `n` is one statement: an assignment whose right-hand side is a pure
/// expression, or a pure expression.
pub open spec fn statement_node(n: NodeV) -> bool {
    match n {
        NodeV::Assignment { name, value } => expr_node(*value),
        _ => expr_node(n),
    }
}

/// A `priority` yields a pure expression.
pub proof fn lemma_primary_expr(ts: Seq<TokenV>, fuel: nat)
    ensures
        spec_primary(ts, fuel) matches Ok((n, rest)) ==> expr_node(n),
    decreases fuel, 0nat,
{
    if fuel > 0 && ts.len() > 0 && ts[0].t_type == TokenType::ParenthesisLeft {
        lemma_sum_expr(ts.skip(1), (fuel - 1) as nat);
    }
}

/// A `mul` tail yields a pure expression when its accumulator is one.
pub proof fn lemma_mul_tail_expr(acc: NodeV, ts: Seq<TokenV>, fuel: nat)
    requires
        expr_node(acc),
    ensures
        spec_mul_tail(acc, ts, fuel) matches Ok((n, rest)) ==> expr_node(n),
    decreases fuel, 1nat,
{
    if fuel > 0 && ts.len() > 0 && mul_op(ts[0].t_type) is Some {
        let op = mul_op(ts[0].t_type)->0;
        lemma_primary_expr(ts.skip(1), fuel);
        match spec_primary(ts.skip(1), fuel) {
            Ok((rhs, rest)) => {
                lemma_mul_tail_expr(
                    NodeV::BinaryOp { op, left: Box::new(acc), right: Box::new(rhs) },
                    rest,
                    (fuel - 1) as nat,
                );
            },
            Err(e) => {},
        }
    }
}

/// A `mul` yields a pure expression.
pub proof fn lemma_mul_expr(ts: Seq<TokenV>, fuel: nat)
    ensures
        spec_mul(ts, fuel) matches Ok((n, rest)) ==> expr_node(n),
    decreases fuel, 2nat,
{
    lemma_primary_expr(ts, fuel);
    match spec_primary(ts, fuel) {
        Ok((n, rest)) => {
            lemma_mul_tail_expr(n, rest, fuel);
        },
        Err(e) => {},
    }
}

/// A `sum` tail yields a pure expression when its accumulator is one.
pub proof fn lemma_sum_tail_expr(acc: NodeV, ts: Seq<TokenV>, fuel: nat)
    requires
        expr_node(acc),
    ensures
        spec_sum_tail(acc, ts, fuel) matches Ok((n, rest)) ==> expr_node(n),
    decreases fuel, 3nat,
{
    if fuel > 0 && ts.len() > 0 && sum_op(ts[0].t_type) is Some {
        let op = sum_op(ts[0].t_type)->0;
        lemma_mul_expr(ts.skip(1), fuel);
        match spec_mul(ts.skip(1), fuel) {
            Ok((rhs, rest)) => {
                lemma_sum_tail_expr(
                    NodeV::BinaryOp { op, left: Box::new(acc), right: Box::new(rhs) },
                    rest,
                    (fuel - 1) as nat,
                );
            },
            Err(e) => {},
        }
    }
}

/// A `sum` yields a pure expression.
pub proof fn lemma_sum_expr(ts: Seq<TokenV>, fuel: nat)
    ensures
        spec_sum(ts, fuel) matches Ok((n, rest)) ==> expr_node(n),
    decreases fuel, 4nat,
{
    lemma_mul_expr(ts, fuel);
    match spec_mul(ts, fuel) {
        Ok((n, rest)) => {
            lemma_sum_tail_expr(n, rest, fuel);
        },
        Err(e) => {},
    }
}

/// Whatever the parser accepts is one statement: an assignment stands only
/// at the root, its right-hand side and all other accepted trees are pure
/// expressions.
pub proof fn lemma_parse_statement_shape(ts: Seq<TokenV>)
    ensures
        spec_parse(ts) matches Ok((n, rest)) ==> statement_node(n),
{
    let fuel = (ts.len() + 1) as nat;
    lemma_sum_expr(ts, fuel);
    if ts.len() > 0 && ts[0].t_type == TokenType::Let {
        lemma_sum_expr(ts.skip(3), fuel);
    }
}

/// Every numeric literal in `n` carries well-formed decimal text.
pub open spec fn wf_literals(n: NodeV) -> bool
    decreases n,
{
    match n {
        NodeV::NumberLit { text } => crate::num::is_number_text(text),
        NodeV::Identifier { .. } => true,
        NodeV::Assignment { name, value } => wf_literals(*value),
        NodeV::BinaryOp { op, left, right } => wf_literals(*left) && wf_literals(*right),
    }
}

/// Dropping a prefix keeps every remaining token well formed.
proof fn lemma_wf_tokens_skip(ts: Seq<TokenV>, k: int)
    requires
        wf_tokens(ts),
        0 <= k <= ts.len(),
    ensures
        wf_tokens(ts.skip(k)),
{
    assert forall|i: int| 0 <= i < ts.skip(k).len() implies wf_token(ts.skip(k)[i]) by {
        assert(ts.skip(k)[i] == ts[i + k]);
    }
}

/// A `priority` of well-formed tokens yields well-formed literals and
/// leaves well-formed tokens.
proof fn lemma_primary_wf(ts: Seq<TokenV>, fuel: nat)
    requires
        wf_tokens(ts),
    ensures
        spec_primary(ts, fuel) matches Ok((n, rest)) ==> wf_literals(n) && wf_tokens(rest),
    decreases fuel, 0nat,
{
    if fuel > 0 && ts.len() > 0 {
        lemma_wf_tokens_skip(ts, 1);
        if ts[0].t_type == TokenType::ParenthesisLeft {
            lemma_sum_wf(ts.skip(1), (fuel - 1) as nat);
            match spec_sum(ts.skip(1), (fuel - 1) as nat) {
                Ok((n, rest)) => {
                    if rest.len() > 0 {
                        lemma_wf_tokens_skip(rest, 1);
                    }
                },
                Err(e) => {},
            }
        }
    }
}

/// A `mul` tail keeps literals and tokens well formed.
proof fn lemma_mul_tail_wf(acc: NodeV, ts: Seq<TokenV>, fuel: nat)
    requires
        wf_literals(acc),
        wf_tokens(ts),
    ensures
        spec_mul_tail(acc, ts, fuel) matches Ok((n, rest)) ==> wf_literals(n) && wf_tokens(
            rest,
        ),
    decreases fuel, 1nat,
{
    if fuel > 0 && ts.len() > 0 && mul_op(ts[0].t_type) is Some {
        let op = mul_op(ts[0].t_type)->0;
        lemma_wf_tokens_skip(ts, 1);
        lemma_primary_wf(ts.skip(1), fuel);
        match spec_primary(ts.skip(1), fuel) {
            Ok((rhs, rest)) => {
                lemma_mul_tail_wf(
                    NodeV::BinaryOp { op, left: Box::new(acc), right: Box::new(rhs) },
                    rest,
                    (fuel - 1) as nat,
                );
            },
            Err(e) => {},
        }
    }
}

/// A `mul` of well-formed tokens yields well-formed literals and leaves
/// well-formed tokens.
proof fn lemma_mul_wf(ts: Seq<TokenV>, fuel: nat)
    requires
        wf_tokens(ts),
    ensures
        spec_mul(ts, fuel) matches Ok((n, rest)) ==> wf_literals(n) && wf_tokens(rest),
    decreases fuel, 2nat,
{
    lemma_primary_wf(ts, fuel);
    match spec_primary(ts, fuel) {
        Ok((n, rest)) => {
            lemma_mul_tail_wf(n, rest, fuel);
        },
        Err(e) => {},
    }
}

/// A `sum` tail keeps literals and tokens well formed.
proof fn lemma_sum_tail_wf(acc: NodeV, ts: Seq<TokenV>, fuel: nat)
    requires
        wf_literals(acc),
        wf_tokens(ts),
    ensures
        spec_sum_tail(acc, ts, fuel) matches Ok((n, rest)) ==> wf_literals(n) && wf_tokens(
            rest,
        ),
    decreases fuel, 3nat,
{
    if fuel > 0 && ts.len() > 0 && sum_op(ts[0].t_type) is Some {
        let op = sum_op(ts[0].t_type)->0;
        lemma_wf_tokens_skip(ts, 1);
        lemma_mul_wf(ts.skip(1), fuel);
        match spec_mul(ts.skip(1), fuel) {
            Ok((rhs, rest)) => {
                lemma_sum_tail_wf(
                    NodeV::BinaryOp { op, left: Box::new(acc), right: Box::new(rhs) },
                    rest,
                    (fuel - 1) as nat,
                );
            },
            Err(e) => {},
        }
    }
}

/// A `sum` of well-formed tokens yields well-formed literals and leaves
/// well-formed tokens.
proof fn lemma_sum_wf(ts: Seq<TokenV>, fuel: nat)
    requires
        wf_tokens(ts),
    ensures
        spec_sum(ts, fuel) matches Ok((n, rest)) ==> wf_literals(n) && wf_tokens(rest),
    decreases fuel, 4nat,
{
    lemma_mul_wf(ts, fuel);
    match spec_mul(ts, fuel) {
        Ok((n, rest)) => {
            lemma_sum_tail_wf(n, rest, fuel);
        },
        Err(e) => {},
    }
}

/// Whatever parses from well-formed tokens has well-formed literals: the
/// parser invents no literal text of its own.
pub proof fn lemma_parse_wf(ts: Seq<TokenV>)
    requires
        wf_tokens(ts),
    ensures
        spec_parse(ts) matches Ok((n, rest)) ==> wf_literals(n),
{
    let fuel = (ts.len() + 1) as nat;
    lemma_sum_wf(ts, fuel);
    if ts.len() > 2 && ts[0].t_type == TokenType::Let {
        lemma_wf_tokens_skip(ts, 3);
        lemma_sum_wf(ts.skip(3), fuel);
    }
}

} // verus!
