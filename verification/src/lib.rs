//! A small arithmetic expression language: a tokenizer, a recursive-descent
//! parser and an evaluator over a persistent variable environment.
//!
//! A line of text is tokenized into a sequence of typed tokens, parsed into
//! an abstract syntax tree under the usual operator precedence, and evaluated
//! against an environment that maps variable names to the numeric value they
//! were last assigned.  Numeric values are IEEE 754 binary64 numbers, carried
//! everywhere as their 64-bit encodings.
use vstd::prelude::*;

pub mod context;
pub mod evaluate;
pub mod num;
pub mod parser;
pub mod token;

verus! {

/// An error from tokenizing, parsing or evaluating one statement.
/// Every error is recoverable at the statement level: a failed line never
/// ends a session and never discards previously accumulated bindings.
#[derive(Debug, PartialEq, Eq)]
pub enum CalcError {
    /// An input character matches no token rule.
    LexError { ch: char },
    /// Grammar mismatch: the parser needed a token of kind `expected` but the
    /// input held `found` (`None` means the input ended too early).
    ParseError { expected: crate::token::TokenType, found: Option<crate::token::TokenType> },
    /// A parse was attempted on zero tokens.
    EmptyInputError,
    /// An identifier was read (or assigned from) while no value is bound to it.
    UndefinedVariableError { name: String },
    /// A number token's text is not a valid decimal literal.
    NumberFormatError { text: String },
}

/// The mathematical view of a [`CalcError`]: the same cases with text as a
/// sequence of characters.
pub enum ErrorV {
    LexError { ch: char },
    ParseError { expected: crate::token::TokenType, found: Option<crate::token::TokenType> },
    EmptyInputError,
    UndefinedVariableError { name: Seq<char> },
    NumberFormatError { text: Seq<char> },
}

impl View for CalcError {
    type V = ErrorV;

    open spec fn view(&self) -> ErrorV {
        match self {
            CalcError::LexError { ch } => ErrorV::LexError { ch: *ch },
            CalcError::ParseError { expected, found } => ErrorV::ParseError {
                expected: *expected,
                found: *found,
            },
            CalcError::EmptyInputError => ErrorV::EmptyInputError,
            CalcError::UndefinedVariableError { name } => ErrorV::UndefinedVariableError {
                name: name@,
            },
            CalcError::NumberFormatError { text } => ErrorV::NumberFormatError { text: text@ },
        }
    }
}

} // verus!
