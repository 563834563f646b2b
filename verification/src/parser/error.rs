//! Syntax errors.

use vstd::prelude::*;
use crate::lexer::{Token, TokenView};

verus! {

/// What the parser was looking for where it met a token that does not fit.
#[derive(PartialEq, Eq, Structural, Debug, Clone, Copy)]
pub enum Expectation {
    /// The start of an expression.
    Expression,
    /// The name after `let`.
    Identifier,
    /// The name of a function parameter.
    Parameter,
    /// An infix operator.
    Operator,
    /// `=`
    Assign,
    /// `;`
    Semicolon,
    /// `;` or the end of the input
    SemicolonOrEof,
    /// `:`
    Colon,
    /// `(`
    LParen,
    /// `)`
    RParen,
    /// `{`
    LBrace,
    /// `]`
    RBracket,
    /// `,` or `)`
    CommaOrRParen,
    /// `,` or `]`
    CommaOrRBracket,
    /// `,` or `}`
    CommaOrRBrace,
    /// An expression that nests less deep.
    ShallowerNesting,
    /// An expression with a lower tree.
    LowerTree,
}

/// A syntax error: the token that does not fit, and what was expected in its
/// place.
///
/// Where the token is `Illegal`, the error is a lexical one: the source
/// holds a character that starts no token, or an integer that does not fit
/// in 64 bits signed.
#[derive(PartialEq, Debug, Clone)]
pub struct ParseError {
    pub expected: Expectation,
    pub found: Token,
}

/// The mathematical value of a [`ParseError`].
pub struct ParseErrorView {
    pub expected: Expectation,
    pub found: TokenView,
}

impl View for ParseError {
    type V = ParseErrorView;

    open spec fn view(&self) -> ParseErrorView {
        ParseErrorView { expected: self.expected, found: self.found@ }
    }
}

impl ParseError {
    /// Whether the error is a lexical one: the token that does not fit is
    /// no token at all.
    pub fn is_lexical(&self) -> (lexical: bool)
        ensures
            lexical == (self@.found is Illegal),
    {
        match self.found {
            Token::Illegal => true,
            _ => false,
        }
    }
}

} // verus!
