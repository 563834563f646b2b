//! How tightly operators bind.

use vstd::prelude::*;
use crate::lexer::{Token, TokenView};

verus! {

/// How tightly an operator binds, from loosest to tightest.
#[derive(PartialEq, Eq, Structural, Debug, Clone, Copy)]
pub enum Precedence {
    Lowest,
    Equals,
    LessGreater,
    Sum,
    Product,
    Prefix,
    Call,
    Index,
}

impl Precedence {
    /// The place of a precedence in the order: a higher rank binds tighter.
    pub open spec fn rank(self) -> nat {
        match self {
            Precedence::Lowest => 0,
            Precedence::Equals => 1,
            Precedence::LessGreater => 2,
            Precedence::Sum => 3,
            Precedence::Product => 4,
            Precedence::Prefix => 5,
            Precedence::Call => 6,
            Precedence::Index => 7,
        }
    }

    /// The precedence of a token that stands after an expression: that of
    /// the operator it denotes, or `Lowest` where it denotes none.
    pub open spec fn of_token(token: TokenView) -> Precedence {
        match token {
            TokenView::Eq => Precedence::Equals,
            TokenView::NotEq => Precedence::Equals,
            TokenView::Lt => Precedence::LessGreater,
            TokenView::Gt => Precedence::LessGreater,
            TokenView::Plus => Precedence::Sum,
            TokenView::Minus => Precedence::Sum,
            TokenView::Slash => Precedence::Product,
            TokenView::Asterisk => Precedence::Product,
            TokenView::LParen => Precedence::Call,
            TokenView::LBracket => Precedence::Index,
            _ => Precedence::Lowest,
        }
    }

    /// The rank, as a number that can be compared at run time.
    pub fn level(self) -> (level: u8)
        ensures
            level == self.rank(),
    {
        match self {
            Precedence::Lowest => 0,
            Precedence::Equals => 1,
            Precedence::LessGreater => 2,
            Precedence::Sum => 3,
            Precedence::Product => 4,
            Precedence::Prefix => 5,
            Precedence::Call => 6,
            Precedence::Index => 7,
        }
    }

    /// The precedence of a token that stands after an expression.
    pub fn get_from_token(token: &Token) -> (precedence: Precedence)
        ensures
            precedence == Precedence::of_token(token@),
    {
        match token {
            Token::Eq => Precedence::Equals,
            Token::NotEq => Precedence::Equals,
            Token::Lt => Precedence::LessGreater,
            Token::Gt => Precedence::LessGreater,
            Token::Plus => Precedence::Sum,
            Token::Minus => Precedence::Sum,
            Token::Slash => Precedence::Product,
            Token::Asterisk => Precedence::Product,
            Token::LParen => Precedence::Call,
            Token::LBracket => Precedence::Index,
            _ => Precedence::Lowest,
        }
    }
}

} // verus!
