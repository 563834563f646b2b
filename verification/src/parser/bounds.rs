//! What the parser promises of every tree it gives: it is no higher than
//! the limit.

use vstd::prelude::*;
use crate::ast::{ExpressionView, StatementView};
use crate::ast::height::{expression_height, statement_height, statements_height};
use crate::lexer::TokenView;
use crate::parser::grammar::{
    MAX_HEIGHT, MAX_NESTING, left, lemma_parse_expression, lemma_parse_expression_statement,
    lemma_parse_let_statement, lemma_parse_operators, lemma_parse_return_statement,
    lemma_parse_statement, lemma_parse_statements, parse_expression, parse_operators,
    parse_source, parse_statement, parse_statements,
};
use crate::parser::precedence::Precedence;

verus! {

/// Operators applied to an expression that is within the limit give one
/// that is within the limit.
pub proof fn lemma_operators_height(
    ts: Seq<TokenView>,
    pos: int,
    first: ExpressionView,
    precedence: Precedence,
    depth: nat,
)
    requires
        expression_height(first) <= MAX_HEIGHT,
    ensures
        parse_operators(ts, pos, first, precedence, depth) matches Ok((e, n))
            ==> expression_height(e) <= MAX_HEIGHT,
    decreases left(ts, pos),
{
    lemma_parse_operators(ts, pos, first, precedence, depth);
    let peek = crate::parser::grammar::token(ts, pos + 1);
    if !(peek is Semicolon || precedence.rank() >= Precedence::of_token(peek).rank()) {
        let step = if peek is LParen {
            crate::parser::grammar::parse_call_expression(ts, pos + 1, first, depth)
        } else {
            crate::parser::grammar::parse_infix_expression(ts, pos + 1, first, depth)
        };
        if let Ok((applied, n)) = step {
            if expression_height(applied) <= MAX_HEIGHT {
                lemma_operators_height(ts, pos + 1 + n, applied, precedence, depth);
            }
        }
    }
}

/// The tree of an expression that parses is no higher than `MAX_HEIGHT`.
pub proof fn lemma_expression_height(
    ts: Seq<TokenView>,
    pos: int,
    precedence: Precedence,
    depth: nat,
)
    ensures
        parse_expression(ts, pos, precedence, depth) matches Ok((e, n)) ==> expression_height(e)
            <= MAX_HEIGHT,
{
    lemma_parse_expression(ts, pos, precedence, depth);
    if depth > 0 {
        let deeper = (depth - 1) as nat;
        if let Ok((first, n)) = crate::parser::grammar::parse_prefix(ts, pos, deeper) {
            if expression_height(first) <= MAX_HEIGHT {
                lemma_operators_height(ts, pos + n, first, precedence, deeper);
            }
        }
    }
}

/// The tree of a statement that parses is no higher than `MAX_HEIGHT`
/// and one.
pub proof fn lemma_statement_height(ts: Seq<TokenView>, pos: int, depth: nat)
    ensures
        parse_statement(ts, pos, depth) matches Ok((s, n)) ==> statement_height(s) <= MAX_HEIGHT
            + 1,
{
    lemma_parse_statement(ts, pos, depth);
    lemma_parse_let_statement(ts, pos, depth);
    lemma_parse_return_statement(ts, pos, depth);
    lemma_parse_expression_statement(ts, pos, depth);
    lemma_expression_height(ts, pos, Precedence::Lowest, depth);
    lemma_expression_height(ts, pos + 1, Precedence::Lowest, depth);
    lemma_expression_height(ts, pos + 3, Precedence::Lowest, depth);
}

/// A statement put in front of others moves them one index up, and leaves
/// the highest of them what it was.
pub proof fn lemma_statements_height_splits(
    first: StatementView,
    rest: Seq<StatementView>,
    from: nat,
)
    ensures
        statements_height(seq![first] + rest, from + 1) == statements_height(rest, from),
    decreases rest.len() - from,
{
    let whole = seq![first] + rest;
    if from < rest.len() {
        assert(whole[from as int + 1] == rest[from as int]);
        lemma_statements_height_splits(first, rest, from + 1);
    }
}

/// The tree of every statement of the statements that parse is no higher
/// than `MAX_HEIGHT` and one.
pub proof fn lemma_statements_height(ts: Seq<TokenView>, pos: int)
    ensures
        parse_statements(ts, pos) matches Ok(statements) ==> statements_height(statements, 0)
            <= MAX_HEIGHT + 1,
    decreases left(ts, pos),
{
    lemma_parse_statements(ts, pos);
    if !(crate::parser::grammar::token(ts, pos) is Eof) {
        lemma_statement_height(ts, pos, MAX_NESTING as nat);
        if let Ok((statement, n)) = parse_statement(ts, pos, MAX_NESTING as nat) {
            lemma_statements_height(ts, pos + n + 1);
            if let Ok(rest) = parse_statements(ts, pos + n + 1) {
                lemma_statements_height_splits(statement, rest, 0);
                assert((seq![statement] + rest)[0] == statement);
            }
        }
    }
}

/// The tree of every statement of a program that parses is no higher than
/// `MAX_HEIGHT` and one.
pub proof fn lemma_program_height(source: Seq<char>)
    ensures
        parse_source(source) matches Ok(program) ==> statements_height(program, 0) <= MAX_HEIGHT
            + 1,
{
    lemma_statements_height(crate::lexer::tokens_of(source), 0);
}

} // verus!
