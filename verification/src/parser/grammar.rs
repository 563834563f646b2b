//! The grammar, as functions from a sequence of tokens to syntax trees.
//!
//! Each function reads the tokens of `ts` from index `pos` on, where the
//! current token stands; past the end of `ts` every token is `Eof`. On
//! success it gives the tree and the number of tokens by which the current
//! token has moved forward: it then stands on the last token of what was
//! read. The number `depth` says by how many levels expressions may still
//! nest.
//!
//! The functions call one another in a circle, so each is kept behind its
//! name: a proof that needs what one of them says of given tokens calls
//! the lemma that bears its name, which unfolds it once.

use vstd::prelude::*;
use crate::ast::{ExpressionView, InfixOperator, PrefixOperator, StatementView};
use crate::ast::height::expression_height;
use crate::equal::same;
use crate::lexer::{TokenView, tokens_of};
use crate::parser::error::{Expectation, ParseErrorView};
use crate::parser::precedence::Precedence;

verus! {

/// The number of levels by which expressions may nest.
pub const MAX_NESTING: usize = 200;

/// The height that the tree of an expression may have.
pub const MAX_HEIGHT: usize = 250;

/// What parsing gives: a value and the number of tokens passed, or an error.
pub type Parsed<T> = Result<(T, nat), ParseErrorView>;

/// The token at index `i`: `Eof` past the end.
pub open spec fn token(ts: Seq<TokenView>, i: int) -> TokenView {
    if 0 <= i < ts.len() {
        ts[i]
    } else {
        TokenView::Eof
    }
}

/// The number of tokens from index `i` to the end.
pub open spec fn left(ts: Seq<TokenView>, i: int) -> nat {
    if i < ts.len() {
        (ts.len() - i) as nat
    } else {
        0
    }
}

/// The error for the token at index `i`, which is not what was expected.
pub open spec fn unexpected<T>(ts: Seq<TokenView>, i: int, expected: Expectation) -> Parsed<T> {
    Err(ParseErrorView { expected, found: token(ts, i) })
}

/// A result moved `by` tokens further.
pub open spec fn shifted<T>(by: nat, r: Parsed<T>) -> Parsed<T> {
    match r {
        Ok((value, n)) => Ok((value, by + n)),
        Err(e) => Err(e),
    }
}

/// A result for the rest of a list, with the items `before` put in front
/// of it and moved `by` tokens further.
pub open spec fn prefixed<T>(before: Seq<T>, by: nat, r: Parsed<Seq<T>>) -> Parsed<Seq<T>> {
    match r {
        Ok((rest, n)) => Ok((before + rest, by + n)),
        Err(e) => Err(e),
    }
}

/// A statement: `let`, `return`, or an expression.
#[verifier::opaque]
pub open spec fn parse_statement(ts: Seq<TokenView>, pos: int, depth: nat) -> Parsed<StatementView>
    decreases left(ts, pos), 6nat,
{
    match token(ts, pos) {
        TokenView::Let => parse_let_statement(ts, pos, depth),
        TokenView::Return => parse_return_statement(ts, pos, depth),
        _ => parse_expression_statement(ts, pos, depth),
    }
}

/// `let <name> = <expression>`, closed by `;` or the end of the input.
#[verifier::opaque]
pub open spec fn parse_let_statement(ts: Seq<TokenView>, pos: int, depth: nat) -> Parsed<StatementView>
    decreases left(ts, pos), 5nat,
{
    if token(ts, pos) !is Let {
        unexpected(ts, pos, Expectation::Expression)
    } else if token(ts, pos + 1) !is Ident {
        unexpected(ts, pos + 1, Expectation::Identifier)
    } else if token(ts, pos + 2) !is Assign {
        unexpected(ts, pos + 2, Expectation::Assign)
    } else {
        match parse_expression(ts, pos + 3, Precedence::Lowest, depth) {
            Err(e) => Err(e),
            Ok((value, n)) => {
                let end = pos + 3 + n + 1;
                if token(ts, end) is Semicolon || token(ts, end) is Eof {
                    Ok((StatementView::Let { name: token(ts, pos + 1)->Ident_0, value }, 3 + n + 1))
                } else {
                    unexpected(ts, end, Expectation::SemicolonOrEof)
                }
            },
        }
    }
}

/// `return <expression>;`
#[verifier::opaque]
pub open spec fn parse_return_statement(ts: Seq<TokenView>, pos: int, depth: nat) -> Parsed<StatementView>
    decreases left(ts, pos), 5nat,
{
    if token(ts, pos) !is Return {
        unexpected(ts, pos, Expectation::Expression)
    } else {
        match parse_expression(ts, pos + 1, Precedence::Lowest, depth) {
            Err(e) => Err(e),
            Ok((value, n)) => {
                let end = pos + 1 + n + 1;
                if token(ts, end) is Semicolon {
                    Ok((StatementView::Return { value }, 1 + n + 1))
                } else {
                    unexpected(ts, end, Expectation::Semicolon)
                }
            },
        }
    }
}

/// An expression, and the `;` after it if there is one.
#[verifier::opaque]
pub open spec fn parse_expression_statement(ts: Seq<TokenView>, pos: int, depth: nat) -> Parsed<StatementView>
    decreases left(ts, pos), 5nat,
{
    match parse_expression(ts, pos, Precedence::Lowest, depth) {
        Err(e) => Err(e),
        Ok((value, n)) => {
            if token(ts, pos + n + 1) is Semicolon {
                Ok((StatementView::Expr(value), n + 1))
            } else {
                Ok((StatementView::Expr(value), n))
            }
        },
    }
}

/// The statements of a block, up to the `}` that closes it, which becomes
/// the current token.
#[verifier::opaque]
pub open spec fn parse_block_statement(ts: Seq<TokenView>, pos: int, depth: nat) -> Parsed<Seq<StatementView>>
    decreases left(ts, pos), 7nat,
{
    if token(ts, pos) is RBrace {
        Ok((Seq::empty(), 0))
    } else if token(ts, pos) is Eof {
        unexpected(ts, pos, Expectation::Expression)
    } else {
        match parse_statement(ts, pos, depth) {
            Err(e) => Err(e),
            Ok((statement, n)) => prefixed(
                seq![statement],
                n + 1,
                parse_block_statement(ts, pos + n + 1, depth),
            ),
        }
    }
}

/// An expression whose operators all bind tighter than `precedence`. It
/// nests no deeper than `depth` levels, and its tree is no higher than
/// `MAX_HEIGHT`.
#[verifier::opaque]
pub open spec fn parse_expression(ts: Seq<TokenView>, pos: int, precedence: Precedence, depth: nat) -> Parsed<
    ExpressionView,
>
    decreases left(ts, pos), 4nat,
{
    if depth == 0 {
        unexpected(ts, pos, Expectation::ShallowerNesting)
    } else {
        let deeper = (depth - 1) as nat;
        match parse_prefix(ts, pos, deeper) {
            Err(e) => Err(e),
            Ok((first, n)) => if expression_height(first) > MAX_HEIGHT {
                unexpected(ts, pos + n, Expectation::LowerTree)
            } else {
                shifted(n, parse_operators(ts, pos + n, first, precedence, deeper))
            },
        }
    }
}

/// The calls and infix operators that follow the expression `first`, as
/// long as they bind tighter than `precedence` and no `;` comes.
#[verifier::opaque]
pub open spec fn parse_operators(
    ts: Seq<TokenView>,
    pos: int,
    first: ExpressionView,
    precedence: Precedence,
    depth: nat,
) -> Parsed<ExpressionView>
    decreases left(ts, pos), 3nat,
{
    let peek = token(ts, pos + 1);
    if peek is Semicolon || precedence.rank() >= Precedence::of_token(peek).rank() {
        Ok((first, 0))
    } else {
        let step = if peek is LParen {
            parse_call_expression(ts, pos + 1, first, depth)
        } else {
            parse_infix_expression(ts, pos + 1, first, depth)
        };
        match step {
            Err(e) => Err(e),
            Ok((applied, n)) => if expression_height(applied) > MAX_HEIGHT {
                unexpected(ts, pos + 1 + n, Expectation::LowerTree)
            } else {
                shifted(1 + n, parse_operators(ts, pos + 1 + n, applied, precedence, depth))
            },
        }
    }
}

/// The expression that starts at the current token.
#[verifier::opaque]
pub open spec fn parse_prefix(ts: Seq<TokenView>, pos: int, depth: nat) -> Parsed<ExpressionView>
    decreases left(ts, pos), 3nat,
{
    match token(ts, pos) {
        TokenView::Bang => parse_prefix_expression(ts, pos, depth),
        TokenView::Minus => parse_prefix_expression(ts, pos, depth),
        TokenView::Ident(name) => Ok((ExpressionView::Ident(name), 0)),
        TokenView::Int(value) => Ok((ExpressionView::Int(value), 0)),
        TokenView::String(text) => Ok((ExpressionView::String(text), 0)),
        TokenView::True => Ok((ExpressionView::Bool(true), 0)),
        TokenView::False => Ok((ExpressionView::Bool(false), 0)),
        TokenView::LParen => parse_grouped_expression(ts, pos, depth),
        TokenView::If => parse_if_expression(ts, pos, depth),
        TokenView::Function => parse_fn_expression(ts, pos, depth),
        TokenView::LBracket => parse_array_expression(ts, pos, depth),
        TokenView::LBrace => parse_hash_expression(ts, pos, depth),
        _ => unexpected(ts, pos, Expectation::Expression),
    }
}

/// `!<expression>` or `-<expression>`
#[verifier::opaque]
pub open spec fn parse_prefix_expression(ts: Seq<TokenView>, pos: int, depth: nat) -> Parsed<ExpressionView>
    decreases left(ts, pos), 2nat,
{
    match PrefixOperator::of_token(token(ts, pos)) {
        None => unexpected(ts, pos, Expectation::Operator),
        Some(operator) => match parse_expression(ts, pos + 1, Precedence::Prefix, depth) {
            Err(e) => Err(e),
            Ok((right, n)) => Ok((ExpressionView::Prefix { operator, right: Box::new(right) }, 1 + n)),
        },
    }
}

/// `<left> <operator> <right>`, the current token being the operator; for
/// an index, `<left>[<right>]`.
#[verifier::opaque]
pub open spec fn parse_infix_expression(
    ts: Seq<TokenView>,
    pos: int,
    first: ExpressionView,
    depth: nat,
) -> Parsed<ExpressionView>
    decreases left(ts, pos), 2nat,
{
    match InfixOperator::of_token(token(ts, pos)) {
        None => unexpected(ts, pos, Expectation::Operator),
        Some(operator) => {
            let precedence = if operator is Index {
                Precedence::Lowest
            } else {
                Precedence::of_token(token(ts, pos))
            };
            match parse_expression(ts, pos + 1, precedence, depth) {
                Err(e) => Err(e),
                Ok((right, n)) => {
                    let tree = ExpressionView::Infix {
                        operator,
                        left: Box::new(first),
                        right: Box::new(right),
                    };
                    if operator is Index {
                        if token(ts, pos + 1 + n + 1) is RBracket {
                            Ok((tree, 1 + n + 1))
                        } else {
                            unexpected(ts, pos + 1 + n + 1, Expectation::RBracket)
                        }
                    } else {
                        Ok((tree, 1 + n))
                    }
                },
            }
        },
    }
}

/// `(<expression>)`
#[verifier::opaque]
pub open spec fn parse_grouped_expression(ts: Seq<TokenView>, pos: int, depth: nat) -> Parsed<ExpressionView>
    decreases left(ts, pos), 2nat,
{
    if token(ts, pos) !is LParen {
        unexpected(ts, pos, Expectation::Expression)
    } else {
        match parse_expression(ts, pos + 1, Precedence::Lowest, depth) {
            Err(e) => Err(e),
            Ok((inner, n)) => {
                if token(ts, pos + 1 + n + 1) is RParen {
                    Ok((inner, 1 + n + 1))
                } else {
                    unexpected(ts, pos + 1 + n + 1, Expectation::RParen)
                }
            },
        }
    }
}

/// Expressions separated by `,`, up to the token `closer`, which becomes
/// the current token. A `,` may stand before `closer`.
#[verifier::opaque]
pub open spec fn parse_expression_list(
    ts: Seq<TokenView>,
    pos: int,
    closer: TokenView,
    expected: Expectation,
    depth: nat,
) -> Parsed<Seq<ExpressionView>>
    decreases left(ts, pos), 5nat,
{
    if token(ts, pos) == closer {
        Ok((Seq::empty(), 0))
    } else if token(ts, pos) is Eof {
        unexpected(ts, pos, Expectation::Expression)
    } else {
        match parse_expression(ts, pos, Precedence::Lowest, depth) {
            Err(e) => Err(e),
            Ok((item, n)) => {
                let next = token(ts, pos + n + 1);
                if next is Comma {
                    prefixed(
                        seq![item],
                        n + 2,
                        parse_expression_list(ts, pos + n + 2, closer, expected, depth),
                    )
                } else if next == closer {
                    Ok((seq![item], n + 1))
                } else {
                    unexpected(ts, pos + n + 1, expected)
                }
            },
        }
    }
}

/// `[<expression>, ...]`
#[verifier::opaque]
pub open spec fn parse_array_expression(ts: Seq<TokenView>, pos: int, depth: nat) -> Parsed<ExpressionView>
    decreases left(ts, pos), 2nat,
{
    if token(ts, pos) !is LBracket {
        unexpected(ts, pos, Expectation::Expression)
    } else {
        match parse_expression_list(
            ts,
            pos + 1,
            TokenView::RBracket,
            Expectation::CommaOrRBracket,
            depth,
        ) {
            Err(e) => Err(e),
            Ok((items, n)) => Ok((ExpressionView::Array(items), 1 + n)),
        }
    }
}

/// `<callee>(<expression>, ...)`, the current token being the `(`.
#[verifier::opaque]
pub open spec fn parse_call_expression(
    ts: Seq<TokenView>,
    pos: int,
    callee: ExpressionView,
    depth: nat,
) -> Parsed<ExpressionView>
    decreases left(ts, pos), 2nat,
{
    if token(ts, pos) !is LParen {
        unexpected(ts, pos, Expectation::LParen)
    } else {
        match parse_expression_list(ts, pos + 1, TokenView::RParen, Expectation::CommaOrRParen, depth) {
            Err(e) => Err(e),
            Ok((args, n)) => Ok((ExpressionView::Call { func: Box::new(callee), args }, 1 + n)),
        }
    }
}

/// Pairs `<key>: <value>` separated by `,`, up to the `}` that closes the
/// hash literal, which becomes the current token.
#[verifier::opaque]
pub open spec fn parse_pair_list(ts: Seq<TokenView>, pos: int, depth: nat) -> Parsed<
    Seq<(ExpressionView, ExpressionView)>,
>
    decreases left(ts, pos), 5nat,
{
    if token(ts, pos) is RBrace {
        Ok((Seq::empty(), 0))
    } else if token(ts, pos) is Eof {
        unexpected(ts, pos, Expectation::Expression)
    } else {
        match parse_expression(ts, pos, Precedence::Lowest, depth) {
            Err(e) => Err(e),
            Ok((key, n)) => {
                if token(ts, pos + n + 1) !is Colon {
                    unexpected(ts, pos + n + 1, Expectation::Colon)
                } else {
                    match parse_expression(ts, pos + n + 2, Precedence::Lowest, depth) {
                        Err(e) => Err(e),
                        Ok((value, m)) => {
                            let after = pos + n + 2 + m + 1;
                            if token(ts, after) is Comma {
                                prefixed(
                                    seq![(key, value)],
                                    n + 2 + m + 2,
                                    parse_pair_list(ts, after + 1, depth),
                                )
                            } else if token(ts, after) is RBrace {
                                Ok((seq![(key, value)], n + 2 + m + 1))
                            } else {
                                unexpected(ts, after, Expectation::CommaOrRBrace)
                            }
                        },
                    }
                }
            },
        }
    }
}

/// `{<key>: <value>, ...}`
#[verifier::opaque]
pub open spec fn parse_hash_expression(ts: Seq<TokenView>, pos: int, depth: nat) -> Parsed<ExpressionView>
    decreases left(ts, pos), 2nat,
{
    if token(ts, pos) !is LBrace {
        unexpected(ts, pos, Expectation::Expression)
    } else {
        match parse_pair_list(ts, pos + 1, depth) {
            Err(e) => Err(e),
            Ok((pairs, n)) => Ok((ExpressionView::Hash(pairs), 1 + n)),
        }
    }
}

/// `{`, the statements of a block and its `}`, the `{` being expected at
/// index `pos`.
#[verifier::opaque]
pub open spec fn parse_braced_block(ts: Seq<TokenView>, pos: int, depth: nat) -> Parsed<Seq<StatementView>>
    decreases left(ts, pos), 8nat,
{
    if token(ts, pos) !is LBrace {
        unexpected(ts, pos, Expectation::LBrace)
    } else {
        shifted(1, parse_block_statement(ts, pos + 1, depth))
    }
}

/// `if (<condition>) { ... }`, with `else { ... }` after it or not.
#[verifier::opaque]
pub open spec fn parse_if_expression(ts: Seq<TokenView>, pos: int, depth: nat) -> Parsed<ExpressionView>
    decreases left(ts, pos), 2nat,
{
    if token(ts, pos) !is If {
        unexpected(ts, pos, Expectation::Expression)
    } else if token(ts, pos + 1) !is LParen {
        unexpected(ts, pos + 1, Expectation::LParen)
    } else {
        match parse_expression(ts, pos + 2, Precedence::Lowest, depth) {
            Err(e) => Err(e),
            Ok((cond, n)) => {
                let close = pos + 2 + n + 1;
                if token(ts, close) !is RParen {
                    unexpected(ts, close, Expectation::RParen)
                } else {
                    match parse_braced_block(ts, close + 1, depth) {
                        Err(e) => Err(e),
                        Ok((then_, m)) => {
                            let end = close + 1 + m;
                            if token(ts, end + 1) is Else {
                                match parse_braced_block(ts, end + 2, depth) {
                                    Err(e) => Err(e),
                                    Ok((else_, k)) => Ok(
                                        (
                                            ExpressionView::Cond {
                                                cond: Box::new(cond),
                                                then_,
                                                else_: Some(else_),
                                            },
                                            2 + n + 1 + 1 + m + 2 + k,
                                        ),
                                    ),
                                }
                            } else {
                                Ok(
                                    (
                                        ExpressionView::Cond {
                                            cond: Box::new(cond),
                                            then_,
                                            else_: None,
                                        },
                                        2 + n + 1 + 1 + m,
                                    ),
                                )
                            }
                        },
                    }
                }
            },
        }
    }
}

/// Parameter names separated by `,`, up to the `)` that closes the list,
/// which becomes the current token.
#[verifier::opaque]
pub open spec fn parse_parameters(ts: Seq<TokenView>, pos: int) -> Parsed<Seq<Seq<char>>>
    decreases left(ts, pos),
{
    if token(ts, pos) is RParen {
        Ok((Seq::empty(), 0))
    } else {
        match token(ts, pos) {
            TokenView::Ident(name) => {
                if token(ts, pos + 1) is Comma {
                    prefixed(seq![name], 2, parse_parameters(ts, pos + 2))
                } else if token(ts, pos + 1) is RParen {
                    Ok((seq![name], 1))
                } else {
                    unexpected(ts, pos + 1, Expectation::CommaOrRParen)
                }
            },
            _ => unexpected(ts, pos, Expectation::Parameter),
        }
    }
}

/// `fn(<name>, ...) { ... }`
#[verifier::opaque]
pub open spec fn parse_fn_expression(ts: Seq<TokenView>, pos: int, depth: nat) -> Parsed<ExpressionView>
    decreases left(ts, pos), 2nat,
{
    if token(ts, pos) !is Function {
        unexpected(ts, pos, Expectation::Expression)
    } else if token(ts, pos + 1) !is LParen {
        unexpected(ts, pos + 1, Expectation::LParen)
    } else {
        match parse_parameters(ts, pos + 2) {
            Err(e) => Err(e),
            Ok((args, n)) => match parse_braced_block(ts, pos + 2 + n + 1, depth) {
                Err(e) => Err(e),
                Ok((body, m)) => Ok((ExpressionView::Func { args, body }, 2 + n + 1 + m)),
            },
        }
    }
}

/// The statements from index `pos` up to the end of the tokens.
#[verifier::opaque]
pub open spec fn parse_statements(ts: Seq<TokenView>, pos: int) -> Result<
    Seq<StatementView>,
    ParseErrorView,
>
    decreases left(ts, pos),
{
    if token(ts, pos) is Eof {
        Ok(Seq::empty())
    } else {
        match parse_statement(ts, pos, MAX_NESTING as nat) {
            Err(e) => Err(e),
            Ok((statement, n)) => match parse_statements(ts, pos + n + 1) {
                Err(e) => Err(e),
                Ok(rest) => Ok(seq![statement] + rest),
            },
        }
    }
}

/// The program that a sequence of tokens spells.
pub open spec fn parse_program(ts: Seq<TokenView>) -> Result<Seq<StatementView>, ParseErrorView> {
    parse_statements(ts, 0)
}

/// The program that a source text spells.
pub open spec fn parse_source(source: Seq<char>) -> Result<Seq<StatementView>, ParseErrorView> {
    parse_program(tokens_of(source))
}

} // verus!

verus! {

/// [`parse_statement`], unfolded once.
pub proof fn lemma_parse_statement(
    ts: Seq<TokenView>,
    pos: int,
    depth: nat,
)
    ensures
        same(parse_statement(ts, pos, depth), ({
            match token(ts, pos) {
                TokenView::Let => parse_let_statement(ts, pos, depth),
                TokenView::Return => parse_return_statement(ts, pos, depth),
                _ => parse_expression_statement(ts, pos, depth),
            }
        })),
{
    reveal_with_fuel(parse_statement, 1);
    reveal_with_fuel(parse_let_statement, 1);
    reveal_with_fuel(parse_return_statement, 1);
    reveal_with_fuel(parse_expression_statement, 1);
}

/// [`parse_let_statement`], unfolded once.
pub proof fn lemma_parse_let_statement(
    ts: Seq<TokenView>,
    pos: int,
    depth: nat,
)
    ensures
        same(parse_let_statement(ts, pos, depth), ({
            if token(ts, pos) !is Let {
                unexpected(ts, pos, Expectation::Expression)
            } else if token(ts, pos + 1) !is Ident {
                unexpected(ts, pos + 1, Expectation::Identifier)
            } else if token(ts, pos + 2) !is Assign {
                unexpected(ts, pos + 2, Expectation::Assign)
            } else {
                match parse_expression(ts, pos + 3, Precedence::Lowest, depth) {
                    Err(e) => Err(e),
                    Ok((value, n)) => {
                        let end = pos + 3 + n + 1;
                        if token(ts, end) is Semicolon || token(ts, end) is Eof {
                            Ok((StatementView::Let { name: token(ts, pos + 1)->Ident_0, value }, 3 + n + 1))
                        } else {
                            unexpected(ts, end, Expectation::SemicolonOrEof)
                        }
                    },
                }
            }
        })),
{
    reveal_with_fuel(parse_let_statement, 1);
    reveal_with_fuel(parse_expression, 1);
}

/// [`parse_return_statement`], unfolded once.
pub proof fn lemma_parse_return_statement(
    ts: Seq<TokenView>,
    pos: int,
    depth: nat,
)
    ensures
        same(parse_return_statement(ts, pos, depth), ({
            if token(ts, pos) !is Return {
                unexpected(ts, pos, Expectation::Expression)
            } else {
                match parse_expression(ts, pos + 1, Precedence::Lowest, depth) {
                    Err(e) => Err(e),
                    Ok((value, n)) => {
                        let end = pos + 1 + n + 1;
                        if token(ts, end) is Semicolon {
                            Ok((StatementView::Return { value }, 1 + n + 1))
                        } else {
                            unexpected(ts, end, Expectation::Semicolon)
                        }
                    },
                }
            }
        })),
{
    reveal_with_fuel(parse_return_statement, 1);
    reveal_with_fuel(parse_expression, 1);
}

/// [`parse_expression_statement`], unfolded once.
pub proof fn lemma_parse_expression_statement(
    ts: Seq<TokenView>,
    pos: int,
    depth: nat,
)
    ensures
        same(parse_expression_statement(ts, pos, depth), ({
            match parse_expression(ts, pos, Precedence::Lowest, depth) {
                Err(e) => Err(e),
                Ok((value, n)) => {
                    if token(ts, pos + n + 1) is Semicolon {
                        Ok((StatementView::Expr(value), n + 1))
                    } else {
                        Ok((StatementView::Expr(value), n))
                    }
                },
            }
        })),
{
    reveal_with_fuel(parse_expression_statement, 1);
    reveal_with_fuel(parse_expression, 1);
}

/// [`parse_block_statement`], unfolded once.
pub proof fn lemma_parse_block_statement(
    ts: Seq<TokenView>,
    pos: int,
    depth: nat,
)
    ensures
        same(parse_block_statement(ts, pos, depth), ({
            if token(ts, pos) is RBrace {
                Ok((Seq::empty(), 0))
            } else if token(ts, pos) is Eof {
                unexpected(ts, pos, Expectation::Expression)
            } else {
                match parse_statement(ts, pos, depth) {
                    Err(e) => Err(e),
                    Ok((statement, n)) => prefixed(
                        seq![statement],
                        n + 1,
                        parse_block_statement(ts, pos + n + 1, depth),
                    ),
                }
            }
        })),
{
    reveal_with_fuel(parse_block_statement, 1);
    reveal_with_fuel(parse_statement, 1);
}

/// [`parse_expression`], unfolded once.
pub proof fn lemma_parse_expression(
    ts: Seq<TokenView>,
    pos: int,
    precedence: Precedence,
    depth: nat,
)
    ensures
        same(parse_expression(ts, pos, precedence, depth), ({
            if depth == 0 {
                unexpected(ts, pos, Expectation::ShallowerNesting)
            } else {
                let deeper = (depth - 1) as nat;
                match parse_prefix(ts, pos, deeper) {
                    Err(e) => Err(e),
                    Ok((first, n)) => if expression_height(first) > MAX_HEIGHT {
                        unexpected(ts, pos + n, Expectation::LowerTree)
                    } else {
                        shifted(n, parse_operators(ts, pos + n, first, precedence, deeper))
                    },
                }
            }
        })),
{
    reveal_with_fuel(parse_expression, 1);
    reveal_with_fuel(parse_prefix, 1);
    reveal_with_fuel(parse_operators, 1);
}

/// [`parse_operators`], unfolded once.
pub proof fn lemma_parse_operators(
    ts: Seq<TokenView>,
    pos: int,
    first: ExpressionView,
    precedence: Precedence,
    depth: nat,
)
    ensures
        same(parse_operators(ts, pos, first, precedence, depth), ({
            let peek = token(ts, pos + 1);
            if peek is Semicolon || precedence.rank() >= Precedence::of_token(peek).rank() {
                Ok((first, 0))
            } else {
                let step = if peek is LParen {
                    parse_call_expression(ts, pos + 1, first, depth)
                } else {
                    parse_infix_expression(ts, pos + 1, first, depth)
                };
                match step {
                    Err(e) => Err(e),
                    Ok((applied, n)) => if expression_height(applied) > MAX_HEIGHT {
                        unexpected(ts, pos + 1 + n, Expectation::LowerTree)
                    } else {
                        shifted(1 + n, parse_operators(ts, pos + 1 + n, applied, precedence, depth))
                    },
                }
            }
        })),
{
    reveal_with_fuel(parse_operators, 1);
    reveal_with_fuel(parse_call_expression, 1);
    reveal_with_fuel(parse_infix_expression, 1);
}

/// [`parse_prefix`], unfolded once.
pub proof fn lemma_parse_prefix(
    ts: Seq<TokenView>,
    pos: int,
    depth: nat,
)
    ensures
        same(parse_prefix(ts, pos, depth), ({
            match token(ts, pos) {
                TokenView::Bang => parse_prefix_expression(ts, pos, depth),
                TokenView::Minus => parse_prefix_expression(ts, pos, depth),
                TokenView::Ident(name) => Ok((ExpressionView::Ident(name), 0)),
                TokenView::Int(value) => Ok((ExpressionView::Int(value), 0)),
                TokenView::String(text) => Ok((ExpressionView::String(text), 0)),
                TokenView::True => Ok((ExpressionView::Bool(true), 0)),
                TokenView::False => Ok((ExpressionView::Bool(false), 0)),
                TokenView::LParen => parse_grouped_expression(ts, pos, depth),
                TokenView::If => parse_if_expression(ts, pos, depth),
                TokenView::Function => parse_fn_expression(ts, pos, depth),
                TokenView::LBracket => parse_array_expression(ts, pos, depth),
                TokenView::LBrace => parse_hash_expression(ts, pos, depth),
                _ => unexpected(ts, pos, Expectation::Expression),
            }
        })),
{
    reveal_with_fuel(parse_prefix, 1);
    reveal_with_fuel(parse_prefix_expression, 1);
    reveal_with_fuel(parse_grouped_expression, 1);
    reveal_with_fuel(parse_if_expression, 1);
    reveal_with_fuel(parse_fn_expression, 1);
    reveal_with_fuel(parse_array_expression, 1);
    reveal_with_fuel(parse_hash_expression, 1);
}

/// [`parse_prefix_expression`], unfolded once.
pub proof fn lemma_parse_prefix_expression(
    ts: Seq<TokenView>,
    pos: int,
    depth: nat,
)
    ensures
        same(parse_prefix_expression(ts, pos, depth), ({
            match PrefixOperator::of_token(token(ts, pos)) {
                None => unexpected(ts, pos, Expectation::Operator),
                Some(operator) => match parse_expression(ts, pos + 1, Precedence::Prefix, depth) {
                    Err(e) => Err(e),
                    Ok((right, n)) => Ok((ExpressionView::Prefix { operator, right: Box::new(right) }, 1 + n)),
                },
            }
        })),
{
    reveal_with_fuel(parse_prefix_expression, 1);
    reveal_with_fuel(parse_expression, 1);
}

/// [`parse_infix_expression`], unfolded once.
pub proof fn lemma_parse_infix_expression(
    ts: Seq<TokenView>,
    pos: int,
    first: ExpressionView,
    depth: nat,
)
    ensures
        same(parse_infix_expression(ts, pos, first, depth), ({
            match InfixOperator::of_token(token(ts, pos)) {
                None => unexpected(ts, pos, Expectation::Operator),
                Some(operator) => {
                    let precedence = if operator is Index {
                        Precedence::Lowest
                    } else {
                        Precedence::of_token(token(ts, pos))
                    };
                    match parse_expression(ts, pos + 1, precedence, depth) {
                        Err(e) => Err(e),
                        Ok((right, n)) => {
                            let tree = ExpressionView::Infix {
                                operator,
                                left: Box::new(first),
                                right: Box::new(right),
                            };
                            if operator is Index {
                                if token(ts, pos + 1 + n + 1) is RBracket {
                                    Ok((tree, 1 + n + 1))
                                } else {
                                    unexpected(ts, pos + 1 + n + 1, Expectation::RBracket)
                                }
                            } else {
                                Ok((tree, 1 + n))
                            }
                        },
                    }
                },
            }
        })),
{
    reveal_with_fuel(parse_infix_expression, 1);
    reveal_with_fuel(parse_expression, 1);
}

/// [`parse_grouped_expression`], unfolded once.
pub proof fn lemma_parse_grouped_expression(
    ts: Seq<TokenView>,
    pos: int,
    depth: nat,
)
    ensures
        same(parse_grouped_expression(ts, pos, depth), ({
            if token(ts, pos) !is LParen {
                unexpected(ts, pos, Expectation::Expression)
            } else {
                match parse_expression(ts, pos + 1, Precedence::Lowest, depth) {
                    Err(e) => Err(e),
                    Ok((inner, n)) => {
                        if token(ts, pos + 1 + n + 1) is RParen {
                            Ok((inner, 1 + n + 1))
                        } else {
                            unexpected(ts, pos + 1 + n + 1, Expectation::RParen)
                        }
                    },
                }
            }
        })),
{
    reveal_with_fuel(parse_grouped_expression, 1);
    reveal_with_fuel(parse_expression, 1);
}

/// [`parse_expression_list`], unfolded once.
pub proof fn lemma_parse_expression_list(
    ts: Seq<TokenView>,
    pos: int,
    closer: TokenView,
    expected: Expectation,
    depth: nat,
)
    ensures
        same(parse_expression_list(ts, pos, closer, expected, depth), ({
            if token(ts, pos) == closer {
                Ok((Seq::empty(), 0))
            } else if token(ts, pos) is Eof {
                unexpected(ts, pos, Expectation::Expression)
            } else {
                match parse_expression(ts, pos, Precedence::Lowest, depth) {
                    Err(e) => Err(e),
                    Ok((item, n)) => {
                        let next = token(ts, pos + n + 1);
                        if next is Comma {
                            prefixed(
                                seq![item],
                                n + 2,
                                parse_expression_list(ts, pos + n + 2, closer, expected, depth),
                            )
                        } else if next == closer {
                            Ok((seq![item], n + 1))
                        } else {
                            unexpected(ts, pos + n + 1, expected)
                        }
                    },
                }
            }
        })),
{
    reveal_with_fuel(parse_expression_list, 1);
    reveal_with_fuel(parse_expression, 1);
}

/// [`parse_array_expression`], unfolded once.
pub proof fn lemma_parse_array_expression(
    ts: Seq<TokenView>,
    pos: int,
    depth: nat,
)
    ensures
        same(parse_array_expression(ts, pos, depth), ({
            if token(ts, pos) !is LBracket {
                unexpected(ts, pos, Expectation::Expression)
            } else {
                match parse_expression_list(
                    ts,
                    pos + 1,
                    TokenView::RBracket,
                    Expectation::CommaOrRBracket,
                    depth,
                ) {
                    Err(e) => Err(e),
                    Ok((items, n)) => Ok((ExpressionView::Array(items), 1 + n)),
                }
            }
        })),
{
    reveal_with_fuel(parse_array_expression, 1);
    reveal_with_fuel(parse_expression_list, 1);
}

/// [`parse_call_expression`], unfolded once.
pub proof fn lemma_parse_call_expression(
    ts: Seq<TokenView>,
    pos: int,
    callee: ExpressionView,
    depth: nat,
)
    ensures
        same(parse_call_expression(ts, pos, callee, depth), ({
            if token(ts, pos) !is LParen {
                unexpected(ts, pos, Expectation::LParen)
            } else {
                match parse_expression_list(ts, pos + 1, TokenView::RParen, Expectation::CommaOrRParen, depth) {
                    Err(e) => Err(e),
                    Ok((args, n)) => Ok((ExpressionView::Call { func: Box::new(callee), args }, 1 + n)),
                }
            }
        })),
{
    reveal_with_fuel(parse_call_expression, 1);
    reveal_with_fuel(parse_expression_list, 1);
}

/// [`parse_pair_list`], unfolded once.
pub proof fn lemma_parse_pair_list(
    ts: Seq<TokenView>,
    pos: int,
    depth: nat,
)
    ensures
        same(parse_pair_list(ts, pos, depth), ({
            if token(ts, pos) is RBrace {
                Ok((Seq::empty(), 0))
            } else if token(ts, pos) is Eof {
                unexpected(ts, pos, Expectation::Expression)
            } else {
                match parse_expression(ts, pos, Precedence::Lowest, depth) {
                    Err(e) => Err(e),
                    Ok((key, n)) => {
                        if token(ts, pos + n + 1) !is Colon {
                            unexpected(ts, pos + n + 1, Expectation::Colon)
                        } else {
                            match parse_expression(ts, pos + n + 2, Precedence::Lowest, depth) {
                                Err(e) => Err(e),
                                Ok((value, m)) => {
                                    let after = pos + n + 2 + m + 1;
                                    if token(ts, after) is Comma {
                                        prefixed(
                                            seq![(key, value)],
                                            n + 2 + m + 2,
                                            parse_pair_list(ts, after + 1, depth),
                                        )
                                    } else if token(ts, after) is RBrace {
                                        Ok((seq![(key, value)], n + 2 + m + 1))
                                    } else {
                                        unexpected(ts, after, Expectation::CommaOrRBrace)
                                    }
                                },
                            }
                        }
                    },
                }
            }
        })),
{
    reveal_with_fuel(parse_pair_list, 1);
    reveal_with_fuel(parse_expression, 1);
}

/// [`parse_hash_expression`], unfolded once.
pub proof fn lemma_parse_hash_expression(
    ts: Seq<TokenView>,
    pos: int,
    depth: nat,
)
    ensures
        same(parse_hash_expression(ts, pos, depth), ({
            if token(ts, pos) !is LBrace {
                unexpected(ts, pos, Expectation::Expression)
            } else {
                match parse_pair_list(ts, pos + 1, depth) {
                    Err(e) => Err(e),
                    Ok((pairs, n)) => Ok((ExpressionView::Hash(pairs), 1 + n)),
                }
            }
        })),
{
    reveal_with_fuel(parse_hash_expression, 1);
    reveal_with_fuel(parse_pair_list, 1);
}

/// [`parse_braced_block`], unfolded once.
pub proof fn lemma_parse_braced_block(
    ts: Seq<TokenView>,
    pos: int,
    depth: nat,
)
    ensures
        same(parse_braced_block(ts, pos, depth), ({
            if token(ts, pos) !is LBrace {
                unexpected(ts, pos, Expectation::LBrace)
            } else {
                shifted(1, parse_block_statement(ts, pos + 1, depth))
            }
        })),
{
    reveal_with_fuel(parse_braced_block, 1);
    reveal_with_fuel(parse_block_statement, 1);
}

/// [`parse_if_expression`], unfolded once.
pub proof fn lemma_parse_if_expression(
    ts: Seq<TokenView>,
    pos: int,
    depth: nat,
)
    ensures
        same(parse_if_expression(ts, pos, depth), ({
            if token(ts, pos) !is If {
                unexpected(ts, pos, Expectation::Expression)
            } else if token(ts, pos + 1) !is LParen {
                unexpected(ts, pos + 1, Expectation::LParen)
            } else {
                match parse_expression(ts, pos + 2, Precedence::Lowest, depth) {
                    Err(e) => Err(e),
                    Ok((cond, n)) => {
                        let close = pos + 2 + n + 1;
                        if token(ts, close) !is RParen {
                            unexpected(ts, close, Expectation::RParen)
                        } else {
                            match parse_braced_block(ts, close + 1, depth) {
                                Err(e) => Err(e),
                                Ok((then_, m)) => {
                                    let end = close + 1 + m;
                                    if token(ts, end + 1) is Else {
                                        match parse_braced_block(ts, end + 2, depth) {
                                            Err(e) => Err(e),
                                            Ok((else_, k)) => Ok(
                                                (
                                                    ExpressionView::Cond {
                                                        cond: Box::new(cond),
                                                        then_,
                                                        else_: Some(else_),
                                                    },
                                                    2 + n + 1 + 1 + m + 2 + k,
                                                ),
                                            ),
                                        }
                                    } else {
                                        Ok(
                                            (
                                                ExpressionView::Cond {
                                                    cond: Box::new(cond),
                                                    then_,
                                                    else_: None,
                                                },
                                                2 + n + 1 + 1 + m,
                                            ),
                                        )
                                    }
                                },
                            }
                        }
                    },
                }
            }
        })),
{
    reveal_with_fuel(parse_if_expression, 1);
    reveal_with_fuel(parse_expression, 1);
    reveal_with_fuel(parse_braced_block, 1);
}

/// [`parse_parameters`], unfolded once.
pub proof fn lemma_parse_parameters(
    ts: Seq<TokenView>,
    pos: int,
)
    ensures
        same(parse_parameters(ts, pos), ({
            if token(ts, pos) is RParen {
                Ok((Seq::empty(), 0))
            } else {
                match token(ts, pos) {
                    TokenView::Ident(name) => {
                        if token(ts, pos + 1) is Comma {
                            prefixed(seq![name], 2, parse_parameters(ts, pos + 2))
                        } else if token(ts, pos + 1) is RParen {
                            Ok((seq![name], 1))
                        } else {
                            unexpected(ts, pos + 1, Expectation::CommaOrRParen)
                        }
                    },
                    _ => unexpected(ts, pos, Expectation::Parameter),
                }
            }
        })),
{
    reveal_with_fuel(parse_parameters, 1);
}

/// [`parse_fn_expression`], unfolded once.
pub proof fn lemma_parse_fn_expression(
    ts: Seq<TokenView>,
    pos: int,
    depth: nat,
)
    ensures
        same(parse_fn_expression(ts, pos, depth), ({
            if token(ts, pos) !is Function {
                unexpected(ts, pos, Expectation::Expression)
            } else if token(ts, pos + 1) !is LParen {
                unexpected(ts, pos + 1, Expectation::LParen)
            } else {
                match parse_parameters(ts, pos + 2) {
                    Err(e) => Err(e),
                    Ok((args, n)) => match parse_braced_block(ts, pos + 2 + n + 1, depth) {
                        Err(e) => Err(e),
                        Ok((body, m)) => Ok((ExpressionView::Func { args, body }, 2 + n + 1 + m)),
                    },
                }
            }
        })),
{
    reveal_with_fuel(parse_fn_expression, 1);
    reveal_with_fuel(parse_parameters, 1);
    reveal_with_fuel(parse_braced_block, 1);
}

/// [`parse_statements`], unfolded once.
pub proof fn lemma_parse_statements(
    ts: Seq<TokenView>,
    pos: int,
)
    ensures
        same(parse_statements(ts, pos), ({
            if token(ts, pos) is Eof {
                Ok(Seq::empty())
            } else {
                match parse_statement(ts, pos, MAX_NESTING as nat) {
                    Err(e) => Err(e),
                    Ok((statement, n)) => match parse_statements(ts, pos + n + 1) {
                        Err(e) => Err(e),
                        Ok(rest) => Ok(seq![statement] + rest),
                    },
                }
            }
        })),
{
    reveal_with_fuel(parse_statements, 1);
    reveal_with_fuel(parse_statement, 1);
}

/// Lists compose: items put in front in two steps are put in front at once.
pub proof fn lemma_prefixed_twice<T>(a: Seq<T>, i: nat, b: Seq<T>, j: nat, r: Parsed<Seq<T>>)
    ensures
        prefixed(a, i, prefixed(b, j, r)) == prefixed(a + b, i + j, r),
{
    match r {
        Ok((rest, n)) => {
            assert(a + (b + rest) =~= (a + b) + rest);
        },
        Err(_) => {},
    }
}

} // verus!
