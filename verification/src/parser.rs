//! The parser: from tokens to a program, by precedence climbing.

use vstd::prelude::*;
use crate::ast::{
    Expression, ExpressionView, InfixOperator, PrefixOperator, Program, Statement, StatementView,
    expressions_view, names_view, pairs_view, statements_view,
};
use crate::lexer::{Lexer, Token, TokenView, next_token, tokens_from, tokens_of};
use crate::ast::height::expression_height;
use crate::lexer::lemma_next_token_advances;
use crate::parser::grammar::{Parsed, left, lemma_prefixed_twice, prefixed, shifted, token};

pub mod bounds;
pub mod error;
pub mod grammar;
pub mod precedence;

pub use error::{Expectation, ParseError, ParseErrorView};
pub use grammar::{MAX_HEIGHT, MAX_NESTING};
pub use precedence::Precedence;

verus! {

/// The tokens of `ts` from index `i` on.
pub open spec fn tokens_after(ts: Seq<TokenView>, i: int) -> Seq<TokenView> {
    if 0 <= i <= ts.len() {
        ts.subrange(i, ts.len() as int)
    } else {
        Seq::empty()
    }
}

/// What a parsing function returned, as a mathematical value.
pub open spec fn viewed<T: View>(result: Result<T, ParseError>) -> Result<T::V, ParseErrorView> {
    match result {
        Ok(value) => Ok(value@),
        Err(e) => Err(e@),
    }
}

/// What a function that parses statements returned, as a mathematical value.
pub open spec fn viewed_statements(result: Result<Vec<Statement>, ParseError>) -> Result<
    Seq<StatementView>,
    ParseErrorView,
> {
    match result {
        Ok(statements) => Ok(statements_view(statements@)),
        Err(e) => Err(e@),
    }
}

/// What a function that parses a list of expressions returned, as a
/// mathematical value.
pub open spec fn viewed_expressions(result: Result<Vec<Expression>, ParseError>) -> Result<
    Seq<ExpressionView>,
    ParseErrorView,
> {
    match result {
        Ok(items) => Ok(expressions_view(items@)),
        Err(e) => Err(e@),
    }
}

/// What a function that parses a list of names returned, as a mathematical
/// value.
pub open spec fn viewed_names(result: Result<Vec<String>, ParseError>) -> Result<
    Seq<Seq<char>>,
    ParseErrorView,
> {
    match result {
        Ok(names) => Ok(names_view(names@)),
        Err(e) => Err(e@),
    }
}

/// A parsing function did what the grammar says: it returned the tree and
/// moved the current token from `before` to `after`, or returned the error.
pub open spec fn agrees<V>(
    got: Result<V, ParseErrorView>,
    expected: Parsed<V>,
    before: int,
    after: int,
) -> bool {
    match expected {
        Ok((tree, n)) => got == Ok::<V, ParseErrorView>(tree) && after == before + n,
        Err(e) => got == Err::<V, ParseErrorView>(e),
    }
}

/// Reading one token from the source moves one token forward in its token
/// sequence.
pub proof fn lemma_next_token_is_next(s: Seq<char>, pos: int, ts: Seq<TokenView>, i: int)
    requires
        0 <= pos <= s.len(),
        0 <= i,
        tokens_from(s, pos) == tokens_after(ts, i),
    ensures
        next_token(s, pos).0 == token(ts, i),
        tokens_from(s, next_token(s, pos).1) == tokens_after(ts, i + 1),
{
    lemma_next_token_advances(s, pos);
    let (t, next) = next_token(s, pos);
    if t is Eof {
        assert(tokens_from(s, pos) =~= Seq::<TokenView>::empty());
        assert(tokens_from(s, next) =~= Seq::<TokenView>::empty());
        assert(tokens_after(ts, i + 1) =~= Seq::<TokenView>::empty());
    } else {
        assert(tokens_from(s, pos) == seq![t] + tokens_from(s, next));
        assert(tokens_after(ts, i).len() > 0);
        assert(tokens_after(ts, i)[0] == t);
        assert(tokens_from(s, next) =~= tokens_after(ts, i).subrange(
            1,
            tokens_after(ts, i).len() as int,
        ));
        assert(tokens_after(ts, i + 1) =~= tokens_after(ts, i).subrange(
            1,
            tokens_after(ts, i).len() as int,
        ));
    }
}

/// A parser over one source text: the lexer that reads it and a window of
/// two tokens, the current one and the one after it.
pub struct Parser {
    lexer: Lexer,
    curr_token: Token,
    peek_token: Token,
    cursor: Ghost<int>,
}

/// The error for a token that is not what was expected.
fn mismatch(expected: Expectation, found: &Token) -> (e: ParseError)
    ensures
        e@ == (ParseErrorView { expected, found: found@ }),
{
    ParseError { expected, found: found.duplicate() }
}

impl Parser {
    /// The tokens of the source text, `Eof` left out.
    #[verifier::opaque]
    pub closed spec fn tokens(&self) -> Seq<TokenView> {
        tokens_of(self.lexer.source())
    }

    /// The index of the current token among the tokens of the source text.
    pub closed spec fn cursor(&self) -> int {
        self.cursor@
    }

    /// The window holds the tokens at the cursor and after it, and the lexer
    /// stands behind the window.
    pub closed spec fn well_formed(&self) -> bool {
        &&& 0 <= self.cursor@
        &&& self.curr_token@ == token(self.tokens(), self.cursor@)
        &&& self.peek_token@ == token(self.tokens(), self.cursor@ + 1)
        &&& self.lexer_behind_window()
    }

    /// The lexer has read the tokens up to the end of the window, and no
    /// more.
    #[verifier::opaque]
    pub closed spec fn lexer_behind_window(&self) -> bool {
        &&& self.lexer.well_formed()
        &&& self.lexer.remaining() == tokens_after(self.tokens(), self.cursor@ + 2)
    }

    /// The current token is the one at the cursor.
    pub proof fn lemma_window(&self)
        requires
            self.well_formed(),
        ensures
            0 <= self.cursor(),
            self.curr_token_view() == token(self.tokens(), self.cursor()),
            self.peek_token_view() == token(self.tokens(), self.cursor() + 1),
    {
    }

    /// The current token, as a mathematical value.
    pub closed spec fn curr_token_view(&self) -> TokenView {
        self.curr_token@
    }

    /// The token after the current one, as a mathematical value.
    pub closed spec fn peek_token_view(&self) -> TokenView {
        self.peek_token@
    }

    /// A parser at the start of `input`.
    pub fn init(input: &str) -> (parser: Parser)
        ensures
            parser.well_formed(),
            parser.tokens() == tokens_of(input@),
            parser.cursor() == 0,
    {
        let mut lexer = Lexer::init(input);
        let ghost ts = tokens_of(input@);
        proof {
            reveal(Parser::tokens);
            reveal(Parser::lexer_behind_window);
            assert(tokens_after(ts, 0) =~= ts);
            lemma_next_token_is_next(input@, 0, ts, 0);
            lemma_next_token_advances(input@, 0);
            lemma_next_token_is_next(input@, next_token(input@, 0).1, ts, 1);
        }
        let curr_token = lexer.next_token();
        let peek_token = lexer.next_token();
        Parser { lexer, curr_token, peek_token, cursor: Ghost(0) }
    }

    /// The current token.
    pub fn curr_token(&self) -> (t: &Token)
        ensures
            t@ == self.curr_token_view(),
    {
        &self.curr_token
    }

    /// The token after the current one.
    pub fn peek_token(&self) -> (t: &Token)
        ensures
            t@ == self.peek_token_view(),
    {
        &self.peek_token
    }

    /// The program that the tokens from the current one on spell, or the
    /// first syntax error in them.
    pub fn parse_program(&mut self) -> (result: Result<Program, ParseError>)
        requires
            old(self).well_formed(),
        ensures
            final(self).well_formed(),
            final(self).tokens() == old(self).tokens(),
            viewed(result) == grammar::parse_statements(old(self).tokens(), old(self).cursor()),
    {
        proof {
            grammar::lemma_parse_statements(self.tokens(), self.cursor());
        }
        let mut statements: Vec<Statement> = Vec::new();
        let ghost ts = self.tokens();
        let ghost start = self.cursor();
        assert(statements_view(statements@) =~= Seq::<StatementView>::empty());
        while !self.curr_token.is_eof()
            invariant
                self.well_formed(),
                self.tokens() == ts,
                ts == old(self).tokens(),
                start == old(self).cursor(),
                grammar::parse_statements(ts, start) == (match grammar::parse_statements(
                    ts,
                    self.cursor(),
                ) {
                    Ok(rest) => Ok::<Seq<StatementView>, ParseErrorView>(
                        statements_view(statements@) + rest,
                    ),
                    Err(e) => Err(e),
                }),
            decreases left(ts, self.cursor()),
        {
            proof {
                grammar::lemma_parse_statements(self.tokens(), self.cursor());
            }
            let ghost before = statements_view(statements@);
            let statement = self.parse_statement(MAX_NESTING)?;
            statements.push(statement);
            self.advance_token();
            proof {
                assert(statements_view(statements@) =~= before.push(statement@));
                match grammar::parse_statements(ts, self.cursor()) {
                    Ok(rest) => {
                        assert(before + (seq![statement@] + rest) =~= before.push(statement@)
                            + rest);
                    },
                    Err(_) => {},
                }
            }
        }
        proof {
            grammar::lemma_parse_statements(ts, self.cursor());
            assert(statements_view(statements@) + Seq::<StatementView>::empty()
                =~= statements_view(statements@));
        }
        Ok(Program { statements })
    }

    /// A statement: `let`, `return`, or an expression.
    fn parse_statement(&mut self, depth: usize) -> (result: Result<Statement, ParseError>)
        requires
            old(self).well_formed(),
        ensures
            final(self).well_formed(),
            final(self).tokens() == old(self).tokens(),
            agrees(
                viewed(result),
                grammar::parse_statement(old(self).tokens(), old(self).cursor(), depth as nat),
                old(self).cursor(),
                final(self).cursor(),
            ),
        decreases left(old(self).tokens(), old(self).cursor()), 6nat,
    {
        proof {
            grammar::lemma_parse_statement(self.tokens(), self.cursor(), depth as nat);
        }
        match self.curr_token {
            Token::Let => self.parse_let_statement(depth),
            Token::Return => self.parse_return_statement(depth),
            _ => self.parse_expression_statement(depth),
        }
    }

    /// `let <name> = <expression>`, closed by `;` or the end of the input.
    fn parse_let_statement(&mut self, depth: usize) -> (result: Result<Statement, ParseError>)
        requires
            old(self).well_formed(),
            token(old(self).tokens(), old(self).cursor()) is Let,
        ensures
            final(self).well_formed(),
            final(self).tokens() == old(self).tokens(),
            agrees(
                viewed(result),
                grammar::parse_let_statement(old(self).tokens(), old(self).cursor(), depth as nat),
                old(self).cursor(),
                final(self).cursor(),
            ),
        decreases left(old(self).tokens(), old(self).cursor()), 5nat,
    {
        proof {
            grammar::lemma_parse_let_statement(self.tokens(), self.cursor(), depth as nat);
        }
        self.advance_token();
        let name = match &self.curr_token {
            Token::Ident(name) => name.clone(),
            _ => {
                return Err(mismatch(Expectation::Identifier, &self.curr_token));
            },
        };
        self.advance_token();
        match self.curr_token {
            Token::Assign => {},
            _ => {
                return Err(mismatch(Expectation::Assign, &self.curr_token));
            },
        }
        self.advance_token();
        let value = self.parse_expression(Precedence::Lowest, depth)?;
        match self.peek_token {
            Token::Semicolon | Token::Eof => {},
            _ => {
                return Err(mismatch(Expectation::SemicolonOrEof, &self.peek_token));
            },
        }
        self.advance_token();
        Ok(Statement::Let { name, value })
    }

    /// `return <expression>;`
    fn parse_return_statement(&mut self, depth: usize) -> (result: Result<Statement, ParseError>)
        requires
            old(self).well_formed(),
            token(old(self).tokens(), old(self).cursor()) is Return,
        ensures
            final(self).well_formed(),
            final(self).tokens() == old(self).tokens(),
            agrees(
                viewed(result),
                grammar::parse_return_statement(old(self).tokens(), old(self).cursor(), depth as nat),
                old(self).cursor(),
                final(self).cursor(),
            ),
        decreases left(old(self).tokens(), old(self).cursor()), 5nat,
    {
        proof {
            grammar::lemma_parse_return_statement(self.tokens(), self.cursor(), depth as nat);
        }
        self.advance_token();
        let value = self.parse_expression(Precedence::Lowest, depth)?;
        match self.peek_token {
            Token::Semicolon => {},
            _ => {
                return Err(mismatch(Expectation::Semicolon, &self.peek_token));
            },
        }
        self.advance_token();
        Ok(Statement::Return { value })
    }

    /// The statements of a block, up to the `}` that closes it.
    fn parse_block_statement(&mut self, depth: usize) -> (result: Result<Vec<Statement>, ParseError>)
        requires
            old(self).well_formed(),
        ensures
            final(self).well_formed(),
            final(self).tokens() == old(self).tokens(),
            agrees(
                viewed_statements(result),
                grammar::parse_block_statement(old(self).tokens(), old(self).cursor(), depth as nat),
                old(self).cursor(),
                final(self).cursor(),
            ),
        decreases left(old(self).tokens(), old(self).cursor()), 7nat,
    {
        proof {
            grammar::lemma_parse_block_statement(self.tokens(), self.cursor(), depth as nat);
        }
        let mut statements: Vec<Statement> = Vec::new();
        let ghost ts = self.tokens();
        let ghost start = self.cursor();
        assert(statements_view(statements@) =~= Seq::<StatementView>::empty());
        assert(prefixed(
            Seq::<StatementView>::empty(),
            0,
            grammar::parse_block_statement(ts, start, depth as nat),
        ) == grammar::parse_block_statement(ts, start, depth as nat)) by {
            match grammar::parse_block_statement(ts, start, depth as nat) {
                Ok((rest, n)) => {
                    assert(Seq::<StatementView>::empty() + rest =~= rest);
                },
                Err(_) => {},
            }
        }
        while !self.curr_token.is(&Token::RBrace)
            invariant
                self.well_formed(),
                self.tokens() == ts,
                ts == old(self).tokens(),
                start == old(self).cursor(),
                start <= self.cursor(),
                grammar::parse_block_statement(ts, start, depth as nat) == prefixed(
                    statements_view(statements@),
                    (self.cursor() - start) as nat,
                    grammar::parse_block_statement(ts, self.cursor(), depth as nat),
                ),
            decreases left(ts, self.cursor()),
        {
            proof {
                grammar::lemma_parse_block_statement(self.tokens(), self.cursor(), depth as nat);
            }
            if self.curr_token.is_eof() {
                return Err(mismatch(Expectation::Expression, &self.curr_token));
            }
            let ghost before = statements_view(statements@);
            let ghost at = self.cursor();
            let statement = self.parse_statement(depth)?;
            statements.push(statement);
            self.advance_token();
            proof {
                assert(statements_view(statements@) =~= before + seq![statement@]);
                lemma_prefixed_twice(
                    before,
                    (at - start) as nat,
                    seq![statement@],
                    (self.cursor() - at) as nat,
                    grammar::parse_block_statement(ts, self.cursor(), depth as nat),
                );
            }
        }
        proof {
            grammar::lemma_parse_block_statement(ts, self.cursor(), depth as nat);
            assert(statements_view(statements@) + Seq::<StatementView>::empty()
                =~= statements_view(statements@));
        }
        Ok(statements)
    }

    /// `{`, the statements of a block and its `}`, the `{` being expected
    /// as the current token.
    fn parse_braced_block(&mut self, depth: usize) -> (result: Result<Vec<Statement>, ParseError>)
        requires
            old(self).well_formed(),
        ensures
            final(self).well_formed(),
            final(self).tokens() == old(self).tokens(),
            agrees(
                viewed_statements(result),
                grammar::parse_braced_block(old(self).tokens(), old(self).cursor(), depth as nat),
                old(self).cursor(),
                final(self).cursor(),
            ),
        decreases left(old(self).tokens(), old(self).cursor()), 8nat,
    {
        proof {
            grammar::lemma_parse_braced_block(self.tokens(), self.cursor(), depth as nat);
        }
        match self.curr_token {
            Token::LBrace => {},
            _ => {
                return Err(mismatch(Expectation::LBrace, &self.curr_token));
            },
        }
        self.advance_token();
        self.parse_block_statement(depth)
    }

    /// An expression, and the `;` after it if there is one.
    fn parse_expression_statement(&mut self, depth: usize) -> (result: Result<Statement, ParseError>)
        requires
            old(self).well_formed(),
        ensures
            final(self).well_formed(),
            final(self).tokens() == old(self).tokens(),
            agrees(
                viewed(result),
                grammar::parse_expression_statement(old(self).tokens(), old(self).cursor(), depth as nat),
                old(self).cursor(),
                final(self).cursor(),
            ),
        decreases left(old(self).tokens(), old(self).cursor()), 5nat,
    {
        proof {
            grammar::lemma_parse_expression_statement(self.tokens(), self.cursor(), depth as nat);
        }
        let statement = Statement::Expr(self.parse_expression(Precedence::Lowest, depth)?);
        if self.peek_token.is(&Token::Semicolon) {
            self.advance_token();
        }
        Ok(statement)
    }

    /// An expression whose operators all bind tighter than `precedence`.
    fn parse_expression(&mut self, precedence: Precedence, depth: usize) -> (result: Result<
        Expression,
        ParseError,
    >)
        requires
            old(self).well_formed(),
        ensures
            final(self).well_formed(),
            final(self).tokens() == old(self).tokens(),
            agrees(
                viewed(result),
                grammar::parse_expression(old(self).tokens(), old(self).cursor(), precedence, depth as nat),
                old(self).cursor(),
                final(self).cursor(),
            ),
        decreases left(old(self).tokens(), old(self).cursor()), 4nat,
    {
        proof {
            grammar::lemma_parse_expression(self.tokens(), self.cursor(), precedence, depth as nat);
        }
        let ghost ts = self.tokens();
        let ghost start = self.cursor();
        if depth == 0 {
            return Err(mismatch(Expectation::ShallowerNesting, &self.curr_token));
        }
        let deeper = depth - 1;
        let mut first = self.parse_prefix(deeper)?;
        let mut height = match first.height_within(MAX_HEIGHT) {
            Some(height) => height,
            None => {
                return Err(mismatch(Expectation::LowerTree, &self.curr_token));
            },
        };
        while !self.peek_token.is(&Token::Semicolon) && precedence.level()
            < self.peek_precedence().level()
            invariant
                self.well_formed(),
                self.tokens() == ts,
                self.tokens() == old(self).tokens(),
                start == old(self).cursor(),
                start <= self.cursor(),
                grammar::parse_expression(ts, start, precedence, depth as nat) == shifted(
                    (self.cursor() - start) as nat,
                    grammar::parse_operators(ts, self.cursor(), first@, precedence, deeper as nat),
                ),
                deeper == depth - 1,
                height == expression_height(first@),
                height <= MAX_HEIGHT,
            decreases left(ts, self.cursor()),
        {
            proof {
                grammar::lemma_parse_operators(
                    self.tokens(),
                    self.cursor(),
                    first@,
                    precedence,
                    deeper as nat,
                );
            }
            self.advance_token();
            proof {
                grammar::lemma_parse_call_expression(ts, self.cursor(), first@, deeper as nat);
                grammar::lemma_parse_infix_expression(ts, self.cursor(), first@, deeper as nat);
            }
            first = match self.curr_token {
                Token::LParen => self.parse_call_expression(first, deeper)?,
                _ => self.parse_infix_expression(first, deeper)?,
            };
            height = match first.height_over(height, MAX_HEIGHT) {
                Some(height) => height,
                None => {
                    return Err(mismatch(Expectation::LowerTree, &self.curr_token));
                },
            };
        }
        proof {
            grammar::lemma_parse_operators(ts, self.cursor(), first@, precedence, deeper as nat);
        }
        Ok(first)
    }

    /// The expression that starts at the current token.
    fn parse_prefix(&mut self, depth: usize) -> (result: Result<Expression, ParseError>)
        requires
            old(self).well_formed(),
        ensures
            final(self).well_formed(),
            final(self).tokens() == old(self).tokens(),
            agrees(
                viewed(result),
                grammar::parse_prefix(old(self).tokens(), old(self).cursor(), depth as nat),
                old(self).cursor(),
                final(self).cursor(),
            ),
        decreases left(old(self).tokens(), old(self).cursor()), 3nat,
    {
        proof {
            grammar::lemma_parse_prefix(self.tokens(), self.cursor(), depth as nat);
        }
        match &self.curr_token {
            Token::Bang | Token::Minus => self.parse_prefix_expression(depth),
            Token::Ident(value) => Ok(Expression::Ident(value.clone())),
            Token::Int(value) => Ok(Expression::Int(*value)),
            Token::String(text) => Ok(Expression::String(text.clone())),
            Token::True => Ok(Expression::Bool(true)),
            Token::False => Ok(Expression::Bool(false)),
            Token::LParen => self.parse_grouped_expression(depth),
            Token::If => self.parse_if_expression(depth),
            Token::Function => self.parse_fn_expression(depth),
            Token::LBracket => self.parse_array_expression(depth),
            Token::LBrace => self.parse_hash_expression(depth),
            _ => Err(mismatch(Expectation::Expression, &self.curr_token)),
        }
    }

    /// `!<expression>` or `-<expression>`
    fn parse_prefix_expression(&mut self, depth: usize) -> (result: Result<Expression, ParseError>)
        requires
            old(self).well_formed(),
        ensures
            final(self).well_formed(),
            final(self).tokens() == old(self).tokens(),
            agrees(
                viewed(result),
                grammar::parse_prefix_expression(old(self).tokens(), old(self).cursor(), depth as nat),
                old(self).cursor(),
                final(self).cursor(),
            ),
        decreases left(old(self).tokens(), old(self).cursor()), 2nat,
    {
        proof {
            grammar::lemma_parse_prefix_expression(self.tokens(), self.cursor(), depth as nat);
        }
        let operator = PrefixOperator::try_from(&self.curr_token)?;
        self.advance_token();
        let right = self.parse_expression(Precedence::Prefix, depth)?;
        Ok(Expression::Prefix { operator, right: Box::new(right) })
    }

    /// `<left> <operator> <right>`, the current token being the operator.
    fn parse_infix_expression(&mut self, first: Expression, depth: usize) -> (result: Result<
        Expression,
        ParseError,
    >)
        requires
            old(self).well_formed(),
        ensures
            final(self).well_formed(),
            final(self).tokens() == old(self).tokens(),
            agrees(
                viewed(result),
                grammar::parse_infix_expression(old(self).tokens(), old(self).cursor(), first@, depth as nat),
                old(self).cursor(),
                final(self).cursor(),
            ),
        decreases left(old(self).tokens(), old(self).cursor()), 2nat,
    {
        proof {
            grammar::lemma_parse_infix_expression(self.tokens(), self.cursor(), first@, depth as nat);
        }
        let operator = InfixOperator::try_from(&self.curr_token)?;
        let precedence = match operator {
            InfixOperator::Index => Precedence::Lowest,
            _ => self.curr_precedence(),
        };
        self.advance_token();
        let right = self.parse_expression(precedence, depth)?;
        match operator {
            InfixOperator::Index => {
                match self.peek_token {
                    Token::RBracket => {},
                    _ => {
                        return Err(mismatch(Expectation::RBracket, &self.peek_token));
                    },
                }
                self.advance_token();
            },
            _ => {},
        }
        Ok(Expression::Infix { operator, left: Box::new(first), right: Box::new(right) })
    }

    /// `(<expression>)`
    fn parse_grouped_expression(&mut self, depth: usize) -> (result: Result<Expression, ParseError>)
        requires
            old(self).well_formed(),
            token(old(self).tokens(), old(self).cursor()) is LParen,
        ensures
            final(self).well_formed(),
            final(self).tokens() == old(self).tokens(),
            agrees(
                viewed(result),
                grammar::parse_grouped_expression(old(self).tokens(), old(self).cursor(), depth as nat),
                old(self).cursor(),
                final(self).cursor(),
            ),
        decreases left(old(self).tokens(), old(self).cursor()), 2nat,
    {
        proof {
            grammar::lemma_parse_grouped_expression(self.tokens(), self.cursor(), depth as nat);
        }
        self.advance_token();
        let inner = self.parse_expression(Precedence::Lowest, depth)?;
        match self.peek_token {
            Token::RParen => {},
            _ => {
                return Err(mismatch(Expectation::RParen, &self.peek_token));
            },
        }
        self.advance_token();
        Ok(inner)
    }

    /// Expressions separated by `,`, up to the token `closer`.
    fn parse_expression_list(&mut self, closer: &Token, expected: Expectation, depth: usize) -> (result: Result<
        Vec<Expression>,
        ParseError,
    >)
        requires
            old(self).well_formed(),
            closer@ !is Comma,
        ensures
            final(self).well_formed(),
            final(self).tokens() == old(self).tokens(),
            agrees(
                viewed_expressions(result),
                grammar::parse_expression_list(
                    old(self).tokens(),
                    old(self).cursor(),
                    closer@,
                    expected,
                    depth as nat,
                ),
                old(self).cursor(),
                final(self).cursor(),
            ),
        decreases left(old(self).tokens(), old(self).cursor()), 5nat,
    {
        proof {
            grammar::lemma_parse_expression_list(self.tokens(), self.cursor(), closer@, expected, depth as nat);
        }
        let mut items: Vec<Expression> = Vec::new();
        let ghost ts = self.tokens();
        let ghost start = self.cursor();
        assert(expressions_view(items@) =~= Seq::<ExpressionView>::empty());
        assert(prefixed(
            Seq::<ExpressionView>::empty(),
            0,
            grammar::parse_expression_list(ts, start, closer@, expected, depth as nat),
        ) == grammar::parse_expression_list(ts, start, closer@, expected, depth as nat)) by {
            match grammar::parse_expression_list(ts, start, closer@, expected, depth as nat) {
                Ok((rest, n)) => {
                    assert(Seq::<ExpressionView>::empty() + rest =~= rest);
                },
                Err(_) => {},
            }
        }
        while !self.curr_token.is(closer)
            invariant
                self.well_formed(),
                self.tokens() == ts,
                ts == old(self).tokens(),
                start == old(self).cursor(),
                start <= self.cursor(),
                closer@ !is Comma,
                grammar::parse_expression_list(ts, start, closer@, expected, depth as nat) == prefixed(
                    expressions_view(items@),
                    (self.cursor() - start) as nat,
                    grammar::parse_expression_list(ts, self.cursor(), closer@, expected, depth as nat),
                ),
            decreases left(ts, self.cursor()),
        {
            proof {
                grammar::lemma_parse_expression_list(
                    self.tokens(),
                    self.cursor(),
                    closer@,
                    expected,
                    depth as nat,
                );
            }
            if self.curr_token.is_eof() {
                return Err(mismatch(Expectation::Expression, &self.curr_token));
            }
            let ghost before = expressions_view(items@);
            let ghost at = self.cursor();
            let item = self.parse_expression(Precedence::Lowest, depth)?;
            items.push(item);
            self.advance_token();
            if self.curr_token.is(&Token::Comma) {
                self.advance_token();
            } else if !self.curr_token.is(closer) {
                return Err(mismatch(expected, &self.curr_token));
            }
            proof {
                assert(expressions_view(items@) =~= before + seq![item@]);
                lemma_prefixed_twice(
                    before,
                    (at - start) as nat,
                    seq![item@],
                    (self.cursor() - at) as nat,
                    grammar::parse_expression_list(ts, self.cursor(), closer@, expected, depth as nat),
                );
                grammar::lemma_parse_expression_list(ts, self.cursor(), closer@, expected, depth as nat);
                assert(seq![item@] + Seq::<ExpressionView>::empty() =~= seq![item@]);
            }
        }
        proof {
            grammar::lemma_parse_expression_list(ts, self.cursor(), closer@, expected, depth as nat);
            assert(expressions_view(items@) + Seq::<ExpressionView>::empty() =~= expressions_view(
                items@,
            ));
        }
        Ok(items)
    }

    /// `[<expression>, ...]`
    fn parse_array_expression(&mut self, depth: usize) -> (result: Result<Expression, ParseError>)
        requires
            old(self).well_formed(),
            token(old(self).tokens(), old(self).cursor()) is LBracket,
        ensures
            final(self).well_formed(),
            final(self).tokens() == old(self).tokens(),
            agrees(
                viewed(result),
                grammar::parse_array_expression(old(self).tokens(), old(self).cursor(), depth as nat),
                old(self).cursor(),
                final(self).cursor(),
            ),
        decreases left(old(self).tokens(), old(self).cursor()), 2nat,
    {
        proof {
            grammar::lemma_parse_array_expression(self.tokens(), self.cursor(), depth as nat);
        }
        self.advance_token();
        let content = self.parse_expression_list(&Token::RBracket, Expectation::CommaOrRBracket, depth)?;
        Ok(Expression::Array(content))
    }

    /// `{<key>: <value>, ...}`
    fn parse_hash_expression(&mut self, depth: usize) -> (result: Result<Expression, ParseError>)
        requires
            old(self).well_formed(),
            token(old(self).tokens(), old(self).cursor()) is LBrace,
        ensures
            final(self).well_formed(),
            final(self).tokens() == old(self).tokens(),
            agrees(
                viewed(result),
                grammar::parse_hash_expression(old(self).tokens(), old(self).cursor(), depth as nat),
                old(self).cursor(),
                final(self).cursor(),
            ),
        decreases left(old(self).tokens(), old(self).cursor()), 2nat,
    {
        proof {
            grammar::lemma_parse_hash_expression(self.tokens(), self.cursor(), depth as nat);
        }
        self.advance_token();
        let mut content: Vec<(Expression, Expression)> = Vec::new();
        let ghost ts = self.tokens();
        let ghost start = self.cursor();
        assert(pairs_view(content@) =~= Seq::<(ExpressionView, ExpressionView)>::empty());
        assert(prefixed(
            Seq::<(ExpressionView, ExpressionView)>::empty(),
            0,
            grammar::parse_pair_list(ts, start, depth as nat),
        ) == grammar::parse_pair_list(ts, start, depth as nat)) by {
            match grammar::parse_pair_list(ts, start, depth as nat) {
                Ok((rest, n)) => {
                    assert(Seq::<(ExpressionView, ExpressionView)>::empty() + rest =~= rest);
                },
                Err(_) => {},
            }
        }
        while !self.curr_token.is(&Token::RBrace)
            invariant
                self.well_formed(),
                self.tokens() == ts,
                self.tokens() == old(self).tokens(),
                start == old(self).cursor() + 1,
                token(ts, start - 1) is LBrace,
                start <= self.cursor(),
                grammar::parse_pair_list(ts, start, depth as nat) == prefixed(
                    pairs_view(content@),
                    (self.cursor() - start) as nat,
                    grammar::parse_pair_list(ts, self.cursor(), depth as nat),
                ),
            decreases left(ts, self.cursor()),
        {
            proof {
                grammar::lemma_parse_hash_expression(ts, start - 1, depth as nat);
                grammar::lemma_parse_pair_list(self.tokens(), self.cursor(), depth as nat);
            }
            if self.curr_token.is_eof() {
                return Err(mismatch(Expectation::Expression, &self.curr_token));
            }
            let ghost before = pairs_view(content@);
            let ghost at = self.cursor();
            let key = self.parse_expression(Precedence::Lowest, depth)?;
            self.advance_token();
            match self.curr_token {
                Token::Colon => {},
                _ => {
                    return Err(mismatch(Expectation::Colon, &self.curr_token));
                },
            }
            self.advance_token();
            let value = self.parse_expression(Precedence::Lowest, depth)?;
            self.advance_token();
            let ghost pair = (key@, value@);
            content.push((key, value));
            if self.curr_token.is(&Token::Comma) {
                self.advance_token();
            } else if !self.curr_token.is(&Token::RBrace) {
                return Err(mismatch(Expectation::CommaOrRBrace, &self.curr_token));
            }
            proof {
                assert(pairs_view(content@) =~= before + seq![pair]);
                lemma_prefixed_twice(
                    before,
                    (at - start) as nat,
                    seq![pair],
                    (self.cursor() - at) as nat,
                    grammar::parse_pair_list(ts, self.cursor(), depth as nat),
                );
                grammar::lemma_parse_pair_list(ts, self.cursor(), depth as nat);
                assert(seq![pair] + Seq::<(ExpressionView, ExpressionView)>::empty() =~= seq![
                    pair,
                ]);
            }
        }
        proof {
            grammar::lemma_parse_pair_list(ts, self.cursor(), depth as nat);
            assert(pairs_view(content@) + Seq::<(ExpressionView, ExpressionView)>::empty()
                =~= pairs_view(content@));
        }
        Ok(Expression::Hash(content))
    }

    /// `if (<condition>) { ... }`, with `else { ... }` after it or not.
    fn parse_if_expression(&mut self, depth: usize) -> (result: Result<Expression, ParseError>)
        requires
            old(self).well_formed(),
            token(old(self).tokens(), old(self).cursor()) is If,
        ensures
            final(self).well_formed(),
            final(self).tokens() == old(self).tokens(),
            agrees(
                viewed(result),
                grammar::parse_if_expression(old(self).tokens(), old(self).cursor(), depth as nat),
                old(self).cursor(),
                final(self).cursor(),
            ),
        decreases left(old(self).tokens(), old(self).cursor()), 2nat,
    {
        proof {
            grammar::lemma_parse_if_expression(self.tokens(), self.cursor(), depth as nat);
        }
        self.advance_token();
        match self.curr_token {
            Token::LParen => {},
            _ => {
                return Err(mismatch(Expectation::LParen, &self.curr_token));
            },
        }
        self.advance_token();
        let cond = self.parse_expression(Precedence::Lowest, depth)?;
        self.advance_token();
        match self.curr_token {
            Token::RParen => {},
            _ => {
                return Err(mismatch(Expectation::RParen, &self.curr_token));
            },
        }
        self.advance_token();
        let then_ = self.parse_braced_block(depth)?;
        let else_ = if self.peek_token.is(&Token::Else) {
            self.advance_token();
            self.advance_token();
            Some(self.parse_braced_block(depth)?)
        } else {
            None
        };
        Ok(Expression::Cond { cond: Box::new(cond), then_, else_ })
    }

    /// Parameter names separated by `,`, up to the `)` that closes the list.
    fn parse_parameters(&mut self) -> (result: Result<Vec<String>, ParseError>)
        requires
            old(self).well_formed(),
        ensures
            final(self).well_formed(),
            final(self).tokens() == old(self).tokens(),
            agrees(
                viewed_names(result),
                grammar::parse_parameters(old(self).tokens(), old(self).cursor()),
                old(self).cursor(),
                final(self).cursor(),
            ),
    {
        proof {
            grammar::lemma_parse_parameters(self.tokens(), self.cursor());
        }
        let mut args: Vec<String> = Vec::new();
        let ghost ts = self.tokens();
        let ghost start = self.cursor();
        assert(names_view(args@) =~= Seq::<Seq<char>>::empty());
        assert(prefixed(Seq::<Seq<char>>::empty(), 0, grammar::parse_parameters(ts, start))
            == grammar::parse_parameters(ts, start)) by {
            match grammar::parse_parameters(ts, start) {
                Ok((rest, n)) => {
                    assert(Seq::<Seq<char>>::empty() + rest =~= rest);
                },
                Err(_) => {},
            }
        }
        while !self.curr_token.is(&Token::RParen)
            invariant
                self.well_formed(),
                self.tokens() == ts,
                ts == old(self).tokens(),
                start == old(self).cursor(),
                start <= self.cursor(),
                grammar::parse_parameters(ts, start) == prefixed(
                    names_view(args@),
                    (self.cursor() - start) as nat,
                    grammar::parse_parameters(ts, self.cursor()),
                ),
            decreases left(ts, self.cursor()),
        {
            proof {
                grammar::lemma_parse_parameters(self.tokens(), self.cursor());
            }
            let ghost before = names_view(args@);
            let ghost at = self.cursor();
            let arg = match &self.curr_token {
                Token::Ident(arg) => arg.clone(),
                _ => {
                    return Err(mismatch(Expectation::Parameter, &self.curr_token));
                },
            };
            args.push(arg);
            self.advance_token();
            if self.curr_token.is(&Token::Comma) {
                self.advance_token();
            } else if !self.curr_token.is(&Token::RParen) {
                return Err(mismatch(Expectation::CommaOrRParen, &self.curr_token));
            }
            proof {
                assert(names_view(args@) =~= before + seq![arg@]);
                lemma_prefixed_twice(
                    before,
                    (at - start) as nat,
                    seq![arg@],
                    (self.cursor() - at) as nat,
                    grammar::parse_parameters(ts, self.cursor()),
                );
                grammar::lemma_parse_parameters(ts, self.cursor());
                assert(seq![arg@] + Seq::<Seq<char>>::empty() =~= seq![arg@]);
            }
        }
        proof {
            grammar::lemma_parse_parameters(ts, self.cursor());
            assert(names_view(args@) + Seq::<Seq<char>>::empty() =~= names_view(args@));
        }
        Ok(args)
    }

    /// `fn(<name>, ...) { ... }`
    fn parse_fn_expression(&mut self, depth: usize) -> (result: Result<Expression, ParseError>)
        requires
            old(self).well_formed(),
            token(old(self).tokens(), old(self).cursor()) is Function,
        ensures
            final(self).well_formed(),
            final(self).tokens() == old(self).tokens(),
            agrees(
                viewed(result),
                grammar::parse_fn_expression(old(self).tokens(), old(self).cursor(), depth as nat),
                old(self).cursor(),
                final(self).cursor(),
            ),
        decreases left(old(self).tokens(), old(self).cursor()), 2nat,
    {
        proof {
            grammar::lemma_parse_fn_expression(self.tokens(), self.cursor(), depth as nat);
        }
        self.advance_token();
        match self.curr_token {
            Token::LParen => {},
            _ => {
                return Err(mismatch(Expectation::LParen, &self.curr_token));
            },
        }
        self.advance_token();
        let args = self.parse_parameters()?;
        self.advance_token();
        let body = self.parse_braced_block(depth)?;
        Ok(Expression::Func { args, body })
    }

    /// `<callee>(<expression>, ...)`, the current token being the `(`.
    fn parse_call_expression(&mut self, func: Expression, depth: usize) -> (result: Result<
        Expression,
        ParseError,
    >)
        requires
            old(self).well_formed(),
            token(old(self).tokens(), old(self).cursor()) is LParen,
        ensures
            final(self).well_formed(),
            final(self).tokens() == old(self).tokens(),
            agrees(
                viewed(result),
                grammar::parse_call_expression(old(self).tokens(), old(self).cursor(), func@, depth as nat),
                old(self).cursor(),
                final(self).cursor(),
            ),
        decreases left(old(self).tokens(), old(self).cursor()), 2nat,
    {
        proof {
            grammar::lemma_parse_call_expression(self.tokens(), self.cursor(), func@, depth as nat);
        }
        self.advance_token();
        let args = self.parse_expression_list(&Token::RParen, Expectation::CommaOrRParen, depth)?;
        Ok(Expression::Call { func: Box::new(func), args })
    }

    /// The precedence of the token after the current one.
    fn peek_precedence(&self) -> (precedence: Precedence)
        ensures
            precedence == Precedence::of_token(self.peek_token@),
    {
        Precedence::get_from_token(&self.peek_token)
    }

    /// The precedence of the current token.
    fn curr_precedence(&self) -> (precedence: Precedence)
        ensures
            precedence == Precedence::of_token(self.curr_token@),
    {
        Precedence::get_from_token(&self.curr_token)
    }

    /// Moves the window one token forward.
    fn advance_token(&mut self)
        requires
            old(self).well_formed(),
        ensures
            final(self).well_formed(),
            final(self).tokens() == old(self).tokens(),
            final(self).cursor() == old(self).cursor() + 1,
    {
        proof {
            reveal(Parser::tokens);
            reveal(Parser::lexer_behind_window);
            lemma_next_token_is_next(
                self.lexer.source(),
                self.lexer.position(),
                self.tokens(),
                self.cursor@ + 2,
            );
        }
        let mut next = self.lexer.next_token();
        std::mem::swap(&mut self.peek_token, &mut next);
        self.curr_token = next;
        self.cursor = Ghost(self.cursor@ + 1);
    }
}

/// The program that `input` spells, or the first syntax error in it.
pub fn parse(input: &str) -> (result: Result<Program, ParseError>)
    ensures
        viewed(result) == grammar::parse_source(input@),
{
    let mut parser = Parser::init(input);
    parser.parse_program()
}

} // verus!
