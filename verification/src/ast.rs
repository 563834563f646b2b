//! The abstract syntax tree: what the parser builds and the evaluator walks.

use vstd::prelude::*;
use vstd::std_specs::convert::FromSpecImpl;
use crate::lexer::{Token, TokenView};
use crate::parser::error::{Expectation, ParseError};

pub mod height;

verus! {

/// A unary operator, written before its operand.
#[derive(PartialEq, Eq, Structural, Debug, Clone, Copy)]
pub enum PrefixOperator {
    Not,
    Neg,
}

/// A binary operator, written between its operands (`Index` around the
/// second one).
#[derive(PartialEq, Eq, Structural, Debug, Clone, Copy)]
pub enum InfixOperator {
    Add,
    Sub,
    Mul,
    Div,
    Eq,
    NotEq,
    Gt,
    Lt,
    Index,
}

impl PrefixOperator {
    /// The prefix operator that a token denotes, if any.
    pub open spec fn of_token(token: TokenView) -> Option<PrefixOperator> {
        match token {
            TokenView::Bang => Some(PrefixOperator::Not),
            TokenView::Minus => Some(PrefixOperator::Neg),
            _ => None,
        }
    }

    /// The prefix operator that a token denotes; an error that holds the
    /// token where it denotes none.
    pub fn try_from(token: &Token) -> (result: Result<PrefixOperator, ParseError>)
        ensures
            match PrefixOperator::of_token(token@) {
                Some(operator) => result == Ok::<PrefixOperator, ParseError>(operator),
                None => result matches Err(e) && e@.expected == Expectation::Operator && e@.found
                    == token@,
            },
    {
        match token {
            Token::Bang => Ok(PrefixOperator::Not),
            Token::Minus => Ok(PrefixOperator::Neg),
            _ => Err(ParseError { expected: Expectation::Operator, found: token.duplicate() }),
        }
    }
}

impl InfixOperator {
    /// The infix operator that a token denotes, if any.
    pub open spec fn of_token(token: TokenView) -> Option<InfixOperator> {
        match token {
            TokenView::Plus => Some(InfixOperator::Add),
            TokenView::Minus => Some(InfixOperator::Sub),
            TokenView::Asterisk => Some(InfixOperator::Mul),
            TokenView::Slash => Some(InfixOperator::Div),
            TokenView::Eq => Some(InfixOperator::Eq),
            TokenView::NotEq => Some(InfixOperator::NotEq),
            TokenView::Gt => Some(InfixOperator::Gt),
            TokenView::Lt => Some(InfixOperator::Lt),
            TokenView::LBracket => Some(InfixOperator::Index),
            _ => None,
        }
    }

    /// The infix operator that a token denotes; an error that holds the
    /// token where it denotes none.
    pub fn try_from(token: &Token) -> (result: Result<InfixOperator, ParseError>)
        ensures
            match InfixOperator::of_token(token@) {
                Some(operator) => result == Ok::<InfixOperator, ParseError>(operator),
                None => result matches Err(e) && e@.expected == Expectation::Operator && e@.found
                    == token@,
            },
    {
        match token {
            Token::Plus => Ok(InfixOperator::Add),
            Token::Minus => Ok(InfixOperator::Sub),
            Token::Asterisk => Ok(InfixOperator::Mul),
            Token::Slash => Ok(InfixOperator::Div),
            Token::Eq => Ok(InfixOperator::Eq),
            Token::NotEq => Ok(InfixOperator::NotEq),
            Token::Gt => Ok(InfixOperator::Gt),
            Token::Lt => Ok(InfixOperator::Lt),
            Token::LBracket => Ok(InfixOperator::Index),
            _ => Err(ParseError { expected: Expectation::Operator, found: token.duplicate() }),
        }
    }
}

/// An expression of the language.
#[allow(inconsistent_fields)]
#[derive(PartialEq, Eq, Debug)]
pub enum Expression {
    Bool(bool),
    Int(i64),
    Ident(String),
    String(String),
    Infix { operator: InfixOperator, left: Box<Expression>, right: Box<Expression> },
    Prefix { operator: PrefixOperator, right: Box<Expression> },
    Func { args: Vec<String>, body: Vec<Statement> },
    Call { func: Box<Expression>, args: Vec<Expression> },
    Cond { cond: Box<Expression>, then_: Vec<Statement>, else_: Option<Vec<Statement>> },
    Array(Vec<Expression>),
    Hash(Vec<(Expression, Expression)>),
}

/// A statement of the language.
#[derive(Debug, PartialEq, Eq)]
pub enum Statement {
    Let { name: String, value: Expression },
    Return { value: Expression },
    Expr(Expression),
    Block(Vec<Statement>),
}

/// A program: statements in the order in which they run.
#[derive(PartialEq, Debug)]
pub struct Program {
    pub statements: Vec<Statement>,
}

/// The mathematical value of an [`Expression`].
#[allow(inconsistent_fields)]
pub enum ExpressionView {
    Bool(bool),
    Int(i64),
    Ident(Seq<char>),
    String(Seq<char>),
    Infix { operator: InfixOperator, left: Box<ExpressionView>, right: Box<ExpressionView> },
    Prefix { operator: PrefixOperator, right: Box<ExpressionView> },
    Func { args: Seq<Seq<char>>, body: Seq<StatementView> },
    Call { func: Box<ExpressionView>, args: Seq<ExpressionView> },
    Cond {
        cond: Box<ExpressionView>,
        then_: Seq<StatementView>,
        else_: Option<Seq<StatementView>>,
    },
    Array(Seq<ExpressionView>),
    Hash(Seq<(ExpressionView, ExpressionView)>),
}

/// The mathematical value of a [`Statement`].
pub enum StatementView {
    Let { name: Seq<char>, value: ExpressionView },
    Return { value: ExpressionView },
    Expr(ExpressionView),
    Block(Seq<StatementView>),
}

/// The value of an expression.
pub open spec fn expression_view(e: Expression) -> ExpressionView
    decreases e,
{
    match e {
        Expression::Bool(value) => ExpressionView::Bool(value),
        Expression::Int(value) => ExpressionView::Int(value),
        Expression::Ident(name) => ExpressionView::Ident(name@),
        Expression::String(text) => ExpressionView::String(text@),
        Expression::Infix { operator, left, right } => ExpressionView::Infix {
            operator,
            left: Box::new(expression_view(*left)),
            right: Box::new(expression_view(*right)),
        },
        Expression::Prefix { operator, right } => ExpressionView::Prefix {
            operator,
            right: Box::new(expression_view(*right)),
        },
        Expression::Func { args, body } => ExpressionView::Func {
            args: names_view(args@),
            body: statements_view(body@),
        },
        Expression::Call { func, args } => ExpressionView::Call {
            func: Box::new(expression_view(*func)),
            args: expressions_view(args@),
        },
        Expression::Cond { cond, then_, else_ } => ExpressionView::Cond {
            cond: Box::new(expression_view(*cond)),
            then_: statements_view(then_@),
            else_: match else_ {
                Some(statements) => Some(statements_view(statements@)),
                None => None,
            },
        },
        Expression::Array(items) => ExpressionView::Array(expressions_view(items@)),
        Expression::Hash(pairs) => ExpressionView::Hash(pairs_view(pairs@)),
    }
}

/// The value of a statement.
pub open spec fn statement_view(s: Statement) -> StatementView
    decreases s,
{
    match s {
        Statement::Let { name, value } => StatementView::Let {
            name: name@,
            value: expression_view(value),
        },
        Statement::Return { value } => StatementView::Return { value: expression_view(value) },
        Statement::Expr(value) => StatementView::Expr(expression_view(value)),
        Statement::Block(statements) => StatementView::Block(statements_view(statements@)),
    }
}

/// The values of a sequence of expressions.
pub open spec fn expressions_view(v: Seq<Expression>) -> Seq<ExpressionView>
    decreases v,
{
    Seq::new(
        v.len(),
        |i: int|
            if 0 <= i < v.len() {
                expression_view(v[i])
            } else {
                ExpressionView::Bool(false)
            },
    )
}

/// The values of a sequence of statements.
pub open spec fn statements_view(v: Seq<Statement>) -> Seq<StatementView>
    decreases v,
{
    Seq::new(
        v.len(),
        |i: int|
            if 0 <= i < v.len() {
                statement_view(v[i])
            } else {
                StatementView::Block(Seq::empty())
            },
    )
}

/// The values of a sequence of key and value expressions.
pub open spec fn pairs_view(v: Seq<(Expression, Expression)>) -> Seq<
    (ExpressionView, ExpressionView),
>
    decreases v,
{
    Seq::new(
        v.len(),
        |i: int|
            if 0 <= i < v.len() {
                (expression_view(v[i].0), expression_view(v[i].1))
            } else {
                (ExpressionView::Bool(false), ExpressionView::Bool(false))
            },
    )
}

/// The texts of a sequence of names.
pub open spec fn names_view(v: Seq<String>) -> Seq<Seq<char>> {
    Seq::new(v.len(), |i: int| v[i]@)
}

impl View for Expression {
    type V = ExpressionView;

    open spec fn view(&self) -> ExpressionView {
        expression_view(*self)
    }
}

impl View for Statement {
    type V = StatementView;

    open spec fn view(&self) -> StatementView {
        statement_view(*self)
    }
}

impl View for Program {
    type V = Seq<StatementView>;

    open spec fn view(&self) -> Seq<StatementView> {
        statements_view(self.statements@)
    }
}

/// A fresh copy of a list of names.
pub fn duplicate_names(names: &Vec<String>) -> (copy: Vec<String>)
    ensures
        names_view(copy@) == names_view(names@),
{
    let mut copy: Vec<String> = Vec::new();
    let mut i: usize = 0;
    while i < names.len()
        invariant
            i <= names.len(),
            copy.len() == i,
            forall|j: int| 0 <= j < i ==> copy[j]@ == names[j]@,
        decreases names.len() - i,
    {
        copy.push(names[i].clone());
        i += 1;
    }
    assert(names_view(copy@) =~= names_view(names@));
    copy
}

/// A fresh copy of a list of expressions.
pub fn duplicate_expressions(items: &Vec<Expression>) -> (copy: Vec<Expression>)
    ensures
        expressions_view(copy@) == expressions_view(items@),
    decreases items,
{
    let mut copy: Vec<Expression> = Vec::new();
    let mut i: usize = 0;
    while i < items.len()
        invariant
            i <= items.len(),
            copy.len() == i,
            forall|j: int| 0 <= j < i ==> copy[j]@ == items[j]@,
        decreases items.len() - i,
    {
        copy.push(items[i].duplicate());
        i += 1;
    }
    assert(expressions_view(copy@) =~= expressions_view(items@));
    copy
}

/// A fresh copy of a list of statements.
pub fn duplicate_statements(statements: &Vec<Statement>) -> (copy: Vec<Statement>)
    ensures
        statements_view(copy@) == statements_view(statements@),
    decreases statements,
{
    let mut copy: Vec<Statement> = Vec::new();
    let mut i: usize = 0;
    while i < statements.len()
        invariant
            i <= statements.len(),
            copy.len() == i,
            forall|j: int| 0 <= j < i ==> copy[j]@ == statements[j]@,
        decreases statements.len() - i,
    {
        copy.push(statements[i].duplicate());
        i += 1;
    }
    assert(statements_view(copy@) =~= statements_view(statements@));
    copy
}

/// A fresh copy of a list of key and value expressions.
pub fn duplicate_pairs(pairs: &Vec<(Expression, Expression)>) -> (copy: Vec<
    (Expression, Expression),
>)
    ensures
        pairs_view(copy@) == pairs_view(pairs@),
    decreases pairs,
{
    let mut copy: Vec<(Expression, Expression)> = Vec::new();
    let mut i: usize = 0;
    while i < pairs.len()
        invariant
            i <= pairs.len(),
            copy.len() == i,
            forall|j: int| 0 <= j < i ==> copy[j].0@ == pairs[j].0@ && copy[j].1@ == pairs[j].1@,
        decreases pairs.len() - i,
    {
        assert(decreases_to!(pairs => pairs[i as int]));
        assert(decreases_to!(pairs[i as int] => pairs[i as int].0));
        assert(decreases_to!(pairs[i as int] => pairs[i as int].1));
        let key = pairs[i].0.duplicate();
        let value = pairs[i].1.duplicate();
        copy.push((key, value));
        i += 1;
    }
    assert(pairs_view(copy@) =~= pairs_view(pairs@));
    copy
}

impl Expression {
    /// A fresh expression with the same value.
    pub fn duplicate(&self) -> (copy: Expression)
        ensures
            copy@ == self@,
        decreases self,
    {
        match self {
            Expression::Bool(value) => Expression::Bool(*value),
            Expression::Int(value) => Expression::Int(*value),
            Expression::Ident(name) => Expression::Ident(name.clone()),
            Expression::String(text) => Expression::String(text.clone()),
            Expression::Infix { operator, left, right } => Expression::Infix {
                operator: *operator,
                left: Box::new(left.duplicate()),
                right: Box::new(right.duplicate()),
            },
            Expression::Prefix { operator, right } => Expression::Prefix {
                operator: *operator,
                right: Box::new(right.duplicate()),
            },
            Expression::Func { args, body } => Expression::Func {
                args: duplicate_names(args),
                body: duplicate_statements(body),
            },
            Expression::Call { func, args } => Expression::Call {
                func: Box::new(func.duplicate()),
                args: duplicate_expressions(args),
            },
            Expression::Cond { cond, then_, else_ } => Expression::Cond {
                cond: Box::new(cond.duplicate()),
                then_: duplicate_statements(then_),
                else_: match else_ {
                    Some(statements) => Some(duplicate_statements(statements)),
                    None => None,
                },
            },
            Expression::Array(items) => Expression::Array(duplicate_expressions(items)),
            Expression::Hash(pairs) => Expression::Hash(duplicate_pairs(pairs)),
        }
    }
}

impl Statement {
    /// A fresh statement with the same value.
    pub fn duplicate(&self) -> (copy: Statement)
        ensures
            copy@ == self@,
        decreases self,
    {
        match self {
            Statement::Let { name, value } => Statement::Let {
                name: name.clone(),
                value: value.duplicate(),
            },
            Statement::Return { value } => Statement::Return { value: value.duplicate() },
            Statement::Expr(value) => Statement::Expr(value.duplicate()),
            Statement::Block(statements) => Statement::Block(duplicate_statements(statements)),
        }
    }
}

impl From<i64> for Expression {
    /// The integer literal `value`.
    fn from(value: i64) -> (e: Expression)
        ensures
            e == Expression::Int(value),
    {
        Expression::Int(value)
    }
}

impl FromSpecImpl<i64> for Expression {
    open spec fn obeys_from_spec() -> bool {
        true
    }

    open spec fn from_spec(value: i64) -> Expression {
        Expression::Int(value)
    }
}

impl From<bool> for Expression {
    /// The boolean literal `value`.
    fn from(value: bool) -> (e: Expression)
        ensures
            e == Expression::Bool(value),
    {
        Expression::Bool(value)
    }
}

impl FromSpecImpl<bool> for Expression {
    open spec fn obeys_from_spec() -> bool {
        true
    }

    open spec fn from_spec(value: bool) -> Expression {
        Expression::Bool(value)
    }
}

impl From<String> for Expression {
    /// The identifier `value`.
    fn from(value: String) -> (e: Expression)
        ensures
            e == Expression::Ident(value),
    {
        Expression::Ident(value)
    }
}

impl FromSpecImpl<String> for Expression {
    open spec fn obeys_from_spec() -> bool {
        true
    }

    open spec fn from_spec(value: String) -> Expression {
        Expression::Ident(value)
    }
}

impl From<&str> for Expression {
    /// The identifier `value`.
    fn from(value: &str) -> (e: Expression)
        ensures
            e@ == ExpressionView::Ident(value@),
    {
        Expression::Ident(value.to_owned())
    }
}

impl FromSpecImpl<&str> for Expression {
    open spec fn obeys_from_spec() -> bool {
        false
    }

    open spec fn from_spec(value: &str) -> Expression {
        choose|e: Expression| e@ == ExpressionView::Ident(value@)
    }
}

impl Clone for Expression {
    fn clone(&self) -> (copy: Expression)
        ensures
            copy@ == self@,
    {
        self.duplicate()
    }
}

impl Clone for Statement {
    fn clone(&self) -> (copy: Statement)
        ensures
            copy@ == self@,
    {
        self.duplicate()
    }
}

} // verus!
