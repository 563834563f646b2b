//! The height of syntax trees: the number of nodes on the longest way from
//! the root down.

use vstd::prelude::*;
use crate::ast::{Expression, ExpressionView, Statement, StatementView, expressions_view,
    pairs_view, statements_view};

verus! {

/// The larger of two numbers.
pub open spec fn larger(a: nat, b: nat) -> nat {
    if a >= b {
        a
    } else {
        b
    }
}

/// The height of an expression.
pub open spec fn expression_height(e: ExpressionView) -> nat
    decreases e, 0nat,
{
    match e {
        ExpressionView::Bool(_) => 1,
        ExpressionView::Int(_) => 1,
        ExpressionView::String(_) => 1,
        ExpressionView::Ident(_) => 1,
        ExpressionView::Infix { operator, left, right } => 1 + larger(
            expression_height(*left),
            expression_height(*right),
        ),
        ExpressionView::Prefix { operator, right } => 1 + expression_height(*right),
        ExpressionView::Func { args, body } => 1 + statements_height(body, 0),
        ExpressionView::Call { func, args } => 1 + larger(
            expression_height(*func),
            expressions_height(args, 0),
        ),
        ExpressionView::Cond { cond, then_, else_ } => 1 + larger(
            expression_height(*cond),
            larger(
                statements_height(then_, 0),
                match else_ {
                    Some(statements) => statements_height(statements, 0),
                    None => 0,
                },
            ),
        ),
        ExpressionView::Array(items) => 1 + expressions_height(items, 0),
        ExpressionView::Hash(pairs) => 1 + pairs_height(pairs, 0),
    }
}

/// The height of a statement.
pub open spec fn statement_height(s: StatementView) -> nat
    decreases s, 0nat,
{
    match s {
        StatementView::Let { name, value } => 1 + expression_height(value),
        StatementView::Return { value } => 1 + expression_height(value),
        StatementView::Expr(value) => 1 + expression_height(value),
        StatementView::Block(statements) => 1 + statements_height(statements, 0),
    }
}

/// The height of the highest of the expressions from index `from` on.
pub open spec fn expressions_height(items: Seq<ExpressionView>, from: nat) -> nat
    decreases items, items.len() - from,
{
    if from >= items.len() {
        0
    } else {
        larger(expression_height(items[from as int]), expressions_height(items, from + 1))
    }
}

/// The height of the highest key or value of the pairs from index `from`
/// on.
pub open spec fn pairs_height(pairs: Seq<(ExpressionView, ExpressionView)>, from: nat) -> nat
    decreases pairs, pairs.len() - from,
{
    if from >= pairs.len() {
        0
    } else {
        larger(
            larger(
                expression_height(pairs[from as int].0),
                expression_height(pairs[from as int].1),
            ),
            pairs_height(pairs, from + 1),
        )
    }
}

/// The height of the highest of the statements from index `from` on.
pub open spec fn statements_height(statements: Seq<StatementView>, from: nat) -> nat
    decreases statements, statements.len() - from,
{
    if from >= statements.len() {
        0
    } else {
        larger(statement_height(statements[from as int]), statements_height(statements, from + 1))
    }
}

/// What a bounded measurement gives for a height: the height, where it is
/// within the limit.
pub open spec fn within(height: nat, limit: usize) -> Option<usize> {
    if height <= limit {
        Some(height as usize)
    } else {
        None
    }
}

/// The larger of two heights, where both were within the limit.
fn larger_of(
    a: Option<usize>,
    b: Option<usize>,
    limit: Ghost<usize>,
    x: Ghost<nat>,
    y: Ghost<nat>,
) -> (m: Option<usize>)
    requires
        a == within(x@, limit@),
        b == within(y@, limit@),
    ensures
        m == within(larger(x@, y@), limit@),
{
    match (a, b) {
        (Some(a), Some(b)) => if a >= b {
            Some(a)
        } else {
            Some(b)
        },
        _ => None,
    }
}

/// One more than a height that was within the limit less one.
fn one_more(below: Option<usize>, limit: usize, x: Ghost<nat>) -> (m: Option<usize>)
    requires
        limit > 0,
        below == within(x@, (limit - 1) as usize),
    ensures
        m == within(1 + x@, limit),
{
    match below {
        Some(h) => Some(h + 1),
        None => None,
    }
}

/// The highest of more expressions is no lower.
pub proof fn lemma_expressions_height_grows(items: Seq<ExpressionView>, from: nat, to: nat)
    requires
        from <= to,
    ensures
        expressions_height(items, from) >= expressions_height(items, to),
    decreases to - from,
{
    if from < to {
        lemma_expressions_height_grows(items, from + 1, to);
    }
}

/// The highest of more statements is no lower.
pub proof fn lemma_statements_height_grows(statements: Seq<StatementView>, from: nat, to: nat)
    requires
        from <= to,
    ensures
        statements_height(statements, from) >= statements_height(statements, to),
    decreases to - from,
{
    if from < to {
        lemma_statements_height_grows(statements, from + 1, to);
    }
}

/// The highest of more pairs is no lower.
pub proof fn lemma_pairs_height_grows(
    pairs: Seq<(ExpressionView, ExpressionView)>,
    from: nat,
    to: nat,
)
    requires
        from <= to,
    ensures
        pairs_height(pairs, from) >= pairs_height(pairs, to),
    decreases to - from,
{
    if from < to {
        lemma_pairs_height_grows(pairs, from + 1, to);
    }
}

/// The height of the highest of a list of expressions, where it is within
/// `limit`.
pub fn expressions_height_within(items: &Vec<Expression>, limit: usize) -> (height: Option<usize>)
    ensures
        height == within(expressions_height(expressions_view(items@), 0), limit),
    decreases items,
{
    let ghost list = expressions_view(items@);
    let mut highest: usize = 0;
    let mut i: usize = items.len();
    while i > 0
        invariant
            i <= items.len(),
            list == expressions_view(items@),
            highest <= limit,
            highest == expressions_height(list, i as nat),
        decreases i,
    {
        i -= 1;
        assert(list[i as int] == items[i as int]@);
        match items[i].height_within(limit) {
            Some(h) => {
                if h > highest {
                    highest = h;
                }
            },
            None => {
                proof {
                    lemma_expressions_height_grows(list, 0, i as nat);
                }
                return None;
            },
        }
    }
    Some(highest)
}

/// The height of the highest of a list of statements, where it is within
/// `limit`.
pub fn statements_height_within(statements: &Vec<Statement>, limit: usize) -> (height: Option<
    usize,
>)
    ensures
        height == within(statements_height(statements_view(statements@), 0), limit),
    decreases statements,
{
    let ghost list = statements_view(statements@);
    let mut highest: usize = 0;
    let mut i: usize = statements.len();
    while i > 0
        invariant
            i <= statements.len(),
            list == statements_view(statements@),
            highest <= limit,
            highest == statements_height(list, i as nat),
        decreases i,
    {
        i -= 1;
        assert(list[i as int] == statements[i as int]@);
        match statements[i].height_within(limit) {
            Some(h) => {
                if h > highest {
                    highest = h;
                }
            },
            None => {
                proof {
                    lemma_statements_height_grows(list, 0, i as nat);
                }
                return None;
            },
        }
    }
    Some(highest)
}

/// The height of the highest key or value of a list of pairs, where it is
/// within `limit`.
pub fn pairs_height_within(pairs: &Vec<(Expression, Expression)>, limit: usize) -> (height: Option<
    usize,
>)
    ensures
        height == within(pairs_height(pairs_view(pairs@), 0), limit),
    decreases pairs,
{
    let ghost list = pairs_view(pairs@);
    let mut highest: usize = 0;
    let mut i: usize = pairs.len();
    while i > 0
        invariant
            i <= pairs.len(),
            list == pairs_view(pairs@),
            highest <= limit,
            highest == pairs_height(list, i as nat),
        decreases i,
    {
        i -= 1;
        assert(list[i as int] == (pairs[i as int].0@, pairs[i as int].1@));
        assert(decreases_to!(pairs => pairs[i as int]));
        assert(decreases_to!(pairs[i as int] => pairs[i as int].0));
        assert(decreases_to!(pairs[i as int] => pairs[i as int].1));
        let key = pairs[i].0.height_within(limit);
        let value = pairs[i].1.height_within(limit);
        match (key, value) {
            (Some(k), Some(v)) => {
                if k > highest {
                    highest = k;
                }
                if v > highest {
                    highest = v;
                }
            },
            _ => {
                proof {
                    lemma_pairs_height_grows(list, 0, i as nat);
                }
                return None;
            },
        }
    }
    Some(highest)
}

impl Expression {
    /// The height of the expression, where it is within `limit`. The
    /// measurement itself nests no deeper than `limit` levels.
    pub fn height_within(&self, limit: usize) -> (height: Option<usize>)
        ensures
            height == within(expression_height(self@), limit),
        decreases self,
    {
        if limit == 0 {
            return None;
        }
        let below = limit - 1;
        match self {
            Expression::Bool(_) => Some(1),
            Expression::Int(_) => Some(1),
            Expression::String(_) => Some(1),
            Expression::Ident(_) => Some(1),
            Expression::Infix { operator, left, right } => {
                let l = left.height_within(below);
                let r = right.height_within(below);
                one_more(
                    larger_of(
                        l,
                        r,
                        Ghost(below),
                        Ghost(expression_height(left@)),
                        Ghost(expression_height(right@)),
                    ),
                    limit,
                    Ghost(larger(expression_height(left@), expression_height(right@))),
                )
            },
            Expression::Prefix { operator, right } => one_more(
                right.height_within(below),
                limit,
                Ghost(expression_height(right@)),
            ),
            Expression::Func { args, body } => one_more(
                statements_height_within(body, below),
                limit,
                Ghost(statements_height(statements_view(body@), 0)),
            ),
            Expression::Call { func, args } => {
                let f = func.height_within(below);
                let a = expressions_height_within(args, below);
                one_more(
                    larger_of(
                        f,
                        a,
                        Ghost(below),
                        Ghost(expression_height(func@)),
                        Ghost(expressions_height(expressions_view(args@), 0)),
                    ),
                    limit,
                    Ghost(
                        larger(
                            expression_height(func@),
                            expressions_height(expressions_view(args@), 0),
                        ),
                    ),
                )
            },
            Expression::Cond { cond, then_, else_ } => {
                let c = cond.height_within(below);
                let t = statements_height_within(then_, below);
                let ghost else_height: nat = match else_ {
                    Some(statements) => statements_height(statements_view(statements@), 0),
                    None => 0,
                };
                let e = match else_ {
                    Some(statements) => statements_height_within(statements, below),
                    None => Some(0),
                };
                let ghost then_height = statements_height(statements_view(then_@), 0);
                let blocks = larger_of(t, e, Ghost(below), Ghost(then_height), Ghost(else_height));
                one_more(
                    larger_of(
                        c,
                        blocks,
                        Ghost(below),
                        Ghost(expression_height(cond@)),
                        Ghost(larger(then_height, else_height)),
                    ),
                    limit,
                    Ghost(larger(expression_height(cond@), larger(then_height, else_height))),
                )
            },
            Expression::Array(items) => one_more(
                expressions_height_within(items, below),
                limit,
                Ghost(expressions_height(expressions_view(items@), 0)),
            ),
            Expression::Hash(pairs) => one_more(
                pairs_height_within(pairs, below),
                limit,
                Ghost(pairs_height(pairs_view(pairs@), 0)),
            ),
        }
    }
}

impl Expression {
    /// The height of an expression whose left part (the left operand of an
    /// infix expression, the callee of a call) is known to have the height
    /// `left`, where it is within `limit`. The left part is not measured
    /// again.
    pub(crate) fn height_over(&self, left: usize, limit: usize) -> (height: Option<usize>)
        requires
            match self@ {
                ExpressionView::Infix { operator, left: l, right } => expression_height(*l) == left,
                ExpressionView::Call { func, args } => expression_height(*func) == left,
                _ => true,
            },
        ensures
            height == within(expression_height(self@), limit),
    {
        if limit == 0 {
            return None;
        }
        let below = limit - 1;
        let known = if left <= below {
            Some(left)
        } else {
            None
        };
        match self {
            Expression::Infix { operator, left: l, right } => {
                let r = right.height_within(below);
                one_more(
                    larger_of(
                        known,
                        r,
                        Ghost(below),
                        Ghost(expression_height(l@)),
                        Ghost(expression_height(right@)),
                    ),
                    limit,
                    Ghost(larger(expression_height(l@), expression_height(right@))),
                )
            },
            Expression::Call { func, args } => {
                let a = expressions_height_within(args, below);
                one_more(
                    larger_of(
                        known,
                        a,
                        Ghost(below),
                        Ghost(expression_height(func@)),
                        Ghost(expressions_height(expressions_view(args@), 0)),
                    ),
                    limit,
                    Ghost(
                        larger(
                            expression_height(func@),
                            expressions_height(expressions_view(args@), 0),
                        ),
                    ),
                )
            },
            _ => self.height_within(limit),
        }
    }
}

impl Statement {
    /// The height of the statement, where it is within `limit`.
    pub fn height_within(&self, limit: usize) -> (height: Option<usize>)
        ensures
            height == within(statement_height(self@), limit),
        decreases self,
    {
        if limit == 0 {
            return None;
        }
        let below = limit - 1;
        match self {
            Statement::Let { name, value } => one_more(
                value.height_within(below),
                limit,
                Ghost(expression_height(value@)),
            ),
            Statement::Return { value } => one_more(
                value.height_within(below),
                limit,
                Ghost(expression_height(value@)),
            ),
            Statement::Expr(value) => one_more(
                value.height_within(below),
                limit,
                Ghost(expression_height(value@)),
            ),
            Statement::Block(statements) => one_more(
                statements_height_within(statements, below),
                limit,
                Ghost(statements_height(statements_view(statements@), 0)),
            ),
        }
    }
}

} // verus!
