//! The depth limit only ever ends an evaluation: one that did not run out
//! of depth gives the same value, and leaves the same environment, with
//! any greater depth.

use vstd::prelude::*;
use crate::ast::{ExpressionView, StatementView};
use crate::eval::assoc::inserted;
use crate::eval::environment::{ScopeView, bound_all, nested};
use crate::eval::error::EvalError;
use crate::eval::object::{HashMapKeyView, ObjectView, key_of, truthy};
use crate::eval::semantics::{
    Evaluated, eval_block, eval_expression, eval_expressions, eval_pairs, eval_program,
    eval_statement, lemma_eval_block, lemma_eval_expression, lemma_eval_expressions,
    lemma_eval_pairs, lemma_eval_statement,
};

verus! {

/// The evaluation did not run out of depth.
pub open spec fn completed<T>(r: Evaluated<T>) -> bool {
    r.0 != Err::<T, EvalError>(EvalError::DepthExceeded)
}

/// An expression whose evaluation completed evaluates to the same with one
/// more level of depth.
pub proof fn lemma_expression_deeper(e: ExpressionView, env: Seq<ScopeView>, scope: nat, depth: nat)
    requires
        completed(eval_expression(e, env, scope, depth)),
    ensures
        eval_expression(e, env, scope, depth + 1) == eval_expression(e, env, scope, depth),
    decreases depth, 0nat, 0nat,
{
    lemma_eval_expression(e, env, scope, depth);
    lemma_eval_expression(e, env, scope, depth + 1);
    if depth > 0 {
        let deeper = (depth - 1) as nat;
        match e {
            ExpressionView::Array(items) => {
                lemma_expressions_deeper(items, 0, Seq::empty(), env, scope, deeper);
            },
            ExpressionView::Hash(pairs) => {
                lemma_pairs_deeper(pairs, 0, Seq::empty(), env, scope, deeper);
            },
            ExpressionView::Prefix { operator, right } => {
                lemma_expression_deeper(*right, env, scope, deeper);
            },
            ExpressionView::Infix { operator, left, right } => {
                lemma_expression_deeper(*left, env, scope, deeper);
                let (first, env1) = eval_expression(*left, env, scope, deeper);
                if first is Ok {
                    lemma_expression_deeper(*right, env1, scope, deeper);
                }
            },
            ExpressionView::Cond { cond, then_, else_ } => {
                lemma_expression_deeper(*cond, env, scope, deeper);
                let (tested, env1) = eval_expression(*cond, env, scope, deeper);
                if let Ok(value) = tested {
                    if truthy(value) {
                        lemma_block_deeper(then_, 0, ObjectView::Null, env1, scope, deeper);
                    } else if let Some(statements) = else_ {
                        lemma_block_deeper(statements, 0, ObjectView::Null, env1, scope, deeper);
                    }
                }
            },
            ExpressionView::Call { func, args } => {
                lemma_expression_deeper(*func, env, scope, deeper);
                let (called, env1) = eval_expression(*func, env, scope, deeper);
                if let Ok(callee) = called {
                    lemma_expressions_deeper(args, 0, Seq::empty(), env1, scope, deeper);
                    let (given, env2) = eval_expressions(
                        args,
                        0,
                        Seq::empty(),
                        env1,
                        scope,
                        deeper,
                    );
                    if let Ok(values) = given {
                        if let ObjectView::Function { parameters, body, environment } = callee {
                            if parameters.len() == values.len() {
                                lemma_block_deeper(
                                    body,
                                    0,
                                    ObjectView::Null,
                                    bound_all(
                                        nested(env2, environment),
                                        env2.len(),
                                        parameters,
                                        values,
                                        parameters.len(),
                                    ),
                                    env2.len(),
                                    deeper,
                                );
                            }
                        }
                    }
                }
            },
            _ => {},
        }
    }
}

/// A list of expressions whose evaluation completed evaluates to the same
/// with one more level of depth.
pub proof fn lemma_expressions_deeper(
    items: Seq<ExpressionView>,
    from: nat,
    done: Seq<ObjectView>,
    env: Seq<ScopeView>,
    scope: nat,
    depth: nat,
)
    requires
        completed(eval_expressions(items, from, done, env, scope, depth)),
    ensures
        eval_expressions(items, from, done, env, scope, depth + 1) == eval_expressions(
            items,
            from,
            done,
            env,
            scope,
            depth,
        ),
    decreases depth, 1nat, items.len() - from,
{
    lemma_eval_expressions(items, from, done, env, scope, depth);
    lemma_eval_expressions(items, from, done, env, scope, depth + 1);
    if from < items.len() {
        lemma_expression_deeper(items[from as int], env, scope, depth);
        let (first, env1) = eval_expression(items[from as int], env, scope, depth);
        if let Ok(value) = first {
            lemma_expressions_deeper(items, from + 1, done.push(value), env1, scope, depth);
        }
    }
}

/// The pairs of a hash literal whose evaluation completed evaluate to the
/// same with one more level of depth.
pub proof fn lemma_pairs_deeper(
    pairs: Seq<(ExpressionView, ExpressionView)>,
    from: nat,
    done: Seq<(HashMapKeyView, ObjectView)>,
    env: Seq<ScopeView>,
    scope: nat,
    depth: nat,
)
    requires
        completed(eval_pairs(pairs, from, done, env, scope, depth)),
    ensures
        eval_pairs(pairs, from, done, env, scope, depth + 1) == eval_pairs(
            pairs,
            from,
            done,
            env,
            scope,
            depth,
        ),
    decreases depth, 1nat, pairs.len() - from,
{
    lemma_eval_pairs(pairs, from, done, env, scope, depth);
    lemma_eval_pairs(pairs, from, done, env, scope, depth + 1);
    if from < pairs.len() {
        lemma_expression_deeper(pairs[from as int].0, env, scope, depth);
        let (first, env1) = eval_expression(pairs[from as int].0, env, scope, depth);
        if let Ok(key_value) = first {
            lemma_expression_deeper(pairs[from as int].1, env1, scope, depth);
            let (second, env2) = eval_expression(pairs[from as int].1, env1, scope, depth);
            if let Ok(value) = second {
                if let Some(key) = key_of(key_value) {
                    lemma_pairs_deeper(
                        pairs,
                        from + 1,
                        inserted(done, key, value),
                        env2,
                        scope,
                        depth,
                    );
                }
            }
        }
    }
}

/// A statement whose evaluation completed evaluates to the same with one
/// more level of depth.
pub proof fn lemma_statement_deeper(s: StatementView, env: Seq<ScopeView>, scope: nat, depth: nat)
    requires
        completed(eval_statement(s, env, scope, depth)),
    ensures
        eval_statement(s, env, scope, depth + 1) == eval_statement(s, env, scope, depth),
    decreases depth, 1nat, 0nat,
{
    lemma_eval_statement(s, env, scope, depth);
    lemma_eval_statement(s, env, scope, depth + 1);
    match s {
        StatementView::Expr(value) => {
            lemma_expression_deeper(value, env, scope, depth);
        },
        StatementView::Let { name, value } => {
            lemma_expression_deeper(value, env, scope, depth);
        },
        StatementView::Return { value } => {
            lemma_expression_deeper(value, env, scope, depth);
        },
        StatementView::Block(statements) => {
            if depth > 0 {
                lemma_block_deeper(
                    statements,
                    0,
                    ObjectView::Null,
                    env,
                    scope,
                    (depth - 1) as nat,
                );
            }
        },
    }
}

/// A block whose evaluation completed evaluates to the same with one more
/// level of depth.
pub proof fn lemma_block_deeper(
    statements: Seq<StatementView>,
    from: nat,
    last: ObjectView,
    env: Seq<ScopeView>,
    scope: nat,
    depth: nat,
)
    requires
        completed(eval_block(statements, from, last, env, scope, depth)),
    ensures
        eval_block(statements, from, last, env, scope, depth + 1) == eval_block(
            statements,
            from,
            last,
            env,
            scope,
            depth,
        ),
    decreases depth, 2nat, statements.len() - from,
{
    lemma_eval_block(statements, from, last, env, scope, depth);
    lemma_eval_block(statements, from, last, env, scope, depth + 1);
    if from < statements.len() {
        lemma_statement_deeper(statements[from as int], env, scope, depth);
        let (r, env1) = eval_statement(statements[from as int], env, scope, depth);
        if let Ok(value) = r {
            if !(value is Return) {
                lemma_block_deeper(statements, from + 1, value, env1, scope, depth);
            }
        }
    }
}

/// A program whose evaluation completed with some depth evaluates to the
/// same with any greater depth.
pub proof fn lemma_program_deeper(
    program: Seq<StatementView>,
    env: Seq<ScopeView>,
    scope: nat,
    depth: nat,
    more: nat,
)
    requires
        completed(eval_program(program, env, scope, depth)),
        depth <= more,
    ensures
        eval_program(program, env, scope, more) == eval_program(program, env, scope, depth),
    decreases more - depth,
{
    if depth < more {
        lemma_block_deeper(program, 0, ObjectView::Null, env, scope, depth);
        lemma_program_deeper(program, env, scope, depth + 1, more);
    }
}

} // verus!
