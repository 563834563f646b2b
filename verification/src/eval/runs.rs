//! The `let` statements that an evaluation runs: only the names that they
//! bind change in the scope the evaluation runs in. A `let` that is never
//! reached, and one inside the body of a function, leaves its name alone.

use vstd::prelude::*;
use crate::ast::{ExpressionView, StatementView};
use crate::eval::assoc::inserted;
use crate::eval::environment::{ScopeView, bound, bound_all, nested};
use crate::eval::frame::{extends, lemma_bound_all_elsewhere, lemma_bound_extends,
    lemma_extends_twice};
use crate::eval::object::{HashMapKeyView, ObjectView, key_of, truthy};
use crate::eval::semantics::{
    eval_block, eval_expression, eval_expressions, eval_pairs, eval_program, eval_statement,
    lemma_eval_block, lemma_eval_expression, lemma_eval_expressions, lemma_eval_pairs,
    lemma_eval_statement,
};

verus! {

/// The names that the evaluation of an expression binds in the scope
/// `scope`: those of the `let` statements that it runs there. The body of
/// a function that it calls runs in a scope of its own.
pub open spec fn expression_runs(
    e: ExpressionView,
    env: Seq<ScopeView>,
    scope: nat,
    depth: nat,
) -> Set<Seq<char>>
    decreases depth, 0nat, 0nat,
{
    if depth == 0 {
        Set::empty()
    } else {
        let deeper = (depth - 1) as nat;
        match e {
            ExpressionView::Array(items) => expressions_run(items, 0, env, scope, deeper),
            ExpressionView::Hash(pairs) => pairs_run(pairs, 0, env, scope, deeper),
            ExpressionView::Prefix { operator, right } => expression_runs(
                *right,
                env,
                scope,
                deeper,
            ),
            ExpressionView::Infix { operator, left, right } => {
                let (first, env1) = eval_expression(*left, env, scope, deeper);
                expression_runs(*left, env, scope, deeper) + (if first is Ok {
                    expression_runs(*right, env1, scope, deeper)
                } else {
                    Set::empty()
                })
            },
            ExpressionView::Cond { cond, then_, else_ } => {
                let (tested, env1) = eval_expression(*cond, env, scope, deeper);
                expression_runs(*cond, env, scope, deeper) + (match tested {
                    Err(_) => Set::empty(),
                    Ok(value) => if truthy(value) {
                        block_runs(then_, 0, env1, scope, deeper)
                    } else {
                        match else_ {
                            Some(statements) => block_runs(statements, 0, env1, scope, deeper),
                            None => Set::empty(),
                        }
                    },
                })
            },
            ExpressionView::Call { func, args } => {
                let (called, env1) = eval_expression(*func, env, scope, deeper);
                expression_runs(*func, env, scope, deeper) + (if called is Ok {
                    expressions_run(args, 0, env1, scope, deeper)
                } else {
                    Set::empty()
                })
            },
            _ => Set::empty(),
        }
    }
}

/// The names that the evaluation of the expressions from index `from` on
/// binds in the scope `scope`.
pub open spec fn expressions_run(
    items: Seq<ExpressionView>,
    from: nat,
    env: Seq<ScopeView>,
    scope: nat,
    depth: nat,
) -> Set<Seq<char>>
    decreases depth, 1nat, items.len() - from,
{
    if from >= items.len() {
        Set::empty()
    } else {
        let (first, env1) = eval_expression(items[from as int], env, scope, depth);
        expression_runs(items[from as int], env, scope, depth) + (if first is Ok {
            expressions_run(items, from + 1, env1, scope, depth)
        } else {
            Set::empty()
        })
    }
}

/// The names that the evaluation of the pairs from index `from` on binds
/// in the scope `scope`.
pub open spec fn pairs_run(
    pairs: Seq<(ExpressionView, ExpressionView)>,
    from: nat,
    env: Seq<ScopeView>,
    scope: nat,
    depth: nat,
) -> Set<Seq<char>>
    decreases depth, 1nat, pairs.len() - from,
{
    if from >= pairs.len() {
        Set::empty()
    } else {
        let (first, env1) = eval_expression(pairs[from as int].0, env, scope, depth);
        expression_runs(pairs[from as int].0, env, scope, depth) + (match first {
            Err(_) => Set::empty(),
            Ok(key_value) => {
                let (second, env2) = eval_expression(pairs[from as int].1, env1, scope, depth);
                expression_runs(pairs[from as int].1, env1, scope, depth) + (if second is Ok
                    && key_of(key_value) is Some {
                    pairs_run(pairs, from + 1, env2, scope, depth)
                } else {
                    Set::empty()
                })
            },
        })
    }
}

/// The names that the evaluation of a statement binds in the scope
/// `scope`: for a `let` whose value evaluates, its name.
pub open spec fn statement_runs(
    s: StatementView,
    env: Seq<ScopeView>,
    scope: nat,
    depth: nat,
) -> Set<Seq<char>>
    decreases depth, 1nat, 0nat,
{
    match s {
        StatementView::Expr(value) => expression_runs(value, env, scope, depth),
        StatementView::Let { name, value } => expression_runs(value, env, scope, depth) + (
        if eval_expression(value, env, scope, depth).0 is Ok {
            Set::empty().insert(name)
        } else {
            Set::empty()
        }),
        StatementView::Return { value } => expression_runs(value, env, scope, depth),
        StatementView::Block(statements) => if depth == 0 {
            Set::empty()
        } else {
            block_runs(statements, 0, env, scope, (depth - 1) as nat)
        },
    }
}

/// The names that the evaluation of the statements from index `from` on
/// binds in the scope `scope`: those of the statements up to the first
/// that fails or gives a return marker.
pub open spec fn block_runs(
    statements: Seq<StatementView>,
    from: nat,
    env: Seq<ScopeView>,
    scope: nat,
    depth: nat,
) -> Set<Seq<char>>
    decreases depth, 2nat, statements.len() - from,
{
    if from >= statements.len() {
        Set::empty()
    } else {
        let (r, env1) = eval_statement(statements[from as int], env, scope, depth);
        statement_runs(statements[from as int], env, scope, depth) + (match r {
            Err(_) => Set::empty(),
            Ok(value) => if value is Return {
                Set::empty()
            } else {
                block_runs(statements, from + 1, env1, scope, depth)
            },
        })
    }
}

/// The evaluation of an expression in a scope that there is changes, in
/// that scope, only the names that it binds by the `let` statements it
/// runs.
pub proof fn lemma_expression_binds_what_it_runs(
    e: ExpressionView,
    env: Seq<ScopeView>,
    scope: nat,
    depth: nat,
)
    requires
        scope < env.len(),
    ensures
        extends(
            env,
            eval_expression(e, env, scope, depth).1,
            scope,
            expression_runs(e, env, scope, depth),
        ),
    decreases depth, 0nat, 0nat,
{
    lemma_eval_expression(e, env, scope, depth);
    let names = expression_runs(e, env, scope, depth);
    if depth > 0 {
        let deeper = (depth - 1) as nat;
        match e {
            ExpressionView::Array(items) => {
                lemma_expressions_bind_what_they_run(items, 0, Seq::empty(), env, scope, deeper);
            },
            ExpressionView::Hash(pairs) => {
                lemma_pairs_bind_what_they_run(pairs, 0, Seq::empty(), env, scope, deeper);
            },
            ExpressionView::Prefix { operator, right } => {
                lemma_expression_binds_what_it_runs(*right, env, scope, deeper);
            },
            ExpressionView::Infix { operator, left, right } => {
                lemma_expression_binds_what_it_runs(*left, env, scope, deeper);
                let (first, env1) = eval_expression(*left, env, scope, deeper);
                let before = expression_runs(*left, env, scope, deeper);
                lemma_extends_twice(env, env, env1, scope, Set::empty(), before, names);
                if first is Ok {
                    lemma_expression_binds_what_it_runs(*right, env1, scope, deeper);
                    lemma_extends_twice(
                        env,
                        env1,
                        eval_expression(*right, env1, scope, deeper).1,
                        scope,
                        before,
                        expression_runs(*right, env1, scope, deeper),
                        names,
                    );
                }
            },
            ExpressionView::Cond { cond, then_, else_ } => {
                lemma_expression_binds_what_it_runs(*cond, env, scope, deeper);
                let (tested, env1) = eval_expression(*cond, env, scope, deeper);
                let before = expression_runs(*cond, env, scope, deeper);
                lemma_extends_twice(env, env, env1, scope, Set::empty(), before, names);
                if let Ok(value) = tested {
                    if truthy(value) {
                        lemma_block_binds_what_it_runs(
                            then_,
                            0,
                            ObjectView::Null,
                            env1,
                            scope,
                            deeper,
                        );
                        lemma_extends_twice(
                            env,
                            env1,
                            eval_block(then_, 0, ObjectView::Null, env1, scope, deeper).1,
                            scope,
                            before,
                            block_runs(then_, 0, env1, scope, deeper),
                            names,
                        );
                    } else if let Some(statements) = else_ {
                        lemma_block_binds_what_it_runs(
                            statements,
                            0,
                            ObjectView::Null,
                            env1,
                            scope,
                            deeper,
                        );
                        lemma_extends_twice(
                            env,
                            env1,
                            eval_block(statements, 0, ObjectView::Null, env1, scope, deeper).1,
                            scope,
                            before,
                            block_runs(statements, 0, env1, scope, deeper),
                            names,
                        );
                    }
                }
            },
            ExpressionView::Func { args, body } => {
                assert(extends(env, nested(env, scope), scope, names));
            },
            ExpressionView::Call { func, args } => {
                lemma_expression_binds_what_it_runs(*func, env, scope, deeper);
                let (called, env1) = eval_expression(*func, env, scope, deeper);
                let before = expression_runs(*func, env, scope, deeper);
                lemma_extends_twice(env, env, env1, scope, Set::empty(), before, names);
                if let Ok(callee) = called {
                    lemma_expressions_bind_what_they_run(
                        args,
                        0,
                        Seq::empty(),
                        env1,
                        scope,
                        deeper,
                    );
                    let (given, env2) = eval_expressions(
                        args,
                        0,
                        Seq::empty(),
                        env1,
                        scope,
                        deeper,
                    );
                    lemma_extends_twice(
                        env,
                        env1,
                        env2,
                        scope,
                        before,
                        expressions_run(args, 0, env1, scope, deeper),
                        names,
                    );
                    if let Ok(values) = given {
                        if let ObjectView::Function { parameters, body, environment } = callee {
                            if parameters.len() == values.len() {
                                let inner = env2.len();
                                let fresh = nested(env2, environment);
                                let env3 = bound_all(
                                    fresh,
                                    inner,
                                    parameters,
                                    values,
                                    parameters.len(),
                                );
                                lemma_bound_all_elsewhere(
                                    fresh,
                                    inner,
                                    parameters,
                                    values,
                                    parameters.len(),
                                );
                                crate::eval::frame::lemma_block_extends(
                                    body,
                                    0,
                                    ObjectView::Null,
                                    env3,
                                    inner,
                                    deeper,
                                );
                                let env4 = eval_block(
                                    body,
                                    0,
                                    ObjectView::Null,
                                    env3,
                                    inner,
                                    deeper,
                                ).1;
                                assert forall|i: int| 0 <= i < env2.len() implies #[trigger] env4[i]
                                    == env2[i] by {
                                    assert(env3[i] == fresh[i]);
                                    assert(fresh[i] == env2[i]);
                                }
                                assert(extends(env2, env4, scope, Set::empty()));
                                lemma_extends_twice(
                                    env,
                                    env2,
                                    env4,
                                    scope,
                                    names,
                                    Set::empty(),
                                    names,
                                );
                            }
                        }
                    }
                }
            },
            _ => {},
        }
    }
}

/// The evaluation of a list of expressions in a scope that there is
/// changes, in that scope, only the names that it binds by the `let`
/// statements it runs.
pub proof fn lemma_expressions_bind_what_they_run(
    items: Seq<ExpressionView>,
    from: nat,
    done: Seq<ObjectView>,
    env: Seq<ScopeView>,
    scope: nat,
    depth: nat,
)
    requires
        scope < env.len(),
    ensures
        extends(
            env,
            eval_expressions(items, from, done, env, scope, depth).1,
            scope,
            expressions_run(items, from, env, scope, depth),
        ),
    decreases depth, 1nat, items.len() - from,
{
    lemma_eval_expressions(items, from, done, env, scope, depth);
    if from < items.len() {
        let all = expressions_run(items, from, env, scope, depth);
        let before = expression_runs(items[from as int], env, scope, depth);
        lemma_expression_binds_what_it_runs(items[from as int], env, scope, depth);
        let (first, env1) = eval_expression(items[from as int], env, scope, depth);
        lemma_extends_twice(env, env, env1, scope, Set::empty(), before, all);
        if let Ok(value) = first {
            lemma_expressions_bind_what_they_run(
                items,
                from + 1,
                done.push(value),
                env1,
                scope,
                depth,
            );
            lemma_extends_twice(
                env,
                env1,
                eval_expressions(items, from + 1, done.push(value), env1, scope, depth).1,
                scope,
                before,
                expressions_run(items, from + 1, env1, scope, depth),
                all,
            );
        }
    }
}

/// The evaluation of the pairs of a hash literal in a scope that there is
/// changes, in that scope, only the names that it binds by the `let`
/// statements it runs.
pub proof fn lemma_pairs_bind_what_they_run(
    pairs: Seq<(ExpressionView, ExpressionView)>,
    from: nat,
    done: Seq<(HashMapKeyView, ObjectView)>,
    env: Seq<ScopeView>,
    scope: nat,
    depth: nat,
)
    requires
        scope < env.len(),
    ensures
        extends(
            env,
            eval_pairs(pairs, from, done, env, scope, depth).1,
            scope,
            pairs_run(pairs, from, env, scope, depth),
        ),
    decreases depth, 1nat, pairs.len() - from,
{
    lemma_eval_pairs(pairs, from, done, env, scope, depth);
    if from < pairs.len() {
        let all = pairs_run(pairs, from, env, scope, depth);
        let key_names = expression_runs(pairs[from as int].0, env, scope, depth);
        lemma_expression_binds_what_it_runs(pairs[from as int].0, env, scope, depth);
        let (first, env1) = eval_expression(pairs[from as int].0, env, scope, depth);
        lemma_extends_twice(env, env, env1, scope, Set::empty(), key_names, all);
        if let Ok(key_value) = first {
            let value_names = expression_runs(pairs[from as int].1, env1, scope, depth);
            lemma_expression_binds_what_it_runs(pairs[from as int].1, env1, scope, depth);
            let (second, env2) = eval_expression(pairs[from as int].1, env1, scope, depth);
            lemma_extends_twice(env, env1, env2, scope, key_names, value_names, all);
            if let Ok(value) = second {
                if let Some(key) = key_of(key_value) {
                    let next = inserted(done, key, value);
                    lemma_pairs_bind_what_they_run(pairs, from + 1, next, env2, scope, depth);
                    lemma_extends_twice(
                        env,
                        env2,
                        eval_pairs(pairs, from + 1, next, env2, scope, depth).1,
                        scope,
                        all,
                        pairs_run(pairs, from + 1, env2, scope, depth),
                        all,
                    );
                }
            }
        }
    }
}

/// The evaluation of a statement in a scope that there is changes, in
/// that scope, only the names that it binds by the `let` statements it
/// runs.
pub proof fn lemma_statement_binds_what_it_runs(
    s: StatementView,
    env: Seq<ScopeView>,
    scope: nat,
    depth: nat,
)
    requires
        scope < env.len(),
    ensures
        extends(
            env,
            eval_statement(s, env, scope, depth).1,
            scope,
            statement_runs(s, env, scope, depth),
        ),
    decreases depth, 1nat, 0nat,
{
    lemma_eval_statement(s, env, scope, depth);
    let all = statement_runs(s, env, scope, depth);
    match s {
        StatementView::Expr(value) => {
            lemma_expression_binds_what_it_runs(value, env, scope, depth);
        },
        StatementView::Let { name, value } => {
            lemma_expression_binds_what_it_runs(value, env, scope, depth);
            let (r, env1) = eval_expression(value, env, scope, depth);
            let before = expression_runs(value, env, scope, depth);
            lemma_extends_twice(env, env, env1, scope, Set::empty(), before, all);
            if let Ok(v) = r {
                assert(all.contains(name));
                lemma_bound_extends(env1, scope, name, v, all);
                lemma_extends_twice(
                    env,
                    env1,
                    bound(env1, scope, name, v),
                    scope,
                    before,
                    all,
                    all,
                );
            }
        },
        StatementView::Return { value } => {
            lemma_expression_binds_what_it_runs(value, env, scope, depth);
        },
        StatementView::Block(statements) => {
            if depth > 0 {
                lemma_block_binds_what_it_runs(
                    statements,
                    0,
                    ObjectView::Null,
                    env,
                    scope,
                    (depth - 1) as nat,
                );
            }
        },
    }
}

/// The evaluation of a block in a scope that there is changes, in that
/// scope, only the names that it binds by the `let` statements it runs.
pub proof fn lemma_block_binds_what_it_runs(
    statements: Seq<StatementView>,
    from: nat,
    last: ObjectView,
    env: Seq<ScopeView>,
    scope: nat,
    depth: nat,
)
    requires
        scope < env.len(),
    ensures
        extends(
            env,
            eval_block(statements, from, last, env, scope, depth).1,
            scope,
            block_runs(statements, from, env, scope, depth),
        ),
    decreases depth, 2nat, statements.len() - from,
{
    lemma_eval_block(statements, from, last, env, scope, depth);
    if from < statements.len() {
        let all = block_runs(statements, from, env, scope, depth);
        let before = statement_runs(statements[from as int], env, scope, depth);
        lemma_statement_binds_what_it_runs(statements[from as int], env, scope, depth);
        let (r, env1) = eval_statement(statements[from as int], env, scope, depth);
        lemma_extends_twice(env, env, env1, scope, Set::empty(), before, all);
        if let Ok(value) = r {
            if !(value is Return) {
                lemma_block_binds_what_it_runs(statements, from + 1, value, env1, scope, depth);
                lemma_extends_twice(
                    env,
                    env1,
                    eval_block(statements, from + 1, value, env1, scope, depth).1,
                    scope,
                    before,
                    block_runs(statements, from + 1, env1, scope, depth),
                    all,
                );
            }
        }
    }
}

/// The evaluation of a program in a scope that there is changes, in that
/// scope, only the names that it binds by the `let` statements it runs.
/// Every other name of the scope is bound as it was, whether the
/// evaluation ends with a value or with an error.
pub proof fn lemma_program_binds_what_it_runs(
    program: Seq<StatementView>,
    env: Seq<ScopeView>,
    scope: nat,
    depth: nat,
)
    requires
        scope < env.len(),
    ensures
        extends(
            env,
            eval_program(program, env, scope, depth).1,
            scope,
            block_runs(program, 0, env, scope, depth),
        ),
{
    lemma_block_binds_what_it_runs(program, 0, ObjectView::Null, env, scope, depth);
}

} // verus!
