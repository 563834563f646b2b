//! What an evaluation leaves alone: it adds scopes, and in the scopes that
//! were there it changes nothing but the bindings, in the scope it runs
//! in, of the names that its `let` statements name.

use vstd::prelude::*;
use crate::ast::{ExpressionView, StatementView};
use crate::eval::assoc::{lemma_lookup_inserted_other, lookup};
use crate::eval::environment::{ScopeView, bound, bound_all, nested};
use crate::eval::object::ObjectView;
use crate::eval::semantics::{
    eval_block, eval_expression, eval_expressions, eval_pairs, eval_program, eval_statement,
    lemma_eval_block, lemma_eval_expression, lemma_eval_expressions, lemma_eval_pairs,
    lemma_eval_statement,
};
use crate::eval::object::HashMapKeyView;

verus! {

/// The names that the `let` statements of an expression name, those
/// inside function literals left out: a function binds in a scope of its
/// own.
pub open spec fn expression_names(e: ExpressionView) -> Set<Seq<char>>
    decreases e, 0nat,
{
    match e {
        ExpressionView::Bool(_) => Set::empty(),
        ExpressionView::Int(_) => Set::empty(),
        ExpressionView::String(_) => Set::empty(),
        ExpressionView::Ident(_) => Set::empty(),
        ExpressionView::Infix { operator, left, right } => expression_names(*left)
            + expression_names(*right),
        ExpressionView::Prefix { operator, right } => expression_names(*right),
        ExpressionView::Func { args, body } => Set::empty(),
        ExpressionView::Call { func, args } => expression_names(*func) + expressions_names(
            args,
            0,
        ),
        ExpressionView::Cond { cond, then_, else_ } => expression_names(*cond) + statements_names(
            then_,
            0,
        ) + (match else_ {
            Some(statements) => statements_names(statements, 0),
            None => Set::empty(),
        }),
        ExpressionView::Array(items) => expressions_names(items, 0),
        ExpressionView::Hash(pairs) => pairs_names(pairs, 0),
    }
}

/// The names that the `let` statements of a statement name.
pub open spec fn statement_names(s: StatementView) -> Set<Seq<char>>
    decreases s, 0nat,
{
    match s {
        StatementView::Let { name, value } => expression_names(value).insert(name),
        StatementView::Return { value } => expression_names(value),
        StatementView::Expr(value) => expression_names(value),
        StatementView::Block(statements) => statements_names(statements, 0),
    }
}

/// The names that the `let` statements of the expressions from index
/// `from` on name.
pub open spec fn expressions_names(items: Seq<ExpressionView>, from: nat) -> Set<Seq<char>>
    decreases items, items.len() - from,
{
    if from >= items.len() {
        Set::empty()
    } else {
        expression_names(items[from as int]) + expressions_names(items, from + 1)
    }
}

/// The names that the `let` statements of the pairs from index `from` on
/// name.
pub open spec fn pairs_names(pairs: Seq<(ExpressionView, ExpressionView)>, from: nat) -> Set<
    Seq<char>,
>
    decreases pairs, pairs.len() - from,
{
    if from >= pairs.len() {
        Set::empty()
    } else {
        expression_names(pairs[from as int].0) + expression_names(pairs[from as int].1)
            + pairs_names(pairs, from + 1)
    }
}

/// The names that the `let` statements of the statements from index
/// `from` on name.
pub open spec fn statements_names(statements: Seq<StatementView>, from: nat) -> Set<Seq<char>>
    decreases statements, statements.len() - from,
{
    if from >= statements.len() {
        Set::empty()
    } else {
        statement_names(statements[from as int]) + statements_names(statements, from + 1)
    }
}

/// The environment `after` is the environment `before` with scopes added
/// and, in the scope `scope`, names of `names` bound anew: every other
/// scope is as it was, and so is every other name of `scope`.
pub open spec fn extends(
    before: Seq<ScopeView>,
    after: Seq<ScopeView>,
    scope: nat,
    names: Set<Seq<char>>,
) -> bool {
    &&& before.len() <= after.len()
    &&& forall|i: int| 0 <= i < before.len() && i != scope ==> #[trigger] after[i] == before[i]
    &&& scope < before.len() ==> after[scope as int].outer == before[scope as int].outer
    &&& scope < before.len() ==> forall|name: Seq<char>|
        !names.contains(name) ==> #[trigger] lookup(after[scope as int].bindings, name) == lookup(
            before[scope as int].bindings,
            name,
        )
}

/// Extensions follow one another, and their names add up.
pub proof fn lemma_extends_twice(
    a: Seq<ScopeView>,
    b: Seq<ScopeView>,
    c: Seq<ScopeView>,
    scope: nat,
    first: Set<Seq<char>>,
    second: Set<Seq<char>>,
    all: Set<Seq<char>>,
)
    requires
        extends(a, b, scope, first),
        extends(b, c, scope, second),
        first.subset_of(all),
        second.subset_of(all),
    ensures
        extends(a, c, scope, all),
{
    if scope < a.len() {
        assert forall|name: Seq<char>| !all.contains(name) implies #[trigger] lookup(
            c[scope as int].bindings,
            name,
        ) == lookup(a[scope as int].bindings, name) by {
            assert(!first.contains(name));
            assert(!second.contains(name));
            assert(lookup(b[scope as int].bindings, name) == lookup(a[scope as int].bindings, name));
        }
    }
}

/// Binding a name in a scope extends the environment by that name.
pub proof fn lemma_bound_extends(
    env: Seq<ScopeView>,
    scope: nat,
    name: Seq<char>,
    value: ObjectView,
    names: Set<Seq<char>>,
)
    requires
        names.contains(name),
    ensures
        extends(env, bound(env, scope, name, value), scope, names),
{
    if scope < env.len() {
        let after = bound(env, scope, name, value);
        assert forall|other: Seq<char>| !names.contains(other) implies #[trigger] lookup(
            after[scope as int].bindings,
            other,
        ) == lookup(env[scope as int].bindings, other) by {
            lemma_lookup_inserted_other(env[scope as int].bindings, name, value, other);
        }
    }
}

/// Binding parameters in a scope leaves every other scope as it was.
pub proof fn lemma_bound_all_elsewhere(
    env: Seq<ScopeView>,
    scope: nat,
    names: Seq<Seq<char>>,
    values: Seq<ObjectView>,
    count: nat,
)
    ensures
        bound_all(env, scope, names, values, count).len() == env.len(),
        forall|i: int|
            0 <= i < env.len() && i != scope ==> #[trigger] bound_all(
                env,
                scope,
                names,
                values,
                count,
            )[i] == env[i],
    decreases count,
{
    if !(count == 0 || count > names.len() || count > values.len()) {
        lemma_bound_all_elsewhere(env, scope, names, values, (count - 1) as nat);
    }
}

/// The evaluation of an expression in a scope that there is extends the
/// environment by the names of the expression.
pub proof fn lemma_expression_extends(
    e: ExpressionView,
    env: Seq<ScopeView>,
    scope: nat,
    depth: nat,
)
    requires
        scope < env.len(),
    ensures
        extends(env, eval_expression(e, env, scope, depth).1, scope, expression_names(e)),
    decreases depth, 0nat, 0nat,
{
    lemma_eval_expression(e, env, scope, depth);
    let names = expression_names(e);
    if depth > 0 {
        let deeper = (depth - 1) as nat;
        match e {
            ExpressionView::Array(items) => {
                lemma_expressions_extend(items, 0, Seq::empty(), env, scope, deeper);
            },
            ExpressionView::Hash(pairs) => {
                lemma_pairs_extend(pairs, 0, Seq::empty(), env, scope, deeper);
            },
            ExpressionView::Prefix { operator, right } => {
                lemma_expression_extends(*right, env, scope, deeper);
            },
            ExpressionView::Infix { operator, left, right } => {
                lemma_expression_extends(*left, env, scope, deeper);
                let (first, env1) = eval_expression(*left, env, scope, deeper);
                if first is Ok {
                    lemma_expression_extends(*right, env1, scope, deeper);
                    let env2 = eval_expression(*right, env1, scope, deeper).1;
                    lemma_extends_twice(
                        env,
                        env1,
                        env2,
                        scope,
                        expression_names(*left),
                        expression_names(*right),
                        names,
                    );
                } else {
                    lemma_extends_twice(
                        env,
                        env,
                        env1,
                        scope,
                        Set::empty(),
                        expression_names(*left),
                        names,
                    );
                }
            },
            ExpressionView::Cond { cond, then_, else_ } => {
                lemma_expression_extends(*cond, env, scope, deeper);
                let (tested, env1) = eval_expression(*cond, env, scope, deeper);
                let chosen: Seq<StatementView> = match tested {
                    Ok(value) => if crate::eval::object::truthy(value) {
                        then_
                    } else {
                        match else_ {
                            Some(statements) => statements,
                            None => Seq::empty(),
                        }
                    },
                    Err(_) => Seq::empty(),
                };
                lemma_block_extends(chosen, 0, ObjectView::Null, env1, scope, deeper);
                let env2 = eval_block(chosen, 0, ObjectView::Null, env1, scope, deeper).1;
                lemma_eval_block(chosen, 0, ObjectView::Null, env1, scope, deeper);
                if chosen.len() == 0 {
                    lemma_extends_twice(
                        env,
                        env,
                        env1,
                        scope,
                        Set::empty(),
                        expression_names(*cond),
                        names,
                    );
                    if tested is Ok {
                        assert(env2 == env1);
                    }
                } else {
                    lemma_extends_twice(
                        env,
                        env1,
                        env2,
                        scope,
                        expression_names(*cond),
                        statements_names(chosen, 0),
                        names,
                    );
                }
            },
            ExpressionView::Func { args, body } => {
                assert(extends(env, nested(env, scope), scope, names));
            },
            ExpressionView::Call { func, args } => {
                lemma_expression_extends(*func, env, scope, deeper);
                let (called, env1) = eval_expression(*func, env, scope, deeper);
                lemma_extends_twice(
                    env,
                    env,
                    env1,
                    scope,
                    Set::empty(),
                    expression_names(*func),
                    names,
                );
                if let Ok(callee) = called {
                    lemma_expressions_extend(args, 0, Seq::empty(), env1, scope, deeper);
                    let (given, env2) = eval_expressions(
                        args,
                        0,
                        Seq::empty(),
                        env1,
                        scope,
                        deeper,
                    );
                    lemma_extends_twice(
                        env,
                        env1,
                        env2,
                        scope,
                        expression_names(*func),
                        expressions_names(args, 0),
                        names,
                    );
                    if let Ok(values) = given {
                        if let ObjectView::Function { parameters, body, environment } = callee {
                            if parameters.len() == values.len() {
                                let inner = env2.len();
                                let fresh = nested(env2, environment);
                                let env3 = bound_all(
                                    fresh,
                                    inner,
                                    parameters,
                                    values,
                                    parameters.len(),
                                );
                                lemma_bound_all_elsewhere(
                                    fresh,
                                    inner,
                                    parameters,
                                    values,
                                    parameters.len(),
                                );
                                lemma_block_extends(
                                    body,
                                    0,
                                    ObjectView::Null,
                                    env3,
                                    inner,
                                    deeper,
                                );
                                let env4 = eval_block(
                                    body,
                                    0,
                                    ObjectView::Null,
                                    env3,
                                    inner,
                                    deeper,
                                ).1;
                                assert forall|i: int| 0 <= i < env2.len() implies #[trigger] env4[i]
                                    == env2[i] by {
                                    assert(env3[i] == fresh[i]);
                                    assert(fresh[i] == env2[i]);
                                }
                                assert(extends(env2, env4, scope, Set::empty()));
                                lemma_extends_twice(
                                    env,
                                    env2,
                                    env4,
                                    scope,
                                    names,
                                    Set::empty(),
                                    names,
                                );
                            }
                        }
                    }
                }
            },
            _ => {},
        }
    }
}

/// The evaluation of a list of expressions in a scope that there is
/// extends the environment by the names of the expressions.
pub proof fn lemma_expressions_extend(
    items: Seq<ExpressionView>,
    from: nat,
    done: Seq<ObjectView>,
    env: Seq<ScopeView>,
    scope: nat,
    depth: nat,
)
    requires
        scope < env.len(),
    ensures
        extends(
            env,
            eval_expressions(items, from, done, env, scope, depth).1,
            scope,
            expressions_names(items, from),
        ),
    decreases depth, 1nat, items.len() - from,
{
    lemma_eval_expressions(items, from, done, env, scope, depth);
    if from < items.len() {
        lemma_expression_extends(items[from as int], env, scope, depth);
        let (first, env1) = eval_expression(items[from as int], env, scope, depth);
        match first {
            Err(_) => {
                lemma_extends_twice(
                    env,
                    env,
                    env1,
                    scope,
                    Set::empty(),
                    expression_names(items[from as int]),
                    expressions_names(items, from),
                );
            },
            Ok(value) => {
                lemma_expressions_extend(items, from + 1, done.push(value), env1, scope, depth);
                lemma_extends_twice(
                    env,
                    env1,
                    eval_expressions(items, from + 1, done.push(value), env1, scope, depth).1,
                    scope,
                    expression_names(items[from as int]),
                    expressions_names(items, from + 1),
                    expressions_names(items, from),
                );
            },
        }
    }
}

/// The evaluation of the pairs of a hash literal in a scope that there is
/// extends the environment by the names of the pairs.
pub proof fn lemma_pairs_extend(
    pairs: Seq<(ExpressionView, ExpressionView)>,
    from: nat,
    done: Seq<(HashMapKeyView, ObjectView)>,
    env: Seq<ScopeView>,
    scope: nat,
    depth: nat,
)
    requires
        scope < env.len(),
    ensures
        extends(
            env,
            eval_pairs(pairs, from, done, env, scope, depth).1,
            scope,
            pairs_names(pairs, from),
        ),
    decreases depth, 1nat, pairs.len() - from,
{
    lemma_eval_pairs(pairs, from, done, env, scope, depth);
    if from < pairs.len() {
        let all = pairs_names(pairs, from);
        let key_names = expression_names(pairs[from as int].0);
        let value_names = expression_names(pairs[from as int].1);
        lemma_expression_extends(pairs[from as int].0, env, scope, depth);
        let (first, env1) = eval_expression(pairs[from as int].0, env, scope, depth);
        lemma_extends_twice(env, env, env1, scope, Set::empty(), key_names, all);
        if let Ok(key_value) = first {
            lemma_expression_extends(pairs[from as int].1, env1, scope, depth);
            let (second, env2) = eval_expression(pairs[from as int].1, env1, scope, depth);
            lemma_extends_twice(env, env1, env2, scope, key_names, value_names, all);
            if let Ok(value) = second {
                if let Some(key) = crate::eval::object::key_of(key_value) {
                    let next = crate::eval::assoc::inserted(done, key, value);
                    lemma_pairs_extend(pairs, from + 1, next, env2, scope, depth);
                    lemma_extends_twice(
                        env,
                        env2,
                        eval_pairs(pairs, from + 1, next, env2, scope, depth).1,
                        scope,
                        all,
                        pairs_names(pairs, from + 1),
                        all,
                    );
                }
            }
        }
    }
}

/// The evaluation of a statement in a scope that there is extends the
/// environment by the names of the statement.
pub proof fn lemma_statement_extends(
    s: StatementView,
    env: Seq<ScopeView>,
    scope: nat,
    depth: nat,
)
    requires
        scope < env.len(),
    ensures
        extends(env, eval_statement(s, env, scope, depth).1, scope, statement_names(s)),
    decreases depth, 1nat, 0nat,
{
    lemma_eval_statement(s, env, scope, depth);
    match s {
        StatementView::Expr(value) => {
            lemma_expression_extends(value, env, scope, depth);
        },
        StatementView::Let { name, value } => {
            lemma_expression_extends(value, env, scope, depth);
            let (r, env1) = eval_expression(value, env, scope, depth);
            match r {
                Err(_) => {
                    lemma_extends_twice(
                        env,
                        env,
                        env1,
                        scope,
                        Set::empty(),
                        expression_names(value),
                        statement_names(s),
                    );
                },
                Ok(v) => {
                    lemma_bound_extends(env1, scope, name, v, statement_names(s));
                    lemma_extends_twice(
                        env,
                        env1,
                        bound(env1, scope, name, v),
                        scope,
                        expression_names(value),
                        statement_names(s),
                        statement_names(s),
                    );
                },
            }
        },
        StatementView::Return { value } => {
            lemma_expression_extends(value, env, scope, depth);
        },
        StatementView::Block(statements) => {
            if depth > 0 {
                lemma_block_extends(
                    statements,
                    0,
                    ObjectView::Null,
                    env,
                    scope,
                    (depth - 1) as nat,
                );
            }
        },
    }
}

/// The evaluation of a block in a scope that there is extends the
/// environment by the names of its statements.
pub proof fn lemma_block_extends(
    statements: Seq<StatementView>,
    from: nat,
    last: ObjectView,
    env: Seq<ScopeView>,
    scope: nat,
    depth: nat,
)
    requires
        scope < env.len(),
    ensures
        extends(
            env,
            eval_block(statements, from, last, env, scope, depth).1,
            scope,
            statements_names(statements, from),
        ),
    decreases depth, 2nat, statements.len() - from,
{
    lemma_eval_block(statements, from, last, env, scope, depth);
    if from < statements.len() {
        let all = statements_names(statements, from);
        lemma_statement_extends(statements[from as int], env, scope, depth);
        let (r, env1) = eval_statement(statements[from as int], env, scope, depth);
        lemma_extends_twice(
            env,
            env,
            env1,
            scope,
            Set::empty(),
            statement_names(statements[from as int]),
            all,
        );
        if let Ok(value) = r {
            if !(value is Return) {
                lemma_block_extends(statements, from + 1, value, env1, scope, depth);
                lemma_extends_twice(
                    env,
                    env1,
                    eval_block(statements, from + 1, value, env1, scope, depth).1,
                    scope,
                    all,
                    statements_names(statements, from + 1),
                    all,
                );
            }
        }
    }
}

/// The evaluation of a program in a scope that there is adds scopes to
/// the environment and, in that scope, binds names that the `let`
/// statements of the program name. It changes nothing else: every other
/// scope that was there is as it was, and so is every other name of the
/// scope.
pub proof fn lemma_program_extends(
    program: Seq<StatementView>,
    env: Seq<ScopeView>,
    scope: nat,
    depth: nat,
)
    requires
        scope < env.len(),
    ensures
        extends(
            env,
            eval_program(program, env, scope, depth).1,
            scope,
            statements_names(program, 0),
        ),
{
    lemma_block_extends(program, 0, ObjectView::Null, env, scope, depth);
}

} // verus!
