//! What programs mean: the value of each construct of the language, and
//! what it does to the environment.
//!
//! The functions here take the environment before, the index of the scope
//! in which names are bound and looked up, and the number of levels by
//! which the evaluation may still nest. They give the value or the error,
//! and the environment after.
//!
//! The functions for expressions, statements and lists call one another in
//! a circle, so each is kept behind its name: a proof that needs what one
//! of them says of given arguments calls the lemma that bears its name,
//! which unfolds it once.

use vstd::prelude::*;
use crate::ast::{ExpressionView, InfixOperator, PrefixOperator, StatementView};
use crate::eval::assoc::{inserted, lookup};
use crate::eval::builtin::{builtin_named, call_builtin, integer};
use crate::eval::environment::{ScopeView, bound, bound_all, nested, resolve};
use crate::eval::error::{ErrorView, EvalError};
use crate::eval::object::{HashMapKeyView, ObjectView, key_of, truthy, unwrapped};
use crate::equal::same;
use crate::parser::grammar::parse_source;

verus! {

/// What an evaluation gives: a value or an error, and the environment
/// after it.
pub type Evaluated<T> = (Result<T, EvalError>, Seq<ScopeView>);

/// The number of levels by which an evaluation may nest when nothing else
/// is asked for: few enough for the stack of an ordinary thread.
pub const MAX_DEPTH: usize = 400;

/// The quotient of `a` by `b`, rounded toward zero.
pub open spec fn quotient(a: int, b: int) -> int
    recommends
        b != 0,
{
    if a >= 0 && b > 0 {
        a / b
    } else if a < 0 && b < 0 {
        (-a) / (-b)
    } else if a < 0 {
        -((-a) / b)
    } else {
        -(a / (-b))
    }
}

/// `-x`
pub open spec fn negated(right: ObjectView) -> Result<ObjectView, EvalError>
    decreases right,
{
    match right {
        ObjectView::Int(value) => integer(-value),
        ObjectView::Return(value) => negated(*value),
        _ => Err(EvalError::NotNegatable),
    }
}

/// `!x` or `-x`
pub open spec fn eval_prefix(operator: PrefixOperator, right: ObjectView) -> Result<
    ObjectView,
    EvalError,
> {
    match operator {
        PrefixOperator::Neg => negated(right),
        PrefixOperator::Not => Ok(ObjectView::Bool(!truthy(right))),
    }
}

/// `a <operator> b` for two integers.
pub open spec fn eval_integers(operator: InfixOperator, a: i64, b: i64) -> Result<
    ObjectView,
    EvalError,
> {
    match operator {
        InfixOperator::Add => integer(a + b),
        InfixOperator::Sub => integer(a - b),
        InfixOperator::Mul => integer(a * b),
        InfixOperator::Div => if b == 0 {
            Err(EvalError::DivisionByZero)
        } else {
            integer(quotient(a as int, b as int))
        },
        InfixOperator::Eq => Ok(ObjectView::Bool(a == b)),
        InfixOperator::NotEq => Ok(ObjectView::Bool(a != b)),
        InfixOperator::Gt => Ok(ObjectView::Bool(a > b)),
        InfixOperator::Lt => Ok(ObjectView::Bool(a < b)),
        InfixOperator::Index => Err(EvalError::InvalidOperation(operator)),
    }
}

/// `x <operator> y`, and `x[y]` for the operator `Index`.
pub open spec fn eval_infix(operator: InfixOperator, left: ObjectView, right: ObjectView) -> Result<
    ObjectView,
    EvalError,
> {
    match (left, right) {
        (ObjectView::Null, ObjectView::Null) => Ok(ObjectView::Null),
        (ObjectView::Bool(a), ObjectView::Bool(b)) => match operator {
            InfixOperator::Eq => Ok(ObjectView::Bool(a == b)),
            InfixOperator::NotEq => Ok(ObjectView::Bool(a != b)),
            _ => Err(EvalError::InvalidOperation(operator)),
        },
        (ObjectView::Int(a), ObjectView::Int(b)) => eval_integers(operator, a, b),
        (ObjectView::String(a), ObjectView::String(b)) => match operator {
            InfixOperator::Add => Ok(ObjectView::String(a + b)),
            _ => Err(EvalError::InvalidOperation(operator)),
        },
        (ObjectView::Array(items), ObjectView::Int(index)) => match operator {
            InfixOperator::Index => if 0 <= index < items.len() {
                Ok(items[index as int])
            } else {
                Ok(ObjectView::Null)
            },
            _ => Err(EvalError::InvalidOperation(operator)),
        },
        (ObjectView::Hash(entries), key) => match operator {
            InfixOperator::Index => match key_of(key) {
                Some(k) => match lookup(entries, k) {
                    Some(value) => Ok(value),
                    None => Ok(ObjectView::Null),
                },
                None => Err(EvalError::UnhashableKey),
            },
            _ => Err(EvalError::InvalidOperation(operator)),
        },
        _ => Err(EvalError::InvalidOperation(operator)),
    }
}

/// The value of a name: `null` for the name `null`, a builtin for its
/// name, else what the environment holds for it.
pub open spec fn named_value(env: Seq<ScopeView>, scope: nat, name: Seq<char>) -> ObjectView {
    if name == "null"@ {
        ObjectView::Null
    } else {
        match builtin_named(name) {
            Some(builtin) => ObjectView::Builtin(builtin),
            None => resolve(env, scope, name),
        }
    }
}

/// A result with its value changed by `f`.
pub open spec fn mapped<A, B>(r: Evaluated<A>, f: spec_fn(A) -> Result<B, EvalError>) -> Evaluated<
    B,
> {
    match r.0 {
        Ok(value) => (f(value), r.1),
        Err(e) => (Err(e), r.1),
    }
}

/// The value of an expression.
#[verifier::opaque]
pub open spec fn eval_expression(
    e: ExpressionView,
    env: Seq<ScopeView>,
    scope: nat,
    depth: nat,
) -> Evaluated<ObjectView>
    decreases depth, 0nat, 0nat,
{
    if depth == 0 {
        (Err(EvalError::DepthExceeded), env)
    } else {
        let deeper = (depth - 1) as nat;
        match e {
            ExpressionView::Bool(value) => (Ok(ObjectView::Bool(value)), env),
            ExpressionView::Int(value) => (Ok(ObjectView::Int(value)), env),
            ExpressionView::String(text) => (Ok(ObjectView::String(text)), env),
            ExpressionView::Ident(name) => (Ok(named_value(env, scope, name)), env),
            ExpressionView::Array(items) => mapped(
                eval_expressions(items, 0, Seq::empty(), env, scope, deeper),
                |values: Seq<ObjectView>| Ok(ObjectView::Array(values)),
            ),
            ExpressionView::Hash(pairs) => mapped(
                eval_pairs(pairs, 0, Seq::empty(), env, scope, deeper),
                |entries: Seq<(HashMapKeyView, ObjectView)>| Ok(ObjectView::Hash(entries)),
            ),
            ExpressionView::Prefix { operator, right } => mapped(
                eval_expression(*right, env, scope, deeper),
                |value: ObjectView| eval_prefix(operator, value),
            ),
            ExpressionView::Infix { operator, left, right } => {
                let (first, env1) = eval_expression(*left, env, scope, deeper);
                match first {
                    Err(e) => (Err(e), env1),
                    Ok(a) => mapped(
                        eval_expression(*right, env1, scope, deeper),
                        |b: ObjectView| eval_infix(operator, a, b),
                    ),
                }
            },
            ExpressionView::Cond { cond, then_, else_ } => {
                let (tested, env1) = eval_expression(*cond, env, scope, deeper);
                match tested {
                    Err(e) => (Err(e), env1),
                    Ok(value) => if truthy(value) {
                        eval_block(then_, 0, ObjectView::Null, env1, scope, deeper)
                    } else {
                        match else_ {
                            Some(statements) => eval_block(
                                statements,
                                0,
                                ObjectView::Null,
                                env1,
                                scope,
                                deeper,
                            ),
                            None => (Ok(ObjectView::Null), env1),
                        }
                    },
                }
            },
            ExpressionView::Func { args, body } => (
                Ok(ObjectView::Function { parameters: args, body, environment: env.len() }),
                nested(env, scope),
            ),
            ExpressionView::Call { func, args } => {
                let (called, env1) = eval_expression(*func, env, scope, deeper);
                match called {
                    Err(e) => (Err(e), env1),
                    Ok(callee) => {
                        let (given, env2) = eval_expressions(
                            args,
                            0,
                            Seq::empty(),
                            env1,
                            scope,
                            deeper,
                        );
                        match given {
                            Err(e) => (Err(e), env2),
                            Ok(values) => match callee {
                                ObjectView::Function { parameters, body, environment } => {
                                    if parameters.len() != values.len() {
                                        (
                                            Err(
                                                EvalError::WrongArgumentCount {
                                                    expected: parameters.len() as usize,
                                                    found: values.len() as usize,
                                                },
                                            ),
                                            env2,
                                        )
                                    } else {
                                        mapped(
                                            eval_block(
                                                body,
                                                0,
                                                ObjectView::Null,
                                                bound_all(
                                                    nested(env2, environment),
                                                    env2.len(),
                                                    parameters,
                                                    values,
                                                    parameters.len(),
                                                ),
                                                env2.len(),
                                                deeper,
                                            ),
                                            |value: ObjectView| Ok(unwrapped(value)),
                                        )
                                    }
                                },
                                ObjectView::Builtin(builtin) => (
                                    call_builtin(builtin, values),
                                    env2,
                                ),
                                _ => (Err(EvalError::NotCallable), env2),
                            },
                        }
                    },
                }
            },
        }
    }
}

/// The values of the expressions from index `from` on, in order, put
/// after the values `done`.
#[verifier::opaque]
pub open spec fn eval_expressions(
    items: Seq<ExpressionView>,
    from: nat,
    done: Seq<ObjectView>,
    env: Seq<ScopeView>,
    scope: nat,
    depth: nat,
) -> Evaluated<Seq<ObjectView>>
    decreases depth, 1nat, items.len() - from,
{
    if from >= items.len() {
        (Ok(done), env)
    } else {
        let (first, env1) = eval_expression(items[from as int], env, scope, depth);
        match first {
            Err(e) => (Err(e), env1),
            Ok(value) => eval_expressions(items, from + 1, done.push(value), env1, scope, depth),
        }
    }
}

/// The entries that the pairs from index `from` on give, each key and
/// then its value in order, inserted into the entries `done`.
#[verifier::opaque]
pub open spec fn eval_pairs(
    pairs: Seq<(ExpressionView, ExpressionView)>,
    from: nat,
    done: Seq<(HashMapKeyView, ObjectView)>,
    env: Seq<ScopeView>,
    scope: nat,
    depth: nat,
) -> Evaluated<Seq<(HashMapKeyView, ObjectView)>>
    decreases depth, 1nat, pairs.len() - from,
{
    if from >= pairs.len() {
        (Ok(done), env)
    } else {
        let (first, env1) = eval_expression(pairs[from as int].0, env, scope, depth);
        match first {
            Err(e) => (Err(e), env1),
            Ok(key_value) => {
                let (second, env2) = eval_expression(pairs[from as int].1, env1, scope, depth);
                match second {
                    Err(e) => (Err(e), env2),
                    Ok(value) => match key_of(key_value) {
                        None => (Err(EvalError::UnhashableKey), env2),
                        Some(key) => eval_pairs(
                            pairs,
                            from + 1,
                            inserted(done, key, value),
                            env2,
                            scope,
                            depth,
                        ),
                    },
                }
            },
        }
    }
}

/// The value of a statement. A `let` binds its name in the scope `scope`;
/// a `return` puts a marker around its value.
#[verifier::opaque]
pub open spec fn eval_statement(
    s: StatementView,
    env: Seq<ScopeView>,
    scope: nat,
    depth: nat,
) -> Evaluated<ObjectView>
    decreases depth, 1nat, 0nat,
{
    match s {
        StatementView::Expr(value) => eval_expression(value, env, scope, depth),
        StatementView::Let { name, value } => {
            let (r, env1) = eval_expression(value, env, scope, depth);
            match r {
                Err(e) => (Err(e), env1),
                Ok(v) => (Ok(v), bound(env1, scope, name, v)),
            }
        },
        StatementView::Return { value } => mapped(
            eval_expression(value, env, scope, depth),
            |v: ObjectView| Ok(ObjectView::Return(Box::new(v))),
        ),
        StatementView::Block(statements) => if depth == 0 {
            (Err(EvalError::DepthExceeded), env)
        } else {
            eval_block(statements, 0, ObjectView::Null, env, scope, (depth - 1) as nat)
        },
    }
}

/// The value of the statements from index `from` on, `last` being the
/// value of the one before: that of the first one that gives a return
/// marker, with the marker, else that of the last one.
#[verifier::opaque]
pub open spec fn eval_block(
    statements: Seq<StatementView>,
    from: nat,
    last: ObjectView,
    env: Seq<ScopeView>,
    scope: nat,
    depth: nat,
) -> Evaluated<ObjectView>
    decreases depth, 2nat, statements.len() - from,
{
    if from >= statements.len() {
        (Ok(last), env)
    } else {
        let (r, env1) = eval_statement(statements[from as int], env, scope, depth);
        match r {
            Err(e) => (Err(e), env1),
            Ok(value) => if value is Return {
                (Ok(value), env1)
            } else {
                eval_block(statements, from + 1, value, env1, scope, depth)
            },
        }
    }
}

/// The value of a program: that of its statements, without the return
/// marker if there is one.
pub open spec fn eval_program(
    program: Seq<StatementView>,
    env: Seq<ScopeView>,
    scope: nat,
    depth: nat,
) -> Evaluated<ObjectView> {
    mapped(
        eval_block(program, 0, ObjectView::Null, env, scope, depth),
        |value: ObjectView| Ok(unwrapped(value)),
    )
}

/// The value of a source text in the outermost scope of an environment,
/// or why it has none, and the environment after.
pub open spec fn eval_source(source: Seq<char>, env: Seq<ScopeView>, depth: nat) -> (
    Result<ObjectView, ErrorView>,
    Seq<ScopeView>,
) {
    match parse_source(source) {
        Err(e) => (Err(ErrorView::Parse(e)), env),
        Ok(program) => {
            let (r, env1) = eval_program(program, env, 0, depth);
            (
                match r {
                    Ok(value) => Ok(value),
                    Err(e) => Err(ErrorView::Eval(e)),
                },
                env1,
            )
        },
    }
}

/// [`eval_expression`], unfolded once.
pub proof fn lemma_eval_expression(
    e: ExpressionView,
    env: Seq<ScopeView>,
    scope: nat,
    depth: nat,
)
    ensures
        same(eval_expression(e, env, scope, depth), ({
            if depth == 0 {
                (Err(EvalError::DepthExceeded), env)
            } else {
                let deeper = (depth - 1) as nat;
                match e {
                    ExpressionView::Bool(value) => (Ok(ObjectView::Bool(value)), env),
                    ExpressionView::Int(value) => (Ok(ObjectView::Int(value)), env),
                    ExpressionView::String(text) => (Ok(ObjectView::String(text)), env),
                    ExpressionView::Ident(name) => (Ok(named_value(env, scope, name)), env),
                    ExpressionView::Array(items) => mapped(
                        eval_expressions(items, 0, Seq::empty(), env, scope, deeper),
                        |values: Seq<ObjectView>| Ok(ObjectView::Array(values)),
                    ),
                    ExpressionView::Hash(pairs) => mapped(
                        eval_pairs(pairs, 0, Seq::empty(), env, scope, deeper),
                        |entries: Seq<(HashMapKeyView, ObjectView)>| Ok(ObjectView::Hash(entries)),
                    ),
                    ExpressionView::Prefix { operator, right } => mapped(
                        eval_expression(*right, env, scope, deeper),
                        |value: ObjectView| eval_prefix(operator, value),
                    ),
                    ExpressionView::Infix { operator, left, right } => {
                        let (first, env1) = eval_expression(*left, env, scope, deeper);
                        match first {
                            Err(e) => (Err(e), env1),
                            Ok(a) => mapped(
                                eval_expression(*right, env1, scope, deeper),
                                |b: ObjectView| eval_infix(operator, a, b),
                            ),
                        }
                    },
                    ExpressionView::Cond { cond, then_, else_ } => {
                        let (tested, env1) = eval_expression(*cond, env, scope, deeper);
                        match tested {
                            Err(e) => (Err(e), env1),
                            Ok(value) => if truthy(value) {
                                eval_block(then_, 0, ObjectView::Null, env1, scope, deeper)
                            } else {
                                match else_ {
                                    Some(statements) => eval_block(
                                        statements,
                                        0,
                                        ObjectView::Null,
                                        env1,
                                        scope,
                                        deeper,
                                    ),
                                    None => (Ok(ObjectView::Null), env1),
                                }
                            },
                        }
                    },
                    ExpressionView::Func { args, body } => (
                        Ok(ObjectView::Function { parameters: args, body, environment: env.len() }),
                        nested(env, scope),
                    ),
                    ExpressionView::Call { func, args } => {
                        let (called, env1) = eval_expression(*func, env, scope, deeper);
                        match called {
                            Err(e) => (Err(e), env1),
                            Ok(callee) => {
                                let (given, env2) = eval_expressions(
                                    args,
                                    0,
                                    Seq::empty(),
                                    env1,
                                    scope,
                                    deeper,
                                );
                                match given {
                                    Err(e) => (Err(e), env2),
                                    Ok(values) => match callee {
                                        ObjectView::Function { parameters, body, environment } => {
                                            if parameters.len() != values.len() {
                                                (
                                                    Err(
                                                        EvalError::WrongArgumentCount {
                                                            expected: parameters.len() as usize,
                                                            found: values.len() as usize,
                                                        },
                                                    ),
                                                    env2,
                                                )
                                            } else {
                                                mapped(
                                                    eval_block(
                                                        body,
                                                        0,
                                                        ObjectView::Null,
                                                        bound_all(
                                                            nested(env2, environment),
                                                            env2.len(),
                                                            parameters,
                                                            values,
                                                            parameters.len(),
                                                        ),
                                                        env2.len(),
                                                        deeper,
                                                    ),
                                                    |value: ObjectView| Ok(unwrapped(value)),
                                                )
                                            }
                                        },
                                        ObjectView::Builtin(builtin) => (
                                            call_builtin(builtin, values),
                                            env2,
                                        ),
                                        _ => (Err(EvalError::NotCallable), env2),
                                    },
                                }
                            },
                        }
                    },
                }
            }
        })),
{
    reveal_with_fuel(eval_expression, 1);
    reveal_with_fuel(eval_expressions, 1);
    reveal_with_fuel(eval_pairs, 1);
    reveal_with_fuel(eval_block, 1);
}

/// [`eval_expressions`], unfolded once.
pub proof fn lemma_eval_expressions(
    items: Seq<ExpressionView>,
    from: nat,
    done: Seq<ObjectView>,
    env: Seq<ScopeView>,
    scope: nat,
    depth: nat,
)
    ensures
        same(eval_expressions(items, from, done, env, scope, depth), ({
            if from >= items.len() {
                (Ok(done), env)
            } else {
                let (first, env1) = eval_expression(items[from as int], env, scope, depth);
                match first {
                    Err(e) => (Err(e), env1),
                    Ok(value) => eval_expressions(items, from + 1, done.push(value), env1, scope, depth),
                }
            }
        })),
{
    reveal_with_fuel(eval_expressions, 1);
    reveal_with_fuel(eval_expression, 1);
}

/// [`eval_pairs`], unfolded once.
pub proof fn lemma_eval_pairs(
    pairs: Seq<(ExpressionView, ExpressionView)>,
    from: nat,
    done: Seq<(HashMapKeyView, ObjectView)>,
    env: Seq<ScopeView>,
    scope: nat,
    depth: nat,
)
    ensures
        same(eval_pairs(pairs, from, done, env, scope, depth), ({
            if from >= pairs.len() {
                (Ok(done), env)
            } else {
                let (first, env1) = eval_expression(pairs[from as int].0, env, scope, depth);
                match first {
                    Err(e) => (Err(e), env1),
                    Ok(key_value) => {
                        let (second, env2) = eval_expression(pairs[from as int].1, env1, scope, depth);
                        match second {
                            Err(e) => (Err(e), env2),
                            Ok(value) => match key_of(key_value) {
                                None => (Err(EvalError::UnhashableKey), env2),
                                Some(key) => eval_pairs(
                                    pairs,
                                    from + 1,
                                    inserted(done, key, value),
                                    env2,
                                    scope,
                                    depth,
                                ),
                            },
                        }
                    },
                }
            }
        })),
{
    reveal_with_fuel(eval_pairs, 1);
    reveal_with_fuel(eval_expression, 1);
}

/// [`eval_statement`], unfolded once.
pub proof fn lemma_eval_statement(
    s: StatementView,
    env: Seq<ScopeView>,
    scope: nat,
    depth: nat,
)
    ensures
        same(eval_statement(s, env, scope, depth), ({
            match s {
                StatementView::Expr(value) => eval_expression(value, env, scope, depth),
                StatementView::Let { name, value } => {
                    let (r, env1) = eval_expression(value, env, scope, depth);
                    match r {
                        Err(e) => (Err(e), env1),
                        Ok(v) => (Ok(v), bound(env1, scope, name, v)),
                    }
                },
                StatementView::Return { value } => mapped(
                    eval_expression(value, env, scope, depth),
                    |v: ObjectView| Ok(ObjectView::Return(Box::new(v))),
                ),
                StatementView::Block(statements) => if depth == 0 {
                    (Err(EvalError::DepthExceeded), env)
                } else {
                    eval_block(statements, 0, ObjectView::Null, env, scope, (depth - 1) as nat)
                },
            }
        })),
{
    reveal_with_fuel(eval_statement, 1);
    reveal_with_fuel(eval_expression, 1);
    reveal_with_fuel(eval_block, 1);
}

/// [`eval_block`], unfolded once.
pub proof fn lemma_eval_block(
    statements: Seq<StatementView>,
    from: nat,
    last: ObjectView,
    env: Seq<ScopeView>,
    scope: nat,
    depth: nat,
)
    ensures
        same(eval_block(statements, from, last, env, scope, depth), ({
            if from >= statements.len() {
                (Ok(last), env)
            } else {
                let (r, env1) = eval_statement(statements[from as int], env, scope, depth);
                match r {
                    Err(e) => (Err(e), env1),
                    Ok(value) => if value is Return {
                        (Ok(value), env1)
                    } else {
                        eval_block(statements, from + 1, value, env1, scope, depth)
                    },
                }
            }
        })),
{
    reveal_with_fuel(eval_block, 1);
    reveal_with_fuel(eval_statement, 1);
}

} // verus!
