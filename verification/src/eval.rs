//! The evaluator: from a program and an environment to a value.

use vstd::prelude::*;
use vstd::string::StringExecFns;
use crate::ast::{
    Expression, InfixOperator, PrefixOperator, Program, Statement, duplicate_names,
    duplicate_statements, expressions_view, names_view, pairs_view, statements_view,
};
use crate::eval::assoc::distinct_keys;
use crate::eval::builtin::{find_key, insert_entry, outcome};
use crate::eval::environment::{bound_all, nested};
use crate::eval::object::{entries_view, objects_view};
use crate::parser::Parser;
use crate::equal::same;

pub mod assoc;
pub mod builtin;
pub mod depth;
pub mod environment;
pub mod error;
pub mod frame;
pub mod object;
pub mod runs;
pub mod semantics;

pub use builtin::BuiltinFunction;
pub use environment::{Environment, ScopeView};
pub use error::{Error, ErrorView, EvalError};
pub use object::{HashMapKey, HashMapKeyView, HashObject, Object, ObjectView};
pub use semantics::MAX_DEPTH;

verus! {

/// What the evaluation of a list gave, as a mathematical value.
pub open spec fn outcomes(result: Result<Vec<Object>, EvalError>) -> Result<
    Seq<ObjectView>,
    EvalError,
> {
    match result {
        Ok(values) => Ok(objects_view(values@)),
        Err(e) => Err(e),
    }
}

/// What the evaluation of the pairs of a hash literal gave, as a
/// mathematical value.
pub open spec fn entries_outcome(result: Result<Vec<(HashMapKey, Object)>, EvalError>) -> Result<
    Seq<(HashMapKeyView, ObjectView)>,
    EvalError,
> {
    match result {
        Ok(entries) => Ok(entries_view(entries@)),
        Err(e) => Err(e),
    }
}

/// What the evaluation of a source text gave, as a mathematical value.
pub open spec fn final_outcome(result: Result<Object, Error>) -> Result<ObjectView, ErrorView> {
    match result {
        Ok(object) => Ok(object@),
        Err(e) => Err(e@),
    }
}

/// The integer `n` as a value, where the operation that gave it did not
/// overflow.
fn checked(n: Option<i64>, exact: Ghost<int>) -> (result: Result<Object, EvalError>)
    requires
        match n {
            Some(value) => value == exact@,
            None => exact@ < i64::MIN || exact@ > i64::MAX,
        },
    ensures
        outcome(result) == builtin::integer(exact@),
{
    match n {
        Some(value) => Ok(Object::Int(value)),
        None => Err(EvalError::Overflow),
    }
}

/// The values of a list of expressions, in order.
pub fn eval_expressions(
    items: &Vec<Expression>,
    env: &mut Environment,
    scope: usize,
    depth: usize,
) -> (result: Result<Vec<Object>, EvalError>)
    requires
        old(env).well_formed(),
    ensures
        final(env).well_formed(),
        same(
            (outcomes(result), final(env)@),
            semantics::eval_expressions(
                expressions_view(items@),
                0,
                Seq::empty(),
                old(env)@,
                scope as nat,
                depth as nat,
            ),
        ),
    decreases depth, 1nat, 0nat,
{
    let ghost list = expressions_view(items@);
    let mut values: Vec<Object> = Vec::new();
    let mut i: usize = 0;
    assert(objects_view(values@) =~= Seq::empty());
    while i < items.len()
        invariant
            i <= items.len(),
            env.well_formed(),
            list == expressions_view(items@),
            same(
                semantics::eval_expressions(
                    list,
                    0,
                    Seq::empty(),
                    old(env)@,
                    scope as nat,
                    depth as nat,
                ),
                semantics::eval_expressions(
                    list,
                    i as nat,
                    objects_view(values@),
                    env@,
                    scope as nat,
                    depth as nat,
                ),
            ),
        decreases items.len() - i,
    {
        let ghost done = objects_view(values@);
        proof {
            semantics::lemma_eval_expressions(
                list,
                i as nat,
                done,
                env@,
                scope as nat,
                depth as nat,
            );
            assert(list[i as int] == items[i as int]@);
        }
        let value = items[i].eval(env, scope, depth)?;
        values.push(value);
        assert(objects_view(values@) =~= done.push(value@));
        i += 1;
    }
    proof {
        semantics::lemma_eval_expressions(
            list,
            i as nat,
            objects_view(values@),
            env@,
            scope as nat,
            depth as nat,
        );
    }
    Ok(values)
}

/// The entries that the pairs of a hash literal give, each key and then
/// its value in order.
pub fn eval_pairs(
    pairs: &Vec<(Expression, Expression)>,
    env: &mut Environment,
    scope: usize,
    depth: usize,
) -> (result: Result<Vec<(HashMapKey, Object)>, EvalError>)
    requires
        old(env).well_formed(),
    ensures
        final(env).well_formed(),
        same(
            (entries_outcome(result), final(env)@),
            semantics::eval_pairs(
                pairs_view(pairs@),
                0,
                Seq::empty(),
                old(env)@,
                scope as nat,
                depth as nat,
            ),
        ),
        result matches Ok(entries) ==> distinct_keys(entries_view(entries@)),
    decreases depth, 1nat, 0nat,
{
    let ghost list = pairs_view(pairs@);
    let mut entries: Vec<(HashMapKey, Object)> = Vec::new();
    let mut i: usize = 0;
    assert(entries_view(entries@) =~= Seq::empty());
    while i < pairs.len()
        invariant
            i <= pairs.len(),
            env.well_formed(),
            list == pairs_view(pairs@),
            distinct_keys(entries_view(entries@)),
            same(
                semantics::eval_pairs(
                    list,
                    0,
                    Seq::empty(),
                    old(env)@,
                    scope as nat,
                    depth as nat,
                ),
                semantics::eval_pairs(
                    list,
                    i as nat,
                    entries_view(entries@),
                    env@,
                    scope as nat,
                    depth as nat,
                ),
            ),
        decreases pairs.len() - i,
    {
        proof {
            semantics::lemma_eval_pairs(
                list,
                i as nat,
                entries_view(entries@),
                env@,
                scope as nat,
                depth as nat,
            );
            assert(list[i as int] == (pairs[i as int].0@, pairs[i as int].1@));
        }
        let key_obj = pairs[i].0.eval(env, scope, depth)?;
        let value = pairs[i].1.eval(env, scope, depth)?;
        let key = match HashMapKey::of_object(&key_obj) {
            Some(key) => key,
            None => {
                return Err(EvalError::UnhashableKey);
            },
        };
        insert_entry(&mut entries, key, value);
        i += 1;
    }
    proof {
        semantics::lemma_eval_pairs(
            list,
            i as nat,
            entries_view(entries@),
            env@,
            scope as nat,
            depth as nat,
        );
    }
    Ok(entries)
}

/// The value of a block: that of the first statement that gives a return
/// marker, with the marker, else that of the last one; `null` for no
/// statement.
pub fn eval_block(
    statements: &Vec<Statement>,
    env: &mut Environment,
    scope: usize,
    depth: usize,
) -> (result: Result<Object, EvalError>)
    requires
        old(env).well_formed(),
    ensures
        final(env).well_formed(),
        same(
            (outcome(result), final(env)@),
            semantics::eval_block(
                statements_view(statements@),
                0,
                ObjectView::Null,
                old(env)@,
                scope as nat,
                depth as nat,
            ),
        ),
    decreases depth, 2nat, 0nat,
{
    let ghost list = statements_view(statements@);
    let mut result = Object::Null;
    let mut i: usize = 0;
    while i < statements.len()
        invariant
            i <= statements.len(),
            env.well_formed(),
            list == statements_view(statements@),
            same(
                semantics::eval_block(
                    list,
                    0,
                    ObjectView::Null,
                    old(env)@,
                    scope as nat,
                    depth as nat,
                ),
                semantics::eval_block(list, i as nat, result@, env@, scope as nat, depth as nat),
            ),
        decreases statements.len() - i,
    {
        proof {
            semantics::lemma_eval_block(list, i as nat, result@, env@, scope as nat, depth as nat);
            assert(list[i as int] == statements[i as int]@);
        }
        result = statements[i].eval(env, scope, depth)?;
        match result {
            Object::Return(_) => {
                return Ok(result);
            },
            _ => {},
        }
        i += 1;
    }
    proof {
        semantics::lemma_eval_block(list, i as nat, result@, env@, scope as nat, depth as nat);
    }
    Ok(result)
}

/// What can be evaluated: programs, statements and expressions.
pub trait Eval {
    /// What evaluating this gives in the scope `scope` of `env`, nesting no
    /// deeper than `depth` levels: the value or the error, and the
    /// environment after.
    spec fn meaning(&self, env: Seq<ScopeView>, scope: nat, depth: nat) -> semantics::Evaluated<
        ObjectView,
    >;

    /// Evaluates this in the scope `scope` of `env`, nesting no deeper than
    /// `depth` levels.
    fn eval(&self, env: &mut Environment, scope: usize, depth: usize) -> (result: Result<
        Object,
        EvalError,
    >)
        requires
            old(env).well_formed(),
        ensures
            final(env).well_formed(),
            same(
                (outcome(result), final(env)@),
                self.meaning(old(env)@, scope as nat, depth as nat),
            ),
    ;
}

impl Eval for Program {
    open spec fn meaning(&self, env: Seq<ScopeView>, scope: nat, depth: nat) -> semantics::Evaluated<
        ObjectView,
    > {
        semantics::eval_program(self@, env, scope, depth)
    }

    fn eval(&self, env: &mut Environment, scope: usize, depth: usize) -> (result: Result<
        Object,
        EvalError,
    >) {
        Program::eval(self, env, scope, depth)
    }
}

impl Eval for Statement {
    open spec fn meaning(&self, env: Seq<ScopeView>, scope: nat, depth: nat) -> semantics::Evaluated<
        ObjectView,
    > {
        semantics::eval_statement(self@, env, scope, depth)
    }

    fn eval(&self, env: &mut Environment, scope: usize, depth: usize) -> (result: Result<
        Object,
        EvalError,
    >) {
        Statement::eval(self, env, scope, depth)
    }
}

impl Eval for Expression {
    open spec fn meaning(&self, env: Seq<ScopeView>, scope: nat, depth: nat) -> semantics::Evaluated<
        ObjectView,
    > {
        semantics::eval_expression(self@, env, scope, depth)
    }

    fn eval(&self, env: &mut Environment, scope: usize, depth: usize) -> (result: Result<
        Object,
        EvalError,
    >) {
        Expression::eval(self, env, scope, depth)
    }
}

impl Program {
    /// The value of the program in the scope `scope`: that of its
    /// statements, without the return marker if there is one.
    pub fn eval(&self, env: &mut Environment, scope: usize, depth: usize) -> (result: Result<
        Object,
        EvalError,
    >)
        requires
            old(env).well_formed(),
        ensures
            final(env).well_formed(),
            same(
                (outcome(result), final(env)@),
                semantics::eval_program(self@, old(env)@, scope as nat, depth as nat),
            ),
    {
        let result = eval_block(&self.statements, env, scope, depth)?;
        Ok(result.unwrap_return())
    }
}

impl Statement {
    /// The value of the statement.
    pub fn eval(&self, env: &mut Environment, scope: usize, depth: usize) -> (result: Result<
        Object,
        EvalError,
    >)
        requires
            old(env).well_formed(),
        ensures
            final(env).well_formed(),
            same(
                (outcome(result), final(env)@),
                semantics::eval_statement(self@, old(env)@, scope as nat, depth as nat),
            ),
        decreases depth, 1nat, 0nat,
    {
        proof {
            semantics::lemma_eval_statement(self@, env@, scope as nat, depth as nat);
        }
        match self {
            Statement::Expr(expr) => expr.eval(env, scope, depth),
            Statement::Block(stmts) => {
                if depth == 0 {
                    return Err(EvalError::DepthExceeded);
                }
                eval_block(stmts, env, scope, depth - 1)
            },
            Statement::Let { name, value } => {
                let obj = value.eval(env, scope, depth)?;
                Ok(env.set(scope, name.clone(), obj))
            },
            Statement::Return { value } => {
                let obj = value.eval(env, scope, depth)?;
                Ok(Object::Return(Box::new(obj)))
            },
        }
    }
}

impl Expression {
    /// The value of the expression.
    pub fn eval(&self, env: &mut Environment, scope: usize, depth: usize) -> (result: Result<
        Object,
        EvalError,
    >)
        requires
            old(env).well_formed(),
        ensures
            final(env).well_formed(),
            same(
                (outcome(result), final(env)@),
                semantics::eval_expression(self@, old(env)@, scope as nat, depth as nat),
            ),
        decreases depth, 0nat, 0nat,
    {
        proof {
            semantics::lemma_eval_expression(self@, env@, scope as nat, depth as nat);
        }
        if depth == 0 {
            return Err(EvalError::DepthExceeded);
        }
        let deeper = depth - 1;
        match self {
            Expression::Bool(value) => Ok(Object::Bool(*value)),
            Expression::Int(value) => Ok(Object::Int(*value)),
            Expression::String(string) => Ok(Object::String(string.clone())),
            Expression::Ident(ident) => {
                if *ident == "null".to_owned() {
                    Ok(Object::Null)
                } else {
                    match BuiltinFunction::named(ident.as_str()) {
                        Some(builtin) => Ok(Object::Builtin(builtin)),
                        None => Ok(env.get(scope, ident.as_str())),
                    }
                }
            },
            Expression::Array(content) => {
                let values = eval_expressions(content, env, scope, deeper)?;
                Ok(Object::Array(values))
            },
            Expression::Hash(hash_vec) => {
                let entries = eval_pairs(hash_vec, env, scope, deeper)?;
                Ok(Object::Hash(HashObject::from_distinct(entries)))
            },
            Expression::Prefix { operator, right } => {
                let value = right.eval(env, scope, deeper)?;
                Expression::eval_prefix(*operator, value)
            },
            Expression::Infix { operator, left, right } => {
                let first = left.eval(env, scope, deeper)?;
                let second = right.eval(env, scope, deeper)?;
                Expression::eval_infix(*operator, first, second)
            },
            Expression::Cond { cond, then_, else_ } => {
                let evaluated_cond = cond.eval(env, scope, deeper)?.to_bool();
                if evaluated_cond {
                    eval_block(then_, env, scope, deeper)
                } else {
                    match else_ {
                        Some(stmts) => eval_block(stmts, env, scope, deeper),
                        None => Ok(Object::Null),
                    }
                }
            },
            Expression::Func { args, body } => {
                let environment = env.init_with_outer(scope);
                Ok(
                    Object::Function {
                        parameters: duplicate_names(args),
                        body: duplicate_statements(body),
                        environment,
                    },
                )
            },
            Expression::Call { func, args } => {
                let func_to_call = func.eval(env, scope, deeper)?;
                let arguments = eval_expressions(args, env, scope, deeper)?;
                match func_to_call {
                    Object::Function { parameters, body, environment } => {
                        let n_params = parameters.len();
                        let n_args = arguments.len();
                        assert(names_view(parameters@).len() == n_params);
                        assert(objects_view(arguments@).len() == n_args);
                        if n_params != n_args {
                            return Err(
                                EvalError::WrongArgumentCount { expected: n_params, found: n_args },
                            );
                        }
                        let ghost before = env@;
                        let ghost names = names_view(parameters@);
                        let ghost values = objects_view(arguments@);
                        let inner = env.init_with_outer(environment);
                        let mut i: usize = 0;
                        while i < n_params
                            invariant
                                i <= n_params,
                                n_params == parameters.len(),
                                n_params == arguments.len(),
                                names == names_view(parameters@),
                                values == objects_view(arguments@),
                                env.well_formed(),
                                env@ == bound_all(
                                    nested(before, environment as nat),
                                    inner as nat,
                                    names,
                                    values,
                                    i as nat,
                                ),
                            decreases n_params - i,
                        {
                            assert(names[i as int] == parameters[i as int]@);
                            assert(values[i as int] == arguments[i as int]@);
                            env.set(inner, parameters[i].clone(), arguments[i].duplicate());
                            i += 1;
                        }
                        let evaluated_func = eval_block(&body, env, inner, deeper)?;
                        Ok(evaluated_func.unwrap_return())
                    },
                    Object::Builtin(builtin_fn) => builtin_fn.call(arguments),
                    _ => Err(EvalError::NotCallable),
                }
            },
        }
    }

    /// `!x` or `-x`
    pub fn eval_prefix(operator: PrefixOperator, right: Object) -> (result: Result<
        Object,
        EvalError,
    >)
        ensures
            outcome(result) == semantics::eval_prefix(operator, right@),
    {
        match operator {
            PrefixOperator::Neg => Expression::eval_neg(right),
            PrefixOperator::Not => Ok(Object::Bool(!right.to_bool())),
        }
    }

    /// `-x`
    pub fn eval_neg(right: Object) -> (result: Result<Object, EvalError>)
        ensures
            outcome(result) == semantics::negated(right@),
        decreases right,
    {
        match right {
            Object::Int(value) => checked(0i64.checked_sub(value), Ghost(-value)),
            Object::Return(value) => Expression::eval_neg(*value),
            _ => Err(EvalError::NotNegatable),
        }
    }

    /// `a <operator> b` for two integers.
    fn eval_integers(operator: InfixOperator, l: i64, r: i64) -> (result: Result<
        Object,
        EvalError,
    >)
        ensures
            outcome(result) == semantics::eval_integers(operator, l, r),
    {
        match operator {
            InfixOperator::Add => checked(l.checked_add(r), Ghost(l + r)),
            InfixOperator::Sub => checked(l.checked_sub(r), Ghost(l - r)),
            InfixOperator::Mul => checked(l.checked_mul(r), Ghost(l * r)),
            InfixOperator::Div => {
                if r == 0 {
                    Err(EvalError::DivisionByZero)
                } else {
                    checked(l.checked_div(r), Ghost(semantics::quotient(l as int, r as int)))
                }
            },
            InfixOperator::Eq => Ok(Object::Bool(l == r)),
            InfixOperator::NotEq => Ok(Object::Bool(l != r)),
            InfixOperator::Gt => Ok(Object::Bool(l > r)),
            InfixOperator::Lt => Ok(Object::Bool(l < r)),
            InfixOperator::Index => Err(EvalError::InvalidOperation(operator)),
        }
    }

    /// `x <operator> y`, and `x[y]` for the operator `Index`.
    pub fn eval_infix(operator: InfixOperator, left: Object, right: Object) -> (result: Result<
        Object,
        EvalError,
    >)
        ensures
            outcome(result) == semantics::eval_infix(operator, left@, right@),
    {
        match (left, right) {
            (Object::Null, Object::Null) => Ok(Object::Null),
            (Object::Bool(l), Object::Bool(r)) => match operator {
                InfixOperator::Eq => Ok(Object::Bool(l == r)),
                InfixOperator::NotEq => Ok(Object::Bool(l != r)),
                _ => Err(EvalError::InvalidOperation(operator)),
            },
            (Object::Int(l), Object::Int(r)) => Expression::eval_integers(operator, l, r),
            (Object::String(l), Object::String(r)) => match operator {
                InfixOperator::Add => Ok(Object::String(l.concat(r.as_str()))),
                _ => Err(EvalError::InvalidOperation(operator)),
            },
            (Object::Array(content), Object::Int(index)) => match operator {
                InfixOperator::Index => {
                    assert(objects_view(content@).len() == content.len());
                    if index < 0 || index as u64 >= content.len() as u64 {
                        return Ok(Object::Null);
                    }
                    assert(objects_view(content@)[index as int] == content[index as int]@);
                    Ok(content[index as usize].duplicate())
                },
                _ => Err(EvalError::InvalidOperation(operator)),
            },
            (Object::Hash(hash), key_object) => match operator {
                InfixOperator::Index => {
                    let map = hash.entries();
                    let key = match HashMapKey::of_object(&key_object) {
                        Some(key) => key,
                        None => {
                            return Err(EvalError::UnhashableKey);
                        },
                    };
                    match find_key(map, &key) {
                        Some(i) => {
                            assert(entries_view(map@)[i as int].1 == map[i as int].1@);
                            Ok(map[i].1.duplicate())
                        },
                        None => Ok(Object::Null),
                    }
                },
                _ => Err(EvalError::InvalidOperation(operator)),
            },
            _ => Err(EvalError::InvalidOperation(operator)),
        }
    }
}

/// The value of a source text in the outermost scope of `env`, with the
/// nesting limited to `depth` levels. A caller that runs on a large stack
/// may give a greater depth than `MAX_DEPTH`.
pub fn eval_with_limit(input: &str, env: &mut Environment, depth: usize) -> (result: Result<
    Object,
    Error,
>)
    requires
        old(env).well_formed(),
    ensures
        final(env).well_formed(),
        same(
            (final_outcome(result), final(env)@),
            semantics::eval_source(input@, old(env)@, depth as nat),
        ),
{
    let program = match Parser::init(input).parse_program() {
        Ok(program) => program,
        Err(e) => {
            return Err(Error::Parse(e));
        },
    };
    match program.eval(env, 0, depth) {
        Ok(object) => Ok(object),
        Err(e) => Err(Error::Eval(e)),
    }
}

/// The value of a source text in the outermost scope of `env`.
pub fn eval_with_env(input: &str, env: &mut Environment) -> (result: Result<Object, Error>)
    requires
        old(env).well_formed(),
    ensures
        final(env).well_formed(),
        same(
            (final_outcome(result), final(env)@),
            semantics::eval_source(input@, old(env)@, MAX_DEPTH as nat),
        ),
{
    eval_with_limit(input, env, MAX_DEPTH)
}

} // verus!
