//! Laws of the language: what holds of every value and every program.

use vstd::prelude::*;
use crate::ast::{InfixOperator, PrefixOperator, StatementView};
use crate::eval::builtin::{BuiltinFunction, call_builtin, integer};
use crate::eval::environment::ScopeView;
use crate::eval::error::EvalError;
use crate::eval::object::{ObjectView, truthy};
use crate::eval::depth::lemma_program_deeper;
use crate::eval::error::ErrorView;
use crate::eval::assoc::lookup;
use crate::eval::environment::resolve;
use crate::eval::frame::{extends, lemma_program_extends, statements_names};
use crate::eval::runs::{block_runs, lemma_program_binds_what_it_runs};
use crate::eval::semantics::{
    eval_block, eval_infix, eval_prefix, eval_program, eval_source, quotient,
};
use crate::eval::{Error, Object, final_outcome};
use crate::ast::Program;
use crate::lexer::TokenView;
use crate::parser::grammar::{
    MAX_NESTING, lemma_parse_expression, lemma_parse_expression_statement, lemma_parse_prefix,
    lemma_parse_statement, lemma_parse_statements, parse_source, parse_statements, token,
};
use crate::parser::precedence::Precedence;
use crate::parser::{Expectation, ParseErrorView};
use crate::parser::{ParseError, viewed};

verus! {

/// Parsing is a function of the source text: what two runs on one text
/// gave is the same program, or the same error.
pub proof fn lemma_parsing_is_deterministic(
    source: Seq<char>,
    one: Result<Program, ParseError>,
    other: Result<Program, ParseError>,
)
    requires
        viewed(one) == parse_source(source),
        viewed(other) == parse_source(source),
    ensures
        viewed(one) == viewed(other),
{
}

/// A `}` starts no statement: where the statements of a program are to
/// begin with one, parsing fails on it.
pub proof fn lemma_closing_brace_starts_no_statement(ts: Seq<TokenView>, pos: int)
    requires
        token(ts, pos) is RBrace,
    ensures
        parse_statements(ts, pos) == Err::<Seq<StatementView>, ParseErrorView>(
            ParseErrorView { expected: Expectation::Expression, found: TokenView::RBrace },
        ),
{
    let depth = MAX_NESTING as nat;
    lemma_parse_statements(ts, pos);
    lemma_parse_statement(ts, pos, depth);
    lemma_parse_expression_statement(ts, pos, depth);
    lemma_parse_expression(ts, pos, Precedence::Lowest, depth);
    lemma_parse_prefix(ts, pos, (depth - 1) as nat);
}

/// Evaluation is a function of the source text, the environment and the
/// depth: what two runs on the same ones gave is the same value or the
/// same error, and they left the same environment.
pub proof fn lemma_evaluation_is_deterministic(
    source: Seq<char>,
    env: Seq<ScopeView>,
    depth: nat,
    one: (Result<Object, Error>, Seq<ScopeView>),
    other: (Result<Object, Error>, Seq<ScopeView>),
)
    requires
        (final_outcome(one.0), one.1) == eval_source(source, env, depth),
        (final_outcome(other.0), other.1) == eval_source(source, env, depth),
    ensures
        final_outcome(one.0) == final_outcome(other.0),
        one.1 == other.1,
{
}

/// The evaluation of a source text changes the environment no further
/// than this: it adds scopes, and in the outermost scope it binds names
/// that the `let` statements of the program name. Every other scope that
/// was there is as it was, and so is every other name of the outermost
/// scope. A text that does not parse changes nothing.
pub proof fn lemma_evaluation_binds_only_let_names(
    source: Seq<char>,
    env: Seq<ScopeView>,
    depth: nat,
)
    requires
        env.len() > 0,
    ensures
        match parse_source(source) {
            Ok(program) => extends(
                env,
                eval_source(source, env, depth).1,
                0,
                statements_names(program, 0),
            ),
            Err(_) => eval_source(source, env, depth).1 == env,
        },
{
    match parse_source(source) {
        Ok(program) => {
            lemma_program_extends(program, env, 0, depth);
        },
        Err(_) => {},
    }
}

/// The depth limit only ever ends an evaluation: where the evaluation of
/// a source text did not run out of depth, it gives the same value or
/// error, and leaves the same environment, with any greater depth.
pub proof fn lemma_depth_only_ends_evaluations(
    source: Seq<char>,
    env: Seq<ScopeView>,
    depth: nat,
    more: nat,
)
    requires
        depth <= more,
        eval_source(source, env, depth).0 != Err::<ObjectView, ErrorView>(
            ErrorView::Eval(EvalError::DepthExceeded),
        ),
    ensures
        eval_source(source, env, more) == eval_source(source, env, depth),
{
    match parse_source(source) {
        Ok(program) => {
            lemma_program_deeper(program, env, 0, depth, more);
        },
        Err(_) => {},
    }
}

/// Only the `let` statements that an evaluation runs in the outermost
/// scope change what a name means there: a name that none of them binds
/// has, seen from the outermost scope, the value it had before, whether
/// the evaluation ends with a value or with an error. A `let` that is
/// never reached, the parameters of a function and the `let` statements
/// in its body bind no name there.
pub proof fn lemma_evaluation_binds_only_lets_that_run(
    source: Seq<char>,
    env: Seq<ScopeView>,
    depth: nat,
    name: Seq<char>,
)
    requires
        env.len() > 0,
        parse_source(source) matches Ok(program) ==> !block_runs(program, 0, env, 0, depth).contains(
            name,
        ),
    ensures
        resolve(eval_source(source, env, depth).1, 0, name) == resolve(env, 0, name),
        parse_source(source) matches Ok(program) ==> extends(
            env,
            eval_source(source, env, depth).1,
            0,
            block_runs(program, 0, env, 0, depth),
        ),
{
    match parse_source(source) {
        Ok(program) => {
            lemma_program_binds_what_it_runs(program, env, 0, depth);
            let after = eval_source(source, env, depth).1;
            assert(lookup(after[0].bindings, name) == lookup(env[0].bindings, name));
        },
        Err(_) => {},
    }
}

/// A program's value carries no return marker, unless one of its
/// statements gave a marker around a marker: the marker is taken off
/// once.
pub proof fn lemma_return_is_unwrapped(
    program: Seq<StatementView>,
    env: Seq<ScopeView>,
    scope: nat,
    depth: nat,
)
    requires
        !(eval_block(program, 0, ObjectView::Null, env, scope, depth).0 matches Ok(
            ObjectView::Return(inner),
        ) && *inner is Return),
    ensures
        !(eval_program(program, env, scope, depth).0 matches Ok(value) && value is Return),
{
}

/// A program's value is a return marker exactly where its statements gave
/// a marker around a marker.
pub proof fn lemma_marker_is_left_only_of_two(
    program: Seq<StatementView>,
    env: Seq<ScopeView>,
    scope: nat,
    depth: nat,
)
    ensures
        (eval_program(program, env, scope, depth).0 matches Ok(value) && value is Return) <==> (
        eval_block(program, 0, ObjectView::Null, env, scope, depth).0 matches Ok(
            ObjectView::Return(inner),
        ) && *inner is Return),
{
}

/// But for return markers, the values that count as false are `null`,
/// `false`, `0`, the empty string, the empty array and the empty hash.
pub proof fn lemma_truthiness(value: ObjectView)
    requires
        value !is Return,
    ensures
        !truthy(value) <==> {
            ||| value is Null
            ||| value == ObjectView::Bool(false)
            ||| value == ObjectView::Int(0)
            ||| value == ObjectView::String(Seq::empty())
            ||| value == ObjectView::Array(Seq::empty())
            ||| value == ObjectView::Hash(Seq::empty())
        },
{
    match value {
        ObjectView::String(text) => {
            if text.len() == 0 {
                assert(text =~= Seq::empty());
            }
        },
        ObjectView::Array(items) => {
            if items.len() == 0 {
                assert(items =~= Seq::empty());
            }
        },
        ObjectView::Hash(entries) => {
            if entries.len() == 0 {
                assert(entries =~= Seq::empty());
            }
        },
        _ => {},
    }
}

/// A return marker counts as what it holds.
pub proof fn lemma_truthiness_of_marker(value: ObjectView)
    ensures
        truthy(ObjectView::Return(Box::new(value))) == truthy(value),
{
}

/// `a + b`, `a - b` and `a * b` are the exact sum, difference and product
/// where these fit in 64 bits signed, and fail with `Overflow` where they
/// do not.
pub proof fn lemma_arithmetic_is_exact(a: i64, b: i64)
    ensures
        eval_infix(InfixOperator::Add, ObjectView::Int(a), ObjectView::Int(b)) == integer(a + b),
        eval_infix(InfixOperator::Sub, ObjectView::Int(a), ObjectView::Int(b)) == integer(a - b),
        eval_infix(InfixOperator::Mul, ObjectView::Int(a), ObjectView::Int(b)) == integer(a * b),
        forall|n: int| i64::MIN <= n <= i64::MAX ==> #[trigger] integer(n) == Ok::<
            ObjectView,
            EvalError,
        >(ObjectView::Int(n as i64)),
        forall|n: int| n < i64::MIN || n > i64::MAX ==> #[trigger] integer(n) == Err::<
            ObjectView,
            EvalError,
        >(EvalError::Overflow),
{
}

/// `a / b` rounds toward zero: the quotient times `b` is no further from
/// zero than `a`, and what is left over is smaller than `b`. It fails with
/// `DivisionByZero` for `b == 0`, and with `Overflow` only where the
/// quotient does not fit in 64 bits signed.
pub proof fn lemma_division_truncates(a: i64, b: i64)
    ensures
        b == 0 ==> eval_infix(InfixOperator::Div, ObjectView::Int(a), ObjectView::Int(b)) == Err::<
            ObjectView,
            EvalError,
        >(EvalError::DivisionByZero),
        b != 0 ==> eval_infix(InfixOperator::Div, ObjectView::Int(a), ObjectView::Int(b))
            == integer(quotient(a as int, b as int)),
        b != 0 ==> {
            let q = quotient(a as int, b as int);
            let r = a - q * b;
            &&& (a >= 0 ==> 0 <= r)
            &&& (a <= 0 ==> r <= 0)
            &&& (b > 0 ==> -b < r < b)
            &&& (b < 0 ==> b < r < -b)
        },
        b != 0 && !(a == i64::MIN && b == -1) ==> i64::MIN <= quotient(a as int, b as int)
            <= i64::MAX,
{
    if b != 0 {
        let x = a as int;
        let d = b as int;
        lemma_quotient_bounds(x, d);
    }
}

/// What is left over by a division that rounds toward zero has the sign of
/// the dividend and is smaller than the divisor; the quotient is no
/// further from zero than the dividend.
pub proof fn lemma_quotient_bounds(a: int, b: int)
    requires
        b != 0,
    ensures
        ({
            let q = quotient(a, b);
            let r = a - q * b;
            &&& (a >= 0 ==> 0 <= r)
            &&& (a <= 0 ==> r <= 0)
            &&& (b > 0 ==> -b < r < b)
            &&& (b < 0 ==> b < r < -b)
            &&& (a >= 0 ==> -a <= q <= a)
            &&& (a <= 0 ==> a <= q <= -a)
        }),
{
    let q = quotient(a, b);
    if a >= 0 && b > 0 {
        lemma_euclid(a, b);
    } else if a < 0 && b < 0 {
        lemma_euclid(-a, -b);
        assert(q == (-a) / (-b));
        assert(q * b == -(((-a) / (-b)) * (-b))) by (nonlinear_arith)
            requires
                q == (-a) / (-b),
        ;
    } else if a < 0 {
        lemma_euclid(-a, b);
        assert(q == -((-a) / b));
        assert(q * b == -(((-a) / b) * b)) by (nonlinear_arith)
            requires
                q == -((-a) / b),
        ;
    } else {
        lemma_euclid(a, -b);
        assert(q == -(a / (-b)));
        assert(q * b == (a / (-b)) * (-b)) by (nonlinear_arith)
            requires
                q == -(a / (-b)),
        ;
    }
}

/// Division of a natural number by a positive one.
proof fn lemma_euclid(a: int, b: int)
    requires
        a >= 0,
        b > 0,
    ensures
        0 <= a - (a / b) * b < b,
        0 <= a / b <= a,
{
    assert(0 <= a - (a / b) * b < b && 0 <= a / b <= a) by (nonlinear_arith)
        requires
            a >= 0,
            b > 0,
    ;
}

/// `a == b` holds of every integer and itself, and of `a` and `b` exactly
/// where it holds of `b` and `a`.
pub proof fn lemma_equality_is_reflexive_and_symmetric(a: i64, b: i64)
    ensures
        eval_infix(InfixOperator::Eq, ObjectView::Int(a), ObjectView::Int(a)) == Ok::<
            ObjectView,
            EvalError,
        >(ObjectView::Bool(true)),
        eval_infix(InfixOperator::Eq, ObjectView::Int(a), ObjectView::Int(b)) == eval_infix(
            InfixOperator::Eq,
            ObjectView::Int(b),
            ObjectView::Int(a),
        ),
{
}

/// `push` on an array succeeds whatever array and value it is given, and
/// gives an array that is one item longer. `len` of it is that length as
/// an integer, and `Overflow` only for a length beyond 64 bits signed.
pub proof fn lemma_push_makes_one_longer(items: Seq<ObjectView>, x: ObjectView)
    ensures
        call_builtin(BuiltinFunction::Push, seq![ObjectView::Array(items), x]) == Ok::<
            ObjectView,
            EvalError,
        >(ObjectView::Array(items.push(x))),
        items.push(x).len() == items.len() + 1,
        call_builtin(BuiltinFunction::Len, seq![ObjectView::Array(items.push(x))]) == integer(
            items.len() as int + 1,
        ),
        call_builtin(BuiltinFunction::Len, seq![ObjectView::Array(items)]) == integer(
            items.len() as int,
        ),
{
}

/// `len(push(arr, x)) == len(arr) + 1` for an array whose length plus one
/// fits in 64 bits signed.
pub proof fn lemma_push_adds_one(items: Seq<ObjectView>, x: ObjectView)
    requires
        items.len() < i64::MAX,
    ensures
        call_builtin(BuiltinFunction::Push, seq![ObjectView::Array(items), x]) matches Ok(pushed)
            && call_builtin(BuiltinFunction::Len, seq![pushed]) == Ok::<ObjectView, EvalError>(
            ObjectView::Int((items.len() + 1) as i64),
        ),
        call_builtin(BuiltinFunction::Len, seq![ObjectView::Array(items)]) == Ok::<
            ObjectView,
            EvalError,
        >(ObjectView::Int(items.len() as i64)),
{
}

/// `first` of an array that starts with `x` is `x`, and `rest` of it is
/// the array of what follows `x`.
pub proof fn lemma_first_and_rest(x: ObjectView, items: Seq<ObjectView>)
    ensures
        call_builtin(BuiltinFunction::First, seq![ObjectView::Array(seq![x] + items)]) == Ok::<
            ObjectView,
            EvalError,
        >(x),
        call_builtin(BuiltinFunction::Rest, seq![ObjectView::Array(seq![x] + items)]) == Ok::<
            ObjectView,
            EvalError,
        >(ObjectView::Array(items)),
{
    let whole = seq![x] + items;
    assert(whole.subrange(1, whole.len() as int) =~= items);
}

/// An array that `push` built from the empty one has the pushed values as
/// its items, in order: `first` of it is the value pushed first.
pub proof fn lemma_first_of_pushed(x: ObjectView, y: ObjectView)
    ensures
        call_builtin(BuiltinFunction::Push, seq![ObjectView::Array(Seq::empty()), x]) == Ok::<
            ObjectView,
            EvalError,
        >(ObjectView::Array(seq![x])),
        call_builtin(BuiltinFunction::Push, seq![ObjectView::Array(seq![x]), y]) == Ok::<
            ObjectView,
            EvalError,
        >(ObjectView::Array(seq![x, y])),
        call_builtin(BuiltinFunction::First, seq![ObjectView::Array(seq![x, y])]) == Ok::<
            ObjectView,
            EvalError,
        >(x),
        call_builtin(BuiltinFunction::Rest, seq![ObjectView::Array(seq![x, y])]) == Ok::<
            ObjectView,
            EvalError,
        >(ObjectView::Array(seq![y])),
{
    assert(Seq::<ObjectView>::empty().push(x) =~= seq![x]);
    assert(seq![x].push(y) =~= seq![x, y]);
    assert(seq![x, y].subrange(1, 2) =~= seq![y]);
}

/// `!!x` is `true` exactly where `x` counts as true.
pub proof fn lemma_double_negation(value: ObjectView)
    ensures
        eval_prefix(PrefixOperator::Not, value) matches Ok(once) && eval_prefix(
            PrefixOperator::Not,
            once,
        ) == Ok::<ObjectView, EvalError>(ObjectView::Bool(truthy(value))),
{
}

} // verus!
