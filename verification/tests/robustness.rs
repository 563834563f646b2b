use waiir::eval::{eval_with_env, eval_with_limit, Environment, Error, EvalError, Object, MAX_DEPTH};

#[test]
fn endless_recursion_ends_with_an_error() {
    let mut env = Environment::default();
    let result = eval_with_env("let f = fn(x) { f(x + 1) }; f(0)", &mut env);
    assert_eq!(result, Err(Error::Eval(EvalError::DepthExceeded)));
}

#[test]
fn recursion_within_the_limit_succeeds() {
    let mut env = Environment::default();
    let result = eval_with_env(
        "let count = fn(n) { if (n == 0) { 0 } else { 1 + count(n - 1) } }; count(100)",
        &mut env,
    );
    assert_eq!(result, Ok(Object::Int(100)));
}

#[test]
fn depth_limit_counts_nesting() {
    let mut env = Environment::default();
    assert_eq!(eval_with_limit("1", &mut env, 0), Err(Error::Eval(EvalError::DepthExceeded)));
    assert_eq!(eval_with_limit("1", &mut env, 1), Ok(Object::Int(1)));
    assert_eq!(eval_with_limit("-1", &mut env, 1), Err(Error::Eval(EvalError::DepthExceeded)));
    assert_eq!(eval_with_limit("-1", &mut env, 2), Ok(Object::Int(-1)));
    assert_eq!(eval_with_limit("", &mut env, 0), Ok(Object::Null));
    assert!(MAX_DEPTH >= 100);
}

#[test]
fn nesting_within_the_limit_parses() {
    let mut env = Environment::default();
    let source = format!("{}1{}", "(".repeat(150), ")".repeat(150));
    assert_eq!(eval_with_env(&source, &mut env), Ok(Object::Int(1)));
    let source = format!("{}1{}", "-(".repeat(90), ")".repeat(90));
    assert_eq!(eval_with_env(&source, &mut env), Ok(Object::Int(1)));
}

#[test]
fn nesting_beyond_the_limit_is_a_syntax_error() {
    let mut env = Environment::default();
    let source = format!("{}1{}", "(".repeat(300), ")".repeat(300));
    match eval_with_env(&source, &mut env) {
        Err(Error::Parse(e)) => assert_eq!(e.expected, waiir::parser::Expectation::ShallowerNesting),
        other => panic!("unexpected result {:?}", other),
    }
    let source = "[".repeat(100_000);
    match eval_with_env(&source, &mut env) {
        Err(Error::Parse(e)) => assert_eq!(e.expected, waiir::parser::Expectation::ShallowerNesting),
        other => panic!("unexpected result {:?}", other),
    }
    let source = format!("{}x", "if (true) { ".repeat(5_000));
    match eval_with_env(&source, &mut env) {
        Err(Error::Parse(e)) => assert_eq!(e.expected, waiir::parser::Expectation::ShallowerNesting),
        other => panic!("unexpected result {:?}", other),
    }
}

#[test]
fn long_flat_programs_are_fine() {
    let mut env = Environment::default();
    let source = format!("0{}", " + 1".repeat(200));
    assert_eq!(eval_with_env(&source, &mut env), Ok(Object::Int(200)));
    let source = format!("[{}][9999]", "7, ".repeat(10_000));
    assert_eq!(eval_with_env(&source, &mut env), Ok(Object::Int(7)));
    let source = "let a = 1; ".repeat(5_000);
    assert_eq!(eval_with_env(&source, &mut env), Ok(Object::Int(1)));
}

#[test]
fn trees_beyond_the_height_limit_are_a_syntax_error() {
    let mut env = Environment::default();
    let source = format!("0{}", " + 1".repeat(100_000));
    match eval_with_env(&source, &mut env) {
        Err(Error::Parse(e)) => assert_eq!(e.expected, waiir::parser::Expectation::LowerTree),
        other => panic!("unexpected result {:?}", other),
    }
    let source = format!("f{}", "(1)".repeat(100_000));
    match eval_with_env(&source, &mut env) {
        Err(Error::Parse(e)) => assert_eq!(e.expected, waiir::parser::Expectation::LowerTree),
        other => panic!("unexpected result {:?}", other),
    }
    let source = format!("{}1", "-".repeat(249));
    assert!(eval_with_env(&source, &mut env).is_err());
}

#[test]
fn more_depth_changes_nothing_but_the_end() {
    let source = "let fib = fn(n) { if (n < 2) { n } else { fib(n - 1) + fib(n - 2) } }; fib(10)";
    let mut shallow = Environment::default();
    let mut deep = Environment::default();
    let one = eval_with_limit(source, &mut shallow, 60);
    let other = eval_with_limit(source, &mut deep, 6000);
    assert_eq!(one, Ok(Object::Int(55)));
    assert_eq!(one, other);
    assert_eq!(shallow.scope_count(), deep.scope_count());
    let mut short = Environment::default();
    assert_eq!(
        eval_with_limit(source, &mut short, 20),
        Err(Error::Eval(EvalError::DepthExceeded))
    );
}
