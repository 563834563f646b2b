use waiir::eval::{
    eval_with_env, eval_with_limit, BuiltinFunction, Environment, Error, Eval, EvalError,
    HashMapKey, HashObject, Object,
};
use waiir::parser::parse;
use waiir::{Expression, InfixOperator, PrefixOperator, Statement};
use waiir::eval::{eval_block, eval_expressions, eval_pairs};
use waiir::eval::builtin::{find_key, insert_entry};

fn value_of(input: &str) -> Object {
    let mut env = Environment::default();
    eval_with_env(input, &mut env).unwrap()
}

fn failure_of(input: &str) -> EvalError {
    let mut env = Environment::default();
    match eval_with_env(input, &mut env) {
        Err(Error::Eval(e)) => e,
        other => panic!("unexpected result {:?}", other),
    }
}

fn text(s: &str) -> Object {
    Object::String(String::from(s))
}

fn ints(values: &[i64]) -> Object {
    Object::Array(values.iter().map(|v| Object::Int(*v)).collect())
}

#[test]
fn arithmetic_with_precedence_and_groups() {
    assert_eq!(value_of("(5 + 10 * 2 + 15 / 3) * 2 + -10"), Object::Int(50));
}

#[test]
fn else_branch_is_taken() {
    assert_eq!(value_of("if (1 > 2) { 10 } else { 20 }"), Object::Int(20));
}

#[test]
fn return_leaves_nested_blocks() {
    assert_eq!(
        value_of("if (10 > 1) { if (10 > 1) { return 10; } return 1; }"),
        Object::Int(10)
    );
}

#[test]
fn functions_that_make_functions() {
    assert_eq!(
        value_of(
            "let newAdder = fn(x) { fn(y) { x + y }; }; let addTwo = newAdder(2); addTwo(2)"
        ),
        Object::Int(4)
    );
}

#[test]
fn map_over_an_array() {
    assert_eq!(
        value_of(
            "let map = fn(arr, f) { let iter = fn(a, acc) { if (len(a) == 0) { acc } else { iter(rest(a), push(acc, f(first(a)))) } }; iter(arr, []) }; map([1,2,3,4], fn(x){x*2})"
        ),
        ints(&[2, 4, 6, 8])
    );
}

#[test]
fn hash_with_keys_of_every_kind() {
    let hash = "{\"one\": 10-9, \"two\": 1+1, 4: 4, true: 5, false: 6}";
    assert_eq!(value_of(&format!("{}[\"two\"]", hash)), Object::Int(2));
    assert_eq!(value_of(&format!("{}[4]", hash)), Object::Int(4));
    assert_eq!(value_of(&format!("{}[\"three\"]", hash)), Object::Null);
    assert_eq!(value_of(&format!("{}[5]", hash)), Object::Null);
    assert_eq!(value_of(&format!("{}[true]", hash)), Object::Int(5));
}

#[test]
fn empty_program_is_null() {
    assert_eq!(value_of(""), Object::Null);
    assert_eq!(value_of("null"), Object::Null);
}

#[test]
fn missing_names_are_null() {
    assert_eq!(value_of("nothing"), Object::Null);
    assert_eq!(value_of("let f = fn() { hidden }; let g = fn() { let hidden = 1; f() }; g()"), Object::Null);
}

#[test]
fn builtin_names_come_before_bindings() {
    assert_eq!(value_of("len"), Object::Builtin(BuiltinFunction::Len));
    assert_eq!(value_of("let len = 5; len"), Object::Builtin(BuiltinFunction::Len));
    assert_eq!(value_of("let null = 5; null"), Object::Null);
}

#[test]
fn let_gives_the_bound_value() {
    assert_eq!(value_of("let a = 5"), Object::Int(5));
    assert_eq!(value_of("let a = 5; let a = a + 1; a"), Object::Int(6));
}

#[test]
fn integers_add_subtract_multiply_and_divide() {
    assert_eq!(value_of("7 + 8"), Object::Int(15));
    assert_eq!(value_of("7 - 8"), Object::Int(-1));
    assert_eq!(value_of("7 * 8"), Object::Int(56));
    assert_eq!(value_of("9223372036854775807 + 0"), Object::Int(i64::MAX));
    assert_eq!(value_of("-9223372036854775807 - 1"), Object::Int(i64::MIN));
}

#[test]
fn division_rounds_toward_zero() {
    assert_eq!(value_of("7 / 2"), Object::Int(3));
    assert_eq!(value_of("-7 / 2"), Object::Int(-3));
    assert_eq!(value_of("7 / -2"), Object::Int(-3));
    assert_eq!(value_of("-7 / -2"), Object::Int(3));
    assert_eq!(value_of("0 / -5"), Object::Int(0));
    assert_eq!(value_of("6 / 3"), Object::Int(2));
    assert_eq!(value_of("(-9223372036854775807 - 1) / 1"), Object::Int(i64::MIN));
}

#[test]
fn arithmetic_that_does_not_fit_fails() {
    assert_eq!(failure_of("9223372036854775807 + 1"), EvalError::Overflow);
    assert_eq!(failure_of("-9223372036854775807 - 2"), EvalError::Overflow);
    assert_eq!(failure_of("4611686018427387904 * 2"), EvalError::Overflow);
    assert_eq!(failure_of("(-9223372036854775807 - 1) / -1"), EvalError::Overflow);
    assert_eq!(failure_of("-(-9223372036854775807 - 1)"), EvalError::Overflow);
}

#[test]
fn division_by_zero_fails() {
    assert_eq!(failure_of("1 / 0"), EvalError::DivisionByZero);
    assert_eq!(failure_of("0 / 0"), EvalError::DivisionByZero);
}

#[test]
fn comparisons() {
    assert_eq!(value_of("3 == 3"), Object::Bool(true));
    assert_eq!(value_of("3 != 3"), Object::Bool(false));
    assert_eq!(value_of("-3 < 3"), Object::Bool(true));
    assert_eq!(value_of("-3 > 3"), Object::Bool(false));
    assert_eq!(value_of("true != false"), Object::Bool(true));
    assert_eq!(value_of("null == null"), Object::Null);
    assert_eq!(value_of("null + null"), Object::Null);
}

#[test]
fn operators_on_other_values_fail() {
    assert_eq!(failure_of("1 + true"), EvalError::InvalidOperation(InfixOperator::Add));
    assert_eq!(failure_of("true + false"), EvalError::InvalidOperation(InfixOperator::Add));
    assert_eq!(failure_of("true < false"), EvalError::InvalidOperation(InfixOperator::Lt));
    assert_eq!(failure_of("\"a\" == \"a\""), EvalError::InvalidOperation(InfixOperator::Eq));
    assert_eq!(failure_of("\"a\" - \"a\""), EvalError::InvalidOperation(InfixOperator::Sub));
    assert_eq!(failure_of("[1] + [2]"), EvalError::InvalidOperation(InfixOperator::Add));
    assert_eq!(failure_of("1[0]"), EvalError::InvalidOperation(InfixOperator::Index));
    assert_eq!(failure_of("[1][true]"), EvalError::InvalidOperation(InfixOperator::Index));
    assert_eq!(failure_of("\"abc\"[0]"), EvalError::InvalidOperation(InfixOperator::Index));
    assert_eq!(failure_of("null == 1"), EvalError::InvalidOperation(InfixOperator::Eq));
    assert_eq!(failure_of("{1: 2} + 1"), EvalError::InvalidOperation(InfixOperator::Add));
}

#[test]
fn negation() {
    assert_eq!(value_of("-5"), Object::Int(-5));
    assert_eq!(value_of("--5"), Object::Int(5));
    assert_eq!(value_of("-if (true) { return 5; }"), Object::Int(-5));
    assert_eq!(failure_of("-true"), EvalError::NotNegatable);
    assert_eq!(failure_of("-\"a\""), EvalError::NotNegatable);
    assert_eq!(failure_of("-null"), EvalError::NotNegatable);
}

#[test]
fn truthiness() {
    for falsy in ["null", "false", "0", "\"\"", "[]", "{}", "if (true) { return 0; }"] {
        assert_eq!(value_of(&format!("!{}", falsy)), Object::Bool(true), "{}", falsy);
        assert_eq!(value_of(&format!("!!{}", falsy)), Object::Bool(false), "{}", falsy);
        assert_eq!(value_of(&format!("if ({}) {{ 1 }} else {{ 2 }}", falsy)), Object::Int(2));
    }
    for truthy in ["true", "1", "-1", "\"a\"", "\" \"", "[0]", "{0: 0}", "fn() {}", "len"] {
        assert_eq!(value_of(&format!("!{}", truthy)), Object::Bool(false), "{}", truthy);
        assert_eq!(value_of(&format!("!!{}", truthy)), Object::Bool(true), "{}", truthy);
        assert_eq!(value_of(&format!("if ({}) {{ 1 }} else {{ 2 }}", truthy)), Object::Int(1));
    }
    assert!(!Object::Return(Box::new(Object::Null)).to_bool());
    assert!(Object::Return(Box::new(Object::Int(3))).to_bool());
}

#[test]
fn strings_concatenate() {
    assert_eq!(value_of("\"\" + \"\""), text(""));
    assert_eq!(value_of("\"ab\" + \"cd\""), text("abcd"));
}

#[test]
fn arrays_evaluate_in_order() {
    assert_eq!(value_of("[]"), ints(&[]));
    assert_eq!(value_of("let a = 1; [a, if (true) { let a = 2; a }, a]"), ints(&[1, 2, 2]));
    assert_eq!(failure_of("[1, 1 / 0, -true]"), EvalError::DivisionByZero);
}

#[test]
fn arrays_are_indexed_from_zero() {
    assert_eq!(value_of("[1, 2, 3][0]"), Object::Int(1));
    assert_eq!(value_of("[1, 2, 3][2]"), Object::Int(3));
    assert_eq!(value_of("[1, 2, 3][3]"), Object::Null);
    assert_eq!(value_of("[1, 2, 3][-1]"), Object::Null);
    assert_eq!(value_of("[][0]"), Object::Null);
    assert_eq!(value_of("[[1, 2], [3]][1][0]"), Object::Int(3));
}

#[test]
fn hash_literals_keep_the_order_of_first_insertion() {
    assert_eq!(
        value_of("{1: 1, \"a\": 2, 1: 3, true: 4, \"a\": 5}"),
        Object::Hash(HashObject::from_pairs(vec![
            (HashMapKey::Int(1), Object::Int(3)),
            (HashMapKey::String(String::from("a")), Object::Int(5)),
            (HashMapKey::Bool(true), Object::Int(4)),
        ]))
    );
    assert_eq!(value_of("{1: 1, 1: 2}[1]"), Object::Int(2));
    assert_eq!(value_of("len({1: 1, 1: 2})"), Object::Int(1));
}

#[test]
fn hash_keys_must_be_scalars() {
    assert_eq!(failure_of("{[1]: 2}"), EvalError::UnhashableKey);
    assert_eq!(failure_of("{null: 2}"), EvalError::UnhashableKey);
    assert_eq!(failure_of("{fn() {}: 2}"), EvalError::UnhashableKey);
    assert_eq!(failure_of("{1: 2}[[1]]"), EvalError::UnhashableKey);
    assert_eq!(failure_of("{1: 2}[null]"), EvalError::UnhashableKey);
    assert_eq!(failure_of("{[1]: 1 / 0}"), EvalError::DivisionByZero);
}

#[test]
fn hash_keys_of_different_kinds_differ() {
    assert_eq!(value_of("{1: \"int\", \"1\": \"str\", true: \"bool\"}[\"1\"]"), text("str"));
    assert_eq!(value_of("{1: \"int\", \"1\": \"str\", true: \"bool\"}[1]"), text("int"));
    assert_eq!(value_of("{0: \"int\", false: \"bool\"}[false]"), text("bool"));
}

#[test]
fn conditionals() {
    assert_eq!(value_of("if (false) { 1 }"), Object::Null);
    assert_eq!(value_of("if (true) { }"), Object::Null);
    assert_eq!(value_of("if (true) { 1; 2 }"), Object::Int(2));
    assert_eq!(value_of("if (true) { let a = 3; } a"), Object::Int(3));
    assert_eq!(failure_of("if (1 / 0) { 1 }"), EvalError::DivisionByZero);
}

#[test]
fn returns_end_blocks_and_calls() {
    assert_eq!(value_of("let f = fn() { return 1; 2 }; f() + 10"), Object::Int(11));
    assert_eq!(
        value_of("let f = fn() { if (true) { if (true) { return 1; } return 2; } return 3; }; f()"),
        Object::Int(1)
    );
    assert_eq!(value_of("1; return 2; 3"), Object::Int(2));
    assert_eq!(value_of("let f = fn() { if (true) { return 1; } 2 }; f(); 5"), Object::Int(5));
}

#[test]
fn a_marker_around_a_marker_keeps_one() {
    assert_eq!(
        value_of("return if (true) { return 1; };"),
        Object::Return(Box::new(Object::Int(1)))
    );
}

#[test]
fn functions_capture_the_scope_they_are_made_in() {
    assert_eq!(value_of("let a = 1; let f = fn() { a }; let a = 2; f()"), Object::Int(2));
    assert_eq!(value_of("let f = fn(a) { let a = a + 1; a }; let a = 10; f(1) + a"), Object::Int(12));
    assert_eq!(
        value_of("let counter = fn(n) { fn() { n } }; let one = counter(1); let two = counter(2); one() + two()"),
        Object::Int(3)
    );
    assert_eq!(value_of("let fact = fn(n) { if (n < 2) { 1 } else { n * fact(n - 1) } }; fact(10)"), Object::Int(3628800));
}

#[test]
fn bindings_inside_a_call_stay_inside() {
    assert_eq!(value_of("let f = fn() { let inner = 1; inner }; f(); inner"), Object::Null);
    assert_eq!(value_of("let f = fn(x) { x }; f(1); x"), Object::Null);
}

#[test]
fn parameters_with_one_name() {
    assert_eq!(value_of("fn(x, x) { x }(1, 2)"), Object::Int(2));
}

#[test]
fn calls_check_the_number_of_arguments() {
    assert_eq!(
        failure_of("fn(x) { x }()"),
        EvalError::WrongArgumentCount { expected: 1, found: 0 }
    );
    assert_eq!(
        failure_of("fn() { 1 }(1, 2)"),
        EvalError::WrongArgumentCount { expected: 0, found: 2 }
    );
    assert_eq!(failure_of("fn(x) { x }(1 / 0, 2)"), EvalError::DivisionByZero);
}

#[test]
fn only_functions_can_be_called() {
    assert_eq!(failure_of("1(2)"), EvalError::NotCallable);
    assert_eq!(failure_of("\"f\"()"), EvalError::NotCallable);
    assert_eq!(failure_of("nothing()"), EvalError::NotCallable);
    assert_eq!(failure_of("[fn() {}]()"), EvalError::NotCallable);
}

#[test]
fn function_values() {
    let mut env = Environment::default();
    let value = eval_with_env("fn(x, y) { x + y }", &mut env).unwrap();
    match value {
        Object::Function { parameters, body, environment } => {
            assert_eq!(parameters, vec![String::from("x"), String::from("y")]);
            assert_eq!(body, parse("x + y").unwrap().statements);
            assert_eq!(environment, 1);
        },
        other => panic!("unexpected value {:?}", other),
    }
    assert_eq!(env.scope_count(), 2);
}

#[test]
fn builtin_len() {
    assert_eq!(value_of("len(\"\")"), Object::Int(0));
    assert_eq!(value_of("len(\"héllo\")"), Object::Int(5));
    assert_eq!(value_of("len([])"), Object::Int(0));
    assert_eq!(value_of("len([1, [2, 3]])"), Object::Int(2));
    assert_eq!(value_of("len({})"), Object::Int(0));
    assert_eq!(value_of("len({1: 2, 3: 4})"), Object::Int(2));
    assert_eq!(failure_of("len(1)"), EvalError::BuiltinArgument(BuiltinFunction::Len));
    assert_eq!(failure_of("len(null)"), EvalError::BuiltinArgument(BuiltinFunction::Len));
    assert_eq!(failure_of("len()"), EvalError::BuiltinArity(BuiltinFunction::Len));
    assert_eq!(failure_of("len([], [])"), EvalError::BuiltinArity(BuiltinFunction::Len));
}

#[test]
fn builtin_first_and_last() {
    assert_eq!(value_of("first(\"abc\")"), text("a"));
    assert_eq!(value_of("last(\"abc\")"), text("c"));
    assert_eq!(value_of("first(\"é!\")"), text("é"));
    assert_eq!(value_of("last(\"!é\")"), text("é"));
    assert_eq!(value_of("first(\"\")"), Object::Null);
    assert_eq!(value_of("last(\"\")"), Object::Null);
    assert_eq!(value_of("first([1, 2, 3])"), Object::Int(1));
    assert_eq!(value_of("last([1, 2, 3])"), Object::Int(3));
    assert_eq!(value_of("first([])"), Object::Null);
    assert_eq!(value_of("last([])"), Object::Null);
    assert_eq!(failure_of("first({})"), EvalError::BuiltinArgument(BuiltinFunction::First));
    assert_eq!(failure_of("last(1)"), EvalError::BuiltinArgument(BuiltinFunction::Last));
    assert_eq!(failure_of("first()"), EvalError::BuiltinArity(BuiltinFunction::First));
    assert_eq!(failure_of("last(1, 2)"), EvalError::BuiltinArity(BuiltinFunction::Last));
}

#[test]
fn builtin_rest() {
    assert_eq!(value_of("rest(\"abc\")"), text("bc"));
    assert_eq!(value_of("rest(\"a\")"), text(""));
    assert_eq!(value_of("rest(\"éa\")"), text("a"));
    assert_eq!(value_of("rest(\"\")"), Object::Null);
    assert_eq!(value_of("rest([1, 2, 3])"), ints(&[2, 3]));
    assert_eq!(value_of("rest([1])"), ints(&[]));
    assert_eq!(value_of("rest([])"), Object::Null);
    assert_eq!(failure_of("rest(1)"), EvalError::BuiltinArgument(BuiltinFunction::Rest));
    assert_eq!(failure_of("rest()"), EvalError::BuiltinArity(BuiltinFunction::Rest));
}

#[test]
fn builtin_push() {
    assert_eq!(value_of("push(\"ab\", \"cd\")"), text("abcd"));
    assert_eq!(value_of("push([], 1)"), ints(&[1]));
    assert_eq!(value_of("push([1, 2], 3)"), ints(&[1, 2, 3]));
    assert_eq!(
        value_of("push([1], [2])"),
        Object::Array(vec![Object::Int(1), ints(&[2])])
    );
    assert_eq!(
        value_of("push({1: 2}, [3, 4])"),
        Object::Hash(HashObject::from_pairs(vec![
            (HashMapKey::Int(1), Object::Int(2)),
            (HashMapKey::Int(3), Object::Int(4))
        ]))
    );
    assert_eq!(
        value_of("push({1: 2}, [1, 4])"),
        Object::Hash(HashObject::from_pairs(vec![(HashMapKey::Int(1), Object::Int(4))]))
    );
    assert_eq!(
        value_of("push({1: 2, 3: 4}, {3: 5, 6: 7, 1: 8})"),
        Object::Hash(HashObject::from_pairs(vec![
            (HashMapKey::Int(1), Object::Int(8)),
            (HashMapKey::Int(3), Object::Int(5)),
            (HashMapKey::Int(6), Object::Int(7))
        ]))
    );
    assert_eq!(failure_of("push(\"a\", 1)"), EvalError::BuiltinArgument(BuiltinFunction::Push));
    assert_eq!(failure_of("push({}, [1])"), EvalError::BuiltinArgument(BuiltinFunction::Push));
    assert_eq!(failure_of("push({}, [1, 2, 3])"), EvalError::BuiltinArgument(BuiltinFunction::Push));
    assert_eq!(failure_of("push({}, 1)"), EvalError::BuiltinArgument(BuiltinFunction::Push));
    assert_eq!(failure_of("push({}, [[1], 2])"), EvalError::UnhashableKey);
    assert_eq!(failure_of("push(1, 2)"), EvalError::BuiltinArgument(BuiltinFunction::Push));
    assert_eq!(failure_of("push([1])"), EvalError::BuiltinArity(BuiltinFunction::Push));
    assert_eq!(failure_of("push([1], 2, 3)"), EvalError::BuiltinArity(BuiltinFunction::Push));
}

#[test]
fn builtins_leave_their_arguments_alone() {
    assert_eq!(value_of("let a = [1]; push(a, 2); a"), ints(&[1]));
    assert_eq!(value_of("let a = [1, 2]; rest(a); a"), ints(&[1, 2]));
    assert_eq!(
        value_of("let h = {1: 2}; push(h, [3, 4]); h"),
        Object::Hash(HashObject::from_pairs(vec![(HashMapKey::Int(1), Object::Int(2))]))
    );
}

#[test]
fn builtins_called_at_once() {
    assert_eq!(
        BuiltinFunction::Len.call(vec![ints(&[1, 2, 3])]),
        Ok(Object::Int(3))
    );
    assert_eq!(
        BuiltinFunction::Push.call(vec![ints(&[1]), Object::Null]),
        Ok(Object::Array(vec![Object::Int(1), Object::Null]))
    );
    assert_eq!(
        BuiltinFunction::Rest.call(vec![]),
        Err(EvalError::BuiltinArity(BuiltinFunction::Rest))
    );
    assert_eq!(BuiltinFunction::named("push"), Some(BuiltinFunction::Push));
    assert_eq!(BuiltinFunction::named("pop"), None);
}

#[test]
fn the_first_error_ends_the_evaluation() {
    let mut env = Environment::default();
    assert_eq!(
        eval_with_env("let a = 1; let b = 1 / 0; let c = 3;", &mut env),
        Err(Error::Eval(EvalError::DivisionByZero))
    );
    assert_eq!(env.get(0, "a"), Object::Int(1));
    assert_eq!(env.get(0, "b"), Object::Null);
    assert_eq!(env.get(0, "c"), Object::Null);
}

#[test]
fn syntax_errors_leave_the_environment_alone() {
    let mut env = Environment::default();
    assert!(matches!(eval_with_env("let a = 1; let = 2;", &mut env), Err(Error::Parse(_))));
    assert_eq!(env.get(0, "a"), Object::Null);
    assert_eq!(env.scope_count(), 1);
}

#[test]
fn the_environment_lasts_from_one_input_to_the_next() {
    let mut env = Environment::default();
    assert_eq!(eval_with_env("let a = 2;", &mut env), Ok(Object::Int(2)));
    assert_eq!(eval_with_env("let double = fn(x) { x * a };", &mut env).is_ok(), true);
    assert_eq!(eval_with_env("let a = 3; double(5)", &mut env), Ok(Object::Int(15)));
}

#[test]
fn evaluation_is_a_function_of_source_and_environment() {
    let source = "let f = fn(n) { if (n == 0) { [] } else { push(f(n - 1), n) } }; f(5)";
    let mut one = Environment::default();
    let mut two = Environment::default();
    assert_eq!(eval_with_env(source, &mut one), eval_with_env(source, &mut two));
    assert_eq!(one, two);
    assert_eq!(one.scope_count(), two.scope_count());
    assert_eq!(one.get(0, "f"), two.get(0, "f"));
    let copy = one.clone();
    assert_eq!(copy, one);
    assert_eq!(eval_with_env("f(2)", &mut one), Ok(ints(&[1, 2])));
    assert!(copy != one);
    assert_eq!(copy, two);
    assert_eq!(two.duplicate(), two);
}

#[test]
fn evaluation_binds_only_the_names_of_its_let_statements() {
    let mut env = Environment::default();
    env.set(0, String::from("kept"), Object::Int(1));
    env.set(0, String::from("a"), Object::Int(2));
    let inner = env.init_with_outer(0);
    env.set(inner, String::from("other"), Object::Int(3));
    let before = env.scope_count();
    let result = eval_with_env(
        "let a = 10; let f = fn(kept) { let other = kept; other }; f(a) + kept",
        &mut env,
    );
    assert_eq!(result, Ok(Object::Int(11)));
    assert_eq!(env.get(0, "kept"), Object::Int(1));
    assert_eq!(env.get(0, "a"), Object::Int(10));
    assert_eq!(env.get(inner, "other"), Object::Int(3));
    assert_eq!(env.get(0, "other"), Object::Null);
    assert!(env.scope_count() >= before);
}

#[test]
fn scopes() {
    let mut env = Environment::default();
    assert!(env.is_well_formed());
    assert_eq!(env.scope_count(), 1);
    assert_eq!(env.get(0, "a"), Object::Null);
    assert_eq!(env.set(0, String::from("a"), Object::Int(1)), Object::Int(1));
    let inner = env.init_with_outer(0);
    assert_eq!(inner, 1);
    assert_eq!(env.get(inner, "a"), Object::Int(1));
    assert_eq!(env.set(inner, String::from("a"), Object::Int(2)), Object::Int(2));
    assert_eq!(env.get(inner, "a"), Object::Int(2));
    assert_eq!(env.get(0, "a"), Object::Int(1));
    assert_eq!(env.set(inner, String::from("b"), Object::Int(3)), Object::Int(3));
    assert_eq!(env.get(0, "b"), Object::Null);
    let innermost = env.init_with_outer(inner);
    assert_eq!(env.get(innermost, "b"), Object::Int(3));
    assert_eq!(env.get(innermost, "a"), Object::Int(2));
    assert!(env.is_well_formed());
}

#[test]
fn scopes_that_are_not_there() {
    let mut env = Environment::default();
    assert_eq!(env.get(7, "a"), Object::Null);
    assert_eq!(env.set(7, String::from("a"), Object::Int(1)), Object::Int(1));
    assert_eq!(env.get(7, "a"), Object::Null);
    assert_eq!(env.scope_count(), 1);
    let alone = env.init_with_outer(7);
    env.set(0, String::from("a"), Object::Int(1));
    assert_eq!(env.get(alone, "a"), Object::Null);
}

#[test]
fn prefix_and_infix_at_once() {
    assert_eq!(
        Expression::eval_prefix(PrefixOperator::Not, Object::Int(0)),
        Ok(Object::Bool(true))
    );
    assert_eq!(Expression::eval_neg(Object::Int(4)), Ok(Object::Int(-4)));
    assert_eq!(
        Expression::eval_neg(Object::Return(Box::new(Object::Int(4)))),
        Ok(Object::Int(-4))
    );
    assert_eq!(
        Expression::eval_infix(InfixOperator::Sub, Object::Int(4), Object::Int(6)),
        Ok(Object::Int(-2))
    );
    assert_eq!(
        Expression::eval_infix(InfixOperator::Index, ints(&[4, 5]), Object::Int(1)),
        Ok(Object::Int(5))
    );
    assert_eq!(
        Expression::eval_infix(InfixOperator::Index, Object::Int(4), Object::Int(6)),
        Err(EvalError::InvalidOperation(InfixOperator::Index))
    );
}

#[test]
fn programs_statements_and_expressions_evaluate() {
    let mut env = Environment::default();
    let program = parse("let a = 4; return a * 2; 9").unwrap();
    assert_eq!(Eval::eval(&program, &mut env, 0, 10), Ok(Object::Int(8)));
    assert_eq!(
        Eval::eval(&program.statements[1], &mut env, 0, 10),
        Ok(Object::Return(Box::new(Object::Int(8))))
    );
    let block = Statement::Block(parse("1; return 2; 3").unwrap().statements);
    assert_eq!(
        block.eval(&mut env, 0, 10),
        Ok(Object::Return(Box::new(Object::Int(2))))
    );
    assert_eq!(block.eval(&mut env, 0, 0), Err(EvalError::DepthExceeded));
    let sum = Expression::Infix {
        operator: InfixOperator::Add,
        left: Box::new(Expression::Ident(String::from("a"))),
        right: Box::new(Expression::Int(1)),
    };
    assert_eq!(Eval::eval(&sum, &mut env, 0, 2), Ok(Object::Int(5)));
    assert_eq!(Eval::eval(&sum, &mut env, 0, 1), Err(EvalError::DepthExceeded));
}

#[test]
fn depth_is_used_up_by_calls() {
    let mut env = Environment::default();
    let source = "let down = fn(n) { if (n == 0) { 0 } else { down(n - 1) } }; down(20)";
    assert_eq!(eval_with_limit(source, &mut env, 100), Ok(Object::Int(0)));
    assert_eq!(
        eval_with_limit(source, &mut env, 30),
        Err(Error::Eval(EvalError::DepthExceeded))
    );
}

#[test]
fn copies_of_values_are_equal() {
    let value = value_of("[1, \"a\", {true: [null]}, fn(x) { x }, len, if (true) { return 1; }]");
    assert_eq!(value.clone(), value);
    assert_eq!(value.duplicate(), value);
}

#[test]
fn push_makes_an_array_one_longer() {
    for array in ["[]", "[1]", "[1, [2, 3], \"x\"]"] {
        for item in ["0", "null", "[9]", "fn() {}"] {
            let longer = value_of(&format!("len(push({}, {}))", array, item));
            let before = value_of(&format!("len({}) + 1", array));
            assert_eq!(longer, before);
        }
    }
}

#[test]
fn first_and_rest_take_an_array_apart() {
    assert_eq!(value_of("first(push(push([], 7), 8))"), Object::Int(7));
    assert_eq!(value_of("rest(push(push([], 7), 8))"), ints(&[8]));
    assert_eq!(value_of("first(push([], [1]))"), ints(&[1]));
    assert_eq!(value_of("rest(push([], 7))"), ints(&[]));
    assert_eq!(
        value_of("let a = push(push(push([], 1), 2), 3); push(push([], first(a)), first(rest(a)))"),
        ints(&[1, 2])
    );
}

#[test]
fn equality_of_integers_is_reflexive_and_symmetric() {
    for a in [-2i64, 0, 1, i64::MAX] {
        assert_eq!(value_of(&format!("{} == {}", a, a)), Object::Bool(true));
        for b in [-2i64, 0, 5] {
            assert_eq!(
                value_of(&format!("{} == {}", a, b)),
                value_of(&format!("{} == {}", b, a))
            );
        }
    }
}

#[test]
fn hashes_built_at_once() {
    let hash = HashObject::from_pairs(vec![
        (HashMapKey::Int(1), Object::Int(10)),
        (HashMapKey::Bool(true), Object::Int(20)),
        (HashMapKey::Int(1), Object::Int(30)),
    ]);
    assert_eq!(hash.len(), 2);
    assert_eq!(hash.get(&HashMapKey::Int(1)), Some(&Object::Int(30)));
    assert_eq!(hash.get(&HashMapKey::Bool(true)), Some(&Object::Int(20)));
    assert_eq!(hash.get(&HashMapKey::Bool(false)), None);
    assert_eq!(
        hash.entries(),
        &vec![(HashMapKey::Int(1), Object::Int(30)), (HashMapKey::Bool(true), Object::Int(20))]
    );
    let more = hash.with_entry(HashMapKey::String(String::from("k")), Object::Null);
    assert_eq!(more.len(), 3);
    let same = more.with_entry(HashMapKey::Bool(true), Object::Null);
    assert_eq!(same.len(), 3);
    assert_eq!(same.get(&HashMapKey::Bool(true)), Some(&Object::Null));
    assert_eq!(HashObject::new().len(), 0);
    assert_eq!(Object::Hash(HashObject::new()), value_of("{}"));
}

#[test]
fn lists_and_blocks_evaluate() {
    let mut env = Environment::default();
    env.set(0, String::from("a"), Object::Int(2));
    let program = parse("[a, a * a]; {a: 1, \"k\": a}; a; return a + 1; 9").unwrap();
    match (&program.statements[0], &program.statements[1]) {
        (Statement::Expr(Expression::Array(items)), Statement::Expr(Expression::Hash(pairs))) => {
            assert_eq!(
                eval_expressions(items, &mut env, 0, 5),
                Ok(vec![Object::Int(2), Object::Int(4)])
            );
            assert_eq!(eval_expressions(items, &mut env, 0, 1), Err(EvalError::DepthExceeded));
            assert_eq!(
                eval_pairs(pairs, &mut env, 0, 5),
                Ok(vec![
                    (HashMapKey::Int(2), Object::Int(1)),
                    (HashMapKey::String(String::from("k")), Object::Int(2))
                ])
            );
        },
        other => panic!("unexpected statements {:?}", other),
    }
    assert_eq!(
        eval_block(&program.statements, &mut env, 0, 5),
        Ok(Object::Return(Box::new(Object::Int(3))))
    );
    assert_eq!(eval_block(&vec![], &mut env, 0, 0), Ok(Object::Null));
}

#[test]
fn keys_and_entries() {
    assert_eq!(HashMapKey::of_object(&Object::Int(3)), Some(HashMapKey::Int(3)));
    assert_eq!(HashMapKey::of_object(&Object::Bool(false)), Some(HashMapKey::Bool(false)));
    assert_eq!(HashMapKey::of_object(&text("s")), Some(HashMapKey::String(String::from("s"))));
    assert_eq!(HashMapKey::of_object(&Object::Null), None);
    assert_eq!(HashMapKey::of_object(&ints(&[1])), None);
    assert!(HashMapKey::Int(1).same_as(&HashMapKey::Int(1)));
    assert!(!HashMapKey::Int(1).same_as(&HashMapKey::Int(2)));
    assert!(!HashMapKey::Int(1).same_as(&HashMapKey::Bool(true)));
    assert!(HashMapKey::String(String::from("a")).same_as(&HashMapKey::String(String::from("a"))));
    assert_eq!(HashMapKey::Int(1).duplicate(), HashMapKey::Int(1));
    let mut entries = vec![(HashMapKey::Int(1), Object::Int(10))];
    insert_entry(&mut entries, HashMapKey::Int(2), Object::Int(20));
    insert_entry(&mut entries, HashMapKey::Int(1), Object::Int(30));
    assert_eq!(
        entries,
        vec![(HashMapKey::Int(1), Object::Int(30)), (HashMapKey::Int(2), Object::Int(20))]
    );
    assert_eq!(find_key(&entries, &HashMapKey::Int(2)), Some(1));
    assert_eq!(find_key(&entries, &HashMapKey::Int(3)), None);
    assert_eq!(Object::Return(Box::new(Object::Int(1))).unwrap_return(), Object::Int(1));
    assert_eq!(Object::Int(1).unwrap_return(), Object::Int(1));
    assert_eq!(
        Object::Return(Box::new(Object::Return(Box::new(Object::Null)))).unwrap_return(),
        Object::Return(Box::new(Object::Null))
    );
}

#[test]
fn lets_that_do_not_run_bind_nothing() {
    let mut env = Environment::default();
    env.set(0, String::from("a"), Object::Int(1));
    env.set(0, String::from("b"), Object::Int(2));
    assert_eq!(eval_with_env("if (false) { let a = 10; } 0", &mut env), Ok(Object::Int(0)));
    assert_eq!(env.get(0, "a"), Object::Int(1));
    assert_eq!(eval_with_env("let f = fn(a) { let b = a; b }; f(7)", &mut env), Ok(Object::Int(7)));
    assert_eq!(env.get(0, "a"), Object::Int(1));
    assert_eq!(env.get(0, "b"), Object::Int(2));
    assert_eq!(
        eval_with_env("let a = 1 / 0; let b = 20;", &mut env),
        Err(Error::Eval(EvalError::DivisionByZero))
    );
    assert_eq!(env.get(0, "a"), Object::Int(1));
    assert_eq!(env.get(0, "b"), Object::Int(2));
    assert_eq!(eval_with_env("return 0; let a = 5;", &mut env), Ok(Object::Int(0)));
    assert_eq!(env.get(0, "a"), Object::Int(1));
    assert_eq!(eval_with_env("if (true) { let a = 5; }", &mut env), Ok(Object::Int(5)));
    assert_eq!(env.get(0, "a"), Object::Int(5));
    assert_eq!(env.get(0, "b"), Object::Int(2));
}
