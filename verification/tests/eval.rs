use waiir::eval::{eval_with_env, Environment, HashMapKey, HashObject, Object};


fn assert_eval(input: &str, expected: Object) {
    let mut env = Environment::default();
    let output = eval_with_env(input, &mut env).unwrap();
    assert_eq!(output, expected);
}

#[test]
fn integer_expression() {
    assert_eval("5", Object::Int(5));
    assert_eval("10", Object::Int(10));
    assert_eval("-5", Object::Int(-5));
    assert_eval("-10", Object::Int(-10));
    assert_eval("5 + 5 + 5 + 5 - 10", Object::Int(10));
    assert_eval("2 * 2 * 2 * 2 * 2", Object::Int(32));
    assert_eval("-50 + 100 + -50", Object::Int(0));
    assert_eval("5 * 2 + 10", Object::Int(20));
    assert_eval("5 + 2 * 10", Object::Int(25));
    assert_eval("20 + 2 * -10", Object::Int(0));
    assert_eval("50 / 2 * 2 + 10", Object::Int(60));
    assert_eval("2 * (5 + 10)", Object::Int(30));
    assert_eval("3 * 3 * 3 + 10", Object::Int(37));
    assert_eval("3 * (3 * 3) + 10", Object::Int(37));
    assert_eval("(5 + 10 * 2 + 15 / 3) * 2 + -10", Object::Int(50));
}

#[test]
fn boolean_expression() {
    assert_eval("true", Object::Bool(true));
    assert_eval("false", Object::Bool(false));
    assert_eval("!true", Object::Bool(false));
    assert_eval("!false", Object::Bool(true));
    assert_eval("!5", Object::Bool(false));
    assert_eval("!!true", Object::Bool(true));
    assert_eval("!!false", Object::Bool(false));
    assert_eval("!!5", Object::Bool(true));
    assert_eval("!null", Object::Bool(true));
    assert_eval("!!null", Object::Bool(false));
    assert_eval("1 < 2", Object::Bool(true));
    assert_eval("1 > 2", Object::Bool(false));
    assert_eval("1 < 1", Object::Bool(false));
    assert_eval("1 > 1", Object::Bool(false));
    assert_eval("1 == 1", Object::Bool(true));
    assert_eval("1 != 1", Object::Bool(false));
    assert_eval("1 == 2", Object::Bool(false));
    assert_eval("1 != 2", Object::Bool(true));
    assert_eval("true == true", Object::Bool(true));
    assert_eval("false == false", Object::Bool(true));
    assert_eval("true == false", Object::Bool(false));
    assert_eval("true != false", Object::Bool(true));
    assert_eval("false != true", Object::Bool(true));
    assert_eval("(1 < 2) == true", Object::Bool(true));
    assert_eval("(1 < 2) == false", Object::Bool(false));
    assert_eval("(1 > 2) == true", Object::Bool(false));
    assert_eval("(1 > 2) == false", Object::Bool(true));
}

#[test]
fn if_else_expressions() {
    assert_eval("if (true) { 10 }", Object::Int(10));
    assert_eval("if (false) { 10 }", Object::Null);
    assert_eval("if (1) { 10 }", Object::Int(10));
    assert_eval("if (1 < 2) { 10 }", Object::Int(10));
    assert_eval("if (1 > 2) { 10 }", Object::Null);
    assert_eval("if (1 > 2) { 10 } else { 20 }", Object::Int(20));
    assert_eval("if (1 < 2) { 10 } else { 20 }", Object::Int(10));
}

#[test]
fn return_stms() {
    assert_eval("return 10;", Object::Int(10));
    assert_eval("return 10; 9;", Object::Int(10));
    assert_eval("return 2 * 5; 9;", Object::Int(10));
    assert_eval("9; return 2 * 5; 9;", Object::Int(10));
    assert_eval(
        "if (10 > 1) { if (10 > 1) { return 10; } return 1; }",
        Object::Int(10),
    );
}

#[test]
fn let_stmts() {
    assert_eval("let a = 5; a;", Object::Int(5));
    assert_eval("let a = 5 * 5; a;", Object::Int(25));
    assert_eval("let a = 5; let b = a; b;", Object::Int(5));
    assert_eval(
        "let a = 5; let b = a; let c = a + b + 5; c;",
        Object::Int(15),
    );
}

#[test]
fn fn_calls() {
    assert_eval("let identity = fn(x) { x; }; identity(5);", Object::Int(5));
    assert_eval(
        "let identity = fn(x) { return x; }; identity(5);",
        Object::Int(5),
    );
    assert_eval("let double = fn(x) { x * 2; }; double(5);", Object::Int(10));
    assert_eval("let add = fn(x, y) { x + y; }; add(5, 5);", Object::Int(10));
    assert_eval(
        "let add = fn(x, y) { x + y; }; add(5 + 5, add(5, 5));",
        Object::Int(20),
    );
    assert_eval("fn(x) { x; }(5)", Object::Int(5));
}

#[test]
fn closure() {
    assert_eval(
        " \n\
            let newAdder = fn(x) { \n\
                fn(y) { x + y }; \n\
            }; \n\
            let addTwo = newAdder(2); \n\
            addTwo(2)
            ",
        Object::Int(4),
    )
}

#[test]
fn string_expression() {
    assert_eval(
        "\"Hello World!\"",
        Object::String(String::from("Hello World!")),
    );
    assert_eval(
        "\"Hello\" + \" \" + \"World!\"",
        Object::String(String::from("Hello World!")),
    );
    assert_eval("!\"Hello World!\"", Object::Bool(false));
    assert_eval("!\"\"", Object::Bool(true));
}

#[test]
fn builtin_functions() {
    assert_eval("len(\"\")", Object::Int(0));
    assert_eval("len(\"four\")", Object::Int(4));
    assert_eval("len(\"hello world\")", Object::Int(11));
}

#[test]
fn array_literals() {
    assert_eval(
        "[1, 2 * 2, 3 + 3]",
        Object::Array(vec![Object::Int(1), Object::Int(4), Object::Int(6)]),
    );
}

#[test]
fn index_operations() {
    assert_eval("[1, 2, 3][0]", Object::Int(1));
    assert_eval("[1, 2, 3][1]", Object::Int(2));
    assert_eval("[1, 2, 3][2]", Object::Int(3));
    assert_eval("let i = 0; [1][i]", Object::Int(1));
    assert_eval("[1, 2, 3][1 + 1]", Object::Int(3));
    assert_eval("let myArray = [1, 2, 3]; myArray[2]", Object::Int(3));
    assert_eval(
        "let myArray = [1, 2, 3]; myArray[0] + myArray[1] + myArray[2]",
        Object::Int(6),
    );
    assert_eval(
        "let myArray = [1, 2, 3]; let i = myArray[0]; myArray[i]",
        Object::Int(2),
    );
    assert_eval("[1, 2, 3][3]", Object::Null);
    assert_eval("[1, 2, 3][-1]", Object::Null);
}

#[test]
fn map_impl() {
    let input = "
        let map = fn(arr, f) { \n\
            let iter = fn(arrin, accumulated) { \n\
                if (len(arrin) == 0) { \n\
                    accumulated \n\
                } else { \n\
                    iter(rest(arrin), push(accumulated, f(first(arrin)))); \n\
                } \n\
            }; \n\
            iter(arr, []); \n\
        }; \n\
        let a = [1, 2, 3, 4];
        let double = fn(x) { x * 2 };
        map(a, double)
    ";

    assert_eval(
        input,
        Object::Array(vec![
            Object::Int(2),
            Object::Int(4),
            Object::Int(6),
            Object::Int(8),
        ]),
    );
}

#[test]
fn reduce_impl() {
    let input = "
        let reduce = fn(arr, initial, f) {
            let iter = fn(arrin, result) {
                if (len(arrin) == 0) {
                    result
                } else {
                    iter(rest(arrin), f(result, first(arrin)));
                }
            };
            iter(arr, initial);
        };
        let sum = fn(arr) {
            reduce(arr, 0, fn(initial, el) { initial + el });
        };
        sum([1,2,3,4,5]);
    ";

    assert_eval(input, Object::Int(15));
}

#[test]
fn hash_literals() {
    let input = "
        let two = \"two\"; \n\
        { \n\
            \"one\": 10 - 9,\n\
            two: 1 + 1,\n\
            \"thr\" + \"ee\": 6 / 2,\n\
            4: 4,\n\
            true: 5,\n\
            false: 6\n\
        }\n\
    ";

    assert_eval(
        input,
        Object::Hash(HashObject::from_pairs(vec![
            (HashMapKey::String(String::from("one")), Object::Int(1)),
            (HashMapKey::String(String::from("two")), Object::Int(2)),
            (HashMapKey::String(String::from("three")), Object::Int(3)),
            (HashMapKey::Int(4), Object::Int(4)),
            (HashMapKey::Bool(true), Object::Int(5)),
            (HashMapKey::Bool(false), Object::Int(6)),
        ])),
    );
}

#[test]
fn hash_index_expressions() {
    assert_eval("{\"foo\": 5}[\"foo\"]", Object::Int(5));
    assert_eval("{\"foo\": 5}[\"bar\"]", Object::Null);
    assert_eval("let key = \"foo\"; {\"foo\": 5}[key]", Object::Int(5));
    assert_eval("{}[\"foo\"]", Object::Null);
    assert_eval("{5: 5}[5]", Object::Int(5));
    assert_eval("{true: 5}[true]", Object::Int(5));
    assert_eval("{false: 5}[false]", Object::Int(5));
}
