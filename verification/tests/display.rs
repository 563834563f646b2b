use waiir::eval::{
    eval_with_env, BuiltinFunction, Environment, Error, EvalError, HashMapKey, Object,
};
use waiir::lexer::Token;
use waiir::parser::{Expectation, ParseError};
use waiir::{InfixOperator, PrefixOperator};

fn shown(input: &str) -> String {
    let mut env = Environment::default();
    eval_with_env(input, &mut env).unwrap().to_text()
}

fn message_of(input: &str) -> String {
    let mut env = Environment::default();
    eval_with_env(input, &mut env).unwrap_err().message()
}

#[test]
fn scalars_are_written_naturally() {
    assert_eq!(shown("null"), "null");
    assert_eq!(shown("true"), "true");
    assert_eq!(shown("false"), "false");
    assert_eq!(shown("\"hello world\""), "hello world");
    assert_eq!(shown("\"\""), "");
}

#[test]
fn integers_are_written_in_decimal() {
    assert_eq!(shown("0"), "0");
    assert_eq!(shown("7"), "7");
    assert_eq!(shown("10"), "10");
    assert_eq!(shown("-10"), "-10");
    assert_eq!(shown("1234567890"), "1234567890");
    assert_eq!(shown("9223372036854775807"), "9223372036854775807");
    assert_eq!(shown("-9223372036854775807 - 1"), "-9223372036854775808");
    for n in [1i64, -1, 9, 99, 100, 101, -999, 1000, i64::MAX, i64::MIN, i64::MIN + 1] {
        assert_eq!(Object::Int(n).to_text(), n.to_string());
    }
}

#[test]
fn arrays_are_written_in_brackets() {
    assert_eq!(shown("[]"), "[]");
    assert_eq!(shown("[1]"), "[1]");
    assert_eq!(shown("[1, \"a\", true, null]"), "[1, a, true, null]");
    assert_eq!(shown("[[1, 2], [], [[3]]]"), "[[1, 2], [], [[3]]]");
}

#[test]
fn hashes_are_written_in_braces() {
    assert_eq!(shown("{}"), "{  }");
    assert_eq!(shown("{1: 2}"), "{ 1: 2 }");
    assert_eq!(shown("{\"a\": [1], true: {2: 3}, -4: null}"), "{ a: [1], true: { 2: 3 }, -4: null }");
}

#[test]
fn functions_are_written_with_their_parameters() {
    assert_eq!(shown("fn() { 1 }"), "fn() {...}");
    assert_eq!(shown("fn(x) { x }"), "fn(x) {...}");
    assert_eq!(shown("fn(x, y, z) { x }"), "fn(x, y, z) {...}");
}

#[test]
fn builtins_are_written_with_their_names() {
    assert_eq!(shown("len"), "Builtin function 'len'");
    assert_eq!(shown("first"), "Builtin function 'first'");
    assert_eq!(shown("last"), "Builtin function 'last'");
    assert_eq!(shown("rest"), "Builtin function 'rest'");
    assert_eq!(shown("push"), "Builtin function 'push'");
    assert_eq!(BuiltinFunction::Push.to_text(), "push");
}

#[test]
fn markers_are_written_before_what_they_hold() {
    assert_eq!(Object::Return(Box::new(Object::Int(3))).to_text(), "Return 3");
}

#[test]
fn keys_are_written_like_values() {
    assert_eq!(HashMapKey::Int(-3).to_text(), "-3");
    assert_eq!(HashMapKey::Bool(true).to_text(), "true");
    assert_eq!(HashMapKey::String(String::from("k")).to_text(), "k");
}

#[test]
fn operators_are_written_in_backticks() {
    assert_eq!(PrefixOperator::Not.to_text(), "`!`");
    assert_eq!(PrefixOperator::Neg.to_text(), "`-`");
    let infix = [
        (InfixOperator::Add, "`+`"),
        (InfixOperator::Sub, "`-`"),
        (InfixOperator::Mul, "`*`"),
        (InfixOperator::Div, "`/`"),
        (InfixOperator::Eq, "`==`"),
        (InfixOperator::NotEq, "`!=`"),
        (InfixOperator::Gt, "`>`"),
        (InfixOperator::Lt, "`<`"),
        (InfixOperator::Index, "`[...]`"),
    ];
    for (operator, text) in infix {
        assert_eq!(operator.to_text(), text);
    }
}

#[test]
fn tokens_are_written_out() {
    let cases = [
        (Token::Illegal, "ILLEGAL TOKEN"),
        (Token::Eof, "EOF"),
        (Token::Ident(String::from("abc")), "<identifier=abc>"),
        (Token::Int(42), "<int=42>"),
        (Token::String(String::from("a b")), "<str=a b>"),
        (Token::Assign, "`=`"),
        (Token::Plus, "`+`"),
        (Token::Minus, "`-`"),
        (Token::Bang, "`!`"),
        (Token::Asterisk, "`*`"),
        (Token::Slash, "`/`"),
        (Token::Lt, "`<`"),
        (Token::Gt, "`>`"),
        (Token::Eq, "`==`"),
        (Token::NotEq, "`!=`"),
        (Token::Comma, "`,`"),
        (Token::Semicolon, "`;`"),
        (Token::Colon, "`:`"),
        (Token::LParen, "`(`"),
        (Token::RParen, "`)`"),
        (Token::LBrace, "`{`"),
        (Token::RBrace, "`}`"),
        (Token::LBracket, "`[`"),
        (Token::RBracket, "`]`"),
        (Token::True, "<bool=true>"),
        (Token::False, "<bool=false>"),
        (Token::Function, "`fn`"),
        (Token::Let, "`let`"),
        (Token::If, "`if`"),
        (Token::Else, "`else`"),
        (Token::Return, "`return`"),
    ];
    for (token, text) in cases {
        assert_eq!(token.to_text(), text);
        assert!(token.is(&token.duplicate()));
    }
    assert!(!Token::Int(1).is(&Token::Int(2)));
    assert!(!Token::Ident(String::from("a")).is(&Token::String(String::from("a"))));
    assert!(Token::Eof.is_eof());
    assert!(!Token::Illegal.is_eof());
}

#[test]
fn syntax_errors_are_written_out() {
    assert_eq!(message_of("let 5 = 1;"), "Invalid token <int=5>, expected an identifier");
    assert_eq!(message_of("(1"), "Invalid token EOF, expected `)`");
    assert_eq!(
        ParseError { expected: Expectation::CommaOrRBrace, found: Token::Semicolon }.message(),
        "Invalid token `;`, expected `,` or `}`"
    );
    assert_eq!(Expectation::SemicolonOrEof.to_text(), "`;` or the end of the input");
}

#[test]
fn failures_are_written_out() {
    assert_eq!(message_of("1 + true"), "Invalid operation `+` between these values");
    assert_eq!(message_of("-true"), "This value cannot be negated");
    assert_eq!(
        message_of("{[]: 1}"),
        "Invalid object type for a hash key, must be int, str or bool"
    );
    assert_eq!(message_of("1()"), "This value is not a function");
    assert_eq!(
        message_of("fn(a, b) { a }(1)"),
        "Invalid function call argument counts, 2 requested, 1 provided"
    );
    assert_eq!(message_of("len()"), "Wrong number of arguments for builtin function `len`");
    assert_eq!(message_of("rest(1)"), "Invalid argument for builtin function `rest`");
    assert_eq!(message_of("1 / 0"), "Division by zero");
    assert_eq!(message_of("9223372036854775807 + 1"), "Integer overflow");
    assert_eq!(
        message_of("let f = fn() { f() }; f()"),
        "The evaluation nests too deep"
    );
    assert_eq!(Error::Eval(EvalError::Overflow).message(), EvalError::Overflow.message());
}
