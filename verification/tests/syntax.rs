use waiir::lexer::Token;
use waiir::parser::{parse, Expectation, ParseError};
use waiir::{Expression, InfixOperator, Lexer, PrefixOperator, Program, Statement};
use waiir::parser::Precedence;
use waiir::text::{chars_of, text_of};
use waiir::ast::height::{
    expressions_height_within, pairs_height_within, statements_height_within,
};
use waiir::ast::{duplicate_expressions, duplicate_names, duplicate_pairs, duplicate_statements};

fn tokens(input: &str) -> Vec<Token> {
    Lexer::init(input).get_all_tokens()
}

fn error_of(input: &str) -> ParseError {
    parse(input).unwrap_err()
}

fn ident(name: &str) -> Expression {
    Expression::Ident(String::from(name))
}

#[test]
fn empty_input_is_eof() {
    assert_eq!(tokens(""), vec![Token::Eof]);
    assert_eq!(tokens(" \t\r\n "), vec![Token::Eof]);
}

#[test]
fn eof_repeats() {
    let mut lexer = Lexer::init("a");
    assert_eq!(lexer.next_token(), Token::Ident(String::from("a")));
    assert_eq!(lexer.next_token(), Token::Eof);
    assert_eq!(lexer.next_token(), Token::Eof);
    assert_eq!(lexer.next_token(), Token::Eof);
}

#[test]
fn two_character_operators() {
    assert_eq!(
        tokens("= == ! != =! ==="),
        vec![
            Token::Assign,
            Token::Eq,
            Token::Bang,
            Token::NotEq,
            Token::Assign,
            Token::Bang,
            Token::Eq,
            Token::Assign,
            Token::Eof
        ]
    );
}

#[test]
fn identifiers_are_read_greedily() {
    assert_eq!(
        tokens("letter iffy fnx returned myArray"),
        vec![
            Token::Ident(String::from("letter")),
            Token::Ident(String::from("iffy")),
            Token::Ident(String::from("fnx")),
            Token::Ident(String::from("returned")),
            Token::Ident(String::from("myArray")),
            Token::Eof
        ]
    );
    assert_eq!(
        tokens("ab(c"),
        vec![
            Token::Ident(String::from("ab")),
            Token::LParen,
            Token::Ident(String::from("c")),
            Token::Eof
        ]
    );
}

#[test]
fn identifiers_start_with_a_lowercase_letter() {
    assert_eq!(tokens("A"), vec![Token::Illegal, Token::Eof]);
    assert_eq!(
        tokens("Ab"),
        vec![Token::Illegal, Token::Ident(String::from("b")), Token::Eof]
    );
    assert_eq!(
        tokens("a_b"),
        vec![
            Token::Ident(String::from("a")),
            Token::Illegal,
            Token::Ident(String::from("b")),
            Token::Eof
        ]
    );
    assert_eq!(
        tokens("a1"),
        vec![Token::Ident(String::from("a")), Token::Int(1), Token::Eof]
    );
}

#[test]
fn letters_outside_ascii_are_illegal() {
    assert_eq!(
        tokens("é"),
        vec![Token::Illegal, Token::Eof]
    );
    assert_eq!(
        tokens("aé"),
        vec![Token::Ident(String::from("a")), Token::Illegal, Token::Eof]
    );
}

#[test]
fn numbers_are_read_in_base_ten() {
    assert_eq!(tokens("0"), vec![Token::Int(0), Token::Eof]);
    assert_eq!(tokens("007"), vec![Token::Int(7), Token::Eof]);
    assert_eq!(
        tokens("9223372036854775807"),
        vec![Token::Int(i64::MAX), Token::Eof]
    );
    assert_eq!(
        tokens("12ab"),
        vec![Token::Int(12), Token::Ident(String::from("ab")), Token::Eof]
    );
}

#[test]
fn numbers_that_do_not_fit_are_illegal() {
    assert_eq!(tokens("9223372036854775808"), vec![Token::Illegal, Token::Eof]);
    assert_eq!(
        tokens("99999999999999999999999999 1"),
        vec![Token::Illegal, Token::Int(1), Token::Eof]
    );
}

#[test]
fn strings_hold_what_stands_between_the_quotes() {
    assert_eq!(tokens("\"\""), vec![Token::String(String::new()), Token::Eof]);
    assert_eq!(
        tokens("\"a\\n b\" 1"),
        vec![Token::String(String::from("a\\n b")), Token::Int(1), Token::Eof]
    );
    assert_eq!(
        tokens("\"héllo\""),
        vec![Token::String(String::from("héllo")), Token::Eof]
    );
}

#[test]
fn unclosed_strings_run_to_the_end() {
    assert_eq!(
        tokens("\"abc 1 + 2"),
        vec![Token::String(String::from("abc 1 + 2")), Token::Eof]
    );
    assert_eq!(tokens("\""), vec![Token::String(String::new()), Token::Eof]);
}

#[test]
fn other_characters_are_illegal() {
    assert_eq!(
        tokens("1 @ 2 # $"),
        vec![
            Token::Int(1),
            Token::Illegal,
            Token::Int(2),
            Token::Illegal,
            Token::Illegal,
            Token::Eof
        ]
    );
}

#[test]
fn empty_program() {
    assert_eq!(parse("").unwrap(), Program { statements: vec![] });
    assert_eq!(parse("  \n ").unwrap(), Program { statements: vec![] });
}

#[test]
fn parsing_is_a_function_of_the_source() {
    let source = "let f = fn(a, b) { if (a < b) { a } else { b } }; f(1, [2, 3][0])";
    assert_eq!(parse(source).unwrap(), parse(source).unwrap());
    assert_eq!(error_of("let = 1;"), error_of("let = 1;"));
}

#[test]
fn index_binds_tighter_than_call() {
    assert_eq!(
        parse("a[0](1)").unwrap(),
        Program {
            statements: vec![Statement::Expr(Expression::Call {
                func: Box::new(Expression::Infix {
                    operator: InfixOperator::Index,
                    left: Box::new(ident("a")),
                    right: Box::new(Expression::Int(0)),
                }),
                args: vec![Expression::Int(1)],
            })]
        }
    );
    assert_eq!(
        parse("-a[0]").unwrap(),
        Program {
            statements: vec![Statement::Expr(Expression::Prefix {
                operator: PrefixOperator::Neg,
                right: Box::new(Expression::Infix {
                    operator: InfixOperator::Index,
                    left: Box::new(ident("a")),
                    right: Box::new(Expression::Int(0)),
                }),
            })]
        }
    );
}

#[test]
fn statements_without_semicolons() {
    assert_eq!(
        parse("1 2").unwrap(),
        Program {
            statements: vec![
                Statement::Expr(Expression::Int(1)),
                Statement::Expr(Expression::Int(2))
            ]
        }
    );
    assert_eq!(
        parse("let a = 1").unwrap(),
        Program {
            statements: vec![Statement::Let {
                name: String::from("a"),
                value: Expression::Int(1)
            }]
        }
    );
}

#[test]
fn a_closing_brace_starts_no_statement() {
    assert_eq!(
        error_of("}"),
        ParseError { expected: Expectation::Expression, found: Token::RBrace }
    );
    assert_eq!(
        error_of("5 }"),
        ParseError { expected: Expectation::Expression, found: Token::RBrace }
    );
    assert_eq!(
        error_of("if (true) { 1 } }"),
        ParseError { expected: Expectation::Expression, found: Token::RBrace }
    );
}

#[test]
fn trailing_commas_are_accepted() {
    assert_eq!(
        parse("[1, 2,]").unwrap(),
        Program {
            statements: vec![Statement::Expr(Expression::Array(vec![
                Expression::Int(1),
                Expression::Int(2)
            ]))]
        }
    );
    assert_eq!(
        parse("f(1,)").unwrap(),
        Program {
            statements: vec![Statement::Expr(Expression::Call {
                func: Box::new(ident("f")),
                args: vec![Expression::Int(1)],
            })]
        }
    );
    assert_eq!(
        parse("fn(x,) {}").unwrap(),
        Program {
            statements: vec![Statement::Expr(Expression::Func {
                args: vec![String::from("x")],
                body: vec![],
            })]
        }
    );
}

#[test]
fn syntax_errors_hold_the_token_that_does_not_fit() {
    let cases: Vec<(&str, Expectation, Token)> = vec![
        (")", Expectation::Expression, Token::RParen),
        ("1 +", Expectation::Expression, Token::Eof),
        ("@", Expectation::Expression, Token::Illegal),
        ("9223372036854775808", Expectation::Expression, Token::Illegal),
        ("let 1 = 2;", Expectation::Identifier, Token::Int(1)),
        ("let a 2;", Expectation::Assign, Token::Int(2)),
        ("let a = 2 3", Expectation::SemicolonOrEof, Token::Int(3)),
        ("return 1", Expectation::Semicolon, Token::Eof),
        ("return 1 2", Expectation::Semicolon, Token::Int(2)),
        ("(1", Expectation::RParen, Token::Eof),
        ("(1 2)", Expectation::RParen, Token::Int(2)),
        ("a[1", Expectation::RBracket, Token::Eof),
        ("a[1)", Expectation::RBracket, Token::RParen),
        ("[1 2]", Expectation::CommaOrRBracket, Token::Int(2)),
        ("[1, 2", Expectation::CommaOrRBracket, Token::Eof),
        ("[", Expectation::Expression, Token::Eof),
        ("f(1 2)", Expectation::CommaOrRParen, Token::Int(2)),
        ("f(", Expectation::Expression, Token::Eof),
        ("{1 2}", Expectation::Colon, Token::Int(2)),
        ("{1: 2 3}", Expectation::CommaOrRBrace, Token::Int(3)),
        ("{1: 2,", Expectation::Expression, Token::Eof),
        ("if 1", Expectation::LParen, Token::Int(1)),
        ("if (1 {", Expectation::RParen, Token::LBrace),
        ("if (1) 2", Expectation::LBrace, Token::Int(2)),
        ("if (1) { 2", Expectation::Expression, Token::Eof),
        ("if (1) { 2 } else 3", Expectation::LBrace, Token::Int(3)),
        ("fn x", Expectation::LParen, Token::Ident(String::from("x"))),
        ("fn(1) {}", Expectation::Parameter, Token::Int(1)),
        ("fn(x y) {}", Expectation::CommaOrRParen, Token::Ident(String::from("y"))),
        ("fn(x)", Expectation::LBrace, Token::Eof),
        ("fn(x) { 1", Expectation::Expression, Token::Eof),
    ];
    for (source, expected, found) in cases {
        assert_eq!(error_of(source), ParseError { expected, found }, "source: {}", source);
    }
}

#[test]
fn the_first_error_is_the_one_reported() {
    assert_eq!(
        error_of("(1 +"),
        ParseError { expected: Expectation::Expression, found: Token::Eof }
    );
    assert_eq!(
        error_of("let a = ); let 1"),
        ParseError { expected: Expectation::Expression, found: Token::RParen }
    );
}

#[test]
fn operators_from_tokens() {
    assert_eq!(PrefixOperator::try_from(&Token::Bang), Ok(PrefixOperator::Not));
    assert_eq!(PrefixOperator::try_from(&Token::Minus), Ok(PrefixOperator::Neg));
    assert_eq!(
        PrefixOperator::try_from(&Token::Plus),
        Err(ParseError { expected: Expectation::Operator, found: Token::Plus })
    );
    assert_eq!(InfixOperator::try_from(&Token::LBracket), Ok(InfixOperator::Index));
    assert_eq!(InfixOperator::try_from(&Token::Slash), Ok(InfixOperator::Div));
    assert_eq!(
        InfixOperator::try_from(&Token::Bang),
        Err(ParseError { expected: Expectation::Operator, found: Token::Bang })
    );
}

#[test]
fn expressions_from_literals() {
    assert_eq!(Expression::from(7), Expression::Int(7));
    assert_eq!(Expression::from(true), Expression::Bool(true));
    assert_eq!(Expression::from("x"), ident("x"));
    assert_eq!(Expression::from(String::from("x")), ident("x"));
}

#[test]
fn copies_are_equal() {
    let program = parse("let f = fn(a) { if (a) { [1, {2: \"x\"}] } else { -a } }; f(!1)[0]")
        .unwrap();
    for statement in &program.statements {
        assert_eq!(statement.clone(), *statement);
        assert_eq!(statement.duplicate(), *statement);
    }
}

#[test]
fn heights_are_measured_up_to_a_limit() {
    let e = parse("1 + 2 * -3").unwrap().statements.remove(0);
    assert_eq!(e.height_within(10), Some(5));
    assert_eq!(e.height_within(5), Some(5));
    assert_eq!(e.height_within(4), None);
    assert_eq!(e.height_within(0), None);
}

#[test]
fn precedences_of_tokens() {
    let cases = [
        (Token::Eq, Precedence::Equals, 1),
        (Token::NotEq, Precedence::Equals, 1),
        (Token::Lt, Precedence::LessGreater, 2),
        (Token::Gt, Precedence::LessGreater, 2),
        (Token::Plus, Precedence::Sum, 3),
        (Token::Minus, Precedence::Sum, 3),
        (Token::Slash, Precedence::Product, 4),
        (Token::Asterisk, Precedence::Product, 4),
        (Token::LParen, Precedence::Call, 6),
        (Token::LBracket, Precedence::Index, 7),
        (Token::Semicolon, Precedence::Lowest, 0),
        (Token::Bang, Precedence::Lowest, 0),
        (Token::Eof, Precedence::Lowest, 0),
    ];
    for (token, precedence, level) in cases {
        assert_eq!(Precedence::get_from_token(&token), precedence);
        assert_eq!(precedence.level(), level);
    }
    assert_eq!(Precedence::Prefix.level(), 5);
}

#[test]
fn characters_and_texts() {
    assert_eq!(chars_of(""), Vec::<char>::new());
    assert_eq!(chars_of("aé!"), vec!['a', 'é', '!']);
    let chars = chars_of("hello");
    assert_eq!(text_of(&chars, 1, 4), "ell");
    assert_eq!(text_of(&chars, 0, 5), "hello");
    assert_eq!(text_of(&chars, 2, 2), "");
}

#[test]
fn heights_of_statements_and_lists() {
    let program = parse("let a = [1, -2]; if (a) { return {1: f(2)}; }").unwrap();
    assert_eq!(program.statements[0].height_within(10), Some(4));
    assert_eq!(program.statements[1].height_within(10), Some(6));
    assert_eq!(statements_height_within(&program.statements, 10), Some(6));
    assert_eq!(statements_height_within(&program.statements, 5), None);
    assert_eq!(statements_height_within(&vec![], 0), Some(0));
    let items = vec![Expression::Int(1), Expression::from("x")];
    assert_eq!(expressions_height_within(&items, 1), Some(1));
    assert_eq!(expressions_height_within(&items, 0), None);
    let pairs = vec![(
        Expression::Int(1),
        Expression::Prefix { operator: PrefixOperator::Neg, right: Box::new(Expression::Int(1)) },
    )];
    assert_eq!(pairs_height_within(&pairs, 2), Some(2));
    assert_eq!(pairs_height_within(&pairs, 1), None);
    let sum = Expression::Infix {
        operator: InfixOperator::Add,
        left: Box::new(Expression::Int(1)),
        right: Box::new(Expression::Array(vec![Expression::Int(2)])),
    };
    assert_eq!(sum.height_within(10), Some(3));
}

#[test]
fn copies_of_lists() {
    let names = vec![String::from("a"), String::from("b")];
    assert_eq!(duplicate_names(&names), names);
    let program = parse("[1, x]; {a: -1}").unwrap();
    assert_eq!(duplicate_statements(&program.statements), program.statements);
    match (&program.statements[0], &program.statements[1]) {
        (Statement::Expr(Expression::Array(items)), Statement::Expr(Expression::Hash(pairs))) => {
            assert_eq!(duplicate_expressions(items), *items);
            assert_eq!(duplicate_pairs(pairs), *pairs);
        },
        other => panic!("unexpected statements {:?}", other),
    }
}

#[test]
fn lexical_errors_are_told_apart() {
    assert!(error_of("let a = 9223372036854775808;").is_lexical());
    assert!(error_of("1 + $").is_lexical());
    assert!(!error_of("1 +").is_lexical());
    assert!(!error_of("let 1").is_lexical());
}
