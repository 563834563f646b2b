use waiir::{Lexer, Token};


#[test]
fn mod_base_input() {
    let mut lexer = Lexer::init("=+(){},;");
    assert_eq!(
        lexer.get_all_tokens(),
        vec![
            Token::Assign,
            Token::Plus,
            Token::LParen,
            Token::RParen,
            Token::LBrace,
            Token::RBrace,
            Token::Comma,
            Token::Semicolon,
            Token::Eof,
        ]
    )
}

#[test]
fn mod_extended_test() {
    let mut lexer = Lexer::init(
        "let five = 5; \n\
        let ten = 10; \n\
        \n\
        let add = fn(x, y) { \n\
          x + y; \n\
        }; \n\
        \n\
        let result = add(five, ten); \n\
        !-/*5; \n\
        5 < 10 > 5; \n\
        \n\
        if (5 < 10) { \n\
        	return true; \n\
        } else { \n\
        	return false; \n\
        } \n\
        \n\
        10 == 10; \n\
        10 != 9; \n\
        \"foobar\" \n\
        \"foo bar\" \n\
        [1, 2]; \n\
        {\"foo\": \"bar\"}",
    );
    assert_eq!(
        lexer.get_all_tokens(),
        vec![
            Token::Let,
            Token::Ident(String::from("five")),
            Token::Assign,
            Token::Int(5),
            Token::Semicolon,
            Token::Let,
            Token::Ident(String::from("ten")),
            Token::Assign,
            Token::Int(10),
            Token::Semicolon,
            Token::Let,
            Token::Ident(String::from("add")),
            Token::Assign,
            Token::Function,
            Token::LParen,
            Token::Ident(String::from("x")),
            Token::Comma,
            Token::Ident(String::from("y")),
            Token::RParen,
            Token::LBrace,
            Token::Ident(String::from("x")),
            Token::Plus,
            Token::Ident(String::from("y")),
            Token::Semicolon,
            Token::RBrace,
            Token::Semicolon,
            Token::Let,
            Token::Ident(String::from("result")),
            Token::Assign,
            Token::Ident(String::from("add")),
            Token::LParen,
            Token::Ident(String::from("five")),
            Token::Comma,
            Token::Ident(String::from("ten")),
            Token::RParen,
            Token::Semicolon,
            Token::Bang,
            Token::Minus,
            Token::Slash,
            Token::Asterisk,
            Token::Int(5),
            Token::Semicolon,
            Token::Int(5),
            Token::Lt,
            Token::Int(10),
            Token::Gt,
            Token::Int(5),
            Token::Semicolon,
            Token::If,
            Token::LParen,
            Token::Int(5),
            Token::Lt,
            Token::Int(10),
            Token::RParen,
            Token::LBrace,
            Token::Return,
            Token::True,
            Token::Semicolon,
            Token::RBrace,
            Token::Else,
            Token::LBrace,
            Token::Return,
            Token::False,
            Token::Semicolon,
            Token::RBrace,
            Token::Int(10),
            Token::Eq,
            Token::Int(10),
            Token::Semicolon,
            Token::Int(10),
            Token::NotEq,
            Token::Int(9),
            Token::Semicolon,
            Token::String(String::from("foobar")),
            Token::String(String::from("foo bar")),
            Token::LBracket,
            Token::Int(1),
            Token::Comma,
            Token::Int(2),
            Token::RBracket,
            Token::Semicolon,
            Token::LBrace,
            Token::String(String::from("foo")),
            Token::Colon,
            Token::String(String::from("bar")),
            Token::RBrace,
            Token::Eof
        ]
    )
}


#[test]
fn lexer_slow_base_input() {
    let mut lexer = Lexer::init("=+(){},;");
    assert_eq!(
        lexer.get_all_tokens(),
        vec![
            Token::Assign,
            Token::Plus,
            Token::LParen,
            Token::RParen,
            Token::LBrace,
            Token::RBrace,
            Token::Comma,
            Token::Semicolon,
            Token::Eof,
        ]
    )
}

#[test]
fn lexer_slow_extended_test() {
    let mut lexer = Lexer::init(
        "let five = 5; \n\
        let ten = 10; \n\
        \n\
        let add = fn(x, y) { \n\
          x + y; \n\
        }; \n\
        \n\
        let result = add(five, ten); \n\
        !-/*5; \n\
        5 < 10 > 5; \n\
        \n\
        if (5 < 10) { \n\
        	return true; \n\
        } else { \n\
        	return false; \n\
        } \n\
        \n\
        10 == 10; \n\
        10 != 9;",
    );
    assert_eq!(
        lexer.get_all_tokens(),
        vec![
            Token::Let,
            Token::Ident(String::from("five")),
            Token::Assign,
            Token::Int(5),
            Token::Semicolon,
            Token::Let,
            Token::Ident(String::from("ten")),
            Token::Assign,
            Token::Int(10),
            Token::Semicolon,
            Token::Let,
            Token::Ident(String::from("add")),
            Token::Assign,
            Token::Function,
            Token::LParen,
            Token::Ident(String::from("x")),
            Token::Comma,
            Token::Ident(String::from("y")),
            Token::RParen,
            Token::LBrace,
            Token::Ident(String::from("x")),
            Token::Plus,
            Token::Ident(String::from("y")),
            Token::Semicolon,
            Token::RBrace,
            Token::Semicolon,
            Token::Let,
            Token::Ident(String::from("result")),
            Token::Assign,
            Token::Ident(String::from("add")),
            Token::LParen,
            Token::Ident(String::from("five")),
            Token::Comma,
            Token::Ident(String::from("ten")),
            Token::RParen,
            Token::Semicolon,
            Token::Bang,
            Token::Minus,
            Token::Slash,
            Token::Asterisk,
            Token::Int(5),
            Token::Semicolon,
            Token::Int(5),
            Token::Lt,
            Token::Int(10),
            Token::Gt,
            Token::Int(5),
            Token::Semicolon,
            Token::If,
            Token::LParen,
            Token::Int(5),
            Token::Lt,
            Token::Int(10),
            Token::RParen,
            Token::LBrace,
            Token::Return,
            Token::True,
            Token::Semicolon,
            Token::RBrace,
            Token::Else,
            Token::LBrace,
            Token::Return,
            Token::False,
            Token::Semicolon,
            Token::RBrace,
            Token::Int(10),
            Token::Eq,
            Token::Int(10),
            Token::Semicolon,
            Token::Int(10),
            Token::NotEq,
            Token::Int(9),
            Token::Semicolon,
            Token::Eof
        ]
    )
}

#[test]
fn perf_test() {
    let input = "let five = 5; \n\
        let ten = 10; \n\
        \n\
        let add = fn(x, y) { \n\
          x + y; \n\
        }; \n\
        \n\
        let result = add(five, ten); \n\
        !-/*5; \n\
        5 < 10 > 5; \n\
        \n\
        if (5 < 10) { \n\
        	return true; \n\
        } else { \n\
        	return false; \n\
        } \n\
        \n\
        10 == 10; \n\
        10 != 9;"
        .repeat(100);
    let mut lexer = Lexer::init(input.as_str());

    let tokens = lexer.get_all_tokens();
    assert_eq!(tokens.len(), 73 * 100 + 1);
}
