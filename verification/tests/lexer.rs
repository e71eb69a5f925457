use monkey_rs::lexer::Lexer;
use monkey_rs::token::Token;

#[test]
fn lexer_basic_symbols() {
    let input = "
        =+(){},;
        ";
    let mut lexer = Lexer::new(input);
    let expected_tokens = vec![
        Token::Assign,
        Token::Plus,
        Token::Lparen,
        Token::Rparen,
        Token::Lbrace,
        Token::Rbrace,
        Token::Comma,
        Token::Semicolon,
        Token::Eof,
    ];

    for expected in expected_tokens {
        let actual = lexer.next();
        assert_eq!(expected, actual);
    }
}

#[test]
fn lexer_variables() {
    let input = "
        let five = 5;
        let ten = 10;
        ";
    let mut lexer = Lexer::new(input);
    let expected_tokens = vec![
        Token::Let,
        Token::Ident("five".to_string()),
        Token::Assign,
        Token::Int(5),
        Token::Semicolon,
        Token::Let,
        Token::Ident("ten".to_string()),
        Token::Assign,
        Token::Int(10),
        Token::Semicolon,
        Token::Eof,
    ];

    for expected in expected_tokens {
        let actual = lexer.next();
        assert_eq!(expected, actual);
    }
}

#[test]
fn lexer_functions() {
    let input = "
        let five = 5;
        let ten = 10;
        let add = fn(x, y) {
            x + y;
        };
        let result = add(five, ten);
        ";
    let mut lexer = Lexer::new(input);
    let expected_tokens = vec![
        Token::Let,
        Token::Ident("five".to_string()),
        Token::Assign,
        Token::Int(5),
        Token::Semicolon,
        Token::Let,
        Token::Ident("ten".to_string()),
        Token::Assign,
        Token::Int(10),
        Token::Semicolon,
        Token::Let,
        Token::Ident("add".to_string()),
        Token::Assign,
        Token::Func,
        Token::Lparen,
        Token::Ident("x".to_string()),
        Token::Comma,
        Token::Ident("y".to_string()),
        Token::Rparen,
        Token::Lbrace,
        Token::Ident("x".to_string()),
        Token::Plus,
        Token::Ident("y".to_string()),
        Token::Semicolon,
        Token::Rbrace,
        Token::Semicolon,
        Token::Let,
        Token::Ident("result".to_string()),
        Token::Assign,
        Token::Ident("add".to_string()),
        Token::Lparen,
        Token::Ident("five".to_string()),
        Token::Comma,
        Token::Ident("ten".to_string()),
        Token::Rparen,
        Token::Semicolon,
        Token::Eof,
    ];

    for expected in expected_tokens {
        let actual = lexer.next();
        assert_eq!(expected, actual);
    }
}

#[test]
fn lexer_more_symbols() {
    let input = "
        !-/*5;
        5 < 10 > 5;
        ";
    let mut lexer = Lexer::new(input);
    let expected_tokens = vec![
        Token::Bang,
        Token::Minus,
        Token::Slash,
        Token::Asterisk,
        Token::Int(5),
        Token::Semicolon,
        Token::Int(5),
        Token::Lt,
        Token::Int(10),
        Token::Gt,
        Token::Int(5),
        Token::Semicolon,
        Token::Eof,
    ];

    for expected in expected_tokens {
        let actual = lexer.next();
        assert_eq!(expected, actual);
    }
}

#[test]
fn lexer_if_else_statements() {
    let input = "
        if (5 < 10) {
            return true;
        } else {
            return false;
        }
        ";
    let mut lexer = Lexer::new(input);
    let expected_tokens = vec![
        Token::If,
        Token::Lparen,
        Token::Int(5),
        Token::Lt,
        Token::Int(10),
        Token::Rparen,
        Token::Lbrace,
        Token::Return,
        Token::True,
        Token::Semicolon,
        Token::Rbrace,
        Token::Else,
        Token::Lbrace,
        Token::Return,
        Token::False,
        Token::Semicolon,
        Token::Rbrace,
        Token::Eof,
    ];

    for expected in expected_tokens {
        let actual = lexer.next();
        assert_eq!(expected, actual);
    }
}

#[test]
fn equal_not_equal() {
    let input = "
        10 == 10;
        10 != 9;
        ";
    let mut lexer = Lexer::new(input);
    let expected_tokens = vec![
        Token::Int(10),
        Token::Eq,
        Token::Int(10),
        Token::Semicolon,
        Token::Int(10),
        Token::NotEq,
        Token::Int(9),
        Token::Semicolon,
        Token::Eof,
    ];

    for expected in expected_tokens {
        let actual = lexer.next();
        assert_eq!(expected, actual);
    }
}
