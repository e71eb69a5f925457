use monkey_rs::lexer::Lexer;
use monkey_rs::token::Token;

fn all_tokens(input: &str) -> Vec<Token> {
    let mut lexer = Lexer::new(input);
    let mut tokens = Vec::new();
    loop {
        let token = lexer.next();
        if token == Token::Eof {
            return tokens;
        }
        tokens.push(token);
    }
}

fn name(text: &str) -> Token {
    Token::Ident(text.to_string())
}

#[test]
fn plain_symbols_give_one_token_each() {
    let mut lexer = Lexer::new("=+(){},;");
    assert_eq!(lexer.next(), Token::Assign);
    assert_eq!(lexer.next(), Token::Plus);
    assert_eq!(lexer.next(), Token::Lparen);
    assert_eq!(lexer.next(), Token::Rparen);
    assert_eq!(lexer.next(), Token::Lbrace);
    assert_eq!(lexer.next(), Token::Rbrace);
    assert_eq!(lexer.next(), Token::Comma);
    assert_eq!(lexer.next(), Token::Semicolon);
    assert_eq!(lexer.next(), Token::Eof);
}

#[test]
fn plain_symbols_in_any_order() {
    assert_eq!(
        all_tokens(";;=)(=,}{+=+"),
        vec![
            Token::Semicolon,
            Token::Semicolon,
            Token::Assign,
            Token::Rparen,
            Token::Lparen,
            Token::Assign,
            Token::Comma,
            Token::Rbrace,
            Token::Lbrace,
            Token::Plus,
            Token::Assign,
            Token::Plus,
        ]
    );
}

#[test]
fn two_equals_signs_are_one_token() {
    assert_eq!(all_tokens("=="), vec![Token::Eq]);
    assert_eq!(all_tokens("= ="), vec![Token::Assign, Token::Assign]);
    assert_eq!(all_tokens("==="), vec![Token::Eq, Token::Assign]);
    assert_eq!(all_tokens("===="), vec![Token::Eq, Token::Eq]);
}

#[test]
fn bang_with_and_without_equals_sign() {
    assert_eq!(all_tokens("!"), vec![Token::Bang]);
    assert_eq!(all_tokens("!="), vec![Token::NotEq]);
    assert_eq!(all_tokens("! ="), vec![Token::Bang, Token::Assign]);
    assert_eq!(all_tokens("!=="), vec![Token::NotEq, Token::Assign]);
    assert_eq!(all_tokens("!!="), vec![Token::Bang, Token::NotEq]);
}

#[test]
fn every_single_byte_operator() {
    assert_eq!(
        all_tokens("( ) { } , ; + - * / < >"),
        vec![
            Token::Lparen,
            Token::Rparen,
            Token::Lbrace,
            Token::Rbrace,
            Token::Comma,
            Token::Semicolon,
            Token::Plus,
            Token::Minus,
            Token::Asterisk,
            Token::Slash,
            Token::Lt,
            Token::Gt,
        ]
    );
}

#[test]
fn end_marker_repeats_on_empty_text() {
    let mut lexer = Lexer::new("");
    for _ in 0..5 {
        assert_eq!(lexer.next(), Token::Eof);
    }
}

#[test]
fn end_marker_repeats_after_the_last_token() {
    let mut lexer = Lexer::new("x \t\r\n");
    assert_eq!(lexer.next(), name("x"));
    for _ in 0..100 {
        assert_eq!(lexer.next(), Token::Eof);
    }
}

#[test]
fn white_space_alone_is_the_end() {
    let mut lexer = Lexer::new(" \t\n\r ");
    assert_eq!(lexer.next(), Token::Eof);
    assert_eq!(lexer.next(), Token::Eof);
}

#[test]
fn reserved_words_and_names() {
    assert_eq!(
        all_tokens("fn let if else true false return"),
        vec![
            Token::Func,
            Token::Let,
            Token::If,
            Token::Else,
            Token::True,
            Token::False,
            Token::Return,
        ]
    );
    assert_eq!(
        all_tokens("lets _x foo_bar Fn LET f returns"),
        vec![
            name("lets"),
            name("_x"),
            name("foo_bar"),
            name("Fn"),
            name("LET"),
            name("f"),
            name("returns"),
        ]
    );
}

#[test]
fn letters_and_digits_part() {
    assert_eq!(all_tokens("a1"), vec![name("a"), Token::Int(1)]);
    assert_eq!(all_tokens("1a"), vec![Token::Int(1), name("a")]);
    assert_eq!(all_tokens("x_1_y"), vec![name("x_"), Token::Int(1), name("_y")]);
}

#[test]
fn integer_values() {
    assert_eq!(all_tokens("0"), vec![Token::Int(0)]);
    assert_eq!(all_tokens("007"), vec![Token::Int(7)]);
    assert_eq!(all_tokens("838383"), vec![Token::Int(838383)]);
    assert_eq!(all_tokens("1234567890"), vec![Token::Int(1234567890)]);
    assert_eq!(all_tokens("0000000000000000000000000000012"), vec![Token::Int(12)]);
}

#[test]
fn largest_integer_is_read() {
    assert_eq!(all_tokens("9223372036854775807"), vec![Token::Int(i64::MAX)]);
    assert_eq!(all_tokens("09223372036854775807"), vec![Token::Int(i64::MAX)]);
}

#[test]
fn integer_too_large_is_illegal() {
    assert_eq!(all_tokens("9223372036854775808"), vec![Token::Illegal]);
    assert_eq!(all_tokens("9223372036854775810"), vec![Token::Illegal]);
    assert_eq!(all_tokens("92233720368547758070"), vec![Token::Illegal]);
    assert_eq!(
        all_tokens("let big = 99999999999999999999999999999999999999999999; x"),
        vec![
            Token::Let,
            name("big"),
            Token::Assign,
            Token::Illegal,
            Token::Semicolon,
            name("x"),
        ]
    );
}

#[test]
fn bytes_that_start_no_token() {
    assert_eq!(all_tokens("@"), vec![Token::Illegal]);
    assert_eq!(all_tokens("a # b"), vec![name("a"), Token::Illegal, name("b")]);
    assert_eq!(all_tokens("\"x\""), vec![Token::Illegal, name("x"), Token::Illegal]);
    assert_eq!(all_tokens("[]"), vec![Token::Illegal, Token::Illegal]);
}

#[test]
fn zero_byte_is_illegal_and_not_the_end() {
    let mut lexer = Lexer::new("a\0b");
    assert_eq!(lexer.next(), name("a"));
    assert_eq!(lexer.next(), Token::Illegal);
    assert_eq!(lexer.next(), name("b"));
    assert_eq!(lexer.next(), Token::Eof);
    assert_eq!(lexer.next(), Token::Eof);
}

#[test]
fn bytes_beyond_ascii_are_illegal_one_by_one() {
    assert_eq!(all_tokens("\u{e9}"), vec![Token::Illegal, Token::Illegal]);
    assert_eq!(
        all_tokens("a\u{e9}b"),
        vec![name("a"), Token::Illegal, Token::Illegal, name("b")]
    );
    assert_eq!(
        all_tokens("\u{1f600}=x"),
        vec![
            Token::Illegal,
            Token::Illegal,
            Token::Illegal,
            Token::Illegal,
            Token::Assign,
            name("x"),
        ]
    );
    assert_eq!(all_tokens("x\u{20ac}"), vec![name("x"), Token::Illegal, Token::Illegal, Token::Illegal]);
}

#[test]
fn same_text_gives_same_tokens() {
    let input = "let add = fn(x, y) { x + y; }; 5 != 10 @";
    assert_eq!(all_tokens(input), all_tokens(input));
}
