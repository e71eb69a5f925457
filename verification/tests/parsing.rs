use monkey_rs::ast::{Expr, Ident, Literal, Program, Statement};
use monkey_rs::lexer::Lexer;
use monkey_rs::parser::{ParseErrorKind, Parser};
use monkey_rs::token::Token;

fn let_int(name: &str, value: i64) -> Statement {
    Statement::Let(Ident(name.to_string()), Expr::Literal(Literal::Int(value)))
}

fn let_name(name: &str, value: &str) -> Statement {
    Statement::Let(Ident(name.to_string()), Expr::Ident(Ident(value.to_string())))
}

fn parse(input: &str) -> (Program, Vec<String>) {
    let mut parser = Parser::new(Lexer::new(input));
    let program = parser.parse_program();
    let mut messages = Vec::new();
    for error in parser.get_errors() {
        messages.push(error.message().to_string());
    }
    assert_eq!(parser.curr_token, Token::Eof);
    assert_eq!(parser.peek_token, Token::Eof);
    (program, messages)
}

#[test]
fn three_let_statements() {
    let (program, errors) = parse("let x = 5;\nlet y = 10;\nlet foobar = 838383;");
    assert_eq!(
        program,
        vec![let_int("x", 5), let_int("y", 10), let_int("foobar", 838383)]
    );
    assert_eq!(errors.len(), 0);
}

#[test]
fn three_malformed_let_statements() {
    let (program, errors) = parse("let x 5;\nlet = 10;\nlet 838383;");
    assert_eq!(program, vec![]);
    assert_eq!(
        errors,
        vec![
            "expected next token to be Assign, got Int(5) instead".to_string(),
            "expected identifier, got Assign".to_string(),
            "expected identifier, got Int(838383)".to_string(),
        ]
    );
}

#[test]
fn empty_text_is_an_empty_program() {
    let (program, errors) = parse("");
    assert_eq!(program, vec![]);
    assert_eq!(errors.len(), 0);
    let (program, errors) = parse("  \n\t ");
    assert_eq!(program, vec![]);
    assert_eq!(errors.len(), 0);
}

#[test]
fn let_binds_a_name_to_a_name() {
    let (program, errors) = parse("let x = y;");
    assert_eq!(program, vec![let_name("x", "y")]);
    assert_eq!(errors.len(), 0);
}

#[test]
fn missing_semicolon_is_tolerated() {
    let (program, errors) = parse("let x = 5");
    assert_eq!(program, vec![let_int("x", 5)]);
    assert_eq!(errors.len(), 0);
    let (program, errors) = parse("let x = 5 let y = 6");
    assert_eq!(program, vec![let_int("x", 5), let_int("y", 6)]);
    assert_eq!(errors.len(), 0);
}

#[test]
fn malformed_statement_does_not_hide_the_next() {
    let (program, errors) = parse("let x 5; let y = 10;");
    assert_eq!(program, vec![let_int("y", 10)]);
    assert_eq!(
        errors,
        vec!["expected next token to be Assign, got Int(5) instead".to_string()]
    );
}

#[test]
fn recovery_goes_to_the_next_semicolon() {
    let (program, errors) = parse("let x 5 let y = 10; let z = 1;");
    assert_eq!(program, vec![let_int("z", 1)]);
    assert_eq!(
        errors,
        vec!["expected next token to be Assign, got Int(5) instead".to_string()]
    );
}

#[test]
fn statement_other_than_let_is_an_error() {
    let (program, errors) = parse("5;");
    assert_eq!(program, vec![]);
    assert_eq!(errors, vec!["no statement starts with Int(5)".to_string()]);
    let (program, errors) = parse("return 5; let a = 1; x + y;");
    assert_eq!(program, vec![let_int("a", 1)]);
    assert_eq!(
        errors,
        vec![
            "no statement starts with Return".to_string(),
            "no statement starts with Ident(\"x\")".to_string(),
        ]
    );
}

#[test]
fn lone_semicolons_are_errors_one_each() {
    let (program, errors) = parse(";;");
    assert_eq!(program, vec![]);
    assert_eq!(
        errors,
        vec![
            "no statement starts with Semicolon".to_string(),
            "no statement starts with Semicolon".to_string(),
        ]
    );
}

#[test]
fn expression_other_than_name_or_integer_is_an_error() {
    let (program, errors) = parse("let x = ;");
    assert_eq!(program, vec![]);
    assert_eq!(errors, vec!["no expression starts with Semicolon".to_string()]);
    let (program, errors) = parse("let x = fn; let y = 2;");
    assert_eq!(program, vec![let_int("y", 2)]);
    assert_eq!(errors, vec!["no expression starts with Func".to_string()]);
    let (program, errors) = parse("let x =");
    assert_eq!(program, vec![]);
    assert_eq!(errors, vec!["no expression starts with Eof".to_string()]);
}

#[test]
fn text_that_ends_early() {
    let (program, errors) = parse("let");
    assert_eq!(program, vec![]);
    assert_eq!(errors, vec!["expected identifier, got Eof".to_string()]);
    let (program, errors) = parse("let x");
    assert_eq!(program, vec![]);
    assert_eq!(
        errors,
        vec!["expected next token to be Assign, got Eof instead".to_string()]
    );
}

#[test]
fn integer_too_large_is_reported() {
    let (program, errors) = parse("let big = 9223372036854775808; let small = 1;");
    assert_eq!(program, vec![let_int("small", 1)]);
    assert_eq!(errors, vec!["no expression starts with Illegal".to_string()]);
    let (program, errors) = parse("let big = 9223372036854775807;");
    assert_eq!(program, vec![let_int("big", i64::MAX)]);
    assert_eq!(errors.len(), 0);
}

#[test]
fn operators_behind_the_value_are_a_new_statement() {
    let (program, errors) = parse("let x = 5 + 5; let y = 1;");
    assert_eq!(program, vec![let_int("x", 5), let_int("y", 1)]);
    assert_eq!(errors, vec!["no statement starts with Plus".to_string()]);
}

#[test]
fn same_text_parses_the_same_twice() {
    let input = "let x = 5;\nlet = 10;\nlet y = x\n7 let z 3; let w = 9223372036854775808;";
    let (first_program, first_errors) = parse(input);
    let (second_program, second_errors) = parse(input);
    assert_eq!(first_program, second_program);
    assert_eq!(first_errors, second_errors);
    assert_eq!(first_program, vec![let_int("x", 5), let_name("y", "x")]);
    assert_eq!(
        first_errors,
        vec![
            "expected identifier, got Assign".to_string(),
            "no statement starts with Int(7)".to_string(),
            "no expression starts with Illegal".to_string(),
        ]
    );
}

#[test]
fn errors_are_kept_in_source_order_and_never_cleared() {
    let mut parser = Parser::new(Lexer::new("let 1; let 2;"));
    assert_eq!(parser.get_errors().len(), 0);
    assert_eq!(parser.parse_statement(), None);
    assert_eq!(parser.get_errors().len(), 1);
    assert_eq!(parser.curr_token, Token::Let);
    let program = parser.parse_program();
    assert_eq!(program, vec![]);
    let errors = parser.get_errors();
    assert_eq!(errors.len(), 3);
    assert_eq!(errors[0].message(), "expected identifier, got Int(1)");
    assert_eq!(errors[1].message(), "expected identifier, got Int(1)");
    assert_eq!(errors[2].message(), "expected identifier, got Int(2)");
    assert_eq!(parser.get_errors().len(), 3);
    assert_eq!(parser.parse_program(), vec![]);
    assert_eq!(parser.get_errors().len(), 3);
}

#[test]
fn error_in_words() {
    let mut parser = Parser::new(Lexer::new("let x 5;"));
    parser.parse_program();
    let errors = parser.get_errors();
    assert_eq!(errors.len(), 1);
    assert_eq!(errors[0].kind(), ParseErrorKind::UnexpectedToken);
    assert_eq!(errors[0].kind().describe(), "Unexpected Token");
    assert_eq!(
        errors[0].describe(),
        "Unexpected Token: expected next token to be Assign, got Int(5) instead"
    );
    let copy = errors[0].clone();
    assert_eq!(copy.describe(), errors[0].describe());
}

#[test]
fn window_holds_the_first_two_tokens() {
    let parser = Parser::new(Lexer::new("let"));
    assert_eq!(parser.curr_token, Token::Let);
    assert_eq!(parser.peek_token, Token::Eof);
    let parser = Parser::new(Lexer::new(""));
    assert_eq!(parser.curr_token, Token::Eof);
    assert_eq!(parser.peek_token, Token::Eof);
    assert_eq!(parser.errors.len(), 0);
}

#[test]
fn next_token_shifts_the_window() {
    let mut parser = Parser::new(Lexer::new("a = 1"));
    assert!(parser.curr_token_is(Token::Ident("a".to_string())));
    assert!(!parser.curr_token_is(Token::Ident("b".to_string())));
    assert!(parser.peek_token_is(&Token::Assign));
    assert!(!parser.peek_token_is(&Token::Eq));
    parser.next_token();
    assert_eq!(parser.curr_token, Token::Assign);
    assert_eq!(parser.peek_token, Token::Int(1));
    parser.next_token();
    assert_eq!(parser.curr_token, Token::Int(1));
    assert_eq!(parser.peek_token, Token::Eof);
    parser.next_token();
    assert_eq!(parser.curr_token, Token::Eof);
    assert_eq!(parser.peek_token, Token::Eof);
    parser.next_token();
    assert_eq!(parser.curr_token, Token::Eof);
    assert_eq!(parser.peek_token, Token::Eof);
}

#[test]
fn expect_peek_token_moves_only_on_a_match() {
    let mut parser = Parser::new(Lexer::new("x = 1"));
    assert!(!parser.expect_peek_token(Token::Semicolon));
    assert_eq!(parser.curr_token, Token::Ident("x".to_string()));
    assert_eq!(parser.peek_token, Token::Assign);
    let errors = parser.get_errors();
    assert_eq!(errors.len(), 1);
    assert_eq!(
        errors[0].message(),
        "expected next token to be Semicolon, got Assign instead"
    );
    assert!(parser.expect_peek_token(Token::Assign));
    assert_eq!(parser.curr_token, Token::Assign);
    assert_eq!(parser.peek_token, Token::Int(1));
    assert_eq!(parser.get_errors().len(), 1);
}

#[test]
fn parse_expression_reads_the_current_token() {
    let mut parser = Parser::new(Lexer::new("x 7 ("));
    assert_eq!(
        parser.parse_expression(),
        Some(Expr::Ident(Ident("x".to_string())))
    );
    assert_eq!(
        parser.parse_ident_expression(),
        Some(Expr::Ident(Ident("x".to_string())))
    );
    assert_eq!(parser.parse_ident(), Some(Ident("x".to_string())));
    assert_eq!(parser.curr_token, Token::Ident("x".to_string()));
    parser.next_token();
    assert_eq!(parser.parse_expression(), Some(Expr::Literal(Literal::Int(7))));
    assert_eq!(parser.parse_ident_expression(), None);
    assert_eq!(parser.parse_ident(), None);
    assert_eq!(parser.get_errors().len(), 0);
    parser.next_token();
    assert_eq!(parser.parse_expression(), None);
    assert_eq!(parser.curr_token, Token::Lparen);
    let errors = parser.get_errors();
    assert_eq!(errors.len(), 1);
    assert_eq!(errors[0].message(), "no expression starts with Lparen");
}

#[test]
fn parse_statement_stops_on_the_last_token_of_the_statement() {
    let mut parser = Parser::new(Lexer::new("let x = 5; let y = 6 let"));
    assert_eq!(parser.parse_statement(), Some(let_int("x", 5)));
    assert_eq!(parser.curr_token, Token::Semicolon);
    parser.next_token();
    assert_eq!(parser.parse_statement(), Some(let_int("y", 6)));
    assert_eq!(parser.curr_token, Token::Int(6));
    assert_eq!(parser.peek_token, Token::Let);
    assert_eq!(parser.get_errors().len(), 0);
}

#[test]
fn failed_let_statement_stays_where_it_failed() {
    let mut parser = Parser::new(Lexer::new("let 5 = x;"));
    assert_eq!(parser.parse_let_statement(), None);
    assert_eq!(parser.curr_token, Token::Let);
    assert_eq!(parser.peek_token, Token::Int(5));

    let mut parser = Parser::new(Lexer::new("let x 5;"));
    assert_eq!(parser.parse_let_statement(), None);
    assert_eq!(parser.curr_token, Token::Ident("x".to_string()));
    assert_eq!(parser.peek_token, Token::Int(5));

    let mut parser = Parser::new(Lexer::new("let x = +;"));
    assert_eq!(parser.parse_let_statement(), None);
    assert_eq!(parser.curr_token, Token::Plus);
    assert_eq!(parser.peek_token, Token::Semicolon);
}

#[test]
fn syntax_tree_copies_are_equal() {
    let statement = let_name("a", "b");
    assert_eq!(statement.clone(), statement);
    let other = Statement::Return(Expr::Literal(Literal::Int(3)));
    assert_eq!(other.clone(), other);
    let third = Statement::Expr(Expr::Ident(Ident("c".to_string())));
    assert_eq!(third.clone(), third);
    assert_ne!(statement, other);
}
