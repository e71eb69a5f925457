use monkey_rs::ast;
use monkey_rs::lexer::Lexer;
use monkey_rs::parser::Parser;
use monkey_rs::token::Token;

#[test]
fn initialization() {
    let input = r#"
let x = 5;
        "#;

    let parser = Parser::new(Lexer::new(input));

    assert_eq!(parser.curr_token, Token::Let);
    assert_eq!(parser.peek_token, Token::Ident(String::from("x")));
}

#[test]
fn parse_let_statement() {
    let input = "let x = 5;";

    let mut parser = Parser::new(Lexer::new(input));
    let statement = parser.parse_let_statement();

    assert_eq!(0, parser.get_errors().len());
    assert_eq!(
        statement,
        Some(ast::Statement::Let(
            ast::Ident(String::from("x")),
            ast::Expr::Literal(ast::Literal::Int(5))
        ))
    )
}

#[test]
fn let_statements() {
    let input = r#"
let x = 5;
let y = 10;
let foobar = 838383;"#;

    let mut parser = Parser::new(Lexer::new(input));
    let program = parser.parse_program();

    assert_eq!(0, parser.get_errors().len());
    assert_eq!(
        vec![
            ast::Statement::Let(
                ast::Ident(String::from("x")),
                ast::Expr::Literal(ast::Literal::Int(5)),
            ),
            ast::Statement::Let(
                ast::Ident(String::from("y")),
                ast::Expr::Literal(ast::Literal::Int(10)),
            ),
            ast::Statement::Let(
                ast::Ident(String::from("foobar")),
                ast::Expr::Literal(ast::Literal::Int(838383)),
            ),
        ],
        program
    );
}

#[test]
fn let_statement_with_errors() {
    let input = r#"
let x 5;
let = 10;
let 838383;"#;

    let mut parser = Parser::new(Lexer::new(input));
    let program = parser.parse_program();
    assert_eq!(3, parser.get_errors().len());
}
