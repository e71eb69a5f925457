//! The tokens of the language.

use crate::numeral::{decimal_string, decimal_text};
use vstd::prelude::*;
use vstd::string::*;

verus! {

/// A lexical unit of the source text.
#[derive(Debug)]
pub enum Token {
    /// A byte that starts no token, or an integer literal too large for `i64`.
    Illegal,
    /// The end of the text.
    Eof,
    Ident(String),
    Int(i64),
    Assign,
    Plus,
    Minus,
    Asterisk,
    Slash,
    Comma,
    Semicolon,
    Bang,
    Eq,
    NotEq,
    Lt,
    Gt,
    Lparen,
    Rparen,
    Lbrace,
    Rbrace,
    Func,
    Let,
    If,
    Else,
    True,
    False,
    Return,
}

/// What a token stands for: its variant, with the name as a sequence of characters.
pub enum TokenView {
    Illegal,
    Eof,
    Ident(Seq<char>),
    Int(i64),
    Assign,
    Plus,
    Minus,
    Asterisk,
    Slash,
    Comma,
    Semicolon,
    Bang,
    Eq,
    NotEq,
    Lt,
    Gt,
    Lparen,
    Rparen,
    Lbrace,
    Rbrace,
    Func,
    Let,
    If,
    Else,
    True,
    False,
    Return,
}

impl View for Token {
    type V = TokenView;

    open spec fn view(&self) -> TokenView {
        match self {
            Token::Illegal => TokenView::Illegal,
            Token::Eof => TokenView::Eof,
            Token::Ident(name) => TokenView::Ident(name@),
            Token::Int(value) => TokenView::Int(*value),
            Token::Assign => TokenView::Assign,
            Token::Plus => TokenView::Plus,
            Token::Minus => TokenView::Minus,
            Token::Asterisk => TokenView::Asterisk,
            Token::Slash => TokenView::Slash,
            Token::Comma => TokenView::Comma,
            Token::Semicolon => TokenView::Semicolon,
            Token::Bang => TokenView::Bang,
            Token::Eq => TokenView::Eq,
            Token::NotEq => TokenView::NotEq,
            Token::Lt => TokenView::Lt,
            Token::Gt => TokenView::Gt,
            Token::Lparen => TokenView::Lparen,
            Token::Rparen => TokenView::Rparen,
            Token::Lbrace => TokenView::Lbrace,
            Token::Rbrace => TokenView::Rbrace,
            Token::Func => TokenView::Func,
            Token::Let => TokenView::Let,
            Token::If => TokenView::If,
            Token::Else => TokenView::Else,
            Token::True => TokenView::True,
            Token::False => TokenView::False,
            Token::Return => TokenView::Return,
        }
    }
}

impl Clone for Token {
    fn clone(&self) -> (copy: Self)
        ensures
            copy@ == self@,
    {
        match self {
            Token::Illegal => Token::Illegal,
            Token::Eof => Token::Eof,
            Token::Ident(name) => Token::Ident(name.clone()),
            Token::Int(value) => Token::Int(*value),
            Token::Assign => Token::Assign,
            Token::Plus => Token::Plus,
            Token::Minus => Token::Minus,
            Token::Asterisk => Token::Asterisk,
            Token::Slash => Token::Slash,
            Token::Comma => Token::Comma,
            Token::Semicolon => Token::Semicolon,
            Token::Bang => Token::Bang,
            Token::Eq => Token::Eq,
            Token::NotEq => Token::NotEq,
            Token::Lt => Token::Lt,
            Token::Gt => Token::Gt,
            Token::Lparen => Token::Lparen,
            Token::Rparen => Token::Rparen,
            Token::Lbrace => Token::Lbrace,
            Token::Rbrace => Token::Rbrace,
            Token::Func => Token::Func,
            Token::Let => Token::Let,
            Token::If => Token::If,
            Token::Else => Token::Else,
            Token::True => Token::True,
            Token::False => Token::False,
            Token::Return => Token::Return,
        }
    }
}

impl PartialEq for Token {
    fn eq(&self, other: &Token) -> (same: bool) {
        match (self, other) {
            (Token::Ident(a), Token::Ident(b)) => *a == *b,
            (Token::Int(a), Token::Int(b)) => *a == *b,
            (Token::Illegal, Token::Illegal) => true,
            (Token::Eof, Token::Eof) => true,
            (Token::Assign, Token::Assign) => true,
            (Token::Plus, Token::Plus) => true,
            (Token::Minus, Token::Minus) => true,
            (Token::Asterisk, Token::Asterisk) => true,
            (Token::Slash, Token::Slash) => true,
            (Token::Comma, Token::Comma) => true,
            (Token::Semicolon, Token::Semicolon) => true,
            (Token::Bang, Token::Bang) => true,
            (Token::Eq, Token::Eq) => true,
            (Token::NotEq, Token::NotEq) => true,
            (Token::Lt, Token::Lt) => true,
            (Token::Gt, Token::Gt) => true,
            (Token::Lparen, Token::Lparen) => true,
            (Token::Rparen, Token::Rparen) => true,
            (Token::Lbrace, Token::Lbrace) => true,
            (Token::Rbrace, Token::Rbrace) => true,
            (Token::Func, Token::Func) => true,
            (Token::Let, Token::Let) => true,
            (Token::If, Token::If) => true,
            (Token::Else, Token::Else) => true,
            (Token::True, Token::True) => true,
            (Token::False, Token::False) => true,
            (Token::Return, Token::Return) => true,
            _ => false,
        }
    }
}

impl vstd::std_specs::cmp::PartialEqSpecImpl for Token {
    open spec fn obeys_eq_spec() -> bool {
        true
    }

    open spec fn eq_spec(&self, other: &Token) -> bool {
        self@ == other@
    }
}

impl TokenView {
    /// The token in words, for messages: the name of its kind, and for a name or a number
    /// what it carries, in brackets.
    pub open spec fn describe(self) -> Seq<char> {
        match self {
            TokenView::Ident(name) => "Ident(\""@ + name + "\")"@,
            TokenView::Int(value) => "Int("@ + decimal_text(value as int) + ")"@,
            TokenView::Illegal => "Illegal"@,
            TokenView::Eof => "Eof"@,
            TokenView::Assign => "Assign"@,
            TokenView::Plus => "Plus"@,
            TokenView::Minus => "Minus"@,
            TokenView::Asterisk => "Asterisk"@,
            TokenView::Slash => "Slash"@,
            TokenView::Comma => "Comma"@,
            TokenView::Semicolon => "Semicolon"@,
            TokenView::Bang => "Bang"@,
            TokenView::Eq => "Eq"@,
            TokenView::NotEq => "NotEq"@,
            TokenView::Lt => "Lt"@,
            TokenView::Gt => "Gt"@,
            TokenView::Lparen => "Lparen"@,
            TokenView::Rparen => "Rparen"@,
            TokenView::Lbrace => "Lbrace"@,
            TokenView::Rbrace => "Rbrace"@,
            TokenView::Func => "Func"@,
            TokenView::Let => "Let"@,
            TokenView::If => "If"@,
            TokenView::Else => "Else"@,
            TokenView::True => "True"@,
            TokenView::False => "False"@,
            TokenView::Return => "Return"@,
        }
    }
}

impl Token {
    /// The token in words, for messages.
    pub fn describe(&self) -> (text: String)
        ensures
            text@ == self@.describe(),
    {
        match self {
            Token::Ident(name) => {
                let mut text = "Ident(\"".to_owned();
                text.append(name.as_str());
                text.append("\")");
                text
            },
            Token::Int(value) => {
                let mut text = "Int(".to_owned();
                text.append(decimal_string(*value).as_str());
                text.append(")");
                text
            },
            Token::Illegal => "Illegal".to_owned(),
            Token::Eof => "Eof".to_owned(),
            Token::Assign => "Assign".to_owned(),
            Token::Plus => "Plus".to_owned(),
            Token::Minus => "Minus".to_owned(),
            Token::Asterisk => "Asterisk".to_owned(),
            Token::Slash => "Slash".to_owned(),
            Token::Comma => "Comma".to_owned(),
            Token::Semicolon => "Semicolon".to_owned(),
            Token::Bang => "Bang".to_owned(),
            Token::Eq => "Eq".to_owned(),
            Token::NotEq => "NotEq".to_owned(),
            Token::Lt => "Lt".to_owned(),
            Token::Gt => "Gt".to_owned(),
            Token::Lparen => "Lparen".to_owned(),
            Token::Rparen => "Rparen".to_owned(),
            Token::Lbrace => "Lbrace".to_owned(),
            Token::Rbrace => "Rbrace".to_owned(),
            Token::Func => "Func".to_owned(),
            Token::Let => "Let".to_owned(),
            Token::If => "If".to_owned(),
            Token::Else => "Else".to_owned(),
            Token::True => "True".to_owned(),
            Token::False => "False".to_owned(),
            Token::Return => "Return".to_owned(),
        }
    }
}

} // verus!
