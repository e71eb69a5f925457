//! The parser: from the lexer's tokens to a program and a list of errors.

use crate::ast::{Expr, ExprView, Ident, Literal, Program, Statement, StatementView};
use crate::grammar::{
    drop_tokens, expression, lemma_drop_tokens_twice, lemma_next_semicolon_after_drop,
    lemma_next_semicolon_bounds, lemma_statement_end_bounds, lemma_token_after_drop,
    let_statement, next_semicolon, program, statement, statement_end, unexpected,
};
use crate::lexer::{lemma_tokens_unfold, lex, tokens, Lexer};
use crate::token::{Token, TokenView};
use vstd::prelude::*;
use vstd::string::*;

verus! {

/// The kinds of parse error.
#[derive(Debug, Clone, Copy, PartialEq, Eq, Structural)]
pub enum ParseErrorKind {
    UnexpectedToken,
}

impl ParseErrorKind {
    /// The kind in words.
    pub fn describe(&self) -> (text: String)
        ensures
            text@ == "Unexpected Token"@,
    {
        match self {
            ParseErrorKind::UnexpectedToken => "Unexpected Token".to_owned(),
        }
    }
}

/// What went wrong at one place of the source text.
#[derive(Debug)]
pub struct ParseError {
    kind: ParseErrorKind,
    msg: String,
}

/// What a parse error stands for: its kind and its message.
pub struct ParseErrorView {
    pub kind: ParseErrorKind,
    pub msg: Seq<char>,
}

impl View for ParseError {
    type V = ParseErrorView;

    closed spec fn view(&self) -> ParseErrorView {
        ParseErrorView { kind: self.kind, msg: self.msg@ }
    }
}

impl DeepView for ParseError {
    type V = ParseErrorView;

    open spec fn deep_view(&self) -> ParseErrorView {
        self@
    }
}

impl Clone for ParseError {
    fn clone(&self) -> (copy: Self)
        ensures
            copy@ == self@,
    {
        ParseError { kind: self.kind, msg: self.msg.clone() }
    }
}

impl ParseError {
    fn new(kind: ParseErrorKind, msg: String) -> (error: Self)
        ensures
            error@ == (ParseErrorView { kind, msg: msg@ }),
    {
        ParseError { kind, msg }
    }

    /// The kind of the error.
    pub fn kind(&self) -> (kind: ParseErrorKind)
        ensures
            kind == self@.kind,
    {
        self.kind
    }

    /// The message of the error.
    pub fn message(&self) -> (msg: &str)
        ensures
            msg@ == self@.msg,
    {
        self.msg.as_str()
    }

    /// The error in words: its kind, a colon, and its message.
    pub fn describe(&self) -> (text: String)
        ensures
            text@ == "Unexpected Token"@ + ": "@ + self@.msg,
    {
        let mut text = self.kind.describe();
        text.append(": ");
        text.append(self.msg.as_str());
        text
    }
}

pub type ParseErrors = Vec<ParseError>;

/// One more error at the end of a list is one more at the end of what the list stands for.
pub proof fn lemma_errors_push(before: ParseErrors, after: ParseErrors, error: ParseError)
    requires
        after@ == before@.push(error),
    ensures
        after.deep_view() == before.deep_view().push(error@),
{
    assert(after.deep_view() =~= before.deep_view().push(error@));
}

/// Whether a parsing step has answered as the grammar asks: with the value and no new
/// error, or with nothing and the one error at the end of the list.
pub open spec fn answers<T: View>(
    got: Option<T>,
    want: Result<T::V, ParseErrorView>,
    errors_before: Seq<ParseErrorView>,
    errors_after: Seq<ParseErrorView>,
) -> bool {
    match want {
        Ok(value) => got matches Some(parsed) && parsed@ == value && errors_after == errors_before,
        Err(error) => got is None && errors_after == errors_before.push(error),
    }
}

/// What parsing a text from its start yields: the statements and the errors.
pub open spec fn parse_outcome(text: Seq<u8>) -> (Seq<StatementView>, Seq<ParseErrorView>) {
    program(tokens(text, 0))
}

/// A lexer with the two tokens that were taken from it last, and the errors met so far.
pub struct Parser<'a> {
    pub lexer: Lexer<'a>,
    pub curr_token: Token,
    pub peek_token: Token,
    pub errors: ParseErrors,
}

impl<'a> Parser<'a> {
    /// The two tokens held are the two that precede what the lexer has left: behind the
    /// end marker comes nothing but the end marker.
    pub open spec fn wf(&self) -> bool {
        &&& self.lexer.wf()
        &&& (self.curr_token@ is Eof ==> self.peek_token@ is Eof)
        &&& (self.peek_token@ is Eof ==> self.lexer.remaining().len() == 0)
    }

    /// The tokens that are not consumed yet, the current one first, without the end marker.
    pub open spec fn remaining(&self) -> Seq<TokenView> {
        if self.curr_token@ is Eof {
            Seq::empty()
        } else if self.peek_token@ is Eof {
            seq![self.curr_token@]
        } else {
            seq![self.curr_token@, self.peek_token@] + self.lexer.remaining()
        }
    }

    /// Parsing is determined by the text: two parsers that stand at the start of the same
    /// text have the same tokens before them, so that `parse_program` returns the same
    /// statements from both and adds the same errors.
    pub proof fn lemma_same_text_same_outcome(&self, other: &Parser)
        requires
            self.wf(),
            other.wf(),
            self.lexer.text() == other.lexer.text(),
            self.remaining() == tokens(self.lexer.text(), 0),
            other.remaining() == tokens(other.lexer.text(), 0),
        ensures
            self.remaining() == other.remaining(),
            program(self.remaining()) == parse_outcome(self.lexer.text()),
            program(other.remaining()) == program(self.remaining()),
    {
    }

    /// A parser at the start of the lexer's tokens, with no errors.
    pub fn new(lexer: Lexer<'a>) -> (parser: Self)
        requires
            lexer.wf(),
        ensures
            parser.wf(),
            parser.remaining() == lexer.remaining(),
            parser.lexer.text() == lexer.text(),
            parser.errors@.len() == 0,
    {
        let mut parser = Parser {
            lexer,
            curr_token: Token::Eof,
            peek_token: Token::Eof,
            errors: Vec::new(),
        };
        parser.next_token();
        parser.next_token();
        parser
    }

    /// The errors met so far, in the order in which they were met.
    pub fn get_errors(&mut self) -> (errors: ParseErrors)
        ensures
            *final(self) == *old(self),
            errors.deep_view() == old(self).errors.deep_view(),
    {
        let mut errors: ParseErrors = Vec::new();
        let mut i: usize = 0;
        while i < self.errors.len()
            invariant
                *self == *old(self),
                i <= self.errors.len(),
                errors.len() == i,
                forall|k: int| 0 <= k < i ==> errors[k]@ == self.errors[k]@,
            decreases self.errors.len() - i,
        {
            errors.push(self.errors[i].clone());
            i += 1;
        }
        assert(errors.deep_view() =~= self.errors.deep_view());
        errors
    }

    /// Moves on by one token: the token ahead becomes the current one, and the lexer
    /// hands out the new token ahead.
    pub fn next_token(&mut self)
        requires
            old(self).lexer.wf(),
        ensures
            final(self).lexer.wf(),
            final(self).lexer.text() == old(self).lexer.text(),
            final(self).curr_token@ == old(self).peek_token@,
            final(self).peek_token@ == lex(old(self).lexer.text(), old(self).lexer.offset()).0,
            final(self).lexer.offset() == lex(old(self).lexer.text(), old(self).lexer.offset()).1,
            final(self).lexer.remaining() == if final(self).peek_token@ is Eof {
                Seq::empty()
            } else {
                old(self).lexer.remaining().drop_first()
            },
            final(self).errors == old(self).errors,
            old(self).wf() ==> final(self).wf() && final(self).remaining() == drop_tokens(
                old(self).remaining(),
                1,
            ),
    {
        proof {
            self.lexer.lemma_offset_in_text();
            lemma_tokens_unfold(self.lexer.text(), self.lexer.offset());
        }
        self.curr_token = self.peek_token.clone();
        self.peek_token = self.lexer.next();
        proof {
            self.lexer.lemma_offset_in_text();
            lemma_tokens_unfold(self.lexer.text(), self.lexer.offset());
            if old(self).wf() {
                assert(self.remaining() =~= drop_tokens(old(self).remaining(), 1));
            }
            if !(self.peek_token@ is Eof) {
                assert(self.lexer.remaining() =~= old(self).lexer.remaining().drop_first());
            }
        }
    }

    /// Whether the current token is `tok`.
    pub fn curr_token_is(&mut self, tok: Token) -> (same: bool)
        ensures
            *final(self) == *old(self),
            same == (old(self).curr_token@ == tok@),
    {
        self.curr_token == tok
    }

    /// Whether the token ahead is `tok`.
    pub fn peek_token_is(&mut self, tok: &Token) -> (same: bool)
        ensures
            *final(self) == *old(self),
            same == (old(self).peek_token@ == tok@),
    {
        self.peek_token == *tok
    }

    /// Moves on to the token ahead where it is `tok`; where it is not, stays and records
    /// that `tok` was expected.
    pub fn expect_peek_token(&mut self, tok: Token) -> (found: bool)
        requires
            old(self).wf(),
        ensures
            final(self).wf(),
            final(self).lexer.text() == old(self).lexer.text(),
            found == (old(self).peek_token@ == tok@),
            final(self).remaining() == if found {
                drop_tokens(old(self).remaining(), 1)
            } else {
                old(self).remaining()
            },
            final(self).errors.deep_view() == if found {
                old(self).errors.deep_view()
            } else {
                old(self).errors.deep_view().push(unexpected(tok@, old(self).peek_token@))
            },
    {
        if self.peek_token_is(&tok) {
            self.next_token();
            return true;
        } else {
            self.error_next_token(tok);
            return false;
        }
    }

    /// Puts an error with the message `msg` at the end of the list.
    fn record(&mut self, msg: String)
        ensures
            final(self).lexer == old(self).lexer,
            final(self).curr_token == old(self).curr_token,
            final(self).peek_token == old(self).peek_token,
            final(self).errors.deep_view() == old(self).errors.deep_view().push(
                ParseErrorView { kind: ParseErrorKind::UnexpectedToken, msg: msg@ },
            ),
    {
        let error = ParseError::new(ParseErrorKind::UnexpectedToken, msg);
        self.errors.push(error);
        proof {
            lemma_errors_push(old(self).errors, self.errors, error);
        }
    }

    /// Records that `tok` was expected where the token ahead stands.
    fn error_next_token(&mut self, tok: Token)
        ensures
            final(self).lexer == old(self).lexer,
            final(self).curr_token == old(self).curr_token,
            final(self).peek_token == old(self).peek_token,
            final(self).errors.deep_view() == old(self).errors.deep_view().push(
                unexpected(tok@, old(self).peek_token@),
            ),
    {
        let mut msg = "expected next token to be ".to_owned();
        msg.append(tok.describe().as_str());
        msg.append(", got ");
        msg.append(self.peek_token.describe().as_str());
        msg.append(" instead");
        self.record(msg);
    }

    /// Records an error whose message is `lead` and then `found` in words.
    fn error_at(&mut self, lead: &str, found: &Token)
        ensures
            final(self).lexer == old(self).lexer,
            final(self).curr_token == old(self).curr_token,
            final(self).peek_token == old(self).peek_token,
            final(self).errors.deep_view() == old(self).errors.deep_view().push(
                ParseErrorView {
                    kind: ParseErrorKind::UnexpectedToken,
                    msg: lead@ + found@.describe(),
                },
            ),
    {
        let mut msg = lead.to_owned();
        msg.append(found.describe().as_str());
        self.record(msg);
    }

    /// Parses the whole text: every statement that can be read, in the order of the
    /// text, while every statement that cannot leaves one error in the list and is passed
    /// over up to its semicolon.
    pub fn parse_program(&mut self) -> (parsed: Program)
        requires
            old(self).wf(),
        ensures
            final(self).wf(),
            final(self).lexer.text() == old(self).lexer.text(),
            final(self).remaining().len() == 0,
            parsed.deep_view() == program(old(self).remaining()).0,
            final(self).errors.deep_view() == old(self).errors.deep_view() + program(
                old(self).remaining(),
            ).1,
    {
        let mut parsed: Program = Vec::new();
        let ghost whole = program(self.remaining());
        let ghost errors_at_start = self.errors.deep_view();
        assert(parsed.deep_view() =~= Seq::empty());
        while !self.curr_token_is(Token::Eof)
            invariant
                self.wf(),
                self.lexer.text() == old(self).lexer.text(),
                whole == program(old(self).remaining()),
                errors_at_start == old(self).errors.deep_view(),
                parsed.deep_view() + program(self.remaining()).0 == whole.0,
                self.errors.deep_view() + program(self.remaining()).1 == errors_at_start + whole.1,
            decreases self.remaining().len(),
        {
            let ghost before = self.remaining();
            let ghost errors_before = self.errors.deep_view();
            let ghost parsed_before = parsed.deep_view();
            proof {
                lemma_statement_end_bounds(before);
            }
            match self.parse_statement() {
                Some(statement) => {
                    parsed.push(statement);
                    assert(parsed.deep_view() =~= parsed_before.push(statement@));
                },
                None => {
                    self.skip_to_semicolon();
                    proof {
                        lemma_next_semicolon_after_drop(before, statement(before).1);
                        lemma_drop_tokens_twice(
                            before,
                            statement(before).1,
                            next_semicolon(before, statement(before).1) - statement(before).1,
                        );
                    }
                },
            }
            assert(self.remaining() == drop_tokens(before, statement_end(before)));
            self.next_token();
            proof {
                lemma_drop_tokens_twice(before, statement_end(before), 1);
                let rest = program(self.remaining());
                match statement(before).0 {
                    Ok(value) => {
                        assert(parsed.deep_view() + rest.0 =~= parsed_before + (seq![value]
                            + rest.0));
                    },
                    Err(error) => {
                        assert(self.errors.deep_view() + rest.1 =~= errors_before + (seq![error]
                            + rest.1));
                    },
                }
            }
        }
        parsed
    }

    /// Passes over tokens until the current one is a semicolon or the end marker.
    fn skip_to_semicolon(&mut self)
        requires
            old(self).wf(),
        ensures
            final(self).wf(),
            final(self).lexer.text() == old(self).lexer.text(),
            final(self).errors == old(self).errors,
            final(self).remaining() == drop_tokens(
                old(self).remaining(),
                next_semicolon(old(self).remaining(), 0),
            ),
    {
        proof {
            lemma_next_semicolon_bounds(self.remaining(), 0);
        }
        let ghost mut passed: int = 0;
        while !self.curr_token_is(Token::Semicolon) && !self.curr_token_is(Token::Eof)
            invariant
                self.wf(),
                self.lexer.text() == old(self).lexer.text(),
                self.errors == old(self).errors,
                0 <= passed <= next_semicolon(old(self).remaining(), 0),
                next_semicolon(old(self).remaining(), 0) <= old(self).remaining().len(),
                self.remaining() == drop_tokens(old(self).remaining(), passed),
                next_semicolon(old(self).remaining(), passed) == next_semicolon(
                    old(self).remaining(),
                    0,
                ),
            decreases self.remaining().len(),
        {
            proof {
                assert(self.remaining().len() > 0);
                assert(self.remaining()[0] == old(self).remaining()[passed]);
                lemma_drop_tokens_twice(old(self).remaining(), passed, 1);
                lemma_next_semicolon_bounds(old(self).remaining(), passed + 1);
                passed = passed + 1;
            }
            self.next_token();
        }
        proof {
            if passed < old(self).remaining().len() {
                assert(self.remaining()[0] == old(self).remaining()[passed]);
            }
        }
    }

    /// Parses the statement that the current token starts. Only `let` starts one; any
    /// other token is recorded as an error.
    pub fn parse_statement(&mut self) -> (parsed: Option<Statement>)
        requires
            old(self).wf(),
        ensures
            final(self).wf(),
            final(self).lexer.text() == old(self).lexer.text(),
            final(self).remaining() == drop_tokens(
                old(self).remaining(),
                statement(old(self).remaining()).1,
            ),
            answers(
                parsed,
                statement(old(self).remaining()).0,
                old(self).errors.deep_view(),
                final(self).errors.deep_view(),
            ),
    {
        match self.curr_token {
            Token::Let => self.parse_let_statement(),
            _ => {
                let found = self.curr_token.clone();
                self.error_at("no statement starts with ", &found);
                None
            },
        }
    }

    /// Parses a `let` statement whose `let` is the current token: a name, `=`, an
    /// expression, and a semicolon if one follows. On the first token that does not fit,
    /// one error is recorded and the parser stays where it is.
    pub fn parse_let_statement(&mut self) -> (parsed: Option<Statement>)
        requires
            old(self).wf(),
        ensures
            final(self).wf(),
            final(self).lexer.text() == old(self).lexer.text(),
            final(self).remaining() == drop_tokens(
                old(self).remaining(),
                let_statement(old(self).remaining()).1,
            ),
            answers(
                parsed,
                let_statement(old(self).remaining()).0,
                old(self).errors.deep_view(),
                final(self).errors.deep_view(),
            ),
    {
        let ghost before = self.remaining();
        match &self.peek_token {
            Token::Ident(_) => self.next_token(),
            _ => {
                let found = self.peek_token.clone();
                self.error_at("expected identifier, got ", &found);
                return None;
            },
        };

        let name = match self.parse_ident() {
            Some(name) => name,
            None => return None,
        };

        if !self.expect_peek_token(Token::Assign) {
            return None;
        }
        proof {
            lemma_drop_tokens_twice(before, 1, 1);
        }

        self.next_token();
        proof {
            lemma_drop_tokens_twice(before, 2, 1);
            lemma_token_after_drop(before, 3, 0);
            lemma_token_after_drop(before, 3, 1);
        }

        let expr = match self.parse_expression() {
            Some(expr) => expr,
            None => return None,
        };

        if self.peek_token_is(&Token::Semicolon) {
            self.next_token();
            proof {
                lemma_drop_tokens_twice(before, 3, 1);
            }
        }

        Some(Statement::Let(name, expr))
    }

    /// Parses the expression that the current token is by itself: a name or an integer
    /// literal. Any other token is recorded as an error. The parser stays where it is.
    pub fn parse_expression(&mut self) -> (parsed: Option<Expr>)
        ensures
            final(self).lexer == old(self).lexer,
            final(self).curr_token == old(self).curr_token,
            final(self).peek_token == old(self).peek_token,
            answers(
                parsed,
                expression(old(self).curr_token@),
                old(self).errors.deep_view(),
                final(self).errors.deep_view(),
            ),
    {
        match self.curr_token {
            Token::Ident(_) => self.parse_ident_expression(),
            Token::Int(_) => self.parse_int_expression(),
            _ => {
                let found = self.curr_token.clone();
                self.error_at("no expression starts with ", &found);
                None
            },
        }
    }

    /// The current token as an expression, where it is a name.
    pub fn parse_ident_expression(&mut self) -> (parsed: Option<Expr>)
        ensures
            *final(self) == *old(self),
            match old(self).curr_token@ {
                TokenView::Ident(name) => parsed matches Some(expr) && expr@ == ExprView::Ident(
                    name,
                ),
                _ => parsed is None,
            },
    {
        match self.parse_ident() {
            Some(ident) => Some(Expr::Ident(ident)),
            None => None,
        }
    }

    /// The current token as a name, where it is one.
    pub fn parse_ident(&mut self) -> (parsed: Option<Ident>)
        ensures
            *final(self) == *old(self),
            match old(self).curr_token@ {
                TokenView::Ident(name) => parsed matches Some(ident) && ident@ == name,
                _ => parsed is None,
            },
    {
        match &self.curr_token {
            Token::Ident(ident) => Some(Ident(ident.clone())),
            _ => None,
        }
    }

    /// The current token as an expression, where it is an integer literal.
    fn parse_int_expression(&mut self) -> (parsed: Option<Expr>)
        ensures
            *final(self) == *old(self),
            match old(self).curr_token@ {
                TokenView::Int(value) => parsed matches Some(expr) && expr@ == ExprView::Literal(
                    Literal::Int(value),
                ),
                _ => parsed is None,
            },
    {
        self.parse_int()
    }

    /// The current token as an integer literal, where it is one.
    fn parse_int(&mut self) -> (parsed: Option<Expr>)
        ensures
            *final(self) == *old(self),
            match old(self).curr_token@ {
                TokenView::Int(value) => parsed matches Some(expr) && expr@ == ExprView::Literal(
                    Literal::Int(value),
                ),
                _ => parsed is None,
            },
    {
        match self.curr_token {
            Token::Int(value) => Some(Expr::Literal(Literal::Int(value))),
            _ => None,
        }
    }
}

} // verus!
