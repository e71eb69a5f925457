//! The grammar as a function of the tokens: what each parsing step yields, and how far it
//! moves the parser.

use crate::ast::{ExprView, Literal, StatementView};
use crate::parser::{ParseErrorKind, ParseErrorView};
use crate::token::TokenView;
use vstd::prelude::*;

verus! {

/// The token at `i`, and the end marker where the tokens have run out.
pub open spec fn token_or_end(s: Seq<TokenView>, i: int) -> TokenView {
    if 0 <= i < s.len() {
        s[i]
    } else {
        TokenView::Eof
    }
}

/// The tokens that are left once the first `n` are consumed.
pub open spec fn drop_tokens(s: Seq<TokenView>, n: int) -> Seq<TokenView> {
    if n <= 0 {
        s
    } else if n < s.len() {
        s.skip(n)
    } else {
        Seq::empty()
    }
}

/// The error for a token that is not the one expected next.
pub open spec fn unexpected(expected: TokenView, found: TokenView) -> ParseErrorView {
    ParseErrorView {
        kind: ParseErrorKind::UnexpectedToken,
        msg: "expected next token to be "@ + expected.describe() + ", got "@ + found.describe()
            + " instead"@,
    }
}

/// The error for a token that stands where a name is expected.
pub open spec fn expected_identifier(found: TokenView) -> ParseErrorView {
    ParseErrorView {
        kind: ParseErrorKind::UnexpectedToken,
        msg: "expected identifier, got "@ + found.describe(),
    }
}

/// The error for a token that starts no statement.
pub open spec fn unsupported_statement(found: TokenView) -> ParseErrorView {
    ParseErrorView {
        kind: ParseErrorKind::UnexpectedToken,
        msg: "no statement starts with "@ + found.describe(),
    }
}

/// The error for a token that starts no expression.
pub open spec fn unsupported_expression(found: TokenView) -> ParseErrorView {
    ParseErrorView {
        kind: ParseErrorKind::UnexpectedToken,
        msg: "no expression starts with "@ + found.describe(),
    }
}

/// The expression that a token is by itself: a name or an integer literal.
pub open spec fn expression(token: TokenView) -> Result<ExprView, ParseErrorView> {
    match token {
        TokenView::Ident(name) => Ok(ExprView::Ident(name)),
        TokenView::Int(value) => Ok(ExprView::Literal(Literal::Int(value))),
        _ => Err(unsupported_expression(token)),
    }
}

/// A `let` statement read from tokens whose first is the `let`: the statement or the
/// error, and the number of tokens that the parser has moved over. After the `let` come a
/// name, `=`, and an expression; a semicolon behind the expression is taken with it.
pub open spec fn let_statement(s: Seq<TokenView>) -> (Result<StatementView, ParseErrorView>, int) {
    match token_or_end(s, 1) {
        TokenView::Ident(name) => {
            if token_or_end(s, 2) is Assign {
                match expression(token_or_end(s, 3)) {
                    Ok(value) => (
                        Ok(StatementView::Let(name, value)),
                        if token_or_end(s, 4) is Semicolon {
                            4
                        } else {
                            3
                        },
                    ),
                    Err(error) => (Err(error), 3),
                }
            } else {
                (Err(unexpected(TokenView::Assign, token_or_end(s, 2))), 1)
            }
        },
        found => (Err(expected_identifier(found)), 0),
    }
}

/// A statement read from the tokens: the statement or the error, and the number of tokens
/// that the parser has moved over. Only `let` starts a statement.
pub open spec fn statement(s: Seq<TokenView>) -> (Result<StatementView, ParseErrorView>, int) {
    if token_or_end(s, 0) is Let {
        let_statement(s)
    } else {
        (Err(unsupported_statement(token_or_end(s, 0))), 0)
    }
}

/// The index of the first semicolon at or behind `from`, and the end of the tokens where
/// there is none.
pub open spec fn next_semicolon(s: Seq<TokenView>, from: int) -> int
    decreases s.len() - from,
{
    if 0 <= from < s.len() && !(s[from] is Semicolon) {
        next_semicolon(s, from + 1)
    } else {
        from
    }
}

/// The index of the last token that belongs to the statement at the front of the tokens:
/// where the parser stopped when the statement was read, and the next semicolon from there
/// on when it failed.
pub open spec fn statement_end(s: Seq<TokenView>) -> int {
    match statement(s).0 {
        Ok(_) => statement(s).1,
        Err(_) => next_semicolon(s, statement(s).1),
    }
}

/// The statements and the errors that the tokens give, each in the order of the tokens.
/// A statement that fails gives one error and no statement, and the tokens up to the next
/// semicolon go with it.
pub open spec fn program(s: Seq<TokenView>) -> (Seq<StatementView>, Seq<ParseErrorView>)
    decreases s.len(),
    via program_decreases
{
    if s.len() == 0 {
        (Seq::empty(), Seq::empty())
    } else {
        let rest = program(drop_tokens(s, statement_end(s) + 1));
        match statement(s).0 {
            Ok(parsed) => (seq![parsed] + rest.0, rest.1),
            Err(error) => (rest.0, seq![error] + rest.1),
        }
    }
}

/// The next semicolon is never before the index from which it is sought.
pub proof fn lemma_next_semicolon_bounds(s: Seq<TokenView>, from: int)
    ensures
        from <= next_semicolon(s, from),
        from <= s.len() ==> next_semicolon(s, from) <= s.len(),
        0 <= from ==> forall|k: int|
            from <= k < next_semicolon(s, from) ==> k < s.len() && !(#[trigger] s[k] is Semicolon),
        0 <= next_semicolon(s, from) < s.len() ==> s[next_semicolon(s, from)] is Semicolon,
    decreases s.len() - from,
{
    if 0 <= from < s.len() && !(s[from] is Semicolon) {
        lemma_next_semicolon_bounds(s, from + 1);
    }
}

/// Reading a statement moves the parser over at most four tokens, all of them tokens
/// that are there, and the statement ends where the parser stopped or behind it.
pub proof fn lemma_statement_end_bounds(s: Seq<TokenView>)
    ensures
        0 <= statement(s).1 <= statement_end(s),
        statement(s).1 <= 4,
        statement(s).1 <= s.len(),
        statement_end(s) <= s.len(),
        statement(s).0 is Ok ==> statement_end(s) < s.len(),
{
    lemma_next_semicolon_bounds(s, statement(s).1);
}

/// Consuming tokens in two steps is consuming them in one.
pub proof fn lemma_drop_tokens_twice(s: Seq<TokenView>, a: int, b: int)
    requires
        0 <= a,
        0 <= b,
    ensures
        drop_tokens(drop_tokens(s, a), b) == drop_tokens(s, a + b),
{
    assert(drop_tokens(drop_tokens(s, a), b) =~= drop_tokens(s, a + b));
}

/// The tokens that are left are the tokens from the first that was not consumed.
pub proof fn lemma_token_after_drop(s: Seq<TokenView>, n: int, i: int)
    requires
        0 <= n,
        0 <= i,
    ensures
        token_or_end(drop_tokens(s, n), i) == token_or_end(s, n + i),
{
}

/// The next semicolon of the tokens that are left is the next semicolon of all of them.
pub proof fn lemma_next_semicolon_after_drop(s: Seq<TokenView>, from: int)
    requires
        0 <= from <= s.len(),
    ensures
        next_semicolon(drop_tokens(s, from), 0) == next_semicolon(s, from) - from,
{
    let rest = drop_tokens(s, from);
    lemma_next_semicolon_bounds(s, from);
    lemma_next_semicolon_bounds(rest, 0);
    let a = next_semicolon(s, from) - from;
    let b = next_semicolon(rest, 0);
    assert(forall|k: int| 0 <= k < rest.len() ==> rest[k] == s[from + k]);
    if a < b {
        assert(!(rest[a] is Semicolon));
    }
    if b < a {
        assert(!(s[from + b] is Semicolon));
    }
}

/// Every statement and every error takes at least one token: there are no more of them
/// than tokens.
pub proof fn lemma_program_len(s: Seq<TokenView>)
    ensures
        program(s).0.len() + program(s).1.len() <= s.len(),
    decreases s.len(),
{
    if s.len() > 0 {
        lemma_statement_end_bounds(s);
        lemma_program_len(drop_tokens(s, statement_end(s) + 1));
    }
}

#[via_fn]
proof fn program_decreases(s: Seq<TokenView>) {
    lemma_statement_end_bounds(s);
}

} // verus!
