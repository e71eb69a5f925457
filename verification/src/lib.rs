//! Front end of the Monkey language: tokens, a lexer and a parser for `let` statements.
//!
//! The crate root holds the plain lexer, which knows one-byte operators only and keeps
//! integer literals as they are written. The lexer of [`lexer`] also reads `==` and `!=`
//! and the values of the literals; the parser of [`parser`] works on its tokens.

use crate::scan::{
    ascii_piece, ascii_text, byte_at, is_digit, is_letter, is_space, lemma_run_end_bounds,
    lemma_run_end_is, run_end, same_text, ByteClass, ASTERISK, BANG, COMMA, EQUALS_SIGN,
    GREATER_THAN, LEFT_BRACE, LEFT_PAREN, LESS_THAN, MINUS, PLUS, RIGHT_BRACE, RIGHT_PAREN,
    SEMICOLON, SLASH,
};
use vstd::prelude::*;
use vstd::string::*;
use vstd::utf8::*;

pub mod ast;
pub mod grammar;
pub mod lexer;
pub mod numeral;
pub mod parser;
pub mod scan;
pub mod token;

verus! {

/// A lexical unit of the source text, with literals as they are written.
#[derive(Debug)]
pub enum Token {
    /// A byte that starts no token.
    Illegal,
    /// The end of the text.
    Eof,
    Ident(String),
    /// An integer literal, as it is written.
    Int(String),
    Assign,
    Plus,
    Minus,
    Asterisk,
    Slash,
    Comma,
    Semicolon,
    Bang,
    Lt,
    Gt,
    Lparen,
    Rparen,
    Lbrace,
    Rbrace,
    Func,
    Let,
    If,
    Else,
    True,
    False,
    Return,
}

/// What a token stands for: its variant, with text as a sequence of characters.
pub enum TokenView {
    Illegal,
    Eof,
    Ident(Seq<char>),
    Int(Seq<char>),
    Assign,
    Plus,
    Minus,
    Asterisk,
    Slash,
    Comma,
    Semicolon,
    Bang,
    Lt,
    Gt,
    Lparen,
    Rparen,
    Lbrace,
    Rbrace,
    Func,
    Let,
    If,
    Else,
    True,
    False,
    Return,
}

impl View for Token {
    type V = TokenView;

    open spec fn view(&self) -> TokenView {
        match self {
            Token::Ident(name) => TokenView::Ident(name@),
            Token::Int(digits) => TokenView::Int(digits@),
            Token::Illegal => TokenView::Illegal,
            Token::Eof => TokenView::Eof,
            Token::Assign => TokenView::Assign,
            Token::Plus => TokenView::Plus,
            Token::Minus => TokenView::Minus,
            Token::Asterisk => TokenView::Asterisk,
            Token::Slash => TokenView::Slash,
            Token::Comma => TokenView::Comma,
            Token::Semicolon => TokenView::Semicolon,
            Token::Bang => TokenView::Bang,
            Token::Lt => TokenView::Lt,
            Token::Gt => TokenView::Gt,
            Token::Lparen => TokenView::Lparen,
            Token::Rparen => TokenView::Rparen,
            Token::Lbrace => TokenView::Lbrace,
            Token::Rbrace => TokenView::Rbrace,
            Token::Func => TokenView::Func,
            Token::Let => TokenView::Let,
            Token::If => TokenView::If,
            Token::Else => TokenView::Else,
            Token::True => TokenView::True,
            Token::False => TokenView::False,
            Token::Return => TokenView::Return,
        }
    }
}

impl PartialEq for Token {
    fn eq(&self, other: &Token) -> (same: bool) {
        match (self, other) {
            (Token::Ident(a), Token::Ident(b)) => *a == *b,
            (Token::Int(a), Token::Int(b)) => *a == *b,
            (Token::Illegal, Token::Illegal) => true,
            (Token::Eof, Token::Eof) => true,
            (Token::Assign, Token::Assign) => true,
            (Token::Plus, Token::Plus) => true,
            (Token::Minus, Token::Minus) => true,
            (Token::Asterisk, Token::Asterisk) => true,
            (Token::Slash, Token::Slash) => true,
            (Token::Comma, Token::Comma) => true,
            (Token::Semicolon, Token::Semicolon) => true,
            (Token::Bang, Token::Bang) => true,
            (Token::Lt, Token::Lt) => true,
            (Token::Gt, Token::Gt) => true,
            (Token::Lparen, Token::Lparen) => true,
            (Token::Rparen, Token::Rparen) => true,
            (Token::Lbrace, Token::Lbrace) => true,
            (Token::Rbrace, Token::Rbrace) => true,
            (Token::Func, Token::Func) => true,
            (Token::Let, Token::Let) => true,
            (Token::If, Token::If) => true,
            (Token::Else, Token::Else) => true,
            (Token::True, Token::True) => true,
            (Token::False, Token::False) => true,
            (Token::Return, Token::Return) => true,
            _ => false,
        }
    }
}

impl vstd::std_specs::cmp::PartialEqSpecImpl for Token {
    open spec fn obeys_eq_spec() -> bool {
        true
    }

    open spec fn eq_spec(&self, other: &Token) -> bool {
        self@ == other@
    }
}

/// The reserved words, and the tokens they stand for.
pub open spec fn keyword(word: Seq<char>) -> Option<TokenView> {
    if word == "fn"@ {
        Some(TokenView::Func)
    } else if word == "let"@ {
        Some(TokenView::Let)
    } else if word == "if"@ {
        Some(TokenView::If)
    } else if word == "else"@ {
        Some(TokenView::Else)
    } else if word == "true"@ {
        Some(TokenView::True)
    } else if word == "false"@ {
        Some(TokenView::False)
    } else if word == "return"@ {
        Some(TokenView::Return)
    } else {
        None
    }
}

/// The token for a run of letters: a reserved word, or else a name.
pub open spec fn word_token(word: Seq<char>) -> TokenView {
    match keyword(word) {
        Some(token) => token,
        None => TokenView::Ident(word),
    }
}

/// The token that a single byte makes when it is neither a letter nor a digit.
pub open spec fn symbol_token(b: u8) -> TokenView {
    if b == EQUALS_SIGN {
        TokenView::Assign
    } else if b == SEMICOLON {
        TokenView::Semicolon
    } else if b == LEFT_PAREN {
        TokenView::Lparen
    } else if b == RIGHT_PAREN {
        TokenView::Rparen
    } else if b == COMMA {
        TokenView::Comma
    } else if b == PLUS {
        TokenView::Plus
    } else if b == MINUS {
        TokenView::Minus
    } else if b == SLASH {
        TokenView::Slash
    } else if b == ASTERISK {
        TokenView::Asterisk
    } else if b == LESS_THAN {
        TokenView::Lt
    } else if b == GREATER_THAN {
        TokenView::Gt
    } else if b == BANG {
        TokenView::Bang
    } else if b == LEFT_BRACE {
        TokenView::Lbrace
    } else if b == RIGHT_BRACE {
        TokenView::Rbrace
    } else {
        TokenView::Illegal
    }
}

/// The token that starts at `at`, where no white space stands, and the offset behind it.
pub open spec fn token_at(s: Seq<u8>, at: int) -> (TokenView, int) {
    if !(0 <= at < s.len()) {
        (TokenView::Eof, at)
    } else if is_letter(s[at]) {
        let end = run_end(s, ByteClass::Letter, at);
        (word_token(ascii_text(s.subrange(at, end))), end)
    } else if is_digit(s[at]) {
        let end = run_end(s, ByteClass::Digit, at);
        (TokenView::Int(ascii_text(s.subrange(at, end))), end)
    } else {
        (symbol_token(s[at]), at + 1)
    }
}

/// The next token at or after `from`, behind any white space, and the offset behind it.
pub open spec fn lex(s: Seq<u8>, from: int) -> (TokenView, int) {
    token_at(s, run_end(s, ByteClass::Space, from))
}

/// A token other than the end marker takes at least one byte, and the end marker is only met
/// at the end of the text.
pub proof fn lemma_lex_advances(s: Seq<u8>, from: int)
    requires
        0 <= from <= s.len(),
    ensures
        from <= lex(s, from).1 <= s.len(),
        lex(s, from).0 is Eof ==> lex(s, from).1 == s.len(),
        !(lex(s, from).0 is Eof) ==> from < lex(s, from).1,
{
    let at = run_end(s, ByteClass::Space, from);
    lemma_run_end_bounds(s, ByteClass::Space, from);
    if at < s.len() {
        lemma_run_end_bounds(s, ByteClass::Letter, at);
        lemma_run_end_bounds(s, ByteClass::Digit, at);
        if is_letter(s[at]) {
            assert(run_end(s, ByteClass::Letter, at) == run_end(s, ByteClass::Letter, at + 1));
            lemma_run_end_bounds(s, ByteClass::Letter, at + 1);
        }
        if is_digit(s[at]) {
            assert(run_end(s, ByteClass::Digit, at) == run_end(s, ByteClass::Digit, at + 1));
            lemma_run_end_bounds(s, ByteClass::Digit, at + 1);
        }
    }
}

/// The tokens from `from` to the end of the text, without the end marker.
pub open spec fn tokens(s: Seq<u8>, from: int) -> Seq<TokenView>
    decreases s.len() - from,
    when 0 <= from <= s.len()
    via tokens_decreases
{
    let (token, next) = lex(s, from);
    if token is Eof {
        Seq::empty()
    } else {
        seq![token] + tokens(s, next)
    }
}

#[via_fn]
proof fn tokens_decreases(s: Seq<u8>, from: int) {
    lemma_lex_advances(s, from);
}

/// The tokens from `from` on are the next token and then the tokens behind it.
pub proof fn lemma_tokens_unfold(s: Seq<u8>, from: int)
    requires
        0 <= from <= s.len(),
    ensures
        tokens(s, from) == if lex(s, from).0 is Eof {
            Seq::empty()
        } else {
            seq![lex(s, from).0] + tokens(s, lex(s, from).1)
        },
        lex(s, from).0 is Eof <==> tokens(s, from).len() == 0,
{
    lemma_lex_advances(s, from);
}

/// The offset that the cursor has reached after `n` tokens were taken from `from`.
pub open spec fn offset_after(s: Seq<u8>, from: int, n: nat) -> int
    decreases n,
{
    if n == 0 {
        from
    } else {
        lex(s, offset_after(s, from, (n - 1) as nat)).1
    }
}

/// The token that is handed out after `n` tokens were taken from `from`.
pub open spec fn nth_token(s: Seq<u8>, from: int, n: nat) -> TokenView {
    lex(s, offset_after(s, from, n)).0
}

/// However many tokens are taken, the cursor stays inside the text and never moves back.
pub proof fn lemma_offset_after_bounds(s: Seq<u8>, from: int, n: nat)
    requires
        0 <= from <= s.len(),
    ensures
        from <= offset_after(s, from, n) <= s.len(),
    decreases n,
{
    if n > 0 {
        lemma_offset_after_bounds(s, from, (n - 1) as nat);
        lemma_lex_advances(s, offset_after(s, from, (n - 1) as nat));
    }
}

/// Once the end marker has been handed out, every later token is the end marker too, and
/// the cursor rests at the end of the text.
pub proof fn lemma_end_marker_repeats(s: Seq<u8>, from: int, n: nat, m: nat)
    requires
        0 <= from <= s.len(),
        nth_token(s, from, n) is Eof,
        n <= m,
    ensures
        nth_token(s, from, m) is Eof,
        offset_after(s, from, m + 1) == s.len(),
    decreases m - n,
{
    lemma_offset_after_bounds(s, from, m);
    lemma_lex_advances(s, offset_after(s, from, m));
    if n < m {
        lemma_end_marker_repeats(s, from, n, (m - 1) as nat);
        assert(offset_after(s, from, m) == s.len());
    }
}

/// One of the eight bytes `= + ( ) { } , ;`.
pub open spec fn is_plain_symbol(b: u8) -> bool {
    b == EQUALS_SIGN || b == PLUS || b == LEFT_PAREN || b == RIGHT_PAREN || b == LEFT_BRACE || b
        == RIGHT_BRACE || b == COMMA || b == SEMICOLON
}

/// Text made of the eight plain symbols alone, from `from` on, gives one token for each
/// byte, in the order of the bytes.
pub proof fn lemma_plain_symbols_from(s: Seq<u8>, from: int)
    requires
        0 <= from <= s.len(),
        forall|k: int| from <= k < s.len() ==> is_plain_symbol(#[trigger] s[k]),
    ensures
        tokens(s, from) == Seq::new((s.len() - from) as nat, |k: int| symbol_token(s[from + k])),
    decreases s.len() - from,
{
    let expected = Seq::new((s.len() - from) as nat, |k: int| symbol_token(s[from + k]));
    if from < s.len() {
        assert(is_plain_symbol(s[from]));
        assert(run_end(s, ByteClass::Space, from) == from);
        assert(lex(s, from) == (symbol_token(s[from]), from + 1));
        lemma_plain_symbols_from(s, from + 1);
        assert(tokens(s, from) =~= expected);
    } else {
        assert(tokens(s, from) =~= expected);
    }
}

/// Text made of the eight plain symbols `= + ( ) { } , ;` alone gives exactly one token
/// for each byte, in the order of the bytes, and then the end marker.
pub proof fn lemma_plain_symbols_one_token_each(s: Seq<u8>)
    requires
        forall|k: int| 0 <= k < s.len() ==> is_plain_symbol(#[trigger] s[k]),
    ensures
        tokens(s, 0) == Seq::new(s.len(), |k: int| symbol_token(s[k])),
        forall|k: int| 0 <= k < s.len() ==> !(symbol_token(#[trigger] s[k]) is Illegal),
        lex(s, s.len() as int).0 is Eof,
{
    lemma_plain_symbols_from(s, 0);
    assert(Seq::new(s.len(), |k: int| symbol_token(s[0 + k])) =~= Seq::new(
        s.len(),
        |k: int| symbol_token(s[k]),
    ));
}

/// A cursor over source text of its own that hands out the tokens one by one.
pub struct Lexer {
    input: String,
    position: usize,
    read_position: usize,
    ch: u8,
}

impl Lexer {
    /// The bytes of the source text.
    pub closed spec fn text(&self) -> Seq<u8> {
        encode_utf8(self.input@)
    }

    /// The offset of the first byte that no token has taken yet.
    pub closed spec fn offset(&self) -> int {
        self.position as int
    }

    /// The cursor lies inside the text or at its end, and the byte and the index held
    /// beside it are the ones that belong to it.
    pub closed spec fn wf(&self) -> bool {
        let s = self.text();
        &&& self.position <= s.len()
        &&& self.read_position == if self.position < s.len() {
            self.position + 1
        } else {
            s.len() as int
        }
        &&& self.ch == byte_at(s, self.position as int)
    }

    /// The tokens that are still to come, without the end marker.
    pub open spec fn remaining(&self) -> Seq<TokenView> {
        tokens(self.text(), self.offset())
    }

    /// A lexer at the start of `input`.
    pub fn new(input: String) -> (lexer: Lexer)
        ensures
            lexer.wf(),
            lexer.text() == encode_utf8(input@),
            lexer.offset() == 0,
    {
        let mut lexer = Lexer { input, position: 0, read_position: 0, ch: 0 };
        lexer.read_char();
        return lexer;
    }

    /// Hands out the next token and moves the cursor behind it. At the end of the text it
    /// hands out the end marker, as often as it is asked, and stays where it is.
    pub fn next(&mut self) -> (token: Token)
        requires
            old(self).wf(),
        ensures
            final(self).wf(),
            final(self).text() == old(self).text(),
            token@ == lex(old(self).text(), old(self).offset()).0,
            final(self).offset() == lex(old(self).text(), old(self).offset()).1,
            old(self).offset() <= final(self).offset() <= old(self).text().len(),
            token@ is Eof <==> old(self).remaining().len() == 0,
            token@ is Eof ==> final(self).offset() == old(self).text().len(),
            old(self).offset() == old(self).text().len() ==> *final(self) == *old(self),
            old(self).remaining() == if token@ is Eof {
                Seq::empty()
            } else {
                seq![token@] + final(self).remaining()
            },
    {
        proof {
            lemma_tokens_unfold(self.text(), self.offset());
            lemma_lex_advances(self.text(), self.offset());
        }
        self.skip_whitespace();
        let bytes = self.input.as_str().as_bytes();
        if self.position >= bytes.len() {
            return Token::Eof;
        }
        let ch = self.ch;
        if ch == EQUALS_SIGN {
            self.read_char();
            return Token::Assign;
        } else if ch == SEMICOLON {
            self.read_char();
            return Token::Semicolon;
        } else if ch == LEFT_PAREN {
            self.read_char();
            return Token::Lparen;
        } else if ch == RIGHT_PAREN {
            self.read_char();
            return Token::Rparen;
        } else if ch == COMMA {
            self.read_char();
            return Token::Comma;
        } else if ch == PLUS {
            self.read_char();
            return Token::Plus;
        } else if ch == MINUS {
            self.read_char();
            return Token::Minus;
        } else if ch == SLASH {
            self.read_char();
            return Token::Slash;
        } else if ch == ASTERISK {
            self.read_char();
            return Token::Asterisk;
        } else if ch == LESS_THAN {
            self.read_char();
            return Token::Lt;
        } else if ch == GREATER_THAN {
            self.read_char();
            return Token::Gt;
        } else if ch == BANG {
            self.read_char();
            return Token::Bang;
        } else if ch == LEFT_BRACE {
            self.read_char();
            return Token::Lbrace;
        } else if ch == RIGHT_BRACE {
            self.read_char();
            return Token::Rbrace;
        } else if is_letter(ch) {
            return self.read_identifier();
        } else if is_digit(ch) {
            return self.read_number();
        } else {
            self.read_char();
            return Token::Illegal;
        }
    }

    /// Reads the run of letters at the cursor: a reserved word, or else a name.
    fn read_identifier(&mut self) -> (token: Token)
        requires
            old(self).wf(),
            old(self).offset() < old(self).text().len(),
            is_letter(old(self).text()[old(self).offset()]),
        ensures
            final(self).wf(),
            final(self).input == old(self).input,
            final(self).offset() == run_end(old(self).text(), ByteClass::Letter, old(self).offset()),
            token@ == word_token(
                ascii_text(old(self).text().subrange(old(self).offset(), final(self).offset())),
            ),
    {
        let start = self.position;
        while is_letter(self.ch)
            invariant
                self.wf(),
                self.input == old(self).input,
                start == old(self).position,
                start <= self.position,
                start < self.position || is_letter(self.ch),
                forall|k: int| start <= k < self.position ==> is_letter(#[trigger] self.text()[k]),
            decreases self.text().len() - self.position,
        {
            self.read_char();
        }
        proof {
            lemma_run_end_is(self.text(), ByteClass::Letter, start as int, self.position as int);
        }
        let literal = ascii_piece(self.input.as_str(), start, self.position);
        if same_text(literal, "fn") {
            Token::Func
        } else if same_text(literal, "let") {
            Token::Let
        } else if same_text(literal, "if") {
            Token::If
        } else if same_text(literal, "else") {
            Token::Else
        } else if same_text(literal, "true") {
            Token::True
        } else if same_text(literal, "false") {
            Token::False
        } else if same_text(literal, "return") {
            Token::Return
        } else {
            Token::Ident(literal.to_owned())
        }
    }

    /// Reads the run of digits at the cursor, and keeps it as it is written.
    fn read_number(&mut self) -> (token: Token)
        requires
            old(self).wf(),
            old(self).offset() < old(self).text().len(),
            is_digit(old(self).text()[old(self).offset()]),
        ensures
            final(self).wf(),
            final(self).input == old(self).input,
            final(self).offset() == run_end(old(self).text(), ByteClass::Digit, old(self).offset()),
            token@ == TokenView::Int(
                ascii_text(old(self).text().subrange(old(self).offset(), final(self).offset())),
            ),
    {
        let start = self.position;
        while is_digit(self.ch)
            invariant
                self.wf(),
                self.input == old(self).input,
                start == old(self).position,
                start <= self.position,
                start < self.position || is_digit(self.ch),
                forall|k: int| start <= k < self.position ==> is_digit(#[trigger] self.text()[k]),
            decreases self.text().len() - self.position,
        {
            self.read_char();
        }
        proof {
            lemma_run_end_is(self.text(), ByteClass::Digit, start as int, self.position as int);
        }
        let literal = ascii_piece(self.input.as_str(), start, self.position);
        return Token::Int(literal.to_owned());
    }

    /// Moves the cursor to the next byte, and no further than the end of the text.
    fn read_char(&mut self)
        requires
            old(self).read_position <= old(self).text().len(),
        ensures
            final(self).wf(),
            final(self).input == old(self).input,
            final(self).position == old(self).read_position,
    {
        let bytes = self.input.as_str().as_bytes();
        if self.read_position >= bytes.len() {
            self.ch = 0;
            self.position = self.read_position;
        } else {
            self.ch = bytes[self.read_position];
            self.position = self.read_position;
            self.read_position += 1;
        }
    }

    /// Moves the cursor over white space.
    fn skip_whitespace(&mut self)
        requires
            old(self).wf(),
        ensures
            final(self).wf(),
            final(self).input == old(self).input,
            final(self).offset() == run_end(old(self).text(), ByteClass::Space, old(self).offset()),
    {
        while is_space(self.ch)
            invariant
                self.wf(),
                self.input == old(self).input,
                old(self).position <= self.position,
                forall|k: int|
                    old(self).position <= k < self.position ==> is_space(#[trigger] self.text()[k]),
            decreases self.text().len() - self.position,
        {
            self.read_char();
        }
        proof {
            lemma_run_end_is(
                self.text(),
                ByteClass::Space,
                old(self).position as int,
                self.position as int,
            );
        }
    }
}

} // verus!
