//! The syntax tree: plain data that the parser builds.

use vstd::prelude::*;

verus! {

/// How tightly an operator binds, from loosest to tightest. No parsing routine consults
/// the scale yet.
#[derive(Debug, Clone, Copy, PartialEq, Eq, PartialOrd, Ord)]
pub enum Precedence {
    Lowest,
    /// `==`
    Equals,
    /// `>` or `<`
    LessGreater,
    /// `+`
    Sum,
    /// `*`
    Product,
    /// `-x` or `!x`
    Prefix,
    /// `f(x)`
    Call,
}

/// The name of a binding.
#[derive(Debug, PartialEq)]
pub struct Ident(pub String);

/// A literal value.
#[derive(Debug, Clone, Copy, PartialEq)]
pub enum Literal {
    Int(i64),
}

#[derive(Debug, PartialEq)]
pub enum Expr {
    Literal(Literal),
    Ident(Ident),
}

#[derive(Debug, PartialEq)]
pub enum Statement {
    Let(Ident, Expr),
    Return(Expr),
    Expr(Expr),
}

pub type Block = Vec<Statement>;

/// The statements of a program, in the order of the source text.
pub type Program = Block;

/// What an expression stands for, with names as sequences of characters.
pub enum ExprView {
    Literal(Literal),
    Ident(Seq<char>),
}

/// What a statement stands for, with names as sequences of characters.
pub enum StatementView {
    Let(Seq<char>, ExprView),
    Return(ExprView),
    Expr(ExprView),
}

impl View for Ident {
    type V = Seq<char>;

    open spec fn view(&self) -> Seq<char> {
        self.0@
    }
}

impl View for Expr {
    type V = ExprView;

    open spec fn view(&self) -> ExprView {
        match self {
            Expr::Literal(literal) => ExprView::Literal(*literal),
            Expr::Ident(name) => ExprView::Ident(name@),
        }
    }
}

impl View for Statement {
    type V = StatementView;

    open spec fn view(&self) -> StatementView {
        match self {
            Statement::Let(name, value) => StatementView::Let(name@, value@),
            Statement::Return(value) => StatementView::Return(value@),
            Statement::Expr(value) => StatementView::Expr(value@),
        }
    }
}

impl Clone for Ident {
    fn clone(&self) -> (copy: Self)
        ensures
            copy@ == self@,
    {
        Ident(self.0.clone())
    }
}

impl Clone for Expr {
    fn clone(&self) -> (copy: Self)
        ensures
            copy@ == self@,
    {
        match self {
            Expr::Literal(literal) => Expr::Literal(*literal),
            Expr::Ident(name) => Expr::Ident(name.clone()),
        }
    }
}

impl Clone for Statement {
    fn clone(&self) -> (copy: Self)
        ensures
            copy@ == self@,
    {
        match self {
            Statement::Let(name, value) => Statement::Let(name.clone(), value.clone()),
            Statement::Return(value) => Statement::Return(value.clone()),
            Statement::Expr(value) => Statement::Expr(value.clone()),
        }
    }
}

impl DeepView for Statement {
    type V = StatementView;

    open spec fn deep_view(&self) -> StatementView {
        self@
    }
}

} // verus!
