//! The syntax tree that the parser builds, and its mathematical model.
//!
//! An expression is, for now, a single token: the grammar of expressions is
//! not part of this front end, so the tree keeps the token that stands where
//! an expression belongs.

use vstd::prelude::*;
use crate::lexer::tokens::{Token, TokenView};

verus! {

/// An expression: a placeholder that wraps one token of any kind.
#[derive(Debug, PartialEq, Eq)]
pub enum Expression {
    Identifier(Token),
}

/// The model of an [`Expression`].
pub enum ExpressionView {
    Identifier(TokenView),
}

impl View for Expression {
    type V = ExpressionView;

    open spec fn view(&self) -> ExpressionView {
        match self {
            Expression::Identifier(token) => ExpressionView::Identifier(token@),
        }
    }
}

/// A `let` statement: the `let` token, the name that is bound and the
/// value that is bound to it.
#[derive(Debug, PartialEq, Eq)]
pub struct Let {
    pub token: Token,
    pub identifier: Expression,
    pub value: Expression,
}

/// The model of a [`Let`] statement.
pub struct LetView {
    pub token: TokenView,
    pub identifier: ExpressionView,
    pub value: ExpressionView,
}

impl View for Let {
    type V = LetView;

    open spec fn view(&self) -> LetView {
        LetView { token: self.token@, identifier: self.identifier@, value: self.value@ }
    }
}

/// A `return` statement: the `return` token and the value handed back.
#[derive(Debug, PartialEq, Eq)]
pub struct Return {
    pub token: Token,
    pub return_value: Expression,
}

/// The model of a [`Return`] statement.
pub struct ReturnView {
    pub token: TokenView,
    pub return_value: ExpressionView,
}

impl View for Return {
    type V = ReturnView;

    open spec fn view(&self) -> ReturnView {
        ReturnView { token: self.token@, return_value: self.return_value@ }
    }
}

/// A statement of the language.
#[derive(Debug, PartialEq, Eq)]
pub enum Statement {
    Let(Let),
    Return(Return),
}

/// The model of a [`Statement`].
pub enum StatementView {
    Let(LetView),
    Return(ReturnView),
}

impl View for Statement {
    type V = StatementView;

    open spec fn view(&self) -> StatementView {
        match self {
            Statement::Let(statement) => StatementView::Let(statement@),
            Statement::Return(statement) => StatementView::Return(statement@),
        }
    }
}

/// The root of the tree: the statements of one source text, in the order
/// in which they were met.
#[derive(Debug, PartialEq, Eq)]
pub struct Program {
    pub statements: Vec<Statement>,
}

impl View for Program {
    type V = Seq<StatementView>;

    open spec fn view(&self) -> Seq<StatementView> {
        self.statements@.map_values(|statement: Statement| statement@)
    }
}

/// Any node of the tree.
#[derive(Debug, PartialEq, Eq)]
pub enum Node {
    Program(Program),
    Statement(Statement),
    Expression(Expression),
}

/// The model of a [`Node`].
pub enum NodeView {
    Program(Seq<StatementView>),
    Statement(StatementView),
    Expression(ExpressionView),
}

impl View for Node {
    type V = NodeView;

    open spec fn view(&self) -> NodeView {
        match self {
            Node::Program(program) => NodeView::Program(program@),
            Node::Statement(statement) => NodeView::Statement(statement@),
            Node::Expression(expression) => NodeView::Expression(expression@),
        }
    }
}

} // verus!
