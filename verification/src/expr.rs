use vstd::prelude::*;

use crate::ast::token::{Literal, LiteralModel, Token, TokenModel};

verus! {

/// An expression of the tree-walking front end.
#[derive(Debug)]
pub enum Expr {
    Binary(BinaryExpr),
    Call(CallExpr),
    Grouping(GroupingExpr),
    Literal(LiteralExpr),
    Unary(UnaryExpr),
    Variable(Token),
    Assign(AssignExpr),
    Logical(LogicalExpr),
}

#[derive(Debug)]
pub struct BinaryExpr {
    pub left: Box<Expr>,
    pub operator: Token,
    pub right: Box<Expr>,
}

impl BinaryExpr {
    pub fn new(left: Expr, operator: Token, right: Expr) -> (e: Self)
        ensures
            *e.left == left,
            e.operator == operator,
            *e.right == right,
    {
        Self { left: Box::new(left), operator, right: Box::new(right) }
    }
}

#[derive(Debug)]
pub struct GroupingExpr {
    pub expression: Box<Expr>,
}

impl GroupingExpr {
    pub fn new(expression: Expr) -> (e: Self)
        ensures
            *e.expression == expression,
    {
        Self { expression: Box::new(expression) }
    }
}

#[derive(Debug)]
pub struct LiteralExpr {
    pub value: Literal,
}

impl LiteralExpr {
    pub fn new(value: Literal) -> (e: Self)
        ensures
            e.value == value,
    {
        Self { value }
    }
}

#[derive(Debug)]
pub struct UnaryExpr {
    pub operator: Token,
    pub right: Box<Expr>,
}

impl UnaryExpr {
    pub fn new(operator: Token, right: Expr) -> (e: Self)
        ensures
            e.operator == operator,
            *e.right == right,
    {
        Self { operator, right: Box::new(right) }
    }
}

/// A variable declaration: its name and optional initializer.
#[derive(Debug)]
pub struct Var {
    pub name: Token,
    pub initializer: Option<Expr>,
}

impl Var {
    pub fn new(name: Token, initializer: Option<Expr>) -> (v: Self)
        ensures
            v.name == name,
            v.initializer == initializer,
    {
        Self { name, initializer }
    }
}

#[derive(Debug)]
pub struct AssignExpr {
    pub name: Token,
    pub value: Box<Expr>,
}

impl AssignExpr {
    pub fn new(name: Token, value: Expr) -> (e: Self)
        ensures
            e.name == name,
            *e.value == value,
    {
        Self { name, value: Box::new(value) }
    }
}

#[derive(Debug)]
pub struct LogicalExpr {
    pub left: Box<Expr>,
    pub operator: Token,
    pub right: Box<Expr>,
}

impl LogicalExpr {
    pub fn new(left: Expr, operator: Token, right: Expr) -> (e: Self)
        ensures
            *e.left == left,
            e.operator == operator,
            *e.right == right,
    {
        Self { left: Box::new(left), operator, right: Box::new(right) }
    }
}

#[derive(Debug)]
pub struct CallExpr {
    pub callee: Box<Expr>,
    pub paren: Token,
    pub args: Vec<Expr>,
}

impl CallExpr {
    pub fn new(callee: Expr, paren: Token, args: Vec<Expr>) -> (e: Self)
        ensures
            *e.callee == callee,
            e.paren == paren,
            e.args == args,
    {
        Self { callee: Box::new(callee), paren, args }
    }
}

/// The content of an expression: its tree, with the content of its tokens.
pub enum ExprModel {
    Binary(Box<ExprModel>, TokenModel, Box<ExprModel>),
    Call(Box<ExprModel>, TokenModel, Seq<ExprModel>),
    Grouping(Box<ExprModel>),
    Literal(LiteralModel),
    Unary(TokenModel, Box<ExprModel>),
    Variable(TokenModel),
    Assign(TokenModel, Box<ExprModel>),
    Logical(Box<ExprModel>, TokenModel, Box<ExprModel>),
}

pub open spec fn expr_model(e: Expr) -> ExprModel
    decreases e,
{
    match e {
        Expr::Binary(b) => ExprModel::Binary(Box::new(expr_model(*b.left)), b.operator@, Box::new(expr_model(*b.right))),
        Expr::Call(c) => ExprModel::Call(Box::new(expr_model(*c.callee)), c.paren@, exprs_model(c.args@)),
        Expr::Grouping(g) => ExprModel::Grouping(Box::new(expr_model(*g.expression))),
        Expr::Literal(l) => ExprModel::Literal(l.value@),
        Expr::Unary(u) => ExprModel::Unary(u.operator@, Box::new(expr_model(*u.right))),
        Expr::Variable(t) => ExprModel::Variable(t@),
        Expr::Assign(a) => ExprModel::Assign(a.name@, Box::new(expr_model(*a.value))),
        Expr::Logical(l) => ExprModel::Logical(Box::new(expr_model(*l.left)), l.operator@, Box::new(expr_model(*l.right))),
    }
}

pub open spec fn exprs_model(es: Seq<Expr>) -> Seq<ExprModel>
    decreases es,
{
    if es.len() == 0 {
        Seq::empty()
    } else {
        exprs_model(es.subrange(0, es.len() - 1)).push(expr_model(es[es.len() - 1]))
    }
}

} // verus!
