use vstd::prelude::*;

use crate::ast::token::{Token, TokenModel};
use crate::expr::{Expr, ExprModel, Var, expr_model};

verus! {

/// A statement of the tree-walking front end.
#[derive(Debug)]
pub enum Stmt {
    Expr(Expr),
    Print(Expr),
    Block(Vec<Stmt>),
    If(IfStmt),
    While(WhileStmt),
    Function(FunctionStmt),
    Var(Var),
    Return(ReturnStmt),
}

#[derive(Debug)]
pub struct ReturnStmt {
    pub keyword: Token,
    pub value: Expr,
}

impl ReturnStmt {
    pub fn new(keyword: Token, value: Expr) -> (s: Self)
        ensures
            s.keyword == keyword,
            s.value == value,
    {
        Self { keyword, value }
    }
}

#[derive(Debug)]
pub struct IfStmt {
    pub condition: Expr,
    pub then_branch: Box<Stmt>,
    pub else_branch: Option<Box<Stmt>>,
}

impl IfStmt {
    pub fn new(condition: Expr, then_branch: Stmt, else_branch: Option<Stmt>) -> (s: Self)
        ensures
            s.condition == condition,
            *s.then_branch == then_branch,
            match else_branch {
                Some(e) => s.else_branch matches Some(b) && *b == e,
                None => s.else_branch is None,
            },
    {
        let else_branch = match else_branch {
            Some(e) => Some(Box::new(e)),
            None => None,
        };
        Self { condition, then_branch: Box::new(then_branch), else_branch }
    }
}

#[derive(Debug)]
pub struct WhileStmt {
    pub condition: Expr,
    pub body: Box<Stmt>,
}

impl WhileStmt {
    pub fn new(condition: Expr, body: Stmt) -> (s: Self)
        ensures
            s.condition == condition,
            *s.body == body,
    {
        Self { condition, body: Box::new(body) }
    }
}

#[derive(Debug)]
pub struct FunctionStmt {
    pub name: Token,
    pub params: Vec<Token>,
    pub body: Vec<Stmt>,
}

impl FunctionStmt {
    pub fn new(name: Token, params: Vec<Token>, body: Vec<Stmt>) -> (s: Self)
        ensures
            s.name == name,
            s.params == params,
            s.body == body,
    {
        Self { name, params, body }
    }
}

/// The content of a statement: its tree, with the content of its tokens
/// and expressions.
pub enum StmtModel {
    Expr(ExprModel),
    Print(ExprModel),
    Block(Seq<StmtModel>),
    If(ExprModel, Box<StmtModel>, Option<Box<StmtModel>>),
    While(ExprModel, Box<StmtModel>),
    Function(TokenModel, Seq<TokenModel>, Seq<StmtModel>),
    Var(TokenModel, Option<ExprModel>),
    Return(TokenModel, ExprModel),
}

pub open spec fn tokens_model(ts: Seq<Token>) -> Seq<TokenModel> {
    ts.map_values(|t: Token| t@)
}

pub open spec fn stmt_model(s: Stmt) -> StmtModel
    decreases s,
{
    match s {
        Stmt::Expr(e) => StmtModel::Expr(expr_model(e)),
        Stmt::Print(e) => StmtModel::Print(expr_model(e)),
        Stmt::Block(b) => StmtModel::Block(stmts_model(b@)),
        Stmt::If(i) => StmtModel::If(
            expr_model(i.condition),
            Box::new(stmt_model(*i.then_branch)),
            match i.else_branch {
                Some(b) => Some(Box::new(stmt_model(*b))),
                None => None,
            },
        ),
        Stmt::While(w) => StmtModel::While(expr_model(w.condition), Box::new(stmt_model(*w.body))),
        Stmt::Function(f) => StmtModel::Function(f.name@, tokens_model(f.params@), stmts_model(f.body@)),
        Stmt::Var(v) => StmtModel::Var(
            v.name@,
            match v.initializer {
                Some(e) => Some(expr_model(e)),
                None => None,
            },
        ),
        Stmt::Return(r) => StmtModel::Return(r.keyword@, expr_model(r.value)),
    }
}

pub open spec fn stmts_model(ss: Seq<Stmt>) -> Seq<StmtModel>
    decreases ss,
{
    if ss.len() == 0 {
        Seq::empty()
    } else {
        stmts_model(ss.subrange(0, ss.len() - 1)).push(stmt_model(ss[ss.len() - 1]))
    }
}

/// The models of a list of statements grow one at a time.
pub proof fn lemma_stmts_model_push(ss: Seq<Stmt>, s: Stmt)
    ensures
        stmts_model(ss.push(s)) == stmts_model(ss).push(stmt_model(s)),
        stmts_model(ss).len() == ss.len(),
    decreases ss.len(),
{
    assert(ss.push(s).subrange(0, ss.len() as int) =~= ss);
    if ss.len() > 0 {
        lemma_stmts_model_push(ss.subrange(0, ss.len() - 1), ss[ss.len() - 1]);
        assert(ss.subrange(0, ss.len() - 1).push(ss[ss.len() - 1]) =~= ss);
    }
}

/// The model of a list of two statements.
pub proof fn lemma_stmts_model_two(a: Stmt, b: Stmt)
    ensures
        stmts_model(seq![a, b]) == seq![stmt_model(a), stmt_model(b)],
{
    lemma_stmts_model_push(Seq::empty(), a);
    lemma_stmts_model_push(seq![a], b);
    assert(Seq::<Stmt>::empty().push(a) =~= seq![a]);
    assert(seq![a].push(b) =~= seq![a, b]);
    assert(stmts_model(Seq::<Stmt>::empty()) =~= Seq::<StmtModel>::empty());
    assert(seq![stmt_model(a)].push(stmt_model(b)) =~= seq![stmt_model(a), stmt_model(b)]);
    assert(Seq::<StmtModel>::empty().push(stmt_model(a)) =~= seq![stmt_model(a)]);
}

} // verus!
