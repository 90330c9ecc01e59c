use vstd::prelude::*;

use crate::ast::stmt::Stmt;
use crate::ast::token::TokenType;
use crate::expr::Expr;

verus! {

/// The binary operators the interpreter applies.
pub open spec fn binary_operator(t: TokenType) -> bool {
    t == TokenType::Minus || t == TokenType::Slash || t == TokenType::Star || t == TokenType::Plus
        || t == TokenType::Greater || t == TokenType::GreaterEqual || t == TokenType::Less
        || t == TokenType::LessEqual || t == TokenType::EqualEqual || t == TokenType::BangEqual
}

/// The unary operators the interpreter applies.
pub open spec fn unary_operator(t: TokenType) -> bool {
    t == TokenType::Minus || t == TokenType::Bang
}

/// Every operator in the expression is one the interpreter applies, as in
/// every tree the parser builds.
pub open spec fn expr_ok(e: Expr) -> bool
    decreases e,
{
    match e {
        Expr::Binary(b) => binary_operator(b.operator.token_type) && expr_ok(*b.left) && expr_ok(*b.right),
        Expr::Call(c) => expr_ok(*c.callee) && exprs_ok(c.args@),
        Expr::Grouping(g) => expr_ok(*g.expression),
        Expr::Literal(_) => true,
        Expr::Unary(u) => unary_operator(u.operator.token_type) && expr_ok(*u.right),
        Expr::Variable(_) => true,
        Expr::Assign(a) => expr_ok(*a.value),
        Expr::Logical(l) => expr_ok(*l.left) && expr_ok(*l.right),
    }
}

pub open spec fn exprs_ok(es: Seq<Expr>) -> bool
    decreases es,
{
    if es.len() == 0 {
        true
    } else {
        exprs_ok(es.subrange(0, es.len() - 1)) && expr_ok(es[es.len() - 1])
    }
}

/// Every expression in the statement is well formed.
pub open spec fn stmt_ok(s: Stmt) -> bool
    decreases s,
{
    match s {
        Stmt::Expr(e) => expr_ok(e),
        Stmt::Print(e) => expr_ok(e),
        Stmt::Block(b) => stmts_ok(b@),
        Stmt::If(i) => expr_ok(i.condition) && stmt_ok(*i.then_branch) && match i.else_branch {
            Some(e) => stmt_ok(*e),
            None => true,
        },
        Stmt::While(w) => expr_ok(w.condition) && stmt_ok(*w.body),
        Stmt::Function(f) => stmts_ok(f.body@),
        Stmt::Var(v) => match v.initializer {
            Some(e) => expr_ok(e),
            None => true,
        },
        Stmt::Return(r) => expr_ok(r.value),
    }
}

pub open spec fn stmts_ok(ss: Seq<Stmt>) -> bool
    decreases ss,
{
    if ss.len() == 0 {
        true
    } else {
        stmts_ok(ss.subrange(0, ss.len() - 1)) && stmt_ok(ss[ss.len() - 1])
    }
}

/// A list of expressions is well formed when each of them is.
pub proof fn lemma_exprs_ok(es: Seq<Expr>)
    ensures
        exprs_ok(es) <==> forall|i: int| 0 <= i < es.len() ==> #[trigger] expr_ok(es[i]),
    decreases es.len(),
{
    if es.len() > 0 {
        let front = es.subrange(0, es.len() - 1);
        lemma_exprs_ok(front);
        assert(exprs_ok(es) == (exprs_ok(front) && expr_ok(es[es.len() - 1])));
        if forall|i: int| 0 <= i < es.len() ==> #[trigger] expr_ok(es[i]) {
            assert forall|i: int| 0 <= i < front.len() implies #[trigger] expr_ok(front[i]) by {
                assert(front[i] == es[i]);
            }
        }
        if exprs_ok(es) {
            assert forall|i: int| 0 <= i < es.len() implies #[trigger] expr_ok(es[i]) by {
                if i < es.len() - 1 {
                    assert(front[i] == es[i]);
                }
            }
        }
    }
}

/// A list of statements is well formed when each of them is.
pub proof fn lemma_stmts_ok(ss: Seq<Stmt>)
    ensures
        stmts_ok(ss) <==> forall|i: int| 0 <= i < ss.len() ==> #[trigger] stmt_ok(ss[i]),
    decreases ss.len(),
{
    if ss.len() > 0 {
        let front = ss.subrange(0, ss.len() - 1);
        lemma_stmts_ok(front);
        assert(stmts_ok(ss) == (stmts_ok(front) && stmt_ok(ss[ss.len() - 1])));
        if forall|i: int| 0 <= i < ss.len() ==> #[trigger] stmt_ok(ss[i]) {
            assert forall|i: int| 0 <= i < front.len() implies #[trigger] stmt_ok(front[i]) by {
                assert(front[i] == ss[i]);
            }
        }
        if stmts_ok(ss) {
            assert forall|i: int| 0 <= i < ss.len() implies #[trigger] stmt_ok(ss[i]) by {
                if i < ss.len() - 1 {
                    assert(front[i] == ss[i]);
                }
            }
        }
    }
}

fn is_binary_operator(t: TokenType) -> (r: bool)
    ensures
        r == binary_operator(t),
{
    match t {
        TokenType::Minus | TokenType::Slash | TokenType::Star | TokenType::Plus | TokenType::Greater
        | TokenType::GreaterEqual | TokenType::Less | TokenType::LessEqual | TokenType::EqualEqual
        | TokenType::BangEqual => true,
        _ => false,
    }
}

/// Whether every operator in the expression is one the interpreter
/// applies.
#[verifier::loop_isolation(false)]
pub fn expr_is_ok(e: &Expr) -> (r: bool)
    ensures
        r == expr_ok(*e),
    decreases e,
{
    match e {
        Expr::Binary(b) => is_binary_operator(b.operator.token_type) && expr_is_ok(&b.left) && expr_is_ok(&b.right),
        Expr::Call(c) => {
            if !expr_is_ok(&c.callee) {
                return false;
            }
            proof { lemma_exprs_ok(c.args@); }
            let mut i: usize = 0;
            while i < c.args.len()
                invariant
                    i <= c.args@.len(),
                    forall|k: int| 0 <= k < i ==> #[trigger] expr_ok(c.args@[k]),
                decreases c.args@.len() - i,
            {
                if !expr_is_ok(&c.args[i]) {
                    assert(!expr_ok(c.args@[i as int]));
                    return false;
                }
                i = i + 1;
            }
            true
        },
        Expr::Grouping(g) => expr_is_ok(&g.expression),
        Expr::Literal(_) => true,
        Expr::Unary(u) => (u.operator.token_type == TokenType::Minus || u.operator.token_type == TokenType::Bang)
            && expr_is_ok(&u.right),
        Expr::Variable(_) => true,
        Expr::Assign(a) => expr_is_ok(&a.value),
        Expr::Logical(l) => expr_is_ok(&l.left) && expr_is_ok(&l.right),
    }
}

/// Whether every expression in the statement is well formed.
pub fn stmt_is_ok(s: &Stmt) -> (r: bool)
    ensures
        r == stmt_ok(*s),
    decreases s,
{
    match s {
        Stmt::Expr(e) => expr_is_ok(e),
        Stmt::Print(e) => expr_is_ok(e),
        Stmt::Block(b) => program_is_ok(b.as_slice()),
        Stmt::If(i) => expr_is_ok(&i.condition) && stmt_is_ok(&i.then_branch) && match &i.else_branch {
            Some(e) => stmt_is_ok(e),
            None => true,
        },
        Stmt::While(w) => expr_is_ok(&w.condition) && stmt_is_ok(&w.body),
        Stmt::Function(f) => program_is_ok(f.body.as_slice()),
        Stmt::Var(v) => match &v.initializer {
            Some(e) => expr_is_ok(e),
            None => true,
        },
        Stmt::Return(r) => expr_is_ok(&r.value),
    }
}

/// Whether every statement of the list is well formed.
#[verifier::loop_isolation(false)]
pub fn program_is_ok(ss: &[Stmt]) -> (r: bool)
    ensures
        r == stmts_ok(ss@),
    decreases ss@,
{
    proof { lemma_stmts_ok(ss@); }
    let mut i: usize = 0;
    while i < ss.len()
        invariant
            i <= ss@.len(),
            forall|k: int| 0 <= k < i ==> #[trigger] stmt_ok(ss@[k]),
        decreases ss@.len() - i,
    {
        if !stmt_is_ok(&ss[i]) {
            assert(!stmt_ok(ss@[i as int]));
            return false;
        }
        i = i + 1;
    }
    true
}

} // verus!
