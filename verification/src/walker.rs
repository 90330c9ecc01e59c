use vstd::prelude::*;
use vstd::string::StringExecFns;

use crate::ast::error::{Error, RuntimeError};
use crate::ast::stmt::{IfStmt, Stmt, WhileStmt, FunctionStmt};
use crate::ast::text::{decimal, decimal_chars, string_of};
use crate::ast::token::{Literal, Token, TokenType};
use crate::environment::Environment;
use crate::expr::{AssignExpr, BinaryExpr, CallExpr, Expr, LogicalExpr, UnaryExpr, Var};

verus! {

/// A number of the tree-walking interpreter, a double-precision float: the
/// numeral the source spelled, or the bits of a result computed outside the
/// library.
#[derive(Debug)]
pub enum Num {
    Numeral(String),
    Bits(u64),
}

pub enum NumModel {
    Numeral(Seq<char>),
    Bits(u64),
}

impl View for Num {
    type V = NumModel;

    open spec fn view(&self) -> NumModel {
        match self {
            Num::Numeral(s) => NumModel::Numeral(s@),
            Num::Bits(b) => NumModel::Bits(*b),
        }
    }
}

/// A value of the tree-walking interpreter. A function is the index of its
/// closure; `Clock` is the native clock.
#[derive(Debug)]
pub enum LoxValue {
    Number(Num),
    Str(String),
    Bool(bool),
    Nil,
    Function(usize),
    Clock,
}

pub enum ValModel {
    Number(NumModel),
    Str(Seq<char>),
    Bool(bool),
    Nil,
    Function(int),
    Clock,
}

impl View for LoxValue {
    type V = ValModel;

    open spec fn view(&self) -> ValModel {
        match self {
            LoxValue::Number(n) => ValModel::Number(n@),
            LoxValue::Str(s) => ValModel::Str(s@),
            LoxValue::Bool(b) => ValModel::Bool(*b),
            LoxValue::Nil => ValModel::Nil,
            LoxValue::Function(i) => ValModel::Function(*i as int),
            LoxValue::Clock => ValModel::Clock,
        }
    }
}

/// Only `nil` and `false` are false.
pub open spec fn truthy(v: ValModel) -> bool {
    !(v matches ValModel::Nil || v matches ValModel::Bool(false))
}

/// Equality of two values that are not both numbers: same kind and same
/// content; a function equals only itself.
pub open spec fn same_value(a: ValModel, b: ValModel) -> bool {
    match (a, b) {
        (ValModel::Str(x), ValModel::Str(y)) => x == y,
        (ValModel::Bool(x), ValModel::Bool(y)) => x == y,
        (ValModel::Nil, ValModel::Nil) => true,
        (ValModel::Function(x), ValModel::Function(y)) => x == y,
        (ValModel::Clock, ValModel::Clock) => true,
        _ => false,
    }
}

/// The value of a literal.
pub open spec fn literal_model(l: Literal) -> ValModel {
    match l {
        Literal::Number(n) => ValModel::Number(NumModel::Numeral(n@)),
        Literal::String(s) => ValModel::Str(s@),
        Literal::Bool(b) => ValModel::Bool(b),
        Literal::Nil => ValModel::Nil,
    }
}

impl Num {
    pub fn duplicate(&self) -> (r: Num)
        ensures
            r@ == self@,
    {
        match self {
            Num::Numeral(s) => Num::Numeral(s.clone()),
            Num::Bits(b) => Num::Bits(*b),
        }
    }
}

impl LoxValue {
    /// A copy of this value.
    pub fn duplicate(&self) -> (r: LoxValue)
        ensures
            r@ == self@,
    {
        match self {
            LoxValue::Number(n) => LoxValue::Number(n.duplicate()),
            LoxValue::Str(s) => LoxValue::Str(s.clone()),
            LoxValue::Bool(b) => LoxValue::Bool(*b),
            LoxValue::Nil => LoxValue::Nil,
            LoxValue::Function(i) => LoxValue::Function(*i),
            LoxValue::Clock => LoxValue::Clock,
        }
    }

    pub fn is_truthy(&self) -> (r: bool)
        ensures
            r == truthy(self@),
    {
        match self {
            LoxValue::Nil => false,
            LoxValue::Bool(b) => *b,
            _ => true,
        }
    }

    /// The value of a literal.
    pub fn from_literal(l: &Literal) -> (r: LoxValue)
        ensures
            r@ == literal_model(*l),
    {
        match l {
            Literal::Number(n) => LoxValue::Number(Num::Numeral(n.clone())),
            Literal::String(s) => LoxValue::Str(s.clone()),
            Literal::Bool(b) => LoxValue::Bool(*b),
            Literal::Nil => LoxValue::Nil,
        }
    }
}

pub(crate) fn same(a: &LoxValue, b: &LoxValue) -> (r: bool)
    ensures
        r == same_value(a@, b@),
{
    match (a, b) {
        (LoxValue::Str(x), LoxValue::Str(y)) => *x == *y,
        (LoxValue::Bool(x), LoxValue::Bool(y)) => *x == *y,
        (LoxValue::Nil, LoxValue::Nil) => true,
        (LoxValue::Function(x), LoxValue::Function(y)) => *x == *y,
        (LoxValue::Clock, LoxValue::Clock) => true,
        _ => false,
    }
}

/// The message for a call with the wrong number of arguments.
pub(crate) fn arity_message(expected: usize, got: usize) -> (s: String)
    ensures
        s@ == msg_arity(expected as nat, got as nat),
{
    let e = decimal_chars(expected);
    let g = decimal_chars(got);
    let mut s = String::from_str("Expected ");
    s.append(string_of(e.as_slice()).as_str());
    s.append(" arguments but got ");
    s.append(string_of(g.as_slice()).as_str());
    s.append(".");
    s
}

/// A scope: the scope around it, and its own variables.
pub struct Scope {
    pub parent: Option<usize>,
    pub vars: Environment<LoxValue>,
}

pub struct ScopeModel {
    pub parent: Option<int>,
    pub vars: Map<Seq<char>, ValModel>,
}

/// A function value: its declaration and the scope it was declared in.
#[derive(Clone, Copy)]
pub struct LoxFunction<'a> {
    pub declaration: &'a FunctionStmt,
    pub closure: usize,
}

impl<'a> LoxFunction<'a> {
    pub fn new(declaration: &'a FunctionStmt, closure: usize) -> (f: Self)
        ensures
            f.declaration == declaration,
            f.closure == closure,
    {
        Self { declaration, closure }
    }

    /// How many arguments a call of the function takes.
    pub fn arity(&self) -> (n: usize)
        ensures
            n == self.declaration.params@.len(),
    {
        self.declaration.params.len()
    }
}

/// What the interpreter has still to do, innermost last.
#[derive(Clone, Copy)]
pub enum Work<'a> {
    /// Evaluate an expression, leaving its value on the value stack.
    Eval(&'a Expr),
    /// Execute a statement.
    Exec(&'a Stmt),
    /// The statements of the program from an index on, run with this many
    /// values below them on the stack; a `return` outside a function ends
    /// only the statement it is in.
    Program(&'a [Stmt], usize, usize),
    /// The statements of a block from an index on.
    Block(&'a [Stmt], usize),
    /// The left operand is on the stack: evaluate the right one.
    BinaryRight(&'a BinaryExpr),
    /// Both operands are on the stack: apply the operator.
    BinaryApply(&'a BinaryExpr),
    UnaryApply(&'a UnaryExpr),
    AssignTo(&'a AssignExpr),
    LogicalRight(&'a LogicalExpr),
    /// The callee and this many arguments are on the stack.
    CallArgs(&'a CallExpr, usize),
    /// Drop the value of an expression statement.
    Discard,
    /// Hand the value on the stack to be printed.
    PrintTop,
    Define(&'a Var),
    Branch(&'a IfStmt),
    WhileTest(&'a WhileStmt),
    /// Leave a block: back to this scope. The second number is how many
    /// values were on the stack when the block began. A `return` inside the
    /// block stops here: the block ends and the statement after it runs.
    RestoreEnv(usize, usize),
    /// End of a function body without `return`: back to this scope, with
    /// the value `nil`. The second number is how many values the caller
    /// had on the stack when the call began.
    CallReturn(usize, usize),
    /// A `return`: the value on the stack goes back to the caller.
    ReturnValue,
}

/// The content of a closure.
pub struct FunModel {
    pub decl: FunctionStmt,
    pub scope: int,
}

impl<'a> View for LoxFunction<'a> {
    type V = FunModel;

    open spec fn view(&self) -> FunModel {
        FunModel { decl: *self.declaration, scope: self.closure as int }
    }
}

/// The content of a work item.
pub enum WorkModel {
    Eval(Expr),
    Exec(Stmt),
    Program(Seq<Stmt>, int, int),
    Block(Seq<Stmt>, int),
    BinaryRight(BinaryExpr),
    BinaryApply(BinaryExpr),
    UnaryApply(UnaryExpr),
    AssignTo(AssignExpr),
    LogicalRight(LogicalExpr),
    CallArgs(CallExpr, int),
    Discard,
    PrintTop,
    Define(Var),
    Branch(IfStmt),
    WhileTest(WhileStmt),
    RestoreEnv(int, int),
    CallReturn(int, int),
    ReturnValue,
}

impl<'a> View for Work<'a> {
    type V = WorkModel;

    open spec fn view(&self) -> WorkModel {
        match *self {
            Work::Eval(e) => WorkModel::Eval(*e),
            Work::Exec(s) => WorkModel::Exec(*s),
            Work::Program(ss, i, h) => WorkModel::Program(ss@, i as int, h as int),
            Work::Block(ss, i) => WorkModel::Block(ss@, i as int),
            Work::BinaryRight(b) => WorkModel::BinaryRight(*b),
            Work::BinaryApply(b) => WorkModel::BinaryApply(*b),
            Work::UnaryApply(u) => WorkModel::UnaryApply(*u),
            Work::AssignTo(a) => WorkModel::AssignTo(*a),
            Work::LogicalRight(l) => WorkModel::LogicalRight(*l),
            Work::CallArgs(c, n) => WorkModel::CallArgs(*c, n as int),
            Work::Discard => WorkModel::Discard,
            Work::PrintTop => WorkModel::PrintTop,
            Work::Define(v) => WorkModel::Define(*v),
            Work::Branch(i) => WorkModel::Branch(*i),
            Work::WhileTest(w) => WorkModel::WhileTest(*w),
            Work::RestoreEnv(e, h) => WorkModel::RestoreEnv(e as int, h as int),
            Work::CallReturn(e, h) => WorkModel::CallReturn(e as int, h as int),
            Work::ReturnValue => WorkModel::ReturnValue,
        }
    }
}

/// The interpreter as mathematics.
pub struct WalkModel {
    pub work: Seq<WorkModel>,
    pub values: Seq<ValModel>,
    pub scopes: Seq<ScopeModel>,
    pub env: int,
    pub functions: Seq<FunModel>,
}

/// What a step asks of whoever runs the interpreter.
pub enum WalkStep {
    Continue,
    /// Print the value.
    Print(LoxValue),
    /// Apply the operator to the two numbers, left first, and push the
    /// result: a number, or a boolean for a comparison or an equality.
    Arithmetic(TokenType, Num, Num),
    /// Push the negation of the number.
    Negate(Num),
    /// Push the current time in seconds.
    Clock,
}

pub enum WalkEvent {
    Continue,
    Print(ValModel),
    Arithmetic(TokenType, NumModel, NumModel),
    Negate(NumModel),
    Clock,
}

impl View for WalkStep {
    type V = WalkEvent;

    open spec fn view(&self) -> WalkEvent {
        match self {
            WalkStep::Continue => WalkEvent::Continue,
            WalkStep::Print(v) => WalkEvent::Print(v@),
            WalkStep::Arithmetic(t, a, b) => WalkEvent::Arithmetic(*t, a@, b@),
            WalkStep::Negate(n) => WalkEvent::Negate(n@),
            WalkStep::Clock => WalkEvent::Clock,
        }
    }
}

/// What a step comes to: an event, or a runtime error at a token.
pub enum WalkOutcome {
    Event(WalkEvent),
    Fault(Token, Seq<char>),
}

/// The scope that binds `name`, looking from scope `i` outwards.
pub open spec fn chain_owner(scopes: Seq<ScopeModel>, i: int, name: Seq<char>) -> Option<int>
    decreases i,
{
    if !(0 <= i < scopes.len()) {
        None
    } else if scopes[i].vars.contains_key(name) {
        Some(i)
    } else {
        match scopes[i].parent {
            Some(p) => if 0 <= p < i { chain_owner(scopes, p, name) } else { None },
            None => None,
        }
    }
}

/// The scope found binds the name and lies in the chain.
pub proof fn lemma_owner_binds(scopes: Seq<ScopeModel>, i: int, name: Seq<char>)
    ensures
        chain_owner(scopes, i, name) matches Some(j) ==> 0 <= j <= i && j < scopes.len() && scopes[j].vars.contains_key(name),
    decreases i,
{
    if 0 <= i < scopes.len() && !scopes[i].vars.contains_key(name) {
        if let Some(p) = scopes[i].parent {
            if 0 <= p < i {
                lemma_owner_binds(scopes, p, name);
            }
        }
    }
}

/// The value `name` has, from scope `i` outwards.
pub open spec fn chain_lookup(scopes: Seq<ScopeModel>, i: int, name: Seq<char>) -> Option<ValModel> {
    match chain_owner(scopes, i, name) {
        Some(j) => Some(scopes[j].vars[name]),
        None => None,
    }
}

/// The scopes after giving `value` to the innermost binding of `name` from
/// scope `i` outwards; `None` when none binds it.
pub open spec fn chain_assign(scopes: Seq<ScopeModel>, i: int, name: Seq<char>, value: ValModel) -> Option<Seq<ScopeModel>> {
    match chain_owner(scopes, i, name) {
        Some(j) => Some(scopes.update(j, ScopeModel { vars: scopes[j].vars.insert(name, value), ..scopes[j] })),
        None => None,
    }
}

pub open spec fn msg_number_operand() -> Seq<char> {
    "Operand must be a number"@
}

pub open spec fn msg_plus_operand() -> Seq<char> {
    "Operand must be a number or a string"@
}

pub open spec fn msg_plus_operands() -> Seq<char> {
    "Operands must be two numbers or two strings"@
}

pub open spec fn msg_not_callable() -> Seq<char> {
    "Can only call functions and classes"@
}

pub open spec fn msg_arity(expected: nat, got: nat) -> Seq<char> {
    "Expected "@ + decimal(expected) + " arguments but got "@ + decimal(got) + "."@
}

pub open spec fn msg_undefined_get(name: Seq<char>) -> Seq<char> {
    "Undefined variable '"@ + name + "'"@
}

pub open spec fn msg_undefined_set(name: Seq<char>) -> Seq<char> {
    "Undefined variable '"@ + name + "'."@
}

/// The error for an operator the interpreter does not apply. No tree the
/// interpreter accepts holds one (see `wellformed`), so no run reaches it.
pub open spec fn msg_unknown_operator() -> Seq<char> {
    "Unknown operator"@
}

/// The state after a runtime error: nothing left to do, back in the
/// outermost scope.
pub open spec fn halted(m: WalkModel) -> WalkModel {
    WalkModel { work: Seq::empty(), values: Seq::empty(), env: 0, ..m }
}

pub open spec fn fault(m: WalkModel, t: Token, msg: Seq<char>) -> (WalkModel, WalkOutcome) {
    (halted(m), WalkOutcome::Fault(t, msg))
}

pub open spec fn cont(m: WalkModel) -> (WalkModel, WalkOutcome) {
    (m, WalkOutcome::Event(WalkEvent::Continue))
}

/// Where a `return` stops: at a call, whose caller had this many values;
/// at the end of a block, which began with this many values; at the
/// program, which runs with this many values below it; or nowhere.
pub enum Unwound {
    Call(int),
    Block(int),
    Program(int),
    Nothing,
}

/// The work after a `return` has unwound up to the function it returns
/// from, to the end of the block statement it is in (which ends there, its
/// value dropped), or to the statement of the program it is in: the work
/// left, the scope to go back to, and where it stopped.
pub open spec fn unwind(work: Seq<WorkModel>, env: int) -> (Seq<WorkModel>, int, Unwound)
    decreases work.len(),
{
    if work.len() == 0 {
        (work, env, Unwound::Nothing)
    } else {
        match work.last() {
            WorkModel::CallReturn(e, h) => (work.drop_last(), e, Unwound::Call(h)),
            WorkModel::Program(_, _, h) => (work, env, Unwound::Program(h)),
            WorkModel::RestoreEnv(e, h) => (work.drop_last(), e, Unwound::Block(h)),
            _ => unwind(work.drop_last(), env),
        }
    }
}

/// The first `h` values, when there are that many.
pub open spec fn cut(values: Seq<ValModel>, h: int) -> Seq<ValModel> {
    if 0 <= h <= values.len() {
        values.take(h)
    } else {
        values
    }
}

/// One step of the interpreter, `m.work` not empty.
pub open spec fn walk_next(m: WalkModel) -> (WalkModel, WalkOutcome) {
    let w = m.work.last();
    let m0 = WalkModel { work: m.work.drop_last(), ..m };
    match w {
        WorkModel::Eval(e) => next_eval(m0, e),
        WorkModel::Exec(s) => next_exec(m0, s),
        WorkModel::Program(ss, i, h) => if 0 <= i < ss.len() {
            cont(WalkModel { work: m0.work.push(WorkModel::Program(ss, i + 1, h)).push(WorkModel::Exec(ss[i])), ..m0 })
        } else {
            cont(m0)
        },
        WorkModel::Block(ss, i) => if 0 <= i < ss.len() {
            cont(WalkModel { work: m0.work.push(WorkModel::Block(ss, i + 1)).push(WorkModel::Exec(ss[i])), ..m0 })
        } else {
            cont(m0)
        },
        WorkModel::BinaryRight(b) => cont(WalkModel { work: m0.work.push(WorkModel::BinaryApply(b)).push(WorkModel::Eval(*b.right)), ..m0 }),
        WorkModel::BinaryApply(b) => next_binary(m0, b),
        WorkModel::UnaryApply(u) => next_unary(m0, u),
        WorkModel::AssignTo(a) => {
            let v = m0.values.last();
            match chain_assign(m0.scopes, m0.env, a.name.lexeme@, v) {
                Some(scopes) => cont(WalkModel { scopes, ..m0 }),
                None => fault(m0, a.name, msg_undefined_set(a.name.lexeme@)),
            }
        },
        WorkModel::LogicalRight(l) => {
            let v = m0.values.last();
            if (l.operator.token_type == TokenType::Or) == truthy(v) {
                cont(m0)
            } else {
                cont(WalkModel { work: m0.work.push(WorkModel::Eval(*l.right)), values: m0.values.drop_last(), ..m0 })
            }
        },
        WorkModel::CallArgs(c, n) => if 0 <= n < c.args@.len() {
            cont(WalkModel { work: m0.work.push(WorkModel::CallArgs(c, n + 1)).push(WorkModel::Eval(c.args@[n])), ..m0 })
        } else {
            next_call(m0, c, n)
        },
        WorkModel::Discard => cont(WalkModel { values: m0.values.drop_last(), ..m0 }),
        WorkModel::PrintTop => (WalkModel { values: m0.values.drop_last(), ..m0 }, WalkOutcome::Event(WalkEvent::Print(m0.values.last()))),
        WorkModel::Define(v) => cont(define_here(WalkModel { values: m0.values.drop_last(), ..m0 }, v.name.lexeme@, m0.values.last())),
        WorkModel::Branch(i) => {
            let v = m0.values.last();
            let m1 = WalkModel { values: m0.values.drop_last(), ..m0 };
            if truthy(v) {
                cont(WalkModel { work: m1.work.push(WorkModel::Exec(*i.then_branch)), ..m1 })
            } else {
                match i.else_branch {
                    Some(e) => cont(WalkModel { work: m1.work.push(WorkModel::Exec(*e)), ..m1 }),
                    None => cont(m1),
                }
            }
        },
        WorkModel::WhileTest(wh) => {
            let v = m0.values.last();
            let m1 = WalkModel { values: m0.values.drop_last(), ..m0 };
            if truthy(v) {
                cont(WalkModel {
                    work: m1.work.push(WorkModel::WhileTest(wh)).push(WorkModel::Eval(wh.condition)).push(WorkModel::Exec(*wh.body)),
                    ..m1
                })
            } else {
                cont(m1)
            }
        },
        WorkModel::RestoreEnv(e, _) => cont(WalkModel { env: e, ..m0 }),
        WorkModel::CallReturn(e, _) => cont(WalkModel { env: e, values: m0.values.push(ValModel::Nil), ..m0 }),
        WorkModel::ReturnValue => {
            let v = m0.values.last();
            let rest = m0.values.drop_last();
            let (work, env, stop) = unwind(m0.work, m0.env);
            let values = match stop {
                Unwound::Call(h) => cut(rest, h).push(v),
                Unwound::Block(h) => cut(rest, h),
                Unwound::Program(h) => cut(rest, h),
                Unwound::Nothing => rest,
            };
            cont(WalkModel { work, env, values, ..m0 })
        },
    }
}

/// `name` bound to `v` in the current scope.
pub open spec fn define_here(m: WalkModel, name: Seq<char>, v: ValModel) -> WalkModel {
    WalkModel { scopes: m.scopes.update(m.env, ScopeModel { vars: m.scopes[m.env].vars.insert(name, v), ..m.scopes[m.env] }), ..m }
}

/// A new scope inside the current one, entered.
pub open spec fn enter_scope(m: WalkModel, parent: int) -> WalkModel {
    WalkModel { scopes: m.scopes.push(ScopeModel { parent: Some(parent), vars: Map::empty() }), env: m.scopes.len() as int, ..m }
}

pub open spec fn next_eval(m: WalkModel, e: Expr) -> (WalkModel, WalkOutcome) {
    match e {
        Expr::Binary(b) => cont(WalkModel { work: m.work.push(WorkModel::BinaryRight(b)).push(WorkModel::Eval(*b.left)), ..m }),
        Expr::Grouping(g) => cont(WalkModel { work: m.work.push(WorkModel::Eval(*g.expression)), ..m }),
        Expr::Literal(l) => cont(WalkModel { values: m.values.push(literal_model(l.value)), ..m }),
        Expr::Unary(u) => cont(WalkModel { work: m.work.push(WorkModel::UnaryApply(u)).push(WorkModel::Eval(*u.right)), ..m }),
        Expr::Variable(t) => match chain_lookup(m.scopes, m.env, t.lexeme@) {
            Some(v) => cont(WalkModel { values: m.values.push(v), ..m }),
            None => fault(m, t, msg_undefined_get(t.lexeme@)),
        },
        Expr::Assign(a) => cont(WalkModel { work: m.work.push(WorkModel::AssignTo(a)).push(WorkModel::Eval(*a.value)), ..m }),
        Expr::Logical(l) => cont(WalkModel { work: m.work.push(WorkModel::LogicalRight(l)).push(WorkModel::Eval(*l.left)), ..m }),
        Expr::Call(c) => cont(WalkModel { work: m.work.push(WorkModel::CallArgs(c, 0)).push(WorkModel::Eval(*c.callee)), ..m }),
    }
}

pub open spec fn next_exec(m: WalkModel, s: Stmt) -> (WalkModel, WalkOutcome) {
    match s {
        Stmt::Expr(e) => cont(WalkModel { work: m.work.push(WorkModel::Discard).push(WorkModel::Eval(e)), ..m }),
        Stmt::Print(e) => cont(WalkModel { work: m.work.push(WorkModel::PrintTop).push(WorkModel::Eval(e)), ..m }),
        Stmt::Var(v) => match v.initializer {
            Some(init) => cont(WalkModel { work: m.work.push(WorkModel::Define(v)).push(WorkModel::Eval(init)), ..m }),
            None => cont(define_here(m, v.name.lexeme@, ValModel::Nil)),
        },
        Stmt::Block(b) => cont(WalkModel {
            work: m.work.push(WorkModel::RestoreEnv(m.env, m.values.len() as int)).push(WorkModel::Block(b@, 0)),
            ..enter_scope(m, m.env)
        }),
        Stmt::If(i) => cont(WalkModel { work: m.work.push(WorkModel::Branch(i)).push(WorkModel::Eval(i.condition)), ..m }),
        Stmt::While(w) => cont(WalkModel { work: m.work.push(WorkModel::WhileTest(w)).push(WorkModel::Eval(w.condition)), ..m }),
        Stmt::Function(f) => {
            let m1 = WalkModel { functions: m.functions.push(FunModel { decl: f, scope: m.env }), ..m };
            cont(define_here(m1, f.name.lexeme@, ValModel::Function(m.functions.len() as int)))
        },
        Stmt::Return(r) => cont(WalkModel { work: m.work.push(WorkModel::ReturnValue).push(WorkModel::Eval(r.value)), ..m }),
    }
}

/// Whether a binary operator is a numeric one.
pub open spec fn numeric_operator(t: TokenType) -> bool {
    t == TokenType::Minus || t == TokenType::Slash || t == TokenType::Star || t == TokenType::Greater
        || t == TokenType::GreaterEqual || t == TokenType::Less || t == TokenType::LessEqual
}

pub open spec fn next_binary(m: WalkModel, b: BinaryExpr) -> (WalkModel, WalkOutcome) {
    let n = m.values.len();
    let left = m.values[n - 2];
    let right = m.values[n - 1];
    let m1 = WalkModel { values: m.values.subrange(0, n - 2), ..m };
    let op = b.operator.token_type;
    if numeric_operator(op) {
        match (left, right) {
            (ValModel::Number(x), ValModel::Number(y)) => (m1, WalkOutcome::Event(WalkEvent::Arithmetic(op, x, y))),
            _ => fault(m1, b.operator, msg_number_operand()),
        }
    } else if op == TokenType::Plus {
        if !(left is Number || left is Str) || !(right is Number || right is Str) {
            fault(m1, b.operator, msg_plus_operand())
        } else {
            match (left, right) {
                (ValModel::Number(x), ValModel::Number(y)) => (m1, WalkOutcome::Event(WalkEvent::Arithmetic(op, x, y))),
                (ValModel::Str(x), ValModel::Str(y)) => cont(WalkModel { values: m1.values.push(ValModel::Str(x + y)), ..m1 }),
                _ => fault(m1, b.operator, msg_plus_operands()),
            }
        }
    } else if op == TokenType::EqualEqual || op == TokenType::BangEqual {
        match (left, right) {
            (ValModel::Number(x), ValModel::Number(y)) => (m1, WalkOutcome::Event(WalkEvent::Arithmetic(op, x, y))),
            _ => cont(WalkModel { values: m1.values.push(ValModel::Bool(same_value(left, right) == (op == TokenType::EqualEqual))), ..m1 }),
        }
    } else {
        fault(m1, b.operator, msg_unknown_operator())
    }
}

pub open spec fn next_unary(m: WalkModel, u: UnaryExpr) -> (WalkModel, WalkOutcome) {
    let v = m.values.last();
    let m1 = WalkModel { values: m.values.drop_last(), ..m };
    if u.operator.token_type == TokenType::Minus {
        match v {
            ValModel::Number(x) => (m1, WalkOutcome::Event(WalkEvent::Negate(x))),
            _ => fault(m1, u.operator, msg_number_operand()),
        }
    } else if u.operator.token_type == TokenType::Bang {
        cont(WalkModel { values: m1.values.push(ValModel::Bool(!truthy(v))), ..m1 })
    } else {
        fault(m1, u.operator, msg_unknown_operator())
    }
}

/// The call once its callee and its `n` arguments are on the stack.
pub open spec fn next_call(m: WalkModel, c: CallExpr, n: int) -> (WalkModel, WalkOutcome) {
    let k = m.values.len();
    let callee = m.values[k - n - 1];
    let args = m.values.subrange(k - n, k as int);
    let m1 = WalkModel { values: m.values.subrange(0, k - n - 1), ..m };
    match callee {
        ValModel::Clock => if n != 0 {
            fault(m1, c.paren, msg_arity(0, n as nat))
        } else {
            (m1, WalkOutcome::Event(WalkEvent::Clock))
        },
        ValModel::Function(f) => if !(0 <= f < m.functions.len()) {
            fault(m1, c.paren, msg_not_callable())
        } else {
            let closure = m.functions[f];
            let params = closure.decl.params@;
            if params.len() != n {
                fault(m1, c.paren, msg_arity(params.len(), n as nat))
            } else {
                let m2 = enter_scope(m1, closure.scope);
                let m3 = WalkModel {
                    scopes: m2.scopes.update(m2.env, ScopeModel {
                        vars: bind_all(Map::empty(), params, args),
                        ..m2.scopes[m2.env]
                    }),
                    ..m2
                };
                cont(WalkModel {
                    work: m1.work.push(WorkModel::CallReturn(m.env, m1.values.len() as int)).push(WorkModel::Block(closure.decl.body@, 0)),
                    ..m3
                })
            }
        },
        _ => fault(m1, c.paren, msg_not_callable()),
    }
}

/// Binding one more parameter adds its argument to what the earlier ones
/// bound.
pub proof fn lemma_bind_one_more(vars: Map<Seq<char>, ValModel>, params: Seq<Token>, args: Seq<ValModel>, k: int)
    requires
        0 <= k < params.len(),
        k < args.len(),
    ensures
        bind_all(vars, params.take(k + 1), args.take(k + 1))
            == bind_all(vars, params.take(k), args.take(k)).insert(params[k].lexeme@, args[k]),
{
    assert(params.take(k + 1).drop_last() =~= params.take(k));
    assert(args.take(k + 1).drop_last() =~= args.take(k));
}

/// The parameters bound to the arguments, in order; a later parameter of
/// the same name wins.
pub open spec fn bind_all(vars: Map<Seq<char>, ValModel>, params: Seq<Token>, args: Seq<ValModel>) -> Map<Seq<char>, ValModel>
    decreases params.len(),
{
    if params.len() == 0 || args.len() == 0 {
        vars
    } else {
        bind_all(vars, params.drop_last(), args.drop_last()).insert(params.last().lexeme@, args.last())
    }
}

impl Scope {
    pub open spec fn model(&self) -> ScopeModel {
        ScopeModel {
            parent: match self.parent {
                Some(p) => Some(p as int),
                None => None,
            },
            vars: self.vars.frame().map_values(|v: LoxValue| v@),
        }
    }
}

/// How many values the work item takes from the value stack.
pub open spec fn needs(w: WorkModel) -> int {
    match w {
        WorkModel::BinaryApply(_) => 2,
        WorkModel::CallArgs(_, n) => n + 1,
        WorkModel::BinaryRight(_) | WorkModel::UnaryApply(_) | WorkModel::AssignTo(_) | WorkModel::LogicalRight(_)
        | WorkModel::Discard | WorkModel::PrintTop | WorkModel::Define(_) | WorkModel::Branch(_)
        | WorkModel::WhileTest(_) | WorkModel::ReturnValue => 1,
        _ => 0,
    }
}

/// There is work left, and the values its next item takes are there.
pub open spec fn ready(m: WalkModel) -> bool {
    m.work.len() > 0 && m.values.len() >= needs(m.work.last())
}

/// The result of a step says what the step came to.
pub open spec fn reports(r: Result<WalkStep, Error>, o: WalkOutcome) -> bool {
    match o {
        WalkOutcome::Event(e) => r matches Ok(s) && s@ == e,
        WalkOutcome::Fault(t, msg) => r matches Err(Error::Runtime(err)) && err.token == t && err.message@ == msg,
    }
}

/// Reading a variable just declared in the current scope gives the value
/// it was declared with.
pub proof fn law_read_after_declare(m: WalkModel, name: Seq<char>, v: ValModel)
    requires
        0 <= m.env < m.scopes.len(),
    ensures
        chain_lookup(define_here(m, name, v).scopes, m.env, name) == Some(v),
{
}

/// After an assignment succeeds, reading the variable gives the value
/// assigned.
pub proof fn law_read_after_assign(scopes: Seq<ScopeModel>, i: int, name: Seq<char>, v: ValModel)
    requires
        chain_assign(scopes, i, name, v) is Some,
    ensures
        chain_lookup(chain_assign(scopes, i, name, v)->0, i, name) == Some(v),
{
    lemma_owner_binds(scopes, i, name);
    let j = chain_owner(scopes, i, name)->0;
    let s2 = chain_assign(scopes, i, name, v)->0;
    assert forall|k: int| 0 <= k < scopes.len() implies (#[trigger] scopes[k]).parent == s2[k].parent && scopes[k].vars.dom() == s2[k].vars.dom() by {
        if k == j {
            assert(s2[k].vars.dom() =~= scopes[k].vars.dom());
        }
    }
    lemma_owner_same_keys(scopes, s2, i, name);
}

/// Two chains of scopes with the same parents and the same bound names
/// find the same scope for a name.
proof fn lemma_owner_same_keys(a: Seq<ScopeModel>, b: Seq<ScopeModel>, i: int, name: Seq<char>)
    requires
        a.len() == b.len(),
        forall|k: int| 0 <= k < a.len() ==> (#[trigger] a[k]).parent == b[k].parent && a[k].vars.dom() == b[k].vars.dom(),
    ensures
        chain_owner(a, i, name) == chain_owner(b, i, name),
    decreases i,
{
    if 0 <= i < a.len() {
        assert(a[i].vars.dom() == b[i].vars.dom());
        if !a[i].vars.contains_key(name) {
            if let Some(p) = a[i].parent {
                if 0 <= p < i {
                    lemma_owner_same_keys(a, b, p, name);
                }
            }
        }
    }
}

/// Scopes added after scope `i` do not change what a name means from `i`.
proof fn lemma_owner_prefix(scopes: Seq<ScopeModel>, more: Seq<ScopeModel>, i: int, name: Seq<char>)
    requires
        0 <= i < scopes.len(),
    ensures
        chain_owner(scopes + more, i, name) == chain_owner(scopes, i, name),
    decreases i,
{
    let all = scopes + more;
    assert(all[i] == scopes[i]);
    if !scopes[i].vars.contains_key(name) {
        if let Some(p) = scopes[i].parent {
            if 0 <= p < i {
                lemma_owner_prefix(scopes, more, p, name);
            }
        }
    }
}

/// A declaration in a block does not change what any name means outside
/// the block, while inside the block it hides the outer binding.
pub proof fn law_block_declaration_is_local(m: WalkModel, name: Seq<char>, v: ValModel, other: Seq<char>)
    requires
        0 <= m.env < m.scopes.len(),
    ensures
        ({
            let inner = define_here(enter_scope(m, m.env), name, v);
            &&& chain_lookup(inner.scopes, m.env, other) == chain_lookup(m.scopes, m.env, other)
            &&& chain_lookup(inner.scopes, inner.env, name) == Some(v)
        }),
{
    let inner = define_here(enter_scope(m, m.env), name, v);
    let n = m.scopes.len() as int;
    let added = seq![ScopeModel { parent: Some(m.env), vars: Map::empty().insert(name, v) }];
    assert(inner.scopes =~= m.scopes + added);
    lemma_owner_prefix(m.scopes, added, m.env, other);
    lemma_owner_binds(m.scopes, m.env, other);
}

/// Equality of values that are not both numbers is symmetric.
pub proof fn law_same_value_symmetric(a: ValModel, b: ValModel)
    ensures
        same_value(a, b) == same_value(b, a),
{
}

/// A value that is not a number equals itself.
pub proof fn law_same_value_reflexive(a: ValModel)
    requires
        !(a is Number),
    ensures
        same_value(a, a),
{
}

/// `==` and `!=` never fail on the types of their operands, and they give
/// opposite answers on the same operands: for two numbers both hand the
/// same operands to the caller, which compares them; otherwise `==` pushes
/// whether the values are equal and `!=` pushes the opposite.
pub proof fn law_equality_opposite(m: WalkModel, eq: BinaryExpr, ne: BinaryExpr)
    requires
        m.values.len() >= 2,
        eq.operator.token_type == TokenType::EqualEqual,
        ne.operator.token_type == TokenType::BangEqual,
    ensures
        ({
            let n = m.values.len() as int;
            let a = m.values[n - 2];
            let b = m.values[n - 1];
            let base = WalkModel { values: m.values.subrange(0, n - 2), ..m };
            let r1 = next_binary(m, eq);
            let r2 = next_binary(m, ne);
            match (a, b) {
                (ValModel::Number(x), ValModel::Number(y)) => {
                    &&& r1 == (base, WalkOutcome::Event(WalkEvent::Arithmetic(TokenType::EqualEqual, x, y)))
                    &&& r2 == (base, WalkOutcome::Event(WalkEvent::Arithmetic(TokenType::BangEqual, x, y)))
                },
                _ => {
                    &&& r1 == cont(WalkModel { values: base.values.push(ValModel::Bool(same_value(a, b))), ..base })
                    &&& r2 == cont(WalkModel { values: base.values.push(ValModel::Bool(!same_value(a, b))), ..base })
                },
            }
        }),
{
}

/// Executing a function declaration makes a new function whose closure is
/// the scope current at the declaration, and binds the function's name to
/// it there.
pub proof fn law_declaration_captures_scope(m: WalkModel, f: FunctionStmt)
    requires
        0 <= m.env < m.scopes.len(),
        m.work.len() > 0,
        m.work.last() == WorkModel::Exec(Stmt::Function(f)),
    ensures
        ({
            let r = walk_next(m).0;
            &&& r.functions.len() == m.functions.len() + 1
            &&& r.functions.last() == FunModel { decl: f, scope: m.env }
            &&& r.env == m.env
            &&& chain_lookup(r.scopes, r.env, f.name.lexeme@) == Some(ValModel::Function(m.functions.len() as int))
        }),
{
}

/// The parameters bind only their own names.
proof fn lemma_bind_all_keys(vars: Map<Seq<char>, ValModel>, params: Seq<Token>, args: Seq<ValModel>, x: Seq<char>)
    requires
        forall|i: int| 0 <= i < params.len() ==> (#[trigger] params[i]).lexeme@ != x,
    ensures
        bind_all(vars, params, args).contains_key(x) == vars.contains_key(x),
    decreases params.len(),
{
    if params.len() > 0 && args.len() > 0 {
        let front = params.drop_last();
        assert forall|i: int| 0 <= i < front.len() implies (#[trigger] front[i]).lexeme@ != x by {
            assert(front[i] == params[i]);
        }
        assert(params.last() == params[params.len() - 1]);
        lemma_bind_all_keys(vars, front, args.drop_last(), x);
    }
}

/// Calling a function runs its body in a new scope inside the function's
/// closure: there every parameter is bound to its argument, and every other
/// name means what it means in the closure. So a function declared inside
/// another function's body reads that body's variables.
pub proof fn law_call_sees_closure(m: WalkModel, c: CallExpr, n: int, x: Seq<char>)
    requires
        0 <= m.env < m.scopes.len(),
        m.work.len() > 0,
        m.work.last() == WorkModel::CallArgs(c, n),
        n >= c.args@.len(),
        n >= 0,
        m.values.len() >= n + 1,
        m.values[m.values.len() - n - 1] matches ValModel::Function(k) && 0 <= k < m.functions.len()
            && 0 <= m.functions[k].scope < m.scopes.len() && m.functions[k].decl.params@.len() == n,
    ensures
        ({
            let k = m.values[m.values.len() - n - 1]->Function_0;
            let closure = m.functions[k];
            let r = walk_next(m).0;
            &&& walk_next(m).1 == WalkOutcome::Event(WalkEvent::Continue)
            &&& r.env == m.scopes.len()
            &&& r.scopes.len() == m.scopes.len() + 1
            &&& r.scopes[r.env].parent == Some(closure.scope)
            &&& (forall|i: int| 0 <= i < n ==> (#[trigger] closure.decl.params@[i]).lexeme@ != x)
                ==> chain_lookup(r.scopes, r.env, x) == chain_lookup(m.scopes, closure.scope, x)
        }),
{
    let k = m.values[m.values.len() - n - 1]->Function_0;
    let closure = m.functions[k];
    let params = closure.decl.params@;
    let kk = m.values.len();
    let args = m.values.subrange(kk - n, kk as int);
    let r = walk_next(m).0;
    let scope = ScopeModel { parent: Some(closure.scope), vars: bind_all(Map::empty(), params, args) };
    assert(r.scopes =~= m.scopes + seq![scope]);
    if forall|i: int| 0 <= i < n ==> (#[trigger] params[i]).lexeme@ != x {
        lemma_bind_all_keys(Map::empty(), params, args, x);
        lemma_owner_prefix(m.scopes, seq![scope], closure.scope, x);
        lemma_owner_binds(m.scopes, closure.scope, x);
        assert(r.scopes[r.env] == scope);
    }
}

} // verus!
