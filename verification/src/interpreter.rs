use vstd::prelude::*;
use vstd::string::StringExecFns;

use crate::ast::error::{Error, RuntimeError};
use crate::ast::stmt::Stmt;
use crate::ast::token::{Token, TokenType};
use crate::environment::Environment;
use crate::expr::{BinaryExpr, CallExpr, Expr, UnaryExpr};
use crate::wellformed::{expr_ok, lemma_exprs_ok, lemma_stmts_ok, stmt_ok, stmts_ok};
use crate::walker::{
    arity_message, bind_all, chain_lookup, chain_owner, cut, define_here, enter_scope, halted, lemma_bind_one_more,
    lemma_owner_binds, next_binary, next_call, next_eval, next_exec, next_unary, ready, reports, same, unwind, walk_next,
    FunModel, LoxFunction, LoxValue, Scope, ScopeModel, Unwound, ValModel, WalkModel, WalkOutcome, WalkStep, Work,
    WorkModel,
};

verus! {

/// The tree-walking interpreter as a machine that runs one small step at a
/// time. Whoever drives it calls `step` while `can_step` holds, does what
/// each step asks (print, compute on numbers, read the clock), and pushes
/// any result back with `push_value`.
pub struct Interpreter<'a> {
    work: Vec<Work<'a>>,
    values: Vec<LoxValue>,
    scopes: Vec<Scope>,
    env: usize,
    functions: Vec<LoxFunction<'a>>,
}

/// A work item names only scopes that exist.
pub open spec fn names_scopes(w: WorkModel, n: int) -> bool {
    match w {
        WorkModel::RestoreEnv(e, _) => 0 <= e < n,
        WorkModel::CallReturn(e, _) => 0 <= e < n,
        _ => true,
    }
}

/// The trees a work item holds are well formed.
pub open spec fn work_ok(w: WorkModel) -> bool {
    match w {
        WorkModel::Eval(e) => expr_ok(e),
        WorkModel::Exec(st) => stmt_ok(st),
        WorkModel::Program(ss, _, _) => stmts_ok(ss),
        WorkModel::Block(ss, _) => stmts_ok(ss),
        WorkModel::BinaryRight(b) => expr_ok(Expr::Binary(b)),
        WorkModel::BinaryApply(b) => expr_ok(Expr::Binary(b)),
        WorkModel::UnaryApply(u) => expr_ok(Expr::Unary(u)),
        WorkModel::AssignTo(a) => expr_ok(Expr::Assign(a)),
        WorkModel::LogicalRight(l) => expr_ok(Expr::Logical(l)),
        WorkModel::CallArgs(c, _) => expr_ok(Expr::Call(c)),
        WorkModel::Define(v) => stmt_ok(Stmt::Var(v)),
        WorkModel::Branch(i) => stmt_ok(Stmt::If(i)),
        WorkModel::WhileTest(wh) => stmt_ok(Stmt::While(wh)),
        _ => true,
    }
}

/// Every tree the interpreter holds, in its work and in its functions, is
/// well formed.
pub open spec fn trees_ok(m: WalkModel) -> bool {
    &&& forall|k: int| 0 <= k < m.work.len() ==> work_ok(#[trigger] m.work[k])
    &&& forall|k: int| 0 <= k < m.functions.len() ==> stmts_ok(#[trigger] m.functions[k].decl.body@)
}

/// The scopes, functions and work items of a model refer to one another
/// consistently.
pub open spec fn model_wf(m: WalkModel) -> bool {
    &&& m.scopes.len() > 0
    &&& 0 <= m.env < m.scopes.len()
    &&& forall|k: int| 0 <= k < m.functions.len() ==> 0 <= #[trigger] m.functions[k].scope < m.scopes.len()
    &&& forall|k: int| 0 <= k < m.work.len() ==> names_scopes(#[trigger] m.work[k], m.scopes.len() as int)
}

/// The state the interpreter starts in: one global scope, where `clock`
/// is the native clock.
pub open spec fn start_state() -> WalkModel {
    WalkModel {
        work: Seq::empty(),
        values: Seq::empty(),
        scopes: seq![ScopeModel { parent: None, vars: Map::empty().insert("clock"@, ValModel::Clock) }],
        env: 0,
        functions: Seq::empty(),
    }
}

/// Unwinding keeps a bottom part of the work and ends in a scope that
/// exists.
proof fn lemma_unwind_keeps(work: Seq<WorkModel>, env: int, n: int)
    requires
        0 <= env < n,
        forall|k: int| 0 <= k < work.len() ==> names_scopes(#[trigger] work[k], n),
    ensures
        0 <= unwind(work, env).1 < n,
        unwind(work, env).0.len() <= work.len(),
        forall|k: int| 0 <= k < unwind(work, env).0.len() ==> #[trigger] unwind(work, env).0[k] == work[k],
    decreases work.len(),
{
    if work.len() > 0 {
        assert(names_scopes(work[work.len() - 1], n));
        match work.last() {
            WorkModel::CallReturn(e, _) => {},
            WorkModel::Program(_, _, _) => {},
            WorkModel::RestoreEnv(_, _) => {},
            _ => lemma_unwind_keeps(work.drop_last(), env, n),
        }
    }
}

/// Every step keeps the interpreter well formed: the current scope, the
/// scopes of closures and the scopes that work items go back to all exist.
pub proof fn law_step_keeps_wf(m: WalkModel)
    requires
        model_wf(m),
        m.work.len() > 0,
    ensures
        model_wf(walk_next(m).0),
{
    let n = m.scopes.len() as int;
    let m0 = WalkModel { work: m.work.drop_last(), ..m };
    assert(names_scopes(m.work[m.work.len() - 1], n));
    assert(model_wf(m0));
    match m.work.last() {
        WorkModel::ReturnValue => {
            lemma_unwind_keeps(m0.work, m0.env, n);
        },
        WorkModel::AssignTo(a) => {
            lemma_owner_binds(m0.scopes, m0.env, a.name.lexeme@);
        },
        _ => {},
    }
}

/// A runtime error ends all work in hand and goes back to the global
/// scope; the variables and functions defined before it stay.
pub proof fn law_error_resets(m: WalkModel)
    requires
        m.work.len() > 0,
    ensures
        walk_next(m).1 is Fault ==> ({
            let r = walk_next(m).0;
            &&& r.work.len() == 0
            &&& r.values.len() == 0
            &&& r.env == 0
            &&& r.scopes == m.scopes
            &&& r.functions == m.functions
        }),
{
}

impl<'a> View for Interpreter<'a> {
    type V = WalkModel;

    closed spec fn view(&self) -> WalkModel {
        WalkModel {
            work: self.work@.map_values(|w: Work<'a>| w@),
            values: self.values@.map_values(|v: LoxValue| v@),
            scopes: self.scopes@.map_values(|s: Scope| s.model()),
            env: self.env as int,
            functions: self.functions@.map_values(|f: LoxFunction<'a>| f@),
        }
    }
}

impl<'a> Interpreter<'a> {
    /// The model is well formed, and each scope holds each name once.
    pub closed spec fn wf(&self) -> bool {
        &&& model_wf(self@)
        &&& trees_ok(self@)
        &&& forall|i: int| 0 <= i < self.scopes@.len() ==> (#[trigger] self.scopes@[i]).vars.wf()
    }

    /// An interpreter with only the global scope.
    pub fn new() -> (r: Self)
        ensures
            r.wf(),
            r@ == start_state(),
    {
        let mut globals: Environment<LoxValue> = Environment::new();
        globals.define(String::from_str("clock"), LoxValue::Clock);
        proof {
            globals.lemma_innermost();
            assert(globals.frame().map_values(|v: LoxValue| v@) =~= Map::empty().insert("clock"@, ValModel::Clock));
        }
        let mut scopes: Vec<Scope> = Vec::new();
        scopes.push(Scope { parent: None, vars: globals });
        let r = Self { work: Vec::new(), values: Vec::new(), scopes, env: 0, functions: Vec::new() };
        assert(r@.scopes =~= start_state().scopes);
        assert(r@.work =~= Seq::<WorkModel>::empty());
        assert(r@.values =~= Seq::<ValModel>::empty());
        assert(r@.functions =~= Seq::<FunModel>::empty());
        r
    }

    /// Whether a step can be taken now.
    pub fn can_step(&self) -> (r: bool)
        ensures
            r == ready(self@),
    {
        if self.work.len() == 0 {
            return false;
        }
        let n = self.values.len();
        match self.work[self.work.len() - 1] {
            Work::BinaryApply(_) => n >= 2,
            Work::CallArgs(_, k) => n > k,
            Work::BinaryRight(_) | Work::UnaryApply(_) | Work::AssignTo(_) | Work::LogicalRight(_) | Work::Discard
            | Work::PrintTop | Work::Define(_) | Work::Branch(_) | Work::WhileTest(_) | Work::ReturnValue => n >= 1,
            _ => true,
        }
    }

    /// Hands a result back to the interpreter: `v` goes on top of the value
    /// stack.
    pub fn push_value(&mut self, v: LoxValue)
        requires
            old(self).wf(),
        ensures
            final(self).wf(),
            final(self)@ == (WalkModel { values: old(self)@.values.push(v@), ..old(self)@ }),
    {
        self.values.push(v);
        assert(self@.values =~= old(self)@.values.push(v@));
    }

    /// Takes back the value on top of the value stack, such as the value of
    /// an expression whose evaluation has run to its end.
    pub fn take_value(&mut self) -> (r: Option<LoxValue>)
        requires
            old(self).wf(),
        ensures
            final(self).wf(),
            old(self)@.values.len() == 0 ==> r is None && final(self)@ == old(self)@,
            old(self)@.values.len() > 0 ==> (r matches Some(v) && v@ == old(self)@.values.last()
                && final(self)@ == (WalkModel { values: old(self)@.values.drop_last(), ..old(self)@ })),
    {
        if self.values.len() == 0 {
            None
        } else {
            Some(self.pop_value())
        }
    }

    /// Schedules the statements of a program, to run after the work in
    /// hand.
    pub fn interpret(&mut self, stmts: &'a [Stmt])
        requires
            old(self).wf(),
            stmts_ok(stmts@),
        ensures
            final(self).wf(),
            final(self)@ == (WalkModel {
                work: old(self)@.work.push(WorkModel::Program(stmts@, 0, old(self)@.values.len() as int)),
                ..old(self)@
            }),
    {
        let h = self.values.len();
        self.work.push(Work::Program(stmts, 0, h));
        assert(self@.work =~= old(self)@.work.push(WorkModel::Program(stmts@, 0, h as int)));
    }

    /// Schedules the evaluation of an expression; its value ends up on the
    /// value stack.
    pub fn evaluate(&mut self, expr: &'a Expr)
        requires
            old(self).wf(),
            expr_ok(*expr),
        ensures
            final(self).wf(),
            final(self)@ == (WalkModel { work: old(self)@.work.push(WorkModel::Eval(*expr)), ..old(self)@ }),
    {
        self.work.push(Work::Eval(expr));
        assert(self@.work =~= old(self)@.work.push(WorkModel::Eval(*expr)));
    }

    /// Schedules a statement.
    pub fn execute(&mut self, stmt: &'a Stmt)
        requires
            old(self).wf(),
            stmt_ok(*stmt),
        ensures
            final(self).wf(),
            final(self)@ == (WalkModel { work: old(self)@.work.push(WorkModel::Exec(*stmt)), ..old(self)@ }),
    {
        self.work.push(Work::Exec(stmt));
        assert(self@.work =~= old(self)@.work.push(WorkModel::Exec(*stmt)));
    }

    /// Schedules a block: enters a new scope inside the current one, runs
    /// the statements there, then comes back.
    pub fn execute_block(&mut self, stmts: &'a [Stmt])
        requires
            old(self).wf(),
            stmts_ok(stmts@),
        ensures
            final(self).wf(),
            final(self)@ == (WalkModel {
                work: old(self)@.work.push(WorkModel::RestoreEnv(old(self)@.env, old(self)@.values.len() as int))
                    .push(WorkModel::Block(stmts@, 0)),
                ..enter_scope(old(self)@, old(self)@.env)
            }),
    {
        let outer = self.env;
        self.enter_scope(outer);
        self.schedule(Work::RestoreEnv(outer, self.values.len()));
        self.schedule(Work::Block(stmts, 0));
    }

    /// The declaration of the function a value `Function(i)` stands for.
    pub fn function_declaration(&self, i: usize) -> (r: Option<&'a crate::ast::stmt::FunctionStmt>)
        ensures
            i < self@.functions.len() ==> (r matches Some(d) && *d == self@.functions[i as int].decl),
            i >= self@.functions.len() ==> r is None,
    {
        if i < self.functions.len() {
            Some(self.functions[i].declaration)
        } else {
            None
        }
    }

    /// Drops all work and values after a runtime error, back in the global
    /// scope.
    fn halt(&mut self)
        requires
            old(self).wf(),
        ensures
            final(self).wf(),
            final(self)@ == halted(old(self)@),
    {
        self.work.clear();
        self.values.clear();
        self.env = 0;
        assert(self@.work =~= Seq::<WorkModel>::empty());
        assert(self@.values =~= Seq::<ValModel>::empty());
    }

    /// The scope that binds `name`, from the current one outwards.
    fn owner(&self, name: &String) -> (r: Option<usize>)
        requires
            self.wf(),
        ensures
            match chain_owner(self@.scopes, self@.env, name@) {
                Some(j) => r == Some(j as usize),
                None => r is None,
            },
            r matches Some(k) ==> k < self@.scopes.len(),
    {
        let mut i: usize = self.env;
        loop
            invariant
                self.wf(),
                i < self.scopes@.len(),
                chain_owner(self@.scopes, self@.env, name@) == chain_owner(self@.scopes, i as int, name@),
            decreases i,
        {
            assert(self@.scopes[i as int] == self.scopes@[i as int].model());
            match self.scopes[i].vars.value_here(name) {
                Some(_) => return Some(i),
                None => {},
            }
            match self.scopes[i].parent {
                Some(p) => {
                    if p < i {
                        i = p;
                    } else {
                        return None;
                    }
                },
                None => return None,
            }
        }
    }

    /// The value of `name`, from the current scope outwards.
    fn lookup(&self, name: &String) -> (r: Option<LoxValue>)
        requires
            self.wf(),
        ensures
            match chain_lookup(self@.scopes, self@.env, name@) {
                Some(v) => r matches Some(x) && x@ == v,
                None => r is None,
            },
    {
        match self.owner(name) {
            Some(j) => {
                assert(self@.scopes[j as int] == self.scopes@[j as int].model());
                proof { lemma_owner_binds(self@.scopes, self@.env, name@); }
                match self.scopes[j].vars.value_here(name) {
                    Some(v) => Some(v.duplicate()),
                    None => None,
                }
            },
            None => None,
        }
    }

    /// Puts a work item on top of the work in hand.
    fn schedule(&mut self, w: Work<'a>)
        requires
            old(self).wf(),
            work_ok(w@),
            names_scopes(w@, old(self)@.scopes.len() as int),
        ensures
            final(self).wf(),
            final(self)@ == (WalkModel { work: old(self)@.work.push(w@), ..old(self)@ }),
    {
        self.work.push(w);
        assert(self@.work =~= old(self)@.work.push(w@));
    }

    /// Stops after a runtime error at `token`.
    fn fail(&mut self, token: &Token, message: String) -> (r: Result<WalkStep, Error>)
        requires
            old(self).wf(),
        ensures
            final(self).wf(),
            final(self)@ == halted(old(self)@),
            reports(r, WalkOutcome::Fault(*token, message@)),
    {
        self.halt();
        Err(Error::Runtime(RuntimeError::new(token.duplicate(), message)))
    }

    /// Evaluates one level of an expression.
    fn eval_step(&mut self, e: &'a Expr) -> (r: Result<WalkStep, Error>)
        requires
            old(self).wf(),
            expr_ok(*e),
        ensures
            final(self).wf(),
            final(self)@ == next_eval(old(self)@, *e).0,
            reports(r, next_eval(old(self)@, *e).1),
    {
        match e {
            Expr::Binary(b) => {
                self.schedule(Work::BinaryRight(b));
                self.schedule(Work::Eval(&*b.left));
            },
            Expr::Grouping(g) => {
                self.schedule(Work::Eval(&*g.expression));
            },
            Expr::Literal(l) => {
                self.push_value(LoxValue::from_literal(&l.value));
            },
            Expr::Unary(u) => {
                self.schedule(Work::UnaryApply(u));
                self.schedule(Work::Eval(&*u.right));
            },
            Expr::Variable(t) => {
                match self.lookup(&t.lexeme) {
                    Some(v) => self.push_value(v),
                    None => return self.fail(t, quoted("Undefined variable '", t.lexeme.as_str(), "'")),
                }
            },
            Expr::Assign(a) => {
                self.schedule(Work::AssignTo(a));
                self.schedule(Work::Eval(&*a.value));
            },
            Expr::Logical(l) => {
                self.schedule(Work::LogicalRight(l));
                self.schedule(Work::Eval(&*l.left));
            },
            Expr::Call(c) => {
                self.schedule(Work::CallArgs(c, 0));
                self.schedule(Work::Eval(&*c.callee));
            },
        }
        Ok(WalkStep::Continue)
    }

    /// Binds `name` to `v` in the current scope.
    fn define_here(&mut self, name: String, v: LoxValue)
        requires
            old(self).wf(),
        ensures
            final(self).wf(),
            final(self)@ == define_here(old(self)@, name@, v@),
    {
        let j = self.env;
        let ghost k = name@;
        let ghost vm = v@;
        proof { self.scopes@[j as int].vars.lemma_innermost(); }
        self.scopes[j].vars.define(name, v);
        proof {
            let old_vars = old(self).scopes@[j as int].vars;
            let new_vars = self.scopes@[j as int].vars;
            new_vars.lemma_innermost();
            assert(new_vars.frame() == old_vars.frame().insert(k, v));
            assert(new_vars.frame().map_values(|x: LoxValue| x@) =~= old_vars.frame().map_values(|x: LoxValue| x@).insert(k, vm));
            assert(self@.scopes =~= define_here(old(self)@, k, vm).scopes);
            assert(forall|i: int| 0 <= i < self.scopes@.len() && i != j ==> self.scopes@[i] == old(self).scopes@[i]);
        }
    }

    /// Enters a new, empty scope inside scope `parent`.
    fn enter_scope(&mut self, parent: usize)
        requires
            old(self).wf(),
            parent < old(self)@.scopes.len(),
        ensures
            final(self).wf(),
            final(self)@ == enter_scope(old(self)@, parent as int),
    {
        let vars: Environment<LoxValue> = Environment::new();
        proof {
            vars.lemma_innermost();
            assert(vars.frame().map_values(|x: LoxValue| x@) =~= Map::<Seq<char>, ValModel>::empty());
        }
        self.scopes.push(Scope { parent: Some(parent), vars });
        self.env = self.scopes.len() - 1;
        assert(self@.scopes =~= enter_scope(old(self)@, parent as int).scopes);
    }

    /// Executes one level of a statement.
    fn exec_step(&mut self, st: &'a Stmt) -> (r: Result<WalkStep, Error>)
        requires
            old(self).wf(),
            stmt_ok(*st),
        ensures
            final(self).wf(),
            final(self)@ == next_exec(old(self)@, *st).0,
            reports(r, next_exec(old(self)@, *st).1),
    {
        match st {
            Stmt::Expr(e) => {
                self.schedule(Work::Discard);
                self.schedule(Work::Eval(e));
            },
            Stmt::Print(e) => {
                self.schedule(Work::PrintTop);
                self.schedule(Work::Eval(e));
            },
            Stmt::Var(v) => {
                match &v.initializer {
                    Some(init) => {
                        self.schedule(Work::Define(v));
                        self.schedule(Work::Eval(init));
                    },
                    None => self.define_here(v.name.lexeme.clone(), LoxValue::Nil),
                }
            },
            Stmt::Block(b) => self.execute_block(b.as_slice()),
            Stmt::If(i) => {
                self.schedule(Work::Branch(i));
                self.schedule(Work::Eval(&i.condition));
            },
            Stmt::While(w) => {
                self.schedule(Work::WhileTest(w));
                self.schedule(Work::Eval(&w.condition));
            },
            Stmt::Function(f) => {
                let index = self.functions.len();
                self.functions.push(LoxFunction::new(f, self.env));
                assert(self@.functions =~= old(self)@.functions.push(FunModel { decl: *f, scope: old(self)@.env }));
                assert forall|k: int| 0 <= k < self@.functions.len() implies 0 <= #[trigger] self@.functions[k].scope < self@.scopes.len() by {
                    if k < old(self)@.functions.len() {
                        assert(self@.functions[k] == old(self)@.functions[k]);
                    }
                }
                assert(self@.scopes == old(self)@.scopes);
                assert(self@.work == old(self)@.work);
                assert(model_wf(self@));
                self.define_here(f.name.lexeme.clone(), LoxValue::Function(index));
            },
            Stmt::Return(ret) => {
                self.schedule(Work::ReturnValue);
                self.schedule(Work::Eval(&ret.value));
            },
        }
        Ok(WalkStep::Continue)
    }

    /// Takes the value on top of the value stack.
    fn pop_value(&mut self) -> (v: LoxValue)
        requires
            old(self).wf(),
            old(self)@.values.len() > 0,
        ensures
            final(self).wf(),
            final(self)@ == (WalkModel { values: old(self)@.values.drop_last(), ..old(self)@ }),
            v@ == old(self)@.values.last(),
    {
        let v = self.values.pop().unwrap();
        assert(self@.values =~= old(self)@.values.drop_last());
        v
    }

    /// Keeps the bottom `h` values of the stack, when there are that many.
    fn keep_values(&mut self, h: usize)
        requires
            old(self).wf(),
        ensures
            final(self).wf(),
            final(self)@ == (WalkModel { values: cut(old(self)@.values, h as int), ..old(self)@ }),
    {
        self.values.truncate(h);
        assert(self@.values =~= cut(old(self)@.values, h as int));
    }

    /// A copy of the value on top of the value stack.
    fn top_value(&self) -> (v: LoxValue)
        requires
            self@.values.len() > 0,
        ensures
            v@ == self@.values.last(),
    {
        self.values[self.values.len() - 1].duplicate()
    }

    /// Gives `v` to `name` in scope `j`, which binds it.
    fn assign_at(&mut self, j: usize, name: &String, v: LoxValue)
        requires
            old(self).wf(),
            j < old(self)@.scopes.len(),
            old(self)@.scopes[j as int].vars.contains_key(name@),
        ensures
            final(self).wf(),
            final(self)@ == (WalkModel {
                scopes: old(self)@.scopes.update(j as int, ScopeModel {
                    vars: old(self)@.scopes[j as int].vars.insert(name@, v@),
                    ..old(self)@.scopes[j as int]
                }),
                ..old(self)@
            }),
    {
        let ghost vm = v@;
        self.scopes[j].vars.assign_here(name, v);
        proof {
            let old_vars = old(self).scopes@[j as int].vars;
            let new_vars = self.scopes@[j as int].vars;
            assert(new_vars.frame().map_values(|x: LoxValue| x@) =~= old_vars.frame().map_values(|x: LoxValue| x@).insert(name@, vm));
            assert(forall|i: int| 0 <= i < self.scopes@.len() && i != j ==> self.scopes@[i] == old(self).scopes@[i]);
            assert(self@.scopes =~= old(self)@.scopes.update(j as int, ScopeModel {
                vars: old(self)@.scopes[j as int].vars.insert(name@, vm),
                ..old(self)@.scopes[j as int]
            }));
        }
    }

    /// Unwinds the work after a `return`, up to the call it returns from,
    /// the end of the block it is in, or the statement of the program it is
    /// in; says where it stopped: at a call (`true`) or at a block or the
    /// program (`false`), with the number of values to keep.
    fn unwind(&mut self) -> (stop: Option<(bool, usize)>)
        requires
            old(self).wf(),
        ensures
            final(self).wf(),
            final(self)@ == (WalkModel {
                work: unwind(old(self)@.work, old(self)@.env).0,
                env: unwind(old(self)@.work, old(self)@.env).1,
                ..old(self)@
            }),
            match unwind(old(self)@.work, old(self)@.env).2 {
                Unwound::Call(h) => stop == Some((true, h as usize)) && 0 <= h <= usize::MAX,
                Unwound::Block(h) => stop == Some((false, h as usize)) && 0 <= h <= usize::MAX,
                Unwound::Program(h) => stop == Some((false, h as usize)) && 0 <= h <= usize::MAX,
                Unwound::Nothing => stop is None,
            },
    {
        loop
            invariant
                self.wf(),
                unwind(self@.work, self@.env) == unwind(old(self)@.work, old(self)@.env),
                self@.values == old(self)@.values,
                self@.scopes == old(self)@.scopes,
                self@.functions == old(self)@.functions,
            decreases self.work.len(),
        {
            let ghost before = self@;
            match self.work.pop() {
                None => {
                    assert(before.work.len() == 0);
                    return None;
                },
                Some(w) => {
                    assert(before.work.last() == w@);
                    assert(self@.work =~= before.work.drop_last());
                    assert(names_scopes(before.work[before.work.len() - 1], before.scopes.len() as int));
                    match w {
                        Work::CallReturn(e, h) => {
                            self.env = e;
                            return Some((true, h));
                        },
                        Work::Program(ss, i, h) => {
                            self.work.push(Work::Program(ss, i, h));
                            assert(self@.work =~= before.work);
                            return Some((false, h));
                        },
                        Work::RestoreEnv(e, h) => {
                            self.env = e;
                            return Some((false, h));
                        },
                        _ => {},
                    }
                },
            }
        }
    }

    /// Applies a binary operator to the two values on top of the stack.
    fn binary_step(&mut self, b: &'a BinaryExpr) -> (r: Result<WalkStep, Error>)
        requires
            old(self).wf(),
            old(self)@.values.len() >= 2,
        ensures
            final(self).wf(),
            final(self)@ == next_binary(old(self)@, *b).0,
            reports(r, next_binary(old(self)@, *b).1),
    {
        let ghost m = old(self)@;
        let right = self.pop_value();
        let left = self.pop_value();
        assert(self@.values =~= m.values.subrange(0, m.values.len() - 2));
        assert(left@ == m.values[m.values.len() - 2]);
        let op = b.operator.token_type;
        match op {
            TokenType::Minus | TokenType::Slash | TokenType::Star | TokenType::Greater | TokenType::GreaterEqual
            | TokenType::Less | TokenType::LessEqual => {
                match (left, right) {
                    (LoxValue::Number(x), LoxValue::Number(y)) => Ok(WalkStep::Arithmetic(op, x, y)),
                    _ => self.fail(&b.operator, String::from_str("Operand must be a number")),
                }
            },
            TokenType::Plus => {
                let left_ok = matches!(left, LoxValue::Number(_) | LoxValue::Str(_));
                let right_ok = matches!(right, LoxValue::Number(_) | LoxValue::Str(_));
                if !left_ok || !right_ok {
                    return self.fail(&b.operator, String::from_str("Operand must be a number or a string"));
                }
                match (left, right) {
                    (LoxValue::Number(x), LoxValue::Number(y)) => Ok(WalkStep::Arithmetic(op, x, y)),
                    (LoxValue::Str(x), LoxValue::Str(y)) => {
                        let mut joined = x;
                        joined.append(y.as_str());
                        self.push_value(LoxValue::Str(joined));
                        Ok(WalkStep::Continue)
                    },
                    _ => self.fail(&b.operator, String::from_str("Operands must be two numbers or two strings")),
                }
            },
            TokenType::EqualEqual | TokenType::BangEqual => {
                match (left, right) {
                    (LoxValue::Number(x), LoxValue::Number(y)) => Ok(WalkStep::Arithmetic(op, x, y)),
                    (l, rt) => {
                        let equal = same(&l, &rt);
                        self.push_value(LoxValue::Bool(equal == (op == TokenType::EqualEqual)));
                        Ok(WalkStep::Continue)
                    },
                }
            },
            _ => self.fail(&b.operator, String::from_str("Unknown operator")),
        }
    }

    /// Applies a unary operator to the value on top of the stack.
    fn unary_step(&mut self, u: &'a UnaryExpr) -> (r: Result<WalkStep, Error>)
        requires
            old(self).wf(),
            old(self)@.values.len() >= 1,
        ensures
            final(self).wf(),
            final(self)@ == next_unary(old(self)@, *u).0,
            reports(r, next_unary(old(self)@, *u).1),
    {
        let v = self.pop_value();
        match u.operator.token_type {
            TokenType::Minus => match v {
                LoxValue::Number(x) => Ok(WalkStep::Negate(x)),
                _ => self.fail(&u.operator, String::from_str("Operand must be a number")),
            },
            TokenType::Bang => {
                let t = v.is_truthy();
                self.push_value(LoxValue::Bool(!t));
                Ok(WalkStep::Continue)
            },
            _ => self.fail(&u.operator, String::from_str("Unknown operator")),
        }
    }

    /// Calls the callee below the `n` arguments on top of the stack.
    fn call_step(&mut self, c: &'a CallExpr, n: usize) -> (r: Result<WalkStep, Error>)
        requires
            old(self).wf(),
            old(self)@.values.len() >= n + 1,
        ensures
            final(self).wf(),
            final(self)@ == next_call(old(self)@, *c, n as int).0,
            reports(r, next_call(old(self)@, *c, n as int).1),
    {
        let ghost m = old(self)@;
        let k = self.values.len();
        let args = self.values.split_off(k - n);
        let ghost args_model = m.values.subrange(k - n, k as int);
        assert(args@.map_values(|v: LoxValue| v@) =~= args_model);
        assert(self@.values =~= m.values.subrange(0, k - n));
        assert(self@.scopes == m.scopes && self@.work == m.work && self@.functions == m.functions);
        let callee = self.pop_value();
        assert(self@.values =~= m.values.subrange(0, k - n - 1));
        assert(callee@ == m.values[k - n - 1]);
        match callee {
            LoxValue::Clock => {
                if n != 0 {
                    self.fail(&c.paren, arity_message(0, n))
                } else {
                    Ok(WalkStep::Clock)
                }
            },
            LoxValue::Function(f) => {
                if f >= self.functions.len() {
                    return self.fail(&c.paren, String::from_str("Can only call functions and classes"));
                }
                let function = self.functions[f];
                let params = &function.declaration.params;
                if params.len() != n {
                    return self.fail(&c.paren, arity_message(params.len(), n));
                }
                assert(self@.functions[f as int] == function@);
                let caller = self.env;
                self.enter_scope(function.closure);
                let ghost m2 = self@;
                proof {
                    assert(params@.take(0) =~= Seq::<Token>::empty());
                    assert(args_model.take(0) =~= Seq::<ValModel>::empty());
                    assert(m2.scopes[m2.env].vars =~= Map::<Seq<char>, ValModel>::empty());
                    assert(m2.scopes.update(m2.env, ScopeModel {
                        vars: bind_all(Map::empty(), params@.take(0), args_model.take(0)),
                        ..m2.scopes[m2.env]
                    }) =~= m2.scopes);
                }
                let mut i: usize = 0;
                while i < n
                    invariant
                        self.wf(),
                        i <= n,
                        n == params@.len(),
                        args@.len() == n,
                        args@.map_values(|v: LoxValue| v@) == args_model,
                        m2.env == self@.env,
                        0 <= m2.env < m2.scopes.len(),
                        self@ == (WalkModel {
                            scopes: m2.scopes.update(m2.env, ScopeModel {
                                vars: bind_all(Map::empty(), params@.take(i as int), args_model.take(i as int)),
                                ..m2.scopes[m2.env]
                            }),
                            ..m2
                        }),
                    decreases n - i,
                {
                    proof {
                        lemma_bind_one_more(Map::empty(), params@, args_model, i as int);
                        assert(args@[i as int]@ == args_model[i as int]);
                    }
                    let ghost prev = self@;
                    self.define_here(params[i].lexeme.clone(), args[i].duplicate());
                    i = i + 1;
                    proof {
                        assert(prev.scopes[m2.env].vars == bind_all(Map::empty(), params@.take(i - 1), args_model.take(i - 1)));
                        assert(self@.scopes[m2.env as int].vars == bind_all(Map::empty(), params@.take(i as int), args_model.take(i as int)));
                        assert(self@.scopes =~= m2.scopes.update(m2.env, ScopeModel {
                            vars: bind_all(Map::empty(), params@.take(i as int), args_model.take(i as int)),
                            ..m2.scopes[m2.env]
                        }));
                    }
                }
                proof {
                    assert(params@.take(n as int) =~= params@);
                    assert(args_model.take(n as int) =~= args_model);
                }
                self.schedule(Work::CallReturn(caller, self.values.len()));
                self.schedule(Work::Block(function.declaration.body.as_slice(), 0));
                Ok(WalkStep::Continue)
            },
            _ => self.fail(&c.paren, String::from_str("Can only call functions and classes")),
        }
    }

    /// Takes one step: does the next item of work, or as much of it as can
    /// be done before something is asked of the caller. On a runtime error
    /// all work is dropped.
    pub fn step(&mut self) -> (r: Result<WalkStep, Error>)
        requires
            old(self).wf(),
            ready(old(self)@),
        ensures
            final(self).wf(),
            final(self)@ == walk_next(old(self)@).0,
            reports(r, walk_next(old(self)@).1),
    {
        let ghost m = old(self)@;
        let w = self.work.pop().unwrap();
        assert(self@.work =~= m.work.drop_last());
        assert(w@ == m.work.last());
        assert(self.wf()) by {
            assert forall|k: int| 0 <= k < self@.work.len() implies names_scopes(#[trigger] self@.work[k], self@.scopes.len() as int) by {
                assert(self@.work[k] == m.work[k]);
            }
        }
        assert(names_scopes(m.work[m.work.len() - 1], m.scopes.len() as int));
        match w {
            Work::Eval(e) => self.eval_step(e),
            Work::Exec(st) => self.exec_step(st),
            Work::Program(ss, i, h) => {
                if i < ss.len() {
                    proof { lemma_stmts_ok(ss@); }
                    self.schedule(Work::Program(ss, i + 1, h));
                    self.schedule(Work::Exec(&ss[i]));
                }
                Ok(WalkStep::Continue)
            },
            Work::Block(ss, i) => {
                if i < ss.len() {
                    proof { lemma_stmts_ok(ss@); }
                    self.schedule(Work::Block(ss, i + 1));
                    self.schedule(Work::Exec(&ss[i]));
                }
                Ok(WalkStep::Continue)
            },
            Work::BinaryRight(b) => {
                self.schedule(Work::BinaryApply(b));
                self.schedule(Work::Eval(&*b.right));
                Ok(WalkStep::Continue)
            },
            Work::BinaryApply(b) => self.binary_step(b),
            Work::UnaryApply(u) => self.unary_step(u),
            Work::AssignTo(a) => {
                let v = self.top_value();
                match self.owner(&a.name.lexeme) {
                    Some(j) => {
                        proof { lemma_owner_binds(self@.scopes, self@.env, a.name.lexeme@); }
                        self.assign_at(j, &a.name.lexeme, v);
                        Ok(WalkStep::Continue)
                    },
                    None => self.fail(&a.name, quoted("Undefined variable '", a.name.lexeme.as_str(), "'.")),
                }
            },
            Work::LogicalRight(l) => {
                let truth = self.values[self.values.len() - 1].is_truthy();
                if (l.operator.token_type == TokenType::Or) != truth {
                    let _ = self.pop_value();
                    self.schedule(Work::Eval(&*l.right));
                }
                Ok(WalkStep::Continue)
            },
            Work::CallArgs(c, n) => {
                if n < c.args.len() {
                    proof { lemma_exprs_ok(c.args@); }
                    self.schedule(Work::CallArgs(c, n + 1));
                    self.schedule(Work::Eval(&c.args[n]));
                    Ok(WalkStep::Continue)
                } else {
                    self.call_step(c, n)
                }
            },
            Work::Discard => {
                let _ = self.pop_value();
                Ok(WalkStep::Continue)
            },
            Work::PrintTop => {
                let v = self.pop_value();
                Ok(WalkStep::Print(v))
            },
            Work::Define(v) => {
                let x = self.pop_value();
                self.define_here(v.name.lexeme.clone(), x);
                Ok(WalkStep::Continue)
            },
            Work::Branch(i) => {
                let v = self.pop_value();
                if v.is_truthy() {
                    self.schedule(Work::Exec(&*i.then_branch));
                } else {
                    match &i.else_branch {
                        Some(e) => self.schedule(Work::Exec(&**e)),
                        None => {},
                    }
                }
                Ok(WalkStep::Continue)
            },
            Work::WhileTest(wh) => {
                let v = self.pop_value();
                if v.is_truthy() {
                    self.schedule(Work::WhileTest(wh));
                    self.schedule(Work::Eval(&wh.condition));
                    self.schedule(Work::Exec(&*wh.body));
                }
                Ok(WalkStep::Continue)
            },
            Work::RestoreEnv(e, _) => {
                self.env = e;
                Ok(WalkStep::Continue)
            },
            Work::CallReturn(e, _) => {
                self.env = e;
                self.push_value(LoxValue::Nil);
                Ok(WalkStep::Continue)
            },
            Work::ReturnValue => {
                let v = self.pop_value();
                match self.unwind() {
                    Some((called, h)) => {
                        self.keep_values(h);
                        if called {
                            self.push_value(v);
                        }
                    },
                    None => {},
                }
                Ok(WalkStep::Continue)
            },
        }
    }
}

/// `prefix`, then `name`, then `suffix`.
fn quoted(prefix: &str, name: &str, suffix: &str) -> (s: String)
    ensures
        s@ == prefix@ + name@ + suffix@,
{
    let mut s = String::from_str(prefix);
    s.append(name);
    s.append(suffix);
    s
}

} // verus!
