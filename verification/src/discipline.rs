use vstd::prelude::*;

use crate::ast::stmt::Stmt;
use crate::expr::{CallExpr, Expr};
use crate::interpreter::start_state;
use crate::walker::{needs, next_eval, next_exec, ready, unwind, walk_next, Unwound, ValModel, WalkEvent, WalkModel, WalkOutcome, WorkModel};

verus! {

/// How many values a work item leaves on the stack once it, and all the
/// work it starts, is done.
pub open spec fn gives(w: WorkModel) -> int {
    match w {
        WorkModel::Eval(_) | WorkModel::BinaryRight(_) | WorkModel::BinaryApply(_) | WorkModel::UnaryApply(_)
        | WorkModel::AssignTo(_) | WorkModel::LogicalRight(_) | WorkModel::CallArgs(_, _)
        | WorkModel::CallReturn(_, _) => 1,
        _ => 0,
    }
}

/// The smaller of `x` and the bound, if there is one.
pub open spec fn lower(low: Option<int>, x: int) -> int {
    match low {
        Some(l) => if x < l { x } else { l },
        None => x,
    }
}

/// The work fits a value stack of height `h`: each item finds the values
/// it takes, and each call, block and program finds the stack as high as it
/// was when it began. `low` is the lowest the stack goes, within the same
/// call, while the work above this part runs.
pub open spec fn fits(work: Seq<WorkModel>, h: int, low: Option<int>) -> bool
    decreases work.len(),
{
    if work.len() == 0 {
        true
    } else {
        let w = work.last();
        let below = work.drop_last();
        let after = h - needs(w);
        &&& after >= 0
        &&& match w {
            WorkModel::CallReturn(_, base) => h == base && (low matches Some(l) ==> base <= l) && fits(below, h + 1, None),
            WorkModel::Program(_, _, base) => h == base && (low matches Some(l) ==> base <= l) && fits(below, h, None),
            WorkModel::RestoreEnv(_, base) => h == base && (low matches Some(l) ==> base <= l) && fits(below, h, None),
            WorkModel::CallArgs(_, n) => n >= 0 && fits(below, after + gives(w), Some(lower(low, after))),
            _ => fits(below, after + gives(w), Some(lower(low, after))),
        }
    }
}

/// The work in hand fits the values in hand.
pub open spec fn disciplined(m: WalkModel) -> bool {
    fits(m.work, m.values.len() as int, None)
}

/// The step asks its caller for a value to push.
pub open spec fn asks_value(o: WalkOutcome) -> bool {
    match o {
        WalkOutcome::Event(WalkEvent::Arithmetic(_, _, _)) => true,
        WalkOutcome::Event(WalkEvent::Negate(_)) => true,
        WalkOutcome::Event(WalkEvent::Clock) => true,
        _ => false,
    }
}

/// A bound that constrains less keeps the work fitting.
proof fn lemma_fits_looser(work: Seq<WorkModel>, h: int, l: int, low: Option<int>)
    requires
        fits(work, h, Some(l)),
        low matches Some(k) ==> l <= k,
    ensures
        fits(work, h, low),
    decreases work.len(),
{
    if work.len() > 0 {
        let w = work.last();
        let after = h - needs(w);
        match w {
            WorkModel::CallReturn(_, _) => {},
            WorkModel::Program(_, _, _) => {},
            WorkModel::RestoreEnv(_, _) => {},
            _ => lemma_fits_looser(work.drop_last(), after + gives(w), lower(Some(l), after), Some(lower(low, after))),
        }
    }
}

/// Unwinding work that fits stops at a call or a program whose stack lies
/// below the lowest point reached, and what is left fits once that stack
/// is restored.
proof fn lemma_unwind_fits(work: Seq<WorkModel>, h: int, l: int, env: int)
    requires
        fits(work, h, Some(l)),
    ensures
        match unwind(work, env).2 {
            Unwound::Call(base) => 0 <= base <= l && fits(unwind(work, env).0, base + 1, None),
            Unwound::Block(base) => 0 <= base <= l && fits(unwind(work, env).0, base, None),
            Unwound::Program(base) => 0 <= base <= l && fits(unwind(work, env).0, base, None),
            Unwound::Nothing => unwind(work, env).0.len() == 0,
        },
    decreases work.len(),
{
    if work.len() > 0 {
        let w = work.last();
        let after = h - needs(w);
        match w {
            WorkModel::CallReturn(_, _) => {},
            WorkModel::Program(_, _, _) => {},
            WorkModel::RestoreEnv(_, _) => {},
            _ => lemma_unwind_fits(work.drop_last(), after + gives(w), lower(Some(l), after), env),
        }
    }
}

/// Two items pushed on the work come off again in turn.
proof fn lemma_pushed(work: Seq<WorkModel>, a: WorkModel, b: WorkModel)
    ensures
        work.push(a).push(b).drop_last() == work.push(a),
        work.push(a).drop_last() == work,
{
    assert(work.push(a).push(b).drop_last() =~= work.push(a));
    assert(work.push(a).drop_last() =~= work);
}

/// While the work fits the values, a step never lacks the values it
/// takes.
pub proof fn law_disciplined_is_ready(m: WalkModel)
    requires
        disciplined(m),
        m.work.len() > 0,
    ensures
        ready(m),
{
}

/// The interpreter starts with its work fitting its values.
pub proof fn law_start_fits()
    ensures
        disciplined(start_state()),
{
}

/// Scheduling a program keeps the work fitting the values.
pub proof fn law_program_fits(m: WalkModel, stmts: Seq<Stmt>)
    requires
        disciplined(m),
    ensures
        disciplined(WalkModel { work: m.work.push(WorkModel::Program(stmts, 0, m.values.len() as int)), ..m }),
{
    assert(m.work.push(WorkModel::Program(stmts, 0, m.values.len() as int)).drop_last() == m.work);
}

proof fn lemma_eval_fits(m: WalkModel, e: Expr)
    requires
        fits(m.work, m.values.len() as int + 1, Some(m.values.len() as int)),
    ensures
        disciplined(next_eval(m, e).0),
{
    reveal_with_fuel(fits, 3);
    let h = m.values.len() as int;
    lemma_fits_looser(m.work, h + 1, h, None);
    match e {
        Expr::Binary(b) => lemma_pushed(m.work, WorkModel::BinaryRight(b), WorkModel::Eval(*b.left)),
        Expr::Grouping(g) => lemma_pushed(m.work, WorkModel::Eval(*g.expression), WorkModel::Discard),
        Expr::Unary(u) => lemma_pushed(m.work, WorkModel::UnaryApply(u), WorkModel::Eval(*u.right)),
        Expr::Assign(a) => lemma_pushed(m.work, WorkModel::AssignTo(a), WorkModel::Eval(*a.value)),
        Expr::Logical(l) => lemma_pushed(m.work, WorkModel::LogicalRight(l), WorkModel::Eval(*l.left)),
        Expr::Call(c) => lemma_pushed(m.work, WorkModel::CallArgs(c, 0), WorkModel::Eval(*c.callee)),
        _ => {},
    }
}

proof fn lemma_exec_fits(m: WalkModel, st: Stmt)
    requires
        fits(m.work, m.values.len() as int, Some(m.values.len() as int)),
    ensures
        disciplined(next_exec(m, st).0),
{
    reveal_with_fuel(fits, 3);
    let h = m.values.len() as int;
    lemma_fits_looser(m.work, h, h, None);
    match st {
        Stmt::Expr(e) => lemma_pushed(m.work, WorkModel::Discard, WorkModel::Eval(e)),
        Stmt::Print(e) => lemma_pushed(m.work, WorkModel::PrintTop, WorkModel::Eval(e)),
        Stmt::Var(d) => {
            if let Some(init) = d.initializer {
                lemma_pushed(m.work, WorkModel::Define(d), WorkModel::Eval(init));
            }
        },
        Stmt::Block(b) => lemma_pushed(m.work, WorkModel::RestoreEnv(m.env, m.values.len() as int), WorkModel::Block(b@, 0)),
        Stmt::If(i) => lemma_pushed(m.work, WorkModel::Branch(i), WorkModel::Eval(i.condition)),
        Stmt::While(w) => lemma_pushed(m.work, WorkModel::WhileTest(w), WorkModel::Eval(w.condition)),
        Stmt::Return(r) => lemma_pushed(m.work, WorkModel::ReturnValue, WorkModel::Eval(r.value)),
        Stmt::Function(_) => {},
    }
}

proof fn lemma_call_args_fits(m: WalkModel, c: CallExpr, n: int, v: ValModel)
    requires
        n >= 0,
        m.values.len() >= n + 1,
        fits(m.work, m.values.len() - n, Some(m.values.len() - n - 1)),
    ensures
        ({
            let r = walk_next(WalkModel { work: m.work.push(WorkModel::CallArgs(c, n)), ..m });
            &&& asks_value(r.1) ==> disciplined(WalkModel { values: r.0.values.push(v), ..r.0 })
            &&& !asks_value(r.1) ==> disciplined(r.0)
        }),
{
    reveal_with_fuel(fits, 3);
    let h = m.values.len() as int;
    let full = WalkModel { work: m.work.push(WorkModel::CallArgs(c, n)), ..m };
    assert(full.work.drop_last() == m.work);
    assert(WalkModel { work: full.work.drop_last(), ..full } == m);
    lemma_fits_looser(m.work, h - n, h - n - 1, None);
    if 0 <= n < c.args@.len() {
        lemma_pushed(m.work, WorkModel::CallArgs(c, n + 1), WorkModel::Eval(c.args@[n]));
    } else {
        let callee = m.values[h - n - 1];
        if let ValModel::Function(f) = callee {
            if 0 <= f < m.functions.len() {
                let closure = m.functions[f];
                lemma_pushed(m.work, WorkModel::CallReturn(m.env, h - n - 1), WorkModel::Block(closure.decl.body@, 0));
            }
        }
    }
}

/// Every step keeps the work fitting the values: after a step that asks
/// for a value, once that value is pushed; after any other step, as it
/// stands.
pub proof fn law_step_keeps_discipline(m: WalkModel, v: ValModel)
    requires
        disciplined(m),
        m.work.len() > 0,
    ensures
        asks_value(walk_next(m).1) ==> disciplined(WalkModel { values: walk_next(m).0.values.push(v), ..walk_next(m).0 }),
        !asks_value(walk_next(m).1) ==> disciplined(walk_next(m).0),
{
    reveal_with_fuel(fits, 2);
    let h = m.values.len() as int;
    let w = m.work.last();
    let m0 = WalkModel { work: m.work.drop_last(), ..m };
    let after = h - needs(w);
    match w {
        WorkModel::CallReturn(_, _) => {
            assert(walk_next(m).0.values.len() == h + 1);
        },
        WorkModel::Program(ss, i, base) => {
            if 0 <= i < ss.len() {
                let p2 = m0.work.push(WorkModel::Program(ss, i + 1, base));
                assert(p2.push(WorkModel::Exec(ss[i])).drop_last() == p2);
                assert(p2.drop_last() == m0.work);
            }
        },
        WorkModel::ReturnValue => {
            lemma_unwind_fits(m0.work, h - 1, h - 1, m0.env);
        },
        WorkModel::Eval(e) => {
            lemma_eval_fits(m0, e);
        },
        WorkModel::Exec(st) => {
            lemma_exec_fits(m0, st);
        },
        WorkModel::CallArgs(c, n) => {
            assert(m0.work.push(w) == m.work);
            lemma_call_args_fits(m0, c, n, v);
        },
        WorkModel::Block(ss, i) => {
            lemma_fits_looser(m0.work, after + gives(w), after, None);
            if 0 <= i < ss.len() {
                let p2 = m0.work.push(WorkModel::Block(ss, i + 1));
                assert(p2.push(WorkModel::Exec(ss[i])).drop_last() == p2);
                assert(p2.drop_last() == m0.work);
            }
        },
        WorkModel::BinaryRight(b) => {
            let p2 = m0.work.push(WorkModel::BinaryApply(b));
            assert(p2.push(WorkModel::Eval(*b.right)).drop_last() == p2);
            assert(p2.drop_last() == m0.work);
        },
        WorkModel::WhileTest(wh) => {
            lemma_fits_looser(m0.work, after + gives(w), after, None);
            let p1 = m0.work.push(WorkModel::WhileTest(wh));
            let p3 = p1.push(WorkModel::Eval(wh.condition));
            assert(p3.push(WorkModel::Exec(*wh.body)).drop_last() == p3);
            assert(p3.drop_last() == p1);
            assert(p1.drop_last() == m0.work);
            assert(!asks_value(walk_next(m).1) ==> disciplined(walk_next(m).0)) by {
                reveal_with_fuel(fits, 3);
            }
        },
        WorkModel::LogicalRight(l) => {
            lemma_fits_looser(m0.work, after + gives(w), after, None);
            assert(m0.work.push(WorkModel::Eval(*l.right)).drop_last() == m0.work);
        },
        WorkModel::Branch(br) => {
            lemma_fits_looser(m0.work, after + gives(w), after, None);
            assert(m0.work.push(WorkModel::Exec(*br.then_branch)).drop_last() == m0.work);
            if let Some(e) = br.else_branch {
                assert(m0.work.push(WorkModel::Exec(*e)).drop_last() == m0.work);
            }
        },
        _ => {
            lemma_fits_looser(m0.work, after + gives(w), after, None);
        },
    }
}

} // verus!
