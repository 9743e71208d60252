//! The stack discipline of the interpreter's machine: a machine that starts
//! from `Interpret::new`, and whose host answers each action as it asks,
//! always has on its value stack the values the next item of work takes.
//! So the `nil` that `top` reads off an empty stack is never read.
use vstd::prelude::*;

use crate::ast::{Expr, Stmt};
use crate::interpret::{
    absorb, below, cont_rel, eval_rel, exec_rel, finish_rel, initial, leave, pop_n, step_rel, top,
    unwind, Action, Event, InterpretV, Value, Work,
};

verus! {

/// `a - b`, or 0 when `b` is larger.
pub open spec fn sub0(a: nat, b: nat) -> nat {
    if a >= b {
        (a - b) as nat
    } else {
        0
    }
}

/// How many values an item of work takes off the value stack.
pub open spec fn takes<'a>(w: Work<'a>) -> nat {
    match w {
        Work::Cont(e) => match e {
            Expr::Unary { .. } => 1,
            Expr::Assign { .. } => 1,
            Expr::Logical { .. } => 1,
            Expr::Binary { .. } => 2,
            Expr::Call { args, .. } => args@.len() + 1,
            _ => 0,
        },
        Work::Finish(s) => match s {
            Stmt::Block { .. } => 0,
            Stmt::Function { .. } => 0,
            _ => 1,
        },
        _ => 0,
    }
}

/// How many values an item of work leaves on the value stack.
pub open spec fn leaves<'a>(w: Work<'a>) -> nat {
    match w {
        Work::Eval(_) => 1,
        Work::Frame => 1,
        Work::Cont(e) => match e {
            Expr::Unary { .. } => 1,
            Expr::Assign { .. } => 1,
            Expr::Logical { .. } => 1,
            Expr::Binary { .. } => 1,
            Expr::Call { .. } => 1,
            _ => 0,
        },
        _ => 0,
    }
}

/// How many values must be on the value stack for the pending work to run.
pub open spec fn need<'a>(work: Seq<Work<'a>>) -> nat
    decreases work.len(),
{
    if work.len() == 0 {
        0
    } else {
        takes(work.last()) + sub0(need(work.drop_last()), leaves(work.last()))
    }
}

/// The shape of pending work, read from the bottom: each call's work is a
/// run of statements and scope ends, possibly topped by work on an
/// expression (that of a statement being finished, or one given to
/// `evaluate`). The result tells whether the top is in such an expression
/// (`Some(true)`), among statements (`Some(false)`), or the shape is broken
/// (`None`).
pub open spec fn shape<'a>(work: Seq<Work<'a>>) -> Option<bool>
    decreases work.len(),
{
    if work.len() == 0 {
        Some(false)
    } else {
        match shape(work.drop_last()) {
            None => None,
            Some(in_expr) => match work.last() {
                Work::Exec(_) => if in_expr {
                    None
                } else {
                    Some(false)
                },
                Work::LeaveScope => if in_expr {
                    None
                } else {
                    Some(false)
                },
                Work::Finish(_) => if in_expr {
                    None
                } else {
                    Some(true)
                },
                Work::Eval(_) => Some(true),
                Work::Cont(_) => Some(true),
                Work::Frame => Some(false),
            },
        }
    }
}

/// The pending work has its shape and the value stack holds what it needs.
pub open spec fn disciplined<'a, N>(s: InterpretV<'a, N>) -> bool {
    shape(s.work) is Some && s.vals.len() >= need(s.work)
}

/// Whether `ev` answers `act` as it asks: a number for a number, a boolean
/// for a comparison, nothing otherwise.
pub open spec fn answers<'a, N>(act: Action<'a, N>, ev: Event<N>) -> bool {
    match act {
        Action::Continue => ev is Nothing,
        Action::Print(_) => ev is Nothing,
        Action::ParseNumber(_) => ev is Number,
        Action::Negate(_) => ev is Number,
        Action::Arith(..) => ev is Number,
        Action::Clock => ev is Number,
        Action::Compare(..) => ev is Bool,
        Action::Fail(_) => ev is Nothing,
        Action::Halt => true,
    }
}

proof fn lemma_push<'a>(w: Seq<Work<'a>>, x: Work<'a>)
    ensures
        need(w.push(x)) == takes(x) + sub0(need(w), leaves(x)),
        shape(w.push(x)) == match shape(w) {
            None => None,
            Some(in_expr) => match x {
                Work::Exec(_) => if in_expr {
                    None
                } else {
                    Some(false)
                },
                Work::LeaveScope => if in_expr {
                    None
                } else {
                    Some(false)
                },
                Work::Finish(_) => if in_expr {
                    None
                } else {
                    Some(true)
                },
                Work::Eval(_) => Some(true),
                Work::Cont(_) => Some(true),
                Work::Frame => Some(false),
            },
        },
{
    assert(w.push(x).drop_last() =~= w);
}

proof fn lemma_last<'a>(w: Seq<Work<'a>>)
    requires
        w.len() > 0,
    ensures
        w == w.drop_last().push(w.last()),
{
    assert(w =~= w.drop_last().push(w.last()));
}

/// Statements and scope ends pushed among statements change neither the
/// shape nor what the work needs.
proof fn lemma_stmt_tail<'a>(base: Seq<Work<'a>>, res: Seq<Work<'a>>)
    requires
        res.len() >= base.len(),
        forall|j: int| 0 <= j < base.len() ==> res[j] == base[j],
        forall|j: int| base.len() <= j < res.len() ==> (#[trigger] res[j] is Exec || res[j] is LeaveScope),
        shape(base) == Some(false),
    ensures
        shape(res) == Some(false),
        need(res) == need(base),
    decreases res.len(),
{
    if res.len() == base.len() {
        assert(res =~= base);
    } else {
        let r = res.drop_last();
        assert forall|j: int| base.len() <= j < r.len() implies (#[trigger] r[j] is Exec
            || r[j] is LeaveScope) by {
            assert(r[j] == res[j]);
        }
        lemma_stmt_tail(base, r);
        lemma_last(res);
        lemma_push(r, res.last());
        assert(res.last() == res[res.len() - 1]);
    }
}

/// Evaluations pushed in an expression keep it an expression, and each
/// needs one value less.
proof fn lemma_eval_tail<'a>(base: Seq<Work<'a>>, res: Seq<Work<'a>>)
    requires
        res.len() >= base.len(),
        forall|j: int| 0 <= j < base.len() ==> res[j] == base[j],
        forall|j: int| base.len() <= j < res.len() ==> (#[trigger] res[j] is Eval),
        shape(base) is Some,
    ensures
        shape(res) == Some(true) || res.len() == base.len(),
        shape(res) is Some,
        need(res) == sub0(need(base), (res.len() - base.len()) as nat),
    decreases res.len(),
{
    if res.len() == base.len() {
        assert(res =~= base);
    } else {
        let r = res.drop_last();
        assert forall|j: int| base.len() <= j < r.len() implies (#[trigger] r[j] is Eval) by {
            assert(r[j] == res[j]);
        }
        lemma_eval_tail(base, r);
        lemma_last(res);
        lemma_push(r, res.last());
        assert(res.last() == res[res.len() - 1]);
    }
}

/// Among statements, a `return` drops only statements and scope ends, up to
/// the innermost frame.
proof fn lemma_unwind<'a, V>(work: Seq<Work<'a>>, env: Seq<Map<Seq<char>, V>>)
    requires
        shape(work) == Some(false),
    ensures
        shape(unwind(work, env).0) is Some,
        unwind(work, env).2 ==> need(unwind(work, env).0) <= need(work) + 1,
        !unwind(work, env).2 ==> unwind(work, env).0.len() == 0,
    decreases work.len(),
{
    if work.len() > 0 {
        let r = work.drop_last();
        lemma_last(work);
        lemma_push(r, work.last());
        match work.last() {
            Work::Frame => {},
            Work::LeaveScope => {
                lemma_unwind(r, leave(env));
            },
            _ => {
                lemma_unwind(r, env);
            },
        }
    }
}

/// Taking `n` values off a stack that holds at least `n` leaves the rest.
proof fn lemma_pop_n_len<'a, N>(vals: Seq<Value<'a, N>>, n: nat)
    requires
        vals.len() >= n,
    ensures
        pop_n(vals, n).0.len() == vals.len() - n,
    decreases n,
{
    if n > 0 {
        lemma_pop_n_len(below(vals), (n - 1) as nat);
    }
}

proof fn lemma_disc<'a, N>(t: InterpretV<'a, N>, ev2: Event<N>)
    requires
        shape(t.work) is Some,
        t.vals.len() + (if ev2 is Nothing {
            0int
        } else {
            1int
        }) >= need(t.work),
    ensures
        disciplined(t.with_vals(absorb(t.vals, ev2))),
{
}

proof fn lemma_exec_case<'a, N>(
    x: &'a Stmt,
    r: InterpretV<'a, N>,
    post: InterpretV<'a, N>,
    act: Action<'a, N>,
    ev2: Event<N>,
)
    requires
        shape(r.work) == Some(false),
        r.vals.len() >= need(r.work),
        exec_rel(x, r, post, act),
        answers(act, ev2),
    ensures
        disciplined(post.with_vals(absorb(post.vals, ev2))),
{
    let w = r.work;
    lemma_push(w, Work::Finish(x));
    match x {
        Stmt::Expression { expr } => {
            lemma_push(w.push(Work::Finish(x)), Work::Eval(expr));
        },
        Stmt::Print { expr } => {
            lemma_push(w.push(Work::Finish(x)), Work::Eval(expr));
        },
        Stmt::Var { initializer, .. } => match initializer {
            Some(e) => {
                lemma_push(w.push(Work::Finish(x)), Work::Eval(e));
            },
            None => {},
        },
        Stmt::Block { .. } => {
            lemma_push(w, Work::LeaveScope);
            lemma_stmt_tail(w.push(Work::LeaveScope), post.work);
        },
        Stmt::Return { value, .. } => match value {
            Some(e) => {
                lemma_push(w.push(Work::Finish(x)), Work::Eval(e));
            },
            None => {},
        },
        Stmt::IfStmt { condition, .. } => {
            lemma_push(w.push(Work::Finish(x)), Work::Eval(condition));
        },
        Stmt::While { condition, .. } => {
            lemma_push(w.push(Work::Finish(x)), Work::Eval(condition));
        },
        Stmt::Function { .. } => {},
    }
    lemma_disc(post, ev2);
}

proof fn lemma_eval_case<'a, N>(
    e: &'a Expr,
    r: InterpretV<'a, N>,
    post: InterpretV<'a, N>,
    act: Action<'a, N>,
    ev2: Event<N>,
)
    requires
        shape(r.work) is Some,
        r.vals.len() >= sub0(need(r.work), 1),
        eval_rel(e, r, post, act),
        answers(act, ev2),
    ensures
        disciplined(post.with_vals(absorb(post.vals, ev2))),
{
    let w = r.work;
    lemma_push(w, Work::Cont(e));
    match e {
        Expr::Grouping { expression } => {
            lemma_push(w, Work::Eval(&**expression));
        },
        Expr::Unary { right, .. } => {
            lemma_push(w.push(Work::Cont(e)), Work::Eval(&**right));
        },
        Expr::Binary { left, right, .. } => {
            lemma_push(w.push(Work::Cont(e)), Work::Eval(&**right));
            lemma_push(w.push(Work::Cont(e)).push(Work::Eval(&**right)), Work::Eval(&**left));
        },
        Expr::Assign { value, .. } => {
            lemma_push(w.push(Work::Cont(e)), Work::Eval(&**value));
        },
        Expr::Logical { left, .. } => {
            lemma_push(w.push(Work::Cont(e)), Work::Eval(&**left));
        },
        Expr::Call { callee, args, .. } => {
            let inner = post.work.drop_last();
            assert forall|j: int| w.len() + 1 <= j < inner.len() implies (#[trigger] inner[j] is Eval) by {
            }
            lemma_eval_tail(w.push(Work::Cont(e)), inner);
            lemma_last(post.work);
            lemma_push(inner, Work::Eval(&**callee));
        },
        _ => {},
    }
    lemma_disc(post, ev2);
}

proof fn lemma_binary_case<'a, N>(
    e: &'a Expr,
    r: InterpretV<'a, N>,
    post: InterpretV<'a, N>,
    act: Action<'a, N>,
    ev2: Event<N>,
)
    requires
        e is Binary,
        shape(r.work) is Some,
        r.vals.len() >= 2 + sub0(need(r.work), 1),
        cont_rel(e, r, post, act),
        answers(act, ev2),
    ensures
        disciplined(post.with_vals(absorb(post.vals, ev2))),
{
    lemma_disc(post, ev2);
}

proof fn lemma_call_case<'a, N>(
    e: &'a Expr,
    r: InterpretV<'a, N>,
    post: InterpretV<'a, N>,
    act: Action<'a, N>,
    ev2: Event<N>,
)
    requires
        e is Call,
        shape(r.work) is Some,
        r.vals.len() >= takes(Work::Cont(e)) + sub0(need(r.work), 1),
        cont_rel(e, r, post, act),
        answers(act, ev2),
    ensures
        disciplined(post.with_vals(absorb(post.vals, ev2))),
{
    match e {
        Expr::Call { args, .. } => {
            let n = args@.len();
            lemma_pop_n_len(r.vals, n);
            lemma_push(r.work, Work::Frame);
            match top(pop_n(r.vals, n).0) {
                Value::ForeignFn(f) => match f.declaration {
                    Stmt::Function { params, .. } => if params.len() == n {
                        lemma_stmt_tail(r.work.push(Work::Frame), post.work);
                    },
                    _ => {},
                },
                _ => {},
            }
        },
        _ => {},
    }
    lemma_disc(post, ev2);
}

proof fn lemma_cont_case<'a, N>(
    e: &'a Expr,
    r: InterpretV<'a, N>,
    post: InterpretV<'a, N>,
    act: Action<'a, N>,
    ev2: Event<N>,
)
    requires
        shape(r.work) is Some,
        r.vals.len() >= takes(Work::Cont(e)) + sub0(need(r.work), leaves(Work::Cont(e))),
        cont_rel(e, r, post, act),
        answers(act, ev2),
    ensures
        disciplined(post.with_vals(absorb(post.vals, ev2))),
{
    match e {
        Expr::Binary { .. } => {
            lemma_binary_case(e, r, post, act, ev2);
        },
        Expr::Call { .. } => {
            lemma_call_case(e, r, post, act, ev2);
        },
        Expr::Logical { right, .. } => {
            lemma_push(r.work, Work::Eval(&**right));
            lemma_disc(post, ev2);
        },
        _ => {
            lemma_disc(post, ev2);
        },
    }
}

proof fn lemma_finish_case<'a, N>(
    x: &'a Stmt,
    r: InterpretV<'a, N>,
    post: InterpretV<'a, N>,
    act: Action<'a, N>,
    ev2: Event<N>,
)
    requires
        shape(r.work) == Some(false),
        r.vals.len() >= takes(Work::Finish(x)) + need(r.work),
        finish_rel(x, r, post, act),
        answers(act, ev2),
    ensures
        disciplined(post.with_vals(absorb(post.vals, ev2))),
{
    match x {
        Stmt::Return { .. } => {
            lemma_unwind(r.work, r.env);
        },
        Stmt::IfStmt { then_branch, else_branch, .. } => {
            lemma_push(r.work, Work::Exec(&**then_branch));
            match else_branch {
                Some(b) => {
                    lemma_push(r.work, Work::Exec(&**b));
                },
                None => {},
            }
        },
        Stmt::While { body, .. } => {
            lemma_push(r.work, Work::Exec(x));
            lemma_push(r.work.push(Work::Exec(x)), Work::Exec(&**body));
        },
        _ => {},
    }
    lemma_disc(post, ev2);
}

/// A machine about to run a program is disciplined.
pub proof fn law_initial_disciplined<'a, N>()
    ensures
        disciplined(initial::<'a, N>()),
{
}

/// In a disciplined machine, the next item of work finds on the value stack
/// all the values it takes.
pub proof fn law_operands_present<'a, N>(s: InterpretV<'a, N>)
    requires
        disciplined(s),
        s.work.len() > 0,
    ensures
        s.vals.len() >= takes(s.work.last()),
{
}

/// Every step keeps a machine disciplined, as long as the host answers the
/// action as it asks.
pub proof fn law_step_keeps_discipline<'a, N>(
    pre: InterpretV<'a, N>,
    ev: Event<N>,
    post: InterpretV<'a, N>,
    act: Action<'a, N>,
    ev2: Event<N>,
)
    requires
        disciplined(pre.with_vals(absorb(pre.vals, ev))),
        step_rel(pre, ev, post, act),
        answers(act, ev2),
    ensures
        disciplined(post.with_vals(absorb(post.vals, ev2))),
{
    let s = pre.with_vals(absorb(pre.vals, ev));
    if s.work.len() == 0 {
        if 0 <= s.next < s.program.len() {
            assert(post.work =~= Seq::<Work<'a>>::empty().push(post.work[0]));
            lemma_push(Seq::<Work<'a>>::empty(), post.work[0]);
        }
        lemma_disc(post, ev2);
    } else {
        let r = s.with_work(s.work.drop_last());
        lemma_last(s.work);
        lemma_push(r.work, s.work.last());
        match s.work.last() {
            Work::Exec(x) => lemma_exec_case(x, r, post, act, ev2),
            Work::Eval(e) => lemma_eval_case(e, r, post, act, ev2),
            Work::Cont(e) => lemma_cont_case(e, r, post, act, ev2),
            Work::Finish(x) => lemma_finish_case(x, r, post, act, ev2),
            Work::LeaveScope => lemma_disc(post, ev2),
            Work::Frame => lemma_disc(post, ev2),
        }
    }
}

/// Setting the statements to run, or scheduling an expression, keeps a
/// machine disciplined; so do scheduling a statement and taking a value
/// when no work is pending.
pub proof fn law_calls_keep_discipline<'a, N>(
    s: InterpretV<'a, N>,
    stmts: Seq<Stmt>,
    e: &'a Expr,
    x: &'a Stmt,
)
    requires
        disciplined(s),
    ensures
        disciplined(InterpretV { program: stmts, next: 0, ..s }),
        disciplined(s.with_work(s.work.push(Work::Eval(e)))),
        s.work.len() == 0 ==> disciplined(s.with_work(s.work.push(Work::Exec(x)))),
        s.work.len() == 0 ==> disciplined(s.with_vals(below(s.vals))),
{
    lemma_push(s.work, Work::Eval(e));
    lemma_push(s.work, Work::Exec(x));
}

} // verus!
