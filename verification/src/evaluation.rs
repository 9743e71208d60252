//! Whole evaluations. A run of the machine evaluates an expression when it
//! starts with the expression's evaluation on top of the pending work and
//! ends once that work is done, with the value on top of the value stack.
//! The laws here compose such runs: what an expression gives, once its
//! parts have given their values.
use vstd::prelude::*;

use crate::ast::{Expr, Stmt};
use crate::env::{assign_spec, undefined_message};
use crate::interpret::{
    abandoned, below, binary_rel, cont_rel, fails, finish_rel, ready, step_rel, takes_up, top,
    truthy, Action, Event, InterpretV, Value, Work,
};
use crate::token::TokenType;
use crate::program_order::is_run;
use crate::stack_discipline::answers;

verus! {

/// `states`, on the host's answers `evs`, with the actions `acts`, is a run
/// that evaluates `e` to `v`: the first step takes up `e`'s evaluation;
/// until the last step the work below it is left alone, no step fails and
/// the host answers each action as it asks; on the last answer the
/// evaluation is done, and `v` is on the value stack where the run began.
pub open spec fn evaluates<'a, N>(
    states: Seq<InterpretV<'a, N>>,
    evs: Seq<Event<N>>,
    acts: Seq<Action<'a, N>>,
    e: &'a Expr,
    v: Value<'a, N>,
) -> bool {
    let first = ready(states[0], evs[0]);
    let last = ready(states.last(), evs.last());
    &&& evs.len() == states.len()
    &&& is_run(states, evs.drop_last(), acts)
    &&& first.work.len() > 0
    &&& first.work.last() == Work::Eval(e)
    &&& forall|k: int|
        0 <= k < acts.len() ==> ready(states[k], evs[k]).work.len() >= first.work.len() && !(
        #[trigger] acts[k] is Fail) && answers(acts[k], evs[k + 1])
    &&& last.work == first.work.drop_last()
    &&& last.vals == first.vals.push(v)
}

/// The state in which the run ends, with the host's last answer.
pub open spec fn end_of<'a, N>(states: Seq<InterpretV<'a, N>>, evs: Seq<Event<N>>) -> InterpretV<
    'a,
    N,
> {
    ready(states.last(), evs.last())
}

/// A run that evaluates `sub` from a state the host answered with nothing
/// ends with the work below `sub` and with `v` on top of the values.
proof fn lemma_evaluation_ends<'a, N>(
    states: Seq<InterpretV<'a, N>>,
    evs: Seq<Event<N>>,
    acts: Seq<Action<'a, N>>,
    sub: &'a Expr,
    v: Value<'a, N>,
)
    requires
        evaluates(states, evs, acts, sub, v),
        evs[0] is Nothing,
    ensures
        end_of(states, evs).work == states[0].work.drop_last(),
        end_of(states, evs).vals == states[0].vals.push(v),
{
    assert(ready(states[0], evs[0]) == states[0]) by {
        assert(states[0].with_vals(states[0].vals) =~= states[0]);
    }
}

/// A binary expression gives what its operator gives on the values of its
/// operands, evaluated left to right: once the left operand has given `a`
/// and the right one `b`, the step that finishes the expression does what
/// `binary_rel` says of the operator on `a` and `b` (for `+`: the host adds
/// two numbers, two strings are joined, anything else is an error at the
/// operator), with the work and the values as they were before the
/// expression.
pub proof fn law_binary_evaluation<'a, N>(
    x0: InterpretV<'a, N>,
    ev0: Event<N>,
    act0: Action<'a, N>,
    e: &'a Expr,
    l_states: Seq<InterpretV<'a, N>>,
    l_evs: Seq<Event<N>>,
    l_acts: Seq<Action<'a, N>>,
    a: Value<'a, N>,
    r_states: Seq<InterpretV<'a, N>>,
    r_evs: Seq<Event<N>>,
    r_acts: Seq<Action<'a, N>>,
    b: Value<'a, N>,
    y: InterpretV<'a, N>,
    act_y: Action<'a, N>,
)
    requires
        takes_up(x0, ev0, Work::Eval(e)),
        e is Binary,
        step_rel(x0, ev0, l_states[0], act0),
        l_evs[0] is Nothing,
        evaluates(l_states, l_evs, l_acts, &*e->Binary_left, a),
        r_states[0] == l_states.last(),
        r_evs[0] == l_evs.last(),
        evaluates(r_states, r_evs, r_acts, &*e->Binary_right, b),
        step_rel(r_states.last(), r_evs.last(), y, act_y),
    ensures
        act0 is Continue,
        ({
            let s = ready(x0, ev0);
            let m = end_of(r_states, r_evs);
            &&& m.work == s.work.drop_last().push(Work::Cont(e))
            &&& m.vals == s.vals.push(a).push(b)
            &&& binary_rel(
                e->Binary_operator,
                a,
                b,
                m.with_work(s.work.drop_last()).with_vals(s.vals),
                y,
                act_y,
            )
        }),
{
    let s = ready(x0, ev0);
    let base = s.with_work(s.work.drop_last());
    let l0 = l_states[0];
    assert(l0 == base.with_work(
        base.work.push(Work::Cont(e)).push(Work::Eval(&*e->Binary_right)).push(
            Work::Eval(&*e->Binary_left),
        ),
    ));
    assert(ready(l0, l_evs[0]) == l0) by {
        assert(l0.with_vals(l0.vals) =~= l0);
    }
    let lm = end_of(l_states, l_evs);
    assert(lm.work =~= s.work.drop_last().push(Work::Cont(e)).push(Work::Eval(&*e->Binary_right)));
    assert(lm.vals == s.vals.push(a));
    assert(lm == ready(r_states[0], r_evs[0]));
    let m = end_of(r_states, r_evs);
    assert(m.work =~= s.work.drop_last().push(Work::Cont(e)));
    assert(m.vals == s.vals.push(a).push(b));
    assert(m.vals.drop_last() =~= s.vals.push(a));
    assert(m.work.drop_last() =~= s.work.drop_last());
    let mr = m.with_work(m.work.drop_last());
    assert(m.work.last() == Work::Cont(e));
    assert(cont_rel(e, mr, y, act_y));
    assert(top(mr.vals) == b);
    assert(below(mr.vals) == s.vals.push(a));
    assert(top(s.vals.push(a)) == a);
    assert(below(s.vals.push(a)) =~= s.vals);
    assert(binary_rel(e->Binary_operator, a, b, mr.with_vals(s.vals), y, act_y));
    assert(mr.with_vals(s.vals) =~= m.with_work(s.work.drop_last()).with_vals(s.vals));
}

/// A unary expression gives what its operator gives on the value of its
/// operand: once the operand has given `v`, `!` gives `true` exactly when
/// `v` is `nil` or `false`, and `-` hands a number to the host to negate
/// and is the error `Operand must be a number.` on anything else.
pub proof fn law_unary_evaluation<'a, N>(
    x0: InterpretV<'a, N>,
    ev0: Event<N>,
    act0: Action<'a, N>,
    e: &'a Expr,
    r_states: Seq<InterpretV<'a, N>>,
    r_evs: Seq<Event<N>>,
    r_acts: Seq<Action<'a, N>>,
    v: Value<'a, N>,
    y: InterpretV<'a, N>,
    act_y: Action<'a, N>,
)
    requires
        takes_up(x0, ev0, Work::Eval(e)),
        e is Unary,
        step_rel(x0, ev0, r_states[0], act0),
        r_evs[0] is Nothing,
        evaluates(r_states, r_evs, r_acts, &*e->Unary_right, v),
        step_rel(r_states.last(), r_evs.last(), y, act_y),
    ensures
        act0 is Continue,
        ({
            let s = ready(x0, ev0);
            let m = end_of(r_states, r_evs);
            let done = m.with_work(s.work.drop_last()).with_vals(s.vals);
            let op = e->Unary_operator;
            &&& m.work == s.work.drop_last().push(Work::Cont(e))
            &&& m.vals == s.vals.push(v)
            &&& op.token_ty == TokenType::BANG ==> act_y is Continue && y == done.with_vals(
                s.vals.push(Value::Bool(!truthy(v))),
            )
            &&& op.token_ty == TokenType::MINUS ==> match v {
                Value::Number(n) => act_y == Action::<'a, N>::Negate(n) && y == done,
                _ => fails(op, "Operand must be a number."@, act_y) && y == abandoned(done),
            }
        }),
{
    let s = ready(x0, ev0);
    lemma_evaluation_ends(r_states, r_evs, r_acts, &*e->Unary_right, v);
    let m = end_of(r_states, r_evs);
    assert(m.work =~= s.work.drop_last().push(Work::Cont(e)));
    let mr = m.with_work(m.work.drop_last());
    assert(m.work.last() == Work::Cont(e));
    assert(m.work.drop_last() =~= s.work.drop_last());
    assert(cont_rel(e, mr, y, act_y));
    assert(top(mr.vals) == v);
    assert(below(mr.vals) =~= s.vals);
    assert(mr.with_vals(s.vals) =~= m.with_work(s.work.drop_last()).with_vals(s.vals));
    assert(abandoned(mr) =~= abandoned(m.with_work(s.work.drop_last()).with_vals(s.vals)));
}

/// `or` and `and` evaluate their right operand only when the left one does
/// not decide: once the left operand has given `l`, an `or` with `l` true
/// or an `and` with `l` false gives `l`, and otherwise the right operand is
/// evaluated next, in place of the whole expression, whose value is then
/// the right operand's value `v`.
pub proof fn law_logical_evaluation<'a, N>(
    x0: InterpretV<'a, N>,
    ev0: Event<N>,
    act0: Action<'a, N>,
    e: &'a Expr,
    l_states: Seq<InterpretV<'a, N>>,
    l_evs: Seq<Event<N>>,
    l_acts: Seq<Action<'a, N>>,
    l: Value<'a, N>,
    y: InterpretV<'a, N>,
    act_y: Action<'a, N>,
    r_states: Seq<InterpretV<'a, N>>,
    r_evs: Seq<Event<N>>,
    r_acts: Seq<Action<'a, N>>,
    v: Value<'a, N>,
)
    requires
        takes_up(x0, ev0, Work::Eval(e)),
        e is Logical,
        step_rel(x0, ev0, l_states[0], act0),
        l_evs[0] is Nothing,
        evaluates(l_states, l_evs, l_acts, &*e->Logical_left, l),
        step_rel(l_states.last(), l_evs.last(), y, act_y),
        r_states[0] == y,
        r_evs[0] is Nothing,
    ensures
        act0 is Continue,
        act_y is Continue,
        ({
            let s = ready(x0, ev0);
            let m = end_of(l_states, l_evs);
            let short = if e->Logical_operator.token_ty == TokenType::OR {
                truthy(l)
            } else {
                !truthy(l)
            };
            &&& m.work == s.work.drop_last().push(Work::Cont(e))
            &&& m.vals == s.vals.push(l)
            &&& short ==> y.work == s.work.drop_last() && y.vals == s.vals.push(l) && y.env == m.env
            &&& !short ==> y.work == s.work.drop_last().push(Work::Eval(&*e->Logical_right))
                && y.vals == s.vals && y.env == m.env
            &&& !short && evaluates(r_states, r_evs, r_acts, &*e->Logical_right, v) ==> end_of(
                r_states,
                r_evs,
            ).work == s.work.drop_last() && end_of(r_states, r_evs).vals == s.vals.push(v)
        }),
{
    let s = ready(x0, ev0);
    lemma_evaluation_ends(l_states, l_evs, l_acts, &*e->Logical_left, l);
    let m = end_of(l_states, l_evs);
    assert(m.work =~= s.work.drop_last().push(Work::Cont(e)));
    let mr = m.with_work(m.work.drop_last());
    assert(m.work.last() == Work::Cont(e));
    assert(m.work.drop_last() =~= s.work.drop_last());
    assert(cont_rel(e, mr, y, act_y));
    assert(top(mr.vals) == l);
    assert(below(mr.vals) =~= s.vals);
    let short = if e->Logical_operator.token_ty == TokenType::OR {
        truthy(l)
    } else {
        !truthy(l)
    };
    if !short && evaluates(r_states, r_evs, r_acts, &*e->Logical_right, v) {
        lemma_evaluation_ends(r_states, r_evs, r_acts, &*e->Logical_right, v);
        assert(y.work.drop_last() =~= s.work.drop_last());
    }
}

/// An assignment stores the value of its right-hand side in the innermost
/// scope that binds the name, and gives that value; when no scope binds
/// the name it is the error `Undefined variable 'name'.` at the name.
pub proof fn law_assignment_evaluation<'a, N>(
    x0: InterpretV<'a, N>,
    ev0: Event<N>,
    act0: Action<'a, N>,
    e: &'a Expr,
    r_states: Seq<InterpretV<'a, N>>,
    r_evs: Seq<Event<N>>,
    r_acts: Seq<Action<'a, N>>,
    v: Value<'a, N>,
    y: InterpretV<'a, N>,
    act_y: Action<'a, N>,
)
    requires
        takes_up(x0, ev0, Work::Eval(e)),
        e is Assign,
        step_rel(x0, ev0, r_states[0], act0),
        r_evs[0] is Nothing,
        evaluates(r_states, r_evs, r_acts, &*e->Assign_value, v),
        step_rel(r_states.last(), r_evs.last(), y, act_y),
    ensures
        act0 is Continue,
        ({
            let s = ready(x0, ev0);
            let m = end_of(r_states, r_evs);
            let done = m.with_work(s.work.drop_last()).with_vals(s.vals);
            let name = e->Assign_name;
            &&& m.work == s.work.drop_last().push(Work::Cont(e))
            &&& m.vals == s.vals.push(v)
            &&& match assign_spec(m.env, name.lexeme@, v) {
                Some(env) => act_y is Continue && y == done.with_env(env).with_vals(s.vals.push(v)),
                None => fails(name, undefined_message(name.lexeme@), act_y) && y == abandoned(done),
            }
        }),
{
    let s = ready(x0, ev0);
    lemma_evaluation_ends(r_states, r_evs, r_acts, &*e->Assign_value, v);
    let m = end_of(r_states, r_evs);
    assert(m.work =~= s.work.drop_last().push(Work::Cont(e)));
    let mr = m.with_work(m.work.drop_last());
    assert(m.work.last() == Work::Cont(e));
    assert(m.work.drop_last() =~= s.work.drop_last());
    assert(cont_rel(e, mr, y, act_y));
    assert(top(mr.vals) == v);
    assert(below(mr.vals) =~= s.vals);
    assert(mr.with_vals(s.vals) =~= m.with_work(s.work.drop_last()).with_vals(s.vals));
    assert(abandoned(mr) =~= abandoned(m.with_work(s.work.drop_last()).with_vals(s.vals)));
}

/// The expression a statement evaluates before it takes effect: that of an
/// expression statement or a `print`, the initializer of a `var`, the value
/// of a `return`, the condition of an `if` or a `while`.
pub open spec fn statement_expr<'a>(x: &'a Stmt) -> Option<&'a Expr> {
    match x {
        Stmt::Expression { expr } => Some(expr),
        Stmt::Print { expr } => Some(expr),
        Stmt::Var { initializer, .. } => match initializer {
            Some(e) => Some(e),
            None => None,
        },
        Stmt::Return { value, .. } => match value {
            Some(e) => Some(e),
            None => None,
        },
        Stmt::IfStmt { condition, .. } => Some(condition),
        Stmt::While { condition, .. } => Some(condition),
        _ => None,
    }
}

/// A statement with an expression evaluates it first; once it has given
/// `v`, the statement takes effect as `finish_rel` says: an expression
/// statement drops `v`, `print` prints it, `var` binds the name to it in
/// the innermost scope, `return` leaves the call with it, `if` runs the
/// branch `v` chooses, and `while` runs its body and itself again while `v`
/// is true.
pub proof fn law_statement_evaluation<'a, N>(
    x0: InterpretV<'a, N>,
    ev0: Event<N>,
    act0: Action<'a, N>,
    x: &'a Stmt,
    e: &'a Expr,
    r_states: Seq<InterpretV<'a, N>>,
    r_evs: Seq<Event<N>>,
    r_acts: Seq<Action<'a, N>>,
    v: Value<'a, N>,
    y: InterpretV<'a, N>,
    act_y: Action<'a, N>,
)
    requires
        takes_up(x0, ev0, Work::Exec(x)),
        statement_expr(x) == Some(e),
        step_rel(x0, ev0, r_states[0], act0),
        r_evs[0] is Nothing,
        evaluates(r_states, r_evs, r_acts, e, v),
        step_rel(r_states.last(), r_evs.last(), y, act_y),
    ensures
        act0 is Continue,
        ({
            let s = ready(x0, ev0);
            let m = end_of(r_states, r_evs);
            &&& m.work == s.work.drop_last().push(Work::Finish(x))
            &&& m.vals == s.vals.push(v)
            &&& finish_rel(x, m.with_work(s.work.drop_last()), y, act_y)
        }),
{
    let s = ready(x0, ev0);
    lemma_evaluation_ends(r_states, r_evs, r_acts, e, v);
    let m = end_of(r_states, r_evs);
    assert(m.work =~= s.work.drop_last().push(Work::Finish(x)));
    assert(m.work.last() == Work::Finish(x));
    assert(m.work.drop_last() =~= s.work.drop_last());
}

/// A `print` statement prints the value of its expression, and leaves the
/// work, the values and the scopes as the expression left them.
pub proof fn law_print_evaluation<'a, N>(
    x0: InterpretV<'a, N>,
    ev0: Event<N>,
    act0: Action<'a, N>,
    x: &'a Stmt,
    r_states: Seq<InterpretV<'a, N>>,
    r_evs: Seq<Event<N>>,
    r_acts: Seq<Action<'a, N>>,
    v: Value<'a, N>,
    y: InterpretV<'a, N>,
    act_y: Action<'a, N>,
)
    requires
        takes_up(x0, ev0, Work::Exec(x)),
        x is Print,
        step_rel(x0, ev0, r_states[0], act0),
        r_evs[0] is Nothing,
        evaluates(r_states, r_evs, r_acts, &x->Print_expr, v),
        step_rel(r_states.last(), r_evs.last(), y, act_y),
    ensures
        act0 is Continue,
        act_y == Action::<'a, N>::Print(v),
        y.work == ready(x0, ev0).work.drop_last(),
        y.vals == ready(x0, ev0).vals,
        y.env == end_of(r_states, r_evs).env,
{
    law_statement_evaluation(x0, ev0, act0, x, &x->Print_expr, r_states, r_evs, r_acts, v, y, act_y);
    let s = ready(x0, ev0);
    let m = end_of(r_states, r_evs);
    assert(top(s.vals.push(v)) == v);
    assert(below(s.vals.push(v)) =~= s.vals);
}

} // verus!
