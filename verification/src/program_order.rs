//! The order in which a machine runs the statements of its program: one at
//! a time, each once, in the order of the program; and a runtime error ends
//! the program in the statement it happened in, so that no later statement
//! runs.
use vstd::prelude::*;

use crate::interpret::{ready, step_rel, Action, Event, InterpretV};

verus! {

/// The step from `pre`, on the host's answer `ev`, takes up the statement
/// of the program at index `i`: no work is pending and `i` is next.
pub open spec fn starts_statement<'a, N>(pre: InterpretV<'a, N>, ev: Event<N>, i: int) -> bool {
    let s = ready(pre, ev);
    s.work.len() == 0 && s.next == i && 0 <= i < s.program.len()
}

/// Step `k` of a run: from state `k`, on answer `k`, to state `k + 1`
/// with action `k`.
pub open spec fn step_at<'a, N>(
    states: Seq<InterpretV<'a, N>>,
    evs: Seq<Event<N>>,
    acts: Seq<Action<'a, N>>,
    k: int,
) -> bool {
    step_rel(states[k], evs[k], states[k + 1], acts[k])
}

/// `states` is a run of the machine: each state is the step from the one
/// before it, on the host's answer `evs` gives for that step, with the
/// action `acts` gives.
pub open spec fn is_run<'a, N>(
    states: Seq<InterpretV<'a, N>>,
    evs: Seq<Event<N>>,
    acts: Seq<Action<'a, N>>,
) -> bool {
    &&& states.len() == acts.len() + 1
    &&& evs.len() == acts.len()
    &&& forall|k: int| 0 <= k < acts.len() ==> #[trigger] step_at(states, evs, acts, k)
}

/// The statement of the program at index `i` was taken up at some step of
/// the run before step `j`.
pub open spec fn taken_up_before<'a, N>(
    states: Seq<InterpretV<'a, N>>,
    evs: Seq<Event<N>>,
    i: int,
    j: int,
) -> bool {
    exists|k: int| 0 <= k < j && #[trigger] starts_statement(states[k], evs[k], i)
}

/// What one step does to the program's progress.
proof fn lemma_step<'a, N>(
    pre: InterpretV<'a, N>,
    ev: Event<N>,
    post: InterpretV<'a, N>,
    act: Action<'a, N>,
)
    requires
        step_rel(pre, ev, post, act),
        0 <= pre.next <= pre.program.len(),
    ensures
        post.program == pre.program,
        0 <= post.next <= post.program.len(),
        act is Fail ==> post.next == pre.program.len() && post.work.len() == 0 && ready(
            pre,
            ev,
        ).work.len() > 0,
        !(act is Fail) && starts_statement(pre, ev, pre.next) ==> post.next == pre.next + 1
            && post.work.len() > 0,
        !(act is Fail) && !starts_statement(pre, ev, pre.next) ==> post.next == pre.next,
        ready(pre, ev).work.len() == 0 && !starts_statement(pre, ev, pre.next) ==> act is Halt
            && post.work.len() == 0 && post.env == pre.env,
        act is Halt ==> ready(pre, ev).work.len() == 0,
{
}


/// A run without its last step is a run.
proof fn lemma_shorter_run<'a, N>(
    states: Seq<InterpretV<'a, N>>,
    evs: Seq<Event<N>>,
    acts: Seq<Action<'a, N>>,
)
    requires
        is_run(states, evs, acts),
        acts.len() > 0,
    ensures
        is_run(states.drop_last(), evs.drop_last(), acts.drop_last()),
{
    let (s2, e2, a2) = (states.drop_last(), evs.drop_last(), acts.drop_last());
    assert forall|k: int| 0 <= k < a2.len() implies #[trigger] step_at(s2, e2, a2, k) by {
        assert(step_at(states, evs, acts, k));
    }
}

/// Along a run the program stays and the index of the next statement only
/// grows, up to the program's length.
proof fn lemma_progress<'a, N>(
    states: Seq<InterpretV<'a, N>>,
    evs: Seq<Event<N>>,
    acts: Seq<Action<'a, N>>,
)
    requires
        is_run(states, evs, acts),
        0 <= states[0].next <= states[0].program.len(),
    ensures
        forall|j: int|
            0 <= j < states.len() ==> (#[trigger] states[j]).program == states[0].program && 0
                <= states[j].next <= states[0].program.len(),
        forall|i: int, j: int|
            #![trigger states[i], states[j]]
            0 <= i <= j < states.len() ==> states[i].next <= states[j].next,
    decreases acts.len(),
{
    if acts.len() > 0 {
        let n = acts.len() - 1;
        lemma_shorter_run(states, evs, acts);
        let s2 = states.drop_last();
        lemma_progress(s2, evs.drop_last(), acts.drop_last());
        assert(step_at(states, evs, acts, n));
        assert(states[n] == s2[n]);
        lemma_step(states[n], evs[n], states[n + 1], acts[n]);
        assert forall|j: int|
            0 <= j < states.len() implies (#[trigger] states[j]).program == states[0].program && 0
                <= states[j].next <= states[0].program.len() by {
            if j < states.len() - 1 {
                assert(states[j] == s2[j]);
            }
        }
        assert forall|i: int, j: int|
            #![trigger states[i], states[j]]
            0 <= i <= j < states.len() implies states[i].next <= states[j].next by {
            if j < states.len() - 1 {
                assert(states[i] == s2[i]);
                assert(states[j] == s2[j]);
            } else if i < j {
                assert(states[i] == s2[i]);
                assert(s2[i].next <= s2[n].next);
            }
        }
    }
}

/// The statements of a program are taken up one at a time, each at most
/// once, in the order of the program: the index of the next statement
/// never goes back, and taking up a statement moves it past that
/// statement.
pub proof fn law_statements_in_order<'a, N>(
    states: Seq<InterpretV<'a, N>>,
    evs: Seq<Event<N>>,
    acts: Seq<Action<'a, N>>,
)
    requires
        is_run(states, evs, acts),
        0 <= states[0].next <= states[0].program.len(),
    ensures
        forall|j: int|
            0 <= j < states.len() ==> (#[trigger] states[j]).program == states[0].program,
        forall|i: int, j: int|
            #![trigger states[i], states[j]]
            0 <= i <= j < states.len() ==> states[i].next <= states[j].next,
        forall|k: int, i: int|
            0 <= k < acts.len() && #[trigger] starts_statement(states[k], evs[k], i) ==> acts[k] is Continue
                && states[k + 1].next == i + 1,
        forall|k1: int, k2: int, i1: int, i2: int|
            0 <= k1 < k2 < acts.len() && #[trigger] starts_statement(states[k1], evs[k1], i1)
                && #[trigger] starts_statement(states[k2], evs[k2], i2) ==> i1 < i2,
{
    lemma_progress(states, evs, acts);
    assert forall|k: int, i: int|
        0 <= k < acts.len() && #[trigger] starts_statement(
            states[k],
            evs[k],
            i,
        ) implies acts[k] is Continue && states[k + 1].next == i + 1 by {
        assert(step_at(states, evs, acts, k));
        assert(states[k] == states[k]);
        lemma_step(states[k], evs[k], states[k + 1], acts[k]);
    }
    assert forall|k1: int, k2: int, i1: int, i2: int|
        0 <= k1 < k2 < acts.len() && #[trigger] starts_statement(states[k1], evs[k1], i1)
            && #[trigger] starts_statement(states[k2], evs[k2], i2) implies i1 < i2 by {
        assert(step_at(states, evs, acts, k1));
        assert(states[k1] == states[k1]);
        lemma_step(states[k1], evs[k1], states[k1 + 1], acts[k1]);
        assert(states[k1 + 1].next <= states[k2].next);
    }
}


/// After a runtime error at step `g` the machine halts at every later step
/// and changes neither its work, nor the index of the next statement, nor
/// its scopes.
proof fn lemma_after_error<'a, N>(
    states: Seq<InterpretV<'a, N>>,
    evs: Seq<Event<N>>,
    acts: Seq<Action<'a, N>>,
    g: int,
    m: int,
)
    requires
        is_run(states, evs, acts),
        0 <= states[0].next <= states[0].program.len(),
        0 <= g < acts.len(),
        acts[g] is Fail,
        g < m < states.len(),
    ensures
        states[m].work.len() == 0,
        states[m].next == states[0].program.len(),
        states[m].env == states[g + 1].env,
        m < acts.len() ==> acts[m] is Halt,
    decreases m - g,
{
    lemma_progress(states, evs, acts);
    assert(states[g] == states[g]);
    assert(states[m] == states[m]);
    if m == g + 1 {
        assert(step_at(states, evs, acts, g));
        lemma_step(states[g], evs[g], states[g + 1], acts[g]);
    } else {
        lemma_after_error(states, evs, acts, g, m - 1);
        assert(step_at(states, evs, acts, m - 1));
        assert(states[m - 1] == states[m - 1]);
        lemma_step(states[m - 1], evs[m - 1], states[m], acts[m - 1]);
    }
    if m < acts.len() {
        assert(step_at(states, evs, acts, m));
        assert(states[m + 1] == states[m + 1]);
        lemma_step(states[m], evs[m], states[m + 1], acts[m]);
    }
}

/// Along a run without a runtime error that starts with no work pending,
/// every statement from the first one up to the next one was taken up, and
/// work is pending only once a statement has been taken up.
proof fn lemma_taken_up<'a, N>(
    states: Seq<InterpretV<'a, N>>,
    evs: Seq<Event<N>>,
    acts: Seq<Action<'a, N>>,
)
    requires
        is_run(states, evs, acts),
        states[0].work.len() == 0,
        0 <= states[0].next <= states[0].program.len(),
        forall|k: int| 0 <= k < acts.len() ==> !(#[trigger] acts[k] is Fail),
    ensures
        forall|i: int|
            states[0].next <= i < states[acts.len() as int].next ==> #[trigger] taken_up_before(
                states,
                evs,
                i,
                acts.len() as int,
            ),
        states[acts.len() as int].work.len() > 0 ==> states[0].next < states[acts.len() as int].next,
    decreases acts.len(),
{
    if acts.len() > 0 {
        let n = acts.len() - 1;
        let (s2, e2, a2) = (states.drop_last(), evs.drop_last(), acts.drop_last());
        lemma_shorter_run(states, evs, acts);
        assert forall|k: int| 0 <= k < a2.len() implies !(#[trigger] a2[k] is Fail) by {
            assert(a2[k] == acts[k]);
        }
        lemma_taken_up(s2, e2, a2);
        lemma_progress(states, evs, acts);
        assert(step_at(states, evs, acts, n));
        assert(states[n] == s2[n]);
        assert(states[0] == s2[0]);
        assert(acts[n] == acts[n]);
        lemma_step(states[n], evs[n], states[n + 1], acts[n]);
        assert forall|i: int|
            states[0].next <= i < states[acts.len() as int].next implies #[trigger] taken_up_before(
                states,
                evs,
                i,
                acts.len() as int,
            ) by {
            if i < states[n].next {
                assert(taken_up_before(s2, e2, i, a2.len() as int));
                let k = choose|k: int| 0 <= k < a2.len() && #[trigger] starts_statement(s2[k], e2[k], i);
                assert(s2[k] == states[k] && e2[k] == evs[k]);
                assert(starts_statement(states[k], evs[k], i));
            } else {
                assert(starts_statement(states[n], evs[n], i));
            }
        }
    }
}

/// A runtime error ends the program in the statement it happened in: that
/// statement is the last one taken up; every statement from the first one
/// up to it was taken up before the error, and no statement after it is
/// taken up, then or later; from the error on the machine halts at every
/// step, with no work pending and its scopes as the error left them.
pub proof fn law_error_ends_program<'a, N>(
    states: Seq<InterpretV<'a, N>>,
    evs: Seq<Event<N>>,
    acts: Seq<Action<'a, N>>,
    f: int,
)
    requires
        is_run(states, evs, acts),
        states[0].work.len() == 0,
        0 <= states[0].next <= states[0].program.len(),
        0 <= f < acts.len(),
        acts[f] is Fail,
    ensures
        states[0].next < states[f].next,
        forall|i: int|
            states[0].next <= i < states[f].next ==> #[trigger] taken_up_before(states, evs, i, f),
        forall|k: int, i: int|
            0 <= k < acts.len() && #[trigger] starts_statement(states[k], evs[k], i) ==> k < f && i
                < states[f].next,
        forall|k: int| f < k < acts.len() ==> #[trigger] acts[k] is Halt,
        forall|k: int|
            f < k < states.len() ==> (#[trigger] states[k]).work.len() == 0 && states[k].next
                == states[0].program.len() && states[k].env == states[f + 1].env,
{
    lemma_progress(states, evs, acts);
    law_statements_in_order(states, evs, acts);
    assert forall|k: int| 0 <= k < f implies !(#[trigger] acts[k] is Fail) by {
        if acts[k] is Fail {
            lemma_after_error(states, evs, acts, k, f);
        }
    }
    let (s2, e2, a2) = (states.take(f + 1), evs.take(f), acts.take(f));
    assert forall|k: int| 0 <= k < a2.len() implies #[trigger] step_at(s2, e2, a2, k) by {
        assert(step_at(states, evs, acts, k));
        assert(s2[k] == states[k] && s2[k + 1] == states[k + 1]);
    }
    assert forall|k: int| 0 <= k < a2.len() implies !(#[trigger] a2[k] is Fail) by {
        assert(a2[k] == acts[k]);
    }
    assert(s2[0] == states[0]);
    assert(s2[f] == states[f]);
    lemma_taken_up(s2, e2, a2);
    assert(step_at(states, evs, acts, f));
    assert(states[f] == states[f]);
    lemma_step(states[f], evs[f], states[f + 1], acts[f]);
    assert forall|i: int|
        states[0].next <= i < states[f].next implies #[trigger] taken_up_before(
            states,
            evs,
            i,
            f,
        ) by {
        assert(taken_up_before(s2, e2, i, f));
        let k = choose|k: int| 0 <= k < a2.len() && #[trigger] starts_statement(s2[k], e2[k], i);
        assert(s2[k] == states[k] && e2[k] == evs[k]);
        assert(starts_statement(states[k], evs[k], i));
    }
    assert forall|k: int, i: int|
        0 <= k < acts.len() && #[trigger] starts_statement(states[k], evs[k], i) implies k < f && i
            < states[f].next by {
        if k > f {
            lemma_after_error(states, evs, acts, f, k);
        } else if k < f {
            assert(states[k + 1].next <= states[f].next);
        }
    }
    assert forall|k: int| f < k < acts.len() implies #[trigger] acts[k] is Halt by {
        lemma_after_error(states, evs, acts, f, k);
    }
    assert forall|k: int|
        f < k < states.len() implies (#[trigger] states[k]).work.len() == 0 && states[k].next
            == states[0].program.len() && states[k].env == states[f + 1].env by {
        lemma_after_error(states, evs, acts, f, k);
    }
}

} // verus!
