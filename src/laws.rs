use vstd::prelude::*;

use crate::entry::{init_done, received, EntryPhase, EntryView, Incoming};
use crate::pool::{
    acquired, after_event, dispatched, joined, lemma_acquired_wf, lemma_after_event_wf,
    lemma_dispatched_wf, lemma_joined_wf, pool_wf, task_of, ContextEvent, ContextState,
    EventOutcome, PoolView,
};

verus! {

/// No step of the pool puts a context handle twice among the idle entries:
/// from a well-formed pool, joining, acquiring, dispatching and every context
/// event all lead to a well-formed pool, whose idle stack has no repeats.
pub proof fn idle_entries_stay_unique(
    v: PoolView,
    s: ContextState,
    h: usize,
    sent: bool,
    e: ContextEvent,
)
    requires
        pool_wf(v),
    ensures
        v.idle.no_duplicates(),
        acquired(v).0.idle.no_duplicates(),
        after_event(v, h, e).0.idle.no_duplicates(),
        v.states.len() < usize::MAX && (s == ContextState::Idle || s == ContextState::Lent)
            ==> joined(v, s).idle.no_duplicates(),
        (h as int) < v.states.len() && v.states[h as int] == ContextState::Lent && v.next_task
            < u64::MAX ==> dispatched(v, h, sent).0.idle.no_duplicates(),
{
    lemma_acquired_wf(v);
    lemma_after_event_wf(v, h, e);
    if v.states.len() < usize::MAX && (s == ContextState::Idle || s == ContextState::Lent) {
        lemma_joined_wf(v, s);
    }
    if (h as int) < v.states.len() && v.states[h as int] == ContextState::Lent && v.next_task
        < u64::MAX {
        lemma_dispatched_wf(v, h, sent);
    }
}

/// Acquiring never waits and never shrinks the pool: it yields an idle
/// context whenever one exists and leaves the number of contexts as it is;
/// no other step lowers that number either.
pub proof fn pool_never_shrinks(v: PoolView, s: ContextState, h: usize, sent: bool, e: ContextEvent)
    requires
        pool_wf(v),
    ensures
        acquired(v).1.is_some() == (v.idle.len() > 0),
        acquired(v).0.states.len() == v.states.len(),
        joined(v, s).states.len() == v.states.len() + 1,
        (h as int) < v.states.len() ==> dispatched(v, h, sent).0.states.len() == v.states.len(),
        after_event(v, h, e).0.states.len() == v.states.len(),
{
    if v.idle.len() > 0 {
        assert((v.idle[v.idle.len() - 1] as int) < v.states.len());
    }
}

/// A dispatched task gets an id that no context holds and that is larger
/// than every id issued before, so two tasks never share an id.
pub proof fn dispatched_id_is_fresh(v: PoolView, h: usize)
    requires
        pool_wf(v),
        (h as int) < v.states.len(),
        v.states[h as int] == ContextState::Lent,
        v.next_task < u64::MAX,
    ensures
        dispatched(v, h, true).1 == Some(v.next_task as u64),
        dispatched(v, h, true).0.next_task == v.next_task + 1,
        forall|k: int| 0 <= k < v.states.len() ==> task_of(#[trigger] v.states[k]) != Some(v.next_task),
{
    assert forall|k: int| 0 <= k < v.states.len() implies task_of(#[trigger] v.states[k]) != Some(
        v.next_task,
    ) by {
        if task_of(v.states[k]).is_some() {
            assert(task_of(v.states[k]).unwrap() < v.next_task);
        }
    }
}

/// A task's completion is reported once: the context that reports it held
/// that task, and afterwards no context holds it, so no later event can
/// report it again; a second event for the same context changes nothing.
pub proof fn completion_reported_once(v: PoolView, h: usize, e: ContextEvent, t: u64)
    requires
        pool_wf(v),
        after_event(v, h, ContextEvent::Completed).1 == EventOutcome::Reclaimed(t),
    ensures
        v.states[h as int] == ContextState::Busy(t),
        forall|k: int|
            0 <= k < v.states.len() ==> task_of(#[trigger] after_event(v, h, ContextEvent::Completed).0.states[k])
                != Some(t as nat),
        after_event(after_event(v, h, ContextEvent::Completed).0, h, e).1 == EventOutcome::Ignored,
        after_event(after_event(v, h, ContextEvent::Completed).0, h, e).0 == after_event(
            v,
            h,
            ContextEvent::Completed,
        ).0,
{
    let w = after_event(v, h, ContextEvent::Completed).0;
    assert forall|k: int| 0 <= k < v.states.len() implies task_of(#[trigger] w.states[k]) != Some(
        t as nat,
    ) by {
        if k != h {
            assert(w.states[k] == v.states[k]);
            assert(task_of(v.states[h as int]) == Some(t as nat));
        }
    }
}

/// When every context of a well-formed pool is idle, the idle stack holds
/// exactly the pool's contexts: each handle once, and no other.
pub proof fn quiescent_pool_idles_every_context(v: PoolView)
    requires
        pool_wf(v),
        forall|h: int| 0 <= h < v.states.len() ==> v.states[h] == ContextState::Idle,
    ensures
        v.idle.len() == v.states.len(),
        forall|h: usize| (h as int) < v.states.len() ==> #[trigger] v.idle.contains(h),
        forall|i: int| 0 <= i < v.idle.len() ==> (v.idle[i] as int) < v.states.len(),
{
    let n: int = v.states.len() as int;
    assert forall|h: usize| (h as int) < n implies #[trigger] v.idle.contains(h) by {
        assert(v.states[h as int] == ContextState::Idle);
        assert(v.idle.contains((h as int) as usize));
    }
    let ints = v.idle.map_values(|x: usize| x as int);
    assert(ints.no_duplicates()) by {
        assert forall|i: int, j: int| 0 <= i < ints.len() && 0 <= j < ints.len() && i != j implies ints[i]
            != ints[j] by {
            assert(v.idle[i] != v.idle[j]);
        }
    }
    assert(ints.to_set() =~= vstd::set_lib::set_int_range(0, n)) by {
        assert forall|x: int| ints.to_set().contains(x) implies 0 <= x < n by {
            let i = choose|i: int| 0 <= i < ints.len() && ints[i] == x;
            assert(v.idle[i] as int == x);
        }
        assert forall|x: int| 0 <= x < n implies ints.to_set().contains(x) by {
            assert(v.idle.contains(x as usize));
            let i = choose|i: int| 0 <= i < v.idle.len() && v.idle[i] == x as usize;
            assert(ints[i] == x);
        }
    }
    ints.unique_seq_to_set();
    vstd::set_lib::lemma_int_range(0, n);
}

/// A task run on an idle context and completed leaves the pool as it found
/// it: the same idle stack and the same contexts, with one more task id
/// issued and that task reported as completed.
pub proof fn run_and_complete_restores_pool(v: PoolView)
    requires
        pool_wf(v),
        v.idle.len() > 0,
        v.next_task < u64::MAX,
    ensures
        ({
            let (v1, h) = acquired(v);
            let (v2, t) = dispatched(v1, h.unwrap(), true);
            let (v3, r) = after_event(v2, h.unwrap(), ContextEvent::Completed);
            &&& h == Some(v.idle.last())
            &&& t == Some(v.next_task as u64)
            &&& r == EventOutcome::Reclaimed(v.next_task as u64)
            &&& v3.idle == v.idle
            &&& v3.states == v.states
            &&& v3.next_task == v.next_task + 1
        }),
{
    let (v1, h) = acquired(v);
    let hh = h.unwrap();
    assert(v.states[hh as int] == ContextState::Idle);
    let (v2, t) = dispatched(v1, hh, true);
    let (v3, r) = after_event(v2, hh, ContextEvent::Completed);
    assert(v3.idle =~= v.idle);
    assert(v3.states =~= v.states);
}

/// One step of the pool's bookkeeping, as its user drives it.
pub enum PoolStep {
    /// `ContextPool::acquire`.
    Acquire,
    /// `ContextPool::join_idle` or `ContextPool::join_lent`.
    Join(ContextState),
    /// `ContextPool::dispatch` for a handle, with whether the message went out.
    Dispatch(usize, bool),
    /// `ContextPool::on_event` for a handle.
    Event(usize, ContextEvent),
}

/// Whether some context of `v` holds task `t`.
pub open spec fn held(v: PoolView, t: nat) -> bool {
    exists|k: int| 0 <= k < v.states.len() && task_of(#[trigger] v.states[k]) == Some(t)
}

/// A step taken where the pool's methods accept it, with the id of the task
/// whose completion it reports, if any; a step they would not accept changes
/// nothing.
pub open spec fn apply(v: PoolView, s: PoolStep) -> (PoolView, Option<nat>) {
    match s {
        PoolStep::Acquire => (acquired(v).0, None),
        PoolStep::Join(st) => if v.states.len() < usize::MAX && (st == ContextState::Idle || st
            == ContextState::Lent) {
            (joined(v, st), None)
        } else {
            (v, None)
        },
        PoolStep::Dispatch(h, sent) => if (h as int) < v.states.len() && v.states[h as int]
            == ContextState::Lent && v.next_task < u64::MAX {
            (dispatched(v, h, sent).0, None)
        } else {
            (v, None)
        },
        PoolStep::Event(h, e) => {
            let (w, r) = after_event(v, h, e);
            (
                w,
                match r {
                    EventOutcome::Reclaimed(t) => Some(t as nat),
                    _ => None,
                },
            )
        },
    }
}

/// The task completions that a run of steps reports, in order.
pub open spec fn completions(v: PoolView, steps: Seq<PoolStep>) -> Seq<nat>
    decreases steps.len(),
{
    if steps.len() == 0 {
        Seq::empty()
    } else {
        let (w, r) = apply(v, steps[0]);
        let rest = completions(w, steps.subrange(1, steps.len() as int));
        match r {
            Some(t) => seq![t].add(rest),
            None => rest,
        }
    }
}

/// One step keeps the pool well formed, issues ids only upward, and reports
/// only a task that was held and is held no more.
pub proof fn lemma_step(v: PoolView, s: PoolStep)
    requires
        pool_wf(v),
    ensures
        pool_wf(apply(v, s).0),
        apply(v, s).0.next_task >= v.next_task,
        forall|t: nat| held(apply(v, s).0, t) ==> held(v, t) || t >= v.next_task,
        apply(v, s).1 matches Some(t) ==> held(v, t) && !held(apply(v, s).0, t) && t < v.next_task,
{
    let w = apply(v, s).0;
    match s {
        PoolStep::Acquire => {
            lemma_acquired_wf(v);
            assert forall|t: nat| held(w, t) implies held(v, t) || t >= v.next_task by {
                let k = choose|k: int| 0 <= k < w.states.len() && task_of(#[trigger] w.states[k]) == Some(t);
                if v.idle.len() > 0 {
                    assert(k != v.idle.last());
                }
                assert(w.states[k] == v.states[k]);
            }
        },
        PoolStep::Join(st) => {
            if v.states.len() < usize::MAX && (st == ContextState::Idle || st == ContextState::Lent) {
                lemma_joined_wf(v, st);
                assert forall|t: nat| held(w, t) implies held(v, t) || t >= v.next_task by {
                    let k = choose|k: int| 0 <= k < w.states.len() && task_of(#[trigger] w.states[k]) == Some(t);
                    assert(k < v.states.len());
                    assert(w.states[k] == v.states[k]);
                }
            }
        },
        PoolStep::Dispatch(h, sent) => {
            if (h as int) < v.states.len() && v.states[h as int] == ContextState::Lent && v.next_task
                < u64::MAX {
                lemma_dispatched_wf(v, h, sent);
                assert forall|t: nat| held(w, t) implies held(v, t) || t >= v.next_task by {
                    let k = choose|k: int| 0 <= k < w.states.len() && task_of(#[trigger] w.states[k]) == Some(t);
                    if k != h {
                        assert(w.states[k] == v.states[k]);
                    }
                }
            }
        },
        PoolStep::Event(h, e) => {
            lemma_after_event_wf(v, h, e);
            assert forall|t: nat| held(w, t) implies held(v, t) || t >= v.next_task by {
                let k = choose|k: int| 0 <= k < w.states.len() && task_of(#[trigger] w.states[k]) == Some(t);
                assert(task_of(v.states[k]) == Some(t));
            }
            if let Some(t) = apply(v, s).1 {
                assert(task_of(v.states[h as int]) == Some(t));
                assert(task_of(v.states[h as int]).unwrap() < v.next_task);
                assert(!held(w, t)) by {
                    if held(w, t) {
                        let k = choose|k: int| 0 <= k < w.states.len() && task_of(#[trigger] w.states[k]) == Some(t);
                        assert(k != h);
                        assert(w.states[k] == v.states[k]);
                    }
                }
            }
        },
    }
}

/// Every task reported by a run of steps was held at the start or issued
/// during the run, and no task is reported twice.
pub proof fn lemma_completions(v: PoolView, steps: Seq<PoolStep>)
    requires
        pool_wf(v),
    ensures
        completions(v, steps).no_duplicates(),
        forall|i: int|
            0 <= i < completions(v, steps).len() ==> held(v, #[trigger] completions(v, steps)[i])
                || completions(v, steps)[i] >= v.next_task,
    decreases steps.len(),
{
    if steps.len() > 0 {
        let (w, r) = apply(v, steps[0]);
        let tail = steps.subrange(1, steps.len() as int);
        lemma_step(v, steps[0]);
        lemma_completions(w, tail);
        let rest = completions(w, tail);
        assert forall|i: int| 0 <= i < rest.len() implies held(v, #[trigger] rest[i]) || rest[i]
            >= v.next_task by {
            assert(held(w, rest[i]) || rest[i] >= w.next_task);
        }
        if let Some(t) = r {
            let all = seq![t].add(rest);
            assert forall|i: int| 0 <= i < rest.len() implies rest[i] != t by {
                assert(held(w, rest[i]) || rest[i] >= w.next_task);
            }
            assert forall|i: int| 0 <= i < all.len() implies held(v, #[trigger] all[i]) || all[i]
                >= v.next_task by {
                if i > 0 {
                    assert(all[i] == rest[i - 1]);
                }
            }
            assert forall|i: int, j: int| 0 <= i < all.len() && 0 <= j < all.len() && i != j implies all[i]
                != all[j] by {
                if i > 0 && j > 0 {
                    assert(all[i] == rest[i - 1]);
                    assert(all[j] == rest[j - 1]);
                } else if i == 0 {
                    assert(all[j] == rest[j - 1]);
                } else {
                    assert(all[i] == rest[i - 1]);
                }
            }
        }
    }
}

/// However the pool is driven, each task's completion is reported at most
/// once: the completions reported by any run of steps are all different.
pub proof fn each_task_completes_at_most_once(v: PoolView, steps: Seq<PoolStep>)
    requires
        pool_wf(v),
    ensures
        completions(v, steps).no_duplicates(),
{
    lemma_completions(v, steps);
}

/// The entry after receiving the task messages `ps`, in order.
pub open spec fn receive_tasks(v: EntryView, ps: Seq<u32>) -> EntryView
    decreases ps.len(),
{
    if ps.len() == 0 {
        v
    } else {
        receive_tasks(received(v, Incoming::Task(ps[0])).0, ps.drop_first())
    }
}

/// Tasks that arrive while a context sets itself up all wait, and when set-up
/// ends they are handed out in the order in which they arrived, after any
/// that were already waiting.
pub proof fn early_tasks_replay_in_order(v: EntryView, ps: Seq<u32>, ok: bool)
    requires
        v.phase == EntryPhase::Initializing,
    ensures
        receive_tasks(v, ps).phase == EntryPhase::Initializing,
        receive_tasks(v, ps).pending == v.pending + ps,
        init_done(receive_tasks(v, ps), ok).1 == v.pending + ps,
    decreases ps.len(),
{
    if ps.len() > 0 {
        let w = received(v, Incoming::Task(ps[0])).0;
        early_tasks_replay_in_order(w, ps.drop_first(), ok);
        assert(w.pending + ps.drop_first() =~= v.pending + ps);
    } else {
        assert(v.pending + ps =~= v.pending);
    }
}

} // verus!
