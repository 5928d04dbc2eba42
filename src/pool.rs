use vstd::prelude::*;

use crate::registry::ContextRegistry;

verus! {

/// Where one background context stands, as the pool sees it.
#[derive(Clone, Copy, Debug, PartialEq, Eq, Structural)]
pub enum ContextState {
    /// Registered as idle and free for the next task.
    Idle,
    /// Taken for a task whose message has not been handed over yet.
    Lent,
    /// Running the task with this id; a one-shot completion handler waits.
    Busy(u64),
    /// Signalled an error while running the task with this id. Such a context
    /// is neither reclaimed nor destroyed: it stays out of the idle set.
    Faulted(u64),
    /// The task message could not be handed over; the pool no longer tracks
    /// this context.
    Detached,
}

/// What a context reports to its completion handler.
#[derive(Clone, Copy, Debug, PartialEq, Eq, Structural)]
pub enum ContextEvent {
    /// The task finished and the context posted its completion message.
    Completed,
    /// The context raised an error signal.
    ErrorSignal,
    /// Any other event.
    Other,
}

/// What the pool did with a context event.
#[derive(Clone, Copy, Debug, PartialEq, Eq, Structural)]
pub enum EventOutcome {
    /// The task with this id completed and its context is idle again.
    Reclaimed(u64),
    /// The task with this id will not complete: its context signalled an error.
    Faulted(u64),
    /// Nothing changed.
    Ignored,
}

/// The pool's state in mathematical form.
pub struct PoolView {
    /// The state of each context, indexed by its handle.
    pub states: Seq<ContextState>,
    /// The idle stack, oldest first.
    pub idle: Seq<usize>,
    /// The id that the next dispatched task receives.
    pub next_task: nat,
}

/// The task a context holds, if any.
pub open spec fn task_of(s: ContextState) -> Option<nat> {
    match s {
        ContextState::Busy(t) => Some(t as nat),
        ContextState::Faulted(t) => Some(t as nat),
        _ => None,
    }
}

/// Every handle fits a `usize`; the idle stack holds each idle context once
/// and nothing else; every task id in use was issued and belongs to one
/// context only.
pub open spec fn pool_wf(v: PoolView) -> bool {
    &&& v.states.len() <= usize::MAX
    &&& v.idle.no_duplicates()
    &&& forall|i: int|
        0 <= i < v.idle.len() ==> (v.idle[i] as int) < v.states.len() && v.states[v.idle[i] as int]
            == ContextState::Idle
    &&& forall|h: int|
        0 <= h < v.states.len() && v.states[h] == ContextState::Idle ==> #[trigger] v.idle.contains(
            h as usize,
        )
    &&& forall|h: int|
        0 <= h < v.states.len() && (#[trigger] task_of(v.states[h])).is_some() ==> task_of(
            v.states[h],
        ).unwrap() < v.next_task
    &&& forall|h1: int, h2: int|
        0 <= h1 < v.states.len() && 0 <= h2 < v.states.len() && h1 != h2 && (#[trigger] task_of(
            v.states[h1],
        )).is_some() ==> task_of(v.states[h1]) != #[trigger] task_of(v.states[h2])
}

/// The pool after a freshly spawned context joins it in state `s`.
pub open spec fn joined(v: PoolView, s: ContextState) -> PoolView {
    PoolView {
        states: v.states.push(s),
        idle: if s == ContextState::Idle {
            v.idle.push(v.states.len() as usize)
        } else {
            v.idle
        },
        next_task: v.next_task,
    }
}

/// Taking a context for a task: the most recently idled one, or none when the
/// idle stack is empty (a new context must then be spawned).
pub open spec fn acquired(v: PoolView) -> (PoolView, Option<usize>) {
    if v.idle.len() == 0 {
        (v, None)
    } else {
        let h = v.idle.last();
        (
            PoolView {
                states: v.states.update(h as int, ContextState::Lent),
                idle: v.idle.drop_last(),
                next_task: v.next_task,
            },
            Some(h),
        )
    }
}

/// Handing a task to the lent context `h`: when the message went out the
/// context runs a task with a fresh id, otherwise it is detached.
pub open spec fn dispatched(v: PoolView, h: usize, sent: bool) -> (PoolView, Option<u64>) {
    if sent {
        (
            PoolView {
                states: v.states.update(h as int, ContextState::Busy(v.next_task as u64)),
                idle: v.idle,
                next_task: v.next_task + 1,
            },
            Some(v.next_task as u64),
        )
    } else {
        (
            PoolView {
                states: v.states.update(h as int, ContextState::Detached),
                idle: v.idle,
                next_task: v.next_task,
            },
            None,
        )
    }
}

/// The completion protocol: only a busy context reacts. A completion makes it
/// idle again, an error signal holds it back, anything else is ignored.
pub open spec fn after_event(v: PoolView, h: usize, e: ContextEvent) -> (PoolView, EventOutcome) {
    if (h as int) < v.states.len() {
        match v.states[h as int] {
            ContextState::Busy(t) => match e {
                ContextEvent::Completed => (
                    PoolView {
                        states: v.states.update(h as int, ContextState::Idle),
                        idle: v.idle.push(h),
                        next_task: v.next_task,
                    },
                    EventOutcome::Reclaimed(t),
                ),
                ContextEvent::ErrorSignal => (
                    PoolView {
                        states: v.states.update(h as int, ContextState::Faulted(t)),
                        idle: v.idle,
                        next_task: v.next_task,
                    },
                    EventOutcome::Faulted(t),
                ),
                ContextEvent::Other => (v, EventOutcome::Ignored),
            },
            _ => (v, EventOutcome::Ignored),
        }
    } else {
        (v, EventOutcome::Ignored)
    }
}

/// A context that is not idle has no idle entry.
pub proof fn lemma_busy_not_idle(v: PoolView, h: usize)
    requires
        pool_wf(v),
        (h as int) < v.states.len(),
        v.states[h as int] != ContextState::Idle,
    ensures
        !v.idle.contains(h),
{
    if v.idle.contains(h) {
        let i = choose|i: int| 0 <= i < v.idle.len() && v.idle[i] == h;
        assert(v.states[v.idle[i] as int] == ContextState::Idle);
    }
}

/// A context joining in any state keeps the pool well formed.
pub proof fn lemma_joined_wf(v: PoolView, s: ContextState)
    requires
        pool_wf(v),
        v.states.len() < usize::MAX,
        s == ContextState::Idle || s == ContextState::Lent,
    ensures
        pool_wf(joined(v, s)),
{
    let w = joined(v, s);
    let n = v.states.len();
    if s == ContextState::Idle {
        assert(!v.idle.contains(n as usize)) by {
            if v.idle.contains(n as usize) {
                let i = choose|i: int| 0 <= i < v.idle.len() && v.idle[i] == n as usize;
                assert((v.idle[i] as int) < n);
            }
        }
    }
    assert forall|i: int| 0 <= i < w.idle.len() implies (w.idle[i] as int) < w.states.len()
        && w.states[w.idle[i] as int] == ContextState::Idle by {
        if i < v.idle.len() {
            assert(w.idle[i] == v.idle[i]);
            assert(v.states[v.idle[i] as int] == ContextState::Idle);
        }
    }
    assert forall|h: int|
        0 <= h < w.states.len() && w.states[h] == ContextState::Idle implies #[trigger] w.idle.contains(
        h as usize,
    ) by {
        if h < n {
            assert(v.states[h] == ContextState::Idle);
            assert(v.idle.contains(h as usize));
            let i = choose|i: int| 0 <= i < v.idle.len() && v.idle[i] == h as usize;
            assert(w.idle[i] == h as usize);
        } else {
            assert(w.idle[w.idle.len() - 1] == h as usize);
        }
    }
    assert forall|h: int|
        0 <= h < w.states.len() && (#[trigger] task_of(w.states[h])).is_some() implies task_of(
        w.states[h],
    ).unwrap() < w.next_task by {
        assert(h < n);
        assert(w.states[h] == v.states[h]);
    }
    assert forall|h1: int, h2: int|
        0 <= h1 < w.states.len() && 0 <= h2 < w.states.len() && h1 != h2 && (#[trigger] task_of(
            w.states[h1],
        )).is_some() implies task_of(w.states[h1]) != #[trigger] task_of(w.states[h2]) by {
        assert(h1 < n);
        assert(w.states[h1] == v.states[h1]);
        if h2 < n {
            assert(w.states[h2] == v.states[h2]);
        }
    }
}

/// Taking an idle context keeps the pool well formed.
pub proof fn lemma_acquired_wf(v: PoolView)
    requires
        pool_wf(v),
    ensures
        pool_wf(acquired(v).0),
{
    if v.idle.len() > 0 {
        let w = acquired(v).0;
        let h = v.idle.last();
        let last = v.idle.len() - 1;
        assert(v.states[h as int] == ContextState::Idle);
        assert forall|i: int| 0 <= i < w.idle.len() implies (w.idle[i] as int) < w.states.len()
            && w.states[w.idle[i] as int] == ContextState::Idle by {
            assert(w.idle[i] == v.idle[i]);
            assert(v.idle[i] != v.idle[last]);
            assert(v.states[v.idle[i] as int] == ContextState::Idle);
        }
        assert forall|k: int|
            0 <= k < w.states.len() && w.states[k] == ContextState::Idle implies #[trigger] w.idle.contains(
            k as usize,
        ) by {
            assert(k != h);
            assert(v.states[k] == ContextState::Idle);
            assert(v.idle.contains(k as usize));
            let i = choose|i: int| 0 <= i < v.idle.len() && v.idle[i] == k as usize;
            assert(i != last);
            assert(w.idle[i] == k as usize);
        }
        assert forall|k: int|
            0 <= k < w.states.len() && (#[trigger] task_of(w.states[k])).is_some() implies task_of(
            w.states[k],
        ).unwrap() < w.next_task by {
            assert(k != h);
            assert(w.states[k] == v.states[k]);
        }
        assert forall|h1: int, h2: int|
            0 <= h1 < w.states.len() && 0 <= h2 < w.states.len() && h1 != h2 && (#[trigger] task_of(
                w.states[h1],
            )).is_some() implies task_of(w.states[h1]) != #[trigger] task_of(w.states[h2]) by {
            assert(h1 != h);
            assert(w.states[h1] == v.states[h1]);
            if h2 != h {
                assert(w.states[h2] == v.states[h2]);
            }
        }
    }
}

/// Handing a task to a lent context keeps the pool well formed, whether the
/// message went out or not.
pub proof fn lemma_dispatched_wf(v: PoolView, h: usize, sent: bool)
    requires
        pool_wf(v),
        (h as int) < v.states.len(),
        v.states[h as int] == ContextState::Lent,
        v.next_task < u64::MAX,
    ensures
        pool_wf(dispatched(v, h, sent).0),
{
    let w = dispatched(v, h, sent).0;
    assert forall|i: int| 0 <= i < w.idle.len() implies (w.idle[i] as int) < w.states.len()
        && w.states[w.idle[i] as int] == ContextState::Idle by {
        assert(v.states[v.idle[i] as int] == ContextState::Idle);
    }
    assert forall|k: int|
        0 <= k < w.states.len() && w.states[k] == ContextState::Idle implies #[trigger] w.idle.contains(
        k as usize,
    ) by {
        assert(k != h);
        assert(v.states[k] == ContextState::Idle);
    }
    assert forall|k: int|
        0 <= k < w.states.len() && (#[trigger] task_of(w.states[k])).is_some() implies task_of(
        w.states[k],
    ).unwrap() < w.next_task by {
        if k != h {
            assert(w.states[k] == v.states[k]);
            assert(task_of(v.states[k]).is_some());
        }
    }
    assert forall|h1: int, h2: int|
        0 <= h1 < w.states.len() && 0 <= h2 < w.states.len() && h1 != h2 && (#[trigger] task_of(
            w.states[h1],
        )).is_some() implies task_of(w.states[h1]) != #[trigger] task_of(w.states[h2]) by {
        if h1 != h && h2 != h {
            assert(w.states[h1] == v.states[h1]);
            assert(w.states[h2] == v.states[h2]);
        } else if h1 == h {
            assert(w.states[h2] == v.states[h2]);
            if task_of(v.states[h2]).is_some() {
                assert(task_of(v.states[h2]).unwrap() < v.next_task);
            }
        } else {
            assert(w.states[h1] == v.states[h1]);
            assert(task_of(v.states[h1]).is_some());
            assert(task_of(v.states[h1]).unwrap() < v.next_task);
        }
    }
}

/// Every event keeps the pool well formed.
pub proof fn lemma_after_event_wf(v: PoolView, h: usize, e: ContextEvent)
    requires
        pool_wf(v),
    ensures
        pool_wf(after_event(v, h, e).0),
{
    if (h as int) < v.states.len() {
        let w = after_event(v, h, e).0;
        match v.states[h as int] {
            ContextState::Busy(t) => match e {
                ContextEvent::Completed => {
                    lemma_busy_not_idle(v, h);
                    assert forall|i: int| 0 <= i < w.idle.len() implies (w.idle[i] as int)
                        < w.states.len() && w.states[w.idle[i] as int] == ContextState::Idle by {
                        if i < v.idle.len() {
                            assert(w.idle[i] == v.idle[i]);
                            assert(v.states[v.idle[i] as int] == ContextState::Idle);
                        }
                    }
                    assert forall|k: int|
                        0 <= k < w.states.len() && w.states[k] == ContextState::Idle implies #[trigger] w.idle.contains(
                        k as usize,
                    ) by {
                        if k == h {
                            assert(w.idle[w.idle.len() - 1] == h);
                        } else {
                            assert(v.states[k] == ContextState::Idle);
                            assert(v.idle.contains(k as usize));
                            let i = choose|i: int| 0 <= i < v.idle.len() && v.idle[i] == k as usize;
                            assert(w.idle[i] == k as usize);
                        }
                    }
                    assert forall|k: int|
                        0 <= k < w.states.len() && (#[trigger] task_of(w.states[k])).is_some() implies task_of(
                        w.states[k],
                    ).unwrap() < w.next_task by {
                        assert(k != h);
                        assert(w.states[k] == v.states[k]);
                    }
                    assert forall|h1: int, h2: int|
                        0 <= h1 < w.states.len() && 0 <= h2 < w.states.len() && h1 != h2 && (#[trigger] task_of(
                            w.states[h1],
                        )).is_some() implies task_of(w.states[h1]) != #[trigger] task_of(w.states[h2]) by {
                        assert(h1 != h);
                        assert(w.states[h1] == v.states[h1]);
                        if h2 != h {
                            assert(w.states[h2] == v.states[h2]);
                        }
                    }
                },
                ContextEvent::ErrorSignal => {
                    assert forall|i: int| 0 <= i < w.idle.len() implies (w.idle[i] as int)
                        < w.states.len() && w.states[w.idle[i] as int] == ContextState::Idle by {
                        assert(v.states[v.idle[i] as int] == ContextState::Idle);
                    }
                    assert forall|k: int|
                        0 <= k < w.states.len() && w.states[k] == ContextState::Idle implies #[trigger] w.idle.contains(
                        k as usize,
                    ) by {
                        assert(v.states[k] == ContextState::Idle);
                    }
                    assert forall|k: int|
                        0 <= k < w.states.len() && (#[trigger] task_of(w.states[k])).is_some() implies task_of(
                        w.states[k],
                    ).unwrap() < w.next_task by {
                        if k != h {
                            assert(w.states[k] == v.states[k]);
                        } else {
                            assert(task_of(v.states[k]).is_some());
                        }
                    }
                    assert forall|h1: int, h2: int|
                        0 <= h1 < w.states.len() && 0 <= h2 < w.states.len() && h1 != h2 && (#[trigger] task_of(
                            w.states[h1],
                        )).is_some() implies task_of(w.states[h1]) != #[trigger] task_of(w.states[h2]) by {
                        assert(task_of(w.states[h as int]) == task_of(v.states[h as int]));
                        assert(task_of(w.states[h1]) == task_of(v.states[h1]));
                        assert(task_of(w.states[h2]) == task_of(v.states[h2]));
                    }
                },
                ContextEvent::Other => {},
            },
            _ => {},
        }
    }
}

/// The bookkeeping of a pool of background contexts. A context is named by
/// its handle, the position at which it joined; the contexts themselves are
/// held by the caller.
pub struct ContextPool {
    contexts: Vec<ContextState>,
    registry: ContextRegistry,
    next_task: u64,
}

impl View for ContextPool {
    type V = PoolView;

    closed spec fn view(&self) -> PoolView {
        PoolView { states: self.contexts@, idle: self.registry@, next_task: self.next_task as nat }
    }
}

impl ContextPool {
    pub open spec fn wf(&self) -> bool {
        pool_wf(self@)
    }

    /// A pool with no contexts.
    pub fn new() -> (r: ContextPool)
        ensures
            r.wf(),
            r@.states.len() == 0,
            r@.idle.len() == 0,
            r@.next_task == 0,
    {
        ContextPool { contexts: Vec::new(), registry: ContextRegistry::new(), next_task: 0 }
    }

    /// Registers a freshly spawned context as idle; returns its handle.
    pub fn join_idle(&mut self) -> (handle: usize)
        requires
            old(self).wf(),
            old(self)@.states.len() < usize::MAX,
        ensures
            final(self).wf(),
            handle == old(self)@.states.len(),
            final(self)@ == joined(old(self)@, ContextState::Idle),
            final(self)@.states.len() == old(self)@.states.len() + 1,
    {
        let handle = self.contexts.len();
        proof {
            lemma_joined_wf(self@, ContextState::Idle);
        }
        self.contexts.push(ContextState::Idle);
        self.registry.push(handle);
        assert(self@ == joined(old(self)@, ContextState::Idle));
        handle
    }

    /// Registers a freshly spawned context that is taken for a task at once;
    /// returns its handle.
    pub fn join_lent(&mut self) -> (handle: usize)
        requires
            old(self).wf(),
            old(self)@.states.len() < usize::MAX,
        ensures
            final(self).wf(),
            handle == old(self)@.states.len(),
            final(self)@ == joined(old(self)@, ContextState::Lent),
            final(self)@.states.len() == old(self)@.states.len() + 1,
    {
        let handle = self.contexts.len();
        proof {
            lemma_joined_wf(self@, ContextState::Lent);
        }
        self.contexts.push(ContextState::Lent);
        assert(self@ == joined(old(self)@, ContextState::Lent));
        handle
    }

    /// Takes an idle context for a task, without waiting: the most recently
    /// idled one, or `None` when none is idle and a new one must be spawned.
    pub fn acquire(&mut self) -> (r: Option<usize>)
        requires
            old(self).wf(),
        ensures
            final(self).wf(),
            (final(self)@, r) == acquired(old(self)@),
            final(self)@.states.len() == old(self)@.states.len(),
    {
        proof {
            lemma_acquired_wf(self@);
        }
        let r = self.registry.pop();
        match r {
            None => None,
            Some(h) => {
                self.contexts[h] = ContextState::Lent;
                assert(self@ == acquired(old(self)@).0);
                Some(h)
            },
        }
    }

    /// Records the hand-over of a task to the lent context `handle`: `sent`
    /// says whether the task message went out. On success the task gets a
    /// fresh id, which is returned; on failure the context is detached.
    pub fn dispatch(&mut self, handle: usize, sent: bool) -> (r: Option<u64>)
        requires
            old(self).wf(),
            (handle as int) < old(self)@.states.len(),
            old(self)@.states[handle as int] == ContextState::Lent,
            old(self)@.next_task < u64::MAX,
        ensures
            final(self).wf(),
            (final(self)@, r) == dispatched(old(self)@, handle, sent),
            final(self)@.states.len() == old(self)@.states.len(),
    {
        proof {
            lemma_dispatched_wf(self@, handle, sent);
        }
        if sent {
            let t = self.next_task;
            self.contexts[handle] = ContextState::Busy(t);
            self.next_task = t + 1;
            assert(self@ == dispatched(old(self)@, handle, sent).0);
            Some(t)
        } else {
            self.contexts[handle] = ContextState::Detached;
            assert(self@ == dispatched(old(self)@, handle, sent).0);
            None
        }
    }

    /// The completion protocol for context `handle`. A busy context that
    /// completes is registered as idle again and its task id is returned once;
    /// one that signals an error is held back and its task reported faulted;
    /// every other event, and any event for a context that is not busy,
    /// changes nothing.
    pub fn on_event(&mut self, handle: usize, event: ContextEvent) -> (r: EventOutcome)
        requires
            old(self).wf(),
        ensures
            final(self).wf(),
            (final(self)@, r) == after_event(old(self)@, handle, event),
            final(self)@.states.len() == old(self)@.states.len(),
    {
        proof {
            lemma_after_event_wf(self@, handle, event);
        }
        if handle >= self.contexts.len() {
            return EventOutcome::Ignored;
        }
        let t = match self.contexts[handle] {
            ContextState::Busy(t) => t,
            _ => {
                return EventOutcome::Ignored;
            },
        };
        match event {
            ContextEvent::Completed => {
                proof {
                    lemma_busy_not_idle(self@, handle);
                }
                self.contexts[handle] = ContextState::Idle;
                self.registry.push(handle);
                assert(self@ == after_event(old(self)@, handle, event).0);
                EventOutcome::Reclaimed(t)
            },
            ContextEvent::ErrorSignal => {
                self.contexts[handle] = ContextState::Faulted(t);
                assert(self@ == after_event(old(self)@, handle, event).0);
                EventOutcome::Faulted(t)
            },
            ContextEvent::Other => EventOutcome::Ignored,
        }
    }

    /// Number of contexts that ever joined the pool.
    pub fn size(&self) -> (r: usize)
        ensures
            r == self@.states.len(),
    {
        self.contexts.len()
    }

    /// Number of idle contexts.
    pub fn idle_count(&self) -> (r: usize)
        requires
            self.wf(),
        ensures
            r == self@.idle.len(),
    {
        self.registry.len()
    }

    /// The idle handles, oldest first.
    pub fn idle_handles(&self) -> (r: Vec<usize>)
        ensures
            r@ == self@.idle,
    {
        self.registry.handles()
    }

    /// Number of task ids issued so far.
    pub fn tasks_issued(&self) -> (r: u64)
        ensures
            r == self@.next_task,
    {
        self.next_task
    }

    /// The state of context `handle`.
    pub fn state(&self, handle: usize) -> (r: Option<ContextState>)
        ensures
            (handle as int) < self@.states.len() ==> r == Some(self@.states[handle as int]),
            (handle as int) >= self@.states.len() ==> r.is_none(),
    {
        if handle < self.contexts.len() {
            Some(self.contexts[handle])
        } else {
            None
        }
    }
}

} // verus!
