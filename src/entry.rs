use vstd::prelude::*;

verus! {

/// Where a background context stands in its own start-up.
#[derive(Clone, Copy, Debug, PartialEq, Eq, Structural)]
pub enum EntryPhase {
    /// No message received yet.
    Uninitialized,
    /// The setup message arrived; the shared image and memory are loading.
    Initializing,
    /// Set up: tasks run as they arrive.
    Ready,
    /// Setting up failed: no task can run here.
    Broken,
}

/// A message as the context receives it.
#[derive(Clone, Copy, Debug, PartialEq, Eq, Structural)]
pub enum Incoming {
    /// The image and memory references that start the set-up.
    Setup,
    /// A task, named by the address of its envelope.
    Task(u32),
}

/// What the context does with a message.
#[derive(Clone, Copy, Debug, PartialEq, Eq, Structural)]
pub enum EntryAction {
    /// Start loading the shared image and memory.
    BeginInit,
    /// The task was put in the queue until set-up finishes.
    Queued,
    /// Run the task with this envelope now.
    Run(u32),
    /// This envelope can never run here; it is to be freed.
    Refuse(u32),
    /// Nothing to do.
    Ignore,
}

/// The start-up state of one background context: its phase and the tasks
/// that arrived while it was still setting up, oldest first.
pub struct ContextEntry {
    phase: EntryPhase,
    pending: Vec<u32>,
}

/// The entry's state in mathematical form.
pub struct EntryView {
    pub phase: EntryPhase,
    pub pending: Seq<u32>,
}

/// Only a context that is setting up holds back tasks.
pub open spec fn entry_wf(v: EntryView) -> bool {
    v.phase != EntryPhase::Initializing ==> v.pending.len() == 0
}

/// The handshake: the first message must be the setup; tasks that come while
/// setting up wait in arrival order; once ready, tasks run at once; a context
/// that has not been set up, or failed to be, refuses them; a repeated setup
/// is ignored.
pub open spec fn received(v: EntryView, m: Incoming) -> (EntryView, EntryAction) {
    match m {
        Incoming::Setup => if v.phase == EntryPhase::Uninitialized {
            (EntryView { phase: EntryPhase::Initializing, pending: v.pending }, EntryAction::BeginInit)
        } else {
            (v, EntryAction::Ignore)
        },
        Incoming::Task(p) => match v.phase {
            EntryPhase::Initializing => (
                EntryView { phase: v.phase, pending: v.pending.push(p) },
                EntryAction::Queued,
            ),
            EntryPhase::Ready => (v, EntryAction::Run(p)),
            _ => (v, EntryAction::Refuse(p)),
        },
    }
}

/// The end of set-up: the context becomes ready, or broken when loading
/// failed. Either way the waiting tasks are handed out in arrival order, to
/// be run or freed. Outside of set-up nothing changes.
pub open spec fn init_done(v: EntryView, ok: bool) -> (EntryView, Seq<u32>) {
    if v.phase == EntryPhase::Initializing {
        (
            EntryView {
                phase: if ok {
                    EntryPhase::Ready
                } else {
                    EntryPhase::Broken
                },
                pending: Seq::empty(),
            },
            v.pending,
        )
    } else {
        (v, Seq::empty())
    }
}

impl View for ContextEntry {
    type V = EntryView;

    closed spec fn view(&self) -> EntryView {
        EntryView { phase: self.phase, pending: self.pending@ }
    }
}

impl ContextEntry {
    pub open spec fn wf(&self) -> bool {
        entry_wf(self@)
    }

    /// A context that has received nothing yet.
    pub fn new() -> (r: ContextEntry)
        ensures
            r.wf(),
            r@.phase == EntryPhase::Uninitialized,
            r@.pending.len() == 0,
    {
        ContextEntry { phase: EntryPhase::Uninitialized, pending: Vec::new() }
    }

    /// The current phase.
    pub fn phase(&self) -> (r: EntryPhase)
        ensures
            r == self@.phase,
    {
        self.phase
    }

    /// Number of tasks waiting for set-up to finish.
    pub fn pending_count(&self) -> (r: usize)
        ensures
            r == self@.pending.len(),
    {
        self.pending.len()
    }

    /// Handles one incoming message.
    pub fn receive(&mut self, m: Incoming) -> (r: EntryAction)
        requires
            old(self).wf(),
        ensures
            final(self).wf(),
            (final(self)@, r) == received(old(self)@, m),
    {
        match m {
            Incoming::Setup => {
                if self.phase == EntryPhase::Uninitialized {
                    self.phase = EntryPhase::Initializing;
                    EntryAction::BeginInit
                } else {
                    EntryAction::Ignore
                }
            },
            Incoming::Task(p) => match self.phase {
                EntryPhase::Initializing => {
                    self.pending.push(p);
                    EntryAction::Queued
                },
                EntryPhase::Ready => EntryAction::Run(p),
                _ => EntryAction::Refuse(p),
            },
        }
    }

    /// Ends set-up, successfully or not, and hands out the waiting tasks in
    /// the order in which they arrived.
    pub fn finish_init(&mut self, ok: bool) -> (r: Vec<u32>)
        requires
            old(self).wf(),
        ensures
            final(self).wf(),
            (final(self)@, r@) == init_done(old(self)@, ok),
    {
        if self.phase == EntryPhase::Initializing {
            self.phase = if ok {
                EntryPhase::Ready
            } else {
                EntryPhase::Broken
            };
            let mut out: Vec<u32> = Vec::new();
            std::mem::swap(&mut out, &mut self.pending);
            assert(self.pending@ =~= Seq::<u32>::empty());
            out
        } else {
            Vec::new()
        }
    }
}

} // verus!
