use vstd::prelude::*;

verus! {

/// The idle contexts of a pool: a stack of context handles in which no
/// handle appears twice.
pub struct ContextRegistry {
    idle: Vec<usize>,
}

impl View for ContextRegistry {
    type V = Seq<usize>;

    closed spec fn view(&self) -> Seq<usize> {
        self.idle@
    }
}

impl ContextRegistry {
    /// No handle is held twice.
    pub open spec fn wf(&self) -> bool {
        self@.no_duplicates()
    }

    /// An empty registry.
    pub fn new() -> (r: ContextRegistry)
        ensures
            r.wf(),
            r@ == Seq::<usize>::empty(),
    {
        ContextRegistry { idle: Vec::new() }
    }

    /// Number of idle handles.
    pub fn len(&self) -> (r: usize)
        ensures
            r == self@.len(),
    {
        self.idle.len()
    }

    /// Whether `handle` is among the idle entries.
    pub fn contains(&self, handle: usize) -> (r: bool)
        ensures
            r == self@.contains(handle),
    {
        let mut i: usize = 0;
        while i < self.idle.len()
            invariant
                i <= self.idle@.len(),
                forall|j: int| 0 <= j < i ==> self.idle@[j] != handle,
            decreases self.idle@.len() - i,
        {
            if self.idle[i] == handle {
                return true;
            }
            i = i + 1;
        }
        false
    }

    /// Registers `handle` as idle. A handle that is already idle is refused,
    /// and the registry stays as it was.
    pub fn push(&mut self, handle: usize) -> (added: bool)
        requires
            old(self).wf(),
        ensures
            final(self).wf(),
            added == !old(self)@.contains(handle),
            added ==> final(self)@ == old(self)@.push(handle),
            !added ==> final(self)@ == old(self)@,
    {
        if self.contains(handle) {
            return false;
        }
        self.idle.push(handle);
        true
    }

    /// Takes the most recently registered idle handle, if there is one.
    pub fn pop(&mut self) -> (r: Option<usize>)
        requires
            old(self).wf(),
        ensures
            final(self).wf(),
            old(self)@.len() == 0 ==> r.is_none() && final(self)@ == old(self)@,
            old(self)@.len() > 0 ==> r == Some(old(self)@.last())
                && final(self)@ == old(self)@.drop_last(),
    {
        self.idle.pop()
    }

    /// The idle handles, oldest first.
    pub fn handles(&self) -> (r: Vec<usize>)
        ensures
            r@ == self@,
    {
        self.idle.clone()
    }
}

} // verus!
