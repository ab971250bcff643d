//! The table of live windows, keyed by id, with a count of open handles.
use vstd::prelude::*;
use crate::error::OrbError;
use crate::window::Window;

verus! {

/// One live window and the number of handles open on it.
pub struct Entry {
    pub id: u64,
    pub handles: u64,
    pub window: Window,
}

/// Live windows in creation order; ids strictly increase along the table.
pub struct WindowTable {
    pub entries: Vec<Entry>,
}

impl WindowTable {
    pub open spec fn wf(&self) -> bool {
        &&& forall|a: int, b: int|
            0 <= a < b < self.entries@.len() ==> #[trigger] self.entries@[a].id
                < #[trigger] self.entries@[b].id
        &&& forall|a: int|
            0 <= a < self.entries@.len() ==> (#[trigger] self.entries@[a]).window.wf()
                && self.entries@[a].handles >= 1
    }

    pub open spec fn has(&self, id: u64) -> bool {
        exists|i: int| 0 <= i < self.entries@.len() && #[trigger] self.entries@[i].id == id
    }

    /// Where the window `id` stands, when it is live.
    pub open spec fn index(&self, id: u64) -> int {
        choose|i: int| 0 <= i < self.entries@.len() && #[trigger] self.entries@[i].id == id
    }

    /// Every id in the table is below `bound`.
    pub open spec fn ids_below(&self, bound: u64) -> bool {
        forall|a: int| 0 <= a < self.entries@.len() ==> #[trigger] self.entries@[a].id < bound
    }

    /// `t` is `self` with the entry at `i` holding window `w`.
    pub open spec fn with_window(&self, t: WindowTable, i: int, w: Window) -> bool {
        &&& t.entries@.len() == self.entries@.len()
        &&& t.entries@[i].id == self.entries@[i].id
        &&& t.entries@[i].handles == self.entries@[i].handles
        &&& t.entries@[i].window == w
        &&& forall|j: int| 0 <= j < self.entries@.len() && j != i ==> #[trigger] t.entries@[j] == self.entries@[j]
    }

    /// Two entries with one id are one entry.
    pub proof fn lemma_unique(&self, i: int, k: int)
        requires
            self.wf(),
            0 <= i < self.entries@.len(),
            0 <= k < self.entries@.len(),
            self.entries@[i].id == self.entries@[k].id,
        ensures
            i == k,
    {
        if i < k {
            assert(self.entries@[i].id < self.entries@[k].id);
        } else if k < i {
            assert(self.entries@[k].id < self.entries@[i].id);
        }
    }

    pub fn new() -> (r: WindowTable)
        ensures
            r.wf(),
            r.entries@.len() == 0,
    {
        WindowTable { entries: Vec::new() }
    }

    /// Where the window `id` stands, or `None` when it is not live.
    pub fn find(&self, id: u64) -> (r: Option<usize>)
        requires
            self.wf(),
        ensures
            r is None <==> !self.has(id),
            r matches Some(i) ==> i == self.index(id) && i < self.entries@.len()
                && self.entries@[i as int].id == id,
    {
        let mut i: usize = 0;
        while i < self.entries.len()
            invariant
                i <= self.entries@.len(),
                self.wf(),
                forall|j: int| 0 <= j < i ==> #[trigger] self.entries@[j].id != id,
            decreases self.entries@.len() - i,
        {
            if self.entries[i].id == id {
                assert(self.has(id));
                let ghost k = self.index(id);
                assert(0 <= k < self.entries@.len() && self.entries@[k].id == id);
                proof {
                    self.lemma_unique(i as int, k);
                }
                return Some(i);
            }
            i = i + 1;
        }
        None
    }

    /// Adds a window under an id above all live ids, with one open handle.
    pub fn insert(&mut self, id: u64, window: Window)
        requires
            old(self).wf(),
            old(self).ids_below(id),
            window.wf(),
        ensures
            final(self).wf(),
            final(self).entries@ == old(self).entries@.push(Entry { id, handles: 1, window }),
    {
        self.entries.push(Entry { id, handles: 1, window });
    }

    /// Counts one more handle on the window `id`; `NotFound` when it is
    /// not live, `Exhausted` when the count is at its maximum.
    pub fn acquire(&mut self, id: u64) -> (r: Result<(), OrbError>)
        requires
            old(self).wf(),
        ensures
            final(self).wf(),
            !old(self).has(id) ==> r == Err::<(), OrbError>(OrbError::NotFound) && final(self).entries@
                == old(self).entries@,
            old(self).has(id) && old(self).entries@[old(self).index(id)].handles == u64::MAX ==> r
                == Err::<(), OrbError>(OrbError::Exhausted) && final(self).entries@
                == old(self).entries@,
            old(self).has(id) && old(self).entries@[old(self).index(id)].handles < u64::MAX ==> {
                let i = old(self).index(id);
                &&& r is Ok
                &&& final(self).entries@ == old(self).entries@.update(
                    i,
                    Entry { handles: (old(self).entries@[i].handles + 1) as u64, ..old(self).entries@[i] },
                )
            },
    {
        match self.find(id) {
            None => Err(OrbError::NotFound),
            Some(i) => {
                if self.entries[i].handles == u64::MAX {
                    return Err(OrbError::Exhausted);
                }
                self.entries[i].handles = self.entries[i].handles + 1;
                assert(self.entries@ =~= old(self).entries@.update(
                    i as int,
                    Entry { handles: (old(self).entries@[i as int].handles + 1) as u64, ..old(self).entries@[i as int] },
                ));
                Ok(())
            },
        }
    }

    /// Closes one handle on the window `id`; the window is destroyed when
    /// its last handle closes. `NotFound` when it is not live.
    pub fn release(&mut self, id: u64) -> (r: Result<(), OrbError>)
        requires
            old(self).wf(),
        ensures
            final(self).wf(),
            !old(self).has(id) ==> r == Err::<(), OrbError>(OrbError::NotFound) && final(self).entries@
                == old(self).entries@,
            old(self).has(id) ==> {
                let i = old(self).index(id);
                let e = old(self).entries@[i];
                &&& r is Ok
                &&& e.handles == 1 ==> final(self).entries@ == old(self).entries@.remove(i)
                &&& e.handles > 1 ==> final(self).entries@ == old(self).entries@.update(
                    i,
                    Entry { handles: (e.handles - 1) as u64, ..e },
                )
            },
    {
        match self.find(id) {
            None => Err(OrbError::NotFound),
            Some(i) => {
                if self.entries[i].handles == 1 {
                    self.entries.remove(i);
                    assert forall|a: int, b: int|
                        0 <= a < b < self.entries@.len() implies #[trigger] self.entries@[a].id
                        < #[trigger] self.entries@[b].id by {
                        let a0 = if a < i { a } else { a + 1 };
                        let b0 = if b < i { b } else { b + 1 };
                        assert(old(self).entries@[a0].id < old(self).entries@[b0].id);
                    }
                    assert forall|a: int| 0 <= a < self.entries@.len() implies (#[trigger] self.entries@[a]).window.wf()
                        && self.entries@[a].handles >= 1 by {
                        let a0 = if a < i { a } else { a + 1 };
                        assert(old(self).entries@[a0].window.wf());
                    }
                } else {
                    let mut e = self.entries.remove(i);
                    e.handles = e.handles - 1;
                    self.entries.insert(i, e);
                    assert(self.entries@ =~= old(self).entries@.update(
                        i as int,
                        Entry { handles: (old(self).entries@[i as int].handles - 1) as u64, ..old(self).entries@[i as int] },
                    ));
                    assert forall|a: int| 0 <= a < self.entries@.len() implies (#[trigger] self.entries@[a]).window.wf()
                        && self.entries@[a].handles >= 1 by {
                        assert(old(self).entries@[a].window.wf());
                    }
                    assert forall|a: int, b: int|
                        0 <= a < b < self.entries@.len() implies #[trigger] self.entries@[a].id
                        < #[trigger] self.entries@[b].id by {
                        assert(old(self).entries@[a].id < old(self).entries@[b].id);
                    }
                }
                Ok(())
            },
        }
    }
}

} // verus!
