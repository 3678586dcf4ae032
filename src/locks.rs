//! Per-library exclusion: at most one synchronisation of a library at a
//! time, while different libraries are scanned independently.

use vstd::prelude::*;

verus! {

/// The libraries whose synchronisation is under way.
pub struct LibraryLocks {
    held: Vec<u128>,
}

impl View for LibraryLocks {
    type V = Set<u128>;

    closed spec fn view(&self) -> Set<u128> {
        self.held@.to_set()
    }
}

impl LibraryLocks {
    pub closed spec fn wf(&self) -> bool {
        self.held@.no_duplicates()
    }

    /// No library is held.
    pub fn new() -> (r: LibraryLocks)
        ensures
            r@ == Set::<u128>::empty(),
            r.wf(),
    {
        let r = LibraryLocks { held: Vec::new() };
        assert(r@ =~= Set::<u128>::empty());
        r
    }

    fn position(&self, library_id: u128) -> (r: Option<usize>)
        ensures
            match r {
                Some(i) => i < self.held@.len() && self.held@[i as int] == library_id,
                None => !self.held@.contains(library_id),
            },
    {
        let mut i: usize = 0;
        while i < self.held.len()
            invariant
                i <= self.held@.len(),
                forall|k: int| 0 <= k < i ==> self.held@[k] != library_id,
            decreases self.held@.len() - i,
        {
            if self.held[i] == library_id {
                return Some(i);
            }
            i = i + 1;
        }
        None
    }

    /// Whether a synchronisation of `library_id` is under way.
    pub fn is_held(&self, library_id: u128) -> (r: bool)
        ensures
            r == self@.contains(library_id),
    {
        self.position(library_id).is_some()
    }

    /// Takes the lock of `library_id` if it is free, and says whether it was.
    pub fn try_acquire(&mut self, library_id: u128) -> (r: bool)
        requires
            old(self).wf(),
        ensures
            r == !old(self)@.contains(library_id),
            final(self)@ == old(self)@.insert(library_id),
            final(self).wf(),
    {
        if self.position(library_id).is_some() {
            assert(old(self)@.insert(library_id) =~= old(self)@);
            return false;
        }
        self.held.push(library_id);
        proof {
            assert(self.held@ == old(self).held@.push(library_id));
            assert forall|x: u128| self@.contains(x) == old(self)@.insert(library_id).contains(x) by {
                if x == library_id {
                    assert(self.held@[self.held@.len() - 1] == x);
                }
                if old(self).held@.contains(x) {
                    let k = choose|k: int| 0 <= k < old(self).held@.len() && old(self).held@[k] == x;
                    assert(self.held@[k] == x);
                }
                if self.held@.contains(x) {
                    let k = choose|k: int| 0 <= k < self.held@.len() && self.held@[k] == x;
                    if k < old(self).held@.len() {
                        assert(old(self).held@[k] == x);
                    }
                }
            }
            assert(self@ =~= old(self)@.insert(library_id));
        }
        true
    }

    /// Gives the lock of `library_id` back.
    pub fn release(&mut self, library_id: u128)
        requires
            old(self).wf(),
        ensures
            final(self)@ == old(self)@.remove(library_id),
            final(self).wf(),
    {
        match self.position(library_id) {
            None => {
                assert(old(self)@.remove(library_id) =~= old(self)@);
            },
            Some(i) => {
                self.held.remove(i);
                proof {
                    let o = old(self).held@;
                    assert(self.held@ == o.remove(i as int));
                    assert forall|x: u128| self@.contains(x) == old(self)@.remove(library_id).contains(x) by {
                        if self.held@.contains(x) {
                            let k = choose|k: int| 0 <= k < self.held@.len() && self.held@[k] == x;
                            if k < i {
                                assert(o[k] == x);
                            } else {
                                assert(o[k + 1] == x);
                            }
                        }
                        if x != library_id && o.contains(x) {
                            let k = choose|k: int| 0 <= k < o.len() && o[k] == x;
                            if k < i {
                                assert(self.held@[k] == x);
                            } else {
                                assert(k != i);
                                assert(self.held@[k - 1] == x);
                            }
                        }
                    }
                    assert(self@ =~= old(self)@.remove(library_id));
                }
            },
        }
    }
}

} // verus!
