//! Integer handles for host-owned objects that native code refers to.
use vstd::prelude::*;
use vstd::hash_map::HashMapWithView;
use crate::error::InternalError;

verus! {

broadcast use vstd::std_specs::hash::group_hash_axioms;

/// What a handle table holds: its live entries, and the handle the next
/// insert will assign.
pub struct HandleTableView<T> {
    pub entries: Map<u64, T>,
    pub next: nat,
}

impl<T> HandleTableView<T> {
    /// Every live handle was assigned before `next`.
    pub open spec fn wf(self) -> bool {
        forall|h: u64| #[trigger] self.entries.contains_key(h) ==> h < self.next
    }

    /// The table after inserting `obj`, and the handle it got.
    pub open spec fn inserted(self, obj: T) -> (HandleTableView<T>, u64) {
        (HandleTableView { entries: self.entries.insert(self.next as u64, obj), next: self.next + 1 }, self.next as u64)
    }

    /// The table after removing the entry of `h`.
    pub open spec fn removed(self, h: u64) -> HandleTableView<T> {
        HandleTableView { entries: self.entries.remove(h), next: self.next }
    }
}

/// Maps handles to host-owned objects. Handles come from a counter that
/// only grows, so a handle is never assigned twice, and a stale handle can
/// never reach an unrelated object.
#[verifier::reject_recursive_types(T)]
pub struct HandleMap<T> {
    map: HashMapWithView<u64, T>,
    counter: u64,
}

impl<T> HandleMap<T> {
    pub closed spec fn view(&self) -> HandleTableView<T> {
        HandleTableView { entries: self.map@, next: self.counter as nat }
    }

    pub closed spec fn wf(&self) -> bool {
        self.view().wf()
    }

    /// An empty table whose first handle is 0.
    pub fn new() -> (r: HandleMap<T>)
        ensures
            r.wf(),
            r.view().entries == Map::<u64, T>::empty(),
            r.view().next == 0,
    {
        HandleMap { map: HashMapWithView::new(), counter: 0 }
    }

    /// Stores `obj` under the next handle and returns that handle.
    pub fn insert(&mut self, obj: T) -> (h: u64)
        requires
            old(self).wf(),
            old(self).view().next < u64::MAX,
        ensures
            final(self).wf(),
            (final(self).view(), h) == old(self).view().inserted(obj),
            !old(self).view().entries.contains_key(h),
    {
        let h = self.counter;
        proof {
            lemma_counter_only_grows(self.view(), obj, h);
        }
        self.map.insert(h, obj);
        self.counter = h + 1;
        h
    }

    /// The object stored under `h`.
    pub fn get(&self, h: u64) -> (r: Result<&T, InternalError>)
        ensures
            match r {
                Ok(v) => self.view().entries.contains_key(h) && *v == self.view().entries[h],
                Err(e) => !self.view().entries.contains_key(h) && e == InternalError::StaleHandle,
            },
    {
        match self.map.get(&h) {
            Some(v) => Ok(v),
            None => Err(InternalError::StaleHandle),
        }
    }

    /// Deletes the entry of `h`, handing back its object.
    pub fn remove(&mut self, h: u64) -> (r: Result<T, InternalError>)
        requires
            old(self).wf(),
        ensures
            final(self).wf(),
            final(self).view() == old(self).view().removed(h),
            match r {
                Ok(v) => old(self).view().entries.contains_key(h) && v == old(self).view().entries[h],
                Err(e) => !old(self).view().entries.contains_key(h) && e == InternalError::StaleHandle,
            },
    {
        let r = match self.map.remove(&h) {
            Some(v) => Ok(v),
            None => {
                assert(self.map@ =~= old(self).map@.remove(h));
                Err(InternalError::StaleHandle)
            },
        };
        proof {
            assert(self.map@ == old(self).map@.remove(h));
            assert(self.counter == old(self).counter);
            let t = old(self).view();
            assert(t.wf());
            assert forall|k: u64| #[trigger] self.map@.contains_key(k) implies k < self.counter by {
                assert(t.entries.contains_key(k));
            }
        }
        r
    }
}

/// Two inserts give distinct handles; after the first handle is removed, it
/// is stale while the second still reaches its object; and no later insert,
/// from any table that grew out of this one, assigns the removed handle again.
pub proof fn lemma_handles_never_reused<T>(t: HandleTableView<T>, a: T, b: T, later: HandleTableView<T>, c: T)
    requires
        t.wf(),
        later.next >= t.next + 2,
        later.next < u64::MAX,
    ensures
        ({
            let (t1, ha) = t.inserted(a);
            let (t2, hb) = t1.inserted(b);
            let t3 = t2.removed(ha);
            &&& ha != hb
            &&& !t3.entries.contains_key(ha)
            &&& t3.entries.contains_key(hb) && t3.entries[hb] == b
            &&& later.inserted(c).1 != ha
        }),
{
}

/// Every operation keeps the table well formed and never lowers the counter.
pub proof fn lemma_counter_only_grows<T>(t: HandleTableView<T>, obj: T, h: u64)
    requires
        t.wf(),
        t.next < u64::MAX,
    ensures
        t.inserted(obj).0.wf(),
        t.inserted(obj).0.next == t.next + 1,
        t.removed(h).wf(),
        t.removed(h).next == t.next,
{
    let t1 = t.inserted(obj).0;
    assert forall|k: u64| #[trigger] t1.entries.contains_key(k) implies k < t1.next by {
        if k != t.next as u64 {
            assert(t.entries.contains_key(k));
        }
    }
}

} // verus!
