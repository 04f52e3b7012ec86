//! Who is responsible for destroying each control.
//!
//! The tracker keeps one record per handle. Its view is a map from handles to
//! ownership states, and every operation is described as a function on that
//! map.

use vstd::prelude::*;
use crate::error::CoreError;
use crate::kind::{Handle, NULL_HANDLE};
use crate::records::{
    after_attach,
    after_destroy,
    after_register,
    attach_outcome,
    cascade,
    destroy_outcome,
    in_subtree,
    is_child,
    is_descendant,
    is_live,
    lemma_child_of_subtree,
    lemma_descendant_has_parent,
    newly_destroyed,
    parents_live,
    reaches,
    register_outcome,
    Ownership,
    Records,
};

verus! {

/// One record of the tracker.
#[derive(Clone, Copy, Debug)]
struct Record {
    handle: Handle,
    state: Ownership,
}

/// How many of the records are of live handles.
spec fn live_count(s: Seq<Record>) -> nat
    decreases s.len(),
{
    if s.len() == 0 {
        0
    } else {
        live_count(s.drop_last()) + if s.last().state != Ownership::Destroyed {
            1nat
        } else {
            0nat
        }
    }
}

proof fn lemma_live_count_retire(s: Seq<Record>, i: int, r: Record)
    requires
        0 <= i < s.len(),
        s[i].state != Ownership::Destroyed,
        r.state == Ownership::Destroyed,
    ensures
        live_count(s.update(i, r)) + 1 == live_count(s),
    decreases s.len(),
{
    let t = s.update(i, r);
    if i == s.len() - 1 {
        assert(t.drop_last() =~= s.drop_last());
    } else {
        assert(t.drop_last() =~= s.drop_last().update(i, r));
        lemma_live_count_retire(s.drop_last(), i, r);
    }
}

/// Every handle of the model has a stored record.
spec fn covers(records: Seq<Record>, m: Records) -> bool {
    forall|h: Handle|
        m.contains_key(h) ==> exists|i: int|
            0 <= i < records.len() && (#[trigger] records[i]).handle == h
}

/// Records that keep their handles in place still cover the model when the
/// state of one of them is changed, or a record is added at the end.
proof fn lemma_covers_kept(stored: Seq<Record>, now: Seq<Record>, m: Records, at: int, s: Ownership)
    requires
        covers(stored, m),
        stored.len() <= now.len(),
        forall|i: int| 0 <= i < stored.len() ==> (#[trigger] now[i]).handle == stored[i].handle,
        0 <= at < now.len(),
    ensures
        covers(now, m.insert(now[at].handle, s)),
{
    assert forall|k: Handle| m.insert(now[at].handle, s).contains_key(k) implies exists|i: int|
        0 <= i < now.len() && (#[trigger] now[i]).handle == k by {
        if k != now[at].handle {
            let i = choose|i: int| 0 <= i < stored.len() && (#[trigger] stored[i]).handle == k;
            assert(now[i].handle == k);
        }
    }
}

/// The ownership records of all handles that were ever registered.
pub struct OwnershipTracker {
    records: Vec<Record>,
    model: Ghost<Records>,
}

impl View for OwnershipTracker {
    type V = Records;

    closed spec fn view(&self) -> Records {
        self.model@
    }
}

impl OwnershipTracker {
    /// The stored records and the view agree, and no handle has two records.
    closed spec fn consistent(&self) -> bool {
        &&& forall|i: int|
            0 <= i < self.records@.len() ==> {
                let r = #[trigger] self.records@[i];
                self.model@.contains_key(r.handle) && self.model@[r.handle] == r.state
            }
        &&& covers(self.records@, self.model@)
        &&& forall|i: int, j: int|
            0 <= i < j < self.records@.len() ==> (#[trigger] self.records@[i]).handle != (
            #[trigger] self.records@[j]).handle
    }

    /// The tracker's invariant: the null handle has no record, and a control
    /// that is attached to a container outlives it in no case.
    pub closed spec fn wf(&self) -> bool {
        &&& self.consistent()
        &&& !self.model@.contains_key(NULL_HANDLE)
        &&& parents_live(self.model@)
    }

    /// The null handle is never registered, and the container of a live
    /// control is alive.
    pub proof fn lemma_parents_live(&self)
        requires
            self.wf(),
        ensures
            !self@.contains_key(NULL_HANDLE),
            parents_live(self@),
    {
    }

    /// A tracker without records.
    pub fn new() -> (tracker: OwnershipTracker)
        ensures
            tracker.wf(),
            tracker@ == Map::<Handle, Ownership>::empty(),
    {
        OwnershipTracker { records: Vec::new(), model: Ghost(Map::empty()) }
    }

    fn find(&self, h: Handle) -> (found: Option<usize>)
        requires
            self.consistent(),
        ensures
            match found {
                Some(i) => i < self.records@.len() && self.records@[i as int].handle == h
                    && self@.contains_key(h) && self@[h] == self.records@[i as int].state,
                None => !self@.contains_key(h),
            },
    {
        let mut i: usize = 0;
        while i < self.records.len()
            invariant
                self.consistent(),
                i <= self.records@.len(),
                forall|j: int| 0 <= j < i ==> (#[trigger] self.records@[j]).handle != h,
            decreases self.records@.len() - i,
        {
            if self.records[i].handle == h {
                return Some(i);
            }
            i += 1;
        }
        None
    }

    /// The state of `h`, if it was ever registered.
    pub fn state_of(&self, h: Handle) -> (state: Option<Ownership>)
        requires
            self.wf(),
        ensures
            state == (if self@.contains_key(h) {
                Some(self@[h])
            } else {
                None
            }),
    {
        match self.find(h) {
            Some(i) => Some(self.records[i].state),
            None => None,
        }
    }

    /// Whether `h` is registered and not destroyed.
    pub fn is_alive(&self, h: Handle) -> (alive: bool)
        requires
            self.wf(),
        ensures
            alive == is_live(self@, h),
    {
        match self.find(h) {
            Some(i) => match self.records[i].state {
                Ownership::Destroyed => false,
                _ => true,
            },
            None => false,
        }
    }

    /// Registers a handle that the toolkit has just issued as a root. The
    /// null handle is refused, and so is a handle that is alive. A handle
    /// whose control was destroyed starts anew.
    pub fn register_root(&mut self, h: Handle) -> (outcome: Result<(), CoreError>)
        requires
            old(self).wf(),
        ensures
            final(self).wf(),
            outcome == register_outcome(old(self)@, h),
            final(self)@ == after_register(old(self)@, h),
    {
        if h == NULL_HANDLE {
            return Err(CoreError::AllocationFailed);
        }
        let ghost stored = self.records@;
        let fresh = Record { handle: h, state: Ownership::Root };
        match self.find(h) {
            Some(at) => {
                match self.records[at].state {
                    Ownership::Destroyed => {},
                    _ => {
                        return Err(CoreError::AllocationFailed);
                    },
                }
                self.records.set(at, fresh);
                proof {
                    lemma_covers_kept(stored, self.records@, self.model@, at as int, fresh.state);
                }
            },
            None => {
                self.records.push(fresh);
                proof {
                    lemma_covers_kept(
                        stored,
                        self.records@,
                        self.model@,
                        stored.len() as int,
                        fresh.state,
                    );
                }
            },
        }
        self.model = Ghost(self.model@.insert(h, Ownership::Root));
        proof {
            assert forall|k: Handle, p: Handle| #[trigger]
                is_child(self.model@, k, p) implies is_live(self.model@, p) by {
                assert(is_child(old(self).model@, k, p));
            }
        }
        Ok(())
    }

    /// Hands the root `child` over to the container `parent`.
    pub fn attach(&mut self, child: Handle, parent: Handle) -> (outcome: Result<(), CoreError>)
        requires
            old(self).wf(),
        ensures
            final(self).wf(),
            outcome == attach_outcome(old(self)@, child, parent),
            final(self)@ == after_attach(old(self)@, child, parent),
    {
        let at = match self.find(child) {
            Some(i) => i,
            None => {
                return Err(CoreError::UseAfterDestroy);
            },
        };
        match self.records[at].state {
            Ownership::Destroyed => {
                return Err(CoreError::UseAfterDestroy);
            },
            Ownership::ParentOwned(_) => {
                return Err(CoreError::AlreadyParented);
            },
            Ownership::Root => {},
        }
        if !self.is_alive(parent) {
            return Err(CoreError::UseAfterDestroy);
        }
        let ghost stored = self.records@;
        self.records.set(at, Record { handle: child, state: Ownership::ParentOwned(parent) });
        proof {
            lemma_covers_kept(
                stored,
                self.records@,
                self.model@,
                at as int,
                Ownership::ParentOwned(parent),
            );
        }
        self.model = Ghost(self.model@.insert(child, Ownership::ParentOwned(parent)));
        proof {
            assert forall|k: Handle, p: Handle| #[trigger]
                is_child(self.model@, k, p) implies is_live(self.model@, p) by {
                if k != child {
                    assert(is_child(old(self).model@, k, p));
                }
            }
        }
        Ok(())
    }

    /// The handles of all roots, each once.
    pub fn roots(&self) -> (handles: Vec<Handle>)
        requires
            self.wf(),
        ensures
            handles@.no_duplicates(),
            forall|h: Handle|
                handles@.contains(h) <==> (self@.contains_key(h) && self@[h] == Ownership::Root),
    {
        let mut handles: Vec<Handle> = Vec::new();
        let mut i: usize = 0;
        while i < self.records.len()
            invariant
                self.wf(),
                i <= self.records@.len(),
                handles@.no_duplicates(),
                forall|h: Handle|
                    handles@.contains(h) <==> exists|j: int|
                        0 <= j < i && (#[trigger] self.records@[j]).handle == h
                            && self.records@[j].state == Ownership::Root,
            decreases self.records@.len() - i,
        {
            let r = self.records[i];
            if let Ownership::Root = r.state {
                let ghost earlier = handles@;
                proof {
                    if earlier.contains(r.handle) {
                        let j = choose|j: int|
                            0 <= j < i && (#[trigger] self.records@[j]).handle == r.handle
                                && self.records@[j].state == Ownership::Root;
                        assert(self.records@[j].handle != self.records@[i as int].handle);
                    }
                }
                handles.push(r.handle);
                proof {
                    assert forall|h: Handle| handles@.contains(h) implies exists|j: int|
                        0 <= j < i + 1 && (#[trigger] self.records@[j]).handle == h
                            && self.records@[j].state == Ownership::Root by {
                        let at = choose|at: int| 0 <= at < handles@.len() && handles@[at] == h;
                        if at < earlier.len() {
                            assert(earlier[at] == h);
                            assert(earlier.contains(h));
                        } else {
                            assert(self.records@[i as int].handle == h);
                        }
                    }
                    assert forall|h: Handle|
                        (exists|j: int|
                            0 <= j < i + 1 && (#[trigger] self.records@[j]).handle == h
                                && self.records@[j].state == Ownership::Root) implies handles@.contains(
                        h,
                    ) by {
                        let j = choose|j: int|
                            0 <= j < i + 1 && (#[trigger] self.records@[j]).handle == h
                                && self.records@[j].state == Ownership::Root;
                        if j < i {
                            assert(earlier.contains(h));
                            let at = choose|at: int| 0 <= at < earlier.len() && earlier[at] == h;
                            assert(handles@[at] == h);
                        } else {
                            assert(handles@[earlier.len() as int] == h);
                        }
                    }
                }
            }
            i += 1;
        }
        proof {
            assert forall|h: Handle|
                (self@.contains_key(h) && self@[h] == Ownership::Root) implies handles@.contains(
                h,
            ) by {
                let j = choose|j: int|
                    0 <= j < self.records@.len() && (#[trigger] self.records@[j]).handle == h;
                assert(self.records@[j].state == Ownership::Root);
            }
        }
        handles
    }
}

/// Nothing changed between `before` and `now` but that members of the subtree
/// of `h` were destroyed.
spec fn confined(before: Records, now: Records, h: Handle) -> bool {
    &&& now.dom() =~= before.dom()
    &&& forall|k: Handle| #[trigger]
        before.contains_key(k) ==> now[k] == before[k] || (now[k] == Ownership::Destroyed
            && in_subtree(before, k, h))
}

/// Whatever was attached to a control that has been destroyed since `before`
/// is destroyed too.
spec fn sealed(before: Records, now: Records) -> bool {
    forall|k: Handle, p: Handle|
        #[trigger] is_child(before, k, p) && newly_destroyed(before, now, p) ==> now.contains_key(k)
            && now[k] == Ownership::Destroyed
}

proof fn lemma_sealed_reaches(before: Records, now: Records, h: Handle, k: Handle, n: nat)
    requires
        sealed(before, now),
        newly_destroyed(before, now, h),
        reaches(before, k, h, n),
    ensures
        now.contains_key(k),
        now[k] == Ownership::Destroyed,
    decreases n,
{
    match before[k] {
        Ownership::ParentOwned(p) => {
            assert(is_child(before, k, p));
            if p != h {
                lemma_sealed_reaches(before, now, h, p, (n - 1) as nat);
            }
        },
        _ => {},
    }
}

proof fn lemma_sealed_is_cascade(before: Records, now: Records, h: Handle)
    requires
        parents_live(before),
        before.contains_key(h),
        before[h] == Ownership::Root,
        confined(before, now, h),
        sealed(before, now),
        now[h] == Ownership::Destroyed,
    ensures
        now == cascade(before, h),
        parents_live(now),
{
    assert forall|k: Handle| before.contains_key(k) implies now[k] == cascade(before, h)[k] by {
        if is_descendant(before, k, h) {
            let n = choose|n: nat| reaches(before, k, h, n);
            lemma_sealed_reaches(before, now, h, k, n);
        }
    }
    assert(now =~= cascade(before, h));
    assert forall|k: Handle, p: Handle| #[trigger] is_child(now, k, p) implies is_live(now, p) by {
        assert(before.contains_key(k));
        assert(is_child(before, k, p));
        assert(is_live(before, p));
    }
}

impl OwnershipTracker {
    /// Destroys the root `h`. The toolkit frees the whole subtree with it, so
    /// every control that is attached to `h`, directly or through other
    /// containers, is marked destroyed as well. Returns the handles that were
    /// marked, `h` first and each once.
    pub fn destroy_root(&mut self, h: Handle) -> (outcome: Result<Vec<Handle>, CoreError>)
        requires
            old(self).wf(),
        ensures
            final(self).wf(),
            final(self)@ == after_destroy(old(self)@, h),
            match outcome {
                Ok(released) => {
                    &&& destroy_outcome(old(self)@, h).is_ok()
                    &&& released@.len() > 0
                    &&& released@[0] == h
                    &&& released@.no_duplicates()
                    &&& forall|k: Handle|
                        released@.contains(k) <==> (old(self)@.contains_key(k) && in_subtree(
                            old(self)@,
                            k,
                            h,
                        ))
                },
                Err(e) => destroy_outcome(old(self)@, h) == Err::<(), CoreError>(e),
            },
    {
        let at = match self.find(h) {
            Some(i) => i,
            None => {
                return Err(CoreError::UseAfterDestroy);
            },
        };
        match self.records[at].state {
            Ownership::Destroyed => {
                return Err(CoreError::UseAfterDestroy);
            },
            Ownership::ParentOwned(_) => {
                return Err(CoreError::NotOwner);
            },
            Ownership::Root => {},
        }
        let ghost before = self.model@;
        let ghost stored = self.records@;
        self.records.set(at, Record { handle: h, state: Ownership::Destroyed });
        proof {
            lemma_covers_kept(stored, self.records@, self.model@, at as int, Ownership::Destroyed);
        }
        self.model = Ghost(self.model@.insert(h, Ownership::Destroyed));
        // `released` is both the result and the queue: the handles before
        // `next` have had their children marked, the others are waiting.
        let mut released: Vec<Handle> = Vec::new();
        released.push(h);
        let mut next: usize = 0;
        proof {
            assert(released@[0] == h);
            assert forall|k: Handle| newly_destroyed(before, self.model@, k) implies released@.contains(
                k,
            ) by {
                assert(k == h);
            }
        }
        while next < released.len()
            invariant
                self.consistent(),
                parents_live(before),
                before.contains_key(h),
                before[h] == Ownership::Root,
                confined(before, self.model@, h),
                self.model@[h] == Ownership::Destroyed,
                next <= released@.len(),
                released@.len() > 0,
                released@[0] == h,
                released@.no_duplicates(),
                forall|k: Handle| released@.contains(k) <==> newly_destroyed(before, self.model@, k),
                forall|j: int, k: Handle|
                    0 <= j < next && #[trigger] is_child(before, k, released@[j])
                        ==> self.model@[k] == Ownership::Destroyed,
            decreases live_count(self.records@) + released@.len() - next,
        {
            // Mark whatever is attached directly to `x`. Each mark takes one
            // live record away and adds one handle to the queue.
            let x = released[next];
            let n = self.records.len();
            let ghost budget = live_count(self.records@) + released@.len();
            let mut i: usize = 0;
            while i < n
                invariant
                    self.consistent(),
                    confined(before, self.model@, h),
                    self.model@[h] == Ownership::Destroyed,
                    next < released@.len(),
                    released@[next as int] == x,
                    released@.len() > 0,
                    released@[0] == h,
                    released@.no_duplicates(),
                    forall|k: Handle|
                        released@.contains(k) <==> newly_destroyed(before, self.model@, k),
                    forall|j: int, k: Handle|
                        0 <= j < next && #[trigger] is_child(before, k, released@[j])
                            ==> self.model@[k] == Ownership::Destroyed,
                    n == self.records@.len(),
                    i <= n,
                    forall|j: int|
                        0 <= j < i && is_child(before, (#[trigger] self.records@[j]).handle, x)
                            ==> self.records@[j].state == Ownership::Destroyed,
                    live_count(self.records@) + released@.len() == budget,
                decreases n - i,
            {
                let r = self.records[i];
                let ghost stored = self.records@;
                let ghost model = self.model@;
                let ghost listed = released@;
                let mut hit = false;
                if let Ownership::ParentOwned(p) = r.state {
                    if p == x {
                        hit = true;
                    }
                }
                if hit {
                    proof {
                        assert(before.contains_key(r.handle));
                        assert(is_child(before, r.handle, x));
                        assert(released@.contains(x));
                        lemma_child_of_subtree(before, r.handle, x, h);
                        lemma_live_count_retire(
                            stored,
                            i as int,
                            Record { handle: r.handle, state: Ownership::Destroyed },
                        );
                    }
                    self.records.set(i, Record { handle: r.handle, state: Ownership::Destroyed });
                    proof {
                        lemma_covers_kept(
                            stored,
                            self.records@,
                            self.model@,
                            i as int,
                            Ownership::Destroyed,
                        );
                    }
                    self.model = Ghost(self.model@.insert(r.handle, Ownership::Destroyed));
                    released.push(r.handle);
                    proof {
                        assert forall|j: int|
                            0 <= j < self.records@.len() implies self.model@.contains_key(
                            (#[trigger] self.records@[j]).handle,
                        ) && self.model@[self.records@[j].handle] == self.records@[j].state by {
                            if j != i {
                                assert(stored[j].handle != stored[i as int].handle);
                            }
                        }
                        assert(!listed.contains(r.handle));
                        assert forall|k: Handle|
                            released@.contains(k) <==> newly_destroyed(before, self.model@, k) by {
                            if k == r.handle {
                                assert(released@[listed.len() as int] == k);
                            } else if released@.contains(k) {
                                let j = choose|j: int| 0 <= j < released@.len() && released@[j] == k;
                                assert(listed[j] == k);
                                assert(listed.contains(k));
                            } else if newly_destroyed(before, self.model@, k) {
                                assert(listed.contains(k));
                                let j = choose|j: int| 0 <= j < listed.len() && listed[j] == k;
                                assert(released@[j] == k);
                            }
                        }
                        assert forall|j: int, k: Handle|
                            0 <= j < next && #[trigger] is_child(
                                before,
                                k,
                                released@[j],
                            ) implies self.model@[k] == Ownership::Destroyed by {
                            assert(released@[j] == listed[j]);
                            assert(model[k] == Ownership::Destroyed);
                        }
                        assert forall|j: int|
                            0 <= j < i + 1 && is_child(
                                before,
                                (#[trigger] self.records@[j]).handle,
                                x,
                            ) implies self.records@[j].state == Ownership::Destroyed by {
                            if j < i {
                                assert(stored[j].handle == self.records@[j].handle);
                            }
                        }
                    }
                } else {
                    proof {
                        assert(before.contains_key(r.handle));
                    }
                }
                i += 1;
            }
            proof {
                assert forall|j: int, k: Handle|
                    0 <= j < next + 1 && #[trigger] is_child(
                        before,
                        k,
                        released@[j],
                    ) implies self.model@[k] == Ownership::Destroyed by {
                    if j == next {
                        assert(self.model@.contains_key(k));
                        let at = choose|at: int|
                            0 <= at < self.records@.len() && (#[trigger] self.records@[at]).handle
                                == k;
                        assert(self.records@[at].state == Ownership::Destroyed);
                    }
                }
            }
            next += 1;
        }
        proof {
            assert forall|k: Handle, p: Handle|
                #[trigger] is_child(before, k, p) && newly_destroyed(
                    before,
                    self.model@,
                    p,
                ) implies self.model@.contains_key(k) && self.model@[k] == Ownership::Destroyed by {
                assert(released@.contains(p));
                let j = choose|j: int| 0 <= j < released@.len() && released@[j] == p;
                assert(is_child(before, k, released@[j]));
                assert(before.contains_key(k));
            }
            lemma_sealed_is_cascade(before, self.model@, h);
            assert forall|k: Handle|
                released@.contains(k) <==> (before.contains_key(k) && in_subtree(before, k, h)) by {
                if before.contains_key(k) && in_subtree(before, k, h) {
                    if k != h {
                        lemma_descendant_has_parent(before, k, h);
                    }
                    assert(newly_destroyed(before, self.model@, k));
                }
                if released@.contains(k) {
                    assert(newly_destroyed(before, self.model@, k));
                    assert(before.contains_key(k));
                }
            }
        }
        Ok(released)
    }
}

} // verus!
