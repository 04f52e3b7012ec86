//! Host closures, keyed by the control and the event they answer.
//!
//! The toolkit is given one fixed trampoline per event kind. When it fires,
//! the trampoline brings the handle and the event kind back here, where the
//! closure is looked up and called.

use vstd::prelude::*;
use crate::kind::{EventKind, Handle};

verus! {

/// What a closure is told about the event it answers.
#[derive(Clone, Copy, Debug, PartialEq, Eq, Structural)]
pub struct EventArgs {
    /// The control that emitted the event.
    pub handle: Handle,
    /// Whether the control is alive at the moment of the call.
    pub alive: bool,
    /// The payload of the event, such as the new value of a slider.
    pub value: i64,
}

/// What the toolkit is handed at registration: the key that the trampoline
/// brings back when the event fires.
#[derive(Clone, Copy, Debug, PartialEq, Eq, Structural)]
pub struct TrampolineHandle {
    pub handle: Handle,
    pub event: EventKind,
}

/// The registered closures as a map.
pub type Handlers<F> = Map<(Handle, EventKind), F>;

/// The closure can be called with any arguments.
pub open spec fn accepts_all<F: Fn(EventArgs) -> bool>(f: F) -> bool {
    forall|a: EventArgs| call_requires(f, (a,))
}

/// The closures that remain when every entry of `handle` is removed.
pub open spec fn purged<F>(m: Handlers<F>, handle: Handle) -> Handlers<F> {
    Map::new(|k: (Handle, EventKind)| m.contains_key(k) && k.0 != handle, |k: (Handle, EventKind)| m[k])
}

/// One stored closure.
struct Entry<F> {
    handle: Handle,
    event: EventKind,
    closure: F,
}

/// Every key of the model has a stored entry.
spec fn covers<F>(entries: Seq<Entry<F>>, m: Handlers<F>) -> bool {
    forall|k: (Handle, EventKind)|
        m.contains_key(k) ==> exists|i: int|
            0 <= i < entries.len() && (#[trigger] entries[i]).handle == k.0 && entries[i].event
                == k.1
}

/// Entries that were moved still cover the model. `to` says where each old
/// entry went, for those whose key is still in the model, and `at` is where
/// the entry of a new key stands.
proof fn lemma_covers_moved<F>(
    stored: Seq<Entry<F>>,
    now: Seq<Entry<F>>,
    before: Handlers<F>,
    after: Handlers<F>,
    to: spec_fn(int) -> int,
    at: int,
)
    requires
        covers(stored, before),
        forall|k: (Handle, EventKind)| #[trigger]
            after.contains_key(k) ==> before.contains_key(k) || (0 <= at < now.len()
                && now[at].handle == k.0 && now[at].event == k.1),
        forall|i: int|
            0 <= i < stored.len() && after.contains_key(
                ((#[trigger] stored[i]).handle, stored[i].event),
            ) ==> 0 <= to(i) < now.len() && now[to(i)].handle == stored[i].handle
                && now[to(i)].event == stored[i].event,
    ensures
        covers(now, after),
{
    assert forall|k: (Handle, EventKind)| after.contains_key(k) implies exists|i: int|
        0 <= i < now.len() && (#[trigger] now[i]).handle == k.0 && now[i].event == k.1 by {
        if before.contains_key(k) {
            let i = choose|i: int|
                0 <= i < stored.len() && (#[trigger] stored[i]).handle == k.0 && stored[i].event
                    == k.1;
            assert(now[to(i)].handle == k.0);
        } else {
            assert(now[at].handle == k.0);
        }
    }
}

/// The closures of all controls, at most one per control and event kind.
pub struct CallbackRegistry<F> {
    entries: Vec<Entry<F>>,
    model: Ghost<Handlers<F>>,
}

impl<F> View for CallbackRegistry<F> {
    type V = Handlers<F>;

    closed spec fn view(&self) -> Handlers<F> {
        self.model@
    }
}

impl<F: Fn(EventArgs) -> bool> CallbackRegistry<F> {
    /// The stored entries and the view agree, no key is stored twice, and
    /// every stored closure can be called with any arguments.
    pub closed spec fn wf(&self) -> bool {
        &&& forall|i: int|
            0 <= i < self.entries@.len() ==> {
                let e = #[trigger] self.entries@[i];
                self.model@.contains_key((e.handle, e.event)) && self.model@[(e.handle, e.event)]
                    == e.closure && accepts_all(e.closure)
            }
        &&& covers(self.entries@, self.model@)
        &&& forall|i: int, j: int|
            0 <= i < j < self.entries@.len() ==> (#[trigger] self.entries@[i]).handle != (
            #[trigger] self.entries@[j]).handle || self.entries@[i].event != self.entries@[j].event
    }

    /// Every registered closure can be called with any arguments.
    pub proof fn lemma_callable(&self, key: (Handle, EventKind))
        requires
            self.wf(),
            self@.contains_key(key),
        ensures
            accepts_all(self@[key]),
    {
        let i = choose|i: int|
            0 <= i < self.entries@.len() && (#[trigger] self.entries@[i]).handle == key.0
                && self.entries@[i].event == key.1;
        assert(accepts_all(self.entries@[i].closure));
    }

    /// A registry without entries.
    pub fn new() -> (registry: CallbackRegistry<F>)
        ensures
            registry.wf(),
            registry@ == Map::<(Handle, EventKind), F>::empty(),
    {
        CallbackRegistry { entries: Vec::new(), model: Ghost(Map::empty()) }
    }

    fn find(&self, handle: Handle, event: EventKind) -> (found: Option<usize>)
        requires
            self.wf(),
        ensures
            match found {
                Some(i) => i < self.entries@.len() && self.entries@[i as int].handle == handle
                    && self.entries@[i as int].event == event && self@.contains_key((handle, event))
                    && self@[(handle, event)] == self.entries@[i as int].closure,
                None => !self@.contains_key((handle, event)),
            },
    {
        let mut i: usize = 0;
        while i < self.entries.len()
            invariant
                self.wf(),
                i <= self.entries@.len(),
                forall|j: int|
                    0 <= j < i ==> (#[trigger] self.entries@[j]).handle != handle
                        || self.entries@[j].event != event,
            decreases self.entries@.len() - i,
        {
            if self.entries[i].handle == handle && self.entries[i].event == event {
                return Some(i);
            }
            i += 1;
        }
        None
    }

    /// Whether a closure is registered for the control and the event.
    pub fn is_registered(&self, handle: Handle, event: EventKind) -> (present: bool)
        requires
            self.wf(),
        ensures
            present == self@.contains_key((handle, event)),
    {
        self.find(handle, event).is_some()
    }

    /// Stores `closure` for the control and the event. A closure that was
    /// stored for the same control and event before is dropped.
    pub fn register(&mut self, handle: Handle, event: EventKind, closure: F) -> (trampoline:
        TrampolineHandle)
        requires
            old(self).wf(),
            accepts_all(closure),
        ensures
            final(self).wf(),
            final(self)@ == old(self)@.insert((handle, event), closure),
            trampoline == (TrampolineHandle { handle, event }),
    {
        let ghost stored = self.entries@;
        let entry = Entry { handle, event, closure };
        let found = self.find(handle, event);
        let ghost at: int = match found {
            Some(i) => i as int,
            None => stored.len() as int,
        };
        match found {
            Some(i) => {
                self.entries.set(i, entry);
            },
            None => {
                self.entries.push(entry);
            },
        }
        let ghost before = self.model@;
        self.model = Ghost(self.model@.insert((handle, event), closure));
        proof {
            lemma_covers_moved(stored, self.entries@, before, self.model@, |i: int| i, at);
            assert forall|i: int| 0 <= i < self.entries@.len() implies {
                let e = #[trigger] self.entries@[i];
                self.model@.contains_key((e.handle, e.event)) && self.model@[(e.handle, e.event)]
                    == e.closure && accepts_all(e.closure)
            } by {
                if i != at {
                    assert(accepts_all(stored[i].closure));
                }
            }
        }
        TrampolineHandle { handle, event }
    }

    /// Calls the closure that is registered for the control and the event, if
    /// there is one, and returns its answer.
    pub fn dispatch(&self, handle: Handle, event: EventKind, args: EventArgs) -> (answer: Option<
        bool,
    >)
        requires
            self.wf(),
        ensures
            match answer {
                Some(verdict) => self@.contains_key((handle, event)) && call_ensures(
                    self@[(handle, event)],
                    (args,),
                    verdict,
                ),
                None => !self@.contains_key((handle, event)),
            },
    {
        match self.find(handle, event) {
            Some(i) => {
                let entry = &self.entries[i];
                let verdict = (entry.closure)(args);
                Some(verdict)
            },
            None => None,
        }
    }

    /// Drops every closure of the control.
    pub fn purge(&mut self, handle: Handle)
        requires
            old(self).wf(),
        ensures
            final(self).wf(),
            final(self)@ == purged(old(self)@, handle),
    {
        let ghost before = self.model@;
        let mut i: usize = 0;
        while i < self.entries.len()
            invariant
                self.wf(),
                i <= self.entries@.len(),
                forall|j: int| 0 <= j < i ==> (#[trigger] self.entries@[j]).handle != handle,
                forall|k: (Handle, EventKind)| #[trigger]
                    self.model@.contains_key(k) ==> before.contains_key(k) && self.model@[k]
                        == before[k],
                forall|k: (Handle, EventKind)| #[trigger]
                    before.contains_key(k) && k.0 != handle ==> self.model@.contains_key(k),
            decreases self.entries@.len() - i,
        {
            if self.entries[i].handle == handle {
                let ghost stored = self.entries@;
                let ghost model = self.model@;
                let gone = self.entries.swap_remove(i);
                self.model = Ghost(self.model@.remove((gone.handle, gone.event)));
                proof {
                    let last = stored.len() - 1;
                    lemma_covers_moved(
                        stored,
                        self.entries@,
                        model,
                        self.model@,
                        |j: int|
                            if j == last {
                                i as int
                            } else {
                                j
                            },
                        -1,
                    );
                    assert forall|j: int| 0 <= j < self.entries@.len() implies {
                        let e = #[trigger] self.entries@[j];
                        self.model@.contains_key((e.handle, e.event)) && self.model@[(
                            e.handle,
                            e.event,
                        )] == e.closure && accepts_all(e.closure)
                    } by {
                        if j == i {
                            assert(stored[last].handle != stored[i as int].handle || stored[last].event
                                != stored[i as int].event);
                        } else {
                            assert(stored[j].handle != stored[i as int].handle || stored[j].event
                                != stored[i as int].event);
                        }
                    }
                    assert forall|a: int, b: int| 0 <= a < b < self.entries@.len() implies (
                    #[trigger] self.entries@[a]).handle != (#[trigger] self.entries@[b]).handle
                        || self.entries@[a].event != self.entries@[b].event by {
                        let a0 = if a == i { last } else { a };
                        let b0 = if b == i { last } else { b };
                        assert(stored[a0].handle != stored[b0].handle || stored[a0].event
                            != stored[b0].event);
                    }
                    assert forall|j: int| 0 <= j < i implies (#[trigger] self.entries@[j]).handle
                        != handle by {
                        assert(stored[j].handle != handle);
                    }
                }
            } else {
                i += 1;
            }
        }
        proof {
            assert forall|k: (Handle, EventKind)| self.model@.contains_key(k) implies k.0
                != handle by {
                let j = choose|j: int|
                    0 <= j < self.entries@.len() && (#[trigger] self.entries@[j]).handle == k.0
                        && self.entries@[j].event == k.1;
            }
            assert(self.model@ =~= purged(before, handle));
        }
    }
}

} // verus!
