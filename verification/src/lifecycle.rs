//! Creation and destruction of controls, and everything in between.
//!
//! The coordinator owns the ownership records and the registered closures.
//! It is the only place where a handle is registered and the only place
//! where one is destroyed. It must be used from the UI thread alone.

use vstd::prelude::*;
use crate::callbacks::{
    accepts_all,
    purged,
    CallbackRegistry,
    EventArgs,
    Handlers,
    TrampolineHandle,
};
use crate::error::CoreError;
use crate::kind::{EventKind, Handle, Kind, ALLOW, NULL_HANDLE};
use crate::native::NativeCall;
use crate::ownership::OwnershipTracker;
use crate::records::{
    after_attach,
    after_destroy,
    after_register,
    attach_outcome,
    destroy_outcome,
    in_subtree,
    is_live,
    is_root,
    lemma_subtree_live,
    lemma_sweep_ends,
    lemma_sweep_step,
    parents_live,
    register_outcome,
    sweep,
    torn_down,
    Ownership,
    Records,
};
use crate::wrapper::TypedWrapper;

verus! {

/// Whether a native call may be made on `h`.
pub open spec fn access_outcome(m: Records, h: Handle) -> Result<(), CoreError> {
    if is_live(m, h) {
        Ok(())
    } else {
        Err(CoreError::UseAfterDestroy)
    }
}

/// The closure that an event of kind `event` on `h` is answered by, if any.
pub open spec fn handler_for<F>(m: Records, handlers: Handlers<F>, h: Handle, event: EventKind)
    -> Option<F> {
    if is_live(m, h) && handlers.contains_key((h, event)) {
        Some(handlers[(h, event)])
    } else {
        None
    }
}

/// The closures after an attempt to register `closure` for `h` and `event`.
pub open spec fn handlers_after_register<F>(
    m: Records,
    handlers: Handlers<F>,
    h: Handle,
    event: EventKind,
    closure: F,
) -> Handlers<F> {
    if is_live(m, h) {
        handlers.insert((h, event), closure)
    } else {
        handlers
    }
}

/// The closures that remain when `h` and everything below it is destroyed.
pub open spec fn without_subtree<F>(m: Records, handlers: Handlers<F>, h: Handle) -> Handlers<F> {
    Map::new(
        |k: (Handle, EventKind)| handlers.contains_key(k) && !in_subtree(m, k.0, h),
        |k: (Handle, EventKind)| handlers[k],
    )
}

/// The closures after an attempt to destroy `h`.
pub open spec fn handlers_after_destroy<F>(m: Records, handlers: Handlers<F>, h: Handle)
    -> Handlers<F> {
    if destroy_outcome(m, h).is_ok() {
        without_subtree(m, handlers, h)
    } else {
        handlers
    }
}

/// One registration of a handle: the handle, and how often the toolkit had
/// issued it before.
pub type Life = (Handle, nat);

/// The account of the registrations and of the native destroy calls.
pub struct Account {
    /// For each handle with a record, how often it had been registered
    /// before its current registration.
    pub generations: Map<Handle, nat>,
    /// The native destroy calls in order, each with the registration that
    /// it was handed out for.
    pub calls: Seq<Life>,
    /// For each registration that has ended, the registration whose native
    /// destroy call freed it: itself, or the root at the top of its subtree.
    pub releasers: Map<Life, Life>,
}

/// The current registration of `h`.
pub open spec fn current(account: Account, h: Handle) -> Life {
    (h, account.generations[h])
}

/// The account after an attempt to register `h`: on success a registration
/// of `h` begins, the first one or the one after the last.
pub open spec fn account_after_register(m: Records, account: Account, h: Handle) -> Account {
    if register_outcome(m, h).is_ok() {
        Account {
            generations: account.generations.insert(
                h,
                if m.contains_key(h) {
                    account.generations[h] + 1
                } else {
                    0
                },
            ),
            calls: account.calls,
            releasers: account.releasers,
        }
    } else {
        account
    }
}

/// The registration `k` is the current one of a member of the subtree of
/// `h`, and so ends when `h` is destroyed.
pub open spec fn ends_with(m: Records, account: Account, k: Life, h: Handle) -> bool {
    m.contains_key(k.0) && in_subtree(m, k.0, h) && k.1 == account.generations[k.0]
}

/// The account after an attempt to destroy `h`: on success one native
/// destroy call is added, for the current registration of `h`, and it frees
/// the current registration of every member of the subtree.
pub open spec fn account_after_destroy(m: Records, account: Account, h: Handle) -> Account {
    if destroy_outcome(m, h).is_ok() {
        Account {
            generations: account.generations,
            calls: account.calls.push(current(account, h)),
            releasers: Map::new(
                |k: Life| account.releasers.contains_key(k) || ends_with(m, account, k, h),
                |k: Life|
                    if ends_with(m, account, k, h) {
                        current(account, h)
                    } else {
                        account.releasers[k]
                    },
            ),
        }
    } else {
        account
    }
}

/// The current registrations of the given handles, in order.
pub open spec fn current_each(account: Account, handles: Seq<Handle>) -> Seq<Life> {
    handles.map_values(|h: Handle| current(account, h))
}

/// The closures of the controls that are alive.
pub open spec fn handlers_of_live<F>(m: Records, handlers: Handlers<F>) -> Handlers<F> {
    Map::new(
        |k: (Handle, EventKind)| handlers.contains_key(k) && is_live(m, k.0),
        |k: (Handle, EventKind)| handlers[k],
    )
}

/// The native destroy calls for the given handles, one each and in order.
pub open spec fn destroy_each(handles: Seq<Handle>) -> Seq<NativeCall> {
    handles.map_values(|h: Handle| NativeCall::Destroy(h))
}

/// Which registration freed which, after a teardown: the current
/// registration of a control that was alive was freed by that of the root at
/// the top of its subtree, and for the others nothing changed.
pub open spec fn teardown_releasers(m: Records, before: Account, after: Account) -> bool {
    forall|k: Life| #[trigger]
        after.releasers.contains_key(k) ==> if is_live(m, k.0) && k == current(before, k.0) {
            is_root(m, after.releasers[k].0) && after.releasers[k] == current(
                before,
                after.releasers[k].0,
            ) && in_subtree(m, k.0, after.releasers[k].0)
        } else {
            before.releasers.contains_key(k) && after.releasers[k] == before.releasers[k]
        }
}

/// How often the registration `k` occurs in `calls`.
pub open spec fn occurrences(calls: Seq<Life>, k: Life) -> nat
    decreases calls.len(),
{
    if calls.len() == 0 {
        0
    } else {
        occurrences(calls.drop_last(), k) + if calls.last() == k {
            1nat
        } else {
            0nat
        }
    }
}

/// `h` is one of the first `j` handles of `released`.
spec fn among(released: Seq<Handle>, j: int, h: Handle) -> bool {
    exists|i: int| 0 <= i < j && i < released.len() && released[i] == h
}

/// The closures that remain when those of the first `j` handles of
/// `released` are removed.
spec fn without_first<F>(handlers: Handlers<F>, released: Seq<Handle>, j: int) -> Handlers<F> {
    Map::new(
        |k: (Handle, EventKind)| handlers.contains_key(k) && !among(released, j, k.0),
        |k: (Handle, EventKind)| handlers[k],
    )
}

proof fn lemma_occurrences_push(calls: Seq<Life>, x: Life, k: Life)
    ensures
        occurrences(calls.push(x), k) == occurrences(calls, k) + if x == k {
            1nat
        } else {
            0nat
        },
{
    assert(calls.push(x).drop_last() =~= calls);
}

/// The account is in order. The handles with a generation are those with a
/// record. The registrations that have ended are the earlier ones of each
/// handle, and the current one where the handle is destroyed. The releaser
/// of a registration is a registration that released itself. And a
/// registration was given one native destroy call if it released itself,
/// and none otherwise.
pub open spec fn released_once(m: Records, account: Account) -> bool {
    &&& forall|h: Handle| #[trigger] account.generations.contains_key(h) <==> m.contains_key(h)
    &&& forall|k: Life| #[trigger]
        account.releasers.contains_key(k) <==> (m.contains_key(k.0) && (k.1
            < account.generations[k.0] || (k.1 == account.generations[k.0] && m[k.0]
            == Ownership::Destroyed)))
    &&& forall|k: Life| #[trigger]
        account.releasers.contains_key(k) ==> account.releasers.contains_key(account.releasers[k])
            && account.releasers[account.releasers[k]] == account.releasers[k]
    &&& forall|k: Life| #[trigger]
        occurrences(account.calls, k) == if account.releasers.contains_key(k)
            && account.releasers[k] == k {
            1nat
        } else {
            0nat
        }
}

/// The account of a coordinator that knows no handle.
pub open spec fn empty_account() -> Account {
    Account { generations: Map::empty(), calls: Seq::empty(), releasers: Map::empty() }
}

/// Where nothing was ever registered, the account is in order.
pub proof fn lemma_account_starts()
    ensures
        released_once(Map::empty(), empty_account()),
{
}

/// An attempt to register `h`, refused or not, leaves the account in order.
/// Where it succeeds, the registration that begins has been given no native
/// destroy call, whatever was done to the handle before.
pub proof fn lemma_account_after_register(m: Records, account: Account, h: Handle)
    requires
        released_once(m, account),
    ensures
        released_once(after_register(m, h), account_after_register(m, account, h)),
        register_outcome(m, h).is_ok() ==> occurrences(
            account.calls,
            current(account_after_register(m, account, h), h),
        ) == 0,
{
}

/// Attaching destroys nothing, so it leaves the account in order.
pub proof fn lemma_account_after_attach(m: Records, account: Account, child: Handle, parent: Handle)
    requires
        released_once(m, account),
    ensures
        released_once(after_attach(m, child, parent), account),
{
}

/// An attempt to destroy `h`, refused or not, leaves the account in order.
pub proof fn lemma_account_after_destroy(m: Records, account: Account, h: Handle)
    requires
        released_once(m, account),
    ensures
        released_once(after_destroy(m, h), account_after_destroy(m, account, h)),
{
    if destroy_outcome(m, h).is_ok() {
        let after = account_after_destroy(m, account, h);
        assert forall|k: Handle| m.contains_key(k) && in_subtree(m, k, h) implies is_live(
            m,
            k,
        ) by {
            lemma_subtree_live(m, k, h);
        }
        assert(ends_with(m, account, current(account, h), h));
        assert forall|k: Life| #[trigger]
            occurrences(after.calls, k) == if after.releasers.contains_key(k)
                && after.releasers[k] == k {
                1nat
            } else {
                0nat
            } by {
            lemma_occurrences_push(account.calls, current(account, h), k);
        }
        assert forall|k: Life| #[trigger]
            after.releasers.contains_key(k) implies after.releasers.contains_key(
            after.releasers[k],
        ) && after.releasers[after.releasers[k]] == after.releasers[k] by {
            if !ends_with(m, account, k, h) {
                assert(account.releasers.contains_key(account.releasers[k]));
            }
        }
    }
}

/// With the account in order, no registration was given more than one
/// native destroy call. The current registration of a live handle was given
/// none. And every registration that has ended was freed by exactly one
/// native destroy call: its own, or that of the root at the top of its
/// subtree.
pub proof fn lemma_released_once(m: Records, account: Account, k: Life)
    requires
        released_once(m, account),
    ensures
        occurrences(account.calls, k) <= 1,
        occurrences(account.calls, k) == 1 ==> account.releasers.contains_key(k)
            && account.releasers[k] == k,
        is_live(m, k.0) && k == current(account, k.0) ==> occurrences(account.calls, k) == 0,
        m.contains_key(k.0) && m[k.0] == Ownership::Destroyed && k == current(account, k.0)
            ==> account.releasers.contains_key(k),
        account.releasers.contains_key(k) ==> occurrences(account.calls, account.releasers[k])
            == 1,
{
    assert(occurrences(account.calls, k) <= 1);
    if account.releasers.contains_key(k) {
        let r = account.releasers[k];
        assert(account.releasers.contains_key(r));
        assert(occurrences(account.calls, r) == 1);
    }
}

/// The ownership records and the closures of one toolkit instance.
pub struct Coordinator<F> {
    tracker: OwnershipTracker,
    registry: CallbackRegistry<F>,
    ledger: Ghost<Account>,
}

impl<F: Fn(EventArgs) -> bool> Coordinator<F> {
    /// The ownership record of every handle that was ever registered.
    pub closed spec fn owners(&self) -> Records {
        self.tracker@
    }

    /// The registered closures.
    pub closed spec fn handlers(&self) -> Handlers<F> {
        self.registry@
    }

    /// The account of the registrations and of the native destroy calls
    /// that were handed out.
    pub closed spec fn account(&self) -> Account {
        self.ledger@
    }

    /// The coordinator's invariant.
    pub closed spec fn wf(&self) -> bool {
        &&& self.tracker.wf()
        &&& self.registry.wf()
        &&& forall|k: (Handle, EventKind)| #[trigger]
            self.registry@.contains_key(k) ==> is_live(self.tracker@, k.0)
        &&& released_once(self.tracker@, self.ledger@)
    }

    /// A coordinator that knows no handle.
    pub fn new() -> (core: Coordinator<F>)
        ensures
            core.wf(),
            core.owners() == Map::<Handle, Ownership>::empty(),
            core.handlers() == Map::<(Handle, EventKind), F>::empty(),
            core.account() == empty_account(),
    {
        Coordinator {
            tracker: OwnershipTracker::new(),
            registry: CallbackRegistry::new(),
            ledger: Ghost(empty_account()),
        }
    }

    /// The state of `h`, if it was ever registered.
    pub fn state_of(&self, h: Handle) -> (state: Option<Ownership>)
        requires
            self.wf(),
        ensures
            state == (if self.owners().contains_key(h) {
                Some(self.owners()[h])
            } else {
                None
            }),
    {
        self.tracker.state_of(h)
    }

    /// Whether a native call may be made on `h`: only while it is alive.
    pub fn access(&self, h: Handle) -> (outcome: Result<(), CoreError>)
        requires
            self.wf(),
        ensures
            outcome == access_outcome(self.owners(), h),
    {
        if self.tracker.is_alive(h) {
            Ok(())
        } else {
            Err(CoreError::UseAfterDestroy)
        }
    }

    /// Takes charge of a control that the toolkit has just created. `handle`
    /// is what the toolkit returned for a control of kind `kind`. The null
    /// handle means that the toolkit could not allocate it, and a handle that
    /// is alive cannot have been issued again. Otherwise the handle is
    /// registered as a root and wrapped with its tag. Where a control with
    /// that handle was destroyed before, the toolkit uses the address again,
    /// and the new control starts with no closure and no destroy call.
    pub fn create(&mut self, kind: Kind, handle: Handle) -> (outcome: Result<
        TypedWrapper,
        CoreError,
    >)
        requires
            old(self).wf(),
        ensures
            final(self).wf(),
            final(self).owners() == after_register(old(self).owners(), handle),
            final(self).handlers() == old(self).handlers(),
            final(self).account() == account_after_register(
                old(self).owners(),
                old(self).account(),
                handle,
            ),
            outcome.is_ok() ==> forall|event: EventKind|
                !final(self).handlers().contains_key((handle, event)),
            match outcome {
                Ok(wrapper) => register_outcome(old(self).owners(), handle).is_ok()
                    && wrapper.handle() == handle && wrapper.kind() == kind,
                Err(e) => register_outcome(old(self).owners(), handle) == Err::<(), CoreError>(e),
            },
    {
        proof {
            lemma_account_after_register(self.tracker@, self.ledger@, handle);
            self.ledger@ = account_after_register(self.tracker@, self.ledger@, handle);
        }
        match self.tracker.register_root(handle) {
            Ok(()) => Ok(TypedWrapper::wrap(handle, kind)),
            Err(e) => Err(e),
        }
    }

    /// Makes `container` the owner of the root `child`. On success the caller
    /// has to tell the toolkit.
    pub fn attach(&mut self, container: Handle, child: Handle) -> (outcome: Result<
        NativeCall,
        CoreError,
    >)
        requires
            old(self).wf(),
        ensures
            final(self).wf(),
            final(self).owners() == after_attach(old(self).owners(), child, container),
            final(self).handlers() == old(self).handlers(),
            final(self).account() == old(self).account(),
            outcome == (match attach_outcome(old(self).owners(), child, container) {
                Ok(_) => Ok(NativeCall::Reparent { child, parent: container }),
                Err(e) => Err(e),
            }),
    {
        match self.tracker.attach(child, container) {
            Ok(()) => Ok(NativeCall::Reparent { child, parent: container }),
            Err(e) => Err(e),
        }
    }

    /// Stores `closure` as the answer to events of kind `event` on `h`,
    /// in place of the closure that was stored for them before, if any.
    pub fn register(&mut self, h: Handle, event: EventKind, closure: F) -> (outcome: Result<
        TrampolineHandle,
        CoreError,
    >)
        requires
            old(self).wf(),
            accepts_all(closure),
        ensures
            final(self).wf(),
            final(self).owners() == old(self).owners(),
            final(self).handlers() == handlers_after_register(
                old(self).owners(),
                old(self).handlers(),
                h,
                event,
                closure,
            ),
            final(self).account() == old(self).account(),
            outcome == (match access_outcome(old(self).owners(), h) {
                Ok(_) => Ok(TrampolineHandle { handle: h, event }),
                Err(e) => Err(e),
            }),
    {
        if !self.tracker.is_alive(h) {
            return Err(CoreError::UseAfterDestroy);
        }
        let trampoline = self.registry.register(h, event, closure);
        Ok(trampoline)
    }

    /// Drops every closure of `h`, whatever the state of `h` is.
    pub fn purge(&mut self, h: Handle)
        requires
            old(self).wf(),
        ensures
            final(self).wf(),
            final(self).owners() == old(self).owners(),
            final(self).handlers() == purged(old(self).handlers(), h),
            final(self).account() == old(self).account(),
    {
        self.registry.purge(h);
    }

    /// Whether a closure is registered for events of kind `event` on `h`.
    pub fn is_registered(&self, h: Handle, event: EventKind) -> (present: bool)
        requires
            self.wf(),
        ensures
            present == self.handlers().contains_key((h, event)),
    {
        self.registry.is_registered(h, event)
    }

    /// Answers an event that the toolkit delivered through a trampoline. The
    /// closure registered for the control and the event is called once, with
    /// `value` as the payload, and its answer is returned. Where the control
    /// is not alive or nothing is registered, no closure is called and the
    /// event is allowed.
    pub fn invoke(&self, h: Handle, event: EventKind, value: i64) -> (verdict: bool)
        requires
            self.wf(),
        ensures
            match handler_for(self.owners(), self.handlers(), h, event) {
                Some(f) => call_ensures(f, (EventArgs { handle: h, alive: true, value },), verdict),
                None => verdict == ALLOW,
            },
    {
        if !self.tracker.is_alive(h) {
            return ALLOW;
        }
        match self.registry.dispatch(h, event, EventArgs { handle: h, alive: true, value }) {
            Some(verdict) => verdict,
            None => ALLOW,
        }
    }

    /// Destroys the root `h`: drops the closures of `h` and of everything
    /// below it, marks all of them destroyed, and returns the one native
    /// call that frees them. The coordinator is borrowed for the whole of
    /// it, so no event can be answered between the steps.
    pub fn destroy(&mut self, h: Handle) -> (outcome: Result<NativeCall, CoreError>)
        requires
            old(self).wf(),
        ensures
            final(self).wf(),
            final(self).owners() == after_destroy(old(self).owners(), h),
            final(self).handlers() == handlers_after_destroy(
                old(self).owners(),
                old(self).handlers(),
                h,
            ),
            outcome == (match destroy_outcome(old(self).owners(), h) {
                Ok(_) => Ok(NativeCall::Destroy(h)),
                Err(e) => Err(e),
            }),
            final(self).account() == account_after_destroy(
                old(self).owners(),
                old(self).account(),
                h,
            ),
    {
        let ghost owners = self.tracker@;
        let ghost handlers = self.registry@;
        let released = match self.tracker.destroy_root(h) {
            Ok(released) => released,
            Err(e) => {
                return Err(e);
            },
        };
        let mut j: usize = 0;
        while j < released.len()
            invariant
                old(self).wf(),
                owners == old(self).tracker@,
                handlers == old(self).registry@,
                destroy_outcome(owners, h).is_ok(),
                self.tracker.wf(),
                self.tracker@ == after_destroy(owners, h),
                self.ledger@ == old(self).ledger@,
                released@.len() > 0,
                released@[0] == h,
                forall|k: Handle|
                    released@.contains(k) <==> (owners.contains_key(k) && in_subtree(owners, k, h)),
                j <= released@.len(),
                self.registry.wf(),
                self.registry@ == without_first(handlers, released@, j as int),
            decreases released@.len() - j,
        {
            self.registry.purge(released[j]);
            proof {
                assert forall|k: (Handle, EventKind)|
                    among(released@, j + 1, k.0) <==> among(released@, j as int, k.0) || k.0
                        == released@[j as int] by {
                    if among(released@, j + 1, k.0) {
                        let i = choose|i: int|
                            0 <= i < j + 1 && i < released@.len() && released@[i] == k.0;
                        if i < j {
                            assert(among(released@, j as int, k.0));
                        }
                    }
                    if among(released@, j as int, k.0) {
                        let i = choose|i: int|
                            0 <= i < j && i < released@.len() && released@[i] == k.0;
                        assert(0 <= i < j + 1 && released@[i] == k.0);
                    }
                }
                assert(self.registry@ =~= without_first(handlers, released@, j + 1));
            }
            j += 1;
        }
        proof {
            lemma_account_after_destroy(owners, self.ledger@, h);
            self.ledger@ = account_after_destroy(owners, self.ledger@, h);
            assert forall|k: (Handle, EventKind)| #[trigger]
                self.registry@.contains_key(k) <==> handlers.contains_key(k) && !in_subtree(
                    owners,
                    k.0,
                    h,
                ) by {
                if handlers.contains_key(k) {
                    assert(is_live(owners, k.0));
                    assert(among(released@, j as int, k.0) <==> released@.contains(k.0));
                }
            }
            assert(self.registry@ =~= without_subtree(owners, handlers, h));
            assert forall|k: (Handle, EventKind)| #[trigger]
                self.registry@.contains_key(k) implies is_live(self.tracker@, k.0) by {
                assert(is_live(owners, k.0));
            }
        }
        Ok(NativeCall::Destroy(h))
    }

    /// The handles of all roots, each once.
    pub fn roots(&self) -> (handles: Vec<Handle>)
        requires
            self.wf(),
        ensures
            handles@.no_duplicates(),
            forall|h: Handle| handles@.contains(h) <==> is_root(self.owners(), h),
    {
        self.tracker.roots()
    }

    /// Destroys every root that is left, and with each all that is attached
    /// to it. Returns the native destroy calls, one per root.
    pub fn teardown(&mut self) -> (calls: Vec<NativeCall>)
        requires
            old(self).wf(),
        ensures
            final(self).wf(),
            final(self).owners() == torn_down(old(self).owners()),
            final(self).handlers() == handlers_of_live(final(self).owners(), old(self).handlers()),
            exists|roots: Seq<Handle>|
                {
                    &&& roots.no_duplicates()
                    &&& forall|r: Handle| roots.contains(r) <==> is_root(old(self).owners(), r)
                    &&& #[trigger] destroy_each(roots) == calls@
                    &&& final(self).account().calls == old(self).account().calls + current_each(
                        old(self).account(),
                        roots,
                    )
                },
            final(self).account().generations == old(self).account().generations,
            teardown_releasers(old(self).owners(), old(self).account(), final(self).account()),
    {
        let roots = self.tracker.roots();
        let ghost owners = self.tracker@;
        let ghost handlers = self.registry@;
        let mut calls: Vec<NativeCall> = Vec::new();
        let mut i: usize = 0;
        proof {
            lemma_sweep_ends(owners, roots@);
            assert(self.registry@ =~= handlers_of_live(owners, handlers));
            assert(self.ledger@.calls =~= old(self).ledger@.calls + current_each(
                old(self).ledger@,
                roots@.take(0),
            ));
        }
        while i < roots.len()
            invariant
                old(self).wf(),
                owners == old(self).tracker@,
                handlers == old(self).registry@,
                self.wf(),
                roots@.no_duplicates(),
                forall|r: Handle| roots@.contains(r) <==> is_root(owners, r),
                i <= roots@.len(),
                self.tracker@ == sweep(owners, roots@, i as int),
                self.registry@ == handlers_of_live(self.tracker@, handlers),
                self.ledger@.generations == old(self).ledger@.generations,
                self.ledger@.calls == old(self).ledger@.calls + current_each(
                    old(self).ledger@,
                    roots@.take(i as int),
                ),
                calls@ == destroy_each(roots@.take(i as int)),
                teardown_releasers(owners, old(self).ledger@, self.ledger@),
            decreases roots@.len() - i,
        {
            let r = roots[i];
            let ghost now = self.tracker@;
            let ghost kept = self.registry@;
            let ghost freed = self.ledger@;
            proof {
                assert forall|j: int| 0 <= j < roots@.len() implies is_root(
                    owners,
                    #[trigger] roots@[j],
                ) by {
                    assert(roots@.contains(roots@[j]));
                }
                lemma_sweep_step(owners, roots@, i as int);
            }
            if let Ok(call) = self.destroy(r) {
                calls.push(call);
            }
            proof {
                assert(self.registry@ =~= handlers_of_live(self.tracker@, handlers));
                assert(roots@.take(i + 1) =~= roots@.take(i as int).push(r));
                assert(calls@ =~= destroy_each(roots@.take(i + 1)));
                let start = old(self).ledger@;
                assert(self.ledger@.calls =~= start.calls + current_each(start, roots@.take(i + 1)));
                assert forall|k: Life| #[trigger]
                    self.ledger@.releasers.contains_key(k) implies if is_live(owners, k.0) && k
                    == current(start, k.0) {
                    is_root(owners, self.ledger@.releasers[k].0) && self.ledger@.releasers[k]
                        == current(start, self.ledger@.releasers[k].0) && in_subtree(
                        owners,
                        k.0,
                        self.ledger@.releasers[k].0,
                    )
                } else {
                    start.releasers.contains_key(k) && self.ledger@.releasers[k]
                        == start.releasers[k]
                } by {
                    if ends_with(now, freed, k, r) {
                        assert(in_subtree(owners, k.0, r));
                        lemma_subtree_live(owners, k.0, r);
                    } else {
                        assert(freed.releasers.contains_key(k));
                    }
                }
            }
            i += 1;
        }
        proof {
            assert(roots@.take(roots@.len() as int) =~= roots@);
        }
        calls
    }

    /// In every state that the coordinator reaches, the account of the
    /// native destroy calls is in order.
    pub proof fn lemma_account(&self)
        requires
            self.wf(),
        ensures
            released_once(self.owners(), self.account()),
    {
    }

    /// The null handle never has a record, and the container of a live
    /// control is alive.
    pub proof fn lemma_records_sound(&self)
        requires
            self.wf(),
        ensures
            !self.owners().contains_key(NULL_HANDLE),
            parents_live(self.owners()),
    {
        self.tracker.lemma_parents_live();
    }

    /// A closure is only ever kept for a control that is alive.
    pub proof fn lemma_handlers_live(&self, key: (Handle, EventKind))
        requires
            self.wf(),
            self.handlers().contains_key(key),
        ensures
            is_live(self.owners(), key.0),
            accepts_all(self.handlers()[key]),
    {
        self.registry.lemma_callable(key);
    }
}

} // verus!
