//! What holds of the operations taken together.
//!
//! Each operation of the coordinator is described by functions on the
//! ownership records and the registered closures. The statements here are
//! about those functions, and so about every state that the operations can
//! reach.

use vstd::prelude::*;
use crate::callbacks::Handlers;
use crate::error::CoreError;
use crate::kind::{EventKind, Handle, NULL_HANDLE};
use crate::lifecycle::{
    access_outcome,
    handler_for,
    handlers_after_destroy,
    handlers_after_register,
};
use crate::records::{
    after_attach,
    after_destroy,
    after_register,
    attach_outcome,
    destroy_outcome,
    in_subtree,
    is_child,
    is_descendant,
    is_live,
    is_root,
    lemma_descendant_has_parent,
    lemma_descendant_reaches_child,
    parents_live,
    register_outcome,
    torn_down,
    Ownership,
    Records,
};

verus! {

/// A root can be attached once. The first attach, to a live container,
/// succeeds. Every later attach of the same control is refused as already
/// parented, whatever container it names.
pub proof fn lemma_attach_twice(m: Records, child: Handle, first: Handle, second: Handle)
    requires
        is_root(m, child),
        is_live(m, first),
    ensures
        attach_outcome(m, child, first) == Ok::<(), CoreError>(()),
        after_attach(m, child, first)[child] == Ownership::ParentOwned(first),
        attach_outcome(after_attach(m, child, first), child, second) == Err::<(), CoreError>(
            CoreError::AlreadyParented,
        ),
        after_attach(after_attach(m, child, first), child, second) == after_attach(m, child, first),
{
}

/// A control that belongs to a container cannot be destroyed by its holder,
/// and the refused attempt changes nothing.
pub proof fn lemma_destroy_needs_owner(m: Records, child: Handle, parent: Handle)
    requires
        m.contains_key(child),
        m[child] == Ownership::ParentOwned(parent),
    ensures
        destroy_outcome(m, child) == Err::<(), CoreError>(CoreError::NotOwner),
        after_destroy(m, child) == m,
{
}

/// Destroying a root succeeds, and afterwards every operation on the root
/// or on a control that was attached to it, directly or through other
/// containers, is refused as a use after destruction.
pub proof fn lemma_destroy_through_root(m: Records, k: Handle, root: Handle)
    requires
        is_root(m, root),
        in_subtree(m, k, root),
    ensures
        destroy_outcome(m, root) == Ok::<(), CoreError>(()),
        !is_live(after_destroy(m, root), k),
        access_outcome(after_destroy(m, root), k) == Err::<(), CoreError>(
            CoreError::UseAfterDestroy,
        ),
        destroy_outcome(after_destroy(m, root), k) == Err::<(), CoreError>(
            CoreError::UseAfterDestroy,
        ),
        forall|container: Handle| #[trigger]
            attach_outcome(after_destroy(m, root), k, container) == Err::<(), CoreError>(
                CoreError::UseAfterDestroy,
            ),
        forall|child: Handle|
            is_root(after_destroy(m, root), child) ==> #[trigger] attach_outcome(
                after_destroy(m, root),
                child,
                k,
            ) == Err::<(), CoreError>(CoreError::UseAfterDestroy),
{
    if k != root {
        lemma_descendant_has_parent(m, k, root);
    }
}

/// Destruction is final: a destroyed control stays destroyed through every
/// later attach, destroy and teardown. Its handle is of use again only when
/// the toolkit issues it for a new control.
pub proof fn lemma_destroyed_stays(m: Records, k: Handle, a: Handle, b: Handle)
    requires
        m.contains_key(k),
        m[k] == Ownership::Destroyed,
    ensures
        after_attach(m, a, b)[k] == Ownership::Destroyed,
        after_destroy(m, a)[k] == Ownership::Destroyed,
        torn_down(m)[k] == Ownership::Destroyed,
{
}

/// A handle that is not alive, and not the null handle, can be registered:
/// one without a record, and one that the toolkit issues again after its
/// control was destroyed. It is then a root to which nothing is attached,
/// and every other handle is as it was.
pub proof fn lemma_issued_handle_is_root(m: Records, h: Handle, other: Handle)
    requires
        parents_live(m),
        h != NULL_HANDLE,
        !is_live(m, h),
    ensures
        register_outcome(m, h) == Ok::<(), CoreError>(()),
        is_root(after_register(m, h), h),
        !is_descendant(after_register(m, h), other, h),
        other != h ==> after_register(m, h).contains_key(other) == m.contains_key(other)
            && after_register(m, h)[other] == m[other],
{
    if is_descendant(after_register(m, h), other, h) {
        lemma_descendant_reaches_child(after_register(m, h), other, h);
        let k = choose|k: Handle| is_child(after_register(m, h), k, h);
        assert(is_child(m, k, h));
    }
}

/// The null handle and a live handle are refused, and the refusal changes
/// nothing.
pub proof fn lemma_register_refusals(m: Records, h: Handle)
    requires
        h == NULL_HANDLE || is_live(m, h),
    ensures
        register_outcome(m, h) == Err::<(), CoreError>(CoreError::AllocationFailed),
        after_register(m, h) == m,
{
}

/// Destroying a root leaves every control outside its subtree as it was.
pub proof fn lemma_destroy_is_local(m: Records, k: Handle, root: Handle)
    requires
        m.contains_key(k),
        !in_subtree(m, k, root),
    ensures
        after_destroy(m, root).contains_key(k),
        after_destroy(m, root)[k] == m[k],
{
}

/// Registering a second closure for the same control and event replaces the
/// first: the event is answered by the second closure, and the closures are
/// what they would be had the first never been registered.
pub proof fn lemma_register_replaces<F>(
    m: Records,
    handlers: Handlers<F>,
    h: Handle,
    event: EventKind,
    first: F,
    second: F,
)
    requires
        is_live(m, h),
    ensures
        handler_for(
            m,
            handlers_after_register(
                m,
                handlers_after_register(m, handlers, h, event, first),
                h,
                event,
                second,
            ),
            h,
            event,
        ) == Some(second),
        handlers_after_register(
            m,
            handlers_after_register(m, handlers, h, event, first),
            h,
            event,
            second,
        ) == handlers_after_register(m, handlers, h, event, second),
{
    assert(handlers.insert((h, event), first).insert((h, event), second) =~= handlers.insert(
        (h, event),
        second,
    ));
}

/// Registering a closure leaves the answer to every other event, and to the
/// events of every other control, as it was.
pub proof fn lemma_register_is_local<F>(
    m: Records,
    handlers: Handlers<F>,
    h: Handle,
    event: EventKind,
    closure: F,
    other: Handle,
    other_event: EventKind,
)
    requires
        other != h || other_event != event,
    ensures
        handler_for(m, handlers_after_register(m, handlers, h, event, closure), other, other_event)
            == handler_for(m, handlers, other, other_event),
{
}

/// Once a root is destroyed, no event of a control in its subtree is
/// answered by a closure: the closures that were registered for it are
/// gone, none can be registered for it any more, and a closure that were
/// still stored for it would not be called.
pub proof fn lemma_destroyed_is_silent<F>(
    m: Records,
    handlers: Handlers<F>,
    stale: Handlers<F>,
    root: Handle,
    k: Handle,
    event: EventKind,
    closure: F,
)
    requires
        is_root(m, root),
        in_subtree(m, k, root),
    ensures
        !handlers_after_destroy(m, handlers, root).contains_key((k, event)),
        handler_for(after_destroy(m, root), stale, k, event) == None::<F>,
        handlers_after_register(after_destroy(m, root), stale, k, event, closure) == stale,
{
    lemma_destroy_through_root(m, k, root);
}

/// Destroying a root leaves the closures of every control outside its
/// subtree in place.
pub proof fn lemma_destroy_keeps_others<F>(
    m: Records,
    handlers: Handlers<F>,
    root: Handle,
    k: Handle,
    event: EventKind,
)
    requires
        m.contains_key(k),
        !in_subtree(m, k, root),
    ensures
        handler_for(after_destroy(m, root), handlers_after_destroy(m, handlers, root), k, event)
            == handler_for(m, handlers, k, event),
{
}

/// After the teardown no root is left, and whatever was attached to a root
/// is destroyed with it.
pub proof fn lemma_teardown_leaves_no_root(m: Records, k: Handle, root: Handle)
    ensures
        !is_root(torn_down(m), k),
        is_root(m, root) && m.contains_key(k) && in_subtree(m, k, root) ==> torn_down(m)[k]
            == Ownership::Destroyed,
{
    if is_root(m, k) {
        assert(in_subtree(m, k, k));
    }
}

/// A descendant of a root is alive and belongs to a container.
pub proof fn lemma_descendant_is_owned(m: Records, k: Handle, root: Handle)
    requires
        is_descendant(m, k, root),
    ensures
        is_live(m, k),
        !is_root(m, k),
{
    lemma_descendant_has_parent(m, k, root);
}

} // verus!
