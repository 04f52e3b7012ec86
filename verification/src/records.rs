//! The ownership records as a map from handles to states, and what each
//! operation does to that map.

use vstd::prelude::*;
use crate::error::CoreError;
use crate::kind::{Handle, NULL_HANDLE};

verus! {


/// The ownership state of one handle.
#[derive(Clone, Copy, Debug, PartialEq, Eq, Structural)]
pub enum Ownership {
    /// Held by the host program, which is responsible for destroying it.
    Root,
    /// Attached to the container with the given handle, which will free it.
    ParentOwned(Handle),
    /// Freed. Nothing can be done with the handle until the toolkit issues
    /// it again for a new control.
    Destroyed,
}

/// The bookkeeping as a map: a handle without an entry was never registered.
pub type Records = Map<Handle, Ownership>;

/// The handle has a record and has not been destroyed.
pub open spec fn is_live(m: Records, h: Handle) -> bool {
    m.contains_key(h) && m[h] != Ownership::Destroyed
}

/// `k` is attached directly to `p`.
pub open spec fn is_child(m: Records, k: Handle, p: Handle) -> bool {
    m.contains_key(k) && m[k] == Ownership::ParentOwned(p)
}

/// Following the parent links from `d` arrives at `h` after at most `n`
/// intermediate containers.
pub open spec fn reaches(m: Records, d: Handle, h: Handle, n: nat) -> bool
    decreases n,
{
    m.contains_key(d) && match m[d] {
        Ownership::ParentOwned(p) => p == h || (n > 0 && reaches(m, p, h, (n - 1) as nat)),
        _ => false,
    }
}

/// `d` is attached to `h`, directly or through other containers.
pub open spec fn is_descendant(m: Records, d: Handle, h: Handle) -> bool {
    exists|n: nat| reaches(m, d, h, n)
}

/// `k` is `h` itself or one of its descendants.
pub open spec fn in_subtree(m: Records, k: Handle, h: Handle) -> bool {
    k == h || is_descendant(m, k, h)
}

/// Every control that is attached to a container has a container that is
/// still alive.
pub open spec fn parents_live(m: Records) -> bool {
    forall|k: Handle, p: Handle| #[trigger] is_child(m, k, p) ==> is_live(m, p)
}

/// Whether a handle that the toolkit has just issued can be registered. The
/// null handle stands for a failed allocation. A handle that is alive cannot
/// have been issued again. A handle without a record is new, and one whose
/// control was destroyed is an address that the toolkit uses again.
pub open spec fn register_outcome(m: Records, h: Handle) -> Result<(), CoreError> {
    if h == NULL_HANDLE || is_live(m, h) {
        Err(CoreError::AllocationFailed)
    } else {
        Ok(())
    }
}

/// The records after an attempt to register `h`: on success `h` is a root,
/// in place of the tombstone if it had one.
pub open spec fn after_register(m: Records, h: Handle) -> Records {
    if register_outcome(m, h).is_ok() {
        m.insert(h, Ownership::Root)
    } else {
        m
    }
}

/// Whether `child` can be attached to `parent`.
pub open spec fn attach_outcome(m: Records, child: Handle, parent: Handle) -> Result<
    (),
    CoreError,
> {
    if !is_live(m, child) {
        Err(CoreError::UseAfterDestroy)
    } else if m[child] != Ownership::Root {
        Err(CoreError::AlreadyParented)
    } else if !is_live(m, parent) {
        Err(CoreError::UseAfterDestroy)
    } else {
        Ok(())
    }
}

/// The records after an attempt to attach `child` to `parent`.
pub open spec fn after_attach(m: Records, child: Handle, parent: Handle) -> Records {
    if attach_outcome(m, child, parent).is_ok() {
        m.insert(child, Ownership::ParentOwned(parent))
    } else {
        m
    }
}

/// Whether `h` can be destroyed by its holder.
pub open spec fn destroy_outcome(m: Records, h: Handle) -> Result<(), CoreError> {
    if !is_live(m, h) {
        Err(CoreError::UseAfterDestroy)
    } else if m[h] != Ownership::Root {
        Err(CoreError::NotOwner)
    } else {
        Ok(())
    }
}

/// The records once the toolkit has freed `h` and everything below it.
pub open spec fn cascade(m: Records, h: Handle) -> Records {
    Map::new(
        |k: Handle| m.contains_key(k),
        |k: Handle|
            if in_subtree(m, k, h) {
                Ownership::Destroyed
            } else {
                m[k]
            },
    )
}

/// The records after an attempt to destroy `h`.
pub open spec fn after_destroy(m: Records, h: Handle) -> Records {
    if destroy_outcome(m, h).is_ok() {
        cascade(m, h)
    } else {
        m
    }
}

/// `k` was alive in `before` and is destroyed in `now`.
pub open spec fn newly_destroyed(before: Records, now: Records, k: Handle) -> bool {
    is_live(before, k) && now.contains_key(k) && now[k] == Ownership::Destroyed
}

/// A control attached directly to a member of the subtree of `h` is a
/// descendant of `h`.
pub proof fn lemma_child_of_subtree(m: Records, k: Handle, p: Handle, h: Handle)
    requires
        is_child(m, k, p),
        in_subtree(m, p, h),
    ensures
        is_descendant(m, k, h),
{
    if p == h {
        assert(reaches(m, k, h, 0));
    } else {
        let n = choose|n: nat| reaches(m, p, h, n);
        assert(reaches(m, k, h, n + 1));
    }
}

/// A descendant is attached to a member of the subtree.
pub proof fn lemma_descendant_has_parent(m: Records, k: Handle, h: Handle)
    requires
        is_descendant(m, k, h),
    ensures
        exists|p: Handle| #[trigger] is_child(m, k, p) && in_subtree(m, p, h),
{
    let n = choose|n: nat| reaches(m, k, h, n);
    match m[k] {
        Ownership::ParentOwned(p) => {
            assert(is_child(m, k, p));
            if p != h {
                assert(reaches(m, p, h, (n - 1) as nat));
            }
        },
        _ => {},
    }
}

/// Whatever has a descendant has a control attached directly to it.
pub proof fn lemma_descendant_reaches_child(m: Records, d: Handle, h: Handle)
    requires
        is_descendant(m, d, h),
    ensures
        exists|k: Handle| is_child(m, k, h),
{
    let n = choose|n: nat| reaches(m, d, h, n);
    lemma_reaches_child(m, d, h, n);
}

proof fn lemma_reaches_child(m: Records, d: Handle, h: Handle, n: nat)
    requires
        reaches(m, d, h, n),
    ensures
        exists|k: Handle| is_child(m, k, h),
    decreases n,
{
    match m[d] {
        Ownership::ParentOwned(p) => {
            if p == h {
                assert(is_child(m, d, h));
            } else {
                lemma_reaches_child(m, p, h, (n - 1) as nat);
            }
        },
        _ => {},
    }
}

/// The members of the subtree of a live control are alive.
pub proof fn lemma_subtree_live(m: Records, k: Handle, h: Handle)
    requires
        is_live(m, h),
        in_subtree(m, k, h),
    ensures
        is_live(m, k),
{
    if k != h {
        lemma_descendant_has_parent(m, k, h);
    }
}

/// `r` is a root.
pub open spec fn is_root(m: Records, r: Handle) -> bool {
    m.contains_key(r) && m[r] == Ownership::Root
}

/// `k` is a root or is attached, directly or through other containers, to
/// one.
pub open spec fn under_root(m: Records, k: Handle) -> bool {
    exists|r: Handle| is_root(m, r) && in_subtree(m, k, r)
}

/// The records once every root has been destroyed.
pub open spec fn torn_down(m: Records) -> Records {
    Map::new(
        |k: Handle| m.contains_key(k),
        |k: Handle|
            if under_root(m, k) {
                Ownership::Destroyed
            } else {
                m[k]
            },
    )
}

/// The parent links from one control lead to at most one root.
pub proof fn lemma_one_root(m: Records, c: Handle, r1: Handle, r2: Handle, n1: nat, n2: nat)
    requires
        is_root(m, r1),
        is_root(m, r2),
        reaches(m, c, r1, n1),
        reaches(m, c, r2, n2),
    ensures
        r1 == r2,
    decreases n1,
{
    match m[c] {
        Ownership::ParentOwned(p) => {
            if p != r1 && p != r2 {
                lemma_one_root(m, p, r1, r2, (n1 - 1) as nat, (n2 - 1) as nat);
            } else if p != r2 {
                assert(reaches(m, p, r2, (n2 - 1) as nat));
            } else if p != r1 {
                assert(reaches(m, p, r1, (n1 - 1) as nat));
            }
        },
        _ => {},
    }
}

/// A chain of parent links that exists after some controls were destroyed
/// existed before.
pub proof fn lemma_reaches_before(before: Records, now: Records, k: Handle, r: Handle, n: nat)
    requires
        forall|c: Handle| #[trigger]
            now.contains_key(c) ==> before.contains_key(c) && (now[c] == before[c] || now[c]
                == Ownership::Destroyed),
        reaches(now, k, r, n),
    ensures
        reaches(before, k, r, n),
    decreases n,
{
    match now[k] {
        Ownership::ParentOwned(p) => {
            if p != r {
                lemma_reaches_before(before, now, p, r, (n - 1) as nat);
            }
        },
        _ => {},
    }
}

/// A chain of parent links to the root `r` is still there after controls
/// under other roots were destroyed.
pub proof fn lemma_reaches_after(before: Records, now: Records, k: Handle, r: Handle, n: nat)
    requires
        is_root(before, r),
        forall|c: Handle| #[trigger]
            before.contains_key(c) ==> now.contains_key(c) && (now[c] == before[c] || exists|
                other: Handle,
            |
                other != r && is_root(before, other) && in_subtree(before, c, other)),
        reaches(before, k, r, n),
    ensures
        reaches(now, k, r, n),
    decreases n,
{
    match before[k] {
        Ownership::ParentOwned(p) => {
            if now[k] != before[k] {
                let other = choose|other: Handle|
                    other != r && is_root(before, other) && in_subtree(before, k, other);
                let n2 = choose|n2: nat| reaches(before, k, other, n2);
                lemma_one_root(before, k, r, other, n, n2);
            }
            if p != r {
                lemma_reaches_after(before, now, p, r, (n - 1) as nat);
            }
        },
        _ => {},
    }
}

/// `k` belongs to the subtree of one of the first `i` handles of `roots`.
pub open spec fn swept(m: Records, roots: Seq<Handle>, i: int, k: Handle) -> bool {
    exists|j: int| 0 <= j < i && j < roots.len() && in_subtree(m, k, #[trigger] roots[j])
}

/// The records once the first `i` handles of `roots` have been destroyed.
pub open spec fn sweep(m: Records, roots: Seq<Handle>, i: int) -> Records {
    Map::new(
        |k: Handle| m.contains_key(k),
        |k: Handle|
            if swept(m, roots, i, k) {
                Ownership::Destroyed
            } else {
                m[k]
            },
    )
}

/// Destroying the roots one after the other: the next root is still a root,
/// its subtree is what it was at the start, and destroying it sweeps one
/// root more.
pub proof fn lemma_sweep_step(m: Records, roots: Seq<Handle>, i: int)
    requires
        0 <= i < roots.len(),
        roots.no_duplicates(),
        forall|j: int| 0 <= j < roots.len() ==> is_root(m, #[trigger] roots[j]),
    ensures
        is_root(sweep(m, roots, i), roots[i]),
        cascade(sweep(m, roots, i), roots[i]) == sweep(m, roots, i + 1),
        forall|k: Handle|
            in_subtree(sweep(m, roots, i), k, roots[i]) <==> #[trigger] in_subtree(m, k, roots[i]),
{
    let now = sweep(m, roots, i);
    let r = roots[i];
    assert forall|c: Handle| #[trigger] m.contains_key(c) implies now.contains_key(c) && (now[c]
        == m[c] || exists|other: Handle|
        other != r && is_root(m, other) && in_subtree(m, c, other)) by {
        if swept(m, roots, i, c) {
            let j = choose|j: int| 0 <= j < i && j < roots.len() && in_subtree(m, c, #[trigger] roots[j]);
            assert(roots[j] != r);
            assert(is_root(m, roots[j]));
        }
    }
    assert(now[r] == m[r]) by {
        if swept(m, roots, i, r) {
            let j = choose|j: int| 0 <= j < i && j < roots.len() && in_subtree(m, r, #[trigger] roots[j]);
            assert(roots[j] != r);
            lemma_descendant_has_parent(m, r, roots[j]);
        }
    }
    assert forall|k: Handle|
        in_subtree(now, k, r) <==> #[trigger] in_subtree(m, k, r) by {
        if is_descendant(now, k, r) {
            let n = choose|n: nat| reaches(now, k, r, n);
            lemma_reaches_before(m, now, k, r, n);
        }
        if is_descendant(m, k, r) {
            let n = choose|n: nat| reaches(m, k, r, n);
            lemma_reaches_after(m, now, k, r, n);
        }
    }
    assert forall|k: Handle| m.contains_key(k) implies cascade(now, r)[k] == sweep(
        m,
        roots,
        i + 1,
    )[k] by {
        assert(in_subtree(now, k, r) <==> in_subtree(m, k, r));
        if swept(m, roots, i + 1, k) {
            let j = choose|j: int|
                0 <= j < i + 1 && j < roots.len() && in_subtree(m, k, #[trigger] roots[j]);
            if j < i {
                assert(swept(m, roots, i, k));
            }
        }
        if swept(m, roots, i, k) {
            let j = choose|j: int| 0 <= j < i && j < roots.len() && in_subtree(m, k, #[trigger] roots[j]);
            assert(swept(m, roots, i + 1, k));
        }
        if in_subtree(m, k, r) {
            assert(in_subtree(m, k, roots[i]));
            assert(swept(m, roots, i + 1, k));
        }
    }
    assert(cascade(now, r) =~= sweep(m, roots, i + 1));
}

/// Sweeping no root changes nothing, and sweeping every root is the
/// teardown.
pub proof fn lemma_sweep_ends(m: Records, roots: Seq<Handle>)
    requires
        forall|r: Handle| roots.contains(r) <==> is_root(m, r),
    ensures
        sweep(m, roots, 0) == m,
        sweep(m, roots, roots.len() as int) == torn_down(m),
{
    assert(sweep(m, roots, 0) =~= m);
    assert forall|k: Handle| m.contains_key(k) implies sweep(m, roots, roots.len() as int)[k]
        == torn_down(m)[k] by {
        if swept(m, roots, roots.len() as int, k) {
            let j = choose|j: int|
                0 <= j < roots.len() && j < roots.len() && in_subtree(m, k, #[trigger] roots[j]);
            assert(roots.contains(roots[j]));
            assert(is_root(m, roots[j]));
        }
        if under_root(m, k) {
            let r = choose|r: Handle| is_root(m, r) && in_subtree(m, k, r);
            assert(roots.contains(r));
            let j = choose|j: int| 0 <= j < roots.len() && roots[j] == r;
            assert(in_subtree(m, k, roots[j]));
        }
    }
    assert(sweep(m, roots, roots.len() as int) =~= torn_down(m));
}

} // verus!
