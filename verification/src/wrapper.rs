//! Handles with a capability tag.

use vstd::prelude::*;
use crate::kind::{Handle, Kind};

verus! {

/// A handle together with the kind of native control it points to. The tag
/// is fixed when the wrapper is made.
#[derive(Clone, Copy, Debug, PartialEq, Eq, Structural)]
pub struct TypedWrapper {
    handle: Handle,
    kind: Kind,
}

impl TypedWrapper {
    /// The wrapped handle.
    pub closed spec fn spec_handle(&self) -> Handle {
        self.handle
    }

    /// The tag of the wrapper.
    pub closed spec fn spec_kind(&self) -> Kind {
        self.kind
    }

    /// Two wrappers with the same handle and the same tag are the same
    /// wrapper.
    pub proof fn lemma_same(a: TypedWrapper, b: TypedWrapper)
        requires
            a.handle() == b.handle(),
            a.kind() == b.kind(),
        ensures
            a == b,
    {
    }

    /// Tags `handle` as a control of the given kind. The caller vouches that
    /// the native layout behind the handle is that of `kind`.
    pub fn wrap(handle: Handle, kind: Kind) -> (wrapper: TypedWrapper)
        ensures
            wrapper.handle() == handle,
            wrapper.kind() == kind,
    {
        TypedWrapper { handle, kind }
    }

    /// The wrapped handle.
    #[verifier::when_used_as_spec(spec_handle)]
    pub fn handle(&self) -> (handle: Handle)
        ensures
            handle == self.handle(),
    {
        self.handle
    }

    /// The tag of the wrapper.
    #[verifier::when_used_as_spec(spec_kind)]
    pub fn kind(&self) -> (kind: Kind)
        ensures
            kind == self.kind(),
    {
        self.kind
    }

    /// Re-tags the handle as a control of kind `wanted`, provided that the
    /// toolkit reports exactly that kind for it. `reported` is what the
    /// toolkit answered when it was asked for the concrete kind of the
    /// handle. A mismatch is an ordinary outcome, not an error.
    pub fn downcast(&self, reported: Kind, wanted: Kind) -> (narrowed: Option<TypedWrapper>)
        ensures
            reported == wanted ==> narrowed.is_some() && narrowed.unwrap().handle() == self.handle()
                && narrowed.unwrap().kind() == wanted,
            reported != wanted ==> narrowed.is_none(),
    {
        if reported == wanted {
            Some(TypedWrapper { handle: self.handle, kind: wanted })
        } else {
            None
        }
    }
}

} // verus!
