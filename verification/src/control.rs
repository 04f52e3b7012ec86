//! The operations that every control offers, whatever its kind.
//!
//! A facade is a reference, not an owner: it can be copied freely, and a
//! copy carries no more right to destroy the control than the facade it was made of.

use vstd::prelude::*;
use crate::callbacks::{accepts_all, EventArgs, TrampolineHandle};
use crate::error::CoreError;
use crate::kind::{
    hook_for,
    kind_of_signature,
    lemma_signatures_differ,
    EventKind,
    Handle,
    Kind,
};
use crate::lifecycle::{
    access_outcome,
    account_after_destroy,
    handlers_after_destroy,
    handlers_after_register,
    Coordinator,
};
use crate::native::NativeCall;
use crate::records::{
    after_attach,
    after_destroy,
    attach_outcome,
    destroy_outcome,
    Records,
};
use crate::wrapper::TypedWrapper;

verus! {

/// `call`, if a native call may be made on `h`.
pub open spec fn guarded(m: Records, h: Handle, call: NativeCall) -> Result<NativeCall, CoreError> {
    match access_outcome(m, h) {
        Ok(_) => Ok(call),
        Err(e) => Err(e),
    }
}

/// A reference to a control of any kind.
#[derive(Clone, Copy, Debug, PartialEq, Eq, Structural)]
pub struct ControlFacade {
    wrapper: TypedWrapper,
}

impl TypedWrapper {
    /// The control behind the wrapper, without its kind-specific operations.
    pub fn as_control(&self) -> (control: ControlFacade)
        ensures
            control.wrapper() == *self,
    {
        ControlFacade { wrapper: *self }
    }
}

impl TrampolineHandle {
    /// The native call that installs the trampoline on the control, which is
    /// of kind `kind`. There is none where the toolkit delivers no such
    /// event for such a control: the closure is then kept and never called.
    pub fn install(&self, kind: Kind) -> (call: Option<NativeCall>)
        ensures
            call == (match hook_for(kind, self.event) {
                Some(hook) => Some(NativeCall::SetEventHandler { handle: self.handle, hook }),
                None => None,
            }),
    {
        match hook_for(kind, self.event) {
            Some(hook) => Some(NativeCall::SetEventHandler { handle: self.handle, hook }),
            None => None,
        }
    }
}

impl ControlFacade {
    /// The wrapper that the facade carries.
    pub closed spec fn spec_wrapper(&self) -> TypedWrapper {
        self.wrapper
    }

    /// The handle of the control.
    pub open spec fn spec_handle(&self) -> Handle {
        self.wrapper().handle()
    }

    /// The wrapper that the facade carries.
    #[verifier::when_used_as_spec(spec_wrapper)]
    pub fn wrapper(&self) -> (wrapper: TypedWrapper)
        ensures
            wrapper == self.wrapper(),
    {
        self.wrapper
    }

    /// The handle of the control.
    #[verifier::when_used_as_spec(spec_handle)]
    pub fn handle(&self) -> (handle: Handle)
        ensures
            handle == self.handle(),
    {
        self.wrapper.handle()
    }

    /// The facade itself.
    pub fn as_control(&self) -> (control: ControlFacade)
        ensures
            control == *self,
    {
        *self
    }

    /// The control as one of kind `wanted`, provided that the toolkit
    /// reports that kind for it.
    pub fn downcast(&self, reported: Kind, wanted: Kind) -> (narrowed: Option<TypedWrapper>)
        ensures
            reported == wanted ==> narrowed.is_some() && narrowed.unwrap().handle()
                == self.handle() && narrowed.unwrap().kind() == wanted,
            reported != wanted ==> narrowed.is_none(),
    {
        self.wrapper.downcast(reported, wanted)
    }

    /// The control as one of kind `wanted`, provided that `signature`, which
    /// the toolkit reported for it, is the type signature of that kind.
    pub fn downcast_by_signature(&self, signature: u32, wanted: Kind) -> (narrowed: Option<
        TypedWrapper,
    >)
        ensures
            signature == wanted.signature() ==> narrowed.is_some() && narrowed.unwrap().handle()
                == self.handle() && narrowed.unwrap().kind() == wanted,
            signature != wanted.signature() ==> narrowed.is_none(),
    {
        match kind_of_signature(signature) {
            Some(reported) => {
                proof {
                    if signature == wanted.signature() {
                        lemma_signatures_differ(reported, wanted);
                    }
                }
                self.wrapper.downcast(reported, wanted)
            },
            None => None,
        }
    }

    /// Asks the toolkit for the concrete kind of the control. The caller
    /// gets the type signature by making the returned call.
    pub fn query_kind<F: Fn(EventArgs) -> bool>(&self, core: &Coordinator<F>) -> (outcome: Result<
        NativeCall,
        CoreError,
    >)
        requires
            core.wf(),
        ensures
            outcome == guarded(core.owners(), self.handle(), NativeCall::QueryKind(self.handle())),
    {
        match core.access(self.wrapper.handle()) {
            Ok(()) => Ok(NativeCall::QueryKind(self.wrapper.handle())),
            Err(e) => Err(e),
        }
    }

    /// Makes the control visible.
    pub fn show<F: Fn(EventArgs) -> bool>(&self, core: &Coordinator<F>) -> (outcome: Result<
        NativeCall,
        CoreError,
    >)
        requires
            core.wf(),
        ensures
            outcome == guarded(core.owners(), self.handle(), NativeCall::Show(self.handle())),
    {
        match core.access(self.wrapper.handle()) {
            Ok(()) => Ok(NativeCall::Show(self.wrapper.handle())),
            Err(e) => Err(e),
        }
    }

    /// Makes the control invisible.
    pub fn hide_control<F: Fn(EventArgs) -> bool>(&self, core: &Coordinator<F>) -> (outcome: Result<
        NativeCall,
        CoreError,
    >)
        requires
            core.wf(),
        ensures
            outcome == guarded(core.owners(), self.handle(), NativeCall::Hide(self.handle())),
    {
        match core.access(self.wrapper.handle()) {
            Ok(()) => Ok(NativeCall::Hide(self.wrapper.handle())),
            Err(e) => Err(e),
        }
    }

    /// Lets the user interact with the control.
    pub fn enable<F: Fn(EventArgs) -> bool>(&self, core: &Coordinator<F>) -> (outcome: Result<
        NativeCall,
        CoreError,
    >)
        requires
            core.wf(),
        ensures
            outcome == guarded(core.owners(), self.handle(), NativeCall::Enable(self.handle())),
    {
        match core.access(self.wrapper.handle()) {
            Ok(()) => Ok(NativeCall::Enable(self.wrapper.handle())),
            Err(e) => Err(e),
        }
    }

    /// Keeps the user from interacting with the control.
    pub fn disable<F: Fn(EventArgs) -> bool>(&self, core: &Coordinator<F>) -> (outcome: Result<
        NativeCall,
        CoreError,
    >)
        requires
            core.wf(),
        ensures
            outcome == guarded(core.owners(), self.handle(), NativeCall::Disable(self.handle())),
    {
        match core.access(self.wrapper.handle()) {
            Ok(()) => Ok(NativeCall::Disable(self.wrapper.handle())),
            Err(e) => Err(e),
        }
    }

    /// Asks whether the user can interact with the control. The toolkit
    /// knows the answer: the caller gets it by making the returned call.
    pub fn is_enabled<F: Fn(EventArgs) -> bool>(&self, core: &Coordinator<F>) -> (outcome: Result<
        NativeCall,
        CoreError,
    >)
        requires
            core.wf(),
        ensures
            outcome == guarded(
                core.owners(),
                self.handle(),
                NativeCall::QueryEnabled(self.handle()),
            ),
    {
        match core.access(self.wrapper.handle()) {
            Ok(()) => Ok(NativeCall::QueryEnabled(self.wrapper.handle())),
            Err(e) => Err(e),
        }
    }

    /// Destroys the control, which must be a root, with all that is attached
    /// to it.
    pub fn destroy<F: Fn(EventArgs) -> bool>(&self, core: &mut Coordinator<F>) -> (outcome: Result<
        NativeCall,
        CoreError,
    >)
        requires
            old(core).wf(),
        ensures
            final(core).wf(),
            final(core).owners() == after_destroy(old(core).owners(), self.handle()),
            final(core).handlers() == handlers_after_destroy(
                old(core).owners(),
                old(core).handlers(),
                self.handle(),
            ),
            final(core).account() == account_after_destroy(
                old(core).owners(),
                old(core).account(),
                self.handle(),
            ),
            outcome == (match destroy_outcome(old(core).owners(), self.handle()) {
                Ok(_) => Ok(NativeCall::Destroy(self.handle())),
                Err(e) => Err(e),
            }),
    {
        core.destroy(self.wrapper.handle())
    }

    /// Hands the root `child` over to this control, the container.
    pub fn attach<F: Fn(EventArgs) -> bool>(
        &self,
        core: &mut Coordinator<F>,
        child: &ControlFacade,
    ) -> (outcome: Result<NativeCall, CoreError>)
        requires
            old(core).wf(),
        ensures
            final(core).wf(),
            final(core).owners() == after_attach(old(core).owners(), child.handle(), self.handle()),
            final(core).handlers() == old(core).handlers(),
            final(core).account() == old(core).account(),
            outcome == (match attach_outcome(old(core).owners(), child.handle(), self.handle()) {
                Ok(_) => Ok(NativeCall::Reparent { child: child.handle(), parent: self.handle() }),
                Err(e) => Err(e),
            }),
    {
        core.attach(self.wrapper.handle(), child.wrapper.handle())
    }

    /// Registers `closure` as the answer to events of kind `event` on the
    /// control.
    pub fn on<F: Fn(EventArgs) -> bool>(
        &self,
        core: &mut Coordinator<F>,
        event: EventKind,
        closure: F,
    ) -> (outcome: Result<TrampolineHandle, CoreError>)
        requires
            old(core).wf(),
            accepts_all(closure),
        ensures
            final(core).wf(),
            final(core).owners() == old(core).owners(),
            final(core).handlers() == handlers_after_register(
                old(core).owners(),
                old(core).handlers(),
                self.handle(),
                event,
                closure,
            ),
            final(core).account() == old(core).account(),
            outcome == (match access_outcome(old(core).owners(), self.handle()) {
                Ok(_) => Ok(TrampolineHandle { handle: self.handle(), event }),
                Err(e) => Err(e),
            }),
    {
        core.register(self.wrapper.handle(), event, closure)
    }
}

} // verus!
