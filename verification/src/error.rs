//! The ways in which an operation of the core is refused.

use vstd::prelude::*;

verus! {

#[derive(Clone, Copy, Debug, PartialEq, Eq, Structural)]
pub enum CoreError {
    /// The toolkit handed back no usable handle for a new control.
    AllocationFailed,
    /// The control to attach is not a root any more.
    AlreadyParented,
    /// Destruction was asked of a control that a container owns.
    NotOwner,
    /// The handle is not alive.
    UseAfterDestroy,
}

impl CoreError {
    /// A short description for messages.
    pub fn message(&self) -> (text: &'static str)
        ensures
            text@ == (match *self {
                CoreError::AllocationFailed => "the toolkit could not allocate the control"@,
                CoreError::AlreadyParented => "the control already belongs to a container"@,
                CoreError::NotOwner => "only the owning root may destroy the control"@,
                CoreError::UseAfterDestroy => "the control has been destroyed"@,
            }),
    {
        match self {
            CoreError::AllocationFailed => "the toolkit could not allocate the control",
            CoreError::AlreadyParented => "the control already belongs to a container",
            CoreError::NotOwner => "only the owning root may destroy the control",
            CoreError::UseAfterDestroy => "the control has been destroyed",
        }
    }
}

} // verus!
