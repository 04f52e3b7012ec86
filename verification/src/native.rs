//! The toolkit entry points, as values.

use vstd::prelude::*;
use crate::kind::{Handle, Hook};

verus! {

/// One call into the toolkit that the caller must perform, on the UI thread
/// and in the order in which the core returned it.
#[derive(Clone, Copy, Debug, PartialEq, Eq, Structural)]
pub enum NativeCall {
    /// Free the control and, inside the toolkit, its whole subtree.
    Destroy(Handle),
    Show(Handle),
    Hide(Handle),
    Enable(Handle),
    Disable(Handle),
    /// Ask whether the control is enabled.
    QueryEnabled(Handle),
    /// Make `parent` the owner of `child`.
    Reparent { child: Handle, parent: Handle },
    /// Install the fixed trampoline of `hook` on the control.
    SetEventHandler { handle: Handle, hook: Hook },
    /// Read the type signature of the control.
    QueryKind(Handle),
    /// Set a progress bar to a native value: `-1`, or a percentage.
    SetProgress { handle: Handle, value: i32 },
    /// Read the native value of a progress bar.
    QueryProgress(Handle),
}

} // verus!
