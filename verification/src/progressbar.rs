//! The value of a progress bar and its native encoding.

use vstd::prelude::*;
use vstd::std_specs::convert::{FromSpecImpl, IntoSpec};
use crate::callbacks::EventArgs;
use crate::control::{guarded, ControlFacade};
use crate::error::CoreError;
use crate::kind::{EventKind, Handle, Kind};
use crate::lifecycle::{account_after_register, Coordinator};
use crate::native::NativeCall;
use crate::records::{after_register, register_outcome};
use crate::wrapper::TypedWrapper;

verus! {

/// The largest percentage a progress bar shows.
pub const FULL: u32 = 100;

/// The native value that stands for "no known progress".
pub const NATIVE_INDETERMINATE: i32 = -1;

/// Either a percentage from 0 up to 100, or no known progress.
#[derive(Clone, Copy, Debug, PartialEq, Eq, Structural)]
pub enum ProgressBarValue {
    /// A percentage of the bar to be filled. Values above 100 are capped
    /// when they are converted or sent to the toolkit.
    Determinate(u32),
    /// The task is running, but how far it has come is not known.
    Indeterminate,
}

/// The percentage `value`, capped at 100.
pub open spec fn capped(value: u32) -> u32 {
    if value <= FULL { value } else { FULL }
}

impl ProgressBarValue {
    /// The native number that the toolkit is given for this value.
    pub open spec fn native(self) -> i32 {
        match self {
            ProgressBarValue::Determinate(v) => capped(v) as i32,
            ProgressBarValue::Indeterminate => NATIVE_INDETERMINATE,
        }
    }

    /// The value that a native number stands for.
    pub open spec fn of_native(native: i32) -> ProgressBarValue {
        if native < 0 {
            ProgressBarValue::Indeterminate
        } else {
            ProgressBarValue::Determinate(native as u32)
        }
    }

    /// Encodes the value for the toolkit.
    pub fn to_native(self) -> (native: i32)
        ensures
            native == self.native(),
            -1 <= native <= 100,
    {
        match self {
            ProgressBarValue::Determinate(v) => {
                if v > FULL { 100i32 } else { v as i32 }
            },
            ProgressBarValue::Indeterminate => NATIVE_INDETERMINATE,
        }
    }

    /// Decodes what the toolkit reported. The only negative number that the
    /// toolkit reports is `-1`.
    pub fn from_native(native: i32) -> (value: ProgressBarValue)
        requires
            native >= -1,
        ensures
            value == ProgressBarValue::of_native(native),
    {
        if native < 0 {
            ProgressBarValue::Indeterminate
        } else {
            ProgressBarValue::Determinate(native as u32)
        }
    }
}

impl From<u32> for ProgressBarValue {
    fn from(value: u32) -> (result: ProgressBarValue) {
        if value <= FULL {
            ProgressBarValue::Determinate(value)
        } else {
            ProgressBarValue::Determinate(FULL)
        }
    }
}

impl FromSpecImpl<u32> for ProgressBarValue {
    open spec fn obeys_from_spec() -> bool {
        true
    }

    open spec fn from_spec(value: u32) -> ProgressBarValue {
        ProgressBarValue::Determinate(capped(value))
    }
}

impl From<Option<u32>> for ProgressBarValue {
    fn from(value: Option<u32>) -> (result: ProgressBarValue) {
        match value {
            Some(v) => ProgressBarValue::from(v),
            None => ProgressBarValue::Indeterminate,
        }
    }
}

impl FromSpecImpl<Option<u32>> for ProgressBarValue {
    open spec fn obeys_from_spec() -> bool {
        true
    }

    open spec fn from_spec(value: Option<u32>) -> ProgressBarValue {
        match value {
            Some(v) => ProgressBarValue::Determinate(capped(v)),
            None => ProgressBarValue::Indeterminate,
        }
    }
}

/// Encoding a value and decoding the result gives the value back, capped.
pub proof fn lemma_native_round_trip(value: ProgressBarValue)
    ensures
        ProgressBarValue::of_native(value.native()) == (match value {
            ProgressBarValue::Determinate(v) => ProgressBarValue::Determinate(capped(v)),
            ProgressBarValue::Indeterminate => ProgressBarValue::Indeterminate,
        }),
        -1 <= value.native() <= 100,
{
}

/// A bar that fills up with a percentage, or shows that work goes on without
/// saying how far it has come.
#[derive(Clone, Copy, Debug, PartialEq, Eq, Structural)]
pub struct ProgressBar {
    wrapper: TypedWrapper,
}

impl ProgressBar {
    /// The wrapper of the native progress bar.
    pub closed spec fn spec_wrapper(&self) -> TypedWrapper {
        self.wrapper
    }

    /// The handle of the native progress bar.
    pub open spec fn spec_handle(&self) -> Handle {
        self.wrapper().handle()
    }

    /// The wrapper of the native progress bar.
    #[verifier::when_used_as_spec(spec_wrapper)]
    pub fn wrapper(&self) -> (wrapper: TypedWrapper)
        ensures
            wrapper == self.wrapper(),
    {
        self.wrapper
    }

    /// The handle of the native progress bar.
    #[verifier::when_used_as_spec(spec_handle)]
    pub fn handle(&self) -> (handle: Handle)
        ensures
            handle == self.handle(),
    {
        self.wrapper.handle()
    }

    /// The bar as a plain control.
    pub fn as_control(&self) -> (control: ControlFacade)
        ensures
            control.wrapper() == self.wrapper(),
    {
        self.wrapper.as_control()
    }

    /// Takes charge of a progress bar that the toolkit has just created with
    /// a value of 0. `handle` is what the toolkit returned for it.
    pub fn new<F: Fn(EventArgs) -> bool>(core: &mut Coordinator<F>, handle: Handle) -> (outcome:
        Result<ProgressBar, CoreError>)
        requires
            old(core).wf(),
        ensures
            final(core).wf(),
            final(core).owners() == after_register(old(core).owners(), handle),
            final(core).handlers() == old(core).handlers(),
            final(core).account() == account_after_register(
                old(core).owners(),
                old(core).account(),
                handle,
            ),
            outcome.is_ok() ==> forall|event: EventKind|
                !final(core).handlers().contains_key((handle, event)),
            match outcome {
                Ok(bar) => register_outcome(old(core).owners(), handle).is_ok() && bar.handle()
                    == handle && bar.wrapper().kind() == Kind::ProgressBar,
                Err(e) => register_outcome(old(core).owners(), handle) == Err::<(), CoreError>(e),
            },
    {
        match core.create(Kind::ProgressBar, handle) {
            Ok(wrapper) => Ok(ProgressBar { wrapper }),
            Err(e) => Err(e),
        }
    }

    /// Takes charge of a progress bar that the toolkit has just created, and
    /// returns with it the native call that makes it indeterminate.
    pub fn indeterminate<F: Fn(EventArgs) -> bool>(core: &mut Coordinator<F>, handle: Handle) -> (outcome:
        Result<(ProgressBar, NativeCall), CoreError>)
        requires
            old(core).wf(),
        ensures
            final(core).wf(),
            final(core).owners() == after_register(old(core).owners(), handle),
            final(core).handlers() == old(core).handlers(),
            final(core).account() == account_after_register(
                old(core).owners(),
                old(core).account(),
                handle,
            ),
            outcome.is_ok() ==> forall|event: EventKind|
                !final(core).handlers().contains_key((handle, event)),
            match outcome {
                Ok((bar, call)) => register_outcome(old(core).owners(), handle).is_ok()
                    && bar.handle() == handle && bar.wrapper().kind() == Kind::ProgressBar && call
                    == (NativeCall::SetProgress { handle, value: NATIVE_INDETERMINATE }),
                Err(e) => register_outcome(old(core).owners(), handle) == Err::<(), CoreError>(e),
            },
    {
        let bar = match ProgressBar::new(core, handle) {
            Ok(bar) => bar,
            Err(e) => {
                return Err(e);
            },
        };
        match bar.set_to(core, ProgressBarValue::Indeterminate) {
            Ok(call) => Ok((bar, call)),
            Err(e) => Err(e),
        }
    }

    /// The native call that sets the bar to `value`. A percentage above 100
    /// is sent as 100.
    pub fn set_to<F: Fn(EventArgs) -> bool>(&self, core: &Coordinator<F>, value: ProgressBarValue) -> (outcome:
        Result<NativeCall, CoreError>)
        requires
            core.wf(),
        ensures
            outcome == guarded(
                core.owners(),
                self.handle(),
                NativeCall::SetProgress { handle: self.handle(), value: value.native() },
            ),
    {
        match core.access(self.wrapper.handle()) {
            Ok(()) => Ok(
                NativeCall::SetProgress { handle: self.wrapper.handle(), value: value.to_native() },
            ),
            Err(e) => Err(e),
        }
    }

    /// The native call that sets the bar to what `value` converts to: a
    /// percentage, capped at 100, or no known progress.
    pub fn set_value<F: Fn(EventArgs) -> bool, V: Into<ProgressBarValue>>(
        &self,
        core: &Coordinator<F>,
        value: V,
    ) -> (outcome: Result<NativeCall, CoreError>)
        requires
            core.wf(),
        ensures
            exists|converted: ProgressBarValue|
                outcome == guarded(
                    core.owners(),
                    self.handle(),
                    NativeCall::SetProgress { handle: self.handle(), value: #[trigger] converted.native() },
                ),
            <V as IntoSpec<ProgressBarValue>>::obeys_into_spec() ==> outcome == guarded(
                core.owners(),
                self.handle(),
                NativeCall::SetProgress {
                    handle: self.handle(),
                    value: IntoSpec::<ProgressBarValue>::into_spec(value).native(),
                },
            ),
    {
        let converted: ProgressBarValue = value.into();
        self.set_to(core, converted)
    }

    /// The value of the bar, given the number that the toolkit reported for
    /// it. The only negative number that the toolkit reports is `-1`.
    pub fn value<F: Fn(EventArgs) -> bool>(&self, core: &Coordinator<F>, reported: i32) -> (outcome:
        Result<ProgressBarValue, CoreError>)
        requires
            core.wf(),
            reported >= -1,
        ensures
            outcome == (match guarded(
                core.owners(),
                self.handle(),
                NativeCall::QueryProgress(self.handle()),
            ) {
                Ok(_) => Ok(ProgressBarValue::of_native(reported)),
                Err(e) => Err(e),
            }),
    {
        match core.access(self.wrapper.handle()) {
            Ok(()) => Ok(ProgressBarValue::from_native(reported)),
            Err(e) => Err(e),
        }
    }

    /// The native call that reads the number behind the bar's value.
    pub fn query<F: Fn(EventArgs) -> bool>(&self, core: &Coordinator<F>) -> (outcome: Result<
        NativeCall,
        CoreError,
    >)
        requires
            core.wf(),
        ensures
            outcome == guarded(
                core.owners(),
                self.handle(),
                NativeCall::QueryProgress(self.handle()),
            ),
    {
        match core.access(self.wrapper.handle()) {
            Ok(()) => Ok(NativeCall::QueryProgress(self.wrapper.handle())),
            Err(e) => Err(e),
        }
    }
}

} // verus!
