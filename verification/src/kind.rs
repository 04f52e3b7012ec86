//! Capability tags of native controls and the kinds of events they emit.

use vstd::prelude::*;

verus! {

/// An opaque identifier that the toolkit assigned to a native resource.
///
/// The core never looks behind it: a handle is only a lookup key and an
/// argument of native calls.
pub type Handle = usize;

/// The handle that the toolkit returns when it could not allocate a control.
pub const NULL_HANDLE: Handle = 0;

/// Which native layout a handle points to.
#[derive(Clone, Copy, Debug, PartialEq, Eq, Structural)]
pub enum Kind {
    Window,
    Button,
    Label,
    Entry,
    Checkbox,
    Slider,
    ProgressBar,
    Group,
    Tab,
    Stack,
    Spinbox,
    Combobox,
}

impl Kind {
    /// The type signature that the toolkit stores in every control of this
    /// kind.
    pub open spec fn spec_signature(self) -> u32 {
        match self {
            Kind::Window => 0x57696E64,
            Kind::Button => 0x42746F6E,
            Kind::Label => 0x4C61626C,
            Kind::Entry => 0x456E7472,
            Kind::Checkbox => 0x43686B62,
            Kind::Slider => 0x536C6964,
            Kind::ProgressBar => 0x50426172,
            Kind::Group => 0x47727062,
            Kind::Tab => 0x54616273,
            Kind::Stack => 0x426F784C,
            Kind::Spinbox => 0x5370696E,
            Kind::Combobox => 0x436F6D62,
        }
    }

    /// The type signature that the toolkit stores in every control of this
    /// kind.
    #[verifier::when_used_as_spec(spec_signature)]
    pub fn signature(self) -> (signature: u32)
        ensures
            signature == self.signature(),
    {
        match self {
            Kind::Window => 0x57696E64,
            Kind::Button => 0x42746F6E,
            Kind::Label => 0x4C61626C,
            Kind::Entry => 0x456E7472,
            Kind::Checkbox => 0x43686B62,
            Kind::Slider => 0x536C6964,
            Kind::ProgressBar => 0x50426172,
            Kind::Group => 0x47727062,
            Kind::Tab => 0x54616273,
            Kind::Stack => 0x426F784C,
            Kind::Spinbox => 0x5370696E,
            Kind::Combobox => 0x436F6D62,
        }
    }
}

/// The kind whose type signature the toolkit reports, if it is one that the
/// core knows.
pub fn kind_of_signature(signature: u32) -> (kind: Option<Kind>)
    ensures
        match kind {
            Some(k) => k.signature() == signature,
            None => forall|k: Kind| k.signature() != signature,
        },
{
    if signature == Kind::Window.signature() {
        Some(Kind::Window)
    } else if signature == Kind::Button.signature() {
        Some(Kind::Button)
    } else if signature == Kind::Label.signature() {
        Some(Kind::Label)
    } else if signature == Kind::Entry.signature() {
        Some(Kind::Entry)
    } else if signature == Kind::Checkbox.signature() {
        Some(Kind::Checkbox)
    } else if signature == Kind::Slider.signature() {
        Some(Kind::Slider)
    } else if signature == Kind::ProgressBar.signature() {
        Some(Kind::ProgressBar)
    } else if signature == Kind::Group.signature() {
        Some(Kind::Group)
    } else if signature == Kind::Tab.signature() {
        Some(Kind::Tab)
    } else if signature == Kind::Stack.signature() {
        Some(Kind::Stack)
    } else if signature == Kind::Spinbox.signature() {
        Some(Kind::Spinbox)
    } else if signature == Kind::Combobox.signature() {
        Some(Kind::Combobox)
    } else {
        None
    }
}

/// No two kinds share a type signature.
pub proof fn lemma_signatures_differ(a: Kind, b: Kind)
    requires
        a.signature() == b.signature(),
    ensures
        a == b,
{
}

/// The events for which a host closure can be registered.
#[derive(Clone, Copy, Debug, PartialEq, Eq, Structural)]
pub enum EventKind {
    Clicked,
    Changed,
    Toggled,
    Selected,
    Closing,
}

/// A place where the toolkit lets a trampoline be installed: one kind of
/// event on one kind of control.
#[derive(Clone, Copy, Debug, PartialEq, Eq, Structural)]
pub enum Hook {
    WindowClosing,
    ButtonClicked,
    EntryChanged,
    CheckboxToggled,
    SliderChanged,
    SpinboxChanged,
    ComboboxSelected,
}

impl Hook {
    /// The kind of control that has the hook.
    pub open spec fn spec_kind(self) -> Kind {
        match self {
            Hook::WindowClosing => Kind::Window,
            Hook::ButtonClicked => Kind::Button,
            Hook::EntryChanged => Kind::Entry,
            Hook::CheckboxToggled => Kind::Checkbox,
            Hook::SliderChanged => Kind::Slider,
            Hook::SpinboxChanged => Kind::Spinbox,
            Hook::ComboboxSelected => Kind::Combobox,
        }
    }

    /// The kind of event that fires the hook.
    pub open spec fn spec_event(self) -> EventKind {
        match self {
            Hook::WindowClosing => EventKind::Closing,
            Hook::ButtonClicked => EventKind::Clicked,
            Hook::EntryChanged => EventKind::Changed,
            Hook::CheckboxToggled => EventKind::Toggled,
            Hook::SliderChanged => EventKind::Changed,
            Hook::SpinboxChanged => EventKind::Changed,
            Hook::ComboboxSelected => EventKind::Selected,
        }
    }

    /// The kind of control that has the hook.
    #[verifier::when_used_as_spec(spec_kind)]
    pub fn kind(self) -> (kind: Kind)
        ensures
            kind == self.kind(),
    {
        match self {
            Hook::WindowClosing => Kind::Window,
            Hook::ButtonClicked => Kind::Button,
            Hook::EntryChanged => Kind::Entry,
            Hook::CheckboxToggled => Kind::Checkbox,
            Hook::SliderChanged => Kind::Slider,
            Hook::SpinboxChanged => Kind::Spinbox,
            Hook::ComboboxSelected => Kind::Combobox,
        }
    }

    /// The kind of event that fires the hook.
    #[verifier::when_used_as_spec(spec_event)]
    pub fn event(self) -> (event: EventKind)
        ensures
            event == self.event(),
    {
        match self {
            Hook::WindowClosing => EventKind::Closing,
            Hook::ButtonClicked => EventKind::Clicked,
            Hook::EntryChanged => EventKind::Changed,
            Hook::CheckboxToggled => EventKind::Toggled,
            Hook::SliderChanged => EventKind::Changed,
            Hook::SpinboxChanged => EventKind::Changed,
            Hook::ComboboxSelected => EventKind::Selected,
        }
    }
}

/// The hook on which the toolkit delivers events of kind `event` of a
/// control of kind `kind`, if it delivers them at all.
pub open spec fn hook_for_spec(kind: Kind, event: EventKind) -> Option<Hook> {
    if exists|hook: Hook| hook.kind() == kind && hook.event() == event {
        Some(choose|hook: Hook| hook.kind() == kind && hook.event() == event)
    } else {
        None
    }
}

/// A kind of control and a kind of event have at most one hook.
pub proof fn lemma_hook_is_fixed(a: Hook, b: Hook)
    requires
        a.kind() == b.kind(),
        a.event() == b.event(),
    ensures
        a == b,
{
}

/// The hook on which the toolkit delivers events of kind `event` of a
/// control of kind `kind`, if it delivers them at all.
#[verifier::when_used_as_spec(hook_for_spec)]
pub fn hook_for(kind: Kind, event: EventKind) -> (hook: Option<Hook>)
    ensures
        hook == hook_for(kind, event),
        match hook {
            Some(hook) => hook.kind() == kind && hook.event() == event,
            None => forall|other: Hook| other.kind() != kind || other.event() != event,
        },
{
    proof {
        if exists|hook: Hook| hook.kind() == kind && hook.event() == event {
            let a = choose|hook: Hook| hook.kind() == kind && hook.event() == event;
            assert forall|b: Hook| b.kind() == kind && b.event() == event implies b == a by {
                lemma_hook_is_fixed(a, b);
            }
        }
    }
    match (kind, event) {
        (Kind::Window, EventKind::Closing) => Some(Hook::WindowClosing),
        (Kind::Button, EventKind::Clicked) => Some(Hook::ButtonClicked),
        (Kind::Entry, EventKind::Changed) => Some(Hook::EntryChanged),
        (Kind::Checkbox, EventKind::Toggled) => Some(Hook::CheckboxToggled),
        (Kind::Slider, EventKind::Changed) => Some(Hook::SliderChanged),
        (Kind::Spinbox, EventKind::Changed) => Some(Hook::SpinboxChanged),
        (Kind::Combobox, EventKind::Selected) => Some(Hook::ComboboxSelected),
        _ => None,
    }
}

/// What an event handler answers when nothing vetoes the event.
pub const ALLOW: bool = true;

} // verus!
