use std::cell::Cell;
use std::rc::Rc;

use ui::callbacks::{CallbackRegistry, EventArgs, TrampolineHandle};
use ui::control::ControlFacade;
use ui::error::CoreError;
use ui::kind::{hook_for, kind_of_signature, EventKind, Hook, Kind, ALLOW, NULL_HANDLE};
use ui::lifecycle::Coordinator;
use ui::native::NativeCall;
use ui::ownership::OwnershipTracker;
use ui::records::Ownership;
use ui::wrapper::TypedWrapper;

type Handler = Box<dyn Fn(EventArgs) -> bool>;

fn counting(counter: &Rc<Cell<u32>>, answer: bool) -> Handler {
    let counter = Rc::clone(counter);
    Box::new(move |_args: EventArgs| {
        counter.set(counter.get() + 1);
        answer
    })
}

fn control(core: &mut Coordinator<Handler>, kind: Kind, handle: usize) -> ControlFacade {
    core.create(kind, handle).unwrap().as_control()
}

fn destroys(calls: &[NativeCall], handle: usize) -> usize {
    calls.iter().filter(|c| **c == NativeCall::Destroy(handle)).count()
}

#[test]
fn window_and_button_scenario() {
    let mut core: Coordinator<Handler> = Coordinator::new();
    let w = control(&mut core, Kind::Window, 0x1000);
    let b = control(&mut core, Kind::Button, 0x2000);
    assert_eq!(
        w.attach(&mut core, &b),
        Ok(NativeCall::Reparent { child: 0x2000, parent: 0x1000 })
    );
    assert_eq!(w.attach(&mut core, &b), Err(CoreError::AlreadyParented));
    assert_eq!(b.destroy(&mut core), Err(CoreError::NotOwner));
    assert_eq!(w.destroy(&mut core), Ok(NativeCall::Destroy(0x1000)));
    assert_eq!(b.show(&core), Err(CoreError::UseAfterDestroy));
}

#[test]
fn create_registers_a_root() {
    let mut core: Coordinator<Handler> = Coordinator::new();
    let wrapper = core.create(Kind::Label, 17).unwrap();
    assert_eq!(wrapper.handle(), 17);
    assert_eq!(wrapper.kind(), Kind::Label);
    assert_eq!(core.state_of(17), Some(Ownership::Root));
    assert_eq!(core.state_of(18), None);
    assert_eq!(core.access(17), Ok(()));
    assert_eq!(core.roots(), vec![17]);
}

#[test]
fn create_refuses_the_null_handle() {
    let mut core: Coordinator<Handler> = Coordinator::new();
    assert_eq!(core.create(Kind::Button, NULL_HANDLE), Err(CoreError::AllocationFailed));
    assert_eq!(core.state_of(NULL_HANDLE), None);
    assert!(core.roots().is_empty());
}

#[test]
fn create_refuses_a_live_handle() {
    let mut core: Coordinator<Handler> = Coordinator::new();
    let w = control(&mut core, Kind::Window, 5);
    let b = control(&mut core, Kind::Button, 6);
    w.attach(&mut core, &b).unwrap();
    assert_eq!(core.create(Kind::Button, 5), Err(CoreError::AllocationFailed));
    assert_eq!(core.create(Kind::Button, 6), Err(CoreError::AllocationFailed));
    assert_eq!(core.state_of(5), Some(Ownership::Root));
    assert_eq!(core.state_of(6), Some(Ownership::ParentOwned(5)));
}

#[test]
fn create_takes_a_handle_that_the_toolkit_issues_again() {
    let mut core: Coordinator<Handler> = Coordinator::new();
    let w = control(&mut core, Kind::Window, 5);
    let b = control(&mut core, Kind::Button, 6);
    let stale = Rc::new(Cell::new(0));
    b.on(&mut core, EventKind::Clicked, counting(&stale, false)).unwrap();
    w.attach(&mut core, &b).unwrap();
    let mut calls = vec![w.destroy(&mut core).unwrap()];
    assert_eq!(core.state_of(6), Some(Ownership::Destroyed));

    // The address of the button comes back as a label.
    let label = core.create(Kind::Label, 6).unwrap();
    assert_eq!((label.handle(), label.kind()), (6, Kind::Label));
    assert_eq!(core.state_of(6), Some(Ownership::Root));
    assert_eq!(core.state_of(5), Some(Ownership::Destroyed));
    assert_eq!(core.roots(), vec![6]);
    assert!(!core.is_registered(6, EventKind::Clicked));
    assert_eq!(core.invoke(6, EventKind::Clicked, 0), ALLOW);
    assert_eq!(stale.get(), 0);

    // It lives a full life of its own.
    let label = label.as_control();
    assert_eq!(label.show(&core), Ok(NativeCall::Show(6)));
    let again = control(&mut core, Kind::Window, 5);
    assert_eq!(again.attach(&mut core, &label), Ok(NativeCall::Reparent { child: 6, parent: 5 }));
    assert_eq!(again.attach(&mut core, &label), Err(CoreError::AlreadyParented));
    assert_eq!(label.destroy(&mut core), Err(CoreError::NotOwner));
    calls.push(again.destroy(&mut core).unwrap());
    assert_eq!(calls, vec![NativeCall::Destroy(5), NativeCall::Destroy(5)]);
    assert_eq!(core.state_of(5), Some(Ownership::Destroyed));
    assert_eq!(core.state_of(6), Some(Ownership::Destroyed));
    assert!(core.teardown().is_empty());
}

#[test]
fn attach_succeeds_once() {
    let mut core: Coordinator<Handler> = Coordinator::new();
    let first = control(&mut core, Kind::Stack, 1);
    let second = control(&mut core, Kind::Group, 2);
    let child = control(&mut core, Kind::Entry, 3);
    assert_eq!(first.attach(&mut core, &child), Ok(NativeCall::Reparent { child: 3, parent: 1 }));
    assert_eq!(core.state_of(3), Some(Ownership::ParentOwned(1)));
    assert_eq!(first.attach(&mut core, &child), Err(CoreError::AlreadyParented));
    assert_eq!(second.attach(&mut core, &child), Err(CoreError::AlreadyParented));
    assert_eq!(core.state_of(3), Some(Ownership::ParentOwned(1)));
    assert_eq!(core.roots(), vec![1, 2]);
}

#[test]
fn attach_checks_that_both_are_alive() {
    let mut core: Coordinator<Handler> = Coordinator::new();
    let w = control(&mut core, Kind::Window, 1);
    let gone = control(&mut core, Kind::Window, 2);
    let child = control(&mut core, Kind::Button, 3);
    let unknown = TypedWrapper::wrap(99, Kind::Button).as_control();
    gone.destroy(&mut core).unwrap();
    assert_eq!(gone.attach(&mut core, &child), Err(CoreError::UseAfterDestroy));
    assert_eq!(unknown.attach(&mut core, &child), Err(CoreError::UseAfterDestroy));
    assert_eq!(w.attach(&mut core, &gone), Err(CoreError::UseAfterDestroy));
    assert_eq!(w.attach(&mut core, &unknown), Err(CoreError::UseAfterDestroy));
    assert_eq!(core.state_of(3), Some(Ownership::Root));
    assert_eq!(core.state_of(99), None);
}

#[test]
fn destroy_needs_the_owner() {
    let mut core: Coordinator<Handler> = Coordinator::new();
    let w = control(&mut core, Kind::Window, 1);
    let b = control(&mut core, Kind::Button, 2);
    w.attach(&mut core, &b).unwrap();
    assert_eq!(b.destroy(&mut core), Err(CoreError::NotOwner));
    assert_eq!(core.state_of(2), Some(Ownership::ParentOwned(1)));
    assert_eq!(b.show(&core), Ok(NativeCall::Show(2)));
    assert_eq!(w.destroy(&mut core), Ok(NativeCall::Destroy(1)));
    assert_eq!(core.state_of(1), Some(Ownership::Destroyed));
    assert_eq!(core.state_of(2), Some(Ownership::Destroyed));
}

#[test]
fn every_operation_fails_after_destroy() {
    let mut core: Coordinator<Handler> = Coordinator::new();
    let w = control(&mut core, Kind::Window, 1);
    let b = control(&mut core, Kind::Button, 2);
    let other = control(&mut core, Kind::Window, 3);
    w.attach(&mut core, &b).unwrap();
    w.destroy(&mut core).unwrap();
    for c in [w, b] {
        assert_eq!(c.show(&core), Err(CoreError::UseAfterDestroy));
        assert_eq!(c.hide_control(&core), Err(CoreError::UseAfterDestroy));
        assert_eq!(c.enable(&core), Err(CoreError::UseAfterDestroy));
        assert_eq!(c.disable(&core), Err(CoreError::UseAfterDestroy));
        assert_eq!(c.is_enabled(&core), Err(CoreError::UseAfterDestroy));
        assert_eq!(c.query_kind(&core), Err(CoreError::UseAfterDestroy));
        assert_eq!(c.destroy(&mut core), Err(CoreError::UseAfterDestroy));
        assert_eq!(other.attach(&mut core, &c), Err(CoreError::UseAfterDestroy));
        assert_eq!(c.attach(&mut core, &other), Err(CoreError::UseAfterDestroy));
        let counter = Rc::new(Cell::new(0));
        assert_eq!(
            c.on(&mut core, EventKind::Clicked, counting(&counter, false)),
            Err(CoreError::UseAfterDestroy)
        );
        assert_eq!(core.access(c.handle()), Err(CoreError::UseAfterDestroy));
    }
    assert_eq!(core.state_of(3), Some(Ownership::Root));
}

#[test]
fn facade_operations_name_the_native_call() {
    let mut core: Coordinator<Handler> = Coordinator::new();
    let c = control(&mut core, Kind::Checkbox, 8);
    assert_eq!(c.show(&core), Ok(NativeCall::Show(8)));
    assert_eq!(c.hide_control(&core), Ok(NativeCall::Hide(8)));
    assert_eq!(c.enable(&core), Ok(NativeCall::Enable(8)));
    assert_eq!(c.disable(&core), Ok(NativeCall::Disable(8)));
    assert_eq!(c.is_enabled(&core), Ok(NativeCall::QueryEnabled(8)));
    assert_eq!(c.as_control(), c);
    assert_eq!(c.handle(), 8);
    assert_eq!(c.wrapper(), TypedWrapper::wrap(8, Kind::Checkbox));
}

#[test]
fn operations_on_an_unknown_handle_fail() {
    let mut core: Coordinator<Handler> = Coordinator::new();
    let stray = TypedWrapper::wrap(4, Kind::Slider).as_control();
    assert_eq!(stray.show(&core), Err(CoreError::UseAfterDestroy));
    assert_eq!(stray.destroy(&mut core), Err(CoreError::UseAfterDestroy));
    assert_eq!(core.invoke(4, EventKind::Changed, 1), ALLOW);
}

#[test]
fn destroy_cascades_through_every_level() {
    let mut core: Coordinator<Handler> = Coordinator::new();
    let w = control(&mut core, Kind::Window, 1);
    let stack = control(&mut core, Kind::Stack, 2);
    let group = control(&mut core, Kind::Group, 3);
    let button = control(&mut core, Kind::Button, 4);
    let label = control(&mut core, Kind::Label, 5);
    let other = control(&mut core, Kind::Window, 6);
    let other_child = control(&mut core, Kind::Button, 7);
    // Attach from the bottom up, and out of creation order.
    group.attach(&mut core, &button).unwrap();
    stack.attach(&mut core, &group).unwrap();
    stack.attach(&mut core, &label).unwrap();
    w.attach(&mut core, &stack).unwrap();
    other.attach(&mut core, &other_child).unwrap();
    assert_eq!(w.destroy(&mut core), Ok(NativeCall::Destroy(1)));
    for h in 1..=5 {
        assert_eq!(core.state_of(h), Some(Ownership::Destroyed));
    }
    assert_eq!(core.state_of(6), Some(Ownership::Root));
    assert_eq!(core.state_of(7), Some(Ownership::ParentOwned(6)));
    assert_eq!(core.roots(), vec![6]);
}

#[test]
fn destroying_a_subtree_root_in_the_middle_is_refused() {
    let mut core: Coordinator<Handler> = Coordinator::new();
    let w = control(&mut core, Kind::Window, 1);
    let stack = control(&mut core, Kind::Stack, 2);
    let button = control(&mut core, Kind::Button, 3);
    stack.attach(&mut core, &button).unwrap();
    w.attach(&mut core, &stack).unwrap();
    assert_eq!(stack.destroy(&mut core), Err(CoreError::NotOwner));
    assert_eq!(button.destroy(&mut core), Err(CoreError::NotOwner));
    assert_eq!(core.state_of(2), Some(Ownership::ParentOwned(1)));
    assert_eq!(core.state_of(3), Some(Ownership::ParentOwned(2)));
}

#[test]
fn a_control_attached_to_itself_is_owned() {
    let mut core: Coordinator<Handler> = Coordinator::new();
    let w = control(&mut core, Kind::Window, 1);
    assert_eq!(w.attach(&mut core, &w), Ok(NativeCall::Reparent { child: 1, parent: 1 }));
    assert_eq!(core.state_of(1), Some(Ownership::ParentOwned(1)));
    assert_eq!(w.destroy(&mut core), Err(CoreError::NotOwner));
    assert!(core.teardown().is_empty());
    assert_eq!(core.state_of(1), Some(Ownership::ParentOwned(1)));
}

#[test]
fn one_native_destroy_per_root() {
    let mut core: Coordinator<Handler> = Coordinator::new();
    let w = control(&mut core, Kind::Window, 1);
    let a = control(&mut core, Kind::Button, 2);
    let b = control(&mut core, Kind::Button, 3);
    let lone = control(&mut core, Kind::Label, 4);
    let mut calls = Vec::new();
    calls.extend(w.attach(&mut core, &a));
    calls.extend(w.attach(&mut core, &b));
    calls.extend(a.destroy(&mut core));
    calls.extend(w.destroy(&mut core));
    calls.extend(w.destroy(&mut core));
    calls.extend(a.destroy(&mut core));
    calls.extend(b.destroy(&mut core));
    calls.extend(lone.destroy(&mut core));
    calls.extend(lone.destroy(&mut core));
    calls.extend(core.teardown());
    assert_eq!(destroys(&calls, 1), 1);
    assert_eq!(destroys(&calls, 2), 0);
    assert_eq!(destroys(&calls, 3), 0);
    assert_eq!(destroys(&calls, 4), 1);
    for h in 1..=4 {
        assert_eq!(core.state_of(h), Some(Ownership::Destroyed));
    }
}

#[test]
fn teardown_destroys_every_root() {
    let mut core: Coordinator<Handler> = Coordinator::new();
    let w1 = control(&mut core, Kind::Window, 1);
    let w2 = control(&mut core, Kind::Window, 2);
    let b1 = control(&mut core, Kind::Button, 3);
    let b2 = control(&mut core, Kind::Button, 4);
    let gone = control(&mut core, Kind::Window, 5);
    let counter = Rc::new(Cell::new(0));
    w1.attach(&mut core, &b1).unwrap();
    w2.attach(&mut core, &b2).unwrap();
    b2.on(&mut core, EventKind::Clicked, counting(&counter, false)).unwrap();
    gone.destroy(&mut core).unwrap();
    let calls = core.teardown();
    assert_eq!(calls, vec![NativeCall::Destroy(1), NativeCall::Destroy(2)]);
    for h in 1..=5 {
        assert_eq!(core.state_of(h), Some(Ownership::Destroyed));
    }
    assert!(core.roots().is_empty());
    assert!(core.teardown().is_empty());
    assert_eq!(core.invoke(4, EventKind::Clicked, 0), ALLOW);
    assert_eq!(counter.get(), 0);
}

#[test]
fn teardown_of_nothing_calls_nothing() {
    let mut core: Coordinator<Handler> = Coordinator::new();
    assert!(core.teardown().is_empty());
}

#[test]
fn registering_again_replaces_the_closure() {
    let mut core: Coordinator<Handler> = Coordinator::new();
    let b = control(&mut core, Kind::Button, 2);
    let first = Rc::new(Cell::new(0));
    let second = Rc::new(Cell::new(0));
    assert_eq!(
        b.on(&mut core, EventKind::Clicked, counting(&first, true)),
        Ok(TrampolineHandle { handle: 2, event: EventKind::Clicked })
    );
    assert_eq!(
        b.on(&mut core, EventKind::Clicked, counting(&second, false)),
        Ok(TrampolineHandle { handle: 2, event: EventKind::Clicked })
    );
    assert_eq!(core.invoke(2, EventKind::Clicked, 0), false);
    assert_eq!(first.get(), 0);
    assert_eq!(second.get(), 1);
}

#[test]
fn closures_are_kept_per_control_and_event() {
    let mut core: Coordinator<Handler> = Coordinator::new();
    let a = control(&mut core, Kind::Slider, 1);
    let b = control(&mut core, Kind::Slider, 2);
    let a_changed = Rc::new(Cell::new(0));
    let a_clicked = Rc::new(Cell::new(0));
    let b_changed = Rc::new(Cell::new(0));
    a.on(&mut core, EventKind::Changed, counting(&a_changed, false)).unwrap();
    a.on(&mut core, EventKind::Clicked, counting(&a_clicked, true)).unwrap();
    b.on(&mut core, EventKind::Changed, counting(&b_changed, true)).unwrap();
    assert_eq!(core.invoke(1, EventKind::Changed, 3), false);
    assert_eq!(core.invoke(2, EventKind::Changed, 3), true);
    assert_eq!(core.invoke(2, EventKind::Changed, 4), true);
    assert_eq!(core.invoke(1, EventKind::Toggled, 0), ALLOW);
    assert_eq!((a_changed.get(), a_clicked.get(), b_changed.get()), (1, 0, 2));
}

#[test]
fn the_closure_is_told_about_the_event() {
    let mut core: Coordinator<Handler> = Coordinator::new();
    let s = control(&mut core, Kind::Slider, 9);
    let seen: Rc<Cell<Option<EventArgs>>> = Rc::new(Cell::new(None));
    let sink = Rc::clone(&seen);
    let closure: Handler = Box::new(move |args: EventArgs| {
        sink.set(Some(args));
        args.value > 10
    });
    s.on(&mut core, EventKind::Changed, closure).unwrap();
    assert_eq!(core.invoke(9, EventKind::Changed, 42), true);
    assert_eq!(seen.get(), Some(EventArgs { handle: 9, alive: true, value: 42 }));
    assert_eq!(core.invoke(9, EventKind::Changed, -3), false);
    assert_eq!(seen.get(), Some(EventArgs { handle: 9, alive: true, value: -3 }));
}

#[test]
fn events_of_a_destroyed_control_call_nothing() {
    let mut core: Coordinator<Handler> = Coordinator::new();
    let w = control(&mut core, Kind::Window, 1);
    let b = control(&mut core, Kind::Button, 2);
    let other = control(&mut core, Kind::Button, 3);
    let on_window = Rc::new(Cell::new(0));
    let on_button = Rc::new(Cell::new(0));
    let on_other = Rc::new(Cell::new(0));
    w.on(&mut core, EventKind::Closing, counting(&on_window, false)).unwrap();
    b.on(&mut core, EventKind::Clicked, counting(&on_button, false)).unwrap();
    other.on(&mut core, EventKind::Clicked, counting(&on_other, false)).unwrap();
    w.attach(&mut core, &b).unwrap();
    w.destroy(&mut core).unwrap();
    assert_eq!(core.invoke(1, EventKind::Closing, 0), ALLOW);
    assert_eq!(core.invoke(2, EventKind::Clicked, 0), ALLOW);
    assert_eq!((on_window.get(), on_button.get()), (0, 0));
    assert_eq!(core.invoke(3, EventKind::Clicked, 0), false);
    assert_eq!(on_other.get(), 1);
}

#[test]
fn destroy_drops_the_closures_of_the_subtree() {
    let mut core: Coordinator<Handler> = Coordinator::new();
    let w = control(&mut core, Kind::Window, 1);
    let b = control(&mut core, Kind::Button, 2);
    let token = Rc::new(Cell::new(0));
    b.on(&mut core, EventKind::Clicked, counting(&token, false)).unwrap();
    b.on(&mut core, EventKind::Toggled, counting(&token, false)).unwrap();
    w.attach(&mut core, &b).unwrap();
    assert_eq!(Rc::strong_count(&token), 3);
    w.destroy(&mut core).unwrap();
    assert_eq!(Rc::strong_count(&token), 1);
}

#[test]
fn trampoline_installs_the_event_handler() {
    let t = TrampolineHandle { handle: 6, event: EventKind::Changed };
    assert_eq!(
        t.install(Kind::Slider),
        Some(NativeCall::SetEventHandler { handle: 6, hook: Hook::SliderChanged })
    );
    assert_eq!(
        t.install(Kind::Entry),
        Some(NativeCall::SetEventHandler { handle: 6, hook: Hook::EntryChanged })
    );
    assert_eq!(t.install(Kind::Button), None);
    assert_eq!(t.install(Kind::ProgressBar), None);
}

#[test]
fn every_hook_is_found_by_its_kind_and_event() {
    let hooks = [
        (Hook::WindowClosing, Kind::Window, EventKind::Closing),
        (Hook::ButtonClicked, Kind::Button, EventKind::Clicked),
        (Hook::EntryChanged, Kind::Entry, EventKind::Changed),
        (Hook::CheckboxToggled, Kind::Checkbox, EventKind::Toggled),
        (Hook::SliderChanged, Kind::Slider, EventKind::Changed),
        (Hook::SpinboxChanged, Kind::Spinbox, EventKind::Changed),
        (Hook::ComboboxSelected, Kind::Combobox, EventKind::Selected),
    ];
    for (hook, kind, event) in hooks {
        assert_eq!(hook.kind(), kind);
        assert_eq!(hook.event(), event);
        assert_eq!(hook_for(kind, event), Some(hook));
    }
    assert_eq!(hook_for(Kind::Window, EventKind::Clicked), None);
    assert_eq!(hook_for(Kind::Button, EventKind::Closing), None);
    assert_eq!(hook_for(Kind::Label, EventKind::Changed), None);
    assert_eq!(hook_for(Kind::Tab, EventKind::Selected), None);
}

#[test]
fn signatures_name_their_kinds() {
    let kinds = [
        (Kind::Window, 0x57696E64u32),
        (Kind::Button, 0x42746F6E),
        (Kind::Label, 0x4C61626C),
        (Kind::Entry, 0x456E7472),
        (Kind::Checkbox, 0x43686B62),
        (Kind::Slider, 0x536C6964),
        (Kind::ProgressBar, 0x50426172),
        (Kind::Group, 0x47727062),
        (Kind::Tab, 0x54616273),
        (Kind::Stack, 0x426F784C),
        (Kind::Spinbox, 0x5370696E),
        (Kind::Combobox, 0x436F6D62),
    ];
    for (kind, signature) in kinds {
        assert_eq!(kind.signature(), signature);
        assert_eq!(kind_of_signature(signature), Some(kind));
    }
    assert_eq!(kind_of_signature(0), None);
    assert_eq!(kind_of_signature(0x41726561), None);
    assert_eq!(kind_of_signature(u32::MAX), None);
}

#[test]
fn downcast_by_signature_follows_the_toolkit() {
    let mut core: Coordinator<Handler> = Coordinator::new();
    let c = control(&mut core, Kind::Button, 11);
    assert_eq!(c.query_kind(&core), Ok(NativeCall::QueryKind(11)));
    assert_eq!(
        c.downcast_by_signature(0x42746F6E, Kind::Button),
        Some(TypedWrapper::wrap(11, Kind::Button))
    );
    assert_eq!(c.downcast_by_signature(0x42746F6E, Kind::Label), None);
    assert_eq!(c.downcast_by_signature(0x4C61626C, Kind::Button), None);
    assert_eq!(c.downcast_by_signature(0x12345678, Kind::Button), None);
    c.destroy(&mut core).unwrap();
    assert_eq!(c.query_kind(&core), Err(CoreError::UseAfterDestroy));
}

#[test]
fn downcast_follows_the_reported_kind() {
    let wrapper = TypedWrapper::wrap(11, Kind::Button);
    let facade = wrapper.as_control();
    assert_eq!(
        facade.downcast(Kind::Button, Kind::Button),
        Some(TypedWrapper::wrap(11, Kind::Button))
    );
    assert_eq!(facade.downcast(Kind::Button, Kind::Label), None);
    assert_eq!(facade.downcast(Kind::Label, Kind::Button), None);
    assert_eq!(
        wrapper.downcast(Kind::Slider, Kind::Slider),
        Some(TypedWrapper::wrap(11, Kind::Slider))
    );
    assert_eq!(wrapper.downcast(Kind::Window, Kind::Tab), None);
}

#[test]
fn copies_of_a_facade_share_the_control() {
    let mut core: Coordinator<Handler> = Coordinator::new();
    let w = control(&mut core, Kind::Window, 1);
    let copy = w;
    assert_eq!(copy.destroy(&mut core), Ok(NativeCall::Destroy(1)));
    assert_eq!(w.destroy(&mut core), Err(CoreError::UseAfterDestroy));
}

#[test]
fn tracker_follows_the_state_machine() {
    let mut tracker = OwnershipTracker::new();
    assert_eq!(tracker.register_root(0), Err(CoreError::AllocationFailed));
    assert_eq!(tracker.register_root(1), Ok(()));
    assert_eq!(tracker.register_root(1), Err(CoreError::AllocationFailed));
    assert_eq!(tracker.register_root(2), Ok(()));
    assert_eq!(tracker.register_root(3), Ok(()));
    assert!(tracker.is_alive(1));
    assert!(!tracker.is_alive(4));
    assert_eq!(tracker.attach(2, 1), Ok(()));
    assert_eq!(tracker.attach(3, 2), Ok(()));
    assert_eq!(tracker.attach(3, 1), Err(CoreError::AlreadyParented));
    assert_eq!(tracker.attach(4, 1), Err(CoreError::UseAfterDestroy));
    assert_eq!(tracker.attach(1, 4), Err(CoreError::UseAfterDestroy));
    assert_eq!(tracker.destroy_root(3), Err(CoreError::NotOwner));
    assert_eq!(tracker.destroy_root(4), Err(CoreError::UseAfterDestroy));
    assert_eq!(tracker.roots(), vec![1]);
    let mut released = tracker.destroy_root(1).unwrap();
    assert_eq!(released[0], 1);
    released.sort();
    assert_eq!(released, vec![1, 2, 3]);
    assert_eq!(tracker.destroy_root(1), Err(CoreError::UseAfterDestroy));
    assert_eq!(tracker.state_of(3), Some(Ownership::Destroyed));
    assert!(!tracker.is_alive(2));
    assert!(tracker.roots().is_empty());
}

#[test]
fn registry_stores_dispatches_and_purges() {
    let mut registry: CallbackRegistry<Handler> = CallbackRegistry::new();
    let hits = Rc::new(Cell::new(0));
    let args = EventArgs { handle: 1, alive: true, value: 0 };
    assert_eq!(registry.dispatch(1, EventKind::Clicked, args), None);
    registry.register(1, EventKind::Clicked, counting(&hits, false));
    registry.register(1, EventKind::Changed, counting(&hits, true));
    registry.register(2, EventKind::Clicked, counting(&hits, true));
    registry.register(1, EventKind::Toggled, counting(&hits, true));
    assert!(registry.is_registered(1, EventKind::Clicked));
    assert!(!registry.is_registered(2, EventKind::Changed));
    assert_eq!(registry.dispatch(1, EventKind::Clicked, args), Some(false));
    assert_eq!(registry.dispatch(1, EventKind::Changed, args), Some(true));
    assert_eq!(hits.get(), 2);
    registry.purge(1);
    assert!(!registry.is_registered(1, EventKind::Clicked));
    assert!(!registry.is_registered(1, EventKind::Changed));
    assert!(!registry.is_registered(1, EventKind::Toggled));
    assert!(registry.is_registered(2, EventKind::Clicked));
    assert_eq!(registry.dispatch(1, EventKind::Clicked, args), None);
    assert_eq!(registry.dispatch(2, EventKind::Clicked, args), Some(true));
    assert_eq!(hits.get(), 3);
    registry.purge(7);
    assert!(registry.is_registered(2, EventKind::Clicked));
}

#[test]
fn errors_describe_themselves() {
    assert_eq!(CoreError::AllocationFailed.message(), "the toolkit could not allocate the control");
    assert_eq!(CoreError::AlreadyParented.message(), "the control already belongs to a container");
    assert_eq!(CoreError::NotOwner.message(), "only the owning root may destroy the control");
    assert_eq!(CoreError::UseAfterDestroy.message(), "the control has been destroyed");
}

#[test]
fn purge_drops_the_closures_of_one_control() {
    let mut core: Coordinator<Handler> = Coordinator::new();
    let a = control(&mut core, Kind::Button, 1);
    let b = control(&mut core, Kind::Button, 2);
    let hits = Rc::new(Cell::new(0));
    a.on(&mut core, EventKind::Clicked, counting(&hits, false)).unwrap();
    a.on(&mut core, EventKind::Toggled, counting(&hits, false)).unwrap();
    b.on(&mut core, EventKind::Clicked, counting(&hits, false)).unwrap();
    assert!(core.is_registered(1, EventKind::Clicked));
    core.purge(1);
    assert!(!core.is_registered(1, EventKind::Clicked));
    assert!(!core.is_registered(1, EventKind::Toggled));
    assert!(core.is_registered(2, EventKind::Clicked));
    assert_eq!(core.invoke(1, EventKind::Clicked, 0), ALLOW);
    assert_eq!(core.invoke(2, EventKind::Clicked, 0), false);
    assert_eq!(hits.get(), 1);
    assert_eq!(core.state_of(1), Some(Ownership::Root));
}
