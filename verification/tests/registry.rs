use observable::observer::Observer;
use observable::observer::ObserverRef;
use observable::registry::ObserverRegistry;
use observable::registry::Observers;
use std::cell::RefCell;
use std::rc::Rc;
use std::rc::Weak;

/// Remembers everything it is shown, under a name.
struct Recorder {
    name: &'static str,
    seen: RefCell<Vec<(u32, String)>>,
    order: Rc<RefCell<Vec<&'static str>>>,
}

impl Recorder {
    fn new(name: &'static str, order: &Rc<RefCell<Vec<&'static str>>>) -> Rc<Recorder> {
        Rc::new(Recorder { name, seen: RefCell::new(Vec::new()), order: order.clone() })
    }

    fn seen(&self) -> Vec<(u32, String)> {
        self.seen.borrow().clone()
    }
}

impl Observer<u32, String> for Recorder {
    fn update(&self, event: &u32, subject: &String) {
        self.seen.borrow_mut().push((*event, subject.clone()));
        self.order.borrow_mut().push(self.name);
    }
}

/// An observer of a subject's changes that takes no note of them.
struct Silent;

impl Observer<(), String> for Silent {
    fn update(&self, _event: &(), _subject: &String) {}
}

fn order() -> Rc<RefCell<Vec<&'static str>>> {
    Rc::new(RefCell::new(Vec::new()))
}

#[test]
fn new_registry_is_empty() {
    let observers: Observers<u32, String> = Observers::new();
    assert_eq!(observers.next_handle(), 0);
    assert_eq!(observers.handles(), Vec::<usize>::new());
}

#[test]
fn notify_without_observers_does_nothing() {
    let mut observers: Observers<u32, String> = Observers::new();
    observers.notify(1, &String::from("state"));
    assert_eq!(observers.next_handle(), 0);
    assert_eq!(observers.handles(), Vec::<usize>::new());
}

#[test]
fn handles_count_up_from_zero() {
    let log = order();
    let a = Recorder::new("a", &log);
    let mut observers: Observers<u32, String> = Observers::new();

    assert_eq!(observers.register(ObserverRef::new(&a)), 0);
    assert_eq!(observers.register(ObserverRef::new(&a)), 1);
    assert_eq!(observers.register(ObserverRef::new(&a)), 2);
    assert_eq!(observers.next_handle(), 3);
    assert_eq!(observers.handles(), vec![0, 1, 2]);
}

#[test]
fn handles_are_not_reused_after_unregister() {
    let log = order();
    let a = Recorder::new("a", &log);
    let mut observers: Observers<u32, String> = Observers::new();

    let first = observers.register(ObserverRef::new(&a));
    let second = observers.register(ObserverRef::new(&a));
    assert!(observers.unregister(second));
    assert!(observers.unregister(first));
    assert_eq!(observers.handles(), Vec::<usize>::new());

    let third = observers.register(ObserverRef::new(&a));
    assert_eq!(third, 2);
    assert_ne!(third, first);
    assert_ne!(third, second);
    assert_eq!(observers.handles(), vec![2]);
}

#[test]
fn unregister_reports_whether_an_entry_was_removed() {
    let log = order();
    let a = Recorder::new("a", &log);
    let mut observers: Observers<u32, String> = Observers::new();

    assert!(!observers.unregister(0));
    let handle = observers.register(ObserverRef::new(&a));
    assert!(!observers.unregister(handle + 1));
    assert!(observers.unregister(handle));
    assert!(!observers.unregister(handle));
    assert_eq!(observers.next_handle(), 1);
}

#[test]
fn unregister_removes_only_the_handle_given() {
    let log = order();
    let a = Recorder::new("a", &log);
    let b = Recorder::new("b", &log);
    let c = Recorder::new("c", &log);
    let mut observers: Observers<u32, String> = Observers::new();
    observers.register(ObserverRef::new(&a));
    let middle = observers.register(ObserverRef::new(&b));
    observers.register(ObserverRef::new(&c));

    assert!(observers.unregister(middle));
    assert_eq!(observers.handles(), vec![0, 2]);

    observers.notify(7, &String::from("s"));
    assert_eq!(a.seen(), vec![(7, String::from("s"))]);
    assert_eq!(b.seen(), vec![]);
    assert_eq!(c.seen(), vec![(7, String::from("s"))]);
}

#[test]
fn every_live_observer_gets_the_same_event_and_state_once() {
    let log = order();
    let a = Recorder::new("a", &log);
    let b = Recorder::new("b", &log);
    let mut observers: Observers<u32, String> = Observers::new();
    observers.register(ObserverRef::new(&a));
    observers.register(ObserverRef::new(&b));

    observers.notify(5, &String::from("first"));
    observers.notify(6, &String::from("second"));

    let expected = vec![(5, String::from("first")), (6, String::from("second"))];
    assert_eq!(a.seen(), expected);
    assert_eq!(b.seen(), expected);
}

#[test]
fn observers_are_notified_in_registration_order() {
    let log = order();
    let a = Recorder::new("a", &log);
    let b = Recorder::new("b", &log);
    let c = Recorder::new("c", &log);
    let mut observers: Observers<u32, String> = Observers::new();
    observers.register(ObserverRef::new(&c));
    observers.register(ObserverRef::new(&a));
    observers.register(ObserverRef::new(&b));

    observers.notify(0, &String::new());
    assert_eq!(*log.borrow(), vec!["c", "a", "b"]);

    // the order survives a fan-out and a removal
    assert!(observers.unregister(1));
    observers.notify(0, &String::new());
    assert_eq!(*log.borrow(), vec!["c", "a", "b", "c", "b"]);
}

#[test]
fn same_observer_registered_twice_is_notified_twice() {
    let log = order();
    let a = Recorder::new("a", &log);
    let mut observers: Observers<u32, String> = Observers::new();
    let first = observers.register(ObserverRef::new(&a));
    let second = observers.register(ObserverRef::new(&a));
    assert_ne!(first, second);

    observers.notify(1, &String::from("x"));
    assert_eq!(a.seen().len(), 2);

    // each registration is removed on its own
    assert!(observers.unregister(first));
    observers.notify(2, &String::from("y"));
    assert_eq!(a.seen().len(), 3);
    assert!(observers.unregister(second));
    observers.notify(3, &String::from("z"));
    assert_eq!(a.seen().len(), 3);
}

#[test]
fn dead_observers_are_pruned_by_the_next_notify() {
    let log = order();
    let a = Recorder::new("a", &log);
    let b = Recorder::new("b", &log);
    let c = Recorder::new("c", &log);
    let mut observers: Observers<u32, String> = Observers::new();
    observers.register(ObserverRef::new(&a));
    observers.register(ObserverRef::new(&b));
    observers.register(ObserverRef::new(&c));

    drop(b);
    // destruction alone changes nothing in the registry
    assert_eq!(observers.handles(), vec![0, 1, 2]);

    observers.notify(9, &String::from("s"));
    assert_eq!(observers.handles(), vec![0, 2]);
    assert_eq!(*log.borrow(), vec!["a", "c"]);
    assert_eq!(a.seen(), vec![(9, String::from("s"))]);
    assert_eq!(c.seen(), vec![(9, String::from("s"))]);

    // pruning does not give the handle back
    assert_eq!(observers.next_handle(), 3);
    assert!(!observers.unregister(1));
}

#[test]
fn observer_kept_alive_elsewhere_stays_registered() {
    let log = order();
    let a = Recorder::new("a", &log);
    let also_a = a.clone();
    let mut observers: Observers<u32, String> = Observers::new();
    observers.register(ObserverRef::new(&a));

    drop(a);
    observers.notify(4, &String::from("s"));

    assert_eq!(observers.handles(), vec![0]);
    assert_eq!(also_a.seen(), vec![(4, String::from("s"))]);
}

#[test]
fn registry_does_not_keep_observers_alive() {
    let log = order();
    let a = Recorder::new("a", &log);
    let mut observers: Observers<u32, String> = Observers::new();
    observers.register(ObserverRef::new(&a));

    assert_eq!(Rc::strong_count(&a), 1);
    let weak = Rc::downgrade(&a);
    drop(a);
    assert!(weak.upgrade().is_none());

    observers.notify(1, &String::new());
    assert_eq!(observers.handles(), Vec::<usize>::new());
    assert!(log.borrow().is_empty());
}

#[test]
fn all_dead_leaves_an_empty_registry() {
    let log = order();
    let mut observers: Observers<u32, String> = Observers::new();
    for _ in 0..4 {
        let gone = Recorder::new("gone", &log);
        observers.register(ObserverRef::new(&gone));
    }
    assert_eq!(observers.handles(), vec![0, 1, 2, 3]);

    observers.notify(1, &String::new());

    assert_eq!(observers.handles(), Vec::<usize>::new());
    assert_eq!(observers.next_handle(), 4);
    assert!(log.borrow().is_empty());
}

#[test]
fn deliver_updates_a_resolved_observer_once() {
    let log = order();
    let a = Recorder::new("a", &log);
    let resolved: Rc<dyn Observer<u32, String>> = a.clone();

    assert!(observable::observer::deliver(Some(resolved), &3, &String::from("now")));

    assert_eq!(a.seen(), vec![(3, String::from("now"))]);
    assert_eq!(*log.borrow(), vec!["a"]);
}

#[test]
fn deliver_does_nothing_for_an_observer_that_is_gone() {
    let gone: Option<Rc<dyn Observer<u32, String>>> = None;
    assert!(!observable::observer::deliver(gone, &3, &String::from("now")));
}

#[test]
fn root_names_reach_the_registry_types() {
    let log = order();
    let a = Recorder::new("a", &log);
    let mut observers: observable::Observers<u32, String> = observable::Observers::new();
    let handle = observable::ObserverRegistry::register(
        &mut observers,
        observable::ObserverRef::new(&a),
    );
    observers.notify(1, &String::from("s"));
    assert_eq!(handle, 0);
    assert_eq!(a.seen(), vec![(1, String::from("s"))]);
}

#[test]
fn existing_weak_reference_can_be_registered() {
    let log = order();
    let a = Recorder::new("a", &log);
    let weak: Weak<dyn Observer<u32, String>> = Rc::<Recorder>::downgrade(&a);
    let mut observers: Observers<u32, String> = Observers::new();

    let handle = observers.register(ObserverRef(weak));
    observers.notify(8, &String::from("s"));

    assert_eq!(handle, 0);
    assert_eq!(a.seen(), vec![(8, String::from("s"))]);
    assert_eq!(Rc::strong_count(&a), 1);

    drop(a);
    observers.notify(9, &String::from("t"));
    assert_eq!(observers.handles(), Vec::<usize>::new());
}

#[test]
fn weak_reference_to_an_unsized_observer_can_be_registered() {
    let log = order();
    let a = Recorder::new("a", &log);
    let unsized_owner: Rc<dyn Observer<u32, String>> = a.clone();
    let mut observers: Observers<u32, String> = Observers::new();

    observers.register(ObserverRef(Rc::downgrade(&unsized_owner)));
    observers.notify(1, &String::from("s"));
    assert_eq!(a.seen(), vec![(1, String::from("s"))]);

    // a weak reference that never pointed anywhere is pruned like a dead one
    let nowhere: Weak<Recorder> = Weak::new();
    observers.register(ObserverRef(nowhere));
    assert_eq!(observers.handles(), vec![0, 1]);
    observers.notify(2, &String::from("t"));
    assert_eq!(observers.handles(), vec![0]);
    assert_eq!(a.seen().len(), 2);
}

#[test]
fn registrar_of_a_subject_tells_its_handles() {
    let log = order();
    let a = Recorder::new("a", &log);
    let mut subject = observable::subject::Subject::new(String::from("v"));
    assert_eq!(subject.observers().next_handle(), 0);
    assert_eq!(subject.observers().handles(), Vec::<usize>::new());

    let weak: Weak<dyn Observer<(), String>> = Weak::<Silent>::new();
    subject.observers().register(ObserverRef(weak));
    assert_eq!(subject.observers().next_handle(), 1);
    assert_eq!(subject.observers().handles(), vec![0]);

    // the reference never resolved: the mutation prunes it and notifies nobody
    subject.mutate(|value| value.push('w'));
    assert_eq!(subject.observers().handles(), Vec::<usize>::new());
    assert_eq!(subject.observers().next_handle(), 1);
    assert_eq!(subject.get(), "vw");
    assert!(a.seen().is_empty());
}
