//! A value that notifies its observers after every change.

use crate::model::FanOut;
use crate::model::RegistryView;
use crate::observer::ObserverRef;
use crate::registry::ObserverRegistry;
use crate::registry::Registrar;
use crate::runs::deliveries;
use crate::runs::is_notification_run;
use crate::runs::lemma_each_notification_is_recorded_once;
use crate::runs::lemma_registered_observer_sees_every_notification;
use vstd::prelude::*;

verus! {

/// The event a [`Subject`] emits: its value has changed.
pub type Changed = ();

/// A value together with the observers interested in it.
///
/// The value can be read at any time, but changed only through
/// [`Subject::mutate`] and [`Subject::maybe_mutate`], which notify the
/// observers once the change is complete. Observers therefore never see a
/// value in the middle of a change.
#[verifier::reject_recursive_types(T)]
pub struct Subject<T> {
    inner: T,
    observers: Registrar<Changed, T>,
}

impl<T> Subject<T> {
    /// The value held.
    pub closed spec fn value(&self) -> T {
        self.inner
    }

    /// Whether the observers of this subject were notified once, and shown
    /// the value of `after`, on the way to `after`.
    pub open spec fn notified_into(self, after: Self) -> bool {
        self.registry().notified((), after.value(), after.registry())
    }

    /// Wraps `inner`. The new subject has no observers.
    pub fn new(inner: T) -> (subject: Subject<T>)
        ensures
            subject.value() == inner,
            subject.registry() == RegistryView::<Changed, T>::empty(),
    {
        Subject { inner, observers: Registrar::new() }
    }

    /// Reads the value. Nobody is notified.
    pub fn get(&self) -> (value: &T)
        ensures
            *value == self.value(),
    {
        &self.inner
    }

    /// The handle that the next registration will receive.
    pub fn next_handle(&self) -> (next: usize)
        ensures
            next == self.registry().next_handle,
            self.registry().wf(),
    {
        self.observers.next_handle()
    }

    /// The handles currently registered, oldest first.
    pub fn handles(&self) -> (handles: Vec<usize>)
        ensures
            handles@ == self.registry().handles(),
            self.registry().wf(),
    {
        self.observers.handles()
    }

    /// Gives the value back and discards the registrations. Nobody is
    /// notified.
    pub fn into_inner(self) -> (value: T)
        ensures
            value == self.value(),
    {
        self.inner
    }

    /// Lets `f` edit the value in place and, if `f` reports a change by
    /// returning `true`, notifies the observers once with the edited value.
    ///
    /// The subject relies on what `f` reports: after an edit that `f` does not
    /// report, the observers have not seen the current value.
    pub fn maybe_mutate<F>(&mut self, f: F) where F: Fn(&mut T) -> bool
        requires
            forall|v: &mut T| *v == old(self).value() ==> call_requires(f, (v,)),
        ensures
            exists|v: &mut T, changed: bool|
                ({
                    &&& *v == old(self).value()
                    &&& *final(v) == final(self).value()
                    &&& call_ensures(f, (v,), changed)
                    &&& changed ==> (*old(self)).notified_into(*final(self))
                    &&& changed ==> final(self).registry().wf()
                    &&& !changed ==> final(self).registry() == old(self).registry()
                }),
    {
        if f(&mut self.inner) {
            self.observers.notify((), &self.inner);
        }
    }

    /// Lets `f` edit the value in place, then notifies the observers once
    /// with the edited value, however many edits `f` made.
    pub fn mutate<F>(&mut self, f: F) where F: Fn(&mut T)
        requires
            forall|v: &mut T| *v == old(self).value() ==> call_requires(f, (v,)),
        ensures
            exists|v: &mut T|
                *v == old(self).value() && *final(v) == final(self).value() && call_ensures(
                    f,
                    (v,),
                    (),
                ),
            (*old(self)).notified_into(*final(self)),
            final(self).registry().wf(),
    {
        let edit = &f;
        let edit_and_report = |v: &mut T| -> (changed: bool)
            requires
                forall|r: &mut T| *r == *v ==> call_requires(edit, (r,)),
            ensures
                exists|r: &mut T|
                    *r == *old(v) && *final(r) == *final(v) && call_ensures(edit, (r,), ()),
                changed,
            {
                edit(v);
                true
            };
        self.maybe_mutate(edit_and_report)
    }

    /// The registrations of this subject. Observers can be registered and
    /// unregistered through the result; it offers no way to notify them.
    pub fn observers(&mut self) -> (registrar: &mut Registrar<Changed, T>)
        ensures
            registrar.registry() == old(self).registry(),
            final(self).value() == old(self).value(),
            final(self).registry() == final(registrar).registry(),
    {
        &mut self.observers
    }
}

impl<T> ObserverRegistry<Changed, T> for Subject<T> {
    closed spec fn registry(&self) -> RegistryView<Changed, T> {
        self.observers.registry()
    }

    fn register(&mut self, observer: ObserverRef<Changed, T>) -> (handle: usize)
        ensures
            final(self).value() == old(self).value(),
    {
        self.observers.register(observer)
    }

    fn unregister(&mut self, handle: usize) -> (removed: bool)
        ensures
            final(self).value() == old(self).value(),
    {
        self.observers.unregister(handle)
    }
}

/// Whether `states[i + 1]` is what a call of [`Subject::mutate`] on
/// `states[i]` may leave, as far as the observers go.
pub open spec fn mutated_at<T>(states: Seq<Subject<T>>, i: int) -> bool {
    states[i].notified_into(states[i + 1])
}

/// A run of calls of [`Subject::mutate`] on one subject, given by the subject
/// before the first call and after each call.
pub open spec fn is_mutation_run<T>(states: Seq<Subject<T>>) -> bool {
    &&& states.len() > 0
    &&& forall|i: int| 0 <= i < states.len() - 1 ==> #[trigger] mutated_at(states, i)
}

/// The registries that a run of mutations goes through.
spec fn registries_of<T>(states: Seq<Subject<T>>) -> Seq<RegistryView<Changed, T>> {
    Seq::new(states.len(), |i: int| states[i].registry())
}

/// The values that the mutations of a run leave, one for each call.
spec fn values_after<T>(states: Seq<Subject<T>>) -> Seq<T> {
    Seq::new((states.len() - 1) as nat, |i: int| states[i + 1].value())
}

/// The events that the mutations of a run emit, one for each call.
spec fn changes_of<T>(states: Seq<Subject<T>>) -> Seq<Changed> {
    Seq::new((states.len() - 1) as nat, |i: int| ())
}

/// The registries of a run of mutations form a run of fan-outs, each showing
/// the value after its call.
proof fn lemma_mutation_run_notifies<T>(states: Seq<Subject<T>>)
    requires
        is_mutation_run(states),
    ensures
        is_notification_run(registries_of(states), changes_of(states), values_after(states)),
{
    let registries = registries_of(states);
    let events = changes_of(states);
    let subjects = values_after(states);
    assert forall|i: int|
        #![trigger events[i]]
        0 <= i < events.len() implies registries[i].notified(
        events[i],
        subjects[i],
        registries[i + 1],
    ) by {
        assert(mutated_at(states, i));
    }
}

/// Over any run of calls of [`Subject::mutate`], each call triggers exactly
/// one fan-out, and that fan-out shows the value as it is after the call to
/// exactly the observers that are registered after the call. No observer is
/// shown any other state of the value.
pub proof fn lemma_each_mutation_notifies_once<T>(states: Seq<Subject<T>>)
    requires
        is_mutation_run(states),
        states[0].registry().wf(),
    ensures
        ({
            let first = states[0].registry();
            let last = states.last().registry();
            &&& last.wf()
            &&& first.history_kept_by(last)
            &&& last.history.len() == first.history.len() + states.len() - 1
            &&& forall|i: int|
                1 <= i < states.len() ==> last.history[first.history.len() + i - 1] == (FanOut {
                    event: (),
                    subject: (#[trigger] states[i]).value(),
                    delivered: states[i].registry().handles(),
                })
        }),
{
    let first = states[0].registry();
    let last = states.last().registry();
    let events = changes_of(states);
    let subjects = values_after(states);
    lemma_mutation_run_notifies(states);
    lemma_each_notification_is_recorded_once(registries_of(states), events, subjects);
    assert forall|i: int| 1 <= i < states.len() implies last.history[first.history.len() + i - 1]
        == (FanOut {
        event: (),
        subject: (#[trigger] states[i]).value(),
        delivered: states[i].registry().handles(),
    }) by {
        assert(events[i - 1] == ());
        assert(subjects[i - 1] == states[i].value());
    }
}

/// Two observers that are both still registered after a run of calls of
/// [`Subject::mutate`] were notified alike: every call of the run invoked
/// both in one fan-out, so with the same event and the same value, and the
/// number of deliveries to each grew by the number of calls.
pub proof fn lemma_observers_are_notified_alike<T>(states: Seq<Subject<T>>, a: usize, b: usize)
    requires
        is_mutation_run(states),
        states[0].registry().wf(),
        states.last().registry().handles().contains(a),
        states.last().registry().handles().contains(b),
    ensures
        ({
            let first = states[0].registry();
            let last = states.last().registry();
            &&& forall|k: int|
                first.history.len() <= k < last.history.len() ==> (
                #[trigger] last.history[k]).delivered.contains(a)
                    && last.history[k].delivered.contains(b)
            &&& deliveries(last.history, a) == deliveries(first.history, a) + states.len() - 1
            &&& deliveries(last.history, b) == deliveries(first.history, b) + states.len() - 1
        }),
{
    let registries = registries_of(states);
    let events = changes_of(states);
    let subjects = values_after(states);
    lemma_mutation_run_notifies(states);
    lemma_registered_observer_sees_every_notification(registries, events, subjects, a);
    lemma_registered_observer_sees_every_notification(registries, events, subjects, b);
}

} // verus!
