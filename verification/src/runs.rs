//! Runs of operations on a registry, and what holds of every run.
//!
//! A run is given by the states a registry goes through. The statements here
//! hold whatever the operations of the run are and whichever observers are
//! found alive by its fan-outs.

use crate::model::is_live;
use crate::model::is_other;
use crate::model::lemma_filter_keeps_order;
use crate::model::FanOut;
use crate::model::RegistryView;
use crate::observer::ObserverRef;
use vstd::prelude::*;

verus! {

/// How many of the fan-outs in `history` invoked the observer registered under
/// `handle`.
pub open spec fn deliveries<E, S>(history: Seq<FanOut<E, S>>, handle: usize) -> nat
    decreases history.len(),
{
    if history.len() == 0 {
        0
    } else {
        let earlier = deliveries(history.drop_last(), handle);
        if history.last().delivered.contains(handle) {
            earlier + 1
        } else {
            earlier
        }
    }
}

/// Whether state `i + 1` of `states` follows from state `i` by one operation.
pub open spec fn steps_at<E, S>(states: Seq<RegistryView<E, S>>, i: int) -> bool {
    states[i].step(states[i + 1])
}

/// A run of operations on one registry: every state follows from the one
/// before it by a registration, a removal or a fan-out.
pub open spec fn is_run<E, S>(states: Seq<RegistryView<E, S>>) -> bool {
    &&& states.len() > 0
    &&& forall|i: int| 0 <= i < states.len() - 1 ==> #[trigger] steps_at(states, i)
}

/// A run of fan-outs on one registry: state `i + 1` follows from state `i` by
/// a fan-out of `events[i]` and `subjects[i]`.
pub open spec fn is_notification_run<E, S>(
    states: Seq<RegistryView<E, S>>,
    events: Seq<E>,
    subjects: Seq<S>,
) -> bool {
    &&& states.len() == events.len() + 1
    &&& subjects.len() == events.len()
    &&& forall|i: int|
        #![trigger events[i]]
        0 <= i < events.len() ==> states[i].notified(events[i], subjects[i], states[i + 1])
}

impl<E, S> RegistryView<E, S> {
    /// Whether `after` follows from this registry by one operation: a
    /// registration, a removal or a fan-out.
    pub open spec fn step(self, after: Self) -> bool {
        ||| exists|observer: ObserverRef<E, S>|
            self.next_handle < usize::MAX && after == #[trigger] self.register(observer)
        ||| exists|handle: usize| after == #[trigger] self.unregister(handle)
        ||| exists|event: E, subject: S| #[trigger] self.notified(event, subject, after)
    }

    /// One operation leaves a handle that is issued but not registered as it
    /// is: it does not become registered again and is not delivered to. The
    /// operation keeps the registry well formed and the history recorded so
    /// far.
    pub proof fn lemma_step_keeps_handle_retired(self, after: Self, handle: usize)
        requires
            self.wf(),
            self.step(after),
            handle < self.next_handle,
            !self.handles().contains(handle),
        ensures
            after.wf(),
            self.next_handle <= after.next_handle,
            !after.handles().contains(handle),
            self.history_kept_by(after),
            forall|k: int|
                self.history.len() <= k < after.history.len() ==> !(
                #[trigger] after.history[k]).delivered.contains(handle),
    {
        if exists|observer: ObserverRef<E, S>|
            self.next_handle < usize::MAX && after == #[trigger] self.register(observer) {
            let observer = choose|observer: ObserverRef<E, S>|
                self.next_handle < usize::MAX && after == #[trigger] self.register(observer);
            self.lemma_register_wf(observer);
            if after.handles().contains(handle) {
                let i = choose|i: int| 0 <= i < after.handles().len() && after.handles()[i]
                    == handle;
                if i < self.handles().len() {
                    assert(self.handles()[i] == handle);
                }
            }
            assert(after.history.take(self.history.len() as int) == self.history);
        } else if exists|gone: usize| after == #[trigger] self.unregister(gone) {
            let gone = choose|gone: usize| after == #[trigger] self.unregister(gone);
            self.lemma_unregister_wf(gone);
            lemma_filter_keeps_order(self.entries, is_other(gone), self.next_handle);
            let kept = self.entries.filter(is_other(gone));
            if after.handles().contains(handle) {
                let i = choose|i: int| 0 <= i < after.handles().len() && after.handles()[i]
                    == handle;
                assert(self.entries.contains(kept[i]));
                let j = choose|j: int| 0 <= j < self.entries.len() && self.entries[j] == kept[i];
                assert(self.handles()[j] == handle);
            }
            assert(after.history.take(self.history.len() as int) == self.history);
        } else {
            let (event, subject) = choose|event: E, subject: S| #[trigger]
                self.notified(event, subject, after);
            let live = choose|live: Set<usize>| after == #[trigger] self.fan_out(
                event,
                subject,
                live,
            );
            self.lemma_fan_out_wf(event, subject, live);
            self.lemma_fan_out_reaches_the_living(event, subject, live, handle);
            assert(after.history.take(self.history.len() as int) == self.history);
        }
    }
}

/// Over a run of operations a handle that is issued but not registered stays
/// so: it is never registered again, and no fan-out of the run delivers to
/// it. The run keeps the registry well formed and its history.
pub proof fn lemma_retired_handle_stays_silent<E, S>(
    states: Seq<RegistryView<E, S>>,
    handle: usize,
)
    requires
        is_run(states),
        states[0].wf(),
        handle < states[0].next_handle,
        !states[0].handles().contains(handle),
    ensures
        states.last().wf(),
        states[0].next_handle <= states.last().next_handle,
        !states.last().handles().contains(handle),
        states[0].history_kept_by(states.last()),
        forall|k: int|
            states[0].history.len() <= k < states.last().history.len() ==> !(
            #[trigger] states.last().history[k]).delivered.contains(handle),
    decreases states.len(),
{
    let first = states[0];
    if states.len() == 1 {
        assert(first.history.take(first.history.len() as int) == first.history);
    } else {
        let front = states.drop_last();
        assert(is_run(front)) by {
            assert forall|i: int| 0 <= i < front.len() - 1 implies #[trigger] steps_at(
                front,
                i,
            ) by {
                assert(steps_at(states, i));
            }
        }
        lemma_retired_handle_stays_silent(front, handle);
        let before = front.last();
        let after = states.last();
        assert(steps_at(states, states.len() - 2));
        before.lemma_step_keeps_handle_retired(after, handle);
        assert(after.history.take(first.history.len() as int) == first.history) by {
            assert(after.history.take(before.history.len() as int).take(
                first.history.len() as int,
            ) == after.history.take(first.history.len() as int));
        }
        assert forall|k: int| first.history.len() <= k < after.history.len() implies !(
        #[trigger] after.history[k]).delivered.contains(handle) by {
            if k < before.history.len() {
                assert(after.history.take(before.history.len() as int)[k] == before.history[k]);
            }
        }
    }
}

/// Over a run of operations the next handle never decreases.
pub proof fn lemma_next_handle_never_decreases<E, S>(
    states: Seq<RegistryView<E, S>>,
    i: int,
    j: int,
)
    requires
        is_run(states),
        0 <= i <= j < states.len(),
    ensures
        states[i].next_handle <= states[j].next_handle,
    decreases j - i,
{
    if i < j {
        lemma_next_handle_never_decreases(states, i, j - 1);
        assert(steps_at(states, j - 1));
    }
}

/// No handle is issued twice: of two registrations in a run, the later one
/// receives the greater handle, whatever was registered, removed or notified
/// in between.
pub proof fn lemma_handles_are_issued_once<E, S>(
    states: Seq<RegistryView<E, S>>,
    i: int,
    j: int,
    first: ObserverRef<E, S>,
    second: ObserverRef<E, S>,
)
    requires
        is_run(states),
        0 <= i < j < states.len() - 1,
        states[i + 1] == states[i].register(first),
        states[j + 1] == states[j].register(second),
    ensures
        states[i].next_handle < states[j].next_handle,
{
    lemma_next_handle_never_decreases(states, i + 1, j);
}

/// An observer that is registered and unregistered at once is never invoked:
/// whatever is done with the registry afterwards, no fan-out delivers to the
/// handle it had, and the handle is not issued again.
pub proof fn lemma_unregistered_observer_is_never_notified<E, S>(
    start: RegistryView<E, S>,
    observer: ObserverRef<E, S>,
    states: Seq<RegistryView<E, S>>,
)
    requires
        start.wf(),
        start.next_handle < usize::MAX,
        is_run(states),
        states[0] == start.register(observer).unregister(start.next_handle as usize),
    ensures
        states[0].history == start.history,
        start.history_kept_by(states.last()),
        !states.last().handles().contains(start.next_handle as usize),
        forall|k: int|
            start.history.len() <= k < states.last().history.len() ==> !(
            #[trigger] states.last().history[k]).delivered.contains(start.next_handle as usize),
{
    let handle = start.next_handle as usize;
    let registered = start.register(observer);
    start.lemma_register_wf(observer);
    start.lemma_issued_handle_is_new();
    registered.lemma_unregister_wf(handle);
    let kept = registered.entries.filter(is_other(handle));
    broadcast use Seq::lemma_filter_pred;
    if states[0].handles().contains(handle) {
        let i = choose|i: int| 0 <= i < states[0].handles().len() && states[0].handles()[i]
            == handle;
        assert(is_other::<E, S>(handle)(kept[i]));
    }
    lemma_retired_handle_stays_silent(states, handle);
}

/// Counting the deliveries after one more fan-out.
proof fn lemma_deliveries_push<E, S>(
    history: Seq<FanOut<E, S>>,
    record: FanOut<E, S>,
    handle: usize,
)
    ensures
        record.delivered.contains(handle) ==> deliveries(history.push(record), handle)
            == deliveries(history, handle) + 1,
        !record.delivered.contains(handle) ==> deliveries(history.push(record), handle)
            == deliveries(history, handle),
{
    assert(history.push(record).drop_last() == history);
}

/// Over a run of fan-outs every fan-out is recorded exactly once, in order:
/// the record of fan-out `i` holds its event and its subject state, and as
/// the observers invoked exactly those that are registered after it.
pub proof fn lemma_each_notification_is_recorded_once<E, S>(
    states: Seq<RegistryView<E, S>>,
    events: Seq<E>,
    subjects: Seq<S>,
)
    requires
        is_notification_run(states, events, subjects),
        states[0].wf(),
    ensures
        states.last().wf(),
        states[0].history_kept_by(states.last()),
        states.last().history.len() == states[0].history.len() + events.len(),
        forall|i: int|
            #![trigger events[i]]
            0 <= i < events.len() ==> states.last().history[states[0].history.len() + i] == (
            FanOut { event: events[i], subject: subjects[i], delivered: states[i + 1].handles() }),
    decreases events.len(),
{
    let first = states[0];
    let base = first.history.len() as int;
    if events.len() == 0 {
        assert(first.history.take(base) == first.history);
    } else {
        let n = events.len() as int;
        let front = states.drop_last();
        let before = front.last();
        let after = states.last();
        lemma_shorter_notification_run(states, events, subjects);
        lemma_each_notification_is_recorded_once(front, events.drop_last(), subjects.drop_last());
        let live = choose|live: Set<usize>| after == #[trigger] before.fan_out(
            events[n - 1],
            subjects[n - 1],
            live,
        );
        before.lemma_fan_out_wf(events[n - 1], subjects[n - 1], live);
        before.lemma_fan_out_reaches_the_living(events[n - 1], subjects[n - 1], live, 0);
        assert(after.history.take(base) == first.history) by {
            assert(after.history.take(before.history.len() as int) == before.history);
            assert(after.history.take(before.history.len() as int).take(base)
                == after.history.take(base));
        }
        assert forall|i: int|
            #![trigger events[i]]
            0 <= i < n implies after.history[base + i] == (FanOut {
            event: events[i],
            subject: subjects[i],
            delivered: states[i + 1].handles(),
        }) by {
            if i < n - 1 {
                assert(after.history[base + i] == before.history[base + i]);
                let shorter = events.drop_last();
                assert(shorter[i] == events[i]);
                assert(subjects.drop_last()[i] == subjects[i]);
                assert(front[i + 1] == states[i + 1]);
            }
        }
    }
}

/// A run of fan-outs without its last one is a run of fan-outs.
proof fn lemma_shorter_notification_run<E, S>(
    states: Seq<RegistryView<E, S>>,
    events: Seq<E>,
    subjects: Seq<S>,
)
    requires
        is_notification_run(states, events, subjects),
        events.len() > 0,
    ensures
        is_notification_run(states.drop_last(), events.drop_last(), subjects.drop_last()),
        states.drop_last().last().notified(events.last(), subjects.last(), states.last()),
{
    let n = events.len() as int;
    let front = states.drop_last();
    let shorter = events.drop_last();
    assert forall|i: int| #![trigger shorter[i]] 0 <= i < n - 1 implies front[i].notified(
        shorter[i],
        subjects.drop_last()[i],
        front[i + 1],
    ) by {
        assert(shorter[i] == events[i]);
    }
    assert(events.last() == events[n - 1]);
}

/// A fan-out registers nobody: an observer registered after a run of
/// fan-outs was registered before it, and before each of them.
proof fn lemma_registered_throughout<E, S>(
    states: Seq<RegistryView<E, S>>,
    events: Seq<E>,
    subjects: Seq<S>,
    handle: usize,
)
    requires
        is_notification_run(states, events, subjects),
        states[0].wf(),
        states.last().handles().contains(handle),
    ensures
        forall|i: int| 0 <= i < states.len() ==> (#[trigger] states[i]).handles().contains(handle),
    decreases events.len(),
{
    if events.len() > 0 {
        let front = states.drop_last();
        let before = front.last();
        let after = states.last();
        lemma_shorter_notification_run(states, events, subjects);
        lemma_each_notification_is_recorded_once(front, events.drop_last(), subjects.drop_last());
        let live = choose|live: Set<usize>| after == #[trigger] before.fan_out(
            events.last(),
            subjects.last(),
            live,
        );
        before.lemma_fan_out_reaches_the_living(events.last(), subjects.last(), live, handle);
        lemma_registered_throughout(front, events.drop_last(), subjects.drop_last(), handle);
        assert forall|i: int| 0 <= i < states.len() implies (
        #[trigger] states[i]).handles().contains(handle) by {
            if i < states.len() - 1 {
                assert(front[i].handles().contains(handle));
            }
        }
    }
}

/// Each fan-out of a run adds one to the deliveries of an observer that is
/// registered after the run.
proof fn lemma_deliveries_grow_with_the_run<E, S>(
    states: Seq<RegistryView<E, S>>,
    events: Seq<E>,
    subjects: Seq<S>,
    handle: usize,
)
    requires
        is_notification_run(states, events, subjects),
        states[0].wf(),
        forall|i: int| 0 <= i < states.len() ==> (#[trigger] states[i]).handles().contains(handle),
    ensures
        deliveries(states.last().history, handle) == deliveries(states[0].history, handle)
            + events.len(),
    decreases events.len(),
{
    if events.len() > 0 {
        let front = states.drop_last();
        let before = front.last();
        let after = states.last();
        lemma_shorter_notification_run(states, events, subjects);
        lemma_each_notification_is_recorded_once(front, events.drop_last(), subjects.drop_last());
        let live = choose|live: Set<usize>| after == #[trigger] before.fan_out(
            events.last(),
            subjects.last(),
            live,
        );
        before.lemma_fan_out_reaches_the_living(events.last(), subjects.last(), live, handle);
        assert forall|i: int| 0 <= i < front.len() implies (#[trigger] front[i]).handles().contains(
            handle,
        ) by {
            assert(states[i].handles().contains(handle));
        }
        lemma_deliveries_grow_with_the_run(front, events.drop_last(), subjects.drop_last(), handle);
        assert(states[states.len() - 1].handles().contains(handle));
        lemma_deliveries_push(before.history, after.history.last(), handle);
    }
}

/// An observer that is still registered after a run of fan-outs was
/// registered throughout, and every fan-out of the run invoked it: the number
/// of deliveries to it grew by the number of fan-outs.
pub proof fn lemma_registered_observer_sees_every_notification<E, S>(
    states: Seq<RegistryView<E, S>>,
    events: Seq<E>,
    subjects: Seq<S>,
    handle: usize,
)
    requires
        is_notification_run(states, events, subjects),
        states[0].wf(),
        states.last().handles().contains(handle),
    ensures
        forall|i: int| 0 <= i < states.len() ==> (#[trigger] states[i]).handles().contains(handle),
        forall|k: int|
            states[0].history.len() <= k < states.last().history.len() ==> (
            #[trigger] states.last().history[k]).delivered.contains(handle),
        deliveries(states.last().history, handle) == deliveries(states[0].history, handle)
            + events.len(),
{
    lemma_registered_throughout(states, events, subjects, handle);
    lemma_deliveries_grow_with_the_run(states, events, subjects, handle);
    lemma_each_notification_is_recorded_once(states, events, subjects);
    assert forall|k: int|
        states[0].history.len() <= k < states.last().history.len() implies (
    #[trigger] states.last().history[k]).delivered.contains(handle) by {
        let i = k - states[0].history.len();
        assert(states.last().history[states[0].history.len() + i] == (FanOut {
            event: events[i],
            subject: subjects[i],
            delivered: states[i + 1].handles(),
        }));
        assert(states[i + 1].handles().contains(handle));
    }
}

} // verus!
