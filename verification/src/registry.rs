//! The observer registry: handles, registrations and fan-out.

use crate::model::handle_of;
use crate::model::increasing;
use crate::model::is_live;
use crate::model::is_other;
use crate::model::lemma_filter_agree;
use crate::model::lemma_filter_all;
use crate::model::lemma_filter_one_out;
use crate::model::lemma_filter_push;
use crate::model::FanOut;
use crate::model::Registration;
use crate::model::RegistryView;
use crate::observer::deliver;
use crate::observer::ObserverRef;
use vstd::prelude::*;

verus! {

/// What every holder of an observer registry offers to the outside: observers
/// can be registered and unregistered, nothing more. In particular the
/// interface gives no way to trigger a notification.
pub trait ObserverRegistry<E, S> {
    /// The state of the registry held.
    spec fn registry(&self) -> RegistryView<E, S>;

    /// Adds `observer` to the registry.
    ///
    /// Always succeeds, and returns the handle of the new registration, by
    /// which it can be removed again. The handle has never been issued by this
    /// registry before. `usize::MAX` registrations can be made in the lifetime
    /// of a registry.
    fn register(&mut self, observer: ObserverRef<E, S>) -> (handle: usize)
        requires
            old(self).registry().next_handle < usize::MAX,
        ensures
            handle == old(self).registry().next_handle,
            final(self).registry() == old(self).registry().register(observer),
            final(self).registry().wf(),
    ;

    /// Removes the registration made under `handle`.
    ///
    /// Returns whether there was one. A handle that is not registered, or no
    /// longer, is no error: nothing changes then.
    fn unregister(&mut self, handle: usize) -> (removed: bool)
        ensures
            removed == old(self).registry().handles().contains(handle),
            final(self).registry() == old(self).registry().unregister(handle),
            final(self).registry().wf(),
    ;
}

/// A registry of observers.
///
/// `Observers` is what a concrete subject is built on. It holds non-owning
/// references to observers of events of type `E` on a subject of type `S`,
/// each under a handle of its own, and notifies them on request. It never
/// keeps an observer alive: an observer whose last owner is gone is dropped
/// from the registry by the next notification.
///
/// Observers are notified in the order in which they were registered.
#[verifier::reject_recursive_types(E)]
#[verifier::reject_recursive_types(S)]
pub struct Observers<E, S> {
    next_id: usize,
    registry: Vec<Registration<E, S>>,
    history: Ghost<Seq<FanOut<E, S>>>,
}

impl<E, S> View for Observers<E, S> {
    type V = RegistryView<E, S>;

    closed spec fn view(&self) -> RegistryView<E, S> {
        RegistryView {
            next_handle: self.next_id as nat,
            entries: self.registry@,
            history: self.history@,
        }
    }
}

impl<E, S> Observers<E, S> {
    #[verifier::type_invariant]
    spec fn inv(&self) -> bool {
        self@.wf()
    }

    /// A registry without registrations.
    pub fn new() -> (observers: Self)
        ensures
            observers@ == RegistryView::<E, S>::empty(),
    {
        Observers { next_id: 0, registry: Vec::new(), history: Ghost(Seq::empty()) }
    }

    /// The handle that the next registration will receive.
    pub fn next_handle(&self) -> (next: usize)
        ensures
            next == self@.next_handle,
            self@.wf(),
    {
        proof {
            use_type_invariant(self);
        }
        self.next_id
    }

    /// The handles currently registered, oldest first.
    pub fn handles(&self) -> (handles: Vec<usize>)
        ensures
            handles@ == self@.handles(),
            self@.wf(),
    {
        proof {
            use_type_invariant(self);
        }
        let mut handles: Vec<usize> = Vec::new();
        let mut i: usize = 0;
        while i < self.registry.len()
            invariant
                i <= self.registry.len(),
                handles@ == self.registry@.take(i as int).map_values(handle_of()),
            decreases self.registry.len() - i,
        {
            handles.push(self.registry[i].handle);
            proof {
                assert(self.registry@.take(i + 1) == self.registry@.take(i as int).push(
                    self.registry@[i as int],
                ));
            }
            i += 1;
        }
        proof {
            assert(self.registry@.take(i as int) == self.registry@);
        }
        handles
    }

    /// Notifies all observers that are still alive of `event`.
    ///
    /// Every registered reference is resolved once. If its observer is alive,
    /// the observer is updated with `event` and `subject` and the registration
    /// is kept; otherwise the registration is dropped. All observers updated
    /// in one call see the same event and the same subject state.
    pub fn notify(&mut self, event: E, subject: &S)
        ensures
            old(self)@.notified(event, *subject, final(self)@),
            final(self)@.wf(),
    {
        proof {
            use_type_invariant(&*self);
        }
        let ghost before = self@;
        let mut pending: Vec<Registration<E, S>> = Vec::new();
        core::mem::swap(&mut pending, &mut self.registry);
        let mut kept: Vec<Registration<E, S>> = Vec::new();
        let ghost mut live: Set<usize> = Set::empty();
        let ghost mut delivered: Seq<usize> = Seq::empty();
        for entry in it: pending
            invariant
                increasing(before.handles()),
                it.seq() == before.entries,
                kept@ == before.entries.take(it.index() as int).filter(is_live(live)),
                delivered == kept@.map_values(handle_of()),
                forall|h: usize|
                    live.contains(h) ==> exists|j: int|
                        0 <= j < it.index() && #[trigger] before.handles()[j] == h,
        {
            let ghost i = it.index() as int;
            let ghost seen = before.entries.take(i);
            proof {
                assert(before.entries.take(i + 1) == seen.push(entry));
                assert(before.handles()[i] == entry.handle);
                assert forall|j: int| 0 <= j < i implies (#[trigger] seen[j]).handle
                    != entry.handle by {
                    assert(before.handles()[j] < before.handles()[i]);
                }
                assert(!live.contains(entry.handle)) by {
                    if live.contains(entry.handle) {
                        let j = choose|j: int| 0 <= j < i && before.handles()[j] == entry.handle;
                        assert(seen[j].handle == entry.handle);
                    }
                }
            }
            if deliver(entry.observer.upgrade(), &event, subject) {
                proof {
                    let wider = live.insert(entry.handle);
                    lemma_filter_agree(seen, is_live(live), is_live(wider));
                    lemma_filter_push(seen, entry, is_live(wider));
                    live = wider;
                    delivered = delivered.push(entry.handle);
                    assert(delivered == kept@.push(entry).map_values(handle_of()));
                }
                kept.push(entry);
            } else {
                proof {
                    lemma_filter_push(seen, entry, is_live(live));
                }
            }
        }
        proof {
            assert(before.entries.take(before.entries.len() as int) == before.entries);
            before.lemma_fan_out_wf(event, *subject, live);
        }
        self.history = Ghost(self.history@.push(FanOut { event, subject: *subject, delivered }));
        self.registry = kept;
        proof {
            assert(self@ == before.fan_out(event, *subject, live));
        }
    }
}

impl<E, S> ObserverRegistry<E, S> for Observers<E, S> {
    open spec fn registry(&self) -> RegistryView<E, S> {
        self@
    }

    fn register(&mut self, observer: ObserverRef<E, S>) -> (handle: usize) {
        proof {
            use_type_invariant(&*self);
            self@.lemma_register_wf(observer);
        }
        let handle = self.next_id;
        let mut registry: Vec<Registration<E, S>> = Vec::new();
        core::mem::swap(&mut registry, &mut self.registry);
        registry.push(Registration { handle, observer });
        self.next_id = handle + 1;
        self.registry = registry;
        handle
    }

    fn unregister(&mut self, handle: usize) -> (removed: bool) {
        proof {
            use_type_invariant(&*self);
            self@.lemma_unregister_wf(handle);
        }
        let ghost before = self@;
        let mut at: usize = 0;
        while at < self.registry.len() && self.registry[at].handle != handle
            invariant
                at <= self.registry.len(),
                forall|j: int| 0 <= j < at ==> (#[trigger] self.registry@[j]).handle != handle,
            decreases self.registry.len() - at,
        {
            at += 1;
        }
        if at < self.registry.len() {
            let mut registry: Vec<Registration<E, S>> = Vec::new();
            core::mem::swap(&mut registry, &mut self.registry);
            proof {
                assert forall|j: int| 0 <= j < registry@.len() implies is_other::<E, S>(handle)(
                    #[trigger] registry@[j],
                ) == (j != at) by {
                    if j != at {
                        assert(before.handles()[j] != before.handles()[at as int]);
                    }
                }
                lemma_filter_one_out(registry@, is_other(handle), at as int);
                assert(before.handles()[at as int] == handle);
            }
            registry.remove(at);
            self.registry = registry;
            true
        } else {
            proof {
                lemma_filter_all(self.registry@, is_other(handle));
                assert(!before.handles().contains(handle)) by {
                    if before.handles().contains(handle) {
                        let j = choose|j: int|
                            0 <= j < before.handles().len() && before.handles()[j] == handle;
                        assert(self.registry@[j].handle == handle);
                    }
                }
            }
            false
        }
    }
}

/// The registration side of an observer collection: observers can be
/// registered and unregistered through it, but nothing here notifies them.
///
/// A subject hands this out so that only the subject itself decides when its
/// observers are notified.
#[verifier::reject_recursive_types(E)]
#[verifier::reject_recursive_types(S)]
pub struct Registrar<E, S> {
    observers: Observers<E, S>,
}

impl<E, S> Registrar<E, S> {
    /// A registrar without registrations.
    pub(crate) fn new() -> (registrar: Self)
        ensures
            registrar.registry() == RegistryView::<E, S>::empty(),
    {
        Registrar { observers: Observers::new() }
    }

    /// The handle that the next registration will receive.
    pub fn next_handle(&self) -> (next: usize)
        ensures
            next == self.registry().next_handle,
            self.registry().wf(),
    {
        self.observers.next_handle()
    }

    /// The handles currently registered, oldest first.
    pub fn handles(&self) -> (handles: Vec<usize>)
        ensures
            handles@ == self.registry().handles(),
            self.registry().wf(),
    {
        self.observers.handles()
    }

    /// Notifies the registered observers; see [`Observers::notify`].
    pub(crate) fn notify(&mut self, event: E, subject: &S)
        ensures
            old(self).registry().notified(event, *subject, final(self).registry()),
            final(self).registry().wf(),
    {
        self.observers.notify(event, subject)
    }
}

impl<E, S> ObserverRegistry<E, S> for Registrar<E, S> {
    closed spec fn registry(&self) -> RegistryView<E, S> {
        self.observers@
    }

    fn register(&mut self, observer: ObserverRef<E, S>) -> (handle: usize) {
        self.observers.register(observer)
    }

    fn unregister(&mut self, handle: usize) -> (removed: bool) {
        self.observers.unregister(handle)
    }
}

} // verus!
