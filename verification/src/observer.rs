//! Observers and the non-owning references a registry keeps of them.

use std::rc::Rc;
use std::rc::Weak;
use vstd::prelude::*;

verus! {

/// Something that wants to know of the changes of a subject.
///
/// An observer is updated whenever a subject of type `S` that it is
/// registered to emits an event of type `E`. It receives the subject by shared
/// reference, so it can read the state it is shown but never change it. While
/// it is being updated the subject is borrowed by the notification: an
/// observer cannot reach back into it to change the value or the
/// registrations.
pub trait Observer<E, S> {
    /// Takes note of `event`, which `subject` has just emitted.
    fn update(&self, event: &E, subject: &S);
}

impl<T, E, S> Observer<E, S> for Box<T> where T: Observer<E, S> {
    fn update(&self, event: &E, subject: &S) {
        (**self).update(event, subject)
    }
}

/// A non-owning reference to an observer.
///
/// Wraps a `std::rc::Weak` pointer to the observer: `ObserverRef(weak)` makes
/// a reference of a weak pointer that exists already, [`ObserverRef::new`]
/// makes one for an observer that is owned through an `Rc`. The observer
/// lives as long as somebody else owns it; once its last owner is gone the
/// reference no longer resolves. The pointer is hidden from the verifier,
/// which treats a value of this type as opaque.
#[verifier::external_body]
#[verifier::reject_recursive_types(E)]
#[verifier::reject_recursive_types(S)]
pub struct ObserverRef<E, S>(pub Weak<dyn Observer<E, S>>);

/// A reference to `observer` that does not keep it alive.
///
/// Calls `Rc::downgrade`. Nothing is claimed of the result.
#[verifier::external_body]
fn downgrade<E, S, O: Observer<E, S> + 'static>(observer: &Rc<O>) -> (reference: ObserverRef<
    E,
    S,
>) {
    let target: Weak<O> = Rc::downgrade(observer);
    ObserverRef(target)
}

impl<E, S> ObserverRef<E, S> {
    /// Makes a reference to `observer` that does not keep it alive.
    ///
    /// The reference is the weak pointer that `Rc::downgrade` gives for
    /// `observer`. What such a pointer refers to, and whether it still does,
    /// shows only when it is resolved, so no property of the result is stated.
    pub fn new<O: Observer<E, S> + 'static>(observer: &Rc<O>) -> (reference: Self) {
        downgrade(observer)
    }

    /// Resolves the reference: the observer if it is still alive, `None` once
    /// it has been destroyed.
    ///
    /// Calls `Weak::upgrade`. Whether the observer is alive is decided by its
    /// owners, outside of what the verifier sees, so nothing is claimed of the
    /// result.
    #[verifier::external_body]
    pub(crate) fn upgrade(&self) -> (observer: Option<Rc<dyn Observer<E, S>>>) {
        self.0.upgrade()
    }
}

/// Settles one registration whose reference has been resolved to `resolved`.
///
/// An observer that is alive is updated with `event` and `subject`, once; for
/// one that is gone nothing is done. Returns whether the observer was alive,
/// which is whether its registration is to be kept.
pub fn deliver<E, S>(resolved: Option<Rc<dyn Observer<E, S>>>, event: &E, subject: &S) -> (alive:
    bool)
    ensures
        alive == (resolved is Some),
{
    match resolved {
        Some(observer) => {
            observer.update(event, subject);
            true
        },
        None => false,
    }
}

} // verus!
