//! Observable collections: a list and a double-ended queue whose structural
//! changes are reported to observers.

use crate::model::RegistryView;
use crate::observer::ObserverRef;
use crate::registry::ObserverRegistry;
use crate::registry::Observers;
use std::collections::VecDeque;
use vstd::prelude::*;

verus! {

/// A structural change of a collection, with the position of the element or
/// elements it concerns.
#[derive(Debug, PartialEq, Eq)]
pub enum Event<K> {
    /// An element was added; it is found at the position.
    Added(K),
    /// The element at the position is about to be removed.
    Remove(K),
    /// The elements at the two positions changed places.
    Swapped(K, K),
    /// The element at the position was edited in place.
    Modified(K),
    /// All elements were removed.
    Reset,
}

/// Exchanges the elements of `items` at positions `a` and `b`.
///
/// Calls the slice method `swap`, which exchanges the two elements and leaves
/// all others in place, and panics when a position is out of bounds.
#[verifier::external_body]
fn swap_in_vec<T>(items: &mut Vec<T>, a: usize, b: usize)
    requires
        a < old(items)@.len(),
        b < old(items)@.len(),
    ensures
        final(items)@ == old(items)@.update(a as int, old(items)@[b as int]).update(
            b as int,
            old(items)@[a as int],
        ),
{
    items.swap(a, b)
}

/// A list that reports its changes to observers.
#[verifier::reject_recursive_types(T)]
pub struct ObservableVec<T> {
    inner: Vec<T>,
    registry: Observers<Event<usize>, Vec<T>>,
}

impl<T> ObservableVec<T> {
    /// The list held.
    pub closed spec fn items(&self) -> Vec<T> {
        self.inner
    }

    /// An empty list without observers.
    pub fn new() -> (list: Self)
        ensures
            list.items()@ == Seq::<T>::empty(),
            list.registry() == RegistryView::<Event<usize>, Vec<T>>::empty(),
    {
        ObservableVec { inner: Vec::new(), registry: Observers::new() }
    }

    /// Reads the list. Nobody is notified.
    pub fn get(&self) -> (items: &Vec<T>)
        ensures
            *items == self.items(),
    {
        &self.inner
    }

    /// The handle that the next registration will receive.
    pub fn next_handle(&self) -> (next: usize)
        ensures
            next == self.registry().next_handle,
            self.registry().wf(),
    {
        self.registry.next_handle()
    }

    /// The handles currently registered, oldest first.
    pub fn handles(&self) -> (handles: Vec<usize>)
        ensures
            handles@ == self.registry().handles(),
            self.registry().wf(),
    {
        self.registry.handles()
    }

    /// Exchanges the elements at positions `a` and `b`, then notifies the
    /// observers of `Swapped(a, b)`.
    pub fn swap(&mut self, a: usize, b: usize)
        requires
            a < old(self).items()@.len(),
            b < old(self).items()@.len(),
        ensures
            final(self).items()@ == old(self).items()@.update(
                a as int,
                old(self).items()@[b as int],
            ).update(b as int, old(self).items()@[a as int]),
            old(self).registry().notified(
                Event::Swapped(a, b),
                final(self).items(),
                final(self).registry(),
            ),
            final(self).registry().wf(),
    {
        swap_in_vec(&mut self.inner, a, b);
        self.registry.notify(Event::Swapped(a, b), &self.inner);
    }

    /// Lets `f` edit the element at position `idx` in place, then notifies the
    /// observers of `Modified(idx)`.
    pub fn modify<F: Fn(&mut T)>(&mut self, idx: usize, f: F)
        requires
            idx < old(self).items()@.len(),
            forall|v: &mut T| *v == old(self).items()@[idx as int] ==> call_requires(f, (v,)),
        ensures
            exists|v: &mut T|
                ({
                    &&& *v == old(self).items()@[idx as int]
                    &&& call_ensures(f, (v,), ())
                    &&& final(self).items()@ == old(self).items()@.update(idx as int, *final(v))
                }),
            old(self).registry().notified(
                Event::Modified(idx),
                final(self).items(),
                final(self).registry(),
            ),
            final(self).registry().wf(),
    {
        f(&mut self.inner[idx]);
        self.registry.notify(Event::Modified(idx), &self.inner);
    }

    /// Removes all elements, then notifies the observers of `Reset`.
    pub fn clear(&mut self)
        ensures
            final(self).items()@ == Seq::<T>::empty(),
            old(self).registry().notified(
                Event::Reset,
                final(self).items(),
                final(self).registry(),
            ),
            final(self).registry().wf(),
    {
        self.inner.clear();
        self.registry.notify(Event::Reset, &self.inner);
    }

    /// Appends `value`, then notifies the observers of `Added` with the
    /// position of the new element, which is the last.
    pub fn push(&mut self, value: T)
        ensures
            final(self).items()@ == old(self).items()@.push(value),
            old(self).registry().notified(
                Event::Added(old(self).items()@.len() as usize),
                final(self).items(),
                final(self).registry(),
            ),
            final(self).registry().wf(),
    {
        self.inner.push(value);
        self.registry.notify(Event::Added(self.inner.len() - 1), &self.inner);
    }

    /// Removes the last element and returns it, or returns `None` if the list
    /// is empty.
    ///
    /// The observers are notified of `Remove` with the position of the last
    /// element before it is taken out: they are shown the list that still
    /// holds it. On an empty list nobody is notified.
    pub fn pop(&mut self) -> (value: Option<T>)
        ensures
            old(self).items()@.len() == 0 ==> ({
                &&& value is None
                &&& final(self).items() == old(self).items()
                &&& final(self).registry() == old(self).registry()
            }),
            old(self).items()@.len() > 0 ==> ({
                &&& value == Some(old(self).items()@.last())
                &&& final(self).items()@ == old(self).items()@.drop_last()
                &&& old(self).registry().notified(
                    Event::Remove((old(self).items()@.len() - 1) as usize),
                    old(self).items(),
                    final(self).registry(),
                )
                &&& final(self).registry().wf()
            }),
    {
        if self.inner.len() == 0 {
            return None;
        }
        self.registry.notify(Event::Remove(self.inner.len() - 1), &self.inner);
        self.inner.pop()
    }
}

impl<T> ObserverRegistry<Event<usize>, Vec<T>> for ObservableVec<T> {
    closed spec fn registry(&self) -> RegistryView<Event<usize>, Vec<T>> {
        self.registry@
    }

    fn register(&mut self, observer: ObserverRef<Event<usize>, Vec<T>>) -> (handle: usize)
        ensures
            final(self).items() == old(self).items(),
    {
        self.registry.register(observer)
    }

    fn unregister(&mut self, handle: usize) -> (removed: bool)
        ensures
            final(self).items() == old(self).items(),
    {
        self.registry.unregister(handle)
    }
}

/// Exchanges the elements of `items` at positions `a` and `b`.
///
/// Calls `VecDeque::swap`, which exchanges the two elements and leaves all
/// others in place, and panics when a position is out of bounds. Position 0
/// is the front of the queue.
#[verifier::external_body]
fn swap_in_deque<T>(items: &mut VecDeque<T>, a: usize, b: usize)
    requires
        a < old(items)@.len(),
        b < old(items)@.len(),
    ensures
        final(items)@ == old(items)@.update(a as int, old(items)@[b as int]).update(
            b as int,
            old(items)@[a as int],
        ),
{
    items.swap(a, b)
}

/// The element of `items` at position `idx`, for editing in place.
///
/// Indexes the queue mutably (`IndexMut` of `VecDeque`), which hands out the
/// element at that position and panics when the position is out of bounds.
/// Whatever the element is changed to takes its place; the others stay.
#[verifier::external_body]
fn element_of_deque<T>(items: &mut VecDeque<T>, idx: usize) -> (element: &mut T)
    requires
        idx < old(items)@.len(),
    ensures
        *element == old(items)@[idx as int],
        final(items)@ == old(items)@.update(idx as int, *final(element)),
{
    &mut items[idx]
}

/// A double-ended queue that reports its changes to observers.
#[verifier::reject_recursive_types(T)]
pub struct ObservableVecDeque<T> {
    inner: VecDeque<T>,
    registry: Observers<Event<usize>, VecDeque<T>>,
}

impl<T> ObservableVecDeque<T> {
    /// The queue held.
    pub closed spec fn items(&self) -> VecDeque<T> {
        self.inner
    }

    /// An empty queue without observers.
    pub fn new() -> (queue: Self)
        ensures
            queue.items()@ == Seq::<T>::empty(),
            queue.registry() == RegistryView::<Event<usize>, VecDeque<T>>::empty(),
    {
        ObservableVecDeque { inner: VecDeque::new(), registry: Observers::new() }
    }

    /// Reads the queue. Nobody is notified.
    pub fn get(&self) -> (items: &VecDeque<T>)
        ensures
            *items == self.items(),
    {
        &self.inner
    }

    /// The handle that the next registration will receive.
    pub fn next_handle(&self) -> (next: usize)
        ensures
            next == self.registry().next_handle,
            self.registry().wf(),
    {
        self.registry.next_handle()
    }

    /// The handles currently registered, oldest first.
    pub fn handles(&self) -> (handles: Vec<usize>)
        ensures
            handles@ == self.registry().handles(),
            self.registry().wf(),
    {
        self.registry.handles()
    }

    /// Exchanges the elements at positions `a` and `b`, then notifies the
    /// observers of `Swapped(a, b)`.
    pub fn swap(&mut self, a: usize, b: usize)
        requires
            a < old(self).items()@.len(),
            b < old(self).items()@.len(),
        ensures
            final(self).items()@ == old(self).items()@.update(
                a as int,
                old(self).items()@[b as int],
            ).update(b as int, old(self).items()@[a as int]),
            old(self).registry().notified(
                Event::Swapped(a, b),
                final(self).items(),
                final(self).registry(),
            ),
            final(self).registry().wf(),
    {
        swap_in_deque(&mut self.inner, a, b);
        self.registry.notify(Event::Swapped(a, b), &self.inner);
    }

    /// Lets `f` edit the element at position `idx` in place, then notifies the
    /// observers of `Modified(idx)`.
    pub fn modify<F: Fn(&mut T)>(&mut self, idx: usize, f: F)
        requires
            idx < old(self).items()@.len(),
            forall|v: &mut T| *v == old(self).items()@[idx as int] ==> call_requires(f, (v,)),
        ensures
            exists|v: &mut T|
                ({
                    &&& *v == old(self).items()@[idx as int]
                    &&& call_ensures(f, (v,), ())
                    &&& final(self).items()@ == old(self).items()@.update(idx as int, *final(v))
                }),
            old(self).registry().notified(
                Event::Modified(idx),
                final(self).items(),
                final(self).registry(),
            ),
            final(self).registry().wf(),
    {
        f(element_of_deque(&mut self.inner, idx));
        self.registry.notify(Event::Modified(idx), &self.inner);
    }

    /// Removes all elements, then notifies the observers of `Reset`.
    pub fn clear(&mut self)
        ensures
            final(self).items()@ == Seq::<T>::empty(),
            old(self).registry().notified(
                Event::Reset,
                final(self).items(),
                final(self).registry(),
            ),
            final(self).registry().wf(),
    {
        self.inner.clear();
        self.registry.notify(Event::Reset, &self.inner);
    }

    /// Appends `value` at the back, then notifies the observers of `Added`
    /// with the position of the new element, which is the last.
    pub fn push_back(&mut self, value: T)
        ensures
            final(self).items()@ == old(self).items()@.push(value),
            old(self).registry().notified(
                Event::Added(old(self).items()@.len() as usize),
                final(self).items(),
                final(self).registry(),
            ),
            final(self).registry().wf(),
    {
        self.inner.push_back(value);
        self.registry.notify(Event::Added(self.inner.len() - 1), &self.inner);
    }

    /// Removes the element at the back and returns it, or returns `None` if
    /// the queue is empty.
    ///
    /// The observers are notified of `Remove` with the position of the last
    /// element before it is taken out: they are shown the queue that still
    /// holds it. On an empty queue nobody is notified.
    pub fn pop_back(&mut self) -> (value: Option<T>)
        ensures
            old(self).items()@.len() == 0 ==> ({
                &&& value is None
                &&& final(self).items() == old(self).items()
                &&& final(self).registry() == old(self).registry()
            }),
            old(self).items()@.len() > 0 ==> ({
                &&& value == Some(old(self).items()@.last())
                &&& final(self).items()@ == old(self).items()@.drop_last()
                &&& old(self).registry().notified(
                    Event::Remove((old(self).items()@.len() - 1) as usize),
                    old(self).items(),
                    final(self).registry(),
                )
                &&& final(self).registry().wf()
            }),
    {
        if self.inner.len() == 0 {
            return None;
        }
        self.registry.notify(Event::Remove(self.inner.len() - 1), &self.inner);
        self.inner.pop_back()
    }

    /// Inserts `value` at the front, then notifies the observers of `Added`
    /// with the position of the new element, which is 0.
    pub fn push_front(&mut self, value: T)
        ensures
            final(self).items()@ == seq![value] + old(self).items()@,
            old(self).registry().notified(
                Event::Added(0),
                final(self).items(),
                final(self).registry(),
            ),
            final(self).registry().wf(),
    {
        self.inner.push_front(value);
        self.registry.notify(Event::Added(0), &self.inner);
    }

    /// Removes the element at the front and returns it, or returns `None` if
    /// the queue is empty.
    ///
    /// The observers are notified of `Remove` with the position of the front
    /// element, which is 0, before it is taken out: they are shown the queue
    /// that still holds it. On an empty queue nobody is notified.
    pub fn pop_front(&mut self) -> (value: Option<T>)
        ensures
            old(self).items()@.len() == 0 ==> ({
                &&& value is None
                &&& final(self).items() == old(self).items()
                &&& final(self).registry() == old(self).registry()
            }),
            old(self).items()@.len() > 0 ==> ({
                &&& value == Some(old(self).items()@.first())
                &&& final(self).items()@ == old(self).items()@.drop_first()
                &&& old(self).registry().notified(
                    Event::Remove(0),
                    old(self).items(),
                    final(self).registry(),
                )
                &&& final(self).registry().wf()
            }),
    {
        if self.inner.len() == 0 {
            return None;
        }
        self.registry.notify(Event::Remove(0), &self.inner);
        self.inner.pop_front()
    }
}

impl<T> ObserverRegistry<Event<usize>, VecDeque<T>> for ObservableVecDeque<T> {
    closed spec fn registry(&self) -> RegistryView<Event<usize>, VecDeque<T>> {
        self.registry@
    }

    fn register(&mut self, observer: ObserverRef<Event<usize>, VecDeque<T>>) -> (handle: usize)
        ensures
            final(self).items() == old(self).items(),
    {
        self.registry.register(observer)
    }

    fn unregister(&mut self, handle: usize) -> (removed: bool)
        ensures
            final(self).items() == old(self).items(),
    {
        self.registry.unregister(handle)
    }
}

} // verus!
