//! The mathematical model of an observer registry.
//!
//! A registry is described by three things: the next handle it will hand
//! out, the registrations it currently holds (in registration order), and the
//! record of every fan-out it has performed. Each operation of a registry is a
//! function on this model; the executable types state their contracts over it.

use crate::observer::ObserverRef;
use vstd::prelude::*;

verus! {

/// One registration: the handle that identifies it and the reference stored
/// under that handle.
#[verifier::reject_recursive_types(E)]
#[verifier::reject_recursive_types(S)]
pub struct Registration<E, S> {
    pub handle: usize,
    pub observer: ObserverRef<E, S>,
}

/// The record of one fan-out: the event, the subject state shown with it, and
/// the handles of the observers that were invoked, in the order of invocation.
/// Every observer named in `delivered` was invoked exactly once, with this
/// event and this state.
pub struct FanOut<E, S> {
    pub event: E,
    pub subject: S,
    pub delivered: Seq<usize>,
}

/// The state of a registry.
#[verifier::reject_recursive_types(E)]
#[verifier::reject_recursive_types(S)]
pub struct RegistryView<E, S> {
    /// The handle that the next registration receives. Never decreases.
    pub next_handle: nat,
    /// The registrations held, oldest first.
    pub entries: Seq<Registration<E, S>>,
    /// Every fan-out performed so far, oldest first.
    pub history: Seq<FanOut<E, S>>,
}

/// The handle of a registration.
pub open spec fn handle_of<E, S>() -> spec_fn(Registration<E, S>) -> usize {
    |r: Registration<E, S>| r.handle
}

/// The registrations whose handle is in `live`.
pub open spec fn is_live<E, S>(live: Set<usize>) -> spec_fn(Registration<E, S>) -> bool {
    |r: Registration<E, S>| live.contains(r.handle)
}

/// The registrations whose handle is not `handle`.
pub open spec fn is_other<E, S>(handle: usize) -> spec_fn(Registration<E, S>) -> bool {
    |r: Registration<E, S>| r.handle != handle
}

/// Every handle is smaller than the ones after it.
pub open spec fn increasing(handles: Seq<usize>) -> bool {
    forall|i: int, j: int| 0 <= i < j < handles.len() ==> handles[i] < handles[j]
}

/// Every handle is smaller than `bound`.
pub open spec fn below(handles: Seq<usize>, bound: nat) -> bool {
    forall|i: int| 0 <= i < handles.len() ==> #[trigger] handles[i] < bound
}

/// Every handle that received a delivery is smaller than `bound`.
pub open spec fn delivered_below<E, S>(history: Seq<FanOut<E, S>>, bound: nat) -> bool {
    forall|k: int| 0 <= k < history.len() ==> below(#[trigger] history[k].delivered, bound)
}

impl<E, S> RegistryView<E, S> {
    /// A registry that has never been used.
    pub open spec fn empty() -> Self {
        RegistryView { next_handle: 0, entries: Seq::empty(), history: Seq::empty() }
    }

    /// The handles currently registered, oldest first.
    pub open spec fn handles(self) -> Seq<usize> {
        self.entries.map_values(handle_of())
    }

    /// Handles are issued in increasing order and never reused: the
    /// registered ones are strictly increasing, and no handle that is
    /// registered or that ever received a delivery has reached `next_handle`.
    pub open spec fn wf(self) -> bool {
        &&& self.next_handle <= usize::MAX
        &&& increasing(self.handles())
        &&& below(self.handles(), self.next_handle)
        &&& delivered_below(self.history, self.next_handle)
    }

    /// Registers `observer` under the next handle.
    pub open spec fn register(self, observer: ObserverRef<E, S>) -> Self {
        RegistryView {
            next_handle: self.next_handle + 1,
            entries: self.entries.push(
                Registration { handle: self.next_handle as usize, observer },
            ),
            history: self.history,
        }
    }

    /// Removes the registration made under `handle`, if there is one.
    pub open spec fn unregister(self, handle: usize) -> Self {
        RegistryView {
            next_handle: self.next_handle,
            entries: self.entries.filter(is_other(handle)),
            history: self.history,
        }
    }

    /// One fan-out of `event` and `subject`, where `live` holds the handles
    /// whose observer is still alive: exactly those registrations are invoked
    /// and kept, all others are dropped without being invoked.
    pub open spec fn fan_out(self, event: E, subject: S, live: Set<usize>) -> Self {
        let kept = self.entries.filter(is_live(live));
        RegistryView {
            next_handle: self.next_handle,
            entries: kept,
            history: self.history.push(
                FanOut { event, subject, delivered: kept.map_values(handle_of()) },
            ),
        }
    }

    /// Whether `after` is this registry after one fan-out of `event` and
    /// `subject`, for some set of observers found alive.
    pub open spec fn notified(self, event: E, subject: S, after: Self) -> bool {
        exists|live: Set<usize>| after == #[trigger] self.fan_out(event, subject, live)
    }

    /// Whether the history of `later` begins with the whole history of this
    /// registry: what has been recorded is never rewritten.
    pub open spec fn history_kept_by(self, later: Self) -> bool {
        &&& self.history.len() <= later.history.len()
        &&& later.history.take(self.history.len() as int) == self.history
    }
}

/// Two predicates that agree on every element of a sequence select the same
/// elements of it.
pub(crate) proof fn lemma_filter_agree<A>(s: Seq<A>, p: spec_fn(A) -> bool, q: spec_fn(A) -> bool)
    requires
        forall|i: int| 0 <= i < s.len() ==> p(#[trigger] s[i]) == q(s[i]),
    ensures
        s.filter(p) == s.filter(q),
    decreases s.len(),
{
    reveal(Seq::filter);
    if s.len() > 0 {
        lemma_filter_agree(s.drop_last(), p, q);
    }
}

/// Filtering after one more element: the element is appended if it is
/// selected, and left out if it is not.
pub(crate) proof fn lemma_filter_push<A>(s: Seq<A>, x: A, p: spec_fn(A) -> bool)
    ensures
        p(x) ==> s.push(x).filter(p) == s.filter(p).push(x),
        !p(x) ==> s.push(x).filter(p) == s.filter(p),
{
    reveal(Seq::filter);
    assert(s.push(x).drop_last() == s);
}

/// A predicate that holds of every element selects the whole sequence.
pub(crate) proof fn lemma_filter_all<A>(s: Seq<A>, p: spec_fn(A) -> bool)
    requires
        forall|i: int| 0 <= i < s.len() ==> p(#[trigger] s[i]),
    ensures
        s.filter(p) == s,
    decreases s.len(),
{
    reveal(Seq::filter);
    if s.len() > 0 {
        lemma_filter_all(s.drop_last(), p);
        assert(s.drop_last().push(s.last()) == s);
    }
}

/// Where exactly one element fails a predicate, filtering removes that
/// element and nothing else.
pub(crate) proof fn lemma_filter_one_out<A>(s: Seq<A>, p: spec_fn(A) -> bool, at: int)
    requires
        0 <= at < s.len(),
        forall|i: int| 0 <= i < s.len() ==> p(#[trigger] s[i]) == (i != at),
    ensures
        s.filter(p) == s.remove(at),
    decreases s.len(),
{
    reveal(Seq::filter);
    let front = s.drop_last();
    if at == s.len() - 1 {
        lemma_filter_all(front, p);
        assert(s.remove(at) == front);
    } else {
        lemma_filter_one_out(front, p, at);
        assert(front.remove(at).push(s.last()) == s.remove(at));
    }
}

/// Selecting from a strictly increasing run of registrations leaves a
/// strictly increasing run, bounded as before.
pub(crate) proof fn lemma_filter_keeps_order<E, S>(
    entries: Seq<Registration<E, S>>,
    p: spec_fn(Registration<E, S>) -> bool,
    bound: nat,
)
    requires
        increasing(entries.map_values(handle_of())),
        below(entries.map_values(handle_of()), bound),
    ensures
        increasing(entries.filter(p).map_values(handle_of())),
        below(entries.filter(p).map_values(handle_of()), bound),
        forall|i: int|
            0 <= i < entries.filter(p).len() ==> entries.contains(#[trigger] entries.filter(p)[i]),
    decreases entries.len(),
{
    reveal(Seq::filter);
    if entries.len() > 0 {
        let front = entries.drop_last();
        let last = entries.last();
        assert forall|i: int| 0 <= i < front.len() implies (#[trigger] front[i]).handle
            < last.handle by {
            assert(entries.map_values(handle_of())[i] < entries.map_values(handle_of())[
                entries.len() - 1
            ]);
        }
        assert(increasing(front.map_values(handle_of()))) by {
            assert forall|i: int, j: int| 0 <= i < j < front.len() implies front.map_values(
                handle_of(),
            )[i] < front.map_values(handle_of())[j] by {
                assert(entries.map_values(handle_of())[i] < entries.map_values(handle_of())[j]);
            }
        }
        assert(below(front.map_values(handle_of()), bound)) by {
            assert forall|i: int| 0 <= i < front.len() implies #[trigger] front.map_values(
                handle_of(),
            )[i] < bound by {
                assert(entries.map_values(handle_of())[i] < bound);
            }
        }
        lemma_filter_keeps_order(front, p, bound);
        let kept = front.filter(p);
        assert forall|i: int| 0 <= i < kept.len() implies (#[trigger] kept[i]).handle
            < last.handle by {
            assert(front.contains(kept[i]));
            let j = choose|j: int| 0 <= j < front.len() && front[j] == kept[i];
            assert(front[j].handle < last.handle);
        }
        assert(entries.map_values(handle_of())[entries.len() - 1] < bound);
        let result = entries.filter(p);
        let handles = result.map_values(handle_of());
        assert forall|i: int, j: int| 0 <= i < j < handles.len() implies handles[i]
            < handles[j] by {
            if j < kept.len() {
                assert(kept.map_values(handle_of())[i] < kept.map_values(handle_of())[j]);
            } else {
                assert(kept[i].handle < last.handle);
            }
        }
        assert forall|i: int| 0 <= i < result.len() implies entries.contains(
            #[trigger] result[i],
        ) by {
            if i < kept.len() {
                assert(front.contains(kept[i]));
                let j = choose|j: int| 0 <= j < front.len() && front[j] == kept[i];
                assert(entries[j] == kept[i]);
            } else {
                assert(entries[entries.len() - 1] == last);
            }
        }
    }
}

impl<E, S> RegistryView<E, S> {
    /// Registration keeps a registry well formed, as long as a handle is left.
    pub proof fn lemma_register_wf(self, observer: ObserverRef<E, S>)
        requires
            self.wf(),
            self.next_handle < usize::MAX,
        ensures
            self.register(observer).wf(),
            self.register(observer).handles() == self.handles().push(self.next_handle as usize),
    {
        let after = self.register(observer);
        assert(after.handles() == self.handles().push(self.next_handle as usize));
        assert(delivered_below(after.history, after.next_handle)) by {
            assert forall|k: int| 0 <= k < after.history.len() implies below(
                #[trigger] after.history[k].delivered,
                after.next_handle,
            ) by {
                assert(below(self.history[k].delivered, self.next_handle));
            }
        }
    }

    /// Removing a registration keeps a registry well formed.
    pub proof fn lemma_unregister_wf(self, handle: usize)
        requires
            self.wf(),
        ensures
            self.unregister(handle).wf(),
    {
        lemma_filter_keeps_order(self.entries, is_other(handle), self.next_handle);
    }

    /// A fan-out keeps a registry well formed, whichever observers are alive.
    pub proof fn lemma_fan_out_wf(self, event: E, subject: S, live: Set<usize>)
        requires
            self.wf(),
        ensures
            self.fan_out(event, subject, live).wf(),
    {
        lemma_filter_keeps_order(self.entries, is_live(live), self.next_handle);
        let after = self.fan_out(event, subject, live);
        assert forall|k: int| 0 <= k < after.history.len() implies below(
            #[trigger] after.history[k].delivered,
            after.next_handle,
        ) by {
            if k < self.history.len() {
                assert(below(self.history[k].delivered, self.next_handle));
            }
        }
    }

    /// A handle that is issued is new: it is not registered, and no fan-out
    /// recorded so far has delivered to it.
    pub proof fn lemma_issued_handle_is_new(self)
        requires
            self.wf(),
            self.next_handle < usize::MAX,
        ensures
            !self.handles().contains(self.next_handle as usize),
            forall|k: int|
                0 <= k < self.history.len() ==> !(#[trigger] self.history[k]).delivered.contains(
                    self.next_handle as usize,
                ),
    {
        let handle = self.next_handle as usize;
        if self.handles().contains(handle) {
            let i = choose|i: int| 0 <= i < self.handles().len() && self.handles()[i] == handle;
            assert(self.handles()[i] < self.next_handle);
        }
        assert forall|k: int| 0 <= k < self.history.len() implies !(
        #[trigger] self.history[k]).delivered.contains(handle) by {
            let delivered = self.history[k].delivered;
            assert(below(delivered, self.next_handle));
            if delivered.contains(handle) {
                let i = choose|i: int| 0 <= i < delivered.len() && delivered[i] == handle;
                assert(delivered[i] < self.next_handle);
            }
        }
    }

    /// What a fan-out does to one registration. If its observer is found
    /// alive, it is invoked exactly once and stays registered. If its observer
    /// is found dead, it is not invoked and its registration is gone. The
    /// observers invoked are those registered afterwards, in that order.
    pub proof fn lemma_fan_out_reaches_the_living(
        self,
        event: E,
        subject: S,
        live: Set<usize>,
        handle: usize,
    )
        requires
            self.wf(),
        ensures
            ({
                let after = self.fan_out(event, subject, live);
                let record = after.history.last();
                &&& after.history == self.history.push(record)
                &&& record.event == event
                &&& record.subject == subject
                &&& record.delivered == after.handles()
                &&& record.delivered.no_duplicates()
                &&& record.delivered.contains(handle) <==> self.handles().contains(handle)
                    && live.contains(handle)
                &&& after.handles().contains(handle) <==> self.handles().contains(handle)
                    && live.contains(handle)
            }),
    {
        let after = self.fan_out(event, subject, live);
        let kept = self.entries.filter(is_live(live));
        self.lemma_fan_out_wf(event, subject, live);
        let handles = after.handles();
        assert(handles == kept.map_values(handle_of()));
        assert forall|i: int, j: int|
            0 <= i < handles.len() && 0 <= j < handles.len() && i != j implies handles[i]
            != handles[j] by {
            if i < j {
                assert(handles[i] < handles[j]);
            } else {
                assert(handles[j] < handles[i]);
            }
        }
        broadcast use Seq::lemma_filter_pred, Seq::lemma_filter_contains;
        lemma_filter_keeps_order(self.entries, is_live(live), self.next_handle);
        if handles.contains(handle) {
            let i = choose|i: int| 0 <= i < handles.len() && handles[i] == handle;
            assert(is_live::<E, S>(live)(kept[i]));
            assert(self.entries.contains(kept[i]));
            let j = choose|j: int| 0 <= j < self.entries.len() && self.entries[j] == kept[i];
            assert(self.handles()[j] == handle);
        }
        if self.handles().contains(handle) && live.contains(handle) {
            let j = choose|j: int| 0 <= j < self.handles().len() && self.handles()[j] == handle;
            assert(is_live::<E, S>(live)(self.entries[j]));
            assert(kept.contains(self.entries[j]));
            let i = choose|i: int| 0 <= i < kept.len() && kept[i] == self.entries[j];
            assert(handles[i] == handle);
        }
    }
}

} // verus!
