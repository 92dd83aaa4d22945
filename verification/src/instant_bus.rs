//! A broadcast publish/subscribe bus.
//!
//! An [`InstantBus`] keeps a registry of subscribers, each identified by a
//! fresh identifier from an internal [`AtomicPoll`] allocator and reached
//! through its own unbounded channel. `send` wraps a value once in a shared
//! handle and fans it out to every registered subscriber, pruning entries
//! whose subscriber has closed or gone away; delivery itself runs through
//! `flume` channels, which the library trusts and does not verify.
//!
//! The verified registry state is the bus view: the sequence of registered
//! subscriber identifiers, strictly increasing — so no two subscribers ever
//! share an identifier — and only ever thinned by `send`.

use crate::atomic_poll::AtomicPoll;
use crate::ident::Ident;
use core::sync::atomic::{AtomicBool, Ordering};
use std::sync::Arc;
use vstd::prelude::*;

verus! {

#[verifier::external_type_specification]
#[verifier::external_body]
#[verifier::reject_recursive_types(T)]
pub struct ExSender<T>(flume::Sender<T>);

#[verifier::external_type_specification]
#[verifier::external_body]
#[verifier::reject_recursive_types(T)]
pub struct ExReceiver<T>(flume::Receiver<T>);

/// Relies on flume::unbounded: creates a connected sender/receiver pair for
/// an unbounded channel. Which values later travel through it depends on
/// concurrent use, so nothing more is promised.
#[verifier::external_body]
fn chan_unbounded<T>() -> (flume::Sender<T>, flume::Receiver<T>) {
    flume::unbounded()
}

/// Relies on flume::Sender::send: queues the value unless every receiving
/// end has been dropped, and reports whether it was accepted. The outcome
/// depends on concurrent receivers, so nothing is promised of it.
#[verifier::external_body]
fn chan_send<T>(sender: &flume::Sender<T>, value: T) -> bool {
    sender.send(value).is_ok()
}

/// Relies on flume::Receiver::recv: blocks until a value arrives or every
/// sending end has been dropped, in which case it yields nothing. The
/// outcome depends on concurrent senders, so nothing is promised of it.
#[verifier::external_body]
fn chan_recv<T>(receiver: &flume::Receiver<T>) -> Option<T> {
    match receiver.recv() {
        Ok(value) => Some(value),
        Err(_) => None,
    }
}

/// Relies on Arc::clone: a second handle to the same shared value.
#[verifier::external_body]
fn arc_dup<T>(handle: &Arc<T>) -> (r: Arc<T>)
    ensures
        r == *handle,
{
    handle.clone()
}

/// Relies on AtomicBool::store, reached through the shared handle: raises
/// the flag for every holder. The flag is shared between threads, so
/// nothing is promised of later reads.
#[verifier::external_body]
fn flag_set(flag: &Arc<AtomicBool>) {
    flag.store(true, Ordering::Relaxed);
}

/// Relies on AtomicBool::load, reached through the shared handle. The flag
/// is shared between threads, so nothing is promised of the value read.
#[verifier::external_body]
fn flag_get(flag: &Arc<AtomicBool>) -> bool {
    flag.load(Ordering::Relaxed)
}

/// Relies on Arc (deref) and `T::clone`: an owned copy of the shared value.
#[verifier::external_body]
fn arc_get<T: Clone>(handle: &Arc<T>) -> (r: T)
    ensures
        cloned::<T>(**handle, r),
{
    (**handle).clone()
}

#[verifier::reject_recursive_types(T)]
struct BusEntry<T> {
    id: Ident,
    sender: flume::Sender<Arc<T>>,
    closed: Arc<AtomicBool>,
}

/// The identifiers of a sequence of registry entries, in order.
spec fn entry_ids<T>(s: Seq<BusEntry<T>>) -> Seq<nat> {
    s.map_values(|e: BusEntry<T>| e.id@)
}

/// A broadcast bus: a registry of subscribers fed by `send`.
#[verifier::reject_recursive_types(T)]
pub struct InstantBus<T> {
    inner: Vec<BusEntry<T>>,
    next_id: AtomicPoll,
}

/// A subscription handle: receives every value sent on the bus while open.
#[verifier::reject_recursive_types(T)]
pub struct Subscriber<T> {
    id: Ident,
    closed: bool,
    closed_shared: Arc<AtomicBool>,
    receiver: flume::Receiver<Arc<T>>,
}

impl<T> View for InstantBus<T> {
    type V = Seq<nat>;

    /// The identifiers of the registered subscribers, in registration order.
    closed spec fn view(&self) -> Seq<nat> {
        entry_ids(self.inner@)
    }
}

impl<T> InstantBus<T> {
    /// Internal invariant: identifiers are canonical and strictly increasing
    /// in registration order, all below the allocator's next fresh value,
    /// and the allocator never recycles.
    pub closed spec fn wf(&self) -> bool {
        &&& self.next_id.wf()
        &&& self.next_id@.recycled.len() == 0
        &&& forall|i: int| 0 <= i < self.inner@.len() ==> (#[trigger] self.inner@[i].id).wf()
        &&& forall|i: int|
            0 <= i < self.inner@.len() ==> (#[trigger] self.inner@[i].id)@ < self.next_id@.next
        &&& forall|i: int, j: int|
            0 <= i < j < self.inner@.len() ==> (#[trigger] self.inner@[i].id)@ < (
            #[trigger] self.inner@[j].id)@
    }

    /// A bus with no subscribers.
    pub fn new() -> (r: InstantBus<T>)
        ensures
            r.wf(),
            r@ == Seq::<nat>::empty(),
    {
        let r = InstantBus { inner: Vec::new(), next_id: AtomicPoll::new() };
        proof {
            assert(r@ =~= Seq::<nat>::empty());
        }
        r
    }

    /// No two registered subscribers share an identifier: the registry
    /// lists them in strictly increasing order of issue.
    pub proof fn lemma_subscriber_ids_distinct(&self)
        requires
            self.wf(),
        ensures
            forall|i: int, j: int| 0 <= i < j < self@.len() ==> self@[i] < self@[j],
    {
        assert forall|i: int, j: int| 0 <= i < j < self@.len() implies self@[i] < self@[j] by {
            assert(self@[i] == self.inner@[i].id@);
            assert(self@[j] == self.inner@[j].id@);
        }
    }

    /// The number of registered subscribers.
    pub fn subscriber_count(&self) -> (r: usize)
        ensures
            r == self@.len(),
    {
        self.inner.len()
    }

    /// Registers a new subscriber under a fresh identifier — one no current
    /// subscriber holds — and returns its handle, open and connected.
    pub fn subscribe(&mut self) -> (r: Subscriber<T>)
        requires
            old(self).wf(),
        ensures
            final(self).wf(),
            final(self)@ == old(self)@.push(r.spec_id()),
            !old(self)@.contains(r.spec_id()),
            !r.spec_closed(),
    {
        let (sender, receiver) = chan_unbounded::<Arc<T>>();
        let id = self.next_id.get_and_increase();
        let closed = Arc::new(AtomicBool::new(false));
        let closed_shared = arc_dup(&closed);
        let entry_id = id.clone();
        self.inner.push(BusEntry { id: entry_id, sender, closed });
        proof {
            assert(self@ =~= old(self)@.push(id@));
            assert forall|i: int| 0 <= i < old(self)@.len() implies old(self)@[i] != id@ by {
                assert(old(self).inner@[i].id@ < id@);
            }
        }
        Subscriber { id, closed: false, closed_shared, receiver }
    }

    /// Fans `value` out: wraps it once in a shared handle and offers it to
    /// every registered subscriber, removing entries whose subscriber has
    /// closed or whose receiving end is gone. No identifier joins the
    /// registry, and each surviving identifier was registered before.
    pub fn send(&mut self, value: T)
        requires
            old(self).wf(),
        ensures
            final(self).wf(),
            final(self)@.len() <= old(self)@.len(),
            forall|i: int|
                0 <= i < final(self)@.len() ==> old(self)@.contains(#[trigger] final(self)@[i]),
    {
        let shared = Arc::new(value);
        let mut k: usize = self.inner.len();
        proof {
            assert forall|j: int| 0 <= j < self.inner@.len() implies old(self)@.contains(
                (#[trigger] self.inner@[j]).id@,
            ) by {
                assert(old(self)@[j] == self.inner@[j].id@);
            }
        }
        while k > 0
            invariant
                k <= self.inner@.len(),
                self.inner@.len() <= old(self).inner@.len(),
                self.next_id == old(self).next_id,
                old(self).wf(),
                self.wf(),
                forall|j: int| 0 <= j < k ==> self.inner@[j] == old(self).inner@[j],
                forall|j: int|
                    0 <= j < self.inner@.len() ==> old(self)@.contains(
                        (#[trigger] self.inner@[j]).id@,
                    ),
            decreases k,
        {
            k = k - 1;
            let dead = if flag_get(&self.inner[k].closed) {
                true
            } else {
                let accepted = chan_send(&self.inner[k].sender, arc_dup(&shared));
                !accepted
            };
            if dead {
                let ghost before = self.inner@;
                let _ = self.inner.remove(k);
                proof {
                    assert(self.inner@ =~= before.remove(k as int));
                    assert forall|j: int| 0 <= j < self.inner@.len() implies old(self)@.contains(
                        (#[trigger] self.inner@[j]).id@,
                    ) by {
                        let s = if j < k {
                            j
                        } else {
                            j + 1
                        };
                        assert(self.inner@[j] == before[s]);
                        assert(old(self)@.contains(before[s].id@));
                    }
                }
            }
        }
        proof {
            assert forall|i: int| 0 <= i < self@.len() implies old(self)@.contains(
                #[trigger] self@[i],
            ) by {
                assert(self@[i] == self.inner@[i].id@);
            }
        }
    }
}

impl<T> Subscriber<T> {
    /// This subscriber's identifier, as issued by the bus.
    pub closed spec fn spec_id(&self) -> nat {
        self.id@
    }

    /// Whether this handle has been closed.
    pub closed spec fn spec_closed(&self) -> bool {
        self.closed
    }

    /// Whether this subscription has been closed.
    pub fn is_closed(&self) -> (r: bool)
        ensures
            r == self.spec_closed(),
    {
        self.closed
    }

    /// Closes the subscription: this handle stops receiving at once, and the
    /// bus drops its registry entry on the next `send`. Closing twice is the
    /// same as closing once.
    pub fn close(&mut self)
        ensures
            final(self).spec_closed(),
            final(self).spec_id() == old(self).spec_id(),
    {
        self.closed = true;
        flag_set(&self.closed_shared);
    }
}

impl<T: Clone> Subscriber<T> {
    /// Receives the next broadcast value: nothing if this handle is closed;
    /// otherwise blocks until a value arrives — an owned copy of it is
    /// returned — or until the bus side is gone, which ends the stream with
    /// nothing. A closed handle never reopens.
    pub fn recv(&mut self) -> (r: Option<T>)
        ensures
            old(self).spec_closed() ==> r is None,
            final(self).spec_closed() == old(self).spec_closed(),
            final(self).spec_id() == old(self).spec_id(),
    {
        if self.closed {
            return None;
        }
        match chan_recv(&self.receiver) {
            Some(shared) => Some(arc_get(&shared)),
            None => None,
        }
    }
}

} // verus!
