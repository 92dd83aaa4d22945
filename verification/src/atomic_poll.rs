//! An unbounded identifier allocator with recycling.
//!
//! [`AtomicPoll`] issues unbounded non-negative integer identifiers. A native
//! `u64` counter serves the fast path; whenever that counter is about to
//! reach its maximum value it is reset and a cumulative offset — an
//! unbounded [`Ident`] — grows by one segment span, so the sequence of
//! issued values continues without a gap, a duplicate, or a wrap-around.
//! The top native value is reserved as the rollover marker and never issued,
//! which is why a segment spans `u64::MAX` identifiers rather than
//! `u64::MAX + 1`.
//!
//! Released identifiers wait in a deduplicating FIFO ([`SegQueue`]) and are
//! reissued, oldest first, in preference to fresh values.
//!
//! The behaviour of every operation is specified against [`PollModel`], the
//! mathematical state of an allocator: the next fresh value and the queue of
//! recycled values.

use crate::ident::{lemma_eq_is_value_eq, Ident};
use crate::seg_queue::{has_match, SegQueue};
use crate::segment_span;
use vstd::prelude::*;
use vstd::std_specs::cmp::PartialEqSpec;

verus! {

/// The mathematical state of an allocator.
#[verifier::ext_equal]
pub struct PollModel {
    /// The next identifier the fast path would issue.
    pub next: nat,
    /// Released identifiers, oldest first.
    pub recycled: Seq<nat>,
}

/// The value `get` returns: the oldest recycled identifier if one exists,
/// the next fresh value otherwise.
pub open spec fn model_get(m: PollModel) -> nat {
    if m.recycled.len() > 0 {
        m.recycled[0]
    } else {
        m.next
    }
}

/// The state change and result of `get_and_increase`: a recycled identifier
/// is consumed without advancing the counter; otherwise the counter advances
/// by one.
pub open spec fn model_step(m: PollModel) -> (PollModel, nat) {
    if m.recycled.len() > 0 {
        (PollModel { next: m.next, recycled: m.recycled.skip(1) }, m.recycled[0])
    } else {
        (PollModel { next: m.next + 1, recycled: m.recycled }, m.next)
    }
}

/// The state change of `release`: an identifier above the current `get`
/// value or already recycled is ignored; otherwise it joins the recycle
/// queue.
pub open spec fn model_release(m: PollModel, id: nat) -> PollModel {
    if id > model_get(m) {
        m
    } else if m.recycled.contains(id) {
        m
    } else {
        PollModel { next: m.next, recycled: m.recycled.push(id) }
    }
}

struct RawAtomicResult {
    reused: bool,
    value: Ident,
}

/// An unbounded, monotonic identifier allocator with recycling.
pub struct AtomicPoll {
    /// Native fast-path counter; always below `u64::MAX`.
    store: u64,
    /// Number of completed counter sweeps.
    counter: Ident,
    /// Cumulative offset contributed by completed sweeps:
    /// `counter * segment_span()`, maintained incrementally.
    offset: Ident,
    /// Released identifiers awaiting reissue.
    removed: SegQueue<Ident>,
}

impl View for AtomicPoll {
    type V = PollModel;

    closed spec fn view(&self) -> PollModel {
        PollModel {
            next: (self.offset@ + self.store) as nat,
            recycled: self.removed@.map_values(|id: Ident| id@),
        }
    }
}

impl AtomicPoll {
    /// Internal invariant: the native counter never rests at its maximum,
    /// the offset tracks the completed sweeps exactly, and the recycle queue
    /// holds canonical, pairwise distinct identifiers.
    pub closed spec fn wf(&self) -> bool {
        &&& self.store < u64::MAX
        &&& self.counter.wf()
        &&& self.offset.wf()
        &&& self.offset@ == self.counter@ * segment_span()
        &&& self.removed.wf()
        &&& forall|i: int| 0 <= i < self.removed@.len() ==> (#[trigger] self.removed@[i]).wf()
    }

    /// A fresh allocator: counting starts at zero with nothing recycled.
    pub fn new() -> (r: AtomicPoll)
        ensures
            r.wf(),
            r@ == (PollModel { next: 0, recycled: Seq::<nat>::empty() }),
    {
        let r = AtomicPoll {
            store: 0,
            counter: Ident::zero(),
            offset: Ident::zero(),
            removed: SegQueue::new(),
        };
        proof {
            assert(r@.recycled =~= Seq::<nat>::empty());
            assert(r@ =~= PollModel { next: 0, recycled: Seq::<nat>::empty() });
        }
        r
    }

    /// An allocator whose native counter starts at `start`, as if `start`
    /// fresh identifiers had already been issued. This exercises the segment
    /// rollover without first issuing the better part of 2^64 identifiers.
    pub fn with_counter(start: u64) -> (r: AtomicPoll)
        requires
            start < u64::MAX,
        ensures
            r.wf(),
            r@ == (PollModel { next: start as nat, recycled: Seq::<nat>::empty() }),
    {
        let r = AtomicPoll {
            store: start,
            counter: Ident::zero(),
            offset: Ident::zero(),
            removed: SegQueue::new(),
        };
        proof {
            assert(r@.recycled =~= Seq::<nat>::empty());
            assert(r@ =~= PollModel { next: start as nat, recycled: Seq::<nat>::empty() });
        }
        r
    }

    /// The value `get` would return together with whether it would come from
    /// the recycle queue. Reading caches the recycled head but changes no
    /// observable state.
    fn read(&mut self) -> (r: RawAtomicResult)
        requires
            old(self).wf(),
        ensures
            final(self).wf(),
            final(self)@ == old(self)@,
            r.reused == (old(self)@.recycled.len() > 0),
            r.value.wf(),
            r.value@ == model_get(old(self)@),
    {
        let head = self.removed.peek();
        match head {
            Some(value) => {
                proof {
                    let h = old(self).removed@[0];
                    assert(cloned(h, value));
                    assert(value@ == h@ && value.wf()) by {
                        if value != h {
                            assert(call_ensures(Ident::clone, (&h,), value));
                        }
                    }
                    assert(old(self)@.recycled[0] == h@);
                }
                RawAtomicResult { reused: true, value }
            },
            None => {
                let value = self.offset.add_u64(self.store);
                RawAtomicResult { reused: false, value }
            },
        }
    }

    /// Advances the fast-path counter by one unit. When the native counter
    /// is about to reach its reserved maximum it rolls over: the counter
    /// resets and the cumulative offset grows by one segment span, so the
    /// mathematical next value still advances by exactly one.
    fn increase(&mut self)
        requires
            old(self).wf(),
        ensures
            final(self).wf(),
            final(self)@.next == old(self)@.next + 1,
            final(self)@.recycled == old(self)@.recycled,
    {
        if self.store == u64::MAX - 1 {
            self.store = 0;
            self.counter = self.counter.add_u64(1);
            self.offset = self.offset.add_u64(u64::MAX);
            proof {
                let c = old(self).counter@;
                assert((c + 1) * segment_span() == c * segment_span() + segment_span())
                    by (nonlinear_arith);
            }
        } else {
            self.store = self.store + 1;
        }
    }

    /// The identifier the next `get_and_increase` call would return, without
    /// changing the allocator.
    pub fn get(&mut self) -> (r: Ident)
        requires
            old(self).wf(),
        ensures
            final(self).wf(),
            final(self)@ == old(self)@,
            r.wf(),
            r@ == model_get(old(self)@),
    {
        let result = self.read();
        result.value
    }

    /// Issues an identifier: the oldest recycled one if any exists — consumed
    /// from the recycle queue without advancing the counter — or the next
    /// fresh value, advancing the counter by one.
    pub fn get_and_increase(&mut self) -> (r: Ident)
        requires
            old(self).wf(),
        ensures
            final(self).wf(),
            r.wf(),
            r@ == model_step(old(self)@).1,
            final(self)@ == model_step(old(self)@).0,
    {
        let result = self.read();
        if result.reused {
            let _ = self.removed.pop();
            proof {
                assert(self@.recycled =~= old(self)@.recycled.skip(1));
                assert(self@ =~= model_step(old(self)@).0);
            }
        } else {
            self.increase();
            proof {
                assert(self@ =~= model_step(old(self)@).0);
            }
        }
        result.value
    }

    /// Returns an identifier to the allocator for reuse. Releasing an
    /// identifier above the current `get` value, or one already awaiting
    /// reuse, changes nothing.
    pub fn release(&mut self, id: Ident)
        requires
            old(self).wf(),
            id.wf(),
        ensures
            final(self).wf(),
            final(self)@ == model_release(old(self)@, id@),
    {
        let current = self.read();
        if current.value.lt(&id) {
            return;
        }
        proof {
            self.lemma_membership_matches(&id);
        }
        if self.removed.contains(&id) {
            return;
        }
        self.removed.push(id);
        proof {
            assert(self@.recycled =~= old(self)@.recycled.push(id@));
            assert(self@ =~= model_release(old(self)@, id@));
        }
    }

    /// For a canonical identifier, `==`-membership in the recycle queue
    /// coincides with value membership in the model's recycled sequence.
    proof fn lemma_membership_matches(&self, id: &Ident)
        requires
            self.wf(),
            id.wf(),
        ensures
            has_match(self.removed@, *id) <==> self@.recycled.contains(id@),
    {
        let q = self.removed@;
        let vals = self@.recycled;
        if has_match(q, *id) {
            let i = choose|i: int| 0 <= i < q.len() && q[i].eq_spec(id);
            lemma_eq_is_value_eq(&q[i], id);
            assert(vals[i] == id@);
        }
        if vals.contains(id@) {
            let i = choose|i: int| 0 <= i < vals.len() && vals[i] == id@;
            lemma_eq_is_value_eq(&q[i], id);
            assert(q[i].eq_spec(id));
        }
    }
}

/// The identifiers produced by `k` successive `get_and_increase` steps from
/// state `m`, in order.
pub open spec fn model_ids(m: PollModel, k: nat) -> Seq<nat>
    decreases k,
{
    if k == 0 {
        Seq::<nat>::empty()
    } else {
        seq![model_step(m).1] + model_ids(model_step(m).0, (k - 1) as nat)
    }
}

/// With nothing recycled, successive issues count up one by one from `next`:
/// the run grows without bound and never wraps around, however many native
/// counter sweeps it crosses.
pub proof fn lemma_fresh_run_counts_up(m: PollModel, k: nat)
    requires
        m.recycled.len() == 0,
    ensures
        model_ids(m, k).len() == k,
        forall|i: int| 0 <= i < k ==> model_ids(m, k)[i] == m.next + i,
    decreases k,
{
    if k > 0 {
        lemma_fresh_run_counts_up(model_step(m).0, (k - 1) as nat);
        assert(forall|i: int|
            1 <= i < k ==> model_ids(m, k)[i] == model_ids(model_step(m).0, (k - 1) as nat)[i
                - 1]);
    }
}

/// Uniqueness: a sequence of `get_and_increase` steps with nothing recycled
/// and no interleaved release returns pairwise distinct identifiers.
pub proof fn lemma_fresh_run_unique(m: PollModel, k: nat)
    requires
        m.recycled.len() == 0,
    ensures
        forall|i: int, j: int|
            0 <= i < j < k ==> model_ids(m, k)[i] != model_ids(m, k)[j],
{
    lemma_fresh_run_counts_up(m, k);
}

/// The fresh-value watermark never moves backwards: issuing either consumes
/// a recycled identifier and leaves it alone, or returns it and advances it
/// by one; releasing never touches it. So issued values strictly increase
/// except where recycling intervenes.
pub proof fn lemma_next_monotonic(m: PollModel, id: nat)
    ensures
        model_step(m).0.next >= m.next,
        m.recycled.len() == 0 ==> model_step(m).1 == m.next && model_step(m).0.next == m.next + 1,
        model_release(m, id).next == m.next,
{
}

/// Releasing an identifier above the current `get` value has no effect.
pub proof fn lemma_release_above_get_is_noop(m: PollModel, id: nat)
    requires
        id > model_get(m),
    ensures
        model_release(m, id) == m,
{
}

/// Releasing the same identifier twice in a row leaves the recycle queue no
/// larger than the first release did.
pub proof fn lemma_release_idempotent(m: PollModel, id: nat)
    ensures
        model_release(model_release(m, id), id).recycled.len() == model_release(
            m,
            id,
        ).recycled.len(),
{
    let m1 = model_release(m, id);
    if !(id > model_get(m)) && !m.recycled.contains(id) {
        assert(m1.recycled == m.recycled.push(id));
        assert(m1.recycled[m1.recycled.len() - 1] == id);
        assert(m1.recycled.contains(id));
    }
}

} // verus!
