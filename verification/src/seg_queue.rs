//! A FIFO queue that suppresses duplicates.
//!
//! A [`SegQueue`] keeps values in first-in, first-out order while refusing to
//! hold two values that compare equal at the same time: pushing a value that
//! is already present is a no-op. A one-slot cache in front of the backing
//! buffer lets `peek` hand out the head repeatedly without disturbing the
//! order; `pop` consumes the cached head.
//!
//! Equality between values is the `==` of `T`, described in specifications by
//! `eq_spec`. The operations that must decide equality ask that `T`'s `==`
//! agrees with its specification (`obeys_eq_spec`).

use vstd::prelude::*;
use vstd::std_specs::cmp::PartialEqSpec;

verus! {

/// Some value of `s` compares equal to `v`.
pub open spec fn has_match<T: PartialEq>(s: Seq<T>, v: T) -> bool {
    exists|i: int| 0 <= i < s.len() && s[i].eq_spec(&v)
}

/// What `push` does to the queued values: nothing when a value comparing
/// equal to `v` is already queued, otherwise append `v`.
pub open spec fn spec_push<T: PartialEq>(s: Seq<T>, v: T) -> Seq<T> {
    if has_match(s, v) {
        s
    } else {
        s.push(v)
    }
}

/// Queue dedup: pushing the same value twice in a row queues it once — the
/// second push changes nothing. Asks that the value compares equal to
/// itself, which any genuine equality does.
pub proof fn lemma_push_idempotent<T: PartialEq>(s: Seq<T>, v: T)
    requires
        v.eq_spec(&v),
    ensures
        spec_push(spec_push(s, v), v) == spec_push(s, v),
{
    let once = spec_push(s, v);
    if !has_match(s, v) {
        assert(once[once.len() - 1].eq_spec(&v));
    }
}

/// A deduplicating FIFO queue.
pub struct SegQueue<T> {
    cache: Option<T>,
    fifo: Vec<T>,
}

impl<T: PartialEq + Clone> View for SegQueue<T> {
    type V = Seq<T>;

    /// The queued values in pop order: the cached head first, if any.
    closed spec fn view(&self) -> Seq<T> {
        match self.cache {
            Some(v) => seq![v] + self.fifo@,
            None => self.fifo@,
        }
    }
}

impl<T: PartialEq + Clone> SegQueue<T> {
    /// No two queued values compare equal.
    pub open spec fn wf(&self) -> bool {
        forall|i: int, j: int|
            0 <= i < j < self@.len() ==> !(#[trigger] self@[i].eq_spec(&self@[j]))
    }

    /// An empty queue.
    pub fn new() -> (r: SegQueue<T>)
        ensures
            r@ == Seq::<T>::empty(),
            r.wf(),
    {
        SegQueue { cache: None, fifo: Vec::new() }
    }

    /// Makes sure the head is cached and returns a copy of it, without
    /// removing anything from the queue.
    fn read_first(&mut self) -> (r: Option<T>)
        ensures
            final(self)@ == old(self)@,
            r is Some <==> old(self)@.len() > 0,
            r matches Some(v) ==> cloned(old(self)@[0], v),
            old(self)@.len() > 0 ==> final(self).cache == Some(old(self)@[0]),
    {
        if let Some(v) = &self.cache {
            let copy = v.clone();
            proof {
                assert(self@[0] == self.cache->Some_0);
            }
            return Some(copy);
        }
        if self.fifo.len() > 0 {
            let v = self.fifo.remove(0);
            let copy = v.clone();
            self.cache = Some(v);
            proof {
                assert(self@ =~= old(self)@);
            }
            return Some(copy);
        }
        None
    }

    /// Returns a copy of the head without removing it, or nothing when the
    /// queue is empty.
    pub fn peek(&mut self) -> (r: Option<T>)
        ensures
            final(self)@ == old(self)@,
            r is Some <==> old(self)@.len() > 0,
            r matches Some(v) ==> cloned(old(self)@[0], v),
    {
        self.read_first()
    }

    /// Removes and returns the head, or nothing when the queue is empty.
    pub fn pop(&mut self) -> (r: Option<T>)
        ensures
            old(self)@.len() == 0 ==> r is None && final(self)@ == old(self)@,
            old(self)@.len() > 0 ==> r == Some(old(self)@[0]) && final(self)@ == old(self)@.skip(
                1,
            ),
            old(self).wf() ==> final(self).wf(),
    {
        if self.read_first().is_none() {
            return None;
        }
        proof {
            assert(self.fifo@ =~= old(self)@.skip(1));
        }
        let v = self.cache.take();
        proof {
            assert(self@ =~= old(self)@.skip(1));
            if old(self).wf() {
                assert forall|i: int, j: int| 0 <= i < j < self@.len() implies !(
                #[trigger] old(self)@.skip(1)[i].eq_spec(&old(self)@.skip(1)[j])) by {
                    assert(old(self)@[i + 1] == old(self)@.skip(1)[i]);
                    assert(old(self)@[j + 1] == old(self)@.skip(1)[j]);
                }
            }
        }
        v
    }

    /// Whether a value comparing equal to `value` is queued.
    pub fn contains(&self, value: &T) -> (r: bool)
        requires
            T::obeys_eq_spec(),
        ensures
            r == has_match(self@, *value),
    {
        if let Some(c) = &self.cache {
            if *c == *value {
                proof {
                    assert(self@[0].eq_spec(value));
                }
                return true;
            }
        }
        let base: usize = if self.cache.is_some() {
            1
        } else {
            0
        };
        let mut k: usize = 0;
        let n: usize = self.fifo.len();
        while k < n
            invariant
                T::obeys_eq_spec(),
                n == self.fifo@.len(),
                k <= n,
                base == if self.cache is Some {
                    1int
                } else {
                    0int
                },
                self@.len() == base + n,
                forall|j: int| 0 <= j < n ==> self@[base + j] == self.fifo@[j],
                self.cache matches Some(c) ==> !c.eq_spec(value) && self@[0] == c,
                forall|j: int| 0 <= j < k ==> !(#[trigger] self.fifo@[j].eq_spec(value)),
            decreases n - k,
        {
            if self.fifo[k] == *value {
                proof {
                    assert(self@[base + k].eq_spec(value));
                }
                return true;
            }
            k = k + 1;
        }
        proof {
            assert forall|i: int| 0 <= i < self@.len() implies !(#[trigger] self@[i].eq_spec(
                value,
            )) by {
                if i >= base {
                    assert(self@[i] == self.fifo@[i - base]);
                }
            }
        }
        false
    }

    /// Appends `value` unless a value comparing equal to it is already
    /// queued, in which case nothing changes.
    pub fn push(&mut self, value: T)
        requires
            T::obeys_eq_spec(),
            old(self).wf(),
        ensures
            final(self).wf(),
            final(self)@ == spec_push(old(self)@, value),
    {
        if self.contains(&value) {
            return;
        }
        self.fifo.push(value);
        proof {
            assert(self@ =~= old(self)@.push(value));
            assert forall|i: int, j: int| 0 <= i < j < self@.len() implies !(
            #[trigger] self@[i].eq_spec(&self@[j])) by {
                if j == self@.len() - 1 {
                    assert(self@[j] == value);
                    assert(self@[i] == old(self)@[i]);
                } else {
                    assert(self@[i] == old(self)@[i]);
                    assert(self@[j] == old(self)@[j]);
                }
            }
        }
    }
}

} // verus!
