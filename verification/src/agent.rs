//! Fixed-capacity circular replay buffer for the Double DQN agent.
//!
//! The buffer stores up to `capacity` experience tuples; once full, each push
//! overwrites the oldest entry. The network, the optimiser and the
//! checkpoints live with the float code outside this library.

use vstd::prelude::*;
use rand::rngs::StdRng;
use crate::random::choose_multiple_copied;

verus! {

/// The stored items in the order they were pushed: the slot at `position`
/// holds the oldest one once the buffer has wrapped.
pub open spec fn chronological<T>(items: Seq<T>, position: int) -> Seq<T> {
    items.subrange(position, items.len() as int) + items.subrange(0, position)
}

/// Fixed-capacity circular replay buffer.
#[derive(Debug)]
pub struct ReplayBuffer<T> {
    buffer: Vec<T>,
    capacity: usize,
    position: usize,
}

impl<T> ReplayBuffer<T> {
    /// Stored items in slot order.
    pub closed spec fn items(self) -> Seq<T> {
        self.buffer@
    }

    /// Maximum number of stored items.
    pub closed spec fn capacity_spec(self) -> nat {
        self.capacity as nat
    }

    /// Slot that the next push overwrites once the buffer is full.
    pub closed spec fn position_spec(self) -> nat {
        self.position as nat
    }

    /// Never more items than the capacity; the write position is a slot
    /// index, and stays at 0 until the buffer is full.
    pub open spec fn wf(self) -> bool {
        &&& self.items().len() <= self.capacity_spec()
        &&& (self.capacity_spec() == 0 ==> self.position_spec() == 0)
        &&& (self.capacity_spec() > 0 ==> self.position_spec() < self.capacity_spec())
        &&& (self.items().len() < self.capacity_spec() ==> self.position_spec() == 0)
    }

    /// The stored items, oldest first.
    pub open spec fn history(self) -> Seq<T> {
        chronological(self.items(), self.position_spec() as int)
    }

    /// New empty buffer with the given capacity.
    pub fn new(capacity: usize) -> (r: Self)
        ensures
            r.wf(),
            r.items() == Seq::<T>::empty(),
            r.capacity_spec() == capacity,
    {
        ReplayBuffer { buffer: Vec::with_capacity(capacity), capacity, position: 0 }
    }

    /// `next` is `self` after pushing `t`: appended while there is room,
    /// otherwise written over the slot at the write position, which then
    /// advances cyclically.
    pub open spec fn push_result(self, t: T, next: Self) -> bool {
        &&& next.capacity_spec() == self.capacity_spec()
        &&& self.items().len() < self.capacity_spec() ==> next.items() == self.items().push(t)
            && next.position_spec() == self.position_spec()
        &&& self.items().len() >= self.capacity_spec() ==> next.items() == self.items().update(
            self.position_spec() as int,
            t,
        ) && next.position_spec() == (self.position_spec() + 1) % self.capacity_spec()
    }

    /// Pushes a transition, overwriting the oldest when full.
    pub fn push(&mut self, transition: T)
        requires
            old(self).wf(),
            old(self).capacity_spec() > 0,
        ensures
            final(self).wf(),
            old(self).push_result(transition, *final(self)),
    {
        if self.buffer.len() < self.capacity {
            self.buffer.push(transition);
        } else {
            self.buffer.set(self.position, transition);
            self.position = (self.position + 1) % self.capacity;
        }
    }

    /// Number of stored transitions.
    pub fn len(&self) -> (r: usize)
        ensures
            r == self.items().len(),
    {
        self.buffer.len()
    }

    /// Whether no transitions are stored.
    pub fn is_empty(&self) -> (r: bool)
        ensures
            r == (self.items().len() == 0),
    {
        self.buffer.len() == 0
    }
}

impl<T: Copy> ReplayBuffer<T> {
    /// Uniform random sample of up to `batch_size` transitions, without
    /// repetition.
    pub fn sample(&self, batch_size: usize, rng: &mut StdRng) -> (r: Vec<T>)
        ensures
            r@.len() == (if batch_size < self.items().len() { batch_size as int } else { self.items().len() as int }),
            exists|idx: Seq<int>|
                #![trigger idx.len()]
                idx.len() == r@.len() && idx.no_duplicates() && forall|k: int|
                    0 <= k < idx.len() ==> 0 <= #[trigger] idx[k] < self.items().len() && r@[k]
                        == self.items()[idx[k]],
    {
        let n = if batch_size < self.buffer.len() { batch_size } else { self.buffer.len() };
        choose_multiple_copied(&self.buffer, n, rng)
    }
}

/// The buffer never holds more than its capacity, and it always keeps the
/// most recent pushes: a push appends to the history (oldest first),
/// dropping the oldest item once the buffer is full.
pub proof fn lemma_push_keeps_latest<T>(buf: ReplayBuffer<T>, t: T, next: ReplayBuffer<T>)
    requires
        buf.wf(),
        buf.capacity_spec() > 0,
        buf.push_result(t, next),
    ensures
        next.items().len() <= next.capacity_spec(),
        buf.items().len() < buf.capacity_spec() ==> next.history() == buf.history().push(t),
        buf.items().len() >= buf.capacity_spec() ==> next.history() == buf.history().drop_first().push(t),
{
    let cap = buf.capacity_spec();
    let pos = buf.position_spec();
    let old_items = buf.items();
    let new_items = next.items();
    let new_pos = next.position_spec();
    if old_items.len() < cap {
        assert(next.history() =~= buf.history().push(t));
    } else {
        let c = cap as int;
        let p = pos as int;
        if p + 1 < c {
            vstd::arithmetic::div_mod::lemma_small_mod((pos + 1) as nat, cap);
            assert(new_pos == p + 1);
        } else {
            vstd::arithmetic::div_mod::lemma_mod_self_0(c);
            assert(new_pos == 0);
        }
        assert(next.history() =~= buf.history().drop_first().push(t));
    }
}

/// The last `cap` items of `s` (all of them when there are fewer).
pub open spec fn latest<T>(s: Seq<T>, cap: nat) -> Seq<T> {
    if s.len() <= cap {
        s
    } else {
        s.subrange(s.len() - cap, s.len() as int)
    }
}

/// Pushing `ts` one after another into an empty buffer of positive
/// capacity (`bufs[k + 1]` is `bufs[k]` after pushing `ts[k]`) leaves
/// `min(n, capacity)` items: exactly the latest `ts`, oldest first, each
/// once; every push beyond the capacity overwrote the oldest item.
pub proof fn lemma_pushes_keep_latest<T>(bufs: Seq<ReplayBuffer<T>>, ts: Seq<T>, k: int)
    requires
        bufs.len() == ts.len() + 1,
        bufs[0].items().len() == 0,
        bufs[0].capacity_spec() > 0,
        forall|i: int| 0 <= i < bufs.len() ==> #[trigger] bufs[i].wf(),
        forall|i: int| 0 <= i < ts.len() ==> #[trigger] bufs[i].push_result(ts[i], bufs[i + 1]),
        0 <= k <= ts.len(),
    ensures
        bufs[k].capacity_spec() == bufs[0].capacity_spec(),
        bufs[k].items().len() == (if k < bufs[0].capacity_spec() { k } else { bufs[0].capacity_spec() as int }),
        bufs[k].history() == latest(ts.take(k), bufs[0].capacity_spec()),
    decreases k,
{
    let cap = bufs[0].capacity_spec();
    if k == 0 {
        assert(bufs[0].wf());
        assert(bufs[0].history() =~= Seq::<T>::empty());
        assert(ts.take(0) =~= Seq::<T>::empty());
    } else {
        lemma_pushes_keep_latest(bufs, ts, k - 1);
        let i = k - 1;
        let b = bufs[i];
        assert(b.wf());
        assert(bufs[i].push_result(ts[i], bufs[i + 1]));
        assert(bufs[i + 1] == bufs[k]);
        lemma_push_keeps_latest(b, ts[k - 1], bufs[k]);
        let prev = ts.take(k - 1);
        assert(ts.take(k) =~= prev.push(ts[k - 1]));
        if k - 1 < cap {
            assert(latest(ts.take(k), cap) =~= ts.take(k));
        } else {
            assert(b.history().len() == b.items().len());
            assert(latest(ts.take(k), cap) =~= latest(prev, cap).drop_first().push(ts[k - 1]));
        }
    }
}

} // verus!
