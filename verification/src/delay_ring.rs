//! The delay ring: events wait in it until the tick on which they are due.

use crate::scalar::Scalar;
use vstd::arithmetic::div_mod::*;
use vstd::prelude::*;

verus! {

/// A signal on its way along a recurrent synapse.
#[derive(Debug, Clone, Copy, PartialEq, Eq, Structural)]
pub struct Event {
    pub target_neuron: u32,
    pub target_branch: u8,
    pub value: Scalar,
    pub synapse_slot: u32,
    pub presynaptic_activation: Scalar,
}

/// Events by the tick on which they are due, modulo the size of the ring.
#[derive(Debug)]
pub struct DelayRing {
    pub buckets: Vec<Vec<Event>>,
}

/// The contents of the buckets.
pub open spec fn bucket_views(buckets: Seq<Vec<Event>>) -> Seq<Seq<Event>> {
    Seq::new(buckets.len(), |b: int| buckets[b]@)
}

/// The buckets after an event was put behind those that are due on the same tick.
pub open spec fn scheduled(buckets: Seq<Seq<Event>>, due: int, event: Event) -> Seq<Seq<Event>> {
    let b = due % (buckets.len() as int);
    buckets.update(b, buckets[b].push(event))
}

impl View for DelayRing {
    type V = Seq<Seq<Event>>;

    open spec fn view(&self) -> Seq<Seq<Event>> {
        bucket_views(self.buckets@)
    }
}

impl DelayRing {
    /// The events that wait for a tick.
    pub open spec fn due(self, tick: int) -> Seq<Event> {
        self@[tick % (self@.len() as int)]
    }

    /// A ring for delays up to `max_delay`, and up to eight in any case.
    pub fn new(max_delay: u8) -> (r: Self)
        ensures
            r@.len() == (if max_delay < 8 {
                9int
            } else {
                max_delay + 1
            }),
            forall|b: int| 0 <= b < r@.len() ==> (#[trigger] r@[b]) == Seq::<Event>::empty(),
    {
        let size: usize = if max_delay < 8 {
            9
        } else {
            max_delay as usize + 1
        };
        let mut buckets: Vec<Vec<Event>> = Vec::new();
        let mut b: usize = 0;
        while b < size
            invariant
                b <= size,
                buckets.len() == b,
                forall|k: int| 0 <= k < b ==> (#[trigger] buckets[k])@ == Seq::<Event>::empty(),
            decreases size - b,
        {
            buckets.push(Vec::new());
            b = b + 1;
        }
        DelayRing { buckets }
    }

    /// Puts an event into the ring; it is due `delay` ticks after `tick`.
    pub fn schedule(&mut self, tick: u64, delay: u8, event: Event)
        requires
            0 < old(self)@.len(),
        ensures
            final(self)@ == scheduled(old(self)@, tick + delay, event),
    {
        let size: u64 = self.buckets.len() as u64;
        let place: u64 = tick % size;
        let bucket: usize = ((place as u128 + delay as u128) % (size as u128)) as usize;
        proof {
            lemma_add_mod_noop(tick as int, delay as int, size as int);
            lemma_add_mod_noop(place as int, delay as int, size as int);
            lemma_mod_twice(tick as int, size as int);
        }
        let ghost before = self@;
        self.buckets[bucket].push(event);
        assert(self@ =~= scheduled(before, tick + delay, event));
    }

    /// Takes the events that are due on `tick` out of the ring.
    pub fn take_due(&mut self, tick: u64) -> (r: Vec<Event>)
        requires
            0 < old(self)@.len(),
        ensures
            r@ == old(self).due(tick as int),
            final(self)@ == old(self)@.update(
                tick as int % (old(self)@.len() as int),
                Seq::<Event>::empty(),
            ),
    {
        let size: u64 = self.buckets.len() as u64;
        let bucket: usize = (tick % size) as usize;
        let mut out: Vec<Event> = Vec::new();
        let ghost before = self@;
        let waiting = &self.buckets[bucket];
        let mut i: usize = 0;
        while i < waiting.len()
            invariant
                i <= waiting.len(),
                out@ == waiting@.take(i as int),
            decreases waiting.len() - i,
        {
            out.push(waiting[i]);
            assert(waiting@.take(i + 1) =~= waiting@.take(i as int).push(waiting@[i as int]));
            i = i + 1;
        }
        assert(waiting@.take(waiting.len() as int) =~= waiting@);
        self.buckets.set(bucket, Vec::new());
        assert(self@ =~= before.update(bucket as int, Seq::<Event>::empty()));
        out
    }

    /// Empties the ring.
    pub fn clear(&mut self)
        ensures
            final(self)@.len() == old(self)@.len(),
            forall|b: int|
                0 <= b < final(self)@.len() ==> (#[trigger] final(self)@[b]) == Seq::<
                    Event,
                >::empty(),
    {
        let mut b: usize = 0;
        while b < self.buckets.len()
            invariant
                b <= self.buckets.len(),
                self.buckets.len() == old(self)@.len(),
                forall|k: int|
                    0 <= k < b ==> (#[trigger] self.buckets[k])@ == Seq::<Event>::empty(),
            decreases self.buckets.len() - b,
        {
            self.buckets.set(b, Vec::new());
            b = b + 1;
        }
    }
}

/// Two ticks less than a round apart share a bucket only if they are the same tick.
pub proof fn lemma_buckets_of_a_round(a: int, b: int, size: int)
    requires
        0 < size,
        a <= b < a + size,
        a % size == b % size,
    ensures
        a == b,
{
    lemma_fundamental_div_mod(a, size);
    lemma_fundamental_div_mod(b, size);
    let q = b / size - a / size;
    assert(b - a == size * q) by (nonlinear_arith)
        requires
            a == size * (a / size) + a % size,
            b == size * (b / size) + b % size,
            a % size == b % size,
            q == b / size - a / size,
    ;
    assert(q == 0) by (nonlinear_arith)
        requires
            0 <= b - a < size,
            b - a == size * q,
            0 < size,
    ;
}

/// An event emitted on a tick arrives exactly its delay later: of all ticks of the round
/// that follows, it waits for that one and no other.
pub proof fn law_event_arrives_after_its_delay(
    buckets: Seq<Seq<Event>>,
    tick: int,
    delay: int,
    event: Event,
    later: int,
)
    requires
        1 <= delay < buckets.len(),
        tick <= later < tick + buckets.len(),
    ensures
        ({
            let n = buckets.len() as int;
            let after = scheduled(buckets, tick + delay, event);
            &&& after.len() == buckets.len()
            &&& later == tick + delay ==> after[later % n] == buckets[later % n].push(event)
            &&& later != tick + delay ==> after[later % n] == buckets[later % n]
        }),
{
    let n = buckets.len() as int;
    lemma_mod_bound(later, n);
    lemma_mod_bound(tick + delay, n);
    if later % n == (tick + delay) % n {
        if later <= tick + delay {
            lemma_buckets_of_a_round(later, tick + delay, n);
        } else {
            lemma_buckets_of_a_round(tick + delay, later, n);
        }
    }
}

/// Delivering the events of one tick leaves those of every other tick of the round alone.
pub proof fn law_delivery_leaves_other_ticks(buckets: Seq<Seq<Event>>, tick: int, later: int)
    requires
        0 < buckets.len(),
        tick < later < tick + buckets.len(),
    ensures
        ({
            let n = buckets.len() as int;
            buckets.update(tick % n, Seq::<Event>::empty())[later % n] == buckets[later % n]
        }),
{
    let n = buckets.len() as int;
    lemma_mod_bound(later, n);
    lemma_mod_bound(tick, n);
    if later % n == tick % n {
        lemma_buckets_of_a_round(tick, later, n);
    }
}

} // verus!
