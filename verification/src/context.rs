//! Temporal context: the last symbols, their fingerprints, and the rows of the context
//! memory that stand for them.

use crate::model::{lemma_probe_in_partition, probe_slot, Model};
use crate::scalar::Scalar;
use vstd::arithmetic::power2::{
    lemma2_to64, lemma_pow2_adds, lemma_pow2_pos, lemma_pow2_unfold, pow2,
};
use vstd::prelude::*;

verus! {

/// What a fingerprint starts from.
pub const FINGERPRINT_SEED: u64 = 0xcbf2_9ce4_8422_2325;

/// What a fingerprint is multiplied with after each byte.
pub const FINGERPRINT_FACTOR: u64 = 0x100_0000_01b3;

/// A fingerprint after one more byte.
pub open spec fn absorb_byte(hash: u64, byte: u8) -> u64 {
    vstd::wrapping::u64_specs::wrapping_mul((hash ^ (byte as u64)), FINGERPRINT_FACTOR)
}

/// A fingerprint after one more symbol, its four bytes from the lowest on.
pub open spec fn absorb_symbol(hash: u64, symbol: u32) -> u64 {
    let b0 = absorb_byte(hash, (symbol % 256) as u8);
    let b1 = absorb_byte(b0, (symbol / 256 % 256) as u8);
    let b2 = absorb_byte(b1, (symbol / 65536 % 256) as u8);
    absorb_byte(b2, (symbol / 16777216) as u8)
}

/// A fingerprint after the symbols of a sequence.
pub open spec fn absorb_symbols(hash: u64, symbols: Seq<u32>) -> u64
    decreases symbols.len(),
{
    if symbols.len() == 0 {
        hash
    } else {
        absorb_symbol(absorb_symbols(hash, symbols.drop_last()), symbols.last())
    }
}

/// The fingerprint of the last `order` symbols; never zero, which marks an empty slot.
pub open spec fn fingerprint(history: Seq<u32>, order: int) -> u64 {
    let hash = absorb_symbols(
        FINGERPRINT_SEED ^ (order as u64),
        history.subrange(history.len() - order, history.len() as int),
    );
    if hash == 0 {
        1
    } else {
        hash
    }
}

fn with_symbol(hash: u64, symbol: u32) -> (r: u64)
    ensures
        r == absorb_symbol(hash, symbol),
{
    let b0: u8 = (symbol % 256) as u8;
    let b1: u8 = (symbol / 256 % 256) as u8;
    let b2: u8 = (symbol / 65536 % 256) as u8;
    let b3: u8 = (symbol / 16777216) as u8;
    let h0: u64 = (hash ^ (b0 as u64)).wrapping_mul(FINGERPRINT_FACTOR);
    let h1: u64 = (h0 ^ (b1 as u64)).wrapping_mul(FINGERPRINT_FACTOR);
    let h2: u64 = (h1 ^ (b2 as u64)).wrapping_mul(FINGERPRINT_FACTOR);
    (h2 ^ (b3 as u64)).wrapping_mul(FINGERPRINT_FACTOR)
}

/// The fingerprint of the last `order` symbols.
pub fn context_key(history: &Vec<u32>, order: usize) -> (r: u64)
    requires
        order <= history.len(),
    ensures
        r == fingerprint(history@, order as int),
        r != 0,
{
    let mut hash: u64 = FINGERPRINT_SEED ^ (order as u64);
    let start: usize = history.len() - order;
    let mut i: usize = start;
    let ghost first = hash;
    assert(history@.subrange(start as int, start as int) =~= Seq::<u32>::empty());
    while i < history.len()
        invariant
            start <= i <= history.len(),
            hash == absorb_symbols(first, history@.subrange(start as int, i as int)),
        decreases history.len() - i,
    {
        hash = with_symbol(hash, history[i]);
        proof {
            let longer = history@.subrange(start as int, i + 1);
            assert(longer.drop_last() =~= history@.subrange(start as int, i as int));
            assert(longer.last() == history@[i as int]);
        }
        i = i + 1;
    }
    if hash == 0 {
        1
    } else {
        hash
    }
}

/// The history after one more symbol: the last `max_order` symbols.
pub open spec fn remembered(history: Seq<u32>, max_order: int, symbol: u32) -> Seq<u32> {
    if history.len() == max_order {
        history.skip(1).push(symbol)
    } else {
        history.push(symbol)
    }
}

/// Remembers one more symbol and forgets the oldest where the history is full.
pub fn remember(history: &mut Vec<u32>, max_order: usize, symbol: u32)
    requires
        0 < max_order,
    ensures
        final(history)@ == remembered(old(history)@, max_order as int, symbol),
{
    if history.len() == max_order {
        let ghost before = history@;
        history.remove(0);
        assert(history@ =~= before.skip(1));
    }
    history.push(symbol);
}

/// The history never holds more than `max_order` symbols, and its last one is the newest.
pub proof fn law_history_is_bounded(history: Seq<u32>, max_order: int, symbol: u32)
    requires
        0 < max_order,
        history.len() <= max_order,
    ensures
        0 < remembered(history, max_order, symbol).len() <= max_order,
        remembered(history, max_order, symbol).last() == symbol,
{
}

/// The context memory as sequences, with its dimensions.
pub ghost struct ContextTable {
    pub keys: Seq<u64>,
    pub observations: Seq<u32>,
    pub embeddings: Seq<Scalar>,
    pub max_order: int,
    pub slots_per_order: int,
    pub probe_limit: int,
    pub embedding_dim: int,
}

/// The context memory of a model.
pub open spec fn table_of(m: Model) -> ContextTable {
    ContextTable {
        keys: m.context.keys@,
        observations: m.context.observations@,
        embeddings: m.context.embeddings@,
        max_order: m.config.context.max_order as int,
        slots_per_order: m.config.context.slots_per_order as int,
        probe_limit: m.config.context.probe_limit as int,
        embedding_dim: m.config.context.embedding_dim as int,
    }
}

impl ContextTable {
    /// The slot of a probe.
    pub open spec fn slot_at(self, order: int, key: u64, offset: int) -> int {
        probe_slot(order, key, self.slots_per_order, offset)
    }

    /// The slot belongs to an order.
    pub open spec fn in_partition(self, order: int, slot: int) -> bool {
        &&& 1 <= order <= self.max_order
        &&& (order - 1) * self.slots_per_order <= slot < (order - 1) * self.slots_per_order
            + self.slots_per_order
    }

    /// Probe `offset` is the first that finds the fingerprint.
    pub open spec fn hit(self, order: int, key: u64, offset: int) -> bool {
        &&& 0 <= offset < self.probe_limit
        &&& self.keys[self.slot_at(order, key, offset)] == key
        &&& forall|j: int|
            0 <= j < offset ==> self.keys[#[trigger] self.slot_at(order, key, j)] != key
    }

    /// The fingerprint is in the table.
    pub open spec fn holds(self, order: int, key: u64) -> bool {
        exists|o: int| #[trigger] self.hit(order, key, o)
    }

    /// Probe `offset` finds the slot to be replaced: the first empty one; where none is
    /// empty, the first with the fewest observations.
    pub open spec fn victim(self, order: int, key: u64, offset: int) -> bool {
        &&& 0 <= offset < self.probe_limit
        &&& {
            ||| {
                &&& self.keys[self.slot_at(order, key, offset)] == 0
                &&& forall|j: int|
                    0 <= j < offset ==> self.keys[#[trigger] self.slot_at(order, key, j)] != 0
            }
            ||| {
                &&& forall|j: int|
                    0 <= j < self.probe_limit ==> self.keys[#[trigger] self.slot_at(
                        order,
                        key,
                        j,
                    )] != 0
                &&& forall|j: int|
                    0 <= j < self.probe_limit ==> self.observations[self.slot_at(
                        order,
                        key,
                        offset,
                    )] <= self.observations[#[trigger] self.slot_at(order, key, j)]
                &&& forall|j: int|
                    0 <= j < offset ==> self.observations[self.slot_at(order, key, offset)]
                        < self.observations[#[trigger] self.slot_at(order, key, j)]
            }
        }
    }

    /// The table with a slot given to a new fingerprint.
    pub open spec fn given(self, slot: int, key: u64) -> ContextTable {
        ContextTable {
            keys: self.keys.update(slot, key),
            observations: self.observations.update(slot, 0),
            embeddings: Seq::new(
                self.embeddings.len(),
                |i: int|
                    if slot * self.embedding_dim <= i < slot * self.embedding_dim
                        + self.embedding_dim {
                        Scalar { bits: 0 }
                    } else {
                        self.embeddings[i]
                    },
            ),
            ..self
        }
    }

    /// What resolving a fingerprint gives: the table after it, the slot, the probes.
    #[verifier::opaque]
    pub open spec fn resolve(self, order: int, key: u64, allocate: bool) -> (
        ContextTable,
        Option<int>,
        int,
    ) {
        if self.holds(order, key) {
            let o = choose|o: int| #[trigger] self.hit(order, key, o);
            (self, Some(self.slot_at(order, key, o)), o + 1)
        } else if allocate {
            let o = choose|o: int| #[trigger] self.victim(order, key, o);
            let slot = self.slot_at(order, key, o);
            (self.given(slot, key), Some(slot), self.probe_limit)
        } else {
            (self, None, self.probe_limit)
        }
    }

    /// What activating the contexts of orders 1 to `upto` gives: the table after it, the
    /// slots found, in ascending order of context length, and the probes.
    pub open spec fn activate(self, history: Seq<u32>, allocate: bool, upto: int) -> (
        ContextTable,
        Seq<int>,
        int,
    )
        decreases upto,
    {
        if upto <= 0 {
            (self, Seq::empty(), 0)
        } else {
            let (table, slots, probes) = self.activate(history, allocate, upto - 1);
            let (after, slot, more) = table.resolve(upto, fingerprint(history, upto), allocate);
            (
                after,
                match slot {
                    Some(s) => slots.push(s),
                    None => slots,
                },
                probes + more,
            )
        }
    }
}

/// Resolving in a model is resolving in its table.
proof fn lemma_hit_in_table(m: Model, order: int, key: u64, o: int)
    ensures
        m.hit(order, key, o) <==> table_of(m).hit(order, key, o),
{
    let t = table_of(m);
    assert forall|j: int| m.key_at(order, key, j) == t.keys[#[trigger] t.slot_at(order, key, j)] by {}
    if m.hit(order, key, o) {
        assert forall|j: int| 0 <= j < o implies t.keys[#[trigger] t.slot_at(order, key, j)]
            != key by {
            assert(m.key_at(order, key, j) != key);
        }
    }
    if t.hit(order, key, o) {
        assert forall|j: int| 0 <= j < o implies #[trigger] m.key_at(order, key, j) != key by {
            assert(t.keys[t.slot_at(order, key, j)] != key);
        }
    }
}

/// The slot to be replaced in a model is the one in its table.
proof fn lemma_victim_in_table(m: Model, order: int, key: u64, o: int)
    requires
        0 < m.config.context.probe_limit,
        m.victim(order, key, o),
    ensures
        table_of(m).victim(order, key, o),
{
    let t = table_of(m);
    let limit = t.probe_limit;
    if m.key_at(order, key, o) == 0 {
        assert forall|j: int| 0 <= j < o implies t.keys[#[trigger] t.slot_at(order, key, j)]
            != 0 by {
            assert(m.key_at(order, key, j) != 0);
        }
    } else {
        assert forall|j: int| 0 <= j < limit implies t.keys[#[trigger] t.slot_at(order, key, j)]
            != 0 by {
            assert(m.key_at(order, key, j) != 0);
        }
        assert forall|j: int| 0 <= j < limit implies t.observations[t.slot_at(order, key, o)]
            <= t.observations[#[trigger] t.slot_at(order, key, j)] by {
            assert(m.observations_at(order, key, o) <= m.observations_at(order, key, j));
        }
        assert forall|j: int| 0 <= j < o implies t.observations[t.slot_at(order, key, o)]
            < t.observations[#[trigger] t.slot_at(order, key, j)] by {
            assert(m.observations_at(order, key, o) < m.observations_at(order, key, j));
        }
    }
}

/// Only one probe can be the first hit, and only one can find the slot to be replaced.
proof fn lemma_table_deterministic(t: ContextTable, order: int, key: u64, a: int, b: int)
    ensures
        t.hit(order, key, a) && t.hit(order, key, b) ==> a == b,
        t.victim(order, key, a) && t.victim(order, key, b) ==> a == b,
{
    let low = if a < b {
        a
    } else {
        b
    };
    let high = if a < b {
        b
    } else {
        a
    };
    if t.hit(order, key, a) && t.hit(order, key, b) && low < high {
        assert(t.keys[t.slot_at(order, key, low)] != key);
    }
    if t.victim(order, key, a) && t.victim(order, key, b) && low < high {
        if t.keys[t.slot_at(order, key, low)] != 0 && t.keys[t.slot_at(order, key, high)] != 0 {
            assert(t.observations[t.slot_at(order, key, high)] < t.observations[t.slot_at(
                order,
                key,
                low,
            )]);
            assert(t.observations[t.slot_at(order, key, low)] <= t.observations[t.slot_at(
                order,
                key,
                high,
            )]);
        } else if t.keys[t.slot_at(order, key, low)] == 0 {
            assert(t.keys[t.slot_at(order, key, low)] != 0);
        } else {
            assert(t.keys[t.slot_at(order, key, high)] != 0);
        }
    }
}

/// Resolves one fingerprint of a ready model, as its table says.
pub fn resolve_in_table(m: &mut Model, order: usize, key: u64, allocate: bool) -> (r: (
    Option<usize>,
    usize,
))
    requires
        old(m).context_ready(),
        0 < old(m).config.context.probe_limit,
        1 <= order <= old(m).config.context.max_order,
        key != 0,
    ensures
        final(m).context_ready(),
        final(m).same_but_context_table(*old(m)),
        ({
            let (table, slot, probes) = table_of(*old(m)).resolve(order as int, key, allocate);
            &&& table_of(*final(m)) == table
            &&& r.1 == probes
            &&& match r.0 {
                Some(s) => slot == Some(s as int) && s < final(m).context.keys.len(),
                None => slot is None,
            }
        }),
        !allocate ==> *final(m) == *old(m),
{
    let ghost before = *m;
    let ghost t = table_of(before);
    let ghost slots = t.slots_per_order;
    let result = m.resolve_context_slot(order, key, allocate);
    proof {
        reveal(ContextTable::resolve);
        assert forall|o: int| 0 <= #[trigger] t.slot_at(order as int, key, o) < t.keys.len() by {
            lemma_probe_in_partition(order as int, key, slots, o);
            assert(0 <= (order - 1) * slots && (order - 1) * slots + slots <= t.max_order * slots)
                by (nonlinear_arith)
                requires
                    1 <= order <= t.max_order,
                    0 < slots,
            ;
        }
        if t.holds(order as int, key) {
            let o = choose|o: int| #[trigger] t.hit(order as int, key, o);
            lemma_hit_in_table(before, order as int, key, o);
            assert(before.hit(order as int, key, o));
        } else {
            if !before.missed(order as int, key) {
                let j = choose|j: int|
                    0 <= j < before.config.context.probe_limit && #[trigger] before.key_at(
                        order as int,
                        key,
                        j,
                    ) == key;
                lemma_first_hit(before, order as int, key, j);
                let o = choose|o: int| #[trigger] before.hit(order as int, key, o);
                lemma_hit_in_table(before, order as int, key, o);
                assert(t.hit(order as int, key, o));
            }
            if allocate {
                let o = choose|o: int| #[trigger]
                    before.victim(order as int, key, o) && {
                        let slot = before.slot_at(order as int, key, o);
                        &&& result == Ok::<(Option<usize>, usize), crate::error::LeoError>(
                            (Some(slot as usize), before.config.context.probe_limit),
                        )
                        &&& if before.context.keys[slot] == key {
                            *m == before
                        } else {
                            before.slot_given(*m, slot, key)
                        }
                    };
                lemma_victim_in_table(before, order as int, key, o);
                let chosen = choose|o: int| #[trigger] t.victim(order as int, key, o);
                lemma_table_deterministic(t, order as int, key, o, chosen);
                let slot = t.slot_at(order as int, key, o);
                assert(before.key_at(order as int, key, o) != key);
                assert(table_of(*m).embeddings =~= t.given(slot, key).embeddings);
                assert(table_of(*m) == t.given(slot, key));
            }
        }
    }
    match result {
        Ok(pair) => pair,
        Err(_) => (None, 0),
    }
}

/// Where some probe finds the fingerprint, one is the first that does.
proof fn lemma_first_hit(m: Model, order: int, key: u64, upto: int)
    requires
        0 <= upto < m.config.context.probe_limit,
        m.key_at(order, key, upto) == key,
    ensures
        exists|o: int| #[trigger] m.hit(order, key, o),
    decreases upto,
{
    if exists|j: int| 0 <= j < upto && #[trigger] m.key_at(order, key, j) == key {
        let j = choose|j: int| 0 <= j < upto && #[trigger] m.key_at(order, key, j) == key;
        lemma_first_hit(m, order, key, j);
    } else {
        assert(m.hit(order, key, upto));
    }
}

/// Where some probe finds the fingerprint, the table holds it.
pub proof fn lemma_table_holds(t: ContextTable, order: int, key: u64, upto: int)
    requires
        0 <= upto < t.probe_limit,
        t.keys[t.slot_at(order, key, upto)] == key,
    ensures
        t.holds(order, key),
    decreases upto,
{
    if exists|j: int| 0 <= j < upto && t.keys[#[trigger] t.slot_at(order, key, j)] == key {
        let j = choose|j: int| 0 <= j < upto && t.keys[#[trigger] t.slot_at(order, key, j)] == key;
        lemma_table_holds(t, order, key, j);
    } else {
        assert(t.hit(order, key, upto));
    }
}

/// Among the probes up to `upto`, one has the fewest observations and comes first.
proof fn lemma_weakest_exists(t: ContextTable, order: int, key: u64, upto: int) -> (o: int)
    requires
        0 <= upto < t.probe_limit,
    ensures
        0 <= o <= upto,
        forall|j: int|
            0 <= j <= upto ==> t.observations[t.slot_at(order, key, o)]
                <= t.observations[#[trigger] t.slot_at(order, key, j)],
        forall|j: int|
            0 <= j < o ==> t.observations[t.slot_at(order, key, o)]
                < t.observations[#[trigger] t.slot_at(order, key, j)],
    decreases upto,
{
    if upto == 0 {
        0
    } else {
        let before = lemma_weakest_exists(t, order, key, upto - 1);
        if t.observations[t.slot_at(order, key, upto)] < t.observations[t.slot_at(
            order,
            key,
            before,
        )] {
            upto
        } else {
            before
        }
    }
}

/// The first empty probe, where one is empty.
proof fn lemma_first_empty(t: ContextTable, order: int, key: u64, upto: int) -> (o: int)
    requires
        0 <= upto < t.probe_limit,
        t.keys[t.slot_at(order, key, upto)] == 0,
    ensures
        0 <= o < t.probe_limit,
        t.keys[t.slot_at(order, key, o)] == 0,
        forall|j: int| 0 <= j < o ==> t.keys[#[trigger] t.slot_at(order, key, j)] != 0,
    decreases upto,
{
    if exists|j: int| 0 <= j < upto && t.keys[#[trigger] t.slot_at(order, key, j)] == 0 {
        let j = choose|j: int| 0 <= j < upto && t.keys[#[trigger] t.slot_at(order, key, j)] == 0;
        lemma_first_empty(t, order, key, j)
    } else {
        upto
    }
}

/// Some probe finds a slot to be replaced.
pub proof fn lemma_victim_exists(t: ContextTable, order: int, key: u64)
    requires
        0 < t.probe_limit,
    ensures
        exists|o: int| #[trigger] t.victim(order, key, o),
{
    if exists|j: int|
        0 <= j < t.probe_limit && t.keys[#[trigger] t.slot_at(order, key, j)] == 0 {
        let j = choose|j: int|
            0 <= j < t.probe_limit && t.keys[#[trigger] t.slot_at(order, key, j)] == 0;
        let o = lemma_first_empty(t, order, key, j);
        assert(t.victim(order, key, o));
    } else {
        let o = lemma_weakest_exists(t, order, key, t.probe_limit - 1);
        assert(t.victim(order, key, o));
    }
}

impl ContextTable {
    /// The table has the size that its dimensions say.
    pub open spec fn wf(self) -> bool {
        &&& 0 < self.slots_per_order
        &&& 0 < self.probe_limit
        &&& self.keys.len() == self.max_order * self.slots_per_order
        &&& self.observations.len() == self.keys.len()
    }
}

/// A resolved fingerprint is in the table, and the other orders' partitions are as before.
proof fn lemma_resolved(t: ContextTable, order: int, key: u64, other: int, other_key: u64)
    requires
        t.wf(),
        1 <= order <= t.max_order,
    ensures
        t.resolve(order, key, true).0.wf(),
        t.resolve(order, key, true).0.max_order == t.max_order,
        t.resolve(order, key, true).0.holds(order, key),
        1 <= other <= t.max_order && other != order && t.holds(other, other_key) ==> t.resolve(
            order,
            key,
            true,
        ).0.holds(other, other_key),
{
    reveal(ContextTable::resolve);
    let slots = t.slots_per_order;
    let after = t.resolve(order, key, true).0;
    if !t.holds(order, key) {
        lemma_victim_exists(t, order, key);
        let o = choose|o: int| #[trigger] t.victim(order, key, o);
        let slot = t.slot_at(order, key, o);
        lemma_probe_in_partition(order, key, slots, o);
        assert(0 <= (order - 1) * slots && (order - 1) * slots + slots <= t.max_order * slots)
            by (nonlinear_arith)
            requires
                1 <= order <= t.max_order,
                0 < slots,
        ;
        assert forall|j: int| 0 <= j < o implies after.keys[#[trigger] after.slot_at(
            order,
            key,
            j,
        )] != key by {
            lemma_probe_in_partition(order, key, slots, j);
            assert(after.slot_at(order, key, j) == t.slot_at(order, key, j));
            if t.slot_at(order, key, j) == slot {
                assert(t.keys[t.slot_at(order, key, j)] == t.keys[slot]);
                assert(t.observations[t.slot_at(order, key, j)] == t.observations[slot]);
            } else if t.keys[t.slot_at(order, key, j)] == key {
                lemma_table_holds(t, order, key, j);
            }
        }
        assert(after.slot_at(order, key, o) == slot);
        assert(after.hit(order, key, o));
        if 1 <= other <= t.max_order && other != order && t.holds(other, other_key) {
            let h = choose|h: int| #[trigger] t.hit(other, other_key, h);
            assert forall|j: int| after.keys[#[trigger] after.slot_at(other, other_key, j)]
                == t.keys[t.slot_at(other, other_key, j)] by {
                lemma_probe_in_partition(other, other_key, slots, j);
                assert(0 <= (other - 1) * slots && (other - 1) * slots + slots <= t.max_order
                    * slots) by (nonlinear_arith)
                    requires
                        1 <= other <= t.max_order,
                        0 < slots,
                ;
                crate::model::law_orders_never_share_a_slot(
                    order,
                    key,
                    o,
                    other,
                    other_key,
                    j,
                    slots,
                );
            }
            assert forall|j: int| 0 <= j < h implies after.keys[#[trigger] after.slot_at(
                other,
                other_key,
                j,
            )] != other_key by {
                assert(t.keys[t.slot_at(other, other_key, j)] != other_key);
            }
            assert(after.hit(other, other_key, h));
        }
    }
}

/// After a learning step the context memory holds the fingerprint of every order that the
/// history reaches.
pub proof fn law_activated_contexts_are_held(
    t: ContextTable,
    history: Seq<u32>,
    upto: int,
    order: int,
)
    requires
        t.wf(),
        1 <= order <= upto <= t.max_order,
    ensures
        t.activate(history, true, upto).0.holds(order, fingerprint(history, order)),
    decreases upto,
{
    lemma_activation_keeps_shape(t, history, upto - 1);
    let before = t.activate(history, true, upto - 1).0;
    lemma_resolved(
        before,
        upto,
        fingerprint(history, upto),
        order,
        fingerprint(history, order),
    );
    if order < upto {
        law_activated_contexts_are_held(t, history, upto - 1, order);
    }
}

/// Activation keeps the shape of the table.
proof fn lemma_activation_keeps_shape(t: ContextTable, history: Seq<u32>, upto: int)
    requires
        t.wf(),
        0 <= upto <= t.max_order,
    ensures
        t.activate(history, true, upto).0.wf(),
        t.activate(history, true, upto).0.max_order == t.max_order,
    decreases upto,
{
    if upto > 0 {
        lemma_activation_keeps_shape(t, history, upto - 1);
        let before = t.activate(history, true, upto - 1).0;
        lemma_resolved(before, upto, fingerprint(history, upto), 0, 0);
    }
}

/// The slots as integers.
pub open spec fn as_ints(s: Seq<usize>) -> Seq<int> {
    Seq::new(s.len(), |i: int| s[i] as int)
}

/// A count, held at the largest value.
pub open spec fn capped(n: int) -> int {
    if n > usize::MAX {
        usize::MAX as int
    } else {
        n
    }
}

/// Resolving looks at no more slots than the limit allows.
pub proof fn lemma_probe_count(t: ContextTable, order: int, key: u64, allocate: bool)
    requires
        0 <= t.probe_limit,
    ensures
        0 <= t.resolve(order, key, allocate).2 <= t.probe_limit,
{
    reveal(ContextTable::resolve);
    if t.holds(order, key) {
        let o = choose|o: int| #[trigger] t.hit(order, key, o);
        assert(t.hit(order, key, o));
    }
}

/// One round of mixing: the value, folded onto itself, times a factor.
pub open spec fn mixed(value: u64, shift: u64, factor: u64) -> u64 {
    vstd::wrapping::u64_specs::wrapping_mul(value ^ (value >> shift), factor)
}

/// The number drawn for a seed, a tick and a symbol: an integer below 2 to the 24th.
pub open spec fn dropout_draw(seed: u64, tick: u64, symbol: u32) -> u64 {
    let start = seed ^ vstd::wrapping::u64_specs::wrapping_mul(tick, 0x9e37_79b9_7f4a_7c15)
        ^ vstd::wrapping::u64_specs::wrapping_mul(symbol as u64, 0xbf58_476d_1ce4_e5b9);
    let second = mixed(
        mixed(start, 30, 0xbf58_476d_1ce4_e5b9),
        27,
        0x94d0_49bb_1331_11eb,
    );
    (second ^ (second >> 31)) >> 40
}

/// Whether the context of a step is kept, for a draw `k` and a dropout rate: `k` over 2 to
/// the 24th is at least the rate. A rate that is not above zero keeps every context.
pub open spec fn draw_survives(k: u64, rate: Scalar) -> bool {
    if rate.at_most(Scalar { bits: 0 }) {
        true
    } else {
        &&& rate.bits < crate::scalar::ONE_BITS
        &&& k * pow2((126 - rate.exponent()) as nat) >= rate.significand()
    }
}

/// Whether the context of a step is kept.
pub open spec fn survives_dropout(seed: u64, tick: u64, symbol: u32, rate: Scalar) -> bool {
    draw_survives(dropout_draw(seed, tick, symbol), rate)
}

/// Two to the power of `n`.
fn power_of_two(n: u64) -> (r: u64)
    requires
        n < 24,
    ensures
        r == pow2(n as nat),
        r <= 0x100_0000,
{
    let mut r: u64 = 1;
    let mut i: u64 = 0;
    proof {
        lemma2_to64();
    }
    while i < n
        invariant
            i <= n,
            n < 24,
            r == pow2(i as nat),
            r <= 0x100_0000,
            pow2(24) == 0x100_0000,
        decreases n - i,
    {
        proof {
            lemma_pow2_unfold((i + 1) as nat);
            vstd::arithmetic::power2::lemma_pow2_strictly_increases(i as nat, 24);
            if i + 1 < 24 {
                vstd::arithmetic::power2::lemma_pow2_strictly_increases((i + 1) as nat, 24);
            }
        }
        r = 2 * r;
        i = i + 1;
    }
    r
}

/// Whether the draw keeps the context.
pub fn keeps_context(k: u64, rate: Scalar) -> (r: bool)
    requires
        k < 0x100_0000,
    ensures
        r == draw_survives(k, rate),
{
    if rate.le(Scalar::zero()) {
        return true;
    }
    if rate.bits >= 0x3f80_0000 {
        return false;
    }
    let exponent: u64 = rate.exponent_field();
    let significand: u64 = rate.significand_value();
    let shift: u64 = 126 - exponent;
    if shift >= 24 {
        proof {
            lemma2_to64();
            lemma_pow2_pos(shift as nat);
            if shift > 24 {
                vstd::arithmetic::power2::lemma_pow2_strictly_increases(24, shift as nat);
            }
            let p = pow2(shift as nat);
            if k >= 1 {
                assert(k * p >= p) by (nonlinear_arith)
                    requires
                        k >= 1,
                        p >= 0,
                ;
            } else {
                assert(k * p == 0) by (nonlinear_arith)
                    requires
                        k == 0,
                ;
            }
        }
        k >= 1
    } else {
        let factor: u64 = power_of_two(shift);
        assert(k * factor <= 0x100_0000 * 0x100_0000) by (nonlinear_arith)
            requires
                k <= 0x100_0000,
                factor <= 0x100_0000,
        ;
        k * factor >= significand
    }
}

/// Whether the context of a step is kept: a fixed function of seed, tick and symbol, so
/// that every run drops the same contexts.
pub fn context_survives_dropout(seed: u64, tick: u64, symbol: u32, dropout_rate: Scalar) -> (r:
    bool)
    ensures
        r == survives_dropout(seed, tick, symbol, dropout_rate),
{
    let start: u64 = seed ^ tick.wrapping_mul(0x9e37_79b9_7f4a_7c15) ^ (
    symbol as u64).wrapping_mul(0xbf58_476d_1ce4_e5b9);
    let first: u64 = (start ^ (start >> 30)).wrapping_mul(0xbf58_476d_1ce4_e5b9);
    let second: u64 = (first ^ (first >> 27)).wrapping_mul(0x94d0_49bb_1331_11eb);
    let last: u64 = second ^ (second >> 31);
    let k: u64 = last >> 40;
    assert(k < 0x100_0000) by (bit_vector)
        requires
            k == last >> 40,
    ;
    keeps_context(k, dropout_rate)
}

/// A rate of zero keeps the context of every step.
pub proof fn law_zero_rate_keeps_every_context(seed: u64, tick: u64, symbol: u32, rate: Scalar)
    requires
        rate.rank() == 0,
    ensures
        survives_dropout(seed, tick, symbol, rate),
{
}

/// What a higher rate keeps, a lower rate keeps too.
pub proof fn law_lower_rate_keeps_more(
    seed: u64,
    tick: u64,
    symbol: u32,
    low: Scalar,
    high: Scalar,
)
    requires
        low.at_most(high),
        survives_dropout(seed, tick, symbol, high),
    ensures
        survives_dropout(seed, tick, symbol, low),
{
    let k = dropout_draw(seed, tick, symbol) as int;
    if 0 < low.rank() {
        let e_low = low.exponent();
        let e_high = high.exponent();
        if e_low == e_high {
            assert(low.significand() <= high.significand());
        } else {
            assert(e_low < e_high);
            let p = pow2((126 - e_high) as nat) as int;
            let d = pow2((e_high - e_low) as nat) as int;
            lemma_pow2_adds((126 - e_high) as nat, (e_high - e_low) as nat);
            lemma2_to64();
            if e_high - e_low > 1 {
                vstd::arithmetic::power2::lemma_pow2_strictly_increases(
                    1,
                    (e_high - e_low) as nat,
                );
            }
            assert(k * (p * d) >= low.significand()) by (nonlinear_arith)
                requires
                    k * p >= high.significand(),
                    d >= 2,
                    high.significand() >= 0x80_0000,
                    low.significand() < 0x100_0000,
            ;
        }
    }
}

} // verus!
