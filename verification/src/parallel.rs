//! Synchronous story-batch reduction for aligned sparse recurrent models.
//!
//! Every worker starts from the same canonical checkpoint, trains one complete document with
//! worker-local runtime state, and returns parameter deltas. Fixed tensors merge by aligned
//! index; context entries merge by order and fingerprint, so that unrelated collision slots
//! are never averaged together.
//!
//! The floating-point arithmetic of a reduction is handed in by the caller: a difference of
//! two numbers, and a number moved by the mean of what the workers contributed.

use crate::arithmetic::Numerics;
use crate::error::{fails, LeoError, LeoErrorKind, LeoResult};
use crate::metrics::{floored_difference, TrainingStatistics, WideScalar};
use crate::model::{lemma_partition, lemma_row_fits, wrapped, Model};
use crate::scalar::Scalar;
use crate::runtime::ParameterChanges;
use crate::sorting::{lemma_ranked, rank_order, ranked, sort_ranked, Ranked};
use std::collections::HashMap;
use vstd::prelude::*;
use vstd::relations::total_ordering;
use vstd::seq_lib::group_to_multiset_ensures;
use vstd::std_specs::hash::group_hash_axioms;

verus! {

/// One changed parameter of a fixed tensor.
#[derive(Debug, Clone, Copy, PartialEq, Eq, Structural)]
pub struct SparseF32Delta {
    pub index: usize,
    pub delta: Scalar,
}

impl Ranked for SparseF32Delta {
    open spec fn leq(self, other: Self) -> bool {
        self.index < other.index || (self.index == other.index && self.delta.total_rank()
            <= other.delta.total_rank())
    }

    proof fn order_is_total() {
        assert forall|a: Self, b: Self| a.leq(b) && b.leq(a) implies a == b by {
            crate::scalar::law_total_order_refines_value_order(a.delta, b.delta);
        }
        assert(total_ordering(|a: Self, b: Self| a.leq(b)));
    }

    fn comes_before(&self, other: &Self) -> (r: bool) {
        self.index < other.index || (self.index == other.index && self.delta.total_order()
            <= other.delta.total_order())
    }
}

/// One changed context entry: its order, its fingerprint, and by how much its embedding and
/// its observations moved.
#[derive(Debug, Clone)]
pub struct ContextKeyDelta {
    pub order: usize,
    pub key: u64,
    pub embedding_delta: Vec<Scalar>,
    pub observation_increment: u32,
}

/// A changed context entry as a mathematical value.
pub struct KeyedRow {
    pub order: int,
    pub key: u64,
    pub embedding_delta: Seq<Scalar>,
    pub observation_increment: u32,
}

impl View for ContextKeyDelta {
    type V = KeyedRow;

    open spec fn view(&self) -> KeyedRow {
        KeyedRow {
            order: self.order as int,
            key: self.key,
            embedding_delta: self.embedding_delta@,
            observation_increment: self.observation_increment,
        }
    }
}

/// By how much the counters of a training run moved.
#[derive(Debug, Clone, Copy, PartialEq, Eq, Structural)]
pub struct StatisticsDelta {
    pub processed_bytes: u64,
    pub processed_stories: u64,
    pub training_loss_sum: WideScalar,
    pub training_targets: u64,
    pub active_neurons_sum: u64,
    pub active_neurons_peak: u64,
    pub synaptic_events: u64,
    pub numerical_rejections: u64,
    pub persistent_ticks: u64,
}

impl StatisticsDelta {
    /// Nothing moved.
    pub open spec fn still() -> Self {
        StatisticsDelta {
            processed_bytes: 0,
            processed_stories: 0,
            training_loss_sum: WideScalar { bits: 0 },
            training_targets: 0,
            active_neurons_sum: 0,
            active_neurons_peak: 0,
            synaptic_events: 0,
            numerical_rejections: 0,
            persistent_ticks: 0,
        }
    }
}

impl Default for StatisticsDelta {
    fn default() -> (r: Self)
        ensures
            r == StatisticsDelta::still(),
    {
        StatisticsDelta {
            processed_bytes: 0,
            processed_stories: 0,
            training_loss_sum: WideScalar { bits: 0 },
            training_targets: 0,
            active_neurons_sum: 0,
            active_neurons_peak: 0,
            synaptic_events: 0,
            numerical_rejections: 0,
            persistent_ticks: 0,
        }
    }
}

/// The digest of a configuration's text.
#[derive(Debug, Clone, Copy, PartialEq, Eq, Structural)]
pub struct ConfigFingerprint {
    pub high: u128,
    pub low: u128,
}

/// What a reduction did.
#[derive(Debug, Clone, Copy, PartialEq, Eq, Structural)]
pub struct MergeMetrics {
    pub workers: usize,
    pub fixed_parameter_updates: usize,
    pub context_keys: usize,
}

/// The arithmetic can be asked for any two numbers.
pub open spec fn takes_any_pair<F: Fn(Scalar, Scalar) -> Scalar>(f: F) -> bool {
    forall|a: Scalar, b: Scalar| #[trigger] call_requires(f, (a, b))
}

/// The arithmetic may answer `d` for the difference of `after` and `before`.
pub open spec fn gives<F: Fn(Scalar, Scalar) -> Scalar>(
    f: F,
    after: Scalar,
    before: Scalar,
    d: Scalar,
) -> bool {
    call_ensures(f, (after, before), d)
}

/// A difference that is not zero.
pub open spec fn moved(d: Scalar) -> bool {
    d.nan() || d.rank() != 0
}

/// Whether a difference is not zero.
pub fn has_moved(d: Scalar) -> (r: bool)
    ensures
        r == moved(d),
{
    d.is_nan() || (d.bits != 0 && d.bits != 0x8000_0000)
}

/// The numbers of `d` are the differences of two lists, place by place.
pub open spec fn differences<F: Fn(Scalar, Scalar) -> Scalar>(
    f: F,
    before: Seq<Scalar>,
    after: Seq<Scalar>,
    d: Seq<Scalar>,
) -> bool {
    &&& d.len() == shorter(before.len() as int, after.len() as int)
    &&& forall|i: int| 0 <= i < d.len() ==> gives(f, after[i], before[i], #[trigger] d[i])
}

/// The smaller of two lengths.
pub open spec fn shorter(a: int, b: int) -> int {
    if a <= b {
        a
    } else {
        b
    }
}

/// The differences that are not zero, by their places.
pub open spec fn sparse(d: Seq<Scalar>) -> Seq<SparseF32Delta>
    decreases d.len(),
{
    if d.len() == 0 {
        seq![]
    } else if moved(d.last()) {
        sparse(d.drop_last()).push(
            SparseF32Delta { index: (d.len() - 1) as usize, delta: d.last() },
        )
    } else {
        sparse(d.drop_last())
    }
}

/// The list holds the differences of two lists that are not zero, by their places.
pub open spec fn diffed<F: Fn(Scalar, Scalar) -> Scalar>(
    f: F,
    before: Seq<Scalar>,
    after: Seq<Scalar>,
    list: Seq<SparseF32Delta>,
) -> bool {
    exists|d: Seq<Scalar>| #[trigger] differences(f, before, after, d) && list == sparse(d)
}

/// The places where two lists differ.
pub fn diff_f32<F: Fn(Scalar, Scalar) -> Scalar>(
    before: &Vec<Scalar>,
    after: &Vec<Scalar>,
    difference: &F,
) -> (r: Vec<SparseF32Delta>)
    requires
        takes_any_pair(*difference),
    ensures
        diffed(*difference, before@, after@, r@),
{
    let mut list: Vec<SparseF32Delta> = Vec::new();
    let mut index: usize = 0;
    let ghost mut d: Seq<Scalar> = seq![];
    while index < before.len() && index < after.len()
        invariant
            takes_any_pair(*difference),
            index <= before.len(),
            index <= after.len(),
            d.len() == index,
            forall|i: int|
                0 <= i < d.len() ==> gives(*difference, after@[i], before@[i], #[trigger] d[i]),
            list@ == sparse(d),
        decreases before.len() - index,
    {
        assert(call_requires(*difference, (after@[index as int], before@[index as int])));
        let delta: Scalar = difference(after[index], before[index]);
        proof {
            let next = d.push(delta);
            assert(next.drop_last() =~= d);
            assert(gives(*difference, after@[index as int], before@[index as int], delta));
            d = next;
        }
        if has_moved(delta) {
            list.push(SparseF32Delta { index, delta });
        }
        index = index + 1;
    }
    assert(differences(*difference, before@, after@, d));
    list
}

/// The numbers of `d` are the differences of two lists at the listed places.
pub open spec fn differences_at<F: Fn(Scalar, Scalar) -> Scalar>(
    f: F,
    before: Seq<Scalar>,
    after: Seq<Scalar>,
    indices: Seq<usize>,
    d: Seq<Scalar>,
) -> bool {
    &&& d.len() == indices.len()
    &&& forall|k: int|
        0 <= k < d.len() ==> gives(
            f,
            after[indices[k] as int],
            before[indices[k] as int],
            #[trigger] d[k],
        )
}

/// The differences at the listed places that are not zero.
pub open spec fn sparse_at(indices: Seq<usize>, d: Seq<Scalar>) -> Seq<SparseF32Delta>
    decreases d.len(),
{
    if d.len() == 0 {
        seq![]
    } else if moved(d.last()) {
        sparse_at(indices, d.drop_last()).push(
            SparseF32Delta { index: indices[d.len() - 1], delta: d.last() },
        )
    } else {
        sparse_at(indices, d.drop_last())
    }
}

/// The list holds the differences at the listed places that are not zero, as they were listed.
pub open spec fn diffed_at<F: Fn(Scalar, Scalar) -> Scalar>(
    f: F,
    before: Seq<Scalar>,
    after: Seq<Scalar>,
    indices: Seq<usize>,
    list: Seq<SparseF32Delta>,
) -> bool {
    exists|d: Seq<Scalar>| #[trigger]
        differences_at(f, before, after, indices, d) && list == sparse_at(indices, d)
}

/// Every listed place lies below both bounds.
pub open spec fn all_inside(indices: Seq<usize>, a: int, b: int) -> bool {
    forall|k: int| 0 <= k < indices.len() ==> #[trigger] indices[k] < a && indices[k] < b
}

/// The places among the listed ones where two lists differ.
pub fn diff_selected<F: Fn(Scalar, Scalar) -> Scalar>(
    before: &Vec<Scalar>,
    after: &Vec<Scalar>,
    indices: &Vec<usize>,
    difference: &F,
) -> (r: LeoResult<Vec<SparseF32Delta>>)
    requires
        takes_any_pair(*difference),
    ensures
        match r {
            Ok(list) => all_inside(indices@, before.len() as int, after.len() as int) && diffed_at(
                *difference,
                before@,
                after@,
                indices@,
                list@,
            ),
            Err(e) => !all_inside(indices@, before.len() as int, after.len() as int) && e.says(
                LeoErrorKind::Internal,
                "tracked parameter index is outside the model"@,
            ),
        },
{
    let mut list: Vec<SparseF32Delta> = Vec::new();
    let mut at: usize = 0;
    let ghost mut d: Seq<Scalar> = seq![];
    while at < indices.len()
        invariant
            takes_any_pair(*difference),
            at <= indices.len(),
            forall|k: int|
                0 <= k < at ==> #[trigger] indices@[k] < before.len() && indices@[k] < after.len(),
            d.len() == at,
            forall|k: int|
                0 <= k < d.len() ==> gives(
                    *difference,
                    after@[indices@[k] as int],
                    before@[indices@[k] as int],
                    #[trigger] d[k],
                ),
            list@ == sparse_at(indices@, d),
        decreases indices.len() - at,
    {
        let index: usize = indices[at];
        if index >= before.len() || index >= after.len() {
            assert(!(indices@[at as int] < before.len() && indices@[at as int] < after.len()));
            return Err(
                LeoError::internal("tracked parameter index is outside the model".to_owned()),
            );
        }
        assert(call_requires(*difference, (after@[index as int], before@[index as int])));
        let delta: Scalar = difference(after[index], before[index]);
        proof {
            let next = d.push(delta);
            assert(next.drop_last() =~= d);
            assert(gives(*difference, after@[index as int], before@[index as int], delta));
            d = next;
        }
        if has_moved(delta) {
            list.push(SparseF32Delta { index, delta });
        }
        at = at + 1;
    }
    assert(differences_at(*difference, before@, after@, indices@, d));
    Ok(list)
}

/// The places of one neuron's output weights, class by class, for each listed neuron.
pub open spec fn output_places(neurons: Seq<usize>, neuron_count: int, classes: int) -> Seq<usize>
    decreases neurons.len(),
{
    if neurons.len() == 0 {
        seq![]
    } else {
        output_places(neurons.drop_last(), neuron_count, classes) + Seq::new(
            classes as nat,
            |class: int| (class * neuron_count + neurons.last()) as usize,
        )
    }
}

/// The places of the output weights of the listed neurons.
pub fn list_output_places(neurons: &Vec<usize>, neuron_count: usize, classes: usize) -> (r:
    LeoResult<Vec<usize>>)
    requires
        classes * neuron_count <= usize::MAX,
    ensures
        match r {
            Ok(list) => all_inside(neurons@, neuron_count as int, neuron_count as int) && list@
                == output_places(neurons@, neuron_count as int, classes as int) && all_inside(
                list@,
                classes * neuron_count,
                classes * neuron_count,
            ),
            Err(e) => !all_inside(neurons@, neuron_count as int, neuron_count as int) && e.says(
                LeoErrorKind::Internal,
                "tracked output neuron is outside the model"@,
            ),
        },
{
    let mut list: Vec<usize> = Vec::new();
    let mut at: usize = 0;
    assert(neurons@.take(0) =~= Seq::<usize>::empty());
    while at < neurons.len()
        invariant
            classes * neuron_count <= usize::MAX,
            at <= neurons.len(),
            forall|k: int| 0 <= k < at ==> #[trigger] neurons@[k] < neuron_count,
            list@ == output_places(neurons@.take(at as int), neuron_count as int, classes as int),
            all_inside(list@, classes * neuron_count, classes * neuron_count),
        decreases neurons.len() - at,
    {
        let neuron: usize = neurons[at];
        if neuron >= neuron_count {
            assert(!(neurons@[at as int] < neuron_count));
            return Err(
                LeoError::internal("tracked output neuron is outside the model".to_owned()),
            );
        }
        let ghost earlier = list@;
        let ghost row = Seq::new(
            classes as nat,
            |class: int| (class * neuron_count + neuron) as usize,
        );
        let mut class: usize = 0;
        while class < classes
            invariant
                class <= classes,
                neuron < neuron_count,
                classes * neuron_count <= usize::MAX,
                row == Seq::new(
                    classes as nat,
                    |class: int| (class * neuron_count + neuron) as usize,
                ),
                list@ == earlier + row.take(class as int),
                all_inside(list@, classes * neuron_count, classes * neuron_count),
            decreases classes - class,
        {
            assert(0 <= class * neuron_count && class * neuron_count + neuron < classes
                * neuron_count) by (nonlinear_arith)
                requires
                    class < classes,
                    neuron < neuron_count,
            ;
            list.push(class * neuron_count + neuron);
            assert(row.take(class + 1) =~= row.take(class as int).push(row[class as int]));
            assert(list@ =~= earlier + row.take(class + 1));
            class = class + 1;
        }
        proof {
            assert(row.take(classes as int) =~= row);
            let upto = neurons@.take(at + 1);
            assert(upto.drop_last() =~= neurons@.take(at as int));
            assert(upto.last() == neuron);
        }
        at = at + 1;
    }
    assert(neurons@.take(neurons.len() as int) =~= neurons@);
    Ok(list)
}

/// The slot in which probing finds a fingerprint.
pub open spec fn probed(m: Model, order: int, key: u64, found: Option<int>) -> bool {
    match found {
        Some(slot) => exists|o: int| #[trigger]
            m.hit(order, key, o) && slot == m.slot_at(order, key, o),
        None => m.missed(order, key),
    }
}

/// A slot number as an integer.
pub open spec fn as_slot(slot: Option<usize>) -> Option<int> {
    match slot {
        Some(s) => Some(s as int),
        None => None,
    }
}

/// Looks a fingerprint up by probing.
pub fn find_context_slot(m: &Model, order: usize, key: u64) -> (r: Option<usize>)
    requires
        m.context_ready(),
        1 <= order <= m.config.context.max_order,
    ensures
        probed(*m, order as int, key, as_slot(r)),
        r matches Some(slot) ==> slot < m.context.keys.len() && m.context.keys@[slot as int] == key,
{
    let slots_per_order: usize = m.config.context.slots_per_order;
    proof {
        lemma_partition(
            order as int,
            m.config.context.max_order as int,
            slots_per_order as int,
        );
    }
    let base: usize = (order - 1) * slots_per_order;
    let start: usize = (key % (slots_per_order as u64)) as usize;
    let mut offset: usize = 0;
    while offset < m.config.context.probe_limit
        invariant
            m.context_ready(),
            1 <= order <= m.config.context.max_order,
            slots_per_order == m.config.context.slots_per_order,
            base == (order - 1) * slots_per_order,
            base + slots_per_order <= m.context.keys.len(),
            start == key as int % slots_per_order as int,
            forall|j: int| 0 <= j < offset ==> #[trigger] m.key_at(order as int, key, j) != key,
        decreases m.config.context.probe_limit - offset,
    {
        let slot: usize = base + wrapped(start, offset, slots_per_order);
        assert(slot == m.slot_at(order as int, key, offset as int));
        if m.context.keys[slot] == key {
            assert(m.key_at(order as int, key, offset as int) == key);
            assert(m.hit(order as int, key, offset as int));
            return Some(slot);
        }
        assert(m.key_at(order as int, key, offset as int) != key);
        offset = offset + 1;
    }
    None
}

/// The place of one number of a slot's embedding.
pub open spec fn embedding_place(slot: int, dim: int, i: int) -> int {
    slot * dim + i
}

/// The number that an embedding had before: that of the slot it was found in, or zero.
pub open spec fn embedding_before(base: Model, from: Option<int>, i: int) -> Scalar {
    match from {
        Some(slot) => base.context.embeddings@[embedding_place(
            slot,
            base.config.context.embedding_dim as int,
            i,
        )],
        None => Scalar { bits: 0 },
    }
}

/// The observations that an entry had before.
pub open spec fn observations_before(base: Model, from: Option<int>) -> u32 {
    match from {
        Some(slot) => base.context.observations@[slot],
        None => 0,
    }
}

/// The order of a slot.
pub open spec fn order_of(m: Model, slot: int) -> int {
    slot / (m.config.context.slots_per_order as int) + 1
}

/// The entry that a trained slot makes, where the fingerprint was found in `from` before.
pub open spec fn row_of<F: Fn(Scalar, Scalar) -> Scalar>(
    f: F,
    base: Model,
    trained: Model,
    slot: int,
    from: Option<int>,
    row: KeyedRow,
) -> bool {
    let dim = base.config.context.embedding_dim as int;
    let seen = trained.context.observations@[slot];
    let seen_before = observations_before(base, from);
    &&& row.order == order_of(base, slot)
    &&& row.key == trained.context.keys@[slot]
    &&& row.embedding_delta.len() == dim
    &&& forall|i: int|
        0 <= i < dim ==> gives(
            f,
            trained.context.embeddings@[embedding_place(slot, dim, i)],
            embedding_before(base, from, i),
            #[trigger] row.embedding_delta[i],
        )
    &&& row.observation_increment == if seen < seen_before {
        0
    } else {
        seen - seen_before
    }
}

/// Some number of the list is not zero.
pub open spec fn any_moved(d: Seq<Scalar>) -> bool {
    exists|i: int| 0 <= i < d.len() && moved(#[trigger] d[i])
}

/// An entry that changes something.
pub open spec fn matters(row: KeyedRow) -> bool {
    any_moved(row.embedding_delta) || row.observation_increment > 0
}

/// The entry of a trained slot, and whether it changes something.
fn build_row<F: Fn(Scalar, Scalar) -> Scalar>(
    base: &Model,
    trained: &Model,
    slot: usize,
    order: usize,
    from: Option<usize>,
    difference: &F,
) -> (r: (ContextKeyDelta, bool))
    requires
        takes_any_pair(*difference),
        base.context_ready(),
        trained.context_ready(),
        base.config.context == trained.config.context,
        slot < trained.context.keys.len(),
        order == order_of(*base, slot as int),
        from matches Some(s) ==> s < base.context.keys.len(),
    ensures
        row_of(*difference, *base, *trained, slot as int, as_slot(from), r.0@),
        r.1 == matters(r.0@),
{
    let dim: usize = base.config.context.embedding_dim;
    let mut embedding_delta: Vec<Scalar> = Vec::new();
    let mut changed: bool = false;
    let mut i: usize = 0;
    proof {
        lemma_row_fits(slot as int, trained.context.keys.len() as int, dim as int);
        if let Some(s) = from {
            lemma_row_fits(s as int, base.context.keys.len() as int, dim as int);
        }
    }
    while i < dim
        invariant
            takes_any_pair(*difference),
            dim == base.config.context.embedding_dim,
            i <= dim,
            embedding_delta.len() == i,
            slot * dim + dim <= trained.context.embeddings.len(),
            0 <= slot * dim,
            from matches Some(s) ==> 0 <= s * dim && s * dim + dim <= base.context.embeddings.len(),
            forall|k: int|
                0 <= k < i ==> gives(
                    *difference,
                    trained.context.embeddings@[embedding_place(slot as int, dim as int, k)],
                    embedding_before(*base, as_slot(from), k),
                    #[trigger] embedding_delta@[k],
                ),
            changed == any_moved(embedding_delta@),
        decreases dim - i,
    {
        let before: Scalar = match from {
            Some(s) => base.context.embeddings[s * dim + i],
            None => Scalar::zero(),
        };
        let after: Scalar = trained.context.embeddings[slot * dim + i];
        assert(before == embedding_before(*base, as_slot(from), i as int));
        assert(call_requires(*difference, (after, before)));
        let delta: Scalar = difference(after, before);
        assert(gives(*difference, after, before, delta));
        let ghost earlier = embedding_delta@;
        let now: bool = has_moved(delta);
        embedding_delta.push(delta);
        proof {
            lemma_push_moved(earlier, delta);
        }
        changed = changed || now;
        i = i + 1;
    }
    let seen: u32 = trained.context.observations[slot];
    let seen_before: u32 = match from {
        Some(s) => base.context.observations[s],
        None => 0,
    };
    let observation_increment: u32 = seen.saturating_sub(seen_before);
    let row = ContextKeyDelta {
        order,
        key: trained.context.keys[slot],
        embedding_delta,
        observation_increment,
    };
    (row, changed || observation_increment > 0)
}

proof fn lemma_push_moved(d: Seq<Scalar>, x: Scalar)
    ensures
        any_moved(d.push(x)) == (any_moved(d) || moved(x)),
{
    let all = d.push(x);
    if any_moved(d) {
        let i = choose|i: int| 0 <= i < d.len() && moved(#[trigger] d[i]);
        assert(moved(all[i]));
    }
    if moved(x) {
        assert(moved(all[d.len() as int]));
    }
    if any_moved(all) {
        let i = choose|i: int| 0 <= i < all.len() && moved(#[trigger] all[i]);
        if i < d.len() {
            assert(moved(d[i]));
        }
    }
}

/// The last slot of an order's partition, before `end`, that holds a fingerprint.
pub open spec fn placed(m: Model, order: int, key: u64, end: int, found: Option<int>) -> bool {
    let start = (order - 1) * m.config.context.slots_per_order;
    match found {
        Some(slot) => {
            &&& start <= slot < end
            &&& m.context.keys@[slot] == key
            &&& forall|s: int| slot < s < end ==> #[trigger] m.context.keys@[s] != key
        },
        None => forall|s: int| start <= s < end ==> #[trigger] m.context.keys@[s] != key,
    }
}

/// The end of an order's partition.
pub open spec fn partition_end(m: Model, order: int) -> int {
    (order - 1) * m.config.context.slots_per_order + m.config.context.slots_per_order
}

/// What a map says of a fingerprint.
pub open spec fn mapped(map: Map<u64, usize>, key: u64) -> Option<int> {
    if map.contains_key(key) {
        Some(map[key] as int)
    } else {
        None
    }
}

/// The last slot of each fingerprint in an order's partition.
fn index_partition(m: &Model, order: usize) -> (r: HashMap<u64, usize>)
    requires
        m.context_ready(),
        1 <= order <= m.config.context.max_order,
    ensures
        forall|key: u64|
            key != 0 ==> #[trigger] placed(
                *m,
                order as int,
                key,
                partition_end(*m, order as int),
                mapped(r@, key),
            ),
{
    broadcast use group_hash_axioms;

    let slots: usize = m.config.context.slots_per_order;
    proof {
        lemma_partition(order as int, m.config.context.max_order as int, slots as int);
    }
    let start: usize = (order - 1) * slots;
    let mut map: HashMap<u64, usize> = HashMap::new();
    let mut slot: usize = start;
    while slot < start + slots
        invariant
            start == (order - 1) * m.config.context.slots_per_order,
            slots == m.config.context.slots_per_order,
            start <= slot <= start + slots <= m.context.keys.len(),
            forall|key: u64|
                key != 0 ==> #[trigger] placed(
                    *m,
                    order as int,
                    key,
                    slot as int,
                    mapped(map@, key),
                ),
        decreases start + slots - slot,
    {
        let key: u64 = m.context.keys[slot];
        let ghost before = map@;
        if key != 0 {
            map.insert(key, slot);
        }
        proof {
            assert forall|k: u64| k != 0 implies #[trigger] placed(
                *m,
                order as int,
                k,
                slot + 1,
                mapped(map@, k),
            ) by {
                assert(placed(*m, order as int, k, slot as int, mapped(before, k)));
            }
        }
        slot = slot + 1;
    }
    map
}

/// Where an entry was before: by probing, or by its last place in the partition.
pub open spec fn sought(
    probing: bool,
    base: Model,
    order: int,
    key: u64,
    from: Option<int>,
) -> bool {
    if probing {
        probed(base, order, key, from)
    } else {
        placed(base, order, key, partition_end(base, order), from)
    }
}

/// The entry that a trained slot makes, if it holds a fingerprint.
pub open spec fn slot_row<F: Fn(Scalar, Scalar) -> Scalar>(
    f: F,
    base: Model,
    trained: Model,
    slot: int,
    probing: bool,
    row: Option<KeyedRow>,
) -> bool {
    let key = trained.context.keys@[slot];
    match row {
        None => key == 0,
        Some(r) => key != 0 && exists|from: Option<int>| #[trigger]
            sought(probing, base, order_of(base, slot), key, from) && row_of(
                f,
                base,
                trained,
                slot,
                from,
                r,
            ),
    }
}

/// The entries that some trained slots make.
pub open spec fn rows_for<F: Fn(Scalar, Scalar) -> Scalar>(
    f: F,
    base: Model,
    trained: Model,
    slots: Seq<usize>,
    probing: bool,
    rows: Seq<Option<KeyedRow>>,
) -> bool {
    &&& rows.len() == slots.len()
    &&& forall|k: int|
        0 <= k < rows.len() ==> slot_row(
            f,
            base,
            trained,
            slots[k] as int,
            probing,
            #[trigger] rows[k],
        )
}

/// The entries that change something.
pub open spec fn kept_rows(rows: Seq<Option<KeyedRow>>) -> Seq<KeyedRow>
    decreases rows.len(),
{
    if rows.len() == 0 {
        seq![]
    } else {
        match rows.last() {
            Some(row) => if matters(row) {
                kept_rows(rows.drop_last()).push(row)
            } else {
                kept_rows(rows.drop_last())
            },
            None => kept_rows(rows.drop_last()),
        }
    }
}

/// The entries of a list as mathematical values.
pub open spec fn row_views(list: Seq<ContextKeyDelta>) -> Seq<KeyedRow> {
    Seq::new(list.len(), |i: int| list[i]@)
}

/// The list holds the entries of some trained slots that change something.
pub open spec fn rows_listed<F: Fn(Scalar, Scalar) -> Scalar>(
    f: F,
    base: Model,
    trained: Model,
    slots: Seq<usize>,
    probing: bool,
    list: Seq<KeyedRow>,
) -> bool {
    exists|rows: Seq<Option<KeyedRow>>| #[trigger]
        rows_for(f, base, trained, slots, probing, rows) && list == kept_rows(rows)
}

/// A slot of an order's partition has that order.
proof fn lemma_order_of(m: Model, order: int, slot: int)
    requires
        0 < m.config.context.slots_per_order,
        (order - 1) * m.config.context.slots_per_order <= slot < partition_end(m, order),
    ensures
        order_of(m, slot) == order,
{
    let n = m.config.context.slots_per_order as int;
    assert(slot / n == order - 1) by (nonlinear_arith)
        requires
            0 < n,
            (order - 1) * n <= slot < (order - 1) * n + n,
    ;
}

/// A slot lies in the partition of its order.
pub proof fn lemma_slot_in_order(m: Model, slot: int)
    requires
        m.context_ready(),
        0 <= slot < m.context.keys.len(),
    ensures
        1 <= order_of(m, slot) <= m.config.context.max_order,
        (order_of(m, slot) - 1) * m.config.context.slots_per_order <= slot < partition_end(
            m,
            order_of(m, slot),
        ),
{
    let n = m.config.context.slots_per_order as int;
    let orders = m.config.context.max_order as int;
    let q = slot / n;
    assert(0 <= q && q * n <= slot < q * n + n) by (nonlinear_arith)
        requires
            0 < n,
            0 <= slot,
            q == slot / n,
    ;
    assert(q < orders) by (nonlinear_arith)
        requires
            q * n <= slot < orders * n,
            0 < n,
    ;
}

/// Puts the entry of one trained slot behind a list.
fn append_row<F: Fn(Scalar, Scalar) -> Scalar>(
    base: &Model,
    trained: &Model,
    slot: usize,
    order: usize,
    from: Option<usize>,
    difference: &F,
    list: &mut Vec<ContextKeyDelta>,
) -> (row: Ghost<KeyedRow>)
    requires
        takes_any_pair(*difference),
        base.context_ready(),
        trained.context_ready(),
        base.config.context == trained.config.context,
        slot < trained.context.keys.len(),
        order == order_of(*base, slot as int),
        from matches Some(s) ==> s < base.context.keys.len(),
    ensures
        row_of(*difference, *base, *trained, slot as int, as_slot(from), row@),
        row_views(final(list)@) == if matters(row@) {
            row_views(old(list)@).push(row@)
        } else {
            row_views(old(list)@)
        },
{
    let (entry, worth) = build_row(base, trained, slot, order, from, difference);
    let ghost view = entry@;
    let ghost earlier = list@;
    if worth {
        list.push(entry);
        assert(row_views(list@) =~= row_views(earlier).push(view));
    }
    Ghost(view)
}

/// The entries of every trained slot, each compared with the last place of its fingerprint.
pub fn context_deltas<F: Fn(Scalar, Scalar) -> Scalar>(
    base: &Model,
    trained: &Model,
    difference: &F,
) -> (r: Vec<ContextKeyDelta>)
    requires
        takes_any_pair(*difference),
        base.context_ready(),
        trained.context_ready(),
        base.config.context == trained.config.context,
    ensures
        rows_listed(
            *difference,
            *base,
            *trained,
            Seq::new(trained.context.keys@.len(), |i: int| i as usize),
            false,
            row_views(r@),
        ),
{
    let mut list: Vec<ContextKeyDelta> = Vec::new();
    let ghost mut rows: Seq<Option<KeyedRow>> = seq![];
    let slots: usize = base.config.context.slots_per_order;
    let orders: usize = base.config.context.max_order;
    let ghost all = Seq::new(trained.context.keys@.len(), |i: int| i as usize);
    let mut done: usize = 0;
    let mut slot: usize = 0;
    assert(row_views(list@) =~= seq![]);
    while done < orders
        invariant
            takes_any_pair(*difference),
            base.context_ready(),
            trained.context_ready(),
            base.config.context == trained.config.context,
            slots == base.config.context.slots_per_order,
            orders == base.config.context.max_order,
            done <= orders,
            slot == done * slots,
            all == Seq::new(trained.context.keys@.len(), |i: int| i as usize),
            rows.len() == slot,
            forall|k: int|
                0 <= k < rows.len() ==> slot_row(
                    *difference,
                    *base,
                    *trained,
                    all[k] as int,
                    false,
                    #[trigger] rows[k],
                ),
            row_views(list@) == kept_rows(rows),
        decreases orders - done,
    {
        let order: usize = done + 1;
        proof {
            lemma_partition(order as int, orders as int, slots as int);
            assert((order - 1) * slots == done * slots);
            assert(order * slots == done * slots + slots) by (nonlinear_arith)
                requires
                    order == done + 1,
            ;
        }
        let map: HashMap<u64, usize> = index_partition(base, order);
        let end: usize = slot + slots;
        while slot < end
            invariant
                takes_any_pair(*difference),
                base.context_ready(),
                trained.context_ready(),
                base.config.context == trained.config.context,
                slots == base.config.context.slots_per_order,
                1 <= order <= base.config.context.max_order,
                (order - 1) * slots <= slot <= end == partition_end(*base, order as int),
                end <= trained.context.keys.len(),
                end <= base.context.keys.len(),
                forall|key: u64|
                    key != 0 ==> #[trigger] placed(
                        *base,
                        order as int,
                        key,
                        partition_end(*base, order as int),
                        mapped(map@, key),
                    ),
                all == Seq::new(trained.context.keys@.len(), |i: int| i as usize),
                rows.len() == slot,
                forall|k: int|
                    0 <= k < rows.len() ==> slot_row(
                        *difference,
                        *base,
                        *trained,
                        all[k] as int,
                        false,
                        #[trigger] rows[k],
                    ),
                row_views(list@) == kept_rows(rows),
            decreases end - slot,
        {
            broadcast use group_hash_axioms;

            let key: u64 = trained.context.keys[slot];
            let ghost earlier = rows;
            if key != 0 {
                let from: Option<usize> = match map.get(&key) {
                    Some(s) => Some(*s),
                    None => None,
                };
                proof {
                    lemma_order_of(*base, order as int, slot as int);
                    assert(placed(
                        *base,
                        order as int,
                        key,
                        partition_end(*base, order as int),
                        mapped(map@, key),
                    ));
                    assert(as_slot(from) == mapped(map@, key));
                    assert(sought(false, *base, order_of(*base, slot as int), key, as_slot(from)));
                }
                let row = append_row(base, trained, slot, order, from, difference, &mut list);
                proof {
                    rows = rows.push(Some(row@));
                    assert(slot_row(
                        *difference,
                        *base,
                        *trained,
                        slot as int,
                        false,
                        Some(row@),
                    ));
                }
            } else {
                proof {
                    rows = rows.push(None);
                }
            }
            assert(rows.drop_last() =~= earlier);
            slot = slot + 1;
        }
        done = done + 1;
    }
    proof {
        assert(rows_for(*difference, *base, *trained, all, false, rows));
    }
    list
}

/// The entries of the listed slots, each compared with the slot in which probing finds its
/// fingerprint.
pub fn context_deltas_for_slots<F: Fn(Scalar, Scalar) -> Scalar>(
    base: &Model,
    trained: &Model,
    slots: &Vec<usize>,
    difference: &F,
) -> (r: LeoResult<Vec<ContextKeyDelta>>)
    requires
        takes_any_pair(*difference),
        base.context_ready(),
        trained.context_ready(),
        base.config.context == trained.config.context,
    ensures
        match r {
            Ok(list) => all_inside(
                slots@,
                trained.context.keys.len() as int,
                trained.context.keys.len() as int,
            ) && rows_listed(*difference, *base, *trained, slots@, true, row_views(list@)),
            Err(e) => !all_inside(
                slots@,
                trained.context.keys.len() as int,
                trained.context.keys.len() as int,
            ) && e.says(
                LeoErrorKind::Internal,
                "tracked context slot is outside the model"@,
            ),
        },
{
    let mut list: Vec<ContextKeyDelta> = Vec::new();
    let ghost mut rows: Seq<Option<KeyedRow>> = seq![];
    let mut at: usize = 0;
    assert(row_views(list@) =~= seq![]);
    while at < slots.len()
        invariant
            takes_any_pair(*difference),
            base.context_ready(),
            trained.context_ready(),
            base.config.context == trained.config.context,
            at <= slots.len(),
            forall|k: int| 0 <= k < at ==> #[trigger] slots@[k] < trained.context.keys.len(),
            rows.len() == at,
            forall|k: int|
                0 <= k < rows.len() ==> slot_row(
                    *difference,
                    *base,
                    *trained,
                    slots@[k] as int,
                    true,
                    #[trigger] rows[k],
                ),
            row_views(list@) == kept_rows(rows),
        decreases slots.len() - at,
    {
        let slot: usize = slots[at];
        if slot >= trained.context.keys.len() {
            assert(!(slots@[at as int] < trained.context.keys.len()));
            return Err(LeoError::internal("tracked context slot is outside the model".to_owned()));
        }
        let key: u64 = trained.context.keys[slot];
        let ghost earlier = rows;
        if key != 0 {
            proof {
                lemma_slot_in_order(*base, slot as int);
            }
            let order: usize = slot / base.config.context.slots_per_order + 1;
            let from: Option<usize> = find_context_slot(base, order, key);
            assert(sought(true, *base, order_of(*base, slot as int), key, as_slot(from)));
            let row = append_row(base, trained, slot, order, from, difference, &mut list);
            proof {
                rows = rows.push(Some(row@));
                assert(slot_row(*difference, *base, *trained, slot as int, true, Some(row@)));
            }
        } else {
            proof {
                rows = rows.push(None);
            }
        }
        assert(rows.drop_last() =~= earlier);
        at = at + 1;
    }
    proof {
        assert(rows_for(*difference, *base, *trained, slots@, true, rows));
    }
    Ok(list)
}

/// An entry's order and fingerprint, and its place in a list.
#[derive(Debug, Clone, Copy, PartialEq, Eq, Structural)]
pub struct KeyPlace {
    pub order: usize,
    pub key: u64,
    pub place: usize,
}

impl Ranked for KeyPlace {
    open spec fn leq(self, other: Self) -> bool {
        self.order < other.order || (self.order == other.order && (self.key < other.key || (
        self.key == other.key && self.place <= other.place)))
    }

    proof fn order_is_total() {
        assert(total_ordering(|a: Self, b: Self| a.leq(b)));
    }

    fn comes_before(&self, other: &Self) -> (r: bool) {
        self.order < other.order || (self.order == other.order && (self.key < other.key || (
        self.key == other.key && self.place <= other.place)))
    }
}

/// An entry comes before another by order and fingerprint, or they share both.
pub open spec fn row_leq(a: KeyedRow, b: KeyedRow) -> bool {
    a.order < b.order || (a.order == b.order && a.key <= b.key)
}

/// The same entries, sorted by order and fingerprint.
pub open spec fn canonical(rows: Seq<KeyedRow>, sorted: Seq<KeyedRow>) -> bool {
    &&& sorted.to_multiset() == rows.to_multiset()
    &&& forall|i: int, j: int|
        0 <= i < j < sorted.len() ==> row_leq(#[trigger] sorted[i], #[trigger] sorted[j])
}

/// Equal multisets stay equal under a function.
proof fn lemma_map_keeps_multiset<A, B>(p: Seq<A>, q: Seq<A>, g: spec_fn(A) -> B)
    requires
        p.to_multiset() == q.to_multiset(),
    ensures
        p.map_values(g).to_multiset() == q.map_values(g).to_multiset(),
    decreases p.len(),
{
    broadcast use group_to_multiset_ensures;

    if p.len() == 0 {
        assert(p.len() == p.to_multiset().len());
        assert(q.len() == q.to_multiset().len());
        assert(p.map_values(g) =~= q.map_values(g));
    } else {
        let x = p.last();
        let p0 = p.drop_last();
        assert(p0.push(x) =~= p);
        assert(p.contains(x));
        assert(q.to_multiset().count(x) > 0);
        assert(q.contains(x));
        let i = choose|i: int| 0 <= i < q.len() && q[i] == x;
        let q0 = q.remove(i);
        assert(p0.to_multiset() =~= q0.to_multiset()) by {
            assert(p0.to_multiset() =~= p.to_multiset().remove(x));
        }
        lemma_map_keeps_multiset(p0, q0, g);
        assert(p.map_values(g) =~= p0.map_values(g).push(g(x)));
        assert(q.map_values(g) =~= q0.map_values(g).insert(i, g(x)));
    }
}

/// A copy of a list of numbers.
pub fn copy_scalars(list: &Vec<Scalar>) -> (r: Vec<Scalar>)
    ensures
        r@ == list@,
{
    let mut out: Vec<Scalar> = Vec::new();
    let mut i: usize = 0;
    while i < list.len()
        invariant
            i <= list.len(),
            out@ == list@.take(i as int),
        decreases list.len() - i,
    {
        out.push(list[i]);
        assert(list@.take(i + 1) =~= list@.take(i as int).push(list@[i as int]));
        i = i + 1;
    }
    assert(list@.take(list.len() as int) =~= list@);
    out
}

/// The entries, sorted by order and fingerprint.
pub fn canonical_order(list: &Vec<ContextKeyDelta>) -> (r: Vec<ContextKeyDelta>)
    ensures
        canonical(row_views(list@), row_views(r@)),
{
    let mut places: Vec<KeyPlace> = Vec::new();
    let mut i: usize = 0;
    while i < list.len()
        invariant
            i <= list.len(),
            places.len() == i,
            forall|k: int|
                0 <= k < i ==> #[trigger] places@[k] == (KeyPlace {
                    order: list@[k].order,
                    key: list@[k].key,
                    place: k as usize,
                }),
        decreases list.len() - i,
    {
        places.push(KeyPlace { order: list[i].order, key: list[i].key, place: i });
        i = i + 1;
    }
    let sorted: Vec<KeyPlace> = sort_ranked(&places);
    proof {
        lemma_ranked(places@);
    }
    let ghost views = row_views(list@);
    let ghost view_at = |p: KeyPlace| views[p.place as int];
    assert forall|k: int| 0 <= k < sorted@.len() implies {
        let p = #[trigger] sorted@[k];
        &&& p.place < list.len()
        &&& p.order == list@[p.place as int].order
        &&& p.key == list@[p.place as int].key
    } by {
        assert(sorted@.contains(sorted@[k]));
        assert(places@.contains(sorted@[k]));
    }
    let mut out: Vec<ContextKeyDelta> = Vec::new();
    let mut j: usize = 0;
    while j < sorted.len()
        invariant
            j <= sorted.len(),
            views == row_views(list@),
            forall|k: int|
                0 <= k < sorted@.len() ==> {
                    let p = #[trigger] sorted@[k];
                    &&& p.place < list.len()
                    &&& p.order == list@[p.place as int].order
                    &&& p.key == list@[p.place as int].key
                },
            out.len() == j,
            forall|k: int| 0 <= k < j ==> (#[trigger] out@[k])@ == views[sorted@[k].place as int],
        decreases sorted.len() - j,
    {
        let place: usize = sorted[j].place;
        assert(sorted@[j as int].place < list.len());
        let entry = &list[place];
        let copy = ContextKeyDelta {
            order: entry.order,
            key: entry.key,
            embedding_delta: copy_scalars(&entry.embedding_delta),
            observation_increment: entry.observation_increment,
        };
        assert(copy@ == list@[place as int]@);
        out.push(copy);
        j = j + 1;
    }
    proof {
        lemma_map_keeps_multiset(sorted@, places@, view_at);
        assert(row_views(out@) =~= sorted@.map_values(view_at));
        assert(views =~= places@.map_values(view_at));
        let order = rank_order::<KeyPlace>();
        let after = row_views(out@);
        assert forall|a: int, b: int| 0 <= a < b < after.len() implies row_leq(
            #[trigger] after[a],
            #[trigger] after[b],
        ) by {
            assert(order(sorted@[a], sorted@[b]));
            assert(sorted@[a].place < list.len() && sorted@[b].place < list.len());
        }
    }
    out
}

/// By how much the counters moved.
pub open spec fn moved_statistics<T: Numerics>(
    ops: T,
    before: TrainingStatistics,
    after: TrainingStatistics,
) -> StatisticsDelta {
    StatisticsDelta {
        processed_bytes: floored_difference(after.processed_bytes, before.processed_bytes),
        processed_stories: floored_difference(after.processed_stories, before.processed_stories),
        training_loss_sum: ops.wide_difference(after.training_loss_sum, before.training_loss_sum),
        training_targets: floored_difference(after.training_targets, before.training_targets),
        active_neurons_sum: floored_difference(after.active_neurons_sum, before.active_neurons_sum),
        active_neurons_peak: after.active_neurons_peak,
        synaptic_events: floored_difference(after.synaptic_events, before.synaptic_events),
        numerical_rejections: floored_difference(
            after.numerical_rejections,
            before.numerical_rejections,
        ),
        persistent_ticks: floored_difference(after.persistent_ticks, before.persistent_ticks),
    }
}

/// By how much the counters moved.
pub fn statistics_delta<T: Numerics>(
    before: &TrainingStatistics,
    after: &TrainingStatistics,
    ops: &T,
) -> (r: StatisticsDelta)
    requires
        ops.ready(),
    ensures
        r == moved_statistics(*ops, *before, *after),
{
    StatisticsDelta {
        processed_bytes: after.processed_bytes.saturating_sub(before.processed_bytes),
        processed_stories: after.processed_stories.saturating_sub(before.processed_stories),
        training_loss_sum: ops.wide_minus(after.training_loss_sum, before.training_loss_sum),
        training_targets: after.training_targets.saturating_sub(before.training_targets),
        active_neurons_sum: after.active_neurons_sum.saturating_sub(before.active_neurons_sum),
        active_neurons_peak: after.active_neurons_peak,
        synaptic_events: after.synaptic_events.saturating_sub(before.synaptic_events),
        numerical_rejections: after.numerical_rejections.saturating_sub(
            before.numerical_rejections,
        ),
        persistent_ticks: after.persistent_ticks.saturating_sub(before.persistent_ticks),
    }
}

/// Two models of one configuration with the same wiring.
pub open spec fn aligned(
    base: Model,
    trained: Model,
    base_fingerprint: ConfigFingerprint,
    trained_fingerprint: ConfigFingerprint,
) -> bool {
    &&& base_fingerprint == trained_fingerprint
    &&& base.recurrent.target_neuron@ == trained.recurrent.target_neuron@
    &&& base.recurrent.target_branch@ == trained.recurrent.target_branch@
    &&& base.recurrent.delay@ == trained.recurrent.delay@
    &&& base.input.targets@ == trained.input.targets@
    &&& base.input.branches@ == trained.input.branches@
    &&& base.neurons.neuron_type@ == trained.neurons.neuron_type@
}

fn same_words(a: &Vec<u32>, b: &Vec<u32>) -> (r: bool)
    ensures
        r == (a@ == b@),
{
    if a.len() != b.len() {
        return false;
    }
    let mut i: usize = 0;
    while i < a.len()
        invariant
            i <= a.len(),
            a.len() == b.len(),
            forall|k: int| 0 <= k < i ==> a@[k] == b@[k],
        decreases a.len() - i,
    {
        if a[i] != b[i] {
            assert(a@[i as int] != b@[i as int]);
            return false;
        }
        i = i + 1;
    }
    assert(a@ =~= b@);
    true
}

fn same_bytes(a: &Vec<u8>, b: &Vec<u8>) -> (r: bool)
    ensures
        r == (a@ == b@),
{
    if a.len() != b.len() {
        return false;
    }
    let mut i: usize = 0;
    while i < a.len()
        invariant
            i <= a.len(),
            a.len() == b.len(),
            forall|k: int| 0 <= k < i ==> a@[k] == b@[k],
        decreases a.len() - i,
    {
        if a[i] != b[i] {
            assert(a@[i as int] != b@[i as int]);
            return false;
        }
        i = i + 1;
    }
    assert(a@ =~= b@);
    true
}

/// Refuses models that are not aligned.
pub fn ensure_aligned_models(
    base: &Model,
    trained: &Model,
    base_fingerprint: ConfigFingerprint,
    trained_fingerprint: ConfigFingerprint,
) -> (r: LeoResult<()>)
    ensures
        aligned(*base, *trained, base_fingerprint, trained_fingerprint) ==> r is Ok,
        !aligned(*base, *trained, base_fingerprint, trained_fingerprint) ==> fails(
            r,
            LeoErrorKind::Internal,
            "worker model topology is not aligned with the canonical checkpoint"@,
        ),
{
    if base_fingerprint != trained_fingerprint || !same_words(
        &base.recurrent.target_neuron,
        &trained.recurrent.target_neuron,
    ) || !same_bytes(&base.recurrent.target_branch, &trained.recurrent.target_branch)
        || !same_bytes(&base.recurrent.delay, &trained.recurrent.delay) || !same_words(
        &base.input.targets,
        &trained.input.targets,
    ) || !same_bytes(&base.input.branches, &trained.input.branches) || !same_bytes(
        &base.neurons.neuron_type,
        &trained.neurons.neuron_type,
    ) {
        return Err(
            LeoError::internal(
                "worker model topology is not aligned with the canonical checkpoint".to_owned(),
            ),
        );
    }
    Ok(())
}

/// What one worker changed.
#[derive(Debug, Clone)]
pub struct SparseModelDelta {
    pub config_fingerprint: ConfigFingerprint,
    pub base_revision: u64,
    pub revision_increment: u64,
    pub threshold: Vec<SparseF32Delta>,
    pub excitability: Vec<SparseF32Delta>,
    pub recurrent_weight: Vec<SparseF32Delta>,
    pub input_weight: Vec<SparseF32Delta>,
    pub output_weight: Vec<SparseF32Delta>,
    pub output_bias: Vec<SparseF32Delta>,
    pub context_output_weight: Vec<SparseF32Delta>,
    pub context: Vec<ContextKeyDelta>,
    pub statistics: StatisticsDelta,
}

/// Every slot of a table.
pub open spec fn all_slots(n: nat) -> Seq<usize> {
    Seq::new(n, |i: int| i as usize)
}

/// The sorted entries of some trained slots.
pub open spec fn context_delta<F: Fn(Scalar, Scalar) -> Scalar>(
    f: F,
    base: Model,
    trained: Model,
    slots: Seq<usize>,
    probing: bool,
    sorted: Seq<KeyedRow>,
) -> bool {
    exists|rows: Seq<KeyedRow>| #[trigger]
        rows_listed(f, base, trained, slots, probing, rows) && canonical(rows, sorted)
}

/// The list holds the differences at the listed places that are not zero, sorted.
pub open spec fn diffed_selected<F: Fn(Scalar, Scalar) -> Scalar>(
    f: F,
    before: Seq<Scalar>,
    after: Seq<Scalar>,
    indices: Seq<usize>,
    list: Seq<SparseF32Delta>,
) -> bool {
    exists|unsorted: Seq<SparseF32Delta>| #[trigger]
        diffed_at(f, before, after, indices, unsorted) && list == ranked(unsorted)
}

impl SparseModelDelta {
    /// The revision and the counters moved as the two models say.
    pub open spec fn header<T: Numerics>(
        self,
        ops: T,
        base: Model,
        trained: Model,
        fingerprint: ConfigFingerprint,
    ) -> bool {
        &&& self.config_fingerprint == fingerprint
        &&& self.base_revision == base.parameter_revision
        &&& self.revision_increment == floored_difference(
            trained.parameter_revision,
            base.parameter_revision,
        )
        &&& self.statistics == moved_statistics(ops, base.statistics, trained.statistics)
    }

    /// The delta holds every difference of two models.
    pub open spec fn full<F: Fn(Scalar, Scalar) -> Scalar>(
        self,
        f: F,
        base: Model,
        trained: Model,
    ) -> bool {
        &&& diffed(f, base.neurons.threshold@, trained.neurons.threshold@, self.threshold@)
        &&& diffed(f, base.neurons.excitability@, trained.neurons.excitability@, self.excitability@)
        &&& diffed(f, base.recurrent.weight@, trained.recurrent.weight@, self.recurrent_weight@)
        &&& diffed(f, base.input.weights@, trained.input.weights@, self.input_weight@)
        &&& diffed(f, base.output.weights@, trained.output.weights@, self.output_weight@)
        &&& diffed(f, base.output.bias@, trained.output.bias@, self.output_bias@)
        &&& diffed(
            f,
            base.context.output_weights@,
            trained.context.output_weights@,
            self.context_output_weight@,
        )
        &&& context_delta(
            f,
            base,
            trained,
            all_slots(trained.context.keys@.len()),
            false,
            row_views(self.context@),
        )
    }

    /// The delta holds the differences of two models at the tracked places.
    pub open spec fn selected<F: Fn(Scalar, Scalar) -> Scalar>(
        self,
        f: F,
        base: Model,
        trained: Model,
        changes: ParameterChanges,
        classes: int,
    ) -> bool {
        &&& diffed_selected(
            f,
            base.neurons.threshold@,
            trained.neurons.threshold@,
            changes.threshold@,
            self.threshold@,
        )
        &&& self.excitability@ == Seq::<SparseF32Delta>::empty()
        &&& diffed_selected(
            f,
            base.recurrent.weight@,
            trained.recurrent.weight@,
            changes.recurrent_weight@,
            self.recurrent_weight@,
        )
        &&& diffed_selected(
            f,
            base.input.weights@,
            trained.input.weights@,
            changes.input_weight@,
            self.input_weight@,
        )
        &&& diffed_selected(
            f,
            base.output.weights@,
            trained.output.weights@,
            output_places(
                changes.output_neurons@,
                base.config.model.neuron_count as int,
                classes,
            ),
            self.output_weight@,
        )
        &&& if changes.output_bias_dirty {
            diffed(f, base.output.bias@, trained.output.bias@, self.output_bias@)
        } else {
            self.output_bias@ == Seq::<SparseF32Delta>::empty()
        }
        &&& if changes.context_output_dirty {
            diffed(
                f,
                base.context.output_weights@,
                trained.context.output_weights@,
                self.context_output_weight@,
            )
        } else {
            self.context_output_weight@ == Seq::<SparseF32Delta>::empty()
        }
        &&& context_delta(
            f,
            base,
            trained,
            changes.context_slots@,
            true,
            row_views(self.context@),
        )
    }

    /// Everything in which a trained model differs from the one it started from. Equal
    /// fingerprints stand for equal configurations.
    pub fn between<T: Numerics, F: Fn(Scalar, Scalar) -> Scalar>(
        base: &Model,
        trained: &Model,
        base_fingerprint: ConfigFingerprint,
        trained_fingerprint: ConfigFingerprint,
        ops: &T,
        difference: &F,
    ) -> (r: LeoResult<Self>)
        requires
            ops.ready(),
            takes_any_pair(*difference),
            base.context_ready(),
            trained.context_ready(),
            base_fingerprint == trained_fingerprint ==> base.config.context == trained.config.context,
        ensures
            match r {
                Ok(delta) => {
                    &&& aligned(*base, *trained, base_fingerprint, trained_fingerprint)
                    &&& delta.header(*ops, *base, *trained, base_fingerprint)
                    &&& delta.full(*difference, *base, *trained)
                },
                Err(e) => !aligned(*base, *trained, base_fingerprint, trained_fingerprint)
                    && e.says(
                    LeoErrorKind::Internal,
                    "worker model topology is not aligned with the canonical checkpoint"@,
                ),
            },
    {
        match ensure_aligned_models(base, trained, base_fingerprint, trained_fingerprint) {
            Err(e) => {
                return Err(e);
            },
            Ok(_) => {},
        }
        let rows: Vec<ContextKeyDelta> = context_deltas(base, trained, difference);
        let context: Vec<ContextKeyDelta> = canonical_order(&rows);
        assert(context_delta(
            *difference,
            *base,
            *trained,
            all_slots(trained.context.keys@.len()),
            false,
            row_views(context@),
        ));
        Ok(
            SparseModelDelta {
                config_fingerprint: base_fingerprint,
                base_revision: base.parameter_revision,
                revision_increment: trained.parameter_revision.saturating_sub(
                    base.parameter_revision,
                ),
                threshold: diff_f32(
                    &base.neurons.threshold,
                    &trained.neurons.threshold,
                    difference,
                ),
                excitability: diff_f32(
                    &base.neurons.excitability,
                    &trained.neurons.excitability,
                    difference,
                ),
                recurrent_weight: diff_f32(
                    &base.recurrent.weight,
                    &trained.recurrent.weight,
                    difference,
                ),
                input_weight: diff_f32(&base.input.weights, &trained.input.weights, difference),
                output_weight: diff_f32(&base.output.weights, &trained.output.weights, difference),
                output_bias: diff_f32(&base.output.bias, &trained.output.bias, difference),
                context_output_weight: diff_f32(
                    &base.context.output_weights,
                    &trained.context.output_weights,
                    difference,
                ),
                context,
                statistics: statistics_delta(&base.statistics, &trained.statistics, ops),
            },
        )
    }

    /// What is wrong with the tracked places, by its message.
    pub open spec fn tracking_problem(
        base: Model,
        trained: Model,
        changes: ParameterChanges,
    ) -> Option<Seq<char>> {
        let neurons = base.config.model.neuron_count as int;
        let slots = trained.context.keys.len() as int;
        if !all_inside(changes.output_neurons@, neurons, neurons) {
            Some("tracked output neuron is outside the model"@)
        } else if !all_inside(
            changes.threshold@,
            base.neurons.threshold.len() as int,
            trained.neurons.threshold.len() as int,
        ) || !all_inside(
            changes.recurrent_weight@,
            base.recurrent.weight.len() as int,
            trained.recurrent.weight.len() as int,
        ) || !all_inside(
            changes.input_weight@,
            base.input.weights.len() as int,
            trained.input.weights.len() as int,
        ) {
            Some("tracked parameter index is outside the model"@)
        } else if !all_inside(changes.context_slots@, slots, slots) {
            Some("tracked context slot is outside the model"@)
        } else {
            None
        }
    }

    /// Everything in which a trained model differs from the one it started from, at the
    /// places that were tracked.
    pub fn between_tracked<T: Numerics, F: Fn(Scalar, Scalar) -> Scalar>(
        base: &Model,
        trained: &Model,
        changes: &ParameterChanges,
        base_fingerprint: ConfigFingerprint,
        trained_fingerprint: ConfigFingerprint,
        output_classes: usize,
        ops: &T,
        difference: &F,
    ) -> (r: LeoResult<Self>)
        requires
            ops.ready(),
            takes_any_pair(*difference),
            base.context_ready(),
            trained.context_ready(),
            base_fingerprint == trained_fingerprint ==> base.config.context == trained.config.context,
            base.output.weights.len() == output_classes * base.config.model.neuron_count,
            trained.output.weights.len() == output_classes * base.config.model.neuron_count,
        ensures
            match r {
                Ok(delta) => {
                    &&& aligned(*base, *trained, base_fingerprint, trained_fingerprint)
                    &&& Self::tracking_problem(*base, *trained, *changes) is None
                    &&& delta.header(*ops, *base, *trained, base_fingerprint)
                    &&& delta.selected(
                        *difference,
                        *base,
                        *trained,
                        *changes,
                        output_classes as int,
                    )
                },
                Err(e) => if !aligned(*base, *trained, base_fingerprint, trained_fingerprint) {
                    e.says(
                        LeoErrorKind::Internal,
                        "worker model topology is not aligned with the canonical checkpoint"@,
                    )
                } else {
                    Self::tracking_problem(*base, *trained, *changes) matches Some(text) && e.says(
                        LeoErrorKind::Internal,
                        text,
                    )
                },
            },
    {
        match ensure_aligned_models(base, trained, base_fingerprint, trained_fingerprint) {
            Err(e) => {
                return Err(e);
            },
            Ok(_) => {},
        }
        let places: Vec<usize> = match list_output_places(
            &changes.output_neurons,
            base.neuron_count(),
            output_classes,
        ) {
            Ok(places) => places,
            Err(e) => {
                return Err(e);
            },
        };
        let output_weight: Vec<SparseF32Delta> = match sorted_selection(
            &base.output.weights,
            &trained.output.weights,
            &places,
            difference,
        ) {
            Ok(list) => list,
            Err(e) => {
                return Err(e);
            },
        };
        let threshold: Vec<SparseF32Delta> = match sorted_selection(
            &base.neurons.threshold,
            &trained.neurons.threshold,
            &changes.threshold,
            difference,
        ) {
            Ok(list) => list,
            Err(e) => {
                return Err(e);
            },
        };
        let recurrent_weight: Vec<SparseF32Delta> = match sorted_selection(
            &base.recurrent.weight,
            &trained.recurrent.weight,
            &changes.recurrent_weight,
            difference,
        ) {
            Ok(list) => list,
            Err(e) => {
                return Err(e);
            },
        };
        let input_weight: Vec<SparseF32Delta> = match sorted_selection(
            &base.input.weights,
            &trained.input.weights,
            &changes.input_weight,
            difference,
        ) {
            Ok(list) => list,
            Err(e) => {
                return Err(e);
            },
        };
        let output_bias: Vec<SparseF32Delta> = if changes.output_bias_dirty {
            diff_f32(&base.output.bias, &trained.output.bias, difference)
        } else {
            Vec::new()
        };
        let context_output_weight: Vec<SparseF32Delta> = if changes.context_output_dirty {
            diff_f32(&base.context.output_weights, &trained.context.output_weights, difference)
        } else {
            Vec::new()
        };
        let rows: Vec<ContextKeyDelta> = match context_deltas_for_slots(
            base,
            trained,
            &changes.context_slots,
            difference,
        ) {
            Ok(rows) => rows,
            Err(e) => {
                return Err(e);
            },
        };
        let context: Vec<ContextKeyDelta> = canonical_order(&rows);
        assert(context_delta(
            *difference,
            *base,
            *trained,
            changes.context_slots@,
            true,
            row_views(context@),
        ));
        Ok(
            SparseModelDelta {
                config_fingerprint: base_fingerprint,
                base_revision: base.parameter_revision,
                revision_increment: trained.parameter_revision.saturating_sub(
                    base.parameter_revision,
                ),
                threshold,
                excitability: Vec::new(),
                recurrent_weight,
                input_weight,
                output_weight,
                output_bias,
                context_output_weight,
                context,
                statistics: statistics_delta(&base.statistics, &trained.statistics, ops),
            },
        )
    }
}

/// The places among the listed ones where two lists differ, in ascending order.
fn sorted_selection<F: Fn(Scalar, Scalar) -> Scalar>(
    before: &Vec<Scalar>,
    after: &Vec<Scalar>,
    indices: &Vec<usize>,
    difference: &F,
) -> (r: LeoResult<Vec<SparseF32Delta>>)
    requires
        takes_any_pair(*difference),
    ensures
        match r {
            Ok(list) => all_inside(indices@, before.len() as int, after.len() as int)
                && diffed_selected(*difference, before@, after@, indices@, list@),
            Err(e) => !all_inside(indices@, before.len() as int, after.len() as int) && e.says(
                LeoErrorKind::Internal,
                "tracked parameter index is outside the model"@,
            ),
        },
{
    match diff_selected(before, after, indices, difference) {
        Ok(unsorted) => {
            let list: Vec<SparseF32Delta> = sort_ranked(&unsorted);
            assert(diffed_at(*difference, before@, after@, indices@, unsorted@));
            Ok(list)
        },
        Err(e) => Err(e),
    }
}

pub proof fn lemma_sparse_holds(d: Seq<Scalar>, u: SparseF32Delta)
    requires
        d.len() <= usize::MAX,
    ensures
        sparse(d).contains(u) <==> u.index < d.len() && d[u.index as int] == u.delta && moved(
            u.delta,
        ),
        forall|k: int| 0 <= k < sparse(d).len() ==> (#[trigger] sparse(d)[k]).index < d.len(),
        forall|j: int, k: int|
            0 <= j < k < sparse(d).len() ==> (#[trigger] sparse(d)[j]).index < (
            #[trigger] sparse(d)[k]).index,
    decreases d.len(),
{
    if d.len() > 0 {
        let rest = d.drop_last();
        lemma_sparse_holds(rest, u);
        let list = sparse(rest);
        if moved(d.last()) {
            let entry = SparseF32Delta { index: (d.len() - 1) as usize, delta: d.last() };
            let all = list.push(entry);
            assert(sparse(d) == all);
            if list.contains(u) {
                let k = choose|k: int| 0 <= k < list.len() && list[k] == u;
                assert(all[k] == u);
            }
            if u == entry {
                assert(all[list.len() as int] == u);
            }
            if all.contains(u) {
                let k = choose|k: int| 0 <= k < all.len() && all[k] == u;
                if k < list.len() {
                    assert(list[k] == u);
                }
            }
        }
    }
}

proof fn lemma_sparse_at_holds(indices: Seq<usize>, d: Seq<Scalar>, u: SparseF32Delta)
    requires
        d.len() <= indices.len(),
        indices.no_duplicates(),
    ensures
        sparse_at(indices, d).contains(u) <==> listed_difference(indices, d, u),
        forall|k: int|
            0 <= k < sparse_at(indices, d).len() ==> listed_difference(
                indices,
                d,
                #[trigger] sparse_at(indices, d)[k],
            ),
        sparse_at(indices, d).no_duplicates(),
    decreases d.len(),
{
    if d.len() > 0 {
        let rest = d.drop_last();
        lemma_sparse_at_holds(indices, rest, u);
        let list = sparse_at(indices, rest);
        assert forall|v: SparseF32Delta| #[trigger] listed_difference(indices, rest, v) implies listed_difference(indices, d, v) by {
            let k = choose|k: int|
                0 <= k < rest.len() && indices[k] == v.index && #[trigger] rest[k] == v.delta;
            assert(d[k] == v.delta);
        }
        if moved(d.last()) {
            let entry = SparseF32Delta { index: indices[d.len() - 1], delta: d.last() };
            let all = list.push(entry);
            assert(sparse_at(indices, d) == all);
            assert(d[d.len() - 1] == entry.delta);
            assert(listed_difference(indices, d, entry));
            assert forall|k: int| 0 <= k < all.len() implies listed_difference(
                indices,
                d,
                #[trigger] all[k],
            ) by {
                if k < list.len() {
                    assert(listed_difference(indices, rest, list[k]));
                }
            }
            if list.contains(u) {
                let k = choose|k: int| 0 <= k < list.len() && list[k] == u;
                assert(all[k] == u);
            }
            if u == entry {
                assert(all[list.len() as int] == u);
            }
            if all.contains(u) {
                let k = choose|k: int| 0 <= k < all.len() && all[k] == u;
                if k < list.len() {
                    assert(list[k] == u);
                }
            }
            if listed_difference(indices, d, u) && !listed_difference(indices, rest, u) {
                let k = choose|k: int|
                    0 <= k < d.len() && indices[k] == u.index && #[trigger] d[k] == u.delta;
                if k < rest.len() {
                    assert(rest[k] == u.delta);
                }
                assert(k == d.len() - 1);
            }
            assert forall|j: int, k: int| 0 <= j < all.len() && 0 <= k < all.len() && j != k implies
                #[trigger] all[j] != #[trigger] all[k] by {
                let low = if j < k { j } else { k };
                let high = if j < k { k } else { j };
                if high == list.len() {
                    assert(listed_difference(indices, rest, list[low]));
                    let m = choose|m: int|
                        0 <= m < rest.len() && indices[m] == list[low].index && #[trigger] rest[m]
                            == list[low].delta;
                    assert(indices[m] != indices[d.len() - 1]);
                } else {
                    assert(list[low] != list[high]);
                }
            }
        } else {
            assert(sparse_at(indices, d) == list);
            if listed_difference(indices, d, u) {
                let k = choose|k: int|
                    0 <= k < d.len() && indices[k] == u.index && #[trigger] d[k] == u.delta;
                assert(k < rest.len());
                assert(rest[k] == u.delta);
            }
        }
    }
}

/// The update is the difference at one of the listed places, and not zero.
pub open spec fn listed_difference(
    indices: Seq<usize>,
    d: Seq<Scalar>,
    u: SparseF32Delta,
) -> bool {
    &&& moved(u.delta)
    &&& exists|k: int| 0 <= k < d.len() && indices[k] == u.index && #[trigger] d[k] == u.delta
}

/// The arithmetic has one answer for two numbers.
pub open spec fn one_answer<F: Fn(Scalar, Scalar) -> Scalar>(f: F) -> bool {
    forall|a: Scalar, b: Scalar, x: Scalar, y: Scalar|
        #![trigger gives(f, a, b, x), gives(f, a, b, y)]
        gives(f, a, b, x) && gives(f, a, b, y) ==> x == y
}

/// Every place where two lists differ is listed.
pub open spec fn covers<F: Fn(Scalar, Scalar) -> Scalar>(
    f: F,
    before: Seq<Scalar>,
    after: Seq<Scalar>,
    indices: Seq<usize>,
) -> bool {
    forall|i: int, x: Scalar|
        0 <= i < before.len() && i < after.len() && #[trigger] gives(f, after[i], before[i], x)
            && moved(x) ==> indices.contains(i as usize)
}

/// A delta of tracked places is the full delta, where every changed place was tracked once.
pub proof fn law_tracked_delta_is_the_full_delta<F: Fn(Scalar, Scalar) -> Scalar>(
    f: F,
    before: Seq<Scalar>,
    after: Seq<Scalar>,
    indices: Seq<usize>,
    full: Seq<SparseF32Delta>,
    selected: Seq<SparseF32Delta>,
)
    requires
        one_answer(f),
        before.len() == after.len(),
        before.len() <= usize::MAX,
        all_inside(indices, before.len() as int, after.len() as int),
        indices.no_duplicates(),
        covers(f, before, after, indices),
        diffed(f, before, after, full),
        diffed_selected(f, before, after, indices, selected),
    ensures
        selected == full,
{
    let d = choose|d: Seq<Scalar>| #[trigger]
        differences(f, before, after, d) && full == sparse(d);
    let unsorted = choose|unsorted: Seq<SparseF32Delta>| #[trigger]
        diffed_at(f, before, after, indices, unsorted) && selected == ranked(unsorted);
    let e = choose|e: Seq<Scalar>| #[trigger]
        differences_at(f, before, after, indices, e) && unsorted == sparse_at(indices, e);
    assert forall|u: SparseF32Delta| full.contains(u) <==> unsorted.contains(u) by {
        lemma_sparse_holds(d, u);
        lemma_sparse_at_holds(indices, e, u);
        if full.contains(u) {
            let i = u.index as int;
            assert(gives(f, after[i], before[i], d[i]));
            assert(indices.contains(i as usize));
            let k = choose|k: int| 0 <= k < indices.len() && indices[k] == u.index;
            assert(gives(f, after[indices[k] as int], before[indices[k] as int], e[k]));
            assert(e[k] == u.delta);
        }
        if unsorted.contains(u) {
            let k = choose|k: int|
                0 <= k < e.len() && indices[k] == u.index && #[trigger] e[k] == u.delta;
            let i = u.index as int;
            assert(indices[k] < before.len());
            assert(gives(f, after[i], before[i], d[i]));
            assert(gives(f, after[indices[k] as int], before[indices[k] as int], e[k]));
        }
    }
    let any = SparseF32Delta { index: 0, delta: Scalar { bits: 0 } };
    lemma_sparse_holds(d, any);
    lemma_sparse_at_holds(indices, e, any);
    assert(full.no_duplicates()) by {
        assert forall|j: int, k: int| 0 <= j < full.len() && 0 <= k < full.len() && j != k implies
            #[trigger] full[j] != #[trigger] full[k] by {
            if j < k {
                assert(full[j].index < full[k].index);
            } else {
                assert(full[k].index < full[j].index);
            }
        }
    }
    lemma_same_contents(full, unsorted);
    assert(vstd::relations::sorted_by(full, rank_order::<SparseF32Delta>())) by {
        let order = rank_order::<SparseF32Delta>();
        assert forall|j: int, k: int| 0 <= j < k < full.len() implies #[trigger] order(
            full[j],
            full[k],
        ) by {
            assert(full[j].index < full[k].index);
        }
    }
    crate::sorting::lemma_ranked_unique(unsorted, full);
}

proof fn lemma_same_contents<A>(a: Seq<A>, b: Seq<A>)
    requires
        a.no_duplicates(),
        b.no_duplicates(),
        forall|x: A| a.contains(x) <==> b.contains(x),
    ensures
        a.to_multiset() == b.to_multiset(),
{
    broadcast use group_to_multiset_ensures;

    a.lemma_multiset_has_no_duplicates();
    b.lemma_multiset_has_no_duplicates();
    assert forall|x: A| a.to_multiset().count(x) == b.to_multiset().count(x) by {
        assert(a.contains(x) <==> a.to_multiset().count(x) > 0);
        assert(b.contains(x) <==> b.to_multiset().count(x) > 0);
    }
    assert(a.to_multiset() =~= b.to_multiset());
}

} // verus!
