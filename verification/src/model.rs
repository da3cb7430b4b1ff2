//! Persistent model parameters, the context memory and the rules a model must keep.

use crate::arithmetic::Numerics;
use crate::config::Config;
use crate::error::{fails, LeoError, LeoErrorKind, LeoResult};
use crate::metrics::TrainingStatistics;
use crate::scalar::Scalar;
use crate::symbols::Alphabet;
use crate::text::{decimal, with_number, with_numbers};
use vstd::prelude::*;

verus! {

/// The branch that gathers excitation.
pub const BRANCH_EXCITATORY: u8 = 0;

/// The branch that gathers inhibition.
pub const BRANCH_INHIBITORY: u8 = 1;

/// The branch that gathers delayed evidence.
pub const BRANCH_TEMPORAL: u8 = 2;

/// The branch that gates delayed evidence.
pub const BRANCH_CONTEXT_GATE: u8 = 3;

/// The parameters of the neurons.
#[derive(Debug, Clone)]
pub struct NeuronParameters {
    pub threshold: Vec<Scalar>,
    pub excitability: Vec<Scalar>,
    /// Zero for an excitatory neuron, one for an inhibitory one.
    pub neuron_type: Vec<u8>,
}

/// The recurrent synapses, a fixed number for each neuron.
#[derive(Debug, Clone)]
pub struct SynapseArrays {
    pub capacity_per_neuron: usize,
    pub target_neuron: Vec<u32>,
    pub target_branch: Vec<u8>,
    pub delay: Vec<u8>,
    pub weight: Vec<Scalar>,
}

/// The synapses by which each symbol reaches the network.
#[derive(Debug, Clone)]
pub struct InputProjection {
    pub fanout: usize,
    pub targets: Vec<u32>,
    pub branches: Vec<u8>,
    pub weights: Vec<Scalar>,
}

/// The context memory: a table of fingerprints, split into one partition per order.
#[derive(Debug, Clone)]
pub struct ContextProjection {
    pub keys: Vec<u64>,
    pub embeddings: Vec<Scalar>,
    pub observations: Vec<u32>,
    /// Shared projection in output-major layout: [output][embedding].
    pub output_weights: Vec<Scalar>,
}

impl ContextProjection {
    /// The positions of a slot's embedding.
    pub fn embedding_range(&self, slot: usize, embedding_dim: usize) -> (r: std::ops::Range<usize>)
        requires
            slot * embedding_dim + embedding_dim <= usize::MAX,
        ensures
            r.start == slot * embedding_dim,
            r.end == slot * embedding_dim + embedding_dim,
    {
        assert(0 <= slot * embedding_dim) by (nonlinear_arith);
        let start: usize = slot * embedding_dim;
        start..start + embedding_dim
    }
}

/// The output layer, in output-major layout: [output][neuron].
#[derive(Debug, Clone)]
pub struct OutputProjection {
    pub weights: Vec<Scalar>,
    pub bias: Vec<Scalar>,
}

/// A model.
#[derive(Debug, Clone)]
pub struct Model {
    pub config: Config,
    pub generation: u64,
    pub parameter_revision: u64,
    pub neurons: NeuronParameters,
    pub recurrent: SynapseArrays,
    pub input: InputProjection,
    pub output: OutputProjection,
    pub context: ContextProjection,
    pub statistics: TrainingStatistics,
}

/// The slot that is looked at in probe `offset` for a fingerprint: probes start at the
/// fingerprint's place in its order's partition and wrap around inside the partition.
pub open spec fn probe_slot(order: int, key: u64, slots_per_order: int, offset: int) -> int {
    (order - 1) * slots_per_order + (key as int % slots_per_order + offset) % slots_per_order
}

impl Model {
    /// The context table has the size that its configuration says, and can be probed.
    pub open spec fn context_ready(self) -> bool {
        let c = self.config.context;
        &&& 0 < c.slots_per_order
        &&& self.context.keys.len() == c.max_order * c.slots_per_order
        &&& self.context.observations.len() == self.context.keys.len()
        &&& self.context.embeddings.len() == self.context.keys.len() * c.embedding_dim
    }

    /// The slot of a probe in this model.
    pub open spec fn slot_at(self, order: int, key: u64, offset: int) -> int {
        probe_slot(order, key, self.config.context.slots_per_order as int, offset)
    }

    /// The key that probe `offset` finds.
    pub open spec fn key_at(self, order: int, key: u64, offset: int) -> u64 {
        self.context.keys[self.slot_at(order, key, offset)]
    }

    /// The observations that probe `offset` finds.
    pub open spec fn observations_at(self, order: int, key: u64, offset: int) -> u32 {
        self.context.observations[self.slot_at(order, key, offset)]
    }

    /// Probe `offset` is the first that finds the fingerprint.
    pub open spec fn hit(self, order: int, key: u64, offset: int) -> bool {
        &&& 0 <= offset < self.config.context.probe_limit
        &&& self.key_at(order, key, offset) == key
        &&& forall|j: int| 0 <= j < offset ==> #[trigger] self.key_at(order, key, j) != key
    }

    /// No probe finds the fingerprint.
    pub open spec fn missed(self, order: int, key: u64) -> bool {
        forall|j: int|
            0 <= j < self.config.context.probe_limit ==> #[trigger] self.key_at(order, key, j)
                != key
    }

    /// Probe `offset` finds the slot to be replaced: the first empty one; where none is
    /// empty, the first with the fewest observations.
    pub open spec fn victim(self, order: int, key: u64, offset: int) -> bool {
        let limit = self.config.context.probe_limit;
        &&& 0 <= offset < limit || (limit == 0 && offset == 0)
        &&& {
            ||| {
                &&& offset < limit
                &&& self.key_at(order, key, offset) == 0
                &&& forall|j: int| 0 <= j < offset ==> #[trigger] self.key_at(order, key, j) != 0
            }
            ||| {
                &&& forall|j: int| 0 <= j < limit ==> #[trigger] self.key_at(order, key, j) != 0
                &&& forall|j: int|
                    0 <= j < limit ==> self.observations_at(order, key, offset)
                        <= #[trigger] self.observations_at(order, key, j)
                &&& forall|j: int|
                    0 <= j < offset ==> self.observations_at(order, key, offset)
                        < #[trigger] self.observations_at(order, key, j)
            }
        }
    }

    /// The same model but for the context table.
    pub open spec fn same_but_context_table(self, other: Model) -> bool {
        &&& self.config == other.config
        &&& self.generation == other.generation
        &&& self.parameter_revision == other.parameter_revision
        &&& self.neurons == other.neurons
        &&& self.recurrent == other.recurrent
        &&& self.input == other.input
        &&& self.output == other.output
        &&& self.statistics == other.statistics
        &&& self.context.output_weights == other.context.output_weights
    }

    /// `after` is this model with `slot` given to a new fingerprint: no observations, a
    /// zero embedding, every other slot as it was.
    pub open spec fn slot_given(self, after: Model, slot: int, key: u64) -> bool {
        let dim = self.config.context.embedding_dim as int;
        &&& after.same_but_context_table(self)
        &&& after.context.keys@ == self.context.keys@.update(slot, key)
        &&& after.context.observations@ == self.context.observations@.update(slot, 0)
        &&& after.context.embeddings.len() == self.context.embeddings.len()
        &&& forall|i: int|
            0 <= i < self.context.embeddings.len() ==> #[trigger] after.context.embeddings[i] == (
            if slot * dim <= i < slot * dim + dim {
                Scalar { bits: 0 }
            } else {
                self.context.embeddings[i]
            })
    }

    /// The number of neurons.
    pub fn neuron_count(&self) -> (r: usize)
        ensures
            r == self.config.model.neuron_count,
    {
        self.config.model.neuron_count
    }

    /// The slots of a neuron's outgoing synapses.
    pub fn synapse_slot_range(&self, neuron: usize) -> (r: std::ops::Range<usize>)
        requires
            (neuron + 1) * self.recurrent.capacity_per_neuron <= usize::MAX,
        ensures
            r.start == neuron * self.recurrent.capacity_per_neuron,
            r.end == (neuron + 1) * self.recurrent.capacity_per_neuron,
    {
        let capacity: usize = self.recurrent.capacity_per_neuron;
        assert((neuron + 1) * capacity == neuron * capacity + capacity && 0 <= neuron * capacity)
            by (nonlinear_arith);
        let start: usize = neuron * capacity;
        start..start + capacity
    }

    /// Resolves a context fingerprint inside its order's partition.
    ///
    /// Returns the slot and the number of probes. A fingerprint that is not there gets a
    /// slot only where `allocate` is set; the slot is then cleared.
    pub fn resolve_context_slot(&mut self, order: usize, key: u64, allocate: bool) -> (r: LeoResult<
        (Option<usize>, usize),
    >)
        requires
            old(self).context_ready(),
        ensures
            final(self).context_ready(),
            order == 0 || order > old(self).config.context.max_order || key == 0 ==> {
                &&& fails(r, LeoErrorKind::Internal, "invalid context order or fingerprint"@)
                &&& *final(self) == *old(self)
            },
            1 <= order <= old(self).config.context.max_order && key != 0 ==> r is Ok,
            forall|o: int|
                1 <= order <= old(self).config.context.max_order && key != 0 && #[trigger] old(
                    self,
                ).hit(order as int, key, o) ==> {
                    &&& r == Ok::<(Option<usize>, usize), LeoError>(
                        (
                            Some(old(self).slot_at(order as int, key, o) as usize),
                            (o + 1) as usize,
                        ),
                    )
                    &&& *final(self) == *old(self)
                },
            1 <= order <= old(self).config.context.max_order && key != 0 && old(self).missed(
                order as int,
                key,
            ) ==> {
                if allocate {
                    exists|o: int| #[trigger]
                        old(self).victim(order as int, key, o) && {
                            let slot = old(self).slot_at(order as int, key, o);
                            &&& r == Ok::<(Option<usize>, usize), LeoError>(
                                (Some(slot as usize), old(self).config.context.probe_limit),
                            )
                            &&& if old(self).context.keys[slot] == key {
                                *final(self) == *old(self)
                            } else {
                                old(self).slot_given(*final(self), slot, key)
                            }
                        }
                } else {
                    &&& r == Ok::<(Option<usize>, usize), LeoError>(
                        (None, old(self).config.context.probe_limit),
                    )
                    &&& *final(self) == *old(self)
                }
            },
    {
        if order == 0 || order > self.config.context.max_order || key == 0 {
            return Err(LeoError::internal("invalid context order or fingerprint".to_owned()));
        }
        let slots_per_order: usize = self.config.context.slots_per_order;
        let probe_limit: usize = self.config.context.probe_limit;
        let ghost ord = order as int;
        proof {
            lemma_partition(ord, self.config.context.max_order as int, slots_per_order as int);
        }
        let base: usize = (order - 1) * slots_per_order;
        let start: usize = (key % (slots_per_order as u64)) as usize;
        let mut empty_offset: Option<usize> = None;
        let mut weakest_offset: usize = 0;
        let mut weakest_observations: u32 = u32::MAX;
        let mut offset: usize = 0;
        proof {
            lemma_probe_in_partition(ord, key, slots_per_order as int, 0);
        }
        while offset < probe_limit
            invariant
                *self == *old(self),
                self.context_ready(),
                1 <= order <= self.config.context.max_order,
                ord == order,
                key != 0,
                slots_per_order == self.config.context.slots_per_order,
                probe_limit == self.config.context.probe_limit,
                base == (order - 1) * slots_per_order,
                start == key as int % slots_per_order as int,
                start < slots_per_order,
                base + slots_per_order <= self.context.keys.len(),
                offset <= probe_limit,
                forall|j: int| 0 <= j < offset ==> #[trigger] self.key_at(ord, key, j) != key,
                match empty_offset {
                    Some(e) => {
                        &&& e < offset
                        &&& self.key_at(ord, key, e as int) == 0
                        &&& forall|j: int| 0 <= j < e ==> #[trigger] self.key_at(ord, key, j) != 0
                    },
                    None => forall|j: int|
                        0 <= j < offset ==> #[trigger] self.key_at(ord, key, j) != 0,
                },
                weakest_offset < offset || weakest_offset == 0,
                offset == 0 ==> weakest_observations == u32::MAX,
                forall|j: int|
                    0 <= j < offset ==> weakest_observations <= #[trigger] self.observations_at(
                        ord,
                        key,
                        j,
                    ),
                offset > 0 ==> weakest_observations == self.observations_at(
                    ord,
                    key,
                    weakest_offset as int,
                ),
                forall|j: int|
                    0 <= j < weakest_offset ==> weakest_observations
                        < #[trigger] self.observations_at(ord, key, j),
            decreases probe_limit - offset,
        {
            let slot: usize = base + wrapped(start, offset, slots_per_order);
            proof {
                lemma_probe_in_partition(ord, key, slots_per_order as int, offset as int);
                assert(slot == self.slot_at(ord, key, offset as int));
            }
            let existing_key: u64 = self.context.keys[slot];
            assert(existing_key == self.key_at(ord, key, offset as int));
            if existing_key == key {
                assert(self.hit(ord, key, offset as int));
                proof {
                    assert forall|o: int| self.hit(ord, key, o) implies o == offset by {
                        if o < offset {
                            assert(self.key_at(ord, key, o) != key);
                        } else if offset < o {
                            assert(self.key_at(ord, key, offset as int) != key);
                        }
                    }
                    assert(!self.missed(ord, key));
                }
                return Ok((Some(slot), offset + 1));
            }
            if existing_key == 0 && empty_offset.is_none() {
                empty_offset = Some(offset);
            }
            let observations: u32 = self.context.observations[slot];
            assert(observations == self.observations_at(ord, key, offset as int));
            if observations < weakest_observations || offset == 0 {
                weakest_observations = observations;
                weakest_offset = offset;
            }
            offset = offset + 1;
        }
        assert(self.missed(ord, key));
        assert forall|o: int| !self.hit(ord, key, o) by {
            if 0 <= o < probe_limit {
                assert(self.key_at(ord, key, o) != key);
            }
        }
        if !allocate {
            return Ok((None, probe_limit));
        }
        let chosen: usize = match empty_offset {
            Some(e) => e,
            None => weakest_offset,
        };
        assert(self.victim(ord, key, chosen as int));
        proof {
            lemma_probe_in_partition(ord, key, slots_per_order as int, chosen as int);
        }
        let slot: usize = base + wrapped(start, chosen, slots_per_order);
        assert(slot == self.slot_at(ord, key, chosen as int));
        if self.context.keys[slot] != key {
            self.give_slot(slot, key);
        }
        Ok((Some(slot), probe_limit))
    }

    /// Gives `slot` to a new fingerprint and clears its row.
    fn give_slot(&mut self, slot: usize, key: u64)
        requires
            old(self).context_ready(),
            slot < old(self).context.keys.len(),
        ensures
            final(self).context_ready(),
            old(self).slot_given(*final(self), slot as int, key),
    {
        let dim: usize = self.config.context.embedding_dim;
        self.context.keys.set(slot, key);
        self.context.observations.set(slot, 0);
        proof {
            lemma_row_fits(slot as int, self.context.keys.len() as int, dim as int);
        }
        let range = self.context.embedding_range(slot, dim);
        let start: usize = range.start;
        let ghost before = *self;
        let mut i: usize = 0;
        while i < dim
            invariant
                i <= dim,
                dim == self.config.context.embedding_dim,
                self.context_ready(),
                start == slot * dim,
                start + dim <= self.context.embeddings.len(),
                self.same_but_context_table(before),
                self.context.keys == before.context.keys,
                self.context.observations == before.context.observations,
                self.context.embeddings.len() == before.context.embeddings.len(),
                forall|k: int|
                    0 <= k < self.context.embeddings.len()
                        ==> #[trigger] self.context.embeddings[k] == (if start <= k < start + i {
                        Scalar { bits: 0 }
                    } else {
                        before.context.embeddings[k]
                    }),
            decreases dim - i,
        {
            self.context.embeddings.set(start + i, Scalar { bits: 0 });
            i = i + 1;
        }
    }
}

/// `start + offset`, wrapped around at `slots`.
pub fn wrapped(start: usize, offset: usize, slots: usize) -> (r: usize)
    requires
        0 < slots,
    ensures
        r == (start + offset) % (slots as int),
        r < slots,
{
    ((start as u128 + offset as u128) % (slots as u128)) as usize
}

/// A partition of the context table lies inside the table.
pub proof fn lemma_partition(order: int, max_order: int, slots: int)
    requires
        1 <= order <= max_order,
        0 < slots,
    ensures
        0 <= (order - 1) * slots,
        (order - 1) * slots + slots <= max_order * slots,
{
    assert(0 <= (order - 1) * slots && (order - 1) * slots + slots <= max_order * slots)
        by (nonlinear_arith)
        requires
            1 <= order <= max_order,
            0 < slots,
    ;
}

/// A probe stays inside the partition of its order.
pub proof fn lemma_probe_in_partition(order: int, key: u64, slots: int, offset: int)
    requires
        0 < slots,
    ensures
        (order - 1) * slots <= probe_slot(order, key, slots, offset) < (order - 1) * slots + slots,
{
    assert(0 <= (key as int % slots + offset) % slots < slots) by (nonlinear_arith)
        requires
            0 < slots,
    ;
}

/// The row of a slot lies inside the table of embeddings.
pub proof fn lemma_row_fits(slot: int, rows: int, dim: int)
    requires
        0 <= slot < rows,
        0 <= dim,
    ensures
        0 <= slot * dim,
        slot * dim + dim <= rows * dim,
{
    assert(0 <= slot * dim && slot * dim + dim <= rows * dim) by (nonlinear_arith)
        requires
            0 <= slot < rows,
            0 <= dim,
    ;
}

/// A fingerprint that was given a slot is found in that slot from then on, by the same
/// probe.
pub proof fn law_given_slot_is_found_again(
    before: Model,
    after: Model,
    order: int,
    key: u64,
    offset: int,
)
    requires
        before.context_ready(),
        1 <= order <= before.config.context.max_order,
        0 < before.config.context.probe_limit,
        before.missed(order, key),
        before.victim(order, key, offset),
        before.slot_given(after, before.slot_at(order, key, offset), key),
    ensures
        after.hit(order, key, offset),
        after.slot_at(order, key, offset) == before.slot_at(order, key, offset),
{
    let slots = before.config.context.slots_per_order as int;
    lemma_partition(order, before.config.context.max_order as int, slots);
    lemma_probe_in_partition(order, key, slots, offset);
    let slot = before.slot_at(order, key, offset);
    assert forall|j: int| 0 <= j < offset implies #[trigger] after.key_at(order, key, j) != key by {
        lemma_probe_in_partition(order, key, slots, j);
        assert(before.key_at(order, key, j) != key);
        if before.slot_at(order, key, j) == slot {
            assert(before.key_at(order, key, j) == before.key_at(order, key, offset));
            assert(before.observations_at(order, key, j) == before.observations_at(
                order,
                key,
                offset,
            ));
        }
    }
}

/// Giving a slot to one fingerprint leaves every other fingerprint where it was found,
/// unless it was found in that very slot.
pub proof fn law_other_fingerprints_stay(
    before: Model,
    after: Model,
    slot: int,
    order: int,
    key: u64,
    other_order: int,
    other_key: u64,
    offset: int,
)
    requires
        before.context_ready(),
        1 <= order <= before.config.context.max_order,
        1 <= other_order <= before.config.context.max_order,
        before.missed(order, key),
        before.slot_given(after, slot, key),
        (order - 1) * before.config.context.slots_per_order <= slot < order
            * before.config.context.slots_per_order,
        before.hit(other_order, other_key, offset),
        before.slot_at(other_order, other_key, offset) != slot,
    ensures
        after.hit(other_order, other_key, offset),
{
    let slots = before.config.context.slots_per_order as int;
    lemma_partition(order, before.config.context.max_order as int, slots);
    lemma_partition(other_order, before.config.context.max_order as int, slots);
    lemma_probe_in_partition(other_order, other_key, slots, offset);
    assert(order * slots == (order - 1) * slots + slots) by (nonlinear_arith);
    assert forall|j: int| 0 <= j < offset implies #[trigger] after.key_at(other_order, other_key, j)
        != other_key by {
        lemma_probe_in_partition(other_order, other_key, slots, j);
        assert(before.key_at(other_order, other_key, j) != other_key);
        if before.slot_at(other_order, other_key, j) == slot && key == other_key {
            lemma_same_partition(order, other_order, slots, slot);
            assert(before.key_at(order, key, offset) != key);
        }
    }
}

/// A slot belongs to one partition only.
pub proof fn lemma_same_partition(a: int, b: int, slots: int, slot: int)
    requires
        0 < slots,
        (a - 1) * slots <= slot < (a - 1) * slots + slots,
        (b - 1) * slots <= slot < (b - 1) * slots + slots,
    ensures
        a == b,
{
    assert(a == b) by (nonlinear_arith)
        requires
            0 < slots,
            (a - 1) * slots <= slot < (a - 1) * slots + slots,
            (b - 1) * slots <= slot < (b - 1) * slots + slots,
    ;
}

/// Fingerprints of different orders never share a slot.
pub proof fn law_orders_never_share_a_slot(
    a: int,
    a_key: u64,
    a_offset: int,
    b: int,
    b_key: u64,
    b_offset: int,
    slots_per_order: int,
)
    requires
        0 < slots_per_order,
        a != b,
    ensures
        probe_slot(a, a_key, slots_per_order, a_offset) != probe_slot(
            b,
            b_key,
            slots_per_order,
            b_offset,
        ),
{
    lemma_probe_in_partition(a, a_key, slots_per_order, a_offset);
    lemma_probe_in_partition(b, b_key, slots_per_order, b_offset);
    if probe_slot(a, a_key, slots_per_order, a_offset) == probe_slot(
        b,
        b_key,
        slots_per_order,
        b_offset,
    ) {
        lemma_same_partition(a, b, slots_per_order, probe_slot(a, a_key, slots_per_order, a_offset));
    }
}

/// At most one probe finds a fingerprint first, and at most one finds the slot to be
/// replaced: resolving is deterministic.
pub proof fn law_resolution_is_deterministic(m: Model, order: int, key: u64, a: int, b: int)
    ensures
        m.hit(order, key, a) && m.hit(order, key, b) ==> a == b,
        m.victim(order, key, a) && m.victim(order, key, b) ==> a == b,
{
    if m.hit(order, key, a) && m.hit(order, key, b) {
        assert(m.key_at(order, key, a) == key && m.key_at(order, key, b) == key);
    }
    if m.victim(order, key, a) && m.victim(order, key, b) && a != b {
        let limit = m.config.context.probe_limit;
        let (low, high) = if a < b {
            (a, b)
        } else {
            (b, a)
        };
        assert(0 <= low < high < limit);
        let low_empty = m.key_at(order, key, low) == 0;
        let high_empty = m.key_at(order, key, high) == 0;
        if !low_empty && !high_empty {
            assert(m.observations_at(order, key, high) < m.observations_at(order, key, low));
            assert(m.observations_at(order, key, low) <= m.observations_at(order, key, high));
        }
    }
}

/// Whether every number is finite.
pub open spec fn all_finite(s: Seq<Scalar>) -> bool {
    forall|i: int| 0 <= i < s.len() ==> (#[trigger] s[i]).finite()
}

fn finite_values(values: &Vec<Scalar>) -> (r: bool)
    ensures
        r == all_finite(values@),
{
    let mut i: usize = 0;
    while i < values.len()
        invariant
            i <= values.len(),
            forall|k: int| 0 <= k < i ==> (#[trigger] values@[k]).finite(),
        decreases values.len() - i,
    {
        if !values[i].is_finite() {
            assert(!values@[i as int].finite());
            return false;
        }
        i = i + 1;
    }
    true
}

/// A delay that the delay ring carries.
pub open spec fn is_delay(delay: u8) -> bool {
    delay == 1 || delay == 2 || delay == 4 || delay == 8
}

impl Model {
    /// The first array whose size does not fit, by its message.
    pub open spec fn size_violation(self, alphabet: Alphabet) -> Option<Seq<char>> {
        let m = self.config.model;
        let c = self.config.context;
        if m.neuron_count * m.synapses_per_neuron > usize::MAX {
            Some("synapse array size overflow"@)
        } else if alphabet.input.len() * m.input_fanout > usize::MAX {
            Some("input projection size overflow"@)
        } else if alphabet.output_classes * m.neuron_count > usize::MAX {
            Some("output projection size overflow"@)
        } else if c.max_order * c.slots_per_order > usize::MAX {
            Some("context slot count overflow"@)
        } else if c.max_order * c.slots_per_order * c.embedding_dim > usize::MAX {
            Some("context embedding size overflow"@)
        } else if alphabet.output_classes * c.embedding_dim > usize::MAX {
            Some("context output projection size overflow"@)
        } else {
            None
        }
    }

    /// Every array has the length that configuration and alphabet ask for.
    pub open spec fn tensors_match(self, alphabet: Alphabet) -> bool {
        let m = self.config.model;
        let c = self.config.context;
        &&& self.neurons.threshold.len() == m.neuron_count
        &&& self.neurons.excitability.len() == m.neuron_count
        &&& self.neurons.neuron_type.len() == m.neuron_count
        &&& self.recurrent.capacity_per_neuron == m.synapses_per_neuron
        &&& self.recurrent.target_neuron.len() == m.neuron_count * m.synapses_per_neuron
        &&& self.recurrent.target_branch.len() == m.neuron_count * m.synapses_per_neuron
        &&& self.recurrent.delay.len() == m.neuron_count * m.synapses_per_neuron
        &&& self.recurrent.weight.len() == m.neuron_count * m.synapses_per_neuron
        &&& self.input.fanout == m.input_fanout
        &&& self.input.targets.len() == alphabet.input.len() * m.input_fanout
        &&& self.input.branches.len() == alphabet.input.len() * m.input_fanout
        &&& self.input.weights.len() == alphabet.input.len() * m.input_fanout
        &&& self.output.weights.len() == alphabet.output_classes * m.neuron_count
        &&& self.output.bias.len() == alphabet.output_classes
        &&& self.context.keys.len() == c.max_order * c.slots_per_order
        &&& self.context.embeddings.len() == c.max_order * c.slots_per_order * c.embedding_dim
        &&& self.context.observations.len() == c.max_order * c.slots_per_order
        &&& self.context.output_weights.len() == alphabet.output_classes * c.embedding_dim
    }

    /// Every number of the model is finite.
    pub open spec fn numbers_finite(self) -> bool {
        &&& all_finite(self.neurons.threshold@)
        &&& all_finite(self.neurons.excitability@)
        &&& all_finite(self.recurrent.weight@)
        &&& all_finite(self.input.weights@)
        &&& all_finite(self.output.weights@)
        &&& all_finite(self.output.bias@)
        &&& all_finite(self.context.embeddings@)
        &&& all_finite(self.context.output_weights@)
        &&& self.statistics.training_loss_sum.finite()
    }

    /// An empty context slot has no observations.
    pub open spec fn empty_slots_unobserved(self) -> bool {
        forall|i: int|
            0 <= i < self.context.keys.len() && i < self.context.observations.len()
                && #[trigger] self.context.keys[i] == 0 ==> self.context.observations[i] == 0
    }

    /// Every neuron is excitatory or inhibitory.
    pub open spec fn types_known(self) -> bool {
        forall|i: int|
            0 <= i < self.neurons.neuron_type.len() ==> (#[trigger] self.neurons.neuron_type[i])
                <= 1
    }

    /// What is wrong with a recurrent synapse, by its message.
    pub open spec fn synapse_violation(self, slot: int) -> Option<Seq<char>> {
        let source = slot / self.recurrent.capacity_per_neuron as int;
        let target = self.recurrent.target_neuron[slot];
        let branch = self.recurrent.target_branch[slot];
        let weight = self.recurrent.weight[slot];
        let zero = Scalar { bits: 0 };
        let at = "recurrent slot "@ + decimal(slot as nat);
        if target >= self.config.model.neuron_count {
            Some(at + " targets neuron "@ + decimal(target as nat) + " outside the model"@)
        } else if branch > BRANCH_CONTEXT_GATE || !is_delay(self.recurrent.delay[slot]) {
            Some(at + " has invalid branch or delay"@)
        } else if weight.below(self.config.learning.weight_min)
            || self.config.learning.weight_max.below(weight) {
            Some(at + " has invalid weight"@)
        } else if self.neurons.neuron_type[source] == 0 {
            if weight.below(zero) || branch == BRANCH_INHIBITORY {
                Some(
                    "excitatory source "@ + decimal(source as nat) + " has incompatible slot "@
                        + decimal(slot as nat) + ""@,
                )
            } else {
                None
            }
        } else if zero.below(weight) || branch != BRANCH_INHIBITORY {
            Some(
                "inhibitory source "@ + decimal(source as nat) + " has incompatible slot "@
                    + decimal(slot as nat) + ""@,
            )
        } else {
            None
        }
    }

    /// The first wrong recurrent synapse from `slot` on, by its message.
    pub open spec fn synapse_violation_from(self, slot: int) -> Option<Seq<char>>
        decreases self.recurrent.target_neuron.len() - slot,
    {
        if slot >= self.recurrent.target_neuron.len() {
            None
        } else if self.synapse_violation(slot) is Some {
            self.synapse_violation(slot)
        } else {
            self.synapse_violation_from(slot + 1)
        }
    }

    /// The input synapse keeps its rules.
    pub open spec fn input_synapse_ok(self, slot: int) -> bool {
        &&& self.input.targets[slot] < self.config.model.neuron_count
        &&& self.input.branches[slot] != BRANCH_INHIBITORY
        &&& self.input.branches[slot] <= BRANCH_CONTEXT_GATE
        &&& !self.input.weights[slot].below(Scalar { bits: 0 })
        &&& !self.config.learning.weight_max.below(self.input.weights[slot])
    }

    /// The first wrong input synapse from `slot` on, by its message.
    pub open spec fn input_violation_from(self, slot: int) -> Option<Seq<char>>
        decreases self.input.targets.len() - slot,
    {
        if slot >= self.input.targets.len() {
            None
        } else if !self.input_synapse_ok(slot) {
            Some(
                "input projection slot "@ + decimal(slot as nat) + " has invalid state"@,
            )
        } else {
            self.input_violation_from(slot + 1)
        }
    }

    /// The first rule on the model's arrays that is broken, by its message.
    pub open spec fn violation(self, alphabet: Alphabet) -> Option<Seq<char>> {
        if self.size_violation(alphabet) is Some {
            self.size_violation(alphabet)
        } else if !self.tensors_match(alphabet) {
            Some("model tensor dimensions are incompatible"@)
        } else if !self.numbers_finite() {
            Some("model contains NaN or infinite values"@)
        } else if !self.empty_slots_unobserved() {
            Some("empty context slots cannot contain observations"@)
        } else if !self.types_known() {
            Some("neuron types must be excitatory or inhibitory"@)
        } else if self.synapse_violation_from(0) is Some {
            self.synapse_violation_from(0)
        } else {
            self.input_violation_from(0)
        }
    }

    /// The first array whose size does not fit.
    fn size_problem(&self, alphabet: &Alphabet) -> (r: Option<&'static str>)
        ensures
            match r {
                Some(text) => self.size_violation(*alphabet) == Some(text@),
                None => self.size_violation(*alphabet) is None,
            },
    {
        let m = &self.config.model;
        let c = &self.config.context;
        if m.neuron_count.checked_mul(m.synapses_per_neuron).is_none() {
            return Some("synapse array size overflow");
        }
        if alphabet.symbol_count().checked_mul(m.input_fanout).is_none() {
            return Some("input projection size overflow");
        }
        if alphabet.output_classes.checked_mul(m.neuron_count).is_none() {
            return Some("output projection size overflow");
        }
        match c.max_order.checked_mul(c.slots_per_order) {
            None => {
                return Some("context slot count overflow");
            },
            Some(slots) => {
                if slots.checked_mul(c.embedding_dim).is_none() {
                    return Some("context embedding size overflow");
                }
            },
        }
        if alphabet.output_classes.checked_mul(c.embedding_dim).is_none() {
            return Some("context output projection size overflow");
        }
        None
    }

    /// Whether every array has its length.
    fn tensors_fit(&self, alphabet: &Alphabet) -> (r: bool)
        requires
            self.size_violation(*alphabet) is None,
        ensures
            r == self.tensors_match(*alphabet),
    {
        let m = &self.config.model;
        let c = &self.config.context;
        proof {
            lemma_products(
                m.neuron_count as int,
                m.synapses_per_neuron as int,
                alphabet.input.len() as int,
                m.input_fanout as int,
            );
            lemma_products(
                alphabet.output_classes as int,
                m.neuron_count as int,
                alphabet.output_classes as int,
                c.embedding_dim as int,
            );
            lemma_products(
                c.max_order as int,
                c.slots_per_order as int,
                c.max_order * c.slots_per_order,
                c.embedding_dim as int,
            );
        }
        let synapses: usize = m.neuron_count * m.synapses_per_neuron;
        let inputs: usize = alphabet.symbol_count() * m.input_fanout;
        let outputs: usize = alphabet.output_classes * m.neuron_count;
        let slots: usize = c.max_order * c.slots_per_order;
        let embeddings: usize = slots * c.embedding_dim;
        let projection: usize = alphabet.output_classes * c.embedding_dim;
        self.neurons.threshold.len() == m.neuron_count && self.neurons.excitability.len()
            == m.neuron_count && self.neurons.neuron_type.len() == m.neuron_count
            && self.recurrent.capacity_per_neuron == m.synapses_per_neuron
            && self.recurrent.target_neuron.len() == synapses && self.recurrent.target_branch.len()
            == synapses && self.recurrent.delay.len() == synapses && self.recurrent.weight.len()
            == synapses && self.input.fanout == m.input_fanout && self.input.targets.len()
            == inputs && self.input.branches.len() == inputs && self.input.weights.len() == inputs
            && self.output.weights.len() == outputs && self.output.bias.len()
            == alphabet.output_classes && self.context.keys.len() == slots
            && self.context.embeddings.len() == embeddings && self.context.observations.len()
            == slots && self.context.output_weights.len() == projection
    }

    /// Whether every number is finite.
    fn finite(&self) -> (r: bool)
        ensures
            r == self.numbers_finite(),
    {
        finite_values(&self.neurons.threshold) && finite_values(&self.neurons.excitability)
            && finite_values(&self.recurrent.weight) && finite_values(&self.input.weights)
            && finite_values(&self.output.weights) && finite_values(&self.output.bias)
            && finite_values(&self.context.embeddings) && finite_values(
            &self.context.output_weights,
        ) && self.statistics.training_loss_sum.is_finite()
    }

    /// Whether empty context slots have no observations.
    fn unobserved_when_empty(&self) -> (r: bool)
        ensures
            r == self.empty_slots_unobserved(),
    {
        let mut i: usize = 0;
        while i < self.context.keys.len() && i < self.context.observations.len()
            invariant
                i <= self.context.keys.len(),
                i <= self.context.observations.len(),
                forall|k: int|
                    0 <= k < i && #[trigger] self.context.keys[k] == 0
                        ==> self.context.observations[k] == 0,
            decreases self.context.keys.len() - i,
        {
            if self.context.keys[i] == 0 && self.context.observations[i] != 0 {
                return false;
            }
            i = i + 1;
        }
        true
    }

    /// Whether every neuron type is known.
    fn known_types(&self) -> (r: bool)
        ensures
            r == self.types_known(),
    {
        let mut i: usize = 0;
        while i < self.neurons.neuron_type.len()
            invariant
                i <= self.neurons.neuron_type.len(),
                forall|k: int| 0 <= k < i ==> (#[trigger] self.neurons.neuron_type[k]) <= 1,
            decreases self.neurons.neuron_type.len() - i,
        {
            if self.neurons.neuron_type[i] > 1 {
                return false;
            }
            i = i + 1;
        }
        true
    }

    /// What is wrong with a recurrent synapse.
    fn synapse_problem(&self, slot: usize) -> (r: Option<String>)
        requires
            0 < self.recurrent.capacity_per_neuron,
            slot < self.recurrent.target_neuron.len(),
            slot < self.recurrent.target_branch.len(),
            slot < self.recurrent.delay.len(),
            slot < self.recurrent.weight.len(),
            (slot as int / self.recurrent.capacity_per_neuron as int)
                < self.neurons.neuron_type.len(),
        ensures
            match r {
                Some(text) => self.synapse_violation(slot as int) == Some(text@),
                None => self.synapse_violation(slot as int) is None,
            },
    {
        let source: usize = slot / self.recurrent.capacity_per_neuron;
        let target: u32 = self.recurrent.target_neuron[slot];
        let branch: u8 = self.recurrent.target_branch[slot];
        let delay: u8 = self.recurrent.delay[slot];
        let weight: Scalar = self.recurrent.weight[slot];
        let zero = Scalar::zero();
        if target as usize >= self.config.model.neuron_count {
            return Some(
                with_numbers(
                    "recurrent slot ",
                    slot as u64,
                    " targets neuron ",
                    target as u64,
                    " outside the model",
                ),
            );
        }
        if branch > BRANCH_CONTEXT_GATE || !(delay == 1 || delay == 2 || delay == 4 || delay == 8) {
            return Some(
                with_number("recurrent slot ", slot as u64, " has invalid branch or delay"),
            );
        }
        if weight.lt(self.config.learning.weight_min) || self.config.learning.weight_max.lt(weight) {
            return Some(with_number("recurrent slot ", slot as u64, " has invalid weight"));
        }
        if self.neurons.neuron_type[source] == 0 {
            if weight.lt(zero) || branch == BRANCH_INHIBITORY {
                return Some(
                    with_numbers(
                        "excitatory source ",
                        source as u64,
                        " has incompatible slot ",
                        slot as u64,
                        "",
                    ),
                );
            }
        } else if zero.lt(weight) || branch != BRANCH_INHIBITORY {
            return Some(
                with_numbers(
                    "inhibitory source ",
                    source as u64,
                    " has incompatible slot ",
                    slot as u64,
                    "",
                ),
            );
        }
        None
    }

    /// Checks configuration, array sizes, numbers and every synapse, in order.
    pub fn validate<T: Numerics>(&self, alphabet: &Alphabet, ops: &T) -> (r: LeoResult<()>)
        requires
            ops.ready(),
        ensures
            match self.config.violation(alphabet.output_classes, self.config.target_active(*ops)) {
                Some(text) => fails(r, LeoErrorKind::Configuration, text),
                None => match self.violation(*alphabet) {
                    Some(text) => fails(r, LeoErrorKind::Internal, text),
                    None => r is Ok,
                },
            },
    {
        if let Err(error) = self.config.validate(alphabet, ops) {
            return Err(error);
        }
        if let Some(text) = self.size_problem(alphabet) {
            return Err(LeoError::internal(text.to_owned()));
        }
        if !self.tensors_fit(alphabet) {
            return Err(LeoError::internal("model tensor dimensions are incompatible".to_owned()));
        }
        if !self.finite() {
            return Err(LeoError::internal("model contains NaN or infinite values".to_owned()));
        }
        if !self.unobserved_when_empty() {
            return Err(
                LeoError::internal("empty context slots cannot contain observations".to_owned()),
            );
        }
        if !self.known_types() {
            return Err(
                LeoError::internal("neuron types must be excitatory or inhibitory".to_owned()),
            );
        }
        if let Some(text) = self.first_synapse_problem() {
            return Err(LeoError::internal(text));
        }
        if let Some(text) = self.first_input_problem() {
            return Err(LeoError::internal(text));
        }
        Ok(())
    }

    /// The first wrong recurrent synapse.
    fn first_synapse_problem(&self) -> (r: Option<String>)
        requires
            0 < self.recurrent.capacity_per_neuron,
            self.recurrent.target_neuron.len() == self.neurons.neuron_type.len()
                * self.recurrent.capacity_per_neuron,
            self.recurrent.target_branch.len() == self.recurrent.target_neuron.len(),
            self.recurrent.delay.len() == self.recurrent.target_neuron.len(),
            self.recurrent.weight.len() == self.recurrent.target_neuron.len(),
        ensures
            match r {
                Some(text) => self.synapse_violation_from(0) == Some(text@),
                None => self.synapse_violation_from(0) is None,
            },
    {
        let synapses: usize = self.recurrent.target_neuron.len();
        let mut slot: usize = 0;
        while slot < synapses
            invariant
                slot <= synapses,
                synapses == self.recurrent.target_neuron.len(),
                0 < self.recurrent.capacity_per_neuron,
                self.recurrent.target_neuron.len() == self.neurons.neuron_type.len()
                    * self.recurrent.capacity_per_neuron,
                self.recurrent.target_branch.len() == self.recurrent.target_neuron.len(),
                self.recurrent.delay.len() == self.recurrent.target_neuron.len(),
                self.recurrent.weight.len() == self.recurrent.target_neuron.len(),
                self.synapse_violation_from(0) == self.synapse_violation_from(slot as int),
            decreases synapses - slot,
        {
            proof {
                lemma_source_of_slot(
                    slot as int,
                    self.neurons.neuron_type.len() as int,
                    self.recurrent.capacity_per_neuron as int,
                );
            }
            if let Some(text) = self.synapse_problem(slot) {
                return Some(text);
            }
            slot = slot + 1;
        }
        None
    }

    /// The first wrong input synapse.
    fn first_input_problem(&self) -> (r: Option<String>)
        requires
            self.input.branches.len() == self.input.targets.len(),
            self.input.weights.len() == self.input.targets.len(),
        ensures
            match r {
                Some(text) => self.input_violation_from(0) == Some(text@),
                None => self.input_violation_from(0) is None,
            },
    {
        let inputs: usize = self.input.targets.len();
        let mut at: usize = 0;
        while at < inputs
            invariant
                at <= inputs,
                inputs == self.input.targets.len(),
                self.input.branches.len() == inputs,
                self.input.weights.len() == inputs,
                self.input_violation_from(0) == self.input_violation_from(at as int),
            decreases inputs - at,
        {
            if self.input.targets[at] as usize >= self.config.model.neuron_count
                || self.input.branches[at] == BRANCH_INHIBITORY || self.input.branches[at]
                > BRANCH_CONTEXT_GATE || self.input.weights[at].lt(Scalar::zero())
                || self.config.learning.weight_max.lt(self.input.weights[at]) {
                return Some(
                    with_number("input projection slot ", at as u64, " has invalid state"),
                );
            }
            at = at + 1;
        }
        None
    }
}

/// Products of natural numbers are natural numbers.
proof fn lemma_products(a: int, b: int, c: int, d: int)
    requires
        0 <= a,
        0 <= b,
        0 <= c,
        0 <= d,
    ensures
        0 <= a * b,
        0 <= c * d,
{
    assert(0 <= a * b && 0 <= c * d) by (nonlinear_arith)
        requires
            0 <= a,
            0 <= b,
            0 <= c,
            0 <= d,
    ;
}

/// The source of a synapse slot is a neuron.
pub proof fn lemma_source_of_slot(slot: int, neurons: int, capacity: int)
    requires
        0 <= slot < neurons * capacity,
        0 < capacity,
    ensures
        0 <= slot / capacity < neurons,
{
    assert(0 <= slot / capacity < neurons) by (nonlinear_arith)
        requires
            0 <= slot < neurons * capacity,
            0 < capacity,
    ;
}

/// In a model that passes validation the context memory can be probed, every recurrent
/// synapse reaches a neuron of the model with a delay that the delay ring carries, an
/// excitatory neuron never inhibits and an inhibitory one never excites.
pub proof fn law_valid_model(m: Model, alphabet: Alphabet, target_active: usize)
    requires
        m.config.violation(alphabet.output_classes, target_active) is None,
        m.violation(alphabet) is None,
    ensures
        m.context_ready(),
        forall|slot: int|
            0 <= slot < m.recurrent.target_neuron.len() ==> {
                &&& (#[trigger] m.recurrent.target_neuron[slot]) < m.config.model.neuron_count
                &&& is_delay(m.recurrent.delay[slot])
                &&& (m.neurons.neuron_type[slot / m.recurrent.capacity_per_neuron as int] == 0
                    ==> m.recurrent.target_branch[slot] != BRANCH_INHIBITORY
                    && !m.recurrent.weight[slot].below(Scalar { bits: 0 }))
                &&& (m.neurons.neuron_type[slot / m.recurrent.capacity_per_neuron as int] != 0
                    ==> m.recurrent.target_branch[slot] == BRANCH_INHIBITORY
                    && !(Scalar { bits: 0 }).below(m.recurrent.weight[slot]))
            },
{
    assert forall|slot: int| 0 <= slot < m.recurrent.target_neuron.len() implies {
        &&& (#[trigger] m.recurrent.target_neuron[slot]) < m.config.model.neuron_count
        &&& m.synapse_violation(slot) is None
    } by {
        lemma_no_violation_from(m, 0, slot);
    }
}

/// Where no synapse from `from` on is wrong, none after it is.
proof fn lemma_no_violation_from(m: Model, from: int, slot: int)
    requires
        0 <= from <= slot < m.recurrent.target_neuron.len(),
        m.synapse_violation_from(from) is None,
    ensures
        m.synapse_violation(slot) is None,
    decreases slot - from,
{
    if from < slot {
        lemma_no_violation_from(m, from + 1, slot);
    }
}

} // verus!
