//! One synchronous reduction: the mean of a story batch, its counters and the rules that the
//! merged model must keep.

use crate::arithmetic::Numerics;
use crate::context_merge::{apply_context_deltas, context_result};
use crate::error::{fails, LeoError, LeoErrorKind, LeoResult};
use crate::merge::{merge_tensors, takes_any_list, tensors_merged};
use crate::metrics::{capped_sum, larger, TrainingStatistics};
use crate::model::{lemma_source_of_slot, Model};
use crate::parallel::{ConfigFingerprint, MergeMetrics, SparseModelDelta, StatisticsDelta};
use crate::scalar::Scalar;
use crate::symbols::Alphabet;
use vstd::prelude::*;

verus! {

/// The smallest threshold, one twentieth.
pub const THRESHOLD_MIN_BITS: u32 = 0x3d4c_cccd;

/// The largest threshold, two.
pub const THRESHOLD_MAX_BITS: u32 = 0x4000_0000;

/// The smallest excitability, one tenth.
pub const EXCITABILITY_MIN_BITS: u32 = 0x3dcc_cccd;

/// The largest excitability, four.
pub const EXCITABILITY_MAX_BITS: u32 = 0x4080_0000;

/// The counters with what one worker moved them by.
pub open spec fn statistics_with<T: Numerics>(
    ops: T,
    s: TrainingStatistics,
    d: StatisticsDelta,
) -> TrainingStatistics {
    TrainingStatistics {
        processed_bytes: capped_sum(s.processed_bytes, d.processed_bytes),
        processed_stories: capped_sum(s.processed_stories, d.processed_stories),
        training_loss_sum: ops.wide_total(s.training_loss_sum, d.training_loss_sum),
        training_targets: capped_sum(s.training_targets, d.training_targets),
        active_neurons_sum: capped_sum(s.active_neurons_sum, d.active_neurons_sum),
        active_neurons_peak: larger(s.active_neurons_peak, d.active_neurons_peak),
        synaptic_events: capped_sum(s.synaptic_events, d.synaptic_events),
        numerical_rejections: capped_sum(s.numerical_rejections, d.numerical_rejections),
        persistent_ticks: capped_sum(s.persistent_ticks, d.persistent_ticks),
    }
}

/// The counters with what every worker moved them by, one after the other.
pub open spec fn statistics_with_all<T: Numerics>(
    ops: T,
    s: TrainingStatistics,
    deltas: Seq<SparseModelDelta>,
) -> TrainingStatistics
    decreases deltas.len(),
{
    if deltas.len() == 0 {
        s
    } else {
        statistics_with(
            ops,
            statistics_with_all(ops, s, deltas.drop_last()),
            deltas.last().statistics,
        )
    }
}

/// Adds what every worker moved the counters by.
pub fn apply_statistics_deltas<T: Numerics>(
    statistics: &mut TrainingStatistics,
    deltas: &Vec<SparseModelDelta>,
    ops: &T,
)
    requires
        ops.ready(),
    ensures
        *final(statistics) == statistics_with_all(*ops, *old(statistics), deltas@),
{
    let mut w: usize = 0;
    assert(deltas@.take(0) =~= Seq::<SparseModelDelta>::empty());
    while w < deltas.len()
        invariant
            ops.ready(),
            w <= deltas.len(),
            *statistics == statistics_with_all(*ops, *old(statistics), deltas@.take(w as int)),
        decreases deltas.len() - w,
    {
        let d: StatisticsDelta = deltas[w].statistics;
        statistics.processed_bytes = statistics.processed_bytes.saturating_add(d.processed_bytes);
        statistics.processed_stories = statistics.processed_stories.saturating_add(
            d.processed_stories,
        );
        statistics.training_loss_sum = ops.wide_add(
            statistics.training_loss_sum,
            d.training_loss_sum,
        );
        statistics.training_targets = statistics.training_targets.saturating_add(
            d.training_targets,
        );
        statistics.active_neurons_sum = statistics.active_neurons_sum.saturating_add(
            d.active_neurons_sum,
        );
        if statistics.active_neurons_peak < d.active_neurons_peak {
            statistics.active_neurons_peak = d.active_neurons_peak;
        }
        statistics.synaptic_events = statistics.synaptic_events.saturating_add(d.synaptic_events);
        statistics.numerical_rejections = statistics.numerical_rejections.saturating_add(
            d.numerical_rejections,
        );
        statistics.persistent_ticks = statistics.persistent_ticks.saturating_add(
            d.persistent_ticks,
        );
        proof {
            let upto = deltas@.take(w + 1);
            assert(upto.drop_last() =~= deltas@.take(w as int));
            assert(upto.last() == deltas@[w as int]);
        }
        w = w + 1;
    }
    assert(deltas@.take(deltas.len() as int) =~= deltas@);
}

/// The revisions of all workers, held at the largest value.
pub open spec fn revisions(deltas: Seq<SparseModelDelta>) -> u64
    decreases deltas.len(),
{
    if deltas.len() == 0 {
        0
    } else {
        capped_sum(revisions(deltas.drop_last()), deltas.last().revision_increment)
    }
}

fn sum_revisions(deltas: &Vec<SparseModelDelta>) -> (r: u64)
    ensures
        r == revisions(deltas@),
{
    let mut total: u64 = 0;
    let mut w: usize = 0;
    assert(deltas@.take(0) =~= Seq::<SparseModelDelta>::empty());
    while w < deltas.len()
        invariant
            w <= deltas.len(),
            total == revisions(deltas@.take(w as int)),
        decreases deltas.len() - w,
    {
        total = total.saturating_add(deltas[w].revision_increment);
        proof {
            let upto = deltas@.take(w + 1);
            assert(upto.drop_last() =~= deltas@.take(w as int));
            assert(upto.last() == deltas@[w as int]);
        }
        w = w + 1;
    }
    assert(deltas@.take(deltas.len() as int) =~= deltas@);
    total
}

/// Every number confined to `lo..=hi`.
pub open spec fn confined_all(s: Seq<Scalar>, lo: Scalar, hi: Scalar) -> Seq<Scalar> {
    Seq::new(s.len(), |i: int| s[i].confined(lo, hi))
}

fn confine_values(values: &mut Vec<Scalar>, lo: Scalar, hi: Scalar)
    ensures
        final(values)@ == confined_all(old(values)@, lo, hi),
{
    let mut i: usize = 0;
    while i < values.len()
        invariant
            i <= values.len(),
            values.len() == old(values).len(),
            forall|k: int|
                0 <= k < values.len() ==> #[trigger] values@[k] == (if k < i {
                    old(values)@[k].confined(lo, hi)
                } else {
                    old(values)@[k]
                }),
        decreases values.len() - i,
    {
        let value: Scalar = values[i];
        values.set(i, value.clamp_to(lo, hi));
        i = i + 1;
    }
    assert(values@ =~= confined_all(old(values)@, lo, hi));
}

/// The weight of a synapse held to the sign of its source: an excitatory neuron never has a
/// negative weight, an inhibitory one never a positive.
pub open spec fn signed(weight: Scalar, source_type: u8) -> Scalar {
    let zero = Scalar { bits: 0 };
    if weight.nan() {
        zero
    } else if source_type == 0 {
        if weight.below(zero) {
            zero
        } else {
            weight
        }
    } else if zero.below(weight) {
        zero
    } else {
        weight
    }
}

/// The weight of a recurrent synapse within its bounds and with the sign of its source.
pub open spec fn projected_weight(
    weight: Scalar,
    lo: Scalar,
    hi: Scalar,
    source_type: u8,
) -> Scalar {
    signed(weight.confined(lo, hi), source_type)
}

/// The weights of the recurrent synapses within their bounds.
pub open spec fn projected_weights(
    weights: Seq<Scalar>,
    types: Seq<u8>,
    capacity: int,
    lo: Scalar,
    hi: Scalar,
) -> Seq<Scalar> {
    Seq::new(
        weights.len(),
        |slot: int| projected_weight(weights[slot], lo, hi, types[slot / capacity]),
    )
}

/// The synapses of a model belong to its neurons, and the upper bound of its weights is below
/// neither the lower bound nor zero.
pub open spec fn projectable(m: Model) -> bool {
    let l = m.config.learning;
    &&& m.recurrent.weight.len() == m.neurons.neuron_type.len() * m.recurrent.capacity_per_neuron
    &&& l.weight_min.at_most(l.weight_max)
    &&& (Scalar { bits: 0 }).at_most(l.weight_max)
}

/// `after` is `before` with every parameter within its bounds.
pub open spec fn constrained(before: Model, after: Model) -> bool {
    let lo = before.config.learning.weight_min;
    let hi = before.config.learning.weight_max;
    &&& after.config == before.config
    &&& after.generation == before.generation
    &&& after.parameter_revision == before.parameter_revision
    &&& after.neurons.neuron_type == before.neurons.neuron_type
    &&& after.recurrent.capacity_per_neuron == before.recurrent.capacity_per_neuron
    &&& after.recurrent.target_neuron == before.recurrent.target_neuron
    &&& after.recurrent.target_branch == before.recurrent.target_branch
    &&& after.recurrent.delay == before.recurrent.delay
    &&& after.input.fanout == before.input.fanout
    &&& after.input.targets == before.input.targets
    &&& after.input.branches == before.input.branches
    &&& after.output.bias == before.output.bias
    &&& after.context.keys == before.context.keys
    &&& after.context.observations == before.context.observations
    &&& after.statistics == before.statistics
    &&& after.neurons.threshold@ == confined_all(
        before.neurons.threshold@,
        Scalar { bits: THRESHOLD_MIN_BITS },
        Scalar { bits: THRESHOLD_MAX_BITS },
    )
    &&& after.neurons.excitability@ == confined_all(
        before.neurons.excitability@,
        Scalar { bits: EXCITABILITY_MIN_BITS },
        Scalar { bits: EXCITABILITY_MAX_BITS },
    )
    &&& after.recurrent.weight@ == projected_weights(
        before.recurrent.weight@,
        before.neurons.neuron_type@,
        before.recurrent.capacity_per_neuron as int,
        lo,
        hi,
    )
    &&& after.input.weights@ == confined_all(before.input.weights@, Scalar { bits: 0 }, hi)
    &&& after.output.weights@ == confined_all(before.output.weights@, lo, hi)
    &&& after.context.embeddings@ == confined_all(before.context.embeddings@, lo, hi)
    &&& after.context.output_weights@ == confined_all(before.context.output_weights@, lo, hi)
}

/// Holds every parameter within its bounds.
pub fn project_parameter_constraints(m: &mut Model)
    requires
        projectable(*old(m)),
    ensures
        constrained(*old(m), *final(m)),
{
    let lo: Scalar = m.config.learning.weight_min;
    let hi: Scalar = m.config.learning.weight_max;
    confine_values(
        &mut m.neurons.threshold,
        Scalar { bits: THRESHOLD_MIN_BITS },
        Scalar { bits: THRESHOLD_MAX_BITS },
    );
    confine_values(
        &mut m.neurons.excitability,
        Scalar { bits: EXCITABILITY_MIN_BITS },
        Scalar { bits: EXCITABILITY_MAX_BITS },
    );
    let ghost weights = m.recurrent.weight@;
    let ghost before = *m;
    let capacity: usize = m.recurrent.capacity_per_neuron;
    let mut slot: usize = 0;
    while slot < m.recurrent.weight.len()
        invariant
            slot <= m.recurrent.weight.len(),
            m.recurrent.weight.len() == weights.len(),
            capacity == m.recurrent.capacity_per_neuron,
            weights.len() == m.neurons.neuron_type.len() * capacity,
            *m == (Model {
                recurrent: crate::model::SynapseArrays {
                    weight: m.recurrent.weight,
                    ..before.recurrent
                },
                ..before
            }),
            forall|k: int|
                0 <= k < weights.len() ==> #[trigger] m.recurrent.weight@[k] == (if k < slot {
                    projected_weight(
                        weights[k],
                        lo,
                        hi,
                        m.neurons.neuron_type@[k / capacity as int],
                    )
                } else {
                    weights[k]
                }),
        decreases m.recurrent.weight.len() - slot,
    {
        proof {
            let neurons = m.neurons.neuron_type.len() as int;
            assert(0 < capacity) by (nonlinear_arith)
                requires
                    0 <= slot < neurons * capacity,
                    0 <= capacity,
            ;
            lemma_source_of_slot(slot as int, neurons, capacity as int);
        }
        let source: usize = slot / capacity;
        let weight: Scalar = m.recurrent.weight[slot].clamp_to(lo, hi);
        let held: Scalar = if weight.is_nan() {
            Scalar::zero()
        } else if m.neurons.neuron_type[source] == 0 {
            if weight.lt(Scalar::zero()) {
                Scalar::zero()
            } else {
                weight
            }
        } else if Scalar::zero().lt(weight) {
            Scalar::zero()
        } else {
            weight
        };
        m.recurrent.weight.set(slot, held);
        slot = slot + 1;
    }
    assert(m.recurrent.weight@ =~= projected_weights(
        weights,
        m.neurons.neuron_type@,
        capacity as int,
        lo,
        hi,
    ));
    confine_values(&mut m.input.weights, Scalar::zero(), hi);
    confine_values(&mut m.output.weights, lo, hi);
    confine_values(&mut m.context.embeddings, lo, hi);
    confine_values(&mut m.context.output_weights, lo, hi);
}

/// Holding the parameters within their bounds a second time changes nothing more.
pub proof fn law_constraints_are_idempotent(first: Model, second: Model, third: Model)
    requires
        projectable(first),
        first.config.learning.weight_min.at_most(Scalar { bits: 0 }),
        constrained(first, second),
        constrained(second, third),
    ensures
        third.neurons.threshold@ == second.neurons.threshold@,
        third.neurons.excitability@ == second.neurons.excitability@,
        third.recurrent.weight@ == second.recurrent.weight@,
        third.input.weights@ == second.input.weights@,
        third.output.weights@ == second.output.weights@,
        third.output.bias@ == second.output.bias@,
        third.context.embeddings@ == second.context.embeddings@,
        third.context.output_weights@ == second.context.output_weights@,
{
    let lo = first.config.learning.weight_min;
    let hi = first.config.learning.weight_max;
    assert(third.neurons.threshold@ =~= second.neurons.threshold@);
    assert(third.neurons.excitability@ =~= second.neurons.excitability@);
    assert forall|slot: int| 0 <= slot < second.recurrent.weight@.len() implies
        #[trigger] third.recurrent.weight@[slot] == second.recurrent.weight@[slot] by {
        let kind = first.neurons.neuron_type@[slot / first.recurrent.capacity_per_neuron as int];
        let weight = first.recurrent.weight@[slot];
        assert(second.recurrent.weight@[slot] == projected_weight(weight, lo, hi, kind));
        assert(third.recurrent.weight@[slot] == projected_weight(
            second.recurrent.weight@[slot],
            lo,
            hi,
            kind,
        ));
    }
    assert(third.recurrent.weight@ =~= second.recurrent.weight@);
    assert(third.input.weights@ =~= second.input.weights@);
    assert(third.output.weights@ =~= second.output.weights@);
    assert(third.context.embeddings@ =~= second.context.embeddings@);
    assert(third.context.output_weights@ =~= second.context.output_weights@);
}

/// No worker was configured otherwise than the canonical model.
pub open spec fn fingerprints_match(
    deltas: Seq<SparseModelDelta>,
    fingerprint: ConfigFingerprint,
) -> bool {
    forall|w: int|
        0 <= w < deltas.len() ==> (#[trigger] deltas[w]).config_fingerprint == fingerprint
}

/// Every worker started from the canonical revision.
pub open spec fn revisions_match(deltas: Seq<SparseModelDelta>, revision: u64) -> bool {
    forall|w: int| 0 <= w < deltas.len() ==> (#[trigger] deltas[w]).base_revision == revision
}

fn same_fingerprints(deltas: &Vec<SparseModelDelta>, fingerprint: ConfigFingerprint) -> (r: bool)
    ensures
        r == fingerprints_match(deltas@, fingerprint),
{
    let mut w: usize = 0;
    while w < deltas.len()
        invariant
            w <= deltas.len(),
            forall|k: int|
                0 <= k < w ==> (#[trigger] deltas@[k]).config_fingerprint == fingerprint,
        decreases deltas.len() - w,
    {
        if deltas[w].config_fingerprint != fingerprint {
            assert(deltas@[w as int].config_fingerprint != fingerprint);
            return false;
        }
        w = w + 1;
    }
    true
}

fn same_revisions(deltas: &Vec<SparseModelDelta>, revision: u64) -> (r: bool)
    ensures
        r == revisions_match(deltas@, revision),
{
    let mut w: usize = 0;
    while w < deltas.len()
        invariant
            w <= deltas.len(),
            forall|k: int| 0 <= k < w ==> (#[trigger] deltas@[k]).base_revision == revision,
        decreases deltas.len() - w,
    {
        if deltas[w].base_revision != revision {
            assert(deltas@[w as int].base_revision != revision);
            return false;
        }
        w = w + 1;
    }
    true
}

/// Why a batch is refused before anything is merged.
pub open spec fn batch_problem(
    deltas: Seq<SparseModelDelta>,
    fingerprint: ConfigFingerprint,
    revision: u64,
) -> Option<Seq<char>> {
    if deltas.len() == 0 {
        Some("cannot merge an empty worker batch"@)
    } else if !fingerprints_match(deltas, fingerprint) {
        Some("worker delta configuration does not match the canonical model"@)
    } else if !revisions_match(deltas, revision) {
        Some("worker delta was not produced from the current canonical revision"@)
    } else {
        None
    }
}

/// The counters and the revision of `merged` are those of a batch, everything else is that of
/// `before`.
pub open spec fn counted<T: Numerics>(
    ops: T,
    before: Model,
    deltas: Seq<SparseModelDelta>,
    merged: Model,
) -> bool {
    merged == (Model {
        statistics: statistics_with_all(ops, before.statistics, deltas),
        parameter_revision: capped_sum(before.parameter_revision, revisions(deltas)),
        ..before
    })
}

/// A batch went through: the tensors were merged into `first`, the context entries into
/// `second`, the counters into `third`, and `after` keeps its bounds.
pub open spec fn batch_merged<T: Numerics, G: Fn(Scalar, Vec<Scalar>, usize) -> Scalar>(
    ops: T,
    g: G,
    before: Model,
    deltas: Seq<SparseModelDelta>,
    first: Model,
    second: Model,
    third: Model,
    after: Model,
    updates: usize,
    keys: usize,
) -> bool {
    &&& tensors_merged(g, before, deltas, first, Ok::<usize, LeoError>(updates))
    &&& context_result(g, first, deltas, second, Ok::<usize, LeoError>(keys))
    &&& second.same_but_context_table(first)
    &&& counted(ops, second, deltas, third)
    &&& constrained(third, after)
}

/// What a reduction gives.
pub open spec fn reduction_result<T: Numerics, G: Fn(Scalar, Vec<Scalar>, usize) -> Scalar>(
    ops: T,
    g: G,
    before: Model,
    deltas: Seq<SparseModelDelta>,
    fingerprint: ConfigFingerprint,
    alphabet: Alphabet,
    after: Model,
    r: LeoResult<MergeMetrics>,
) -> bool {
    match batch_problem(deltas, fingerprint, before.parameter_revision) {
        Some(text) => after == before && fails(r, LeoErrorKind::Internal, text),
        None => {
            ||| (r matches Err(e) && tensors_merged(
                g,
                before,
                deltas,
                after,
                Err::<usize, LeoError>(e),
            ))
            ||| (r matches Err(e) && exists|updates: usize| #[trigger]
                tensors_merged(g, before, deltas, after, Ok::<usize, LeoError>(updates))
                    && context_result(g, after, deltas, after, Err::<usize, LeoError>(e)))
            ||| exists|first: Model, second: Model, third: Model, updates: usize, keys: usize|
                {
                    &&& #[trigger] batch_merged(
                        ops,
                        g,
                        before,
                        deltas,
                        first,
                        second,
                        third,
                        after,
                        updates,
                        keys,
                    )
                    &&& validated(after, alphabet, after.config.target_active(ops), r)
                    &&& r matches Ok(metrics) ==> metrics == (MergeMetrics {
                        workers: deltas.len() as usize,
                        fixed_parameter_updates: updates,
                        context_keys: keys,
                    })
                }
        },
    }
}

/// The merged model keeps its rules, or the error says which it breaks.
pub open spec fn validated(
    m: Model,
    alphabet: Alphabet,
    target_active: usize,
    r: LeoResult<MergeMetrics>,
) -> bool {
    match m.config.violation(alphabet.output_classes, target_active) {
        Some(text) => fails(r, LeoErrorKind::Configuration, text),
        None => match m.violation(alphabet) {
            Some(text) => fails(r, LeoErrorKind::Internal, text),
            None => r is Ok,
        },
    }
}

/// Merges a batch of workers into the canonical model: every parameter moves by the mean of
/// what the workers moved it by, every counter by their sum. `mean` moves a number by the mean of a
/// list.
pub fn apply_mean_deltas<T: Numerics, G: Fn(Scalar, Vec<Scalar>, usize) -> Scalar>(
    master: &mut Model,
    deltas: &Vec<SparseModelDelta>,
    fingerprint: ConfigFingerprint,
    alphabet: &Alphabet,
    ops: &T,
    mean: &G,
) -> (r: LeoResult<MergeMetrics>)
    requires
        ops.ready(),
        takes_any_list(*mean),
        old(master).context_ready(),
        0 < old(master).config.context.probe_limit,
        projectable(*old(master)),
    ensures
        reduction_result(
            *ops,
            *mean,
            *old(master),
            deltas@,
            fingerprint,
            *alphabet,
            *final(master),
            r,
        ),
{
    if deltas.len() == 0 {
        return Err(LeoError::internal("cannot merge an empty worker batch".to_owned()));
    }
    if !same_fingerprints(deltas, fingerprint) {
        return Err(
            LeoError::internal(
                "worker delta configuration does not match the canonical model".to_owned(),
            ),
        );
    }
    if !same_revisions(deltas, master.parameter_revision) {
        return Err(
            LeoError::internal(
                "worker delta was not produced from the current canonical revision".to_owned(),
            ),
        );
    }
    let ghost before = *master;
    let fixed_parameter_updates: usize = match merge_tensors(master, deltas, mean) {
        Ok(count) => count,
        Err(e) => {
            return Err(e);
        },
    };
    let ghost first = *master;
    proof {
        lemma_merge_keeps_lengths(*mean, before, deltas@, first, fixed_parameter_updates);
    }
    let context_keys: usize = match apply_context_deltas(master, deltas, mean) {
        Ok(count) => count,
        Err(e) => {
            return Err(e);
        },
    };
    let ghost second = *master;
    apply_statistics_deltas(&mut master.statistics, deltas, ops);
    let increment: u64 = sum_revisions(deltas);
    master.parameter_revision = master.parameter_revision.saturating_add(increment);
    let ghost third = *master;
    assert(counted(*ops, second, deltas@, third));
    project_parameter_constraints(master);
    assert(batch_merged(
        *ops,
        *mean,
        before,
        deltas@,
        first,
        second,
        third,
        *master,
        fixed_parameter_updates,
        context_keys,
    ));
    match master.validate(alphabet, ops) {
        Err(e) => Err(e),
        Ok(_) => Ok(
            MergeMetrics { workers: deltas.len(), fixed_parameter_updates, context_keys },
        ),
    }
}

/// Merging keeps the length of every tensor.
proof fn lemma_merge_keeps_lengths<G: Fn(Scalar, Vec<Scalar>, usize) -> Scalar>(
    g: G,
    before: Model,
    deltas: Seq<SparseModelDelta>,
    after: Model,
    count: usize,
)
    requires
        tensors_merged(g, before, deltas, after, Ok::<usize, LeoError>(count)),
    ensures
        after.recurrent.weight@.len() == before.recurrent.weight@.len(),
{
    assert(crate::merge::tensor_done(g, before, deltas, after, 2));
    let c = choose|c: usize| #[trigger]
        crate::merge::tensor_result(g, before, deltas, after, 2, Ok::<usize, LeoError>(c));
    assert(crate::merge::tensor_result(g, before, deltas, after, 2, Ok::<usize, LeoError>(c)));
}

} // verus!
