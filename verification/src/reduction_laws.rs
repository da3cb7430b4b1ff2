//! What a merge makes of a batch of workers: counters add up, and every worker is heard.

use crate::arithmetic::Numerics;
use crate::context_merge::{
    all_rows, entries_ranked, ContextEntry,
};
use crate::error::LeoError;
use crate::merge::{
    all_updates, contributed, contributions, means, tensor_at, tensor_done, tensor_of,
    tensor_result, updates_of, Tensor, TENSOR_COUNT,
};
use crate::merge_laws::{lemma_workers_observed, workers_observed};
use crate::metrics::TrainingStatistics;
use crate::model::Model;
use crate::parallel::{
    moved_statistics, ConfigFingerprint, MergeMetrics, SparseF32Delta, SparseModelDelta,
};
use crate::reduction::{
    batch_merged, reduction_result, revisions, statistics_with, statistics_with_all,
    EXCITABILITY_MAX_BITS, EXCITABILITY_MIN_BITS, THRESHOLD_MAX_BITS, THRESHOLD_MIN_BITS,
};
use crate::scalar::Scalar;
use crate::symbols::Alphabet;
use vstd::prelude::*;

verus! {

/// The sum of what each worker has to say.
pub open spec fn total(deltas: Seq<SparseModelDelta>, say: spec_fn(SparseModelDelta) -> u64) -> int
    decreases deltas.len(),
{
    if deltas.len() == 0 {
        0
    } else {
        total(deltas.drop_last(), say) + say(deltas.last())
    }
}

/// A number, held at the largest that a counter can hold.
pub open spec fn at_most_counted(n: int) -> int {
    if n > u64::MAX {
        u64::MAX as int
    } else {
        n
    }
}

proof fn lemma_totals<T: Numerics>(ops: T, s: TrainingStatistics, deltas: Seq<SparseModelDelta>)
    ensures
        ({
            let r = statistics_with_all(ops, s, deltas);
            &&& r.processed_bytes == at_most_counted(
                s.processed_bytes + total(deltas, |d: SparseModelDelta| d.statistics.processed_bytes),
            )
            &&& r.processed_stories == at_most_counted(
                s.processed_stories + total(
                    deltas,
                    |d: SparseModelDelta| d.statistics.processed_stories,
                ),
            )
            &&& r.training_targets == at_most_counted(
                s.training_targets + total(
                    deltas,
                    |d: SparseModelDelta| d.statistics.training_targets,
                ),
            )
            &&& r.active_neurons_sum == at_most_counted(
                s.active_neurons_sum + total(
                    deltas,
                    |d: SparseModelDelta| d.statistics.active_neurons_sum,
                ),
            )
            &&& r.synaptic_events == at_most_counted(
                s.synaptic_events + total(deltas, |d: SparseModelDelta| d.statistics.synaptic_events),
            )
            &&& r.numerical_rejections == at_most_counted(
                s.numerical_rejections + total(
                    deltas,
                    |d: SparseModelDelta| d.statistics.numerical_rejections,
                ),
            )
            &&& r.persistent_ticks == at_most_counted(
                s.persistent_ticks + total(
                    deltas,
                    |d: SparseModelDelta| d.statistics.persistent_ticks,
                ),
            )
            &&& s.active_neurons_peak <= r.active_neurons_peak
            &&& forall|w: int|
                0 <= w < deltas.len() ==> (#[trigger] deltas[w]).statistics.active_neurons_peak
                    <= r.active_neurons_peak
            &&& r.active_neurons_peak == s.active_neurons_peak || exists|w: int|
                0 <= w < deltas.len() && (#[trigger] deltas[w]).statistics.active_neurons_peak
                    == r.active_neurons_peak
            &&& revisions(deltas) == at_most_counted(
                total(deltas, |d: SparseModelDelta| d.revision_increment),
            )
        }),
    decreases deltas.len(),
{
    if deltas.len() > 0 {
        let earlier = deltas.drop_last();
        lemma_totals(ops, s, earlier);
        let r = statistics_with_all(ops, s, earlier);
        let n = deltas.len() - 1;
        assert(deltas[n] == deltas.last());
        assert forall|w: int| 0 <= w < n implies deltas[w] == earlier[w] by {}
        if r.active_neurons_peak < deltas.last().statistics.active_neurons_peak {
            assert(deltas[n].statistics.active_neurons_peak == statistics_with_all(
                ops,
                s,
                deltas,
            ).active_neurons_peak);
        } else if r.active_neurons_peak != s.active_neurons_peak {
            let w = choose|w: int|
                0 <= w < earlier.len() && (#[trigger] earlier[w]).statistics.active_neurons_peak
                    == r.active_neurons_peak;
            assert(deltas[w].statistics.active_neurons_peak == r.active_neurons_peak);
        }
    }
}

/// The batch that a merge went through as.
pub proof fn lemma_batch<T: Numerics, G: Fn(Scalar, Vec<Scalar>, usize) -> Scalar>(
    ops: T,
    g: G,
    before: Model,
    deltas: Seq<SparseModelDelta>,
    fingerprint: ConfigFingerprint,
    alphabet: Alphabet,
    after: Model,
    metrics: MergeMetrics,
) -> (r: (Model, Model, Model))
    requires
        reduction_result(
            ops,
            g,
            before,
            deltas,
            fingerprint,
            alphabet,
            after,
            Ok::<MergeMetrics, LeoError>(metrics),
        ),
    ensures
        batch_merged(
            ops,
            g,
            before,
            deltas,
            r.0,
            r.1,
            r.2,
            after,
            metrics.fixed_parameter_updates,
            metrics.context_keys,
        ),
        metrics.workers == deltas.len() as usize,
{
    let (first, second, third, updates, keys) = choose|
        first: Model,
        second: Model,
        third: Model,
        updates: usize,
        keys: usize,
    |
        {
            &&& #[trigger] batch_merged(
                ops,
                g,
                before,
                deltas,
                first,
                second,
                third,
                after,
                updates,
                keys,
            )
            &&& metrics == (MergeMetrics {
                workers: deltas.len() as usize,
                fixed_parameter_updates: updates,
                context_keys: keys,
            })
        };
    (first, second, third)
}

/// No work is lost in a merge: each counter, and the revision, moves by the sum of what the workers
/// moved it by, as far as it can be counted, and the peak is the highest of all.
pub proof fn law_merges_add_up_the_counters<
    T: Numerics,
    G: Fn(Scalar, Vec<Scalar>, usize) -> Scalar,
>(
    ops: T,
    g: G,
    before: Model,
    deltas: Seq<SparseModelDelta>,
    fingerprint: ConfigFingerprint,
    alphabet: Alphabet,
    after: Model,
    metrics: MergeMetrics,
)
    requires
        reduction_result(
            ops,
            g,
            before,
            deltas,
            fingerprint,
            alphabet,
            after,
            Ok::<MergeMetrics, LeoError>(metrics),
        ),
    ensures
        ({
            let s = before.statistics;
            let r = after.statistics;
            &&& r.processed_bytes == at_most_counted(
                s.processed_bytes + total(deltas, |d: SparseModelDelta| d.statistics.processed_bytes),
            )
            &&& r.processed_stories == at_most_counted(
                s.processed_stories + total(
                    deltas,
                    |d: SparseModelDelta| d.statistics.processed_stories,
                ),
            )
            &&& r.training_targets == at_most_counted(
                s.training_targets + total(
                    deltas,
                    |d: SparseModelDelta| d.statistics.training_targets,
                ),
            )
            &&& r.active_neurons_sum == at_most_counted(
                s.active_neurons_sum + total(
                    deltas,
                    |d: SparseModelDelta| d.statistics.active_neurons_sum,
                ),
            )
            &&& r.synaptic_events == at_most_counted(
                s.synaptic_events + total(deltas, |d: SparseModelDelta| d.statistics.synaptic_events),
            )
            &&& r.numerical_rejections == at_most_counted(
                s.numerical_rejections + total(
                    deltas,
                    |d: SparseModelDelta| d.statistics.numerical_rejections,
                ),
            )
            &&& r.persistent_ticks == at_most_counted(
                s.persistent_ticks + total(
                    deltas,
                    |d: SparseModelDelta| d.statistics.persistent_ticks,
                ),
            )
            &&& s.active_neurons_peak <= r.active_neurons_peak
            &&& forall|w: int|
                0 <= w < deltas.len() ==> (#[trigger] deltas[w]).statistics.active_neurons_peak
                    <= r.active_neurons_peak
            &&& r.active_neurons_peak == s.active_neurons_peak || exists|w: int|
                0 <= w < deltas.len() && (#[trigger] deltas[w]).statistics.active_neurons_peak
                    == r.active_neurons_peak
            &&& after.parameter_revision == at_most_counted(
                before.parameter_revision + total(
                    deltas,
                    |d: SparseModelDelta| d.revision_increment,
                ),
            )
            &&& metrics.workers == deltas.len() as usize
        }),
{
    let (first, second, third) = lemma_batch(
        ops,
        g,
        before,
        deltas,
        fingerprint,
        alphabet,
        after,
        metrics,
    );
    lemma_totals(ops, before.statistics, deltas);
    assert(second.statistics == before.statistics);
    assert(second.parameter_revision == before.parameter_revision);
}

/// What a worker says it moved the counters by leads back to where the worker came to: the counters
/// that it started from, with what it says, are those that it ended with.
pub proof fn law_moved_counters_lead_back<T: Numerics>(
    ops: T,
    before: TrainingStatistics,
    after: TrainingStatistics,
)
    requires
        before.processed_bytes <= after.processed_bytes,
        before.processed_stories <= after.processed_stories,
        before.training_targets <= after.training_targets,
        before.active_neurons_sum <= after.active_neurons_sum,
        before.active_neurons_peak <= after.active_neurons_peak,
        before.synaptic_events <= after.synaptic_events,
        before.numerical_rejections <= after.numerical_rejections,
        before.persistent_ticks <= after.persistent_ticks,
    ensures
        statistics_with(ops, before, moved_statistics(ops, before, after)) == (TrainingStatistics {
            training_loss_sum: ops.wide_total(
                before.training_loss_sum,
                ops.wide_difference(after.training_loss_sum, before.training_loss_sum),
            ),
            ..after
        }),
{
}

/// How many of some contributions are to a place.
pub open spec fn said_at(list: Seq<SparseF32Delta>, index: int) -> int
    decreases list.len(),
{
    if list.len() == 0 {
        0
    } else {
        said_at(list.drop_last(), index) + if list.last().index == index {
            1int
        } else {
            0
        }
    }
}

/// How many contributions to a place of a tensor all workers make.
pub open spec fn workers_said_at(deltas: Seq<SparseModelDelta>, t: Tensor, index: int) -> int
    decreases deltas.len(),
{
    if deltas.len() == 0 {
        0
    } else {
        workers_said_at(deltas.drop_last(), t, index) + said_at(
            updates_of(deltas.last(), t),
            index,
        )
    }
}

proof fn lemma_contributions_join(a: Seq<SparseF32Delta>, b: Seq<SparseF32Delta>, index: int)
    ensures
        contributions(a + b, index) == contributions(a, index) + contributions(b, index),
    decreases b.len(),
{
    if b.len() == 0 {
        assert(a + b =~= a);
        assert(contributions(a, index) + contributions(b, index) =~= contributions(a, index));
    } else {
        lemma_contributions_join(a, b.drop_last(), index);
        assert((a + b).drop_last() =~= a + b.drop_last());
        assert((a + b).last() == b.last());
        assert(contributions(a + b, index) =~= contributions(a, index) + contributions(b, index));
    }
}

proof fn lemma_contributions_of_one(list: Seq<SparseF32Delta>, index: int)
    ensures
        contributions(list, index).len() == said_at(list, index),
        forall|j: int|
            0 <= j < list.len() && (#[trigger] list[j]).index == index ==> contributions(
                list,
                index,
            ).contains(list[j].delta),
    decreases list.len(),
{
    if list.len() > 0 {
        lemma_contributions_of_one(list.drop_last(), index);
        let all = contributions(list, index);
        let earlier = contributions(list.drop_last(), index);
        assert forall|j: int|
            0 <= j < list.len() && (#[trigger] list[j]).index == index implies all.contains(
            list[j].delta,
        ) by {
            if j == list.len() - 1 {
                assert(all.last() == list[j].delta);
            } else {
                assert(list.drop_last()[j] == list[j]);
                let i = choose|i: int| 0 <= i < earlier.len() && earlier[i] == list[j].delta;
                assert(all[i] == list[j].delta);
            }
        }
    }
}

proof fn lemma_contributions_of_all(deltas: Seq<SparseModelDelta>, t: Tensor, index: int)
    ensures
        contributions(all_updates(deltas, t), index).len() == workers_said_at(deltas, t, index),
        forall|w: int, j: int|
            0 <= w < deltas.len() && 0 <= j < updates_of(deltas[w], t).len() && (
            #[trigger] updates_of(deltas[w], t)[j]).index == index ==> contributions(
                all_updates(deltas, t),
                index,
            ).contains(updates_of(deltas[w], t)[j].delta),
    decreases deltas.len(),
{
    if deltas.len() > 0 {
        let earlier = deltas.drop_last();
        let last = updates_of(deltas.last(), t);
        lemma_contributions_of_all(earlier, t, index);
        lemma_contributions_join(all_updates(earlier, t), last, index);
        lemma_contributions_of_one(last, index);
        let all = contributions(all_updates(deltas, t), index);
        let a = contributions(all_updates(earlier, t), index);
        let b = contributions(last, index);
        assert(all == a + b);
        assert forall|w: int, j: int|
            0 <= w < deltas.len() && 0 <= j < updates_of(deltas[w], t).len() && (
            #[trigger] updates_of(deltas[w], t)[j]).index == index implies all.contains(
            updates_of(deltas[w], t)[j].delta,
        ) by {
            let d = updates_of(deltas[w], t)[j].delta;
            if w == deltas.len() - 1 {
                assert(last[j].index == index);
                let i = choose|i: int| 0 <= i < b.len() && b[i] == d;
                assert(all[a.len() + i] == d);
            } else {
                assert(earlier[w] == deltas[w]);
                assert(updates_of(earlier[w], t)[j].index == index);
                let i = choose|i: int| 0 <= i < a.len() && a[i] == d;
                assert(all[i] == d);
            }
        }
    }
}

/// The number lies between two others.
pub open spec fn lies(x: Scalar, lo: Scalar, hi: Scalar) -> bool {
    lo.at_most(x) && x.at_most(hi)
}

/// A parameter may have a value: thresholds lie between a twentieth and two, excitabilities between
/// a tenth and four, weights within the bounds of learning; no input weight and no weight of an
/// excitatory neuron is negative, and no weight of an inhibitory neuron positive.
pub open spec fn allowed(m: Model, t: Tensor, index: int, x: Scalar) -> bool {
    let l = m.config.learning;
    match t {
        Tensor::Threshold => lies(
            x,
            (Scalar { bits: THRESHOLD_MIN_BITS }),
            (Scalar { bits: THRESHOLD_MAX_BITS }),
        ),
        Tensor::Excitability => lies(
            x,
            (Scalar { bits: EXCITABILITY_MIN_BITS }),
            (Scalar { bits: EXCITABILITY_MAX_BITS }),
        ),
        Tensor::RecurrentWeight => {
            let nil = Scalar { bits: 0 };
            &&& lies(x, l.weight_min, l.weight_max)
            &&& if m.neurons.neuron_type@[index / m.recurrent.capacity_per_neuron as int] == 0 {
                nil.at_most(x)
            } else {
                x.at_most(nil)
            }
        },
        Tensor::InputWeight => lies(x, (Scalar { bits: 0 }), l.weight_max),
        Tensor::OutputBias => true,
        _ => lies(x, l.weight_min, l.weight_max),
    }
}

/// Every worker is heard in a merge: a parameter that workers changed moves by the mean, over all
/// workers of the batch, of a list that holds the change of each of them and no others, as long as
/// that leaves it a value that it may have; one that nobody changed stays as it is.
pub proof fn law_merges_hear_every_worker<
    T: Numerics,
    G: Fn(Scalar, Vec<Scalar>, usize) -> Scalar,
>(
    ops: T,
    g: G,
    before: Model,
    deltas: Seq<SparseModelDelta>,
    fingerprint: ConfigFingerprint,
    alphabet: Alphabet,
    after: Model,
    metrics: MergeMetrics,
    k: int,
    index: int,
)
    requires
        reduction_result(
            ops,
            g,
            before,
            deltas,
            fingerprint,
            alphabet,
            after,
            Ok::<MergeMetrics, LeoError>(metrics),
        ),
        0 <= k < TENSOR_COUNT,
        0 <= index < tensor_of(before, tensor_at(k)).len(),
    ensures
        ({
            let t = tensor_at(k);
            let x = tensor_of(after, t)[index];
            if workers_said_at(deltas, t, index) == 0 {
                allowed(before, t, index, tensor_of(before, t)[index]) ==> x == tensor_of(
                    before,
                    t,
                )[index]
            } else {
                exists|list: Vec<Scalar>, y: Scalar|
                    {
                        &&& #[trigger] call_ensures(
                            g,
                            (tensor_of(before, t)[index], list, deltas.len() as usize),
                            y,
                        )
                        &&& list@.len() == workers_said_at(deltas, t, index)
                        &&& forall|w: int, j: int|
                            0 <= w < deltas.len() && 0 <= j < updates_of(deltas[w], t).len() && (
                            #[trigger] updates_of(deltas[w], t)[j]).index == index
                                ==> list@.contains(updates_of(deltas[w], t)[j].delta)
                        &&& allowed(before, t, index, y) ==> x == y
                    }
            }
        }),
{
    let (first, second, third) = lemma_batch(
        ops,
        g,
        before,
        deltas,
        fingerprint,
        alphabet,
        after,
        metrics,
    );
    let t = tensor_at(k);
    assert(tensor_done(g, before, deltas, first, k));
    let c = choose|c: usize| #[trigger]
        tensor_result(g, before, deltas, first, k, Ok::<usize, LeoError>(c));
    assert(tensor_result(g, before, deltas, first, k, Ok::<usize, LeoError>(c)));
    lemma_contributions_of_all(deltas, t, index);
    let flat = all_updates(deltas, t);
    let y = tensor_of(first, t)[index];
    assert(tensor_of(third, t) == tensor_of(first, t));
    assert(allowed(before, t, index, y) ==> tensor_of(after, t)[index] == y);
    if contributed(flat, index) {
        assert(means(
            g,
            tensor_of(before, t)[index],
            contributions(flat, index),
            deltas.len() as usize,
            y,
        ));
        let v = choose|v: Vec<Scalar>|
            v@ == contributions(flat, index) && #[trigger] call_ensures(
                g,
                (tensor_of(before, t)[index], v, deltas.len() as usize),
                y,
            );
        assert(call_ensures(g, (tensor_of(before, t)[index], v, deltas.len() as usize), y));
    }
}

/// Where memory is short, contexts that were seen more often come first: the fingerprints that the
/// workers name are merged in an order in which the workers together observed none more often than
/// one before it, and each is merged once.
pub proof fn law_the_most_observed_merge_first(
    flat: Seq<crate::parallel::KeyedRow>,
    deltas: Seq<SparseModelDelta>,
    entries: Seq<ContextEntry>,
    j: int,
    k: int,
)
    requires
        flat == all_rows(deltas),
        entries_ranked(flat, entries),
        0 <= j < k < entries.len(),
        workers_observed(deltas, entries[j].order, entries[j].key) <= u64::MAX,
        workers_observed(deltas, entries[k].order, entries[k].key) <= u64::MAX,
    ensures
        workers_observed(deltas, entries[j].order, entries[j].key) >= workers_observed(
            deltas,
            entries[k].order,
            entries[k].key,
        ),
        entries[j].order != entries[k].order || entries[j].key != entries[k].key,
{
    lemma_workers_observed(deltas, entries[j].order, entries[j].key);
    lemma_workers_observed(deltas, entries[k].order, entries[k].key);
}

} // verus!
