//! How far inhibition and thresholds are moved to hold activity at its target.

use crate::arithmetic::Numerics;
use crate::config::DynamicsConfig;
use crate::dynamics::{inhibition_after, share};
use crate::learning::{bounded, nought, unit};
use crate::learning_laws::lemma_passed_once;
use crate::lesson_laws::lemma_inhibitory_places;
use crate::lesson_parts::balanced;
use crate::model::Model;
use crate::order::{
    alike, lemma_difference_with_zero, lemma_ones, lemma_product_with_one_and_zero,
    lemma_same_bits, lemma_sum_with_zero, minus_one, mirrored, orderly, zero,
};
use crate::plasticity::{
    inhibitory_proposal, inhibitory_slots, pass_of, passed, threshold_proposal,
    HIGHEST_THRESHOLD_BITS, LOWEST_THRESHOLD_BITS,
};
use crate::runtime::{all_below, lemma_place, Runtime};
use crate::scalar::Scalar;
use crate::step::thresholds_moved;
use vstd::prelude::*;

verus! {

/// The synapses of an inhibitory active neuron are among those that are balanced, each of them once.
proof fn lemma_inhibitory_slots_once(m: Model, active: Seq<usize>, upto: int, neurons: int)
    requires
        0 <= upto <= active.len(),
        all_below(active, neurons),
        active.no_duplicates(),
        0 < m.recurrent.capacity_per_neuron,
        m.recurrent.weight@.len() == neurons * m.recurrent.capacity_per_neuron,
        m.recurrent.weight@.len() <= usize::MAX,
    ensures
        inhibitory_slots(m, active, upto).no_duplicates(),
        forall|i: int|
            0 <= i < inhibitory_slots(m, active, upto).len() ==> active.take(upto).contains(
                (#[trigger] inhibitory_slots(m, active, upto)[i]
                    / m.recurrent.capacity_per_neuron) as usize,
            ),
        forall|i: int, k: int|
            0 <= i < upto && 0 <= k < m.recurrent.capacity_per_neuron
                && m.neurons.neuron_type[active[i] as int] != 0 ==> inhibitory_slots(
                m,
                active,
                upto,
            ).contains((#[trigger] slot_of(m, active[i] as int, k)) as usize),
    decreases upto,
{
    let all = inhibitory_slots(m, active, upto);
    if upto > 0 {
        lemma_inhibitory_slots_once(m, active, upto - 1, neurons);
        let before = inhibitory_slots(m, active, upto - 1);
        let source = active[upto - 1];
        let capacity = m.recurrent.capacity_per_neuron as int;
        let earlier = active.take(upto - 1);
        let now = active.take(upto);
        assert(now =~= earlier.push(source));
        assert(now[upto - 1] == source);
        assert(!earlier.contains(source)) by {
            if earlier.contains(source) {
                let j = choose|j: int| 0 <= j < earlier.len() && earlier[j] == source;
                assert(active[j] == active[upto - 1]);
            }
        }
        assert forall|x: usize| earlier.contains(x) implies now.contains(x) by {
            let j = choose|j: int| 0 <= j < earlier.len() && earlier[j] == x;
            assert(now[j] == x);
        }
        if m.neurons.neuron_type[source as int] != 0 {
            assert forall|k: int| 0 <= k < capacity implies ({
                let slot = #[trigger] slot_of(m, source as int, k);
                0 <= slot <= usize::MAX && slot / capacity == source && all[before.len() + k]
                    == slot
            }) by {
                lemma_place(source as int, k, neurons, capacity);
            }
            assert forall|i: int| 0 <= i < all.len() implies now.contains(
                (#[trigger] all[i] / m.recurrent.capacity_per_neuron) as usize,
            ) by {
                if i < before.len() {
                    assert(all[i] == before[i]);
                } else {
                    let slot = slot_of(m, source as int, i - before.len());
                    assert(all[i] == slot);
                }
            }
            assert forall|i: int, j: int| 0 <= i < j < all.len() implies all[i] != all[j] by {
                if j < before.len() {
                    assert(all[i] == before[i] && all[j] == before[j]);
                } else if i < before.len() {
                    assert(all[i] == before[i]);
                    let slot = slot_of(m, source as int, j - before.len());
                    assert(all[j] == slot);
                    assert(earlier.contains((before[i] / m.recurrent.capacity_per_neuron) as usize));
                } else {
                    let one = slot_of(m, source as int, i - before.len());
                    let other = slot_of(m, source as int, j - before.len());
                    assert(all[i] == one && all[j] == other);
                }
            }
        } else {
            assert(all == before);
        }
        assert forall|i: int, k: int|
            0 <= i < upto && 0 <= k < capacity && m.neurons.neuron_type[active[i] as int]
                != 0 implies all.contains((#[trigger] slot_of(m, active[i] as int, k)) as usize) by {
            let slot = slot_of(m, active[i] as int, k);
            if i < upto - 1 {
                assert(before.contains(slot as usize));
                let j = choose|j: int| 0 <= j < before.len() && before[j] == slot as usize;
                assert(all[j] == slot as usize);
            } else {
                assert(all[before.len() + k] == slot);
            }
        }
    }
}

/// The place of a synapse of a neuron.
pub open spec fn slot_of(m: Model, neuron: int, k: int) -> int {
    neuron * m.recurrent.capacity_per_neuron + k
}

/// Overactive targets make inhibition stronger in proportion: a weight of zero from an active
/// inhibitory neuron onto an active one becomes the opposite of the learning rate, of the strength or
/// of the activation that the inhibition came from, within the bounds, where the others are one and
/// no activity is wanted. A silent target leaves it as it is.
pub proof fn law_inhibition_is_balanced_in_proportion<T: Numerics>(
    ops: T,
    b: Runtime,
    strength: Scalar,
    a: Runtime,
    i: int,
    k: int,
    free: Scalar,
)
    requires
        orderly(ops),
        balanced(ops, b, strength, a, true),
        all_below(b.active@, b.size()),
        b.active@.no_duplicates(),
        0 < b.model.recurrent.capacity_per_neuron,
        b.model.recurrent.weight@.len() == b.size() * b.model.recurrent.capacity_per_neuron,
        b.model.recurrent.weight@.len() <= usize::MAX,
        0 <= i < b.active@.len(),
        0 <= k < b.model.recurrent.capacity_per_neuron,
        b.model.neurons.neuron_type[b.active@[i] as int] != 0,
        zero(b.model.recurrent.weight@[slot_of(b.model, b.active@[i] as int, k)]),
        zero(b.model.config.dynamics.target_activity),
        nought().below(free),
        free.finite(),
        ({
            let rate = b.model.config.learning.inhibitory_learning_rate;
            let source = b.state.activation@[b.active@[i] as int];
            ||| rate == free && strength == unit() && source == unit()
            ||| rate == unit() && strength == free && source == unit()
            ||| rate == unit() && strength == unit() && source == free
        }),
        free.at_most(b.model.config.learning.max_update),
        b.model.config.learning.weight_min.at_most(free.opposite()),
    ensures
        ({
            let slot = slot_of(b.model, b.active@[i] as int, k);
            let seen = b.state.activation@[b.model.recurrent.target_neuron@[slot] as int];
            &&& nought().below(seen) ==> mirrored(a.model.recurrent.weight@[slot], free)
            &&& !nought().below(seen) ==> zero(a.model.recurrent.weight@[slot])
        }),
{
    reveal(balanced);
    let m = b.model;
    let capacity = m.recurrent.capacity_per_neuron as int;
    let l = m.config.learning;
    let rule = inhibitory_proposal(
        ops,
        m,
        b.state.activation@,
        m.config.dynamics.target_activity,
        l.inhibitory_learning_rate,
        strength,
        l.max_update,
        l.weight_min,
    );
    let n = b.active@.len() as int;
    let places = inhibitory_slots(m, b.active@, n);
    let start = pass_of(m.recurrent.weight@, b.tracker.recurrent_weight);
    let slot = slot_of(m, b.active@[i] as int, k);
    lemma_inhibitory_places(m, b.active@, n, b.size());
    lemma_inhibitory_slots_once(m, b.active@, n, b.size());
    lemma_place(b.active@[i] as int, k, b.size(), capacity);
    assert(places.contains(slot as usize));
    let at = choose|j: int| 0 <= j < places.len() && places[j] == slot as usize;
    lemma_passed_once(rule, places, start, b.tracker.enabled, places.len() as int, at);
    let w = passed(rule, places, start, b.tracker.enabled, at).weights;
    let rate = l.inhibitory_learning_rate;
    let source = b.state.activation@[b.active@[i] as int];
    let down = free.opposite();
    assert(!zero(free) && !zero(down) && !zero(unit()) && !zero(minus_one()));
    assert(down.finite() && !down.nan());
    lemma_ones(ops, free);
    lemma_ones(ops, down);
    lemma_ones(ops, unit());
    let pull = ops.product(ops.product(rate.opposite(), strength), source);
    assert(pull == down);
    let desired = m.config.dynamics.target_activity;
    lemma_difference_with_zero(ops, unit(), desired);
    lemma_same_bits(ops.difference(unit(), desired), unit());
    lemma_difference_with_zero(ops, nought(), desired);
    lemma_product_with_one_and_zero(ops, down, ops.difference(nought(), desired));
    lemma_sum_with_zero(ops, down, w[slot]);
    let none = ops.product(pull, ops.difference(nought(), desired));
    assert(zero(none));
    assert(zero(bounded(none, l.max_update)));
    lemma_sum_with_zero(ops, bounded(none, l.max_update), w[slot]);
}

/// A neuron's threshold rises by what the neuron and the population are more active than they should
/// be, times the rate: a threshold of zero takes on the rate where the neuron is active and the
/// population as it should be, and the excess of the population where the rate is one and the neuron
/// silent, as far as they lie within the bounds of a threshold.
pub proof fn law_thresholds_are_balanced_in_proportion<T: Numerics>(
    ops: T,
    b: Runtime,
    a: Runtime,
    k: int,
    free: Scalar,
)
    requires
        orderly(ops),
        thresholds_moved(ops, b, a),
        all_below(b.touched.list@, b.model.neurons.threshold@.len() as int),
        b.touched.list@.no_duplicates(),
        0 <= k < b.touched.list@.len(),
        zero(b.model.neurons.threshold@[b.touched.list@[k] as int]),
        zero(b.model.config.dynamics.target_activity),
        free.finite(),
        (Scalar { bits: LOWEST_THRESHOLD_BITS }).at_most(free),
        free.at_most((Scalar { bits: HIGHEST_THRESHOLD_BITS })),
        nought().below(free),
    ensures
        ({
            let d = b.model.config.dynamics;
            let n = b.touched.list@[k] as int;
            let crowd = share(ops, b.active@.len() as int, b.size());
            let lively = nought().below(b.state.activation@[n]);
            let after = a.model.neurons.threshold@[n];
            &&& lively && zero(crowd) && d.threshold_homeostasis_rate == free ==> alike(after, free)
            &&& !lively && crowd == free && d.threshold_homeostasis_rate == unit() ==> alike(
                after,
                free,
            )
        }),
{
    reveal(thresholds_moved);
    let d = b.model.config.dynamics;
    let n = b.touched.list@[k] as int;
    let crowd = share(ops, b.active@.len() as int, b.size());
    let population = ops.difference(crowd, d.target_activity);
    let rule = threshold_proposal(
        ops,
        b.state.activation@,
        d.target_activity,
        d.threshold_homeostasis_rate,
        population,
    );
    let places = b.touched.list@;
    let start = pass_of(b.model.neurons.threshold@, b.tracker.threshold);
    lemma_passed_once(rule, places, start, b.tracker.enabled, places.len() as int, k);
    let w = passed(rule, places, start, b.tracker.enabled, k).weights;
    assert(!zero(free) && !free.nan() && !zero(unit()) && !unit().nan());
    lemma_ones(ops, free);
    lemma_difference_with_zero(ops, unit(), d.target_activity);
    lemma_difference_with_zero(ops, nought(), d.target_activity);
    let own = ops.difference(unit(), d.target_activity);
    let none = ops.difference(nought(), d.target_activity);
    lemma_same_bits(own, unit());
    if zero(crowd) {
        lemma_difference_with_zero(ops, crowd, d.target_activity);
        lemma_sum_with_zero(ops, unit(), population);
        lemma_same_bits(ops.sum(own, population), unit());
    }
    if crowd == free {
        lemma_difference_with_zero(ops, free, d.target_activity);
        lemma_same_bits(population, free);
        lemma_sum_with_zero(ops, free, none);
        lemma_same_bits(ops.sum(none, population), free);
    }
    lemma_sum_with_zero(ops, free, w[n]);
}

/// Population inhibition grows by what the population is more active than it should be, times the
/// rate: from zero it takes on the excess where the rate is one, and the rate where all neurons are
/// active and none should be, up to its maximum.
pub proof fn law_population_inhibition_grows_in_proportion<T: Numerics>(
    ops: T,
    d: DynamicsConfig,
    inhibition: Scalar,
    active: int,
    neurons: int,
    free: Scalar,
)
    requires
        orderly(ops),
        zero(inhibition),
        zero(d.target_activity),
        free.finite(),
        nought().below(free),
        free.at_most(d.population_inhibition_max),
    ensures
        share(ops, active, neurons) == free && d.population_inhibition_rate == unit() ==> alike(
            inhibition_after(ops, d, inhibition, active, neurons),
            free,
        ),
        share(ops, active, neurons) == unit() && d.population_inhibition_rate == free ==> alike(
            inhibition_after(ops, d, inhibition, active, neurons),
            free,
        ),
{
    let crowd = share(ops, active, neurons);
    assert(!zero(free) && !free.nan() && !zero(unit()) && !unit().nan());
    if crowd == free || crowd == unit() {
        lemma_difference_with_zero(ops, crowd, d.target_activity);
        lemma_same_bits(ops.difference(crowd, d.target_activity), crowd);
    }
    lemma_ones(ops, free);
    lemma_sum_with_zero(ops, free, inhibition);
}

} // verus!
