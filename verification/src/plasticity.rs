//! Learning from a target: which weights change, by how much, and what is noted of it.

use crate::arithmetic::Numerics;
use crate::learning::{
    balancing, bounded, bounded_delta, inhibitory_homeostasis_delta, nought, unit,
};
use crate::marks::{marked_once, MarkList};
use crate::metrics::WideScalar;
use crate::model::{lemma_row_fits, Model};
use crate::prediction::{dot, row_dot};
use crate::runtime::{all_below, lemma_place, note, transposed};
use crate::scalar::Scalar;
use vstd::prelude::*;

verus! {

/// The bits of the lowest threshold.
pub const LOWEST_THRESHOLD_BITS: u32 = 0x3d4c_cccd;

/// The bits of the highest threshold.
pub const HIGHEST_THRESHOLD_BITS: u32 = 0x4000_0000;

/// Some weights, and which of them have changed.
#[verifier::ext_equal]
pub struct WeightPass {
    pub weights: Seq<Scalar>,
    pub list: Seq<usize>,
    pub mark: Seq<bool>,
}

/// A weight gets a new value; where changes are tracked, one that differs is noted.
pub open spec fn entered(p: WeightPass, place: int, value: Scalar, enabled: bool) -> WeightPass {
    let (list, mark) = if enabled && value.unequal(p.weights[place]) {
        marked_once(p.list, p.mark, place as usize)
    } else {
        (p.list, p.mark)
    };
    WeightPass { weights: p.weights.update(place, value), list, mark }
}

/// The weights after the first `upto` places got what `propose` says of them.
pub open spec fn passed(
    propose: spec_fn(Seq<Scalar>, int) -> Scalar,
    places: Seq<usize>,
    p: WeightPass,
    enabled: bool,
    upto: int,
) -> WeightPass
    decreases upto,
{
    if upto <= 0 {
        p
    } else {
        let before = passed(propose, places, p, enabled, upto - 1);
        let place = places[upto - 1] as int;
        entered(before, place, propose(before.weights, place), enabled)
    }
}

/// What is proposed for the `i`-th place is a finite number.
pub open spec fn sound_at(
    propose: spec_fn(Seq<Scalar>, int) -> Scalar,
    places: Seq<usize>,
    p: WeightPass,
    enabled: bool,
    i: int,
) -> bool {
    propose(passed(propose, places, p, enabled, i).weights, places[i] as int).finite()
}

/// The pass stops at the `i`-th place, the first for which no finite number is proposed.
pub open spec fn stops_at(
    propose: spec_fn(Seq<Scalar>, int) -> Scalar,
    places: Seq<usize>,
    p: WeightPass,
    enabled: bool,
    i: int,
) -> bool {
    &&& 0 <= i < places.len()
    &&& !sound_at(propose, places, p, enabled, i)
    &&& forall|k: int| 0 <= k < i ==> #[trigger] sound_at(propose, places, p, enabled, k)
}

/// A pass over some places: every place gets a finite number, or the pass stops before the first
/// that would not.
pub open spec fn pass_ends(
    propose: spec_fn(Seq<Scalar>, int) -> Scalar,
    places: Seq<usize>,
    p: WeightPass,
    enabled: bool,
    after: WeightPass,
    whole: bool,
) -> bool {
    if whole {
        &&& after == passed(propose, places, p, enabled, places.len() as int)
        &&& forall|k: int|
            0 <= k < places.len() ==> #[trigger] sound_at(propose, places, p, enabled, k)
    } else {
        exists|i: int|
            #[trigger] stops_at(propose, places, p, enabled, i) && after == passed(
                propose,
                places,
                p,
                enabled,
                i,
            )
    }
}

/// Weights and the list of the changed ones.
pub open spec fn pass_of(weights: Seq<Scalar>, list: MarkList) -> WeightPass {
    WeightPass { weights, list: list.list@, mark: list.mark@ }
}

/// A weight gets a new value.
fn enter(weights: &mut Vec<Scalar>, list: &mut MarkList, enabled: bool, place: usize, value: Scalar)
    requires
        place < old(weights).len(),
        old(list).wf(),
        enabled ==> old(list).capacity() == old(weights).len(),
    ensures
        final(weights).len() == old(weights).len(),
        final(list).wf(),
        final(list).capacity() == old(list).capacity(),
        pass_of(final(weights)@, *final(list)) == entered(
            pass_of(old(weights)@, *old(list)),
            place as int,
            value,
            enabled,
        ),
{
    if value.ne_value(weights[place]) {
        note(enabled, list, place);
    }
    weights.set(place, value);
    assert(pass_of(weights@, *list) =~= entered(
        pass_of(old(weights)@, *old(list)),
        place as int,
        value,
        enabled,
    ));
}

/// How wrong each class was predicted.
pub open spec fn errors_of<T: Numerics>(ops: T, probabilities: Seq<Scalar>, target: int) -> Seq<
    Scalar,
> {
    probabilities.update(target, ops.difference(probabilities[target], unit()))
}

/// How wrong each class was predicted.
pub fn prediction_errors<T: Numerics>(ops: &T, probabilities: &Vec<Scalar>, target: usize) -> (r: Vec<
    Scalar,
>)
    requires
        ops.ready(),
        target < probabilities.len(),
    ensures
        r@ == errors_of(*ops, probabilities@, target as int),
        r.len() == probabilities.len(),
{
    let mut r: Vec<Scalar> = Vec::new();
    let mut i: usize = 0;
    while i < probabilities.len()
        invariant
            i <= probabilities.len(),
            r@ == probabilities@.take(i as int),
        decreases probabilities.len() - i,
    {
        r.push(probabilities[i]);
        i = i + 1;
        assert(r@ =~= probabilities@.take(i as int));
    }
    assert(r@ =~= probabilities@);
    let error: Scalar = ops.minus(r[target], Scalar::one());
    r.set(target, error);
    r
}

/// The neurons that some synapses reach.
pub open spec fn ends_of(slots: Seq<usize>, targets: Seq<u32>) -> Seq<usize> {
    Seq::new(slots.len(), |i: int| targets[slots[i] as int] as usize)
}

/// The neurons that some synapses reach.
pub fn list_ends(slots: &Vec<usize>, targets: &Vec<u32>) -> (r: Vec<usize>)
    requires
        all_below(slots@, targets.len() as int),
    ensures
        r@ == ends_of(slots@, targets@),
{
    let mut r: Vec<usize> = Vec::new();
    let mut i: usize = 0;
    while i < slots.len()
        invariant
            i <= slots.len(),
            all_below(slots@, targets.len() as int),
            r@ == ends_of(slots@, targets@).take(i as int),
        decreases slots.len() - i,
    {
        let slot: usize = slots[i];
        r.push(targets[slot] as usize);
        i = i + 1;
        assert(r@ =~= ends_of(slots@, targets@).take(i as int));
    }
    assert(r@ =~= ends_of(slots@, targets@));
    r
}

/// The signals after the first `upto` neurons of a list were given theirs: the errors of the
/// classes, weighed by how the neuron speaks for them.
pub open spec fn signals<T: Numerics>(
    ops: T,
    signal: Seq<Scalar>,
    weights_by_neuron: Seq<Scalar>,
    errors: Seq<Scalar>,
    list: Seq<usize>,
    upto: int,
) -> Seq<Scalar>
    decreases upto,
{
    if upto <= 0 {
        signal
    } else {
        let neuron = list[upto - 1] as int;
        let classes = errors.len() as int;
        signals(ops, signal, weights_by_neuron, errors, list, upto - 1).update(
            neuron,
            dot(ops, weights_by_neuron, neuron * classes, errors, classes),
        )
    }
}

/// Gives the neurons of a list their signals.
pub fn spread_errors<T: Numerics>(
    ops: &T,
    signal: &mut Vec<Scalar>,
    weights_by_neuron: &Vec<Scalar>,
    errors: &Vec<Scalar>,
    list: &Vec<usize>,
)
    requires
        ops.ready(),
        all_below(list@, old(signal).len() as int),
        weights_by_neuron.len() == old(signal).len() * errors.len(),
    ensures
        final(signal)@ == signals(
            *ops,
            old(signal)@,
            weights_by_neuron@,
            errors@,
            list@,
            list@.len() as int,
        ),
        final(signal).len() == old(signal).len(),
{
    let mut i: usize = 0;
    while i < list.len()
        invariant
            i <= list.len(),
            ops.ready(),
            signal.len() == old(signal).len(),
            all_below(list@, signal.len() as int),
            weights_by_neuron.len() == signal.len() * errors.len(),
            signal@ == signals(
                *ops,
                old(signal)@,
                weights_by_neuron@,
                errors@,
                list@,
                i as int,
            ),
        decreases list.len() - i,
    {
        let neuron: usize = list[i];
        proof {
            lemma_row_fits(neuron as int, signal.len() as int, errors.len() as int);
        }
        let value: Scalar = row_dot(ops, weights_by_neuron, neuron * errors.len(), errors);
        signal.set(neuron, value);
        i = i + 1;
    }
}

/// The signals after those of a list were taken back.
pub open spec fn quieted(signal: Seq<Scalar>, list: Seq<usize>, upto: int) -> Seq<Scalar>
    decreases upto,
{
    if upto <= 0 {
        signal
    } else {
        quieted(signal, list, upto - 1).update(list[upto - 1] as int, nought())
    }
}

/// Takes the signals of a list back.
pub fn quiet(signal: &mut Vec<Scalar>, list: &Vec<usize>)
    requires
        all_below(list@, old(signal).len() as int),
    ensures
        final(signal)@ == quieted(old(signal)@, list@, list@.len() as int),
        final(signal).len() == old(signal).len(),
{
    let mut i: usize = 0;
    while i < list.len()
        invariant
            i <= list.len(),
            signal.len() == old(signal).len(),
            all_below(list@, signal.len() as int),
            signal@ == quieted(old(signal)@, list@, i as int),
        decreases list.len() - i,
    {
        let neuron: usize = list[i];
        signal.set(neuron, Scalar::zero());
        i = i + 1;
    }
}

/// The bounds of a change and of what is changed.
#[derive(Debug, Clone, Copy, PartialEq, Eq, Structural)]
pub struct Bounds {
    pub update: Scalar,
    pub low: Scalar,
    pub high: Scalar,
}

/// A weight after a bounded change.
pub open spec fn nudged<T: Numerics>(ops: T, weight: Scalar, change: Scalar, b: Bounds) -> Scalar {
    ops.sum(weight, bounded(change, b.update)).confined(b.low, b.high)
}

/// A weight after a bounded change.
pub fn nudge<T: Numerics>(ops: &T, weight: Scalar, change: Scalar, b: &Bounds) -> (r: Scalar)
    requires
        ops.ready(),
        nought().at_most(b.update),
    ensures
        r == nudged(*ops, weight, change, *b),
{
    ops.plus(weight, bounded_delta(change, b.update)).clamp_to(b.low, b.high)
}

/// The output weight of a class and a neuron after a change.
pub open spec fn output_proposal<T: Numerics>(
    ops: T,
    rate: Scalar,
    errors: Seq<Scalar>,
    activation: Seq<Scalar>,
    b: Bounds,
) -> spec_fn(Seq<Scalar>, int) -> Scalar {
    let neurons = activation.len() as int;
    |w: Seq<Scalar>, place: int|
        nudged(
            ops,
            w[place],
            ops.product(ops.product(rate, errors[place / neurons]), activation[place % neurons]),
            b,
        )
}

/// The places of the output weights of the active neurons, neuron by neuron.
pub open spec fn readout_places(active: Seq<usize>, neurons: int, classes: int) -> Seq<usize> {
    Seq::new(
        (active.len() * classes) as nat,
        |i: int| ((i % classes) * neurons + active[i / classes]) as usize,
    )
}

/// Nothing is noted.
pub open spec fn unlisted(weights: Seq<Scalar>) -> WeightPass {
    WeightPass { weights, list: Seq::empty(), mark: Seq::empty() }
}

proof fn lemma_passed_len(
    propose: spec_fn(Seq<Scalar>, int) -> Scalar,
    places: Seq<usize>,
    p: WeightPass,
    enabled: bool,
    upto: int,
)
    requires
        upto <= places.len(),
        all_below(places, p.weights.len() as int),
    ensures
        passed(propose, places, p, enabled, upto).weights.len() == p.weights.len(),
    decreases upto,
{
    if upto > 0 {
        lemma_passed_len(propose, places, p, enabled, upto - 1);
    }
}

/// One place of the neuron-major layout follows one place of the output-major layout.
proof fn lemma_transposed_update(
    weights: Seq<Scalar>,
    neurons: int,
    classes: int,
    neuron: int,
    class: int,
    value: Scalar,
)
    requires
        0 <= neuron < neurons,
        0 <= class < classes,
        weights.len() == classes * neurons,
    ensures
        0 <= class * neurons + neuron < weights.len(),
        0 <= neuron * classes + class < neurons * classes,
        transposed(weights.update(class * neurons + neuron, value), neurons, classes)
            == transposed(weights, neurons, classes).update(neuron * classes + class, value),
{
    lemma_place(class, neuron, classes, neurons);
    lemma_place(neuron, class, neurons, classes);
    let left = transposed(weights.update(class * neurons + neuron, value), neurons, classes);
    let right = transposed(weights, neurons, classes).update(neuron * classes + class, value);
    assert forall|i: int| 0 <= i < neurons * classes implies left[i] == right[i] by {
        let n = i / classes;
        let c = i % classes;
        vstd::arithmetic::div_mod::lemma_fundamental_div_mod(i, classes);
        vstd::arithmetic::div_mod::lemma_mod_bound(i, classes);
        assert(classes * n == n * classes) by (nonlinear_arith);
        assert(0 <= n < neurons) by (nonlinear_arith)
            requires
                0 <= i < neurons * classes,
                i == n * classes + c,
                0 <= c < classes,
        ;
        lemma_place(c, n, classes, neurons);
        if c * neurons + n == class * neurons + neuron {
            lemma_place(class, neuron, classes, neurons);
            assert(c == class && n == neuron) by {
                assert((c * neurons + n) / neurons == c);
                assert((class * neurons + neuron) / neurons == class);
            }
        } else if i == neuron * classes + class {
            assert((neuron * classes + class) / classes == neuron);
            assert((neuron * classes + class) % classes == class);
        }
    }
    assert(left =~= right);
}

/// Learns the output weights of the active neurons, in both layouts.
pub fn update_output_weights<T: Numerics>(
    ops: &T,
    weights: &mut Vec<Scalar>,
    weights_by_neuron: &mut Vec<Scalar>,
    active: &Vec<usize>,
    activation: &Vec<Scalar>,
    errors: &Vec<Scalar>,
    rate: Scalar,
    b: &Bounds,
)
    requires
        ops.ready(),
        nought().at_most(b.update),
        all_below(active@, activation.len() as int),
        active.len() <= activation.len(),
        old(weights).len() == errors.len() * activation.len(),
        old(weights_by_neuron)@ == transposed(
            old(weights)@,
            activation.len() as int,
            errors.len() as int,
        ),
    ensures
        unlisted(final(weights)@) == passed(
            output_proposal(*ops, rate, errors@, activation@, *b),
            readout_places(active@, activation.len() as int, errors.len() as int),
            unlisted(old(weights)@),
            false,
            active.len() * errors.len(),
        ),
        final(weights).len() == old(weights).len(),
        final(weights_by_neuron)@ == transposed(
            final(weights)@,
            activation.len() as int,
            errors.len() as int,
        ),
{
    let neurons: usize = activation.len();
    let classes: usize = errors.len();
    let ghost propose = output_proposal(*ops, rate, errors@, activation@, *b);
    let ghost places = readout_places(active@, neurons as int, classes as int);
    let ghost start = unlisted(weights@);
    let ghost mut done: int = 0;
    let mut i: usize = 0;
    while i < active.len()
        invariant
            i <= active.len(),
            ops.ready(),
            nought().at_most(b.update),
            neurons == activation.len(),
            classes == errors.len(),
            all_below(active@, neurons as int),
            propose == output_proposal(*ops, rate, errors@, activation@, *b),
            places == readout_places(active@, neurons as int, classes as int),
            done == i * classes,
            weights.len() == classes * neurons,
            weights.len() == old(weights).len(),
            unlisted(weights@) == passed(propose, places, start, false, done),
            weights_by_neuron@ == transposed(weights@, neurons as int, classes as int),
        decreases active.len() - i,
    {
        let neuron: usize = active[i];
        let a: Scalar = activation[neuron];
        let mut o: usize = 0;
        assert(i * classes + 0 == done);
        while o < classes
            invariant
                o <= classes,
                i < active.len(),
                ops.ready(),
                nought().at_most(b.update),
                neurons == activation.len(),
                classes == errors.len(),
                all_below(active@, neurons as int),
                neuron == active@[i as int],
                a == activation@[neuron as int],
                neuron < neurons,
                propose == output_proposal(*ops, rate, errors@, activation@, *b),
                places == readout_places(active@, neurons as int, classes as int),
                done == i * classes + o,
                weights.len() == classes * neurons,
                weights.len() == old(weights).len(),
                unlisted(weights@) == passed(propose, places, start, false, done),
                weights_by_neuron@ == transposed(weights@, neurons as int, classes as int),
            decreases classes - o,
        {
            proof {
                lemma_place(o as int, neuron as int, classes as int, neurons as int);
                lemma_place(neuron as int, o as int, neurons as int, classes as int);
                lemma_place(i as int, o as int, active.len() as int, classes as int);
                assert(0 <= o * neurons) by (nonlinear_arith);
                assert(0 <= neuron * classes) by (nonlinear_arith);
                assert(neurons * classes == classes * neurons) by (nonlinear_arith);
            }
            let place: usize = o * neurons + neuron;
            let change: Scalar = ops.times(ops.times(rate, errors[o]), a);
            let value: Scalar = nudge(ops, weights[place], change, b);
            proof {
                lemma_transposed_update(
                    weights@,
                    neurons as int,
                    classes as int,
                    neuron as int,
                    o as int,
                    value,
                );
                assert(places[done] == place);
                assert(value == propose(weights@, place as int));
            }
            let ghost before = weights@;
            weights.set(place, value);
            weights_by_neuron.set(neuron * classes + o, value);
            o = o + 1;
            proof {
                done = done + 1;
                assert(unlisted(weights@) =~= entered(
                    unlisted(before),
                    place as int,
                    value,
                    false,
                ));
            }
        }
        assert((i + 1) * classes == i * classes + classes) by (nonlinear_arith);
        i = i + 1;
    }
}

/// A bias after a change.
pub open spec fn bias_proposal<T: Numerics>(
    ops: T,
    rate: Scalar,
    errors: Seq<Scalar>,
    maximum: Scalar,
) -> spec_fn(Seq<Scalar>, int) -> Scalar {
    |w: Seq<Scalar>, class: int|
        ops.sum(w[class], bounded(ops.product(rate, errors[class]), maximum))
}

/// The first places of a list.
pub open spec fn count_up(n: int) -> Seq<usize> {
    Seq::new(n as nat, |i: int| i as usize)
}

/// Learns the biases. The first that is not finite afterwards is given, and none after it is
/// changed.
pub fn update_output_bias<T: Numerics>(
    ops: &T,
    bias: &mut Vec<Scalar>,
    errors: &Vec<Scalar>,
    rate: Scalar,
    maximum: Scalar,
) -> (r: Option<usize>)
    requires
        ops.ready(),
        nought().at_most(maximum),
        old(bias).len() == errors.len(),
    ensures
        final(bias).len() == old(bias).len(),
        ({
            let propose = bias_proposal(*ops, rate, errors@, maximum);
            let places = count_up(errors.len() as int);
            let start = unlisted(old(bias)@);
            match r {
                None => pass_ends(propose, places, start, false, unlisted(final(bias)@), true),
                Some(class) => stops_at(propose, places, start, false, class as int) && unlisted(
                    final(bias)@,
                ) == passed(propose, places, start, false, class + 1),
            }
        }),
{
    let ghost propose = bias_proposal(*ops, rate, errors@, maximum);
    let ghost places = count_up(errors.len() as int);
    let ghost start = unlisted(bias@);
    let mut o: usize = 0;
    while o < errors.len()
        invariant
            o <= errors.len(),
            ops.ready(),
            nought().at_most(maximum),
            bias.len() == errors.len(),
            bias.len() == old(bias).len(),
            start == unlisted(old(bias)@),
            propose == bias_proposal(*ops, rate, errors@, maximum),
            places == count_up(errors.len() as int),
            unlisted(bias@) == passed(propose, places, start, false, o as int),
            forall|k: int| 0 <= k < o ==> #[trigger] sound_at(propose, places, start, false, k),
        decreases errors.len() - o,
    {
        let change: Scalar = bounded_delta(ops.times(rate, errors[o]), maximum);
        let value: Scalar = ops.plus(bias[o], change);
        let ghost before = bias@;
        proof {
            assert(places[o as int] == o);
            assert(value == propose(before, o as int));
            assert(sound_at(propose, places, start, false, o as int) == value.finite());
        }
        bias.set(o, value);
        assert(unlisted(bias@) =~= entered(unlisted(before), o as int, value, false));
        assert(unlisted(bias@) == passed(propose, places, start, false, o + 1));
        if !value.is_finite() {
            assert(stops_at(propose, places, start, false, o as int));
            return Some(o);
        }
        o = o + 1;
    }
    None
}

/// A pass that runs over a list of synapses, as far as it has come.
pub open spec fn pass_so_far(
    propose: spec_fn(Seq<Scalar>, int) -> Scalar,
    places: Seq<usize>,
    start: WeightPass,
    enabled: bool,
    now: WeightPass,
    done: int,
) -> bool {
    &&& now == passed(propose, places, start, enabled, done)
    &&& forall|k: int| 0 <= k < done ==> #[trigger] sound_at(propose, places, start, enabled, k)
}

/// Enters what a pass proposes for its next place, unless it is not finite.
fn pass_on(
    Ghost(propose): Ghost<spec_fn(Seq<Scalar>, int) -> Scalar>,
    Ghost(start): Ghost<WeightPass>,
    Ghost(done): Ghost<int>,
    weights: &mut Vec<Scalar>,
    list: &mut MarkList,
    enabled: bool,
    places: &Vec<usize>,
    at: usize,
    value: Scalar,
) -> (r: bool)
    requires
        at < places.len(),
        done == at,
        places@[at as int] < old(weights).len(),
        old(list).wf(),
        enabled ==> old(list).capacity() == old(weights).len(),
        value == propose(old(weights)@, places@[at as int] as int),
        pass_so_far(
            propose,
            places@,
            start,
            enabled,
            pass_of(old(weights)@, *old(list)),
            at as int,
        ),
    ensures
        final(weights).len() == old(weights).len(),
        final(list).wf(),
        final(list).capacity() == old(list).capacity(),
        r ==> pass_so_far(
            propose,
            places@,
            start,
            enabled,
            pass_of(final(weights)@, *final(list)),
            at + 1,
        ),
        !r ==> pass_ends(
            propose,
            places@,
            start,
            enabled,
            pass_of(final(weights)@, *final(list)),
            false,
        ),
{
    assert(sound_at(propose, places@, start, enabled, at as int) == value.finite());
    if !value.is_finite() {
        assert(stops_at(propose, places@, start, enabled, at as int));
        return false;
    }
    let place: usize = places[at];
    enter(weights, list, enabled, place, value);
    true
}

/// A recurrent weight after a change: it keeps the sign of the neuron that it comes from.
pub open spec fn recurrent_proposal<T: Numerics>(
    ops: T,
    rate: Scalar,
    m: Model,
    signal: Seq<Scalar>,
    eligibility: Seq<Scalar>,
    b: Bounds,
) -> spec_fn(Seq<Scalar>, int) -> Scalar {
    |w: Seq<Scalar>, slot: int|
        {
            let gradient = ops.product(
                signal[m.recurrent.target_neuron[slot] as int],
                eligibility[slot],
            );
            let value = nudged(ops, w[slot], ops.product(rate, gradient), b);
            if m.neurons.neuron_type[slot / m.recurrent.capacity_per_neuron as int] == 0 {
                value.greater(nought())
            } else {
                value.lesser(nought())
            }
        }
}

/// What the learning of synapses needs to know of the network.
pub open spec fn wired(m: Model, neurons: int) -> bool {
    &&& 0 < m.recurrent.capacity_per_neuron
    &&& m.recurrent.weight.len() == neurons * m.recurrent.capacity_per_neuron
    &&& m.recurrent.target_neuron.len() == m.recurrent.weight.len()
    &&& m.neurons.neuron_type.len() == neurons
    &&& forall|i: int|
        0 <= i < m.recurrent.target_neuron.len() ==> (#[trigger] m.recurrent.target_neuron[i])
            < neurons
}

/// The neuron that a synapse comes from.
pub proof fn lemma_source(slot: int, neurons: int, capacity: int)
    requires
        0 <= slot < neurons * capacity,
        0 < capacity,
    ensures
        0 <= slot / capacity < neurons,
{
    vstd::arithmetic::div_mod::lemma_fundamental_div_mod(slot, capacity);
    vstd::arithmetic::div_mod::lemma_mod_bound(slot, capacity);
    let q = slot / capacity;
    assert(0 <= q < neurons) by (nonlinear_arith)
        requires
            0 <= slot < neurons * capacity,
            slot == capacity * q + slot % capacity,
            0 <= slot % capacity < capacity,
    ;
}

/// Learns the recurrent weights of the eligible synapses. Says whether all of them stayed finite;
/// the first that would not, and those after it, are left.
pub fn update_recurrent_synapses<T: Numerics>(
    ops: &T,
    m: &mut Model,
    list: &mut MarkList,
    enabled: bool,
    eligible: &Vec<usize>,
    signal: &Vec<Scalar>,
    eligibility: &Vec<Scalar>,
    rate: Scalar,
    b: &Bounds,
) -> (r: bool)
    requires
        ops.ready(),
        nought().at_most(b.update),
        wired(*old(m), signal.len() as int),
        eligibility.len() == old(m).recurrent.weight.len(),
        all_below(eligible@, old(m).recurrent.weight.len() as int),
        old(list).wf(),
        enabled ==> old(list).capacity() == old(m).recurrent.weight.len(),
    ensures
        final(list).wf(),
        final(list).capacity() == old(list).capacity(),
        final(m).recurrent.weight.len() == old(m).recurrent.weight.len(),
        *final(m) == (Model {
            recurrent: crate::model::SynapseArrays {
                weight: final(m).recurrent.weight,
                ..old(m).recurrent
            },
            ..*old(m)
        }),
        pass_ends(
            recurrent_proposal(*ops, rate, *old(m), signal@, eligibility@, *b),
            eligible@,
            pass_of(old(m).recurrent.weight@, *old(list)),
            enabled,
            pass_of(final(m).recurrent.weight@, *final(list)),
            r,
        ),
{
    let ghost propose = recurrent_proposal(*ops, rate, *old(m), signal@, eligibility@, *b);
    let ghost start = pass_of(m.recurrent.weight@, *list);
    let capacity: usize = m.recurrent.capacity_per_neuron;
    let mut i: usize = 0;
    while i < eligible.len()
        invariant
            i <= eligible.len(),
            ops.ready(),
            nought().at_most(b.update),
            wired(*old(m), signal.len() as int),
            capacity == old(m).recurrent.capacity_per_neuron,
            eligibility.len() == old(m).recurrent.weight.len(),
            all_below(eligible@, old(m).recurrent.weight.len() as int),
            list.wf(),
            list.capacity() == old(list).capacity(),
            enabled ==> list.capacity() == old(m).recurrent.weight.len(),
            m.recurrent.weight.len() == old(m).recurrent.weight.len(),
            *m == (Model {
                recurrent: crate::model::SynapseArrays {
                    weight: m.recurrent.weight,
                    ..old(m).recurrent
                },
                ..*old(m)
            }),
            propose == recurrent_proposal(*ops, rate, *old(m), signal@, eligibility@, *b),
            start == pass_of(old(m).recurrent.weight@, *old(list)),
            pass_so_far(
                propose,
                eligible@,
                start,
                enabled,
                pass_of(m.recurrent.weight@, *list),
                i as int,
            ),
        decreases eligible.len() - i,
    {
        let slot: usize = eligible[i];
        proof {
            lemma_source(slot as int, signal.len() as int, capacity as int);
        }
        let destination: usize = m.recurrent.target_neuron[slot] as usize;
        let gradient: Scalar = ops.times(signal[destination], eligibility[slot]);
        let moved: Scalar = nudge(ops, m.recurrent.weight[slot], ops.times(rate, gradient), b);
        let value: Scalar = if m.neurons.neuron_type[slot / capacity] == 0 {
            moved.max_of(Scalar::zero())
        } else {
            moved.min_of(Scalar::zero())
        };
        let fine: bool = pass_on(
            Ghost(propose),
            Ghost(start),
            Ghost(i as int),
            &mut m.recurrent.weight,
            list,
            enabled,
            eligible,
            i,
            value,
        );
        if !fine {
            return false;
        }
        i = i + 1;
    }
    true
}

/// An input weight after a change: it is never negative.
pub open spec fn input_proposal<T: Numerics>(
    ops: T,
    rate: Scalar,
    targets: Seq<u32>,
    signal: Seq<Scalar>,
    eligibility: Seq<Scalar>,
    b: Bounds,
) -> spec_fn(Seq<Scalar>, int) -> Scalar {
    |w: Seq<Scalar>, slot: int|
        nudged(
            ops,
            w[slot],
            ops.product(rate, ops.product(signal[targets[slot] as int], eligibility[slot])),
            b,
        )
}

/// Learns the input weights of the eligible synapses.
pub fn update_input_synapses<T: Numerics>(
    ops: &T,
    weights: &mut Vec<Scalar>,
    targets: &Vec<u32>,
    list: &mut MarkList,
    enabled: bool,
    eligible: &Vec<usize>,
    signal: &Vec<Scalar>,
    eligibility: &Vec<Scalar>,
    rate: Scalar,
    b: &Bounds,
) -> (r: bool)
    requires
        ops.ready(),
        nought().at_most(b.update),
        targets.len() == old(weights).len(),
        eligibility.len() == old(weights).len(),
        all_below(eligible@, old(weights).len() as int),
        forall|i: int| 0 <= i < targets.len() ==> (#[trigger] targets[i]) < signal.len(),
        old(list).wf(),
        enabled ==> old(list).capacity() == old(weights).len(),
    ensures
        final(list).wf(),
        final(list).capacity() == old(list).capacity(),
        final(weights).len() == old(weights).len(),
        pass_ends(
            input_proposal(*ops, rate, targets@, signal@, eligibility@, *b),
            eligible@,
            pass_of(old(weights)@, *old(list)),
            enabled,
            pass_of(final(weights)@, *final(list)),
            r,
        ),
{
    let ghost propose = input_proposal(*ops, rate, targets@, signal@, eligibility@, *b);
    let ghost start = pass_of(weights@, *list);
    let mut i: usize = 0;
    while i < eligible.len()
        invariant
            i <= eligible.len(),
            ops.ready(),
            nought().at_most(b.update),
            targets.len() == weights.len(),
            eligibility.len() == weights.len(),
            weights.len() == old(weights).len(),
            all_below(eligible@, weights.len() as int),
            forall|i: int| 0 <= i < targets.len() ==> (#[trigger] targets[i]) < signal.len(),
            list.wf(),
            list.capacity() == old(list).capacity(),
            enabled ==> list.capacity() == weights.len(),
            propose == input_proposal(*ops, rate, targets@, signal@, eligibility@, *b),
            start == pass_of(old(weights)@, *old(list)),
            pass_so_far(propose, eligible@, start, enabled, pass_of(weights@, *list), i as int),
        decreases eligible.len() - i,
    {
        let slot: usize = eligible[i];
        let destination: usize = targets[slot] as usize;
        let gradient: Scalar = ops.times(signal[destination], eligibility[slot]);
        let value: Scalar = nudge(ops, weights[slot], ops.times(rate, gradient), b);
        let fine: bool = pass_on(
            Ghost(propose),
            Ghost(start),
            Ghost(i as int),
            weights,
            list,
            enabled,
            eligible,
            i,
            value,
        );
        if !fine {
            return false;
        }
        i = i + 1;
    }
    true
}

/// The synapses of the inhibitory ones among the first `upto` active neurons.
pub open spec fn inhibitory_slots(m: Model, active: Seq<usize>, upto: int) -> Seq<usize>
    decreases upto,
{
    if upto <= 0 {
        Seq::empty()
    } else {
        let source = active[upto - 1];
        let before = inhibitory_slots(m, active, upto - 1);
        if m.neurons.neuron_type[source as int] == 0 {
            before
        } else {
            before + Seq::new(
                m.recurrent.capacity_per_neuron as nat,
                |k: int| (source * m.recurrent.capacity_per_neuron + k) as usize,
            )
        }
    }
}

/// The synapses of the inhibitory active neurons.
pub fn list_inhibitory_slots(m: &Model, active: &Vec<usize>, neurons: usize) -> (r: Vec<usize>)
    requires
        wired(*m, neurons as int),
        all_below(active@, neurons as int),
    ensures
        r@ == inhibitory_slots(*m, active@, active@.len() as int),
        all_below(r@, m.recurrent.weight.len() as int),
{
    let capacity: usize = m.recurrent.capacity_per_neuron;
    let mut r: Vec<usize> = Vec::new();
    let mut i: usize = 0;
    while i < active.len()
        invariant
            i <= active.len(),
            wired(*m, neurons as int),
            capacity == m.recurrent.capacity_per_neuron,
            all_below(active@, neurons as int),
            r@ == inhibitory_slots(*m, active@, i as int),
            all_below(r@, m.recurrent.weight.len() as int),
        decreases active.len() - i,
    {
        let source: usize = active[i];
        if m.neurons.neuron_type[source] != 0 {
            proof {
                lemma_row_fits(source as int, neurons as int, capacity as int);
            }
            let ghost before = r@;
            let ghost row = Seq::new(
                capacity as nat,
                |k: int| (source * capacity + k) as usize,
            );
            let first: usize = source * capacity;
            let mut k: usize = 0;
            while k < capacity
                invariant
                    k <= capacity,
                    first == source * capacity,
                    first + capacity <= m.recurrent.weight.len(),
                    row == Seq::new(capacity as nat, |k: int| (source * capacity + k) as usize),
                    r@ == before + row.take(k as int),
                    all_below(r@, m.recurrent.weight.len() as int),
                decreases capacity - k,
            {
                r.push(first + k);
                k = k + 1;
                assert(r@ =~= before + row.take(k as int));
            }
            assert(row.take(k as int) =~= row);
        }
        i = i + 1;
    }
    r
}

/// An inhibitory weight after it was balanced: it is never positive.
pub open spec fn inhibitory_proposal<T: Numerics>(
    ops: T,
    m: Model,
    activation: Seq<Scalar>,
    desired: Scalar,
    learning_rate: Scalar,
    strength: Scalar,
    maximum: Scalar,
    low: Scalar,
) -> spec_fn(Seq<Scalar>, int) -> Scalar {
    |w: Seq<Scalar>, slot: int|
        {
            let target = activation[m.recurrent.target_neuron[slot] as int];
            ops.sum(
                w[slot],
                balancing(
                    ops,
                    activation[slot / m.recurrent.capacity_per_neuron as int],
                    if nought().below(target) {
                        unit()
                    } else {
                        nought()
                    },
                    desired,
                    learning_rate,
                    strength,
                    maximum,
                ),
            ).confined(low, nought())
        }
}

/// Balances the weights of the inhibitory active neurons.
pub fn apply_inhibitory_homeostasis<T: Numerics>(
    ops: &T,
    m: &mut Model,
    list: &mut MarkList,
    enabled: bool,
    active: &Vec<usize>,
    activation: &Vec<Scalar>,
    strength: Scalar,
) -> (r: bool)
    requires
        ops.ready(),
        nought().at_most(old(m).config.learning.max_update),
        wired(*old(m), activation.len() as int),
        all_below(active@, activation.len() as int),
        old(list).wf(),
        enabled ==> old(list).capacity() == old(m).recurrent.weight.len(),
    ensures
        final(list).wf(),
        final(list).capacity() == old(list).capacity(),
        final(m).recurrent.weight.len() == old(m).recurrent.weight.len(),
        *final(m) == (Model {
            recurrent: crate::model::SynapseArrays {
                weight: final(m).recurrent.weight,
                ..old(m).recurrent
            },
            ..*old(m)
        }),
        pass_ends(
            inhibitory_proposal(
                *ops,
                *old(m),
                activation@,
                old(m).config.dynamics.target_activity,
                old(m).config.learning.inhibitory_learning_rate,
                strength,
                old(m).config.learning.max_update,
                old(m).config.learning.weight_min,
            ),
            inhibitory_slots(*old(m), active@, active@.len() as int),
            pass_of(old(m).recurrent.weight@, *old(list)),
            enabled,
            pass_of(final(m).recurrent.weight@, *final(list)),
            r,
        ),
{
    let desired: Scalar = m.config.dynamics.target_activity;
    let learning_rate: Scalar = m.config.learning.inhibitory_learning_rate;
    let maximum: Scalar = m.config.learning.max_update;
    let low: Scalar = m.config.learning.weight_min;
    let ghost propose = inhibitory_proposal(
        *ops,
        *old(m),
        activation@,
        desired,
        learning_rate,
        strength,
        maximum,
        low,
    );
    let ghost start = pass_of(m.recurrent.weight@, *list);
    let capacity: usize = m.recurrent.capacity_per_neuron;
    let slots: Vec<usize> = list_inhibitory_slots(m, active, activation.len());
    let mut i: usize = 0;
    while i < slots.len()
        invariant
            i <= slots.len(),
            ops.ready(),
            nought().at_most(maximum),
            slots@ == inhibitory_slots(*old(m), active@, active@.len() as int),
            desired == old(m).config.dynamics.target_activity,
            learning_rate == old(m).config.learning.inhibitory_learning_rate,
            maximum == old(m).config.learning.max_update,
            low == old(m).config.learning.weight_min,
            wired(*old(m), activation.len() as int),
            capacity == old(m).recurrent.capacity_per_neuron,
            all_below(slots@, old(m).recurrent.weight.len() as int),
            list.wf(),
            list.capacity() == old(list).capacity(),
            enabled ==> list.capacity() == old(m).recurrent.weight.len(),
            m.recurrent.weight.len() == old(m).recurrent.weight.len(),
            *m == (Model {
                recurrent: crate::model::SynapseArrays {
                    weight: m.recurrent.weight,
                    ..old(m).recurrent
                },
                ..*old(m)
            }),
            propose == inhibitory_proposal(
                *ops,
                *old(m),
                activation@,
                desired,
                learning_rate,
                strength,
                maximum,
                low,
            ),
            start == pass_of(old(m).recurrent.weight@, *old(list)),
            pass_so_far(
                propose,
                slots@,
                start,
                enabled,
                pass_of(m.recurrent.weight@, *list),
                i as int,
            ),
        decreases slots.len() - i,
    {
        let slot: usize = slots[i];
        proof {
            lemma_source(slot as int, activation.len() as int, capacity as int);
        }
        let target: usize = m.recurrent.target_neuron[slot] as usize;
        let target_activity: Scalar = if Scalar::zero().lt(activation[target]) {
            Scalar::one()
        } else {
            Scalar::zero()
        };
        let delta: Scalar = inhibitory_homeostasis_delta(
            ops,
            activation[slot / capacity],
            target_activity,
            desired,
            learning_rate,
            strength,
            maximum,
        );
        let value: Scalar = ops.plus(m.recurrent.weight[slot], delta).clamp_to(
            low,
            Scalar::zero(),
        );
        let fine: bool = pass_on(
            Ghost(propose),
            Ghost(start),
            Ghost(i as int),
            &mut m.recurrent.weight,
            list,
            enabled,
            &slots,
            i,
            value,
        );
        if !fine {
            return false;
        }
        i = i + 1;
    }
    true
}

/// A threshold after a tick: it rises with the activity of its neuron and of the population.
pub open spec fn threshold_proposal<T: Numerics>(
    ops: T,
    activation: Seq<Scalar>,
    target: Scalar,
    rate: Scalar,
    population_error: Scalar,
) -> spec_fn(Seq<Scalar>, int) -> Scalar {
    |w: Seq<Scalar>, neuron: int|
        {
            let local = if nought().below(activation[neuron]) {
                unit()
            } else {
                nought()
            };
            let error = ops.sum(ops.difference(local, target), population_error);
            ops.sum(w[neuron], ops.product(rate, error)).confined(
                Scalar { bits: LOWEST_THRESHOLD_BITS },
                Scalar { bits: HIGHEST_THRESHOLD_BITS },
            )
        }
}

/// Moves the thresholds of the touched neurons.
pub fn update_homeostasis<T: Numerics>(
    ops: &T,
    thresholds: &mut Vec<Scalar>,
    list: &mut MarkList,
    enabled: bool,
    touched: &Vec<usize>,
    activation: &Vec<Scalar>,
    target: Scalar,
    rate: Scalar,
    population_error: Scalar,
)
    requires
        ops.ready(),
        old(thresholds).len() == activation.len(),
        all_below(touched@, activation.len() as int),
        old(list).wf(),
        enabled ==> old(list).capacity() == activation.len(),
    ensures
        final(thresholds).len() == old(thresholds).len(),
        final(list).wf(),
        final(list).capacity() == old(list).capacity(),
        pass_of(final(thresholds)@, *final(list)) == passed(
            threshold_proposal(*ops, activation@, target, rate, population_error),
            touched@,
            pass_of(old(thresholds)@, *old(list)),
            enabled,
            touched@.len() as int,
        ),
{
    let ghost propose = threshold_proposal(*ops, activation@, target, rate, population_error);
    let ghost start = pass_of(thresholds@, *list);
    let mut i: usize = 0;
    while i < touched.len()
        invariant
            i <= touched.len(),
            ops.ready(),
            thresholds.len() == activation.len(),
            thresholds.len() == old(thresholds).len(),
            all_below(touched@, activation.len() as int),
            list.wf(),
            list.capacity() == old(list).capacity(),
            enabled ==> list.capacity() == activation.len(),
            propose == threshold_proposal(*ops, activation@, target, rate, population_error),
            pass_of(thresholds@, *list) == passed(propose, touched@, start, enabled, i as int),
        decreases touched.len() - i,
    {
        let neuron: usize = touched[i];
        let local: Scalar = if Scalar::zero().lt(activation[neuron]) {
            Scalar::one()
        } else {
            Scalar::zero()
        };
        let error: Scalar = ops.plus(ops.minus(local, target), population_error);
        let value: Scalar = ops.plus(thresholds[neuron], ops.times(rate, error)).clamp_to(
            Scalar { bits: LOWEST_THRESHOLD_BITS },
            Scalar { bits: HIGHEST_THRESHOLD_BITS },
        );
        enter(thresholds, list, enabled, neuron, value);
        i = i + 1;
    }
}

/// The sum of the eligibilities of the first `upto` synapses of a list, without their signs.
pub open spec fn eligibility_total<T: Numerics>(
    ops: T,
    start: WideScalar,
    eligibility: Seq<Scalar>,
    list: Seq<usize>,
    upto: int,
) -> WideScalar
    decreases upto,
{
    if upto <= 0 {
        start
    } else {
        ops.wide_sum(
            eligibility_total(ops, start, eligibility, list, upto - 1),
            eligibility[list[upto - 1] as int].absolute(),
        )
    }
}

/// The sum of the eligibilities of the synapses of a list, without their signs.
pub fn sum_eligibility<T: Numerics>(
    ops: &T,
    start: WideScalar,
    eligibility: &Vec<Scalar>,
    list: &Vec<usize>,
) -> (r: WideScalar)
    requires
        ops.ready(),
        all_below(list@, eligibility.len() as int),
    ensures
        r == eligibility_total(*ops, start, eligibility@, list@, list@.len() as int),
{
    let mut r: WideScalar = start;
    let mut i: usize = 0;
    while i < list.len()
        invariant
            i <= list.len(),
            ops.ready(),
            all_below(list@, eligibility.len() as int),
            r == eligibility_total(*ops, start, eligibility@, list@, i as int),
        decreases list.len() - i,
    {
        let slot: usize = list[i];
        r = ops.wide_plus(r, eligibility[slot].abs());
        i = i + 1;
    }
    r
}

} // verus!
