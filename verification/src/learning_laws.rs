//! What learning is for: every weight moves against the gradient of the loss, never with it, and by
//! as much as its factors say.

use crate::arithmetic::Numerics;
use crate::config::Config;
use crate::dynamics::share;
use crate::learning::{bounded, nought, unit};
use crate::lesson::Lesson;
use crate::lesson_parts::{input_learned, readout_learned, recurrent_learned, told};
use crate::order::{
    alike, lemma_sign, lemma_ones, lemma_sum_with_zero, minus_one, minus_or_zero, orderly,
    plus_or_zero, products_keep_order, sums_keep_order, zero,
};
use crate::plasticity::{
    bias_proposal, count_up, input_proposal, nudged, output_proposal, pass_ends, pass_of,
    passed, readout_places, recurrent_proposal, sound_at, stops_at, unlisted, Bounds,
    WeightPass,
};
use crate::runtime::{all_below, Runtime};
use crate::scalar::Scalar;
use vstd::prelude::*;

verus! {

/// A number within its bounds.
pub open spec fn within(w: Scalar, low: Scalar, high: Scalar) -> bool {
    low.at_most(w) && w.at_most(high)
}

/// The numbers that learning goes by are in order.
pub open spec fn learns_soundly(c: Config) -> bool {
    let l = c.learning;
    &&& plus_or_zero(l.output_learning_rate) && l.output_learning_rate.finite()
    &&& plus_or_zero(l.recurrent_learning_rate) && l.recurrent_learning_rate.finite()
    &&& plus_or_zero(l.inhibitory_learning_rate) && l.inhibitory_learning_rate.finite()
    &&& plus_or_zero(c.context.learning_rate) && c.context.learning_rate.finite()
    &&& plus_or_zero(l.max_update) && l.max_update.finite()
    &&& minus_or_zero(l.weight_min) && l.weight_min.finite()
    &&& plus_or_zero(l.weight_max) && l.weight_max.finite()
}

/// Which way a number goes: down, or up; it may stay.
pub open spec fn goes(before: Scalar, after: Scalar, down: bool) -> bool {
    if down {
        after.at_most(before)
    } else {
        before.at_most(after)
    }
}

/// What is proposed for a place keeps the bounds and goes one way.
pub open spec fn proposes(
    propose: spec_fn(Seq<Scalar>, int) -> Scalar,
    place: int,
    low: Scalar,
    high: Scalar,
    down: bool,
) -> bool {
    forall|w: Seq<Scalar>|
        within(w[place], low, high) && (#[trigger] propose(w, place)).finite() ==> within(
            propose(w, place),
            low,
            high,
        ) && goes(w[place], propose(w, place), down)
}

pub proof fn lemma_pass_len(
    propose: spec_fn(Seq<Scalar>, int) -> Scalar,
    places: Seq<usize>,
    p: WeightPass,
    enabled: bool,
    upto: int,
)
    requires
        upto <= places.len(),
        all_below(places, p.weights.len() as int),
    ensures
        passed(propose, places, p, enabled, upto).weights.len() == p.weights.len(),
    decreases upto,
{
    if upto > 0 {
        lemma_pass_len(propose, places, p, enabled, upto - 1);
    }
}

/// A pass that proposes one way for a place moves it that way.
pub proof fn lemma_pass_goes(
    propose: spec_fn(Seq<Scalar>, int) -> Scalar,
    places: Seq<usize>,
    p: WeightPass,
    enabled: bool,
    upto: int,
    place: int,
    low: Scalar,
    high: Scalar,
    down: bool,
)
    requires
        0 <= upto <= places.len(),
        all_below(places, p.weights.len() as int),
        0 <= place < p.weights.len(),
        within(p.weights[place], low, high),
        proposes(propose, place, low, high, down),
        forall|k: int| 0 <= k < upto ==> #[trigger] sound_at(propose, places, p, enabled, k),
    ensures
        within(passed(propose, places, p, enabled, upto).weights[place], low, high),
        goes(
            p.weights[place],
            passed(propose, places, p, enabled, upto).weights[place],
            down,
        ),
    decreases upto,
{
    if upto > 0 {
        lemma_pass_goes(propose, places, p, enabled, upto - 1, place, low, high, down);
        lemma_pass_len(propose, places, p, enabled, upto - 1);
        assert(sound_at(propose, places, p, enabled, upto - 1));
        let before = passed(propose, places, p, enabled, upto - 1);
        if places[upto - 1] == place {
            assert(within(before.weights[place], low, high));
            assert(propose(before.weights, place).finite());
        }
    }
}

/// However a pass ends, it moved a place the way that it proposes for it.
pub proof fn lemma_ended_pass_goes(
    propose: spec_fn(Seq<Scalar>, int) -> Scalar,
    places: Seq<usize>,
    p: WeightPass,
    enabled: bool,
    after: WeightPass,
    whole: bool,
    place: int,
    low: Scalar,
    high: Scalar,
    down: bool,
)
    requires
        pass_ends(propose, places, p, enabled, after, whole),
        all_below(places, p.weights.len() as int),
        0 <= place < p.weights.len(),
        within(p.weights[place], low, high),
        proposes(propose, place, low, high, down),
    ensures
        within(after.weights[place], low, high),
        goes(p.weights[place], after.weights[place], down),
{
    if whole {
        lemma_pass_goes(
            propose, places, p, enabled, places.len() as int, place, low, high, down,
        );
    } else {
        let i = choose|i: int|
            #[trigger] stops_at(propose, places, p, enabled, i) && after == passed(
                propose,
                places,
                p,
                enabled,
                i,
            );
        lemma_pass_goes(propose, places, p, enabled, i, place, low, high, down);
    }
}

/// A place that a pass comes by once gets what is proposed for the number that it held.
pub proof fn lemma_passed_once(
    propose: spec_fn(Seq<Scalar>, int) -> Scalar,
    places: Seq<usize>,
    p: WeightPass,
    enabled: bool,
    upto: int,
    k: int,
)
    requires
        0 <= upto <= places.len(),
        0 <= k < places.len(),
        all_below(places, p.weights.len() as int),
        places.no_duplicates(),
    ensures
        upto <= k ==> passed(propose, places, p, enabled, upto).weights[places[k] as int]
            == p.weights[places[k] as int],
        upto > k ==> ({
            let w = passed(propose, places, p, enabled, k).weights;
            &&& w[places[k] as int] == p.weights[places[k] as int]
            &&& passed(propose, places, p, enabled, upto).weights[places[k] as int] == propose(
                w,
                places[k] as int,
            )
        }),
    decreases upto,
{
    if upto > 0 {
        lemma_passed_once(propose, places, p, enabled, upto - 1, k);
        lemma_pass_len(propose, places, p, enabled, upto - 1);
        if upto - 1 != k {
            assert(places[upto - 1] != places[k]);
        }
    }
}

/// A bounded change keeps its sign, and is a number.
pub proof fn lemma_bounded(change: Scalar, maximum: Scalar)
    requires
        plus_or_zero(maximum),
        maximum.finite(),
        !change.nan(),
    ensures
        bounded(change, maximum).finite(),
        plus_or_zero(change) ==> plus_or_zero(bounded(change, maximum)),
        minus_or_zero(change) ==> minus_or_zero(bounded(change, maximum)),
{
}

/// A weight moves the way of its change.
pub proof fn lemma_nudged_goes<T: Numerics>(ops: T, w: Scalar, change: Scalar, b: Bounds)
    requires
        orderly(ops),
        plus_or_zero(b.update),
        b.update.finite(),
        b.low.finite(),
        b.high.finite(),
        within(w, b.low, b.high),
        !change.nan(),
    ensures
        within(nudged(ops, w, change, b), b.low, b.high),
        minus_or_zero(change) ==> nudged(ops, w, change, b).at_most(w),
        plus_or_zero(change) ==> w.at_most(nudged(ops, w, change, b)),
{
    lemma_bounded(change, b.update);
    let c = bounded(change, b.update);
    let s = ops.sum(w, c);
    lemma_sum_with_zero(ops, w, nought());
    reveal(sums_keep_order);
    assert(w.finite());
    assert(!s.nan());
    if minus_or_zero(change) {
        assert(s.at_most(ops.sum(w, nought())));
    }
    if plus_or_zero(change) {
        assert(ops.sum(w, nought()).at_most(s));
    }
}

/// A rate of descent: a learning rate that is not negative, turned round, times a strength that is
/// not negative, is not positive.
pub proof fn lemma_descends<T: Numerics>(ops: T, rate: Scalar, strength: Scalar)
    requires
        orderly(ops),
        plus_or_zero(rate),
        plus_or_zero(strength),
        !ops.product(rate.opposite(), strength).nan(),
    ensures
        minus_or_zero(ops.product(rate.opposite(), strength)),
{
    lemma_sign(ops, rate.opposite(), strength);
}

/// Which way a weight goes for a gradient, down the loss.
pub open spec fn descends(before: Scalar, after: Scalar, gradient: Scalar) -> bool {
    &&& plus_or_zero(gradient) ==> after.at_most(before)
    &&& minus_or_zero(gradient) ==> before.at_most(after)
}

/// The weight of a recurrent synapse fits its source: not negative from an excitatory neuron, not
/// positive from an inhibitory one.
pub open spec fn fits_source(m: crate::model::Model, slot: int, w: Scalar) -> bool {
    if m.neurons.neuron_type[slot / m.recurrent.capacity_per_neuron as int] == 0 {
        plus_or_zero(w)
    } else {
        minus_or_zero(w)
    }
}

/// However a pass ends, it moved a place down the loss where it proposes that for it.
pub proof fn lemma_ended_pass_descends(
    propose: spec_fn(Seq<Scalar>, int) -> Scalar,
    places: Seq<usize>,
    p: WeightPass,
    enabled: bool,
    after: WeightPass,
    whole: bool,
    place: int,
    low: Scalar,
    high: Scalar,
    gradient: Scalar,
)
    requires
        pass_ends(propose, places, p, enabled, after, whole),
        all_below(places, p.weights.len() as int),
        0 <= place < p.weights.len(),
        within(p.weights[place], low, high),
        forall|w: Seq<Scalar>|
            within(w[place], low, high) && (#[trigger] propose(w, place)).finite() ==> within(
                propose(w, place),
                low,
                high,
            ) && descends(w[place], propose(w, place), gradient),
    ensures
        descends(p.weights[place], after.weights[place], gradient),
{
    if plus_or_zero(gradient) {
        lemma_ended_pass_goes(
            propose, places, p, enabled, after, whole, place, low, high, true,
        );
    }
    if minus_or_zero(gradient) {
        lemma_ended_pass_goes(
            propose, places, p, enabled, after, whole, place, low, high, false,
        );
    }
}

/// Recurrent weights go down the loss: over a lesson, the weight of a synapse does not rise where its
/// eligibility has the sign of the signal of the neuron that it reaches, and does not fall where it
/// has the other sign.
pub proof fn law_recurrent_weights_descend<T: Numerics>(
    ops: T,
    b: Runtime,
    strength: Scalar,
    a: Runtime,
    whole: bool,
    slot: int,
)
    requires
        orderly(ops),
        recurrent_learned(ops, b, strength, a, whole),
        learns_soundly(b.model.config),
        plus_or_zero(strength),
        ops.product(b.model.config.learning.recurrent_learning_rate.opposite(), strength).finite(),
        ops.product(
            b.numbers.signal@[b.model.recurrent.target_neuron@[slot] as int],
            b.recurrent_traces.eligibility@[slot],
        ).finite(),
        all_below(b.recurrent_traces.eligible.list@, b.model.recurrent.weight@.len() as int),
        0 <= slot < b.model.recurrent.weight@.len(),
        within(
            b.model.recurrent.weight@[slot],
            b.model.config.learning.weight_min,
            b.model.config.learning.weight_max,
        ),
        fits_source(b.model, slot, b.model.recurrent.weight@[slot]),
    ensures
        descends(
            b.model.recurrent.weight@[slot],
            a.model.recurrent.weight@[slot],
            ops.product(
                b.numbers.signal@[b.model.recurrent.target_neuron@[slot] as int],
                b.recurrent_traces.eligibility@[slot],
            ),
        ),
{
    reveal(recurrent_learned);
    let l = b.model.config.learning;
    let rate = ops.product(l.recurrent_learning_rate.opposite(), strength);
    let bounds = b.weight_bounds();
    let gradient = ops.product(
        b.numbers.signal@[b.model.recurrent.target_neuron@[slot] as int],
        b.recurrent_traces.eligibility@[slot],
    );
    let propose = recurrent_proposal(
        ops,
        rate,
        b.model,
        b.numbers.signal@,
        b.recurrent_traces.eligibility@,
        bounds,
    );
    let excitatory = b.model.neurons.neuron_type[slot
        / b.model.recurrent.capacity_per_neuron as int] == 0;
    let low = if excitatory {
        nought()
    } else {
        l.weight_min
    };
    let high = if excitatory {
        l.weight_max
    } else {
        nought()
    };
    lemma_descends(ops, l.recurrent_learning_rate, strength);
    let change = ops.product(rate, gradient);
    assert(!change.nan()) by {
        reveal(products_keep_order);
    }
    lemma_sign(ops, rate, gradient);
    assert forall|w: Seq<Scalar>|
        within(w[slot], low, high) && (#[trigger] propose(w, slot)).finite() implies within(
        propose(w, slot),
        low,
        high,
    ) && descends(w[slot], propose(w, slot), gradient) by {
        lemma_recurrent_change(ops, w[slot], change, bounds, excitatory);
    }
    lemma_ended_pass_descends(
        propose,
        b.recurrent_traces.eligible.list@,
        pass_of(b.model.recurrent.weight@, b.tracker.recurrent_weight),
        b.tracker.enabled,
        pass_of(a.model.recurrent.weight@, a.tracker.recurrent_weight),
        whole,
        slot,
        low,
        high,
        gradient,
    );
}

/// A recurrent weight moves the way of its change, and keeps its sign. A change that is no number
/// moves it nowhere that is finite.
pub proof fn lemma_recurrent_change<T: Numerics>(
    ops: T,
    w: Scalar,
    change: Scalar,
    b: Bounds,
    excitatory: bool,
)
    requires
        orderly(ops),
        plus_or_zero(b.update),
        b.update.finite(),
        b.low.finite(),
        b.high.finite(),
        minus_or_zero(b.low),
        plus_or_zero(b.high),
        !change.nan(),
        within(w, b.low, b.high),
        excitatory ==> plus_or_zero(w),
        !excitatory ==> minus_or_zero(w),
    ensures
        ({
            let value = nudged(ops, w, change, b);
            let kept = if excitatory {
                value.greater(nought())
            } else {
                value.lesser(nought())
            };
            &&& within(kept, b.low, b.high)
            &&& excitatory ==> plus_or_zero(kept)
            &&& !excitatory ==> minus_or_zero(kept)
            &&& minus_or_zero(change) ==> kept.at_most(w)
            &&& plus_or_zero(change) ==> w.at_most(kept)
        }),
{
    lemma_nudged_goes(ops, w, change, b);
}

/// Input weights go down the loss, like recurrent ones, and are never negative.
pub proof fn law_input_weights_descend<T: Numerics>(
    ops: T,
    b: Runtime,
    strength: Scalar,
    a: Runtime,
    whole: bool,
    slot: int,
)
    requires
        orderly(ops),
        input_learned(ops, b, strength, a, whole),
        learns_soundly(b.model.config),
        plus_or_zero(strength),
        ops.product(b.model.config.learning.recurrent_learning_rate.opposite(), strength).finite(),
        ops.product(
            b.numbers.signal@[b.model.input.targets@[slot] as int],
            b.input_traces.eligibility@[slot],
        ).finite(),
        all_below(b.input_traces.eligible.list@, b.model.input.weights@.len() as int),
        0 <= slot < b.model.input.weights@.len(),
        within(b.model.input.weights@[slot], nought(), b.model.config.learning.weight_max),
    ensures
        descends(
            b.model.input.weights@[slot],
            a.model.input.weights@[slot],
            ops.product(
                b.numbers.signal@[b.model.input.targets@[slot] as int],
                b.input_traces.eligibility@[slot],
            ),
        ),
{
    reveal(input_learned);
    let rate = ops.product(
        b.model.config.learning.recurrent_learning_rate.opposite(),
        strength,
    );
    let bounds = b.input_bounds();
    let gradient = ops.product(
        b.numbers.signal@[b.model.input.targets@[slot] as int],
        b.input_traces.eligibility@[slot],
    );
    let propose = input_proposal(
        ops,
        rate,
        b.model.input.targets@,
        b.numbers.signal@,
        b.input_traces.eligibility@,
        bounds,
    );
    lemma_descends(ops, b.model.config.learning.recurrent_learning_rate, strength);
    let change = ops.product(rate, gradient);
    assert(!change.nan()) by {
        reveal(products_keep_order);
    }
    lemma_sign(ops, rate, gradient);
    assert forall|w: Seq<Scalar>|
        within(w[slot], bounds.low, bounds.high) && (#[trigger] propose(w, slot)).finite() implies
        within(propose(w, slot), bounds.low, bounds.high) && descends(
        w[slot],
        propose(w, slot),
        gradient,
    ) by {
        lemma_nudged_goes(ops, w[slot], change, bounds);
    }
    lemma_ended_pass_descends(
        propose,
        b.input_traces.eligible.list@,
        pass_of(b.model.input.weights@, b.tracker.input_weight),
        b.tracker.enabled,
        pass_of(a.model.input.weights@, a.tracker.input_weight),
        whole,
        slot,
        bounds.low,
        bounds.high,
        gradient,
    );
}

/// The readout goes down the loss: when a lesson starts, the output weight of a class and an active
/// neuron does not rise where the class was too likely, and does not fall where it was not likely
/// enough; the same is true of its bias.
pub proof fn law_readouts_descend<T: Numerics>(
    ops: T,
    l: Lesson,
    b: Runtime,
    middle: Runtime,
    bad: Option<usize>,
    a: Runtime,
    class: int,
    neuron: int,
)
    requires
        orderly(ops),
        l.starts(ops, b, middle, bad, a),
        bad is None,
        l.class < b.alphabet.output_classes,
        learns_soundly(b.model.config),
        plus_or_zero(l.supervised(ops)),
        ops.product(
            b.model.config.learning.output_learning_rate.opposite(),
            l.supervised(ops),
        ).finite(),
        all_below(b.active@, b.size()),
        b.state.activation@.len() == b.size(),
        0 < b.size(),
        b.numbers.probabilities@.len() == b.alphabet.output_classes,
        b.alphabet.output_classes * b.size() <= usize::MAX,
        b.model.output.weights@.len() == b.alphabet.output_classes * b.size(),
        b.model.output.bias@.len() == b.alphabet.output_classes,
        0 <= class < b.alphabet.output_classes,
        0 <= neuron < b.size(),
        plus_or_zero(b.state.activation@[neuron]),
        b.state.activation@[neuron].finite(),
        b.model.output.bias@[class].finite(),
        a.numbers.errors@[class].finite(),
        ops.product(
            ops.product(
                b.model.config.learning.output_learning_rate.opposite(),
                l.supervised(ops),
            ),
            a.numbers.errors@[class],
        ).finite(),
        within(
            b.model.output.weights@[class * b.size() + neuron],
            b.model.config.learning.weight_min,
            b.model.config.learning.weight_max,
        ),
    ensures
        descends(
            b.model.output.weights@[class * b.size() + neuron],
            a.model.output.weights@[class * b.size() + neuron],
            a.numbers.errors@[class],
        ),
        descends(
            b.model.output.bias@[class],
            a.model.output.bias@[class],
            a.numbers.errors@[class],
        ),
{
    reveal(Lesson::starts);
    reveal(told);
    reveal(readout_learned);
    let rate = ops.product(
        b.model.config.learning.output_learning_rate.opposite(),
        l.supervised(ops),
    );
    let errors = a.numbers.errors@;
    let error = errors[class];
    let bounds = b.weight_bounds();
    let classes = b.alphabet.output_classes as int;
    let neurons = b.size();
    assert(middle.numbers.errors@ == errors);
    assert(errors.len() == classes);
    lemma_descends(ops, b.model.config.learning.output_learning_rate, l.supervised(ops));
    let step = ops.product(rate, error);
    lemma_sign(ops, rate, error);
    // The bias.
    let bias_rule = bias_proposal(ops, rate, errors, bounds.update);
    let low = Scalar { bits: 0xff7f_ffff };
    let high = Scalar { bits: 0x7f7f_ffff };
    assert forall|w: Seq<Scalar>|
        within(w[class], low, high) && (#[trigger] bias_rule(w, class)).finite() implies within(
        bias_rule(w, class),
        low,
        high,
    ) && descends(w[class], bias_rule(w, class), error) by {
        lemma_bounded(step, bounds.update);
        let c = bounded(step, bounds.update);
        lemma_sum_with_zero(ops, w[class], nought());
        reveal(sums_keep_order);
        assert(!ops.sum(w[class], c).nan());
        assert(!ops.sum(w[class], nought()).nan());
    }
    lemma_ended_pass_descends(
        bias_rule,
        count_up(classes),
        unlisted(b.model.output.bias@),
        false,
        unlisted(a.model.output.bias@),
        true,
        class,
        low,
        high,
        error,
    );
    // The weights.
    let place = class * neurons + neuron;
    crate::runtime::lemma_place(class, neuron, classes, neurons);
    let rule = output_proposal(ops, rate, errors, b.state.activation@, bounds);
    let places = readout_places(b.active@, neurons, classes);
    let change = ops.product(step, b.state.activation@[neuron]);
    assert(!change.nan()) by {
        reveal(products_keep_order);
    }
    lemma_sign(ops, step, b.state.activation@[neuron]);
    assert forall|w: Seq<Scalar>|
        within(w[place], bounds.low, bounds.high) implies within(
        #[trigger] rule(w, place),
        bounds.low,
        bounds.high,
    ) && descends(w[place], rule(w, place), error) by {
        lemma_nudged_goes(ops, w[place], change, bounds);
    }
    lemma_readout_places(b.active@, neurons, classes);
    lemma_plain_pass_descends(
        rule,
        places,
        unlisted(b.model.output.weights@),
        b.active@.len() * classes,
        place,
        bounds.low,
        bounds.high,
        error,
    );
}

/// The places of the output weights lie among them.
pub proof fn lemma_readout_places(active: Seq<usize>, neurons: int, classes: int)
    requires
        all_below(active, neurons),
        0 < classes,
        classes * neurons <= usize::MAX,
    ensures
        all_below(readout_places(active, neurons, classes), classes * neurons),
        readout_places(active, neurons, classes).len() == active.len() * classes,
{
    let places = readout_places(active, neurons, classes);
    assert(0 <= active.len() * classes) by (nonlinear_arith)
        requires
            0 < classes,
    ;
    assert forall|i: int| 0 <= i < places.len() implies (#[trigger] places[i]) < classes
        * neurons by {
        crate::plasticity::lemma_source(i, active.len() as int, classes);
        vstd::arithmetic::div_mod::lemma_mod_bound(i, classes);
        crate::runtime::lemma_place(
            i % classes,
            active[i / classes] as int,
            classes,
            neurons,
        );
    }
}

/// A pass without a test moves a place down the loss where it proposes that for it.
pub proof fn lemma_plain_pass_descends(
    propose: spec_fn(Seq<Scalar>, int) -> Scalar,
    places: Seq<usize>,
    p: WeightPass,
    upto: int,
    place: int,
    low: Scalar,
    high: Scalar,
    gradient: Scalar,
)
    requires
        0 <= upto <= places.len(),
        all_below(places, p.weights.len() as int),
        0 <= place < p.weights.len(),
        within(p.weights[place], low, high),
        forall|w: Seq<Scalar>|
            within(w[place], low, high) ==> within(#[trigger] propose(w, place), low, high)
                && descends(w[place], propose(w, place), gradient),
    ensures
        within(passed(propose, places, p, false, upto).weights[place], low, high),
        descends(
            p.weights[place],
            passed(propose, places, p, false, upto).weights[place],
            gradient,
        ),
    decreases upto,
{
    if upto > 0 {
        lemma_plain_pass_descends(propose, places, p, upto - 1, place, low, high, gradient);
        lemma_pass_len(propose, places, p, false, upto - 1);
    }
}

/// A place that a pass does not come by stays as it is.
pub proof fn lemma_pass_leaves(
    propose: spec_fn(Seq<Scalar>, int) -> Scalar,
    places: Seq<usize>,
    p: WeightPass,
    enabled: bool,
    upto: int,
    place: int,
)
    requires
        0 <= upto <= places.len(),
        all_below(places, p.weights.len() as int),
        0 <= place < p.weights.len(),
        forall|i: int| 0 <= i < upto ==> (#[trigger] places[i]) != place,
    ensures
        passed(propose, places, p, enabled, upto).weights[place] == p.weights[place],
    decreases upto,
{
    if upto > 0 {
        lemma_pass_leaves(propose, places, p, enabled, upto - 1, place);
        lemma_pass_len(propose, places, p, enabled, upto - 1);
        assert(places[upto - 1] != place);
    }
}

/// What a change is made of, number by number.
pub struct Factors {
    pub rate: Scalar,
    pub strength: Scalar,
    /// How wrong it was.
    pub error: Scalar,
    /// How much what is changed had to do with it.
    pub share: Scalar,
}

impl Factors {
    /// All factors but one are one, the error minus one.
    pub open spec fn lone(self, free: Scalar) -> bool {
        &&& nought().below(free)
        &&& free.finite()
        &&& {
            ||| self.rate == free && self.strength == unit() && self.error == minus_one()
                && self.share == unit()
            ||| self.rate == unit() && self.strength == free && self.error == minus_one()
                && self.share == unit()
            ||| self.rate == unit() && self.strength == unit() && self.error == minus_one()
                && self.share == free
            ||| self.rate == unit() && self.strength == unit() && self.error == free.opposite()
                && self.share == unit()
        }
    }
}

/// With all factors but one being one, a change down the loss has the value of that one.
pub proof fn lemma_lone_change<T: Numerics>(ops: T, f: Factors, free: Scalar)
    requires
        orderly(ops),
        f.lone(free),
    ensures
        ({
            let rate = ops.product(f.rate.opposite(), f.strength);
            &&& ops.product(rate, ops.product(f.error, f.share)) == free
            &&& ops.product(ops.product(rate, f.error), f.share) == free
            &&& f.share == unit() ==> ops.product(rate, f.error) == free
        }),
{
    assert(!zero(free) && !zero(free.opposite()) && !zero(unit()) && !zero(minus_one()));
    assert(free.opposite().opposite() == free);
    assert(minus_one().opposite() == unit());
    lemma_ones(ops, free);
    lemma_ones(ops, free.opposite());
    lemma_ones(ops, unit());
    lemma_ones(ops, minus_one());
}

/// A weight of zero that is changed by a number within the bounds has that value afterwards.
pub proof fn lemma_nudged_from_zero<T: Numerics>(ops: T, w: Scalar, change: Scalar, b: Bounds)
    requires
        orderly(ops),
        zero(w),
        nought().below(change),
        change.at_most(b.update),
        change.at_most(b.high),
        minus_or_zero(b.low),
    ensures
        alike(nudged(ops, w, change, b), change),
{
    lemma_sum_with_zero(ops, change, w);
}

/// What a recurrent weight learns is the product of learning rate, strength, signal and eligibility:
/// a weight of zero from an excitatory neuron, whose synapse is eligible once, takes on the value of
/// any one of them, within the bounds, where the others are one and the signal is negative.
pub proof fn law_recurrent_weights_learn_in_proportion<T: Numerics>(
    ops: T,
    b: Runtime,
    strength: Scalar,
    a: Runtime,
    k: int,
    free: Scalar,
)
    requires
        orderly(ops),
        recurrent_learned(ops, b, strength, a, true),
        b.recurrent_traces.eligible.list@.no_duplicates(),
        all_below(b.recurrent_traces.eligible.list@, b.model.recurrent.weight@.len() as int),
        0 <= k < b.recurrent_traces.eligible.list@.len(),
        ({
            let slot = b.recurrent_traces.eligible.list@[k] as int;
            &&& zero(b.model.recurrent.weight@[slot])
            &&& b.model.neurons.neuron_type[slot / b.model.recurrent.capacity_per_neuron as int]
                == 0
            &&& (Factors {
                rate: b.model.config.learning.recurrent_learning_rate,
                strength,
                error: b.numbers.signal@[b.model.recurrent.target_neuron@[slot] as int],
                share: b.recurrent_traces.eligibility@[slot],
            }).lone(free)
        }),
        free.at_most(b.model.config.learning.max_update),
        free.at_most(b.model.config.learning.weight_max),
        minus_or_zero(b.model.config.learning.weight_min),
    ensures
        alike(
            a.model.recurrent.weight@[b.recurrent_traces.eligible.list@[k] as int],
            free,
        ),
{
    reveal(recurrent_learned);
    let slot = b.recurrent_traces.eligible.list@[k] as int;
    let l = b.model.config.learning;
    let f = Factors {
        rate: l.recurrent_learning_rate,
        strength,
        error: b.numbers.signal@[b.model.recurrent.target_neuron@[slot] as int],
        share: b.recurrent_traces.eligibility@[slot],
    };
    lemma_lone_change(ops, f, free);
    let rate = ops.product(l.recurrent_learning_rate.opposite(), strength);
    let propose = recurrent_proposal(
        ops,
        rate,
        b.model,
        b.numbers.signal@,
        b.recurrent_traces.eligibility@,
        b.weight_bounds(),
    );
    let places = b.recurrent_traces.eligible.list@;
    let start = pass_of(b.model.recurrent.weight@, b.tracker.recurrent_weight);
    lemma_passed_once(propose, places, start, b.tracker.enabled, places.len() as int, k);
    let w = passed(propose, places, start, b.tracker.enabled, k).weights;
    lemma_nudged_from_zero(ops, w[slot], free, b.weight_bounds());
}

/// What an input weight learns is the product of learning rate, strength, signal and eligibility,
/// as for a recurrent one.
pub proof fn law_input_weights_learn_in_proportion<T: Numerics>(
    ops: T,
    b: Runtime,
    strength: Scalar,
    a: Runtime,
    k: int,
    free: Scalar,
)
    requires
        orderly(ops),
        input_learned(ops, b, strength, a, true),
        b.input_traces.eligible.list@.no_duplicates(),
        all_below(b.input_traces.eligible.list@, b.model.input.weights@.len() as int),
        0 <= k < b.input_traces.eligible.list@.len(),
        ({
            let slot = b.input_traces.eligible.list@[k] as int;
            &&& zero(b.model.input.weights@[slot])
            &&& (Factors {
                rate: b.model.config.learning.recurrent_learning_rate,
                strength,
                error: b.numbers.signal@[b.model.input.targets@[slot] as int],
                share: b.input_traces.eligibility@[slot],
            }).lone(free)
        }),
        free.at_most(b.model.config.learning.max_update),
        free.at_most(b.model.config.learning.weight_max),
    ensures
        alike(a.model.input.weights@[b.input_traces.eligible.list@[k] as int], free),
{
    reveal(input_learned);
    let slot = b.input_traces.eligible.list@[k] as int;
    let l = b.model.config.learning;
    let f = Factors {
        rate: l.recurrent_learning_rate,
        strength,
        error: b.numbers.signal@[b.model.input.targets@[slot] as int],
        share: b.input_traces.eligibility@[slot],
    };
    lemma_lone_change(ops, f, free);
    let rate = ops.product(l.recurrent_learning_rate.opposite(), strength);
    let propose = input_proposal(
        ops,
        rate,
        b.model.input.targets@,
        b.numbers.signal@,
        b.input_traces.eligibility@,
        b.input_bounds(),
    );
    let places = b.input_traces.eligible.list@;
    let start = pass_of(b.model.input.weights@, b.tracker.input_weight);
    lemma_passed_once(propose, places, start, b.tracker.enabled, places.len() as int, k);
    let w = passed(propose, places, start, b.tracker.enabled, k).weights;
    lemma_nudged_from_zero(ops, w[slot], free, b.input_bounds());
}

/// What the readout learns is the product of learning rate, supervision, error and activation: the
/// output weight of a class and an active neuron that was zero takes on the value of any one of
/// them, within the bounds, where the others are one and the error is negative; so does a bias of
/// zero, whose share is always one.
pub proof fn law_readouts_learn_in_proportion<T: Numerics>(
    ops: T,
    l: Lesson,
    b: Runtime,
    middle: Runtime,
    a: Runtime,
    class: int,
    k: int,
    free: Scalar,
)
    requires
        orderly(ops),
        l.starts(ops, b, middle, None, a),
        l.class < b.alphabet.output_classes,
        all_below(b.active@, b.size()),
        b.active@.no_duplicates(),
        b.state.activation@.len() == b.size(),
        b.numbers.probabilities@.len() == b.alphabet.output_classes,
        b.alphabet.output_classes * b.size() <= usize::MAX,
        b.model.output.weights@.len() == b.alphabet.output_classes * b.size(),
        b.model.output.bias@.len() == b.alphabet.output_classes,
        0 <= class < b.alphabet.output_classes,
        0 <= k < b.active@.len(),
        (Factors {
            rate: b.model.config.learning.output_learning_rate,
            strength: l.supervised(ops),
            error: a.numbers.errors@[class],
            share: b.state.activation@[b.active@[k] as int],
        }).lone(free),
        free.at_most(b.model.config.learning.max_update),
        free.at_most(b.model.config.learning.weight_max),
        minus_or_zero(b.model.config.learning.weight_min),
    ensures
        zero(b.model.output.weights@[class * b.size() + b.active@[k]]) ==> alike(
            a.model.output.weights@[class * b.size() + b.active@[k]],
            free,
        ),
        b.state.activation@[b.active@[k] as int] == unit() && zero(b.model.output.bias@[class])
            ==> alike(a.model.output.bias@[class], free),
{
    reveal(Lesson::starts);
    reveal(told);
    reveal(readout_learned);
    let classes = b.alphabet.output_classes as int;
    let neurons = b.size();
    let neuron = b.active@[k] as int;
    let errors = a.numbers.errors@;
    let f = Factors {
        rate: b.model.config.learning.output_learning_rate,
        strength: l.supervised(ops),
        error: errors[class],
        share: b.state.activation@[neuron],
    };
    lemma_lone_change(ops, f, free);
    let rate = ops.product(
        b.model.config.learning.output_learning_rate.opposite(),
        l.supervised(ops),
    );
    let bounds = b.weight_bounds();
    let rule = output_proposal(ops, rate, errors, b.state.activation@, bounds);
    let places = readout_places(b.active@, neurons, classes);
    lemma_readout_places(b.active@, neurons, classes);
    lemma_readout_places_once(b.active@, neurons, classes);
    let i = k * classes + class;
    crate::runtime::lemma_place(k, class, b.active@.len() as int, classes);
    crate::runtime::lemma_place(class, neuron, classes, neurons);
    let place = class * neurons + neuron;
    assert(places[i] == place);
    let start = unlisted(b.model.output.weights@);
    lemma_passed_once(rule, places, start, false, places.len() as int, i);
    let w = passed(rule, places, start, false, i).weights;
    if zero(b.model.output.weights@[place]) {
        lemma_nudged_from_zero(ops, w[place], free, bounds);
    }
    // The bias.
    let bias_rule = bias_proposal(ops, rate, errors, bounds.update);
    let list = count_up(classes);
    let first = unlisted(b.model.output.bias@);
    assert(list.no_duplicates());
    lemma_passed_once(bias_rule, list, first, false, list.len() as int, class);
    let v = passed(bias_rule, list, first, false, class).weights;
    assert(list[class] == class);
    if zero(b.model.output.bias@[class]) {
        lemma_sum_with_zero(ops, free, v[class]);
    }
}

/// No output weight is visited twice.
proof fn lemma_readout_places_once(active: Seq<usize>, neurons: int, classes: int)
    requires
        all_below(active, neurons),
        active.no_duplicates(),
        0 < classes,
        classes * neurons <= usize::MAX,
    ensures
        readout_places(active, neurons, classes).no_duplicates(),
{
    lemma_readout_places(active, neurons, classes);
    let places = readout_places(active, neurons, classes);
    assert forall|i: int, j: int|
        0 <= i < places.len() && 0 <= j < places.len() && i != j implies places[i] != places[j] by {
        crate::plasticity::lemma_source(i, active.len() as int, classes);
        crate::plasticity::lemma_source(j, active.len() as int, classes);
        vstd::arithmetic::div_mod::lemma_mod_bound(i, classes);
        vstd::arithmetic::div_mod::lemma_mod_bound(j, classes);
        vstd::arithmetic::div_mod::lemma_fundamental_div_mod(i, classes);
        vstd::arithmetic::div_mod::lemma_fundamental_div_mod(j, classes);
        let n = active[i / classes] as int;
        let m = active[j / classes] as int;
        crate::runtime::lemma_place(i % classes, n, classes, neurons);
        crate::runtime::lemma_place(j % classes, m, classes, neurons);
        if places[i] == places[j] {
            assert(i % classes == j % classes && n == m);
            assert(i / classes == j / classes);
        }
    }
}

} // verus!
