//! What holds of every step, whatever is computed in it.

use crate::arithmetic::Numerics;
use crate::dynamics::share;
use crate::error::LeoResult;
use crate::learning::nought;
use crate::lesson::{lesson_taken, EligibilitySum, Lesson, LessonTrace};
use crate::lesson_parts::{
    balanced, context_learned, input_learned, readout_learned, recurrent_learned, told,
};
use crate::metrics::{capped_sum, StepMetrics};
use crate::model::{InputProjection, Model, SynapseArrays};
use crate::permission::Permission;
use crate::plasticity::{
    inhibitory_proposal, inhibitory_slots, input_proposal, pass_ends, pass_of, passed,
    recurrent_proposal, sound_at, stops_at, threshold_proposal, WeightPass, HIGHEST_THRESHOLD_BITS,
    LOWEST_THRESHOLD_BITS,
};
use crate::runtime::{all_below, opened, Runtime};
use crate::scalar::Scalar;
use crate::stages::{competed, followed_all, predicted, received, rested, sent};
use crate::step::{
    class_weight, step_closed, step_taken, thresholds_moved, StageTrace, StepTrace,
};
use vstd::prelude::*;

verus! {

/// A frozen step is read-only: it changes neither the model nor what is noted of its changes, and
/// leaves no learning trace. It always comes to its end.
pub proof fn law_frozen_steps_are_read_only<T: Numerics>(
    ops: T,
    b: Runtime,
    symbol: u32,
    target: Option<u32>,
    a: Runtime,
    r: LeoResult<StepMetrics>,
)
    requires
        step_taken(ops, b, symbol, target, Permission::Frozen, a, r),
    ensures
        r is Ok,
        a.model == b.model,
        a.tracker == b.tracker,
        a.recurrent_traces@ == b.recurrent_traces@,
        a.recurrent_traces.eligible == b.recurrent_traces.eligible,
        a.input_traces@ == b.input_traces@,
        a.input_traces.eligible == b.input_traces.eligible,
        a.persistent_document_activity == b.persistent_document_activity,
{
    let permission = Permission::Frozen;
    let t = choose|t: StepTrace| #[trigger] t.explains(ops, b, symbol, target, permission, a, r);
    let s = t.stages;
    reveal(StepTrace::explains);
    assert(s.step.learns == false && s.opened.model == b.model && s.opened.tracker == b.tracker
        && s.opened.recurrent_traces == b.recurrent_traces && s.opened.input_traces
        == b.input_traces && s.opened.persistent_document_activity
        == b.persistent_document_activity && !s.opened.learning_trace_enabled) by {
        reveal(StageTrace::leads_on);
        reveal(opened);
    }
    assert(s.received.model == s.opened.model && s.received.tracker == s.opened.tracker
        && s.received.recurrent_traces@ == s.opened.recurrent_traces@
        && s.received.recurrent_traces.eligible == s.opened.recurrent_traces.eligible
        && s.received.input_traces@ == s.opened.input_traces@
        && s.received.input_traces.eligible == s.opened.input_traces.eligible
        && s.received.persistent_document_activity == s.opened.persistent_document_activity) by {
        reveal(StageTrace::leads_on);
        reveal(received);
    }
    assert(kept_whole(s.received, s.competed)) by {
        reveal(StageTrace::leads_on);
        reveal(competed);
    }
    assert(s.followed == s.competed) by {
        reveal(StageTrace::leads_on);
    }
    assert(kept_whole(s.followed, s.rested)) by {
        reveal(StageTrace::leads_on);
        reveal(rested);
    }
    assert(kept_whole(s.rested, s.sent)) by {
        reveal(StageTrace::leads_on);
        reveal(sent);
    }
    assert(kept_whole(s.sent, s.predicted)) by {
        reveal(StageTrace::leads_on);
        reveal(predicted);
    }
    assert(t.learned == s.predicted && t.lesson is Ok) by {
        reveal(StageTrace::teaches);
    }
    assert(kept_whole(t.balanced, a)) by {
        reveal(step_closed);
    }
}

/// Nothing that learning made changed.
pub open spec fn kept_whole(b: Runtime, a: Runtime) -> bool {
    &&& a.model == b.model
    &&& a.tracker == b.tracker
    &&& a.recurrent_traces == b.recurrent_traces
    &&& a.input_traces == b.input_traces
    &&& a.persistent_document_activity == b.persistent_document_activity
}

/// The network stays as it was wired: only weights, thresholds and the context change.
pub open spec fn same_network(b: Model, a: Model) -> bool {
    &&& a.config == b.config
    &&& a.generation == b.generation
    &&& a.neurons.excitability == b.neurons.excitability
    &&& a.neurons.neuron_type == b.neurons.neuron_type
    &&& a.recurrent == (SynapseArrays { weight: a.recurrent.weight, ..b.recurrent })
    &&& a.recurrent.weight.len() == b.recurrent.weight.len()
    &&& a.input == (InputProjection { weights: a.input.weights, ..b.input })
    &&& a.input.weights.len() == b.input.weights.len()
    &&& a.neurons.threshold.len() == b.neurons.threshold.len()
}

/// A recurrent weight keeps the bounds and the sign of the neuron that it comes from.
pub open spec fn keeps_route(m: Model, slot: int, weight: Scalar) -> bool {
    &&& !weight.below(m.config.learning.weight_min)
    &&& !m.config.learning.weight_max.below(weight)
    &&& if m.neurons.neuron_type[slot / m.recurrent.capacity_per_neuron as int] == 0 {
        !weight.below(nought())
    } else {
        !nought().below(weight)
    }
}

/// An input weight is not negative and keeps its bound.
pub open spec fn keeps_input(m: Model, weight: Scalar) -> bool {
    !weight.below(nought()) && !m.config.learning.weight_max.below(weight)
}

/// A threshold keeps its bounds.
pub open spec fn keeps_threshold(threshold: Scalar) -> bool {
    !threshold.below(Scalar { bits: LOWEST_THRESHOLD_BITS }) && !(Scalar {
        bits: HIGHEST_THRESHOLD_BITS,
    }).below(threshold)
}

/// Every excitatory neuron excites and every inhibitory one inhibits, within the bounds.
pub open spec fn routes_hold(m: Model) -> bool {
    &&& forall|slot: int|
        0 <= slot < m.recurrent.weight.len() ==> keeps_route(
            m,
            slot,
            #[trigger] m.recurrent.weight[slot],
        )
    &&& forall|slot: int|
        0 <= slot < m.input.weights.len() ==> keeps_input(m, #[trigger] m.input.weights[slot])
    &&& forall|neuron: int|
        0 <= neuron < m.neurons.threshold.len() ==> keeps_threshold(
            #[trigger] m.neurons.threshold[neuron],
        )
}

/// A pass keeps what holds of every number that it enters.
proof fn lemma_pass_keeps(
    good: spec_fn(int, Scalar) -> bool,
    propose: spec_fn(Seq<Scalar>, int) -> Scalar,
    places: Seq<usize>,
    p: WeightPass,
    enabled: bool,
    upto: int,
)
    requires
        0 <= upto <= places.len(),
        all_below(places, p.weights.len() as int),
        forall|slot: int| 0 <= slot < p.weights.len() ==> #[trigger] good(slot, p.weights[slot]),
        forall|k: int|
            0 <= k < upto ==> good(
                places[k] as int,
                #[trigger] proposed_at(propose, places, p, enabled, k),
            ),
    ensures
        passed(propose, places, p, enabled, upto).weights.len() == p.weights.len(),
        forall|slot: int|
            0 <= slot < p.weights.len() ==> #[trigger] good(
                slot,
                passed(propose, places, p, enabled, upto).weights[slot],
            ),
    decreases upto,
{
    if upto > 0 {
        lemma_pass_keeps(good, propose, places, p, enabled, upto - 1);
        let before = passed(propose, places, p, enabled, upto - 1);
        let after = passed(propose, places, p, enabled, upto);
        let place = places[upto - 1] as int;
        let value = proposed_at(propose, places, p, enabled, upto - 1);
        assert(after.weights == before.weights.update(place, value));
        assert forall|slot: int| 0 <= slot < p.weights.len() implies #[trigger] good(
            slot,
            after.weights[slot],
        ) by {
            if slot == place {
                assert(good(place, value));
            } else {
                assert(good(slot, before.weights[slot]));
            }
        }
    }
}

/// What a pass enters at the `k`-th place.
pub open spec fn proposed_at(
    propose: spec_fn(Seq<Scalar>, int) -> Scalar,
    places: Seq<usize>,
    p: WeightPass,
    enabled: bool,
    k: int,
) -> Scalar {
    propose(passed(propose, places, p, enabled, k).weights, places[k] as int)
}

/// A pass that ends keeps what holds of every finite number that is proposed.
proof fn lemma_pass_ends_keeps(
    good: spec_fn(int, Scalar) -> bool,
    propose: spec_fn(Seq<Scalar>, int) -> Scalar,
    places: Seq<usize>,
    p: WeightPass,
    enabled: bool,
    after: WeightPass,
    whole: bool,
)
    requires
        pass_ends(propose, places, p, enabled, after, whole),
        all_below(places, p.weights.len() as int),
        forall|slot: int| 0 <= slot < p.weights.len() ==> #[trigger] good(slot, p.weights[slot]),
        forall|w: Seq<Scalar>, k: int|
            0 <= k < places.len() && (#[trigger] propose(w, places[k] as int)).finite() ==> good(
                places[k] as int,
                propose(w, places[k] as int),
            ),
    ensures
        after.weights.len() == p.weights.len(),
        forall|slot: int| 0 <= slot < p.weights.len() ==> #[trigger] good(slot, after.weights[slot]),
{
    let upto = if whole {
        places.len() as int
    } else {
        choose|i: int|
            #[trigger] stops_at(propose, places, p, enabled, i) && after == passed(
                propose,
                places,
                p,
                enabled,
                i,
            )
    };
    assert forall|k: int| 0 <= k < upto implies good(
        places[k] as int,
        #[trigger] proposed_at(propose, places, p, enabled, k),
    ) by {
        assert(sound_at(propose, places, p, enabled, k));
        let w = passed(propose, places, p, enabled, k).weights;
        assert(propose(w, places[k] as int).finite());
    }
    lemma_pass_keeps(good, propose, places, p, enabled, upto);
}

/// What the learning of a runtime relies on: its lists name synapses and neurons that are there.
pub open spec fn fits(r: Runtime) -> bool {
    let m = r.model;
    &&& r.bounds_hold()
    &&& all_below(r.recurrent_traces.eligible.list@, m.recurrent.weight.len() as int)
    &&& all_below(r.input_traces.eligible.list@, m.input.weights.len() as int)
    &&& all_below(r.active@, r.size())
    &&& all_below(r.touched.list@, m.neurons.threshold.len() as int)
    &&& 0 < m.recurrent.capacity_per_neuron
    &&& m.recurrent.weight.len() == r.size() * m.recurrent.capacity_per_neuron
}

/// A part of a lesson keeps the network, its routes, and what the other parts rely on.
pub open spec fn keeps(b: Runtime, a: Runtime) -> bool {
    &&& same_network(b.model, a.model)
    &&& a.state == b.state
    &&& a.recurrent_traces == b.recurrent_traces
    &&& a.input_traces == b.input_traces
    &&& a.active == b.active
    &&& a.touched == b.touched
    &&& a.current_tick == b.current_tick
    &&& a.alphabet == b.alphabet
    &&& a.tracker.enabled == b.tracker.enabled
    &&& routes_hold(b.model) ==> routes_hold(a.model)
    &&& fits(a)
}

pub proof fn lemma_recurrent_keeps<T: Numerics>(
    ops: T,
    b: Runtime,
    strength: Scalar,
    a: Runtime,
    whole: bool,
)
    requires
        fits(b),
        recurrent_learned(ops, b, strength, a, whole),
    ensures
        keeps(b, a),
{
    reveal(recurrent_learned);
    let rate = ops.product(
        b.model.config.learning.recurrent_learning_rate.opposite(),
        strength,
    );
    let propose = recurrent_proposal(
        ops,
        rate,
        b.model,
        b.numbers.signal@,
        b.recurrent_traces.eligibility@,
        b.weight_bounds(),
    );
    let places = b.recurrent_traces.eligible.list@;
    let p = pass_of(b.model.recurrent.weight@, b.tracker.recurrent_weight);
    let after = pass_of(a.model.recurrent.weight@, a.tracker.recurrent_weight);
    let anything = |slot: int, w: Scalar| true;
    lemma_pass_ends_keeps(anything, propose, places, p, b.tracker.enabled, after, whole);
    if routes_hold(b.model) {
        let good = |slot: int, w: Scalar| keeps_route(b.model, slot, w);
        assert forall|slot: int| 0 <= slot < p.weights.len() implies #[trigger] good(
            slot,
            p.weights[slot],
        ) by {
            assert(keeps_route(b.model, slot, b.model.recurrent.weight[slot]));
        }
        lemma_pass_ends_keeps(good, propose, places, p, b.tracker.enabled, after, whole);
        assert forall|slot: int| 0 <= slot < a.model.recurrent.weight.len() implies keeps_route(
            a.model,
            slot,
            #[trigger] a.model.recurrent.weight[slot],
        ) by {
            assert(good(slot, after.weights[slot]));
        }
        assert(routes_hold(a.model));
    }
}

pub proof fn lemma_inputs_keep<T: Numerics>(
    ops: T,
    b: Runtime,
    strength: Scalar,
    a: Runtime,
    whole: bool,
)
    requires
        fits(b),
        input_learned(ops, b, strength, a, whole),
    ensures
        keeps(b, a),
{
    reveal(input_learned);
    let rate = ops.product(
        b.model.config.learning.recurrent_learning_rate.opposite(),
        strength,
    );
    let propose = input_proposal(
        ops,
        rate,
        b.model.input.targets@,
        b.numbers.signal@,
        b.input_traces.eligibility@,
        b.input_bounds(),
    );
    let places = b.input_traces.eligible.list@;
    let p = pass_of(b.model.input.weights@, b.tracker.input_weight);
    let after = pass_of(a.model.input.weights@, a.tracker.input_weight);
    let anything = |slot: int, w: Scalar| true;
    lemma_pass_ends_keeps(anything, propose, places, p, b.tracker.enabled, after, whole);
    if routes_hold(b.model) {
        let good = |slot: int, w: Scalar| keeps_input(b.model, w);
        assert forall|slot: int| 0 <= slot < p.weights.len() implies #[trigger] good(
            slot,
            p.weights[slot],
        ) by {
            assert(keeps_input(b.model, b.model.input.weights[slot]));
        }
        lemma_pass_ends_keeps(good, propose, places, p, b.tracker.enabled, after, whole);
        assert forall|slot: int| 0 <= slot < a.model.input.weights.len() implies keeps_input(
            a.model,
            #[trigger] a.model.input.weights[slot],
        ) by {
            assert(good(slot, after.weights[slot]));
        }
        assert(routes_hold(a.model));
    }
}

/// The synapses that are balanced come from inhibitory neurons.
pub proof fn lemma_inhibitory_sources(m: Model, neurons: int, active: Seq<usize>, upto: int)
    requires
        0 <= upto <= active.len(),
        all_below(active, neurons),
        0 < m.recurrent.capacity_per_neuron,
        m.recurrent.weight.len() == neurons * m.recurrent.capacity_per_neuron,
    ensures
        all_below(inhibitory_slots(m, active, upto), m.recurrent.weight.len() as int),
        forall|k: int|
            0 <= k < inhibitory_slots(m, active, upto).len() ==> m.neurons.neuron_type[(
            #[trigger] inhibitory_slots(m, active, upto)[k]) as int
                / m.recurrent.capacity_per_neuron as int] != 0,
    decreases upto,
{
    if upto > 0 {
        lemma_inhibitory_sources(m, neurons, active, upto - 1);
        let source = active[upto - 1] as int;
        let capacity = m.recurrent.capacity_per_neuron as int;
        let before = inhibitory_slots(m, active, upto - 1);
        let all = inhibitory_slots(m, active, upto);
        assert forall|k: int| 0 <= k < all.len() implies m.neurons.neuron_type[(
        #[trigger] all[k]) as int / capacity] != 0 && all[k] < m.recurrent.weight.len() by {
            if k < before.len() {
                assert(all[k] == before[k]);
            } else {
                let j = k - before.len();
                crate::runtime::lemma_place(source, j, neurons, capacity);
                assert(all[k] as int == source * capacity + j);
            }
        }
    }
}

pub proof fn lemma_balance_keeps<T: Numerics>(
    ops: T,
    b: Runtime,
    strength: Scalar,
    a: Runtime,
    whole: bool,
)
    requires
        fits(b),
        balanced(ops, b, strength, a, whole),
    ensures
        keeps(b, a),
{
    reveal(balanced);
    let l = b.model.config.learning;
    let propose = inhibitory_proposal(
        ops,
        b.model,
        b.state.activation@,
        b.model.config.dynamics.target_activity,
        l.inhibitory_learning_rate,
        strength,
        l.max_update,
        l.weight_min,
    );
    let places = inhibitory_slots(b.model, b.active@, b.active@.len() as int);
    lemma_inhibitory_sources(b.model, b.size(), b.active@, b.active@.len() as int);
    let p = pass_of(b.model.recurrent.weight@, b.tracker.recurrent_weight);
    let after = pass_of(a.model.recurrent.weight@, a.tracker.recurrent_weight);
    let anything = |slot: int, w: Scalar| true;
    lemma_pass_ends_keeps(anything, propose, places, p, b.tracker.enabled, after, whole);
    if routes_hold(b.model) {
        let good = |slot: int, w: Scalar| keeps_route(b.model, slot, w);
        assert forall|slot: int| 0 <= slot < p.weights.len() implies #[trigger] good(
            slot,
            p.weights[slot],
        ) by {
            assert(keeps_route(b.model, slot, b.model.recurrent.weight[slot]));
        }
        lemma_pass_ends_keeps(good, propose, places, p, b.tracker.enabled, after, whole);
        assert forall|slot: int| 0 <= slot < a.model.recurrent.weight.len() implies keeps_route(
            a.model,
            slot,
            #[trigger] a.model.recurrent.weight[slot],
        ) by {
            assert(good(slot, after.weights[slot]));
        }
        assert(routes_hold(a.model));
    }
}

proof fn lemma_thresholds_keep<T: Numerics>(ops: T, b: Runtime, a: Runtime)
    requires
        fits(b),
        thresholds_moved(ops, b, a),
    ensures
        keeps(b, a),
{
    reveal(thresholds_moved);
    let d = b.model.config.dynamics;
    let propose = threshold_proposal(
        ops,
        b.state.activation@,
        d.target_activity,
        d.threshold_homeostasis_rate,
        ops.difference(share(ops, b.active@.len() as int, b.size()), d.target_activity),
    );
    let places = b.touched.list@;
    let p = pass_of(b.model.neurons.threshold@, b.tracker.threshold);
    let after = pass_of(a.model.neurons.threshold@, a.tracker.threshold);
    let upto = places.len() as int;
    let anything = |slot: int, w: Scalar| true;
    lemma_pass_keeps(anything, propose, places, p, b.tracker.enabled, upto);
    if routes_hold(b.model) {
        let good = |slot: int, w: Scalar| keeps_threshold(w);
        assert forall|slot: int| 0 <= slot < p.weights.len() implies #[trigger] good(
            slot,
            p.weights[slot],
        ) by {
            assert(keeps_threshold(b.model.neurons.threshold[slot]));
        }
        lemma_pass_keeps(good, propose, places, p, b.tracker.enabled, upto);
        assert forall|slot: int|
            0 <= slot < a.model.neurons.threshold.len() implies keeps_threshold(
            #[trigger] a.model.neurons.threshold[slot],
        ) by {
            assert(good(slot, after.weights[slot]));
        }
        assert(routes_hold(a.model));
    }
}

/// A lesson keeps the network and its routes.
proof fn lemma_lesson_keeps<T: Numerics>(
    ops: T,
    b: Runtime,
    l: Lesson,
    a: Runtime,
    r: LeoResult<EligibilitySum>,
)
    requires
        fits(b),
        lesson_taken(ops, b, l, a, r),
    ensures
        keeps(b, a),
{
    let t = choose|t: LessonTrace| #[trigger] t.explains(ops, b, l, a, r);
    reveal(LessonTrace::explains);
    let (scale, phase) = l.schedule(ops, b);
    assert(keeps(b, t.readout)) by {
        reveal(Lesson::starts);
        assert(keeps(b, t.told)) by {
            reveal(told);
        }
        assert(keeps(t.told, t.readout)) by {
            reveal(readout_learned);
        }
    }
    if t.bad_bias is None {
        assert(keeps(t.readout, t.context)) by {
            reveal(Lesson::contextual);
            reveal(context_learned);
        }
        if t.context_result is Ok {
            let learned = if t.synapses.recurrent_whole {
                t.synapses.input
            } else {
                t.synapses.recurrent
            };
            let consolidated = ops.product(l.supervised(ops), scale);
            assert(keeps(t.context, learned)) by {
                reveal(Lesson::synaptic);
                if nought().below(scale) {
                    lemma_recurrent_keeps(
                        ops,
                        t.context,
                        consolidated,
                        t.synapses.recurrent,
                        t.synapses.recurrent_whole,
                    );
                    if t.synapses.recurrent_whole {
                        lemma_inputs_keep(
                            ops,
                            t.synapses.recurrent,
                            consolidated,
                            t.synapses.input,
                            t.synapses.input_whole,
                        );
                    }
                }
            }
            if t.synapses.recurrent_whole && t.synapses.input_whole {
                reveal(Lesson::closes);
                lemma_balance_keeps(ops, learned, l.strength, t.balanced, t.balanced_whole);
            }
        }
    }
}

/// The stages up to the prediction neither change the network nor its weights, nor the clock.
pub proof fn lemma_stages_keep<T: Numerics>(
    ops: T,
    b: Runtime,
    symbol: u32,
    target: Option<u32>,
    permission: Permission,
    s: StageTrace,
)
    requires
        s.leads_on(ops, b, symbol, target, permission),
    ensures
        s.predicted.model.same_but_context_table(b.model),
        s.predicted.current_tick == b.current_tick,
        s.predicted.alphabet == b.alphabet,
        s.predicted.tracker.enabled == b.tracker.enabled,
        fits(s.predicted),
{
    reveal(StageTrace::leads_on);
    assert(s.opened.model.same_but_context_table(b.model) && s.opened.current_tick
        == b.current_tick && s.opened.alphabet == b.alphabet && s.opened.tracker.enabled == b.tracker.enabled) by {
        reveal(opened);
    }
    assert(s.received.model == s.opened.model && s.received.current_tick
        == s.opened.current_tick && s.received.alphabet == s.opened.alphabet && s.received.tracker.enabled == s.opened.tracker.enabled) by {
        reveal(received);
    }
    assert(s.competed.model == s.received.model && s.competed.current_tick
        == s.received.current_tick && s.competed.alphabet == s.received.alphabet && s.competed.tracker.enabled == s.received.tracker.enabled) by {
        reveal(competed);
    }
    assert(s.followed.model == s.competed.model && s.followed.current_tick
        == s.competed.current_tick && s.followed.alphabet == s.competed.alphabet && s.followed.tracker.enabled == s.competed.tracker.enabled) by {
        reveal(followed_all);
    }
    assert(s.rested.model == s.followed.model && s.rested.current_tick
        == s.followed.current_tick && s.rested.alphabet == s.followed.alphabet && s.rested.tracker.enabled == s.followed.tracker.enabled) by {
        reveal(rested);
    }
    assert(s.sent.model == s.rested.model && s.sent.current_tick == s.rested.current_tick && s.sent.alphabet == s.rested.alphabet && s.sent.tracker.enabled == s.rested.tracker.enabled) by {
        reveal(sent);
    }
    assert(s.predicted.model == s.sent.model && s.predicted.current_tick
        == s.sent.current_tick && s.predicted.alphabet == s.sent.alphabet && s.predicted.tracker.enabled == s.sent.tracker.enabled) by {
        reveal(predicted);
    }
    assert(fits(s.predicted)) by {
        reveal(Runtime::steady);
    }
}

/// A step leaves the network as it was wired. Where every excitatory neuron excites and every
/// inhibitory one inhibits, within the bounds of learning, that is so after the step as well. A
/// step that comes to its end moves the clock on by one tick. The alphabet stays, and changes are
/// tracked after a step where they were before it.
pub proof fn law_steps_keep_the_routes<T: Numerics>(
    ops: T,
    b: Runtime,
    symbol: u32,
    target: Option<u32>,
    permission: Permission,
    a: Runtime,
    r: LeoResult<StepMetrics>,
)
    requires
        step_taken(ops, b, symbol, target, permission, a, r),
    ensures
        same_network(b.model, a.model),
        routes_hold(b.model) ==> routes_hold(a.model),
        a.alphabet == b.alphabet,
        a.tracker.enabled == b.tracker.enabled,
        a.current_tick == if r is Ok {
            capped_sum(b.current_tick, 1)
        } else {
            b.current_tick
        },
{
    let t = choose|t: StepTrace| #[trigger] t.explains(ops, b, symbol, target, permission, a, r);
    let s = t.stages;
    reveal(StepTrace::explains);
    lemma_stages_keep(ops, b, symbol, target, permission, s);
    assert(routes_hold(b.model) ==> routes_hold(s.predicted.model));
    assert(keeps(s.predicted, t.learned)) by {
        reveal(StageTrace::teaches);
        if s.step.learns {
            lemma_lesson_keeps(
                ops,
                s.predicted,
                Lesson {
                    class: s.step.target_class->0,
                    strength: s.step.strength,
                    weight: class_weight(s.predicted, s.step.target_class->0),
                },
                t.learned,
                t.lesson,
            );
        }
    }
    if t.lesson is Ok {
        if permission != Permission::Frozen {
            lemma_thresholds_keep(ops, t.learned, t.balanced);
        }
        reveal(step_closed);
    }
}

} // verus!
