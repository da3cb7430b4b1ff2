//! What a runtime notes of its changes.

use crate::arithmetic::Numerics;
use crate::dynamics::share;
use crate::error::LeoResult;
use crate::learning::nought;
use crate::lesson::{lesson_taken, EligibilitySum, Lesson, LessonTrace, SynapseParts};
use crate::lesson_parts::{
    balanced, context_learned, input_learned, readout_learned, recurrent_learned, told,
};
use crate::marks::{accumulated, law_accumulation_is_a_union, MarkList};
use crate::metrics::StepMetrics;
use crate::model::{all_finite, Model};
use crate::parallel::{covers, gives, moved};
use crate::permission::Permission;
use crate::plasticity::{
    inhibitory_proposal, inhibitory_slots, input_proposal, output_proposal, pass_ends, pass_of,
    passed, readout_places, recurrent_proposal, stops_at, threshold_proposal, unlisted, WeightPass,
};
use crate::runtime::{all_below, opened, Runtime};
use crate::scalar::Scalar;
use crate::stages::{competed, followed_all, predicted, received, rested, sent};
use crate::step::{
    class_weight, step_closed, step_taken, thresholds_moved, StageTrace, StepTrace,
};
use crate::step_laws::{
    fits, keeps, lemma_balance_keeps, lemma_inhibitory_sources, lemma_inputs_keep,
    lemma_recurrent_keeps, lemma_stages_keep,
};
use vstd::prelude::*;

verus! {

/// The two numbers are one and the same, or equal in value.
pub open spec fn same_value(a: Scalar, b: Scalar) -> bool {
    a == b || !a.unequal(b)
}

/// Every number that differs in value from what it was is marked.
pub open spec fn noted(base: Seq<Scalar>, numbers: Seq<Scalar>, mark: Seq<bool>) -> bool {
    &&& numbers.len() == base.len()
    &&& mark.len() == base.len()
    &&& forall|i: int|
        0 <= i < base.len() ==> mark[i] || same_value(#[trigger] numbers[i], base[i])
}

/// Every neuron with an output weight that differs in value from what it was is marked.
pub open spec fn outputs_noted(
    base: Seq<Scalar>,
    numbers: Seq<Scalar>,
    mark: Seq<bool>,
    neurons: int,
) -> bool {
    &&& numbers.len() == base.len()
    &&& mark.len() == neurons
    &&& forall|i: int|
        0 <= i < base.len() ==> mark[i % neurons] || same_value(#[trigger] numbers[i], base[i])
}

/// A runtime that tracks its changes has noted everything in which its fixed parameters differ
/// from those of a model.
pub open spec fn notes_all(base: Model, r: Runtime) -> bool {
    let m = r.model;
    let t = r.tracker;
    &&& t.enabled
    &&& noted(base.neurons.threshold@, m.neurons.threshold@, t.threshold.mark@)
    &&& noted(base.recurrent.weight@, m.recurrent.weight@, t.recurrent_weight.mark@)
    &&& noted(base.input.weights@, m.input.weights@, t.input_weight.mark@)
    &&& outputs_noted(base.output.weights@, m.output.weights@, t.output_neurons.mark@, r.size())
    &&& t.output_bias_dirty || m.output.bias@ == base.output.bias@
    &&& t.context_output_dirty || m.context.output_weights@ == base.context.output_weights@
}

/// A runtime that starts to track has noted everything in which it differs from its own model.
pub proof fn law_tracking_starts_complete(r: Runtime)
    requires
        r.wf(),
        r.tracker.enabled,
    ensures
        notes_all(r.model, r),
{
}

/// The difference of two finite numbers that are equal in value is zero.
pub open spec fn cancels<F: Fn(Scalar, Scalar) -> Scalar>(f: F) -> bool {
    forall|a: Scalar, b: Scalar, d: Scalar|
        a.finite() && b.finite() && same_value(a, b) && #[trigger] gives(f, a, b, d) ==> !moved(d)
}

/// What was noted covers what changed: a delta of the noted places misses no finite number that
/// moved.
pub proof fn law_notes_cover_the_changes<F: Fn(Scalar, Scalar) -> Scalar>(
    f: F,
    base: Seq<Scalar>,
    numbers: Seq<Scalar>,
    list: MarkList,
)
    requires
        cancels(f),
        all_finite(base),
        all_finite(numbers),
        list.wf(),
        noted(base, numbers, list.mark@),
        base.len() <= usize::MAX,
    ensures
        covers(f, base, numbers, list.list@),
{
    assert forall|i: int, d: Scalar|
        0 <= i < base.len() && i < numbers.len() && #[trigger] gives(f, numbers[i], base[i], d)
            && moved(d) implies list.list@.contains(i as usize) by {
        assert(list.mark@[i] || same_value(numbers[i], base[i]));
        assert(list.mark@[(i as usize) as int] <==> list.list@.contains(i as usize));
    }
}

/// A pass notes what it changes.
proof fn lemma_pass_notes(
    base: Seq<Scalar>,
    propose: spec_fn(Seq<Scalar>, int) -> Scalar,
    places: Seq<usize>,
    p: WeightPass,
    upto: int,
)
    requires
        0 <= upto <= places.len(),
        all_below(places, base.len() as int),
        noted(base, p.weights, p.mark),
    ensures
        noted(
            base,
            passed(propose, places, p, true, upto).weights,
            passed(propose, places, p, true, upto).mark,
        ),
    decreases upto,
{
    if upto > 0 {
        lemma_pass_notes(base, propose, places, p, upto - 1);
        let before = passed(propose, places, p, true, upto - 1);
        let after = passed(propose, places, p, true, upto);
        let place = places[upto - 1] as int;
        let value = propose(before.weights, place);
        assert(after.weights == before.weights.update(place, value));
        assert forall|i: int| 0 <= i < base.len() implies after.mark[i] || same_value(
            #[trigger] after.weights[i],
            base[i],
        ) by {
            assert(before.mark[i] || same_value(before.weights[i], base[i]));
        }
    }
}

/// A pass that ends notes what it changes.
proof fn lemma_pass_ends_notes(
    base: Seq<Scalar>,
    propose: spec_fn(Seq<Scalar>, int) -> Scalar,
    places: Seq<usize>,
    p: WeightPass,
    after: WeightPass,
    whole: bool,
)
    requires
        pass_ends(propose, places, p, true, after, whole),
        all_below(places, base.len() as int),
        noted(base, p.weights, p.mark),
    ensures
        noted(base, after.weights, after.mark),
{
    let upto = if whole {
        places.len() as int
    } else {
        choose|i: int|
            #[trigger] stops_at(propose, places, p, true, i) && after == passed(
                propose,
                places,
                p,
                true,
                i,
            )
    };
    lemma_pass_notes(base, propose, places, p, upto);
}

/// A pass leaves the places alone that it does not visit.
pub proof fn lemma_pass_leaves(
    propose: spec_fn(Seq<Scalar>, int) -> Scalar,
    places: Seq<usize>,
    p: WeightPass,
    enabled: bool,
    upto: int,
    at: int,
)
    requires
        0 <= upto <= places.len(),
        all_below(places, p.weights.len() as int),
        0 <= at < p.weights.len(),
        forall|k: int| 0 <= k < upto ==> (#[trigger] places[k]) as int != at,
    ensures
        passed(propose, places, p, enabled, upto).weights.len() == p.weights.len(),
        passed(propose, places, p, enabled, upto).weights[at] == p.weights[at],
    decreases upto,
{
    if upto > 0 {
        lemma_pass_leaves(propose, places, p, enabled, upto - 1, at);
        assert(places[upto - 1] as int != at);
    }
}

/// A pass keeps the number of the weights.
pub proof fn lemma_pass_len(
    propose: spec_fn(Seq<Scalar>, int) -> Scalar,
    places: Seq<usize>,
    p: WeightPass,
    enabled: bool,
    upto: int,
)
    requires
        0 <= upto <= places.len(),
        all_below(places, p.weights.len() as int),
    ensures
        passed(propose, places, p, enabled, upto).weights.len() == p.weights.len(),
    decreases upto,
{
    if upto > 0 {
        lemma_pass_len(propose, places, p, enabled, upto - 1);
        assert(places[upto - 1] < p.weights.len());
    }
}

/// A place of the readout belongs to an active neuron.
proof fn lemma_readout_place(active: Seq<usize>, neurons: int, classes: int, k: int)
    requires
        0 < neurons,
        0 < classes,
        classes * neurons <= usize::MAX,
        all_below(active, neurons),
        0 <= k < active.len() * classes,
    ensures
        readout_places(active, neurons, classes)[k] < classes * neurons,
        active.contains(
            (readout_places(active, neurons, classes)[k] as int % neurons) as usize,
        ),
{
    crate::plasticity::lemma_source(k, active.len() as int, classes);
    let at = k / classes;
    let class = k % classes;
    vstd::arithmetic::div_mod::lemma_mod_bound(k, classes);
    let neuron = active[at] as int;
    crate::runtime::lemma_place(class, neuron, classes, neurons);
    assert(readout_places(active, neurons, classes)[k] as int == class * neurons + neuron);
    assert(active[at] as int == (class * neurons + neuron) % neurons);
}

/// What the readout learns is noted.
proof fn lemma_readout_notes<T: Numerics>(
    ops: T,
    base: Model,
    b: Runtime,
    rate: Scalar,
    bad: Option<usize>,
    a: Runtime,
)
    requires
        readout_learned(ops, b, rate, bad, a),
        notes_all(base, b),
        b.tracker.output_neurons.wf(),
        0 < b.size(),
        0 < b.alphabet.output_classes,
        b.model.output.weights.len() == b.alphabet.output_classes * b.size(),
        all_below(b.active@, b.size()),
    ensures
        notes_all(base, a),
{
    reveal(readout_learned);
    let classes = b.alphabet.output_classes as int;
    let neurons = b.size();
    let places = readout_places(b.active@, neurons, classes);
    let upto = b.active@.len() * classes;
    let p = unlisted(b.model.output.weights@);
    let propose = output_proposal(
        ops,
        rate,
        b.numbers.errors@,
        b.state.activation@,
        b.weight_bounds(),
    );
    let after = passed(propose, places, p, false, upto);
    assert(after.weights == a.model.output.weights@);
    assert(0 <= b.active@.len() * classes) by (nonlinear_arith)
        requires
            0 < classes,
    ;
    assert(places.len() == upto);
    assert forall|k: int| 0 <= k < places.len() implies (#[trigger] places[k])
        < p.weights.len() by {
        lemma_readout_place(b.active@, neurons, classes, k);
    }
    lemma_pass_len(propose, places, p, false, upto);
    let marks = b.tracker.output_neurons.mark@;
    let list = b.tracker.output_neurons.list@;
    law_accumulation_is_a_union(list, marks, b.active@, b.active@.len() as int);
    let (new_list, new_marks) = accumulated(list, marks, b.active@, b.active@.len() as int);
    assert(b.active@.take(b.active@.len() as int) =~= b.active@);
    assert forall|i: int| 0 <= i < base.output.weights@.len() implies new_marks[i % neurons]
        || same_value(#[trigger] a.model.output.weights@[i], base.output.weights@[i]) by {
        vstd::arithmetic::div_mod::lemma_mod_bound(i, neurons);
        let neuron = (i % neurons) as usize;
        if !new_marks[neuron as int] {
            assert(!new_list.contains(neuron));
            assert(!b.active@.contains(neuron));
            assert(!marks[neuron as int]);
            assert forall|k: int| 0 <= k < upto implies (#[trigger] places[k]) as int != i by {
                lemma_readout_place(b.active@, neurons, classes, k);
            }
            lemma_pass_leaves(propose, places, p, false, upto, i);
            assert(same_value(b.model.output.weights@[i], base.output.weights@[i]));
        }
    }
}

/// What balancing changes is noted.
proof fn lemma_balance_notes<T: Numerics>(
    ops: T,
    base: Model,
    b: Runtime,
    strength: Scalar,
    a: Runtime,
    whole: bool,
)
    requires
        fits(b),
        balanced(ops, b, strength, a, whole),
        notes_all(base, b),
    ensures
        notes_all(base, a),
        fits(a),
{
    lemma_balance_keeps(ops, b, strength, a, whole);
    reveal(balanced);
    let l = b.model.config.learning;
    let propose = inhibitory_proposal(
        ops,
        b.model,
        b.state.activation@,
        b.model.config.dynamics.target_activity,
        l.inhibitory_learning_rate,
        strength,
        l.max_update,
        l.weight_min,
    );
    lemma_inhibitory_sources(b.model, b.size(), b.active@, b.active@.len() as int);
    lemma_pass_ends_notes(
        base.recurrent.weight@,
        propose,
        inhibitory_slots(b.model, b.active@, b.active@.len() as int),
        pass_of(b.model.recurrent.weight@, b.tracker.recurrent_weight),
        pass_of(a.model.recurrent.weight@, a.tracker.recurrent_weight),
        whole,
    );
}

/// What learning the synapses changes is noted.
proof fn lemma_synapses_note<T: Numerics>(
    ops: T,
    base: Model,
    l: Lesson,
    scale: Scalar,
    b: Runtime,
    parts: SynapseParts,
    a: Runtime,
)
    requires
        fits(b),
        l.synaptic(ops, scale, b, parts, a),
        notes_all(base, b),
    ensures
        notes_all(base, a),
        fits(a),
{
    reveal(Lesson::synaptic);
    let consolidated = ops.product(l.supervised(ops), scale);
    if nought().below(scale) {
        let middle = parts.recurrent;
        lemma_recurrent_keeps(ops, b, consolidated, middle, parts.recurrent_whole);
        assert(notes_all(base, middle)) by {
            reveal(recurrent_learned);
            let rate = ops.product(
                b.model.config.learning.recurrent_learning_rate.opposite(),
                consolidated,
            );
            lemma_pass_ends_notes(
                base.recurrent.weight@,
                recurrent_proposal(
                    ops,
                    rate,
                    b.model,
                    b.numbers.signal@,
                    b.recurrent_traces.eligibility@,
                    b.weight_bounds(),
                ),
                b.recurrent_traces.eligible.list@,
                pass_of(b.model.recurrent.weight@, b.tracker.recurrent_weight),
                pass_of(middle.model.recurrent.weight@, middle.tracker.recurrent_weight),
                parts.recurrent_whole,
            );
        }
        if parts.recurrent_whole {
            lemma_inputs_keep(ops, middle, consolidated, parts.input, parts.input_whole);
            assert(notes_all(base, parts.input)) by {
                reveal(input_learned);
                let rate = ops.product(
                    middle.model.config.learning.recurrent_learning_rate.opposite(),
                    consolidated,
                );
                lemma_pass_ends_notes(
                    base.input.weights@,
                    input_proposal(
                        ops,
                        rate,
                        middle.model.input.targets@,
                        middle.numbers.signal@,
                        middle.input_traces.eligibility@,
                        middle.input_bounds(),
                    ),
                    middle.input_traces.eligible.list@,
                    pass_of(middle.model.input.weights@, middle.tracker.input_weight),
                    pass_of(parts.input.model.input.weights@, parts.input.tracker.input_weight),
                    parts.input_whole,
                );
            }
        }
    }
}

/// What a lesson changes is noted.
proof fn lemma_lesson_notes<T: Numerics>(
    ops: T,
    base: Model,
    b: Runtime,
    l: Lesson,
    a: Runtime,
    r: LeoResult<EligibilitySum>,
)
    requires
        b.steady(),
        0 < b.alphabet.output_classes,
        fits(b),
        lesson_taken(ops, b, l, a, r),
        notes_all(base, b),
    ensures
        notes_all(base, a),
        fits(a),
{
    let t = choose|t: LessonTrace| #[trigger] t.explains(ops, b, l, a, r);
    reveal(LessonTrace::explains);
    let (scale, phase) = l.schedule(ops, b);
    assert(keeps(b, t.told) && notes_all(base, t.told) && t.told.tracker == b.tracker
        && t.told.model == b.model && t.told.active == b.active && t.told.alphabet == b.alphabet)
        by {
        reveal(Lesson::starts);
        reveal(told);
    }
    assert(notes_all(base, t.readout)) by {
        reveal(Lesson::starts);
        assert(b.tracker.output_neurons.wf() && 0 < b.size() && b.model.output.weights.len()
            == b.alphabet.output_classes * b.size()) by {
            reveal(Runtime::steady);
        }
        lemma_readout_notes(
            ops,
            base,
            t.told,
            ops.product(
                b.model.config.learning.output_learning_rate.opposite(),
                l.supervised(ops),
            ),
            t.bad_bias,
            t.readout,
        );
    }
    assert(keeps(t.told, t.readout)) by {
        reveal(Lesson::starts);
        reveal(readout_learned);
    }
    if t.bad_bias is None {
        assert(keeps(t.readout, t.context) && notes_all(base, t.context)) by {
            reveal(Lesson::contextual);
            reveal(context_learned);
        }
        if t.context_result is Ok {
            let learned = if t.synapses.recurrent_whole {
                t.synapses.input
            } else {
                t.synapses.recurrent
            };
            lemma_synapses_note(ops, base, l, scale, t.context, t.synapses, learned);
            if t.synapses.recurrent_whole && t.synapses.input_whole {
                reveal(Lesson::closes);
                lemma_balance_notes(ops, base, learned, l.strength, t.balanced, t.balanced_whole);
            }
        }
    }
}

/// The stages up to the prediction change nothing that is tracked.
proof fn lemma_stages_note<T: Numerics>(
    ops: T,
    b: Runtime,
    symbol: u32,
    target: Option<u32>,
    permission: Permission,
    s: StageTrace,
)
    requires
        s.leads_on(ops, b, symbol, target, permission),
    ensures
        s.predicted.tracker == b.tracker,
        s.predicted.alphabet == b.alphabet,
{
    reveal(StageTrace::leads_on);
    assert(s.opened.tracker == b.tracker && s.opened.alphabet == b.alphabet) by {
        reveal(opened);
    }
    assert(s.received.tracker == s.opened.tracker && s.received.alphabet == s.opened.alphabet) by {
        reveal(received);
    }
    assert(s.competed.tracker == s.received.tracker && s.competed.alphabet
        == s.received.alphabet) by {
        reveal(competed);
    }
    assert(s.followed.tracker == s.competed.tracker && s.followed.alphabet
        == s.competed.alphabet) by {
        reveal(followed_all);
    }
    assert(s.rested.tracker == s.followed.tracker && s.rested.alphabet == s.followed.alphabet) by {
        reveal(rested);
    }
    assert(s.sent.tracker == s.rested.tracker && s.sent.alphabet == s.rested.alphabet) by {
        reveal(sent);
    }
    assert(s.predicted.tracker == s.sent.tracker && s.predicted.alphabet == s.sent.alphabet) by {
        reveal(predicted);
    }
}

/// A step notes what it changes: where every fixed parameter that differs in value from a base
/// model was noted before the step, it is noted after it.
pub proof fn law_steps_note_their_changes<T: Numerics>(
    ops: T,
    base: Model,
    b: Runtime,
    symbol: u32,
    target: Option<u32>,
    permission: Permission,
    a: Runtime,
    r: LeoResult<StepMetrics>,
)
    requires
        b.can_step(),
        step_taken(ops, b, symbol, target, permission, a, r),
        notes_all(base, b),
    ensures
        notes_all(base, a),
{
    let t = choose|t: StepTrace| #[trigger] t.explains(ops, b, symbol, target, permission, a, r);
    let s = t.stages;
    reveal(StepTrace::explains);
    lemma_stages_keep(ops, b, symbol, target, permission, s);
    lemma_stages_note(ops, b, symbol, target, permission, s);
    assert(notes_all(base, s.predicted));
    assert(s.predicted.steady()) by {
        reveal(StageTrace::leads_on);
    }
    assert(0 < s.predicted.alphabet.output_classes) by {
        reveal(Runtime::can_step);
    }
    assert(notes_all(base, t.learned) && fits(t.learned)) by {
        reveal(StageTrace::teaches);
        if s.step.learns {
            lemma_lesson_notes(
                ops,
                base,
                s.predicted,
                Lesson {
                    class: s.step.target_class->0,
                    strength: s.step.strength,
                    weight: class_weight(s.predicted, s.step.target_class->0),
                },
                t.learned,
                t.lesson,
            );
        }
    }
    if t.lesson is Ok {
        assert(notes_all(base, t.balanced)) by {
            if permission != Permission::Frozen {
                reveal(thresholds_moved);
                let x = t.learned;
                let d = x.model.config.dynamics;
                let propose = threshold_proposal(
                    ops,
                    x.state.activation@,
                    d.target_activity,
                    d.threshold_homeostasis_rate,
                    ops.difference(
                        share(ops, x.active@.len() as int, x.size()),
                        d.target_activity,
                    ),
                );
                lemma_pass_notes(
                    base.neurons.threshold@,
                    propose,
                    x.touched.list@,
                    pass_of(x.model.neurons.threshold@, x.tracker.threshold),
                    x.touched.list@.len() as int,
                );
            }
        }
        reveal(step_closed);
    }
}

} // verus!
