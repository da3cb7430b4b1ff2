//! What a step as a whole is for: it predicts, and where it may it learns from what came.

use crate::arithmetic::Numerics;
use crate::error::LeoError;
use crate::learning::{nought, unit};
use crate::learning_laws::{
    law_input_weights_learn_in_proportion, law_readouts_descend, law_readouts_learn_in_proportion,
    law_recurrent_weights_learn_in_proportion, learns_soundly, lemma_pass_len, within, Factors,
};
use crate::lesson::{lesson_taken, EligibilitySum, Lesson, LessonTrace};
use crate::lesson_laws::{law_balancing_leaves_excitation, law_errors_name_the_class_that_came};
use crate::lesson_parts::{
    balanced, context_learned, input_learned, readout_learned, recurrent_learned, told,
};
use crate::metrics::StepMetrics;
use crate::order::{alike, lemma_ones, minus_or_zero, orderly, plus_or_zero, zero};
use crate::permission::Permission;
use crate::plasticity::{pass_of, recurrent_proposal};
use crate::prediction::loss_of;
use crate::prediction_laws::law_losses_of_probabilities;
use crate::runtime::{all_below, is_argmax, Runtime};
use crate::scalar::Scalar;
use crate::step::{
    class_weight, metrics_fit, step_closed, step_taken, thresholds_moved, StageTrace, StepTrace,
};
use crate::step_laws::lemma_stages_keep;
use vstd::prelude::*;

verus! {

/// The lesson that a step teaches, where it teaches one.
pub open spec fn lesson_of(s: StageTrace) -> Lesson {
    Lesson {
        class: s.step.target_class->0,
        strength: s.step.strength,
        weight: class_weight(s.predicted, s.step.target_class->0),
    }
}

/// What a lesson that goes through consists of, part by part.
pub proof fn lemma_lesson_goes_through<T: Numerics>(
    ops: T,
    b: Runtime,
    l: Lesson,
    t: LessonTrace,
    a: Runtime,
    e: EligibilitySum,
)
    requires
        t.explains(ops, b, l, a, Ok::<EligibilitySum, LeoError>(e)),
    ensures
        l.starts(ops, b, t.told, None, t.readout),
        t.bad_bias is None,
        l.contextual(ops, t.readout, t.context, t.context_result),
        t.context_result is Ok,
        nought().below(l.schedule(ops, b).0) ==> recurrent_learned(
            ops,
            t.context,
            ops.product(l.supervised(ops), l.schedule(ops, b).0),
            t.synapses.recurrent,
            true,
        ),
        nought().below(l.schedule(ops, b).0) ==> input_learned(
            ops,
            t.synapses.recurrent,
            ops.product(l.supervised(ops), l.schedule(ops, b).0),
            t.synapses.input,
            true,
        ),
        !nought().below(l.schedule(ops, b).0) ==> t.synapses.input == t.context,
        balanced(ops, t.synapses.input, l.strength, t.balanced, true),
        a.model == t.balanced.model,
        a.alphabet == t.balanced.alphabet,
        a.state == t.balanced.state,
        a.active == t.balanced.active,
        a.ring == t.balanced.ring,
        a.touched == t.balanced.touched,
        a.context_slots == t.balanced.context_slots,
        a.context_applied == t.balanced.context_applied,
        a.recurrent_traces == t.balanced.recurrent_traces,
        a.input_traces == t.balanced.input_traces,
        a.numbers.probabilities == t.balanced.numbers.probabilities,
        a.numbers.errors == t.balanced.numbers.errors,
        a.numbers.signal == t.balanced.numbers.signal,
{
    reveal(LessonTrace::explains);
    reveal(Lesson::synaptic);
    reveal(Lesson::closes);
}

/// What the parts of a lesson after its start leave alone.
pub open spec fn same_lesson(b: Runtime, a: Runtime) -> bool {
    &&& a.alphabet == b.alphabet
    &&& a.state == b.state
    &&& a.active == b.active
    &&& a.ring == b.ring
    &&& a.touched == b.touched
    &&& a.model.statistics == b.model.statistics
    &&& a.context_slots == b.context_slots
    &&& a.context_applied == b.context_applied
    &&& a.recurrent_traces == b.recurrent_traces
    &&& a.input_traces == b.input_traces
    &&& a.numbers.probabilities == b.numbers.probabilities
    &&& a.numbers.errors == b.numbers.errors
    &&& a.numbers.signal == b.numbers.signal
    &&& a.model.config == b.model.config
    &&& a.model.neurons == b.model.neurons
    &&& a.model.recurrent.target_neuron == b.model.recurrent.target_neuron
    &&& a.model.recurrent.capacity_per_neuron == b.model.recurrent.capacity_per_neuron
    &&& a.model.input.targets == b.model.input.targets
}

/// What each part of a lesson leaves alone.
pub proof fn lemma_lesson_frames<T: Numerics>(
    ops: T,
    b: Runtime,
    l: Lesson,
    t: LessonTrace,
    a: Runtime,
    e: EligibilitySum,
)
    requires
        t.explains(ops, b, l, a, Ok::<EligibilitySum, LeoError>(e)),
    ensures
        t.told.model == b.model,
        t.told.alphabet == b.alphabet,
        t.told.state == b.state,
        t.told.active == b.active,
        t.told.ring == b.ring,
        t.told.touched == b.touched,
        t.told.recurrent_traces == b.recurrent_traces,
        t.told.input_traces == b.input_traces,
        t.told.context_slots == b.context_slots,
        t.told.context_applied == b.context_applied,
        t.told.numbers.probabilities == b.numbers.probabilities,
        same_lesson(t.told, t.readout),
        same_lesson(t.readout, t.context),
        same_lesson(t.context, t.synapses.input),
        nought().below(l.schedule(ops, b).0) ==> same_lesson(t.context, t.synapses.recurrent),
        same_lesson(t.synapses.input, a),
        t.readout.model.recurrent == t.told.model.recurrent,
        t.readout.model.input == t.told.model.input,
        t.readout.model.context == t.told.model.context,
        t.context.model.output == t.readout.model.output,
        t.context.model.recurrent == t.readout.model.recurrent,
        t.context.model.input == t.readout.model.input,
        a.model.output == t.readout.model.output,
        a.model.context == t.context.model.context,
        a.model.input == t.synapses.input.model.input,
        nought().below(l.schedule(ops, b).0) ==> t.synapses.recurrent.model.input
            == t.context.model.input && t.synapses.input.model.recurrent
            == t.synapses.recurrent.model.recurrent,
{
    lemma_lesson_goes_through(ops, b, l, t, a, e);
    assert(told(ops, b, l.class as int, l.schedule(ops, b).0, t.told)) by {
        reveal(Lesson::starts);
    }
    assert(same_lesson(t.told, t.readout) && t.readout.model.recurrent == t.told.model.recurrent
        && t.readout.model.input == t.told.model.input && t.readout.model.context
        == t.told.model.context) by {
        reveal(Lesson::starts);
        reveal(readout_learned);
    }
    reveal(told);
    assert(same_lesson(t.readout, t.context) && t.context.model.output == t.readout.model.output
        && t.context.model.recurrent == t.readout.model.recurrent && t.context.model.input
        == t.readout.model.input) by {
        reveal(Lesson::contextual);
        reveal(context_learned);
    }
    if nought().below(l.schedule(ops, b).0) {
        assert(same_lesson(t.context, t.synapses.recurrent)
            && t.synapses.recurrent.model.output == t.context.model.output
            && t.synapses.recurrent.model.context == t.context.model.context
            && t.synapses.recurrent.model.input == t.context.model.input) by {
            reveal(recurrent_learned);
        }
        assert(same_lesson(t.synapses.recurrent, t.synapses.input)
            && t.synapses.input.model.output == t.synapses.recurrent.model.output
            && t.synapses.input.model.context == t.synapses.recurrent.model.context
            && t.synapses.input.model.recurrent == t.synapses.recurrent.model.recurrent) by {
            reveal(input_learned);
        }
    }
    assert(same_lesson(t.synapses.input, t.balanced) && t.balanced.model.output
        == t.synapses.input.model.output && t.balanced.model.context
        == t.synapses.input.model.context && t.balanced.model.input
        == t.synapses.input.model.input) by {
        reveal(balanced);
    }
}

/// A step that learned comes from a lesson on what it predicted, and what follows the lesson leaves
/// weights, traces and numbers alone.
pub proof fn lemma_learning_step<T: Numerics>(
    ops: T,
    b: Runtime,
    symbol: u32,
    target: u32,
    permission: Permission,
    a: Runtime,
    m: StepMetrics,
) -> (r: (StepTrace, LessonTrace, EligibilitySum))
    requires
        step_taken(
            ops,
            b,
            symbol,
            Some(target),
            permission,
            a,
            Ok::<StepMetrics, LeoError>(m),
        ),
        nought().below(permission.strength_in(b.model.config)),
        b.alphabet.class(target) is Some,
    ensures
        ({
            let (t, l, e) = r;
            let s = t.stages;
            &&& s.leads_on(ops, b, symbol, Some(target), permission)
            &&& s.step.learns
            &&& s.step.target_class == b.alphabet.class(target)
            &&& s.step.strength == permission.strength_in(b.model.config)
            &&& s.predicted.model.same_but_context_table(b.model)
            &&& s.predicted.alphabet == b.alphabet
            &&& l.explains(
                ops,
                s.predicted,
                lesson_of(s),
                t.learned,
                Ok::<EligibilitySum, LeoError>(e),
            )
            &&& a.alphabet == t.learned.alphabet
            &&& a.state == t.learned.state
            &&& a.active == t.learned.active
            &&& a.context_slots == t.learned.context_slots
            &&& a.context_applied == t.learned.context_applied
            &&& a.recurrent_traces == t.learned.recurrent_traces
            &&& a.input_traces == t.learned.input_traces
            &&& a.numbers == t.learned.numbers
            &&& a.model.output == t.learned.model.output
            &&& a.model.input == t.learned.model.input
            &&& a.model.recurrent == t.learned.model.recurrent
            &&& a.model.context == t.learned.model.context
            &&& a.model.config == t.learned.model.config
            &&& m.loss == Some(
                loss_of(ops, s.predicted.numbers.probabilities@[s.step.target_class->0 as int]),
            )
        }),
{
    let ok = Ok::<StepMetrics, LeoError>(m);
    let t = choose|t: StepTrace| #[trigger]
        t.explains(ops, b, symbol, Some(target), permission, a, ok);
    let s = t.stages;
    reveal(StepTrace::explains);
    lemma_stages_keep(ops, b, symbol, Some(target), permission, s);
    assert(crate::runtime::opened(b, symbol, Some(target), permission, s.step, s.opened)) by {
        reveal(StageTrace::leads_on);
    }
    assert(s.step.learns) by {
        reveal(crate::runtime::opened);
    }
    assert(s.step.target_class == b.alphabet.class(target)) by {
        reveal(crate::runtime::opened);
    }
    assert(s.step.strength == permission.strength_in(b.model.config)) by {
        reveal(crate::runtime::opened);
    }
    let e = t.lesson->Ok_0;
    assert(lesson_taken(
        ops,
        s.predicted,
        lesson_of(s),
        t.learned,
        Ok::<EligibilitySum, LeoError>(e),
    )) by {
        reveal(StageTrace::teaches);
    }
    let l = choose|l: LessonTrace| #[trigger]
        l.explains(
            ops,
            s.predicted,
            lesson_of(s),
            t.learned,
            Ok::<EligibilitySum, LeoError>(e),
        );
    if permission != Permission::Frozen {
        reveal(thresholds_moved);
    }
    reveal(step_closed);
    let best = choose|best: int|
        #[trigger] is_argmax(a.numbers.probabilities@, best) && m == t.measured(ops, best, a);
    assert(metrics_fit(ops, t, a, m));
    assert(m == t.measured(ops, best, a));
    (t, l, e)
}

/// How strongly a step is supervised: by its permission, and at the end of a document by the weight
/// of that end as well.
pub open spec fn supervision<T: Numerics>(ops: T, b: Runtime, target: u32, p: Permission) -> Scalar {
    let strength = p.strength_in(b.model.config);
    if b.alphabet.class(target) == Some(b.alphabet.end_document_class) {
        ops.product(strength, b.model.config.learning.end_document_weight)
    } else {
        ops.product(strength, unit())
    }
}

/// Learning makes what came likelier: over a step that learned from a target, the bias of its class
/// does not fall, and the biases of all other classes do not rise. The step's loss is zero where the
/// class had been certain, and never negative.
pub proof fn law_steps_learn_what_came<T: Numerics>(
    ops: T,
    b: Runtime,
    symbol: u32,
    target: u32,
    permission: Permission,
    a: Runtime,
    m: StepMetrics,
    class: int,
    other: int,
)
    requires
        orderly(ops),
        step_taken(
            ops,
            b,
            symbol,
            Some(target),
            permission,
            a,
            Ok::<StepMetrics, LeoError>(m),
        ),
        nought().below(permission.strength_in(b.model.config)),
        b.alphabet.class(target) == Some(class as usize),
        0 <= class < b.alphabet.output_classes,
        0 <= other < b.alphabet.output_classes,
        other != class,
        learns_soundly(b.model.config),
        plus_or_zero(supervision(ops, b, target, permission)),
        ops.product(
            b.model.config.learning.output_learning_rate.opposite(),
            supervision(ops, b, target, permission),
        ).finite(),
        a.numbers.probabilities@.len() == b.alphabet.output_classes,
        forall|i: int|
            0 <= i < a.numbers.probabilities@.len() ==> plus_or_zero(
                #[trigger] a.numbers.probabilities@[i],
            ) && a.numbers.probabilities@[i].at_most(unit()),
        a.numbers.errors@[class].finite(),
        0 < a.size(),
        all_below(a.active@, a.size()),
        a.state.activation@.len() == a.size(),
        plus_or_zero(a.state.activation@[0]) && a.state.activation@[0].finite(),
        b.alphabet.output_classes * a.size() <= usize::MAX,
        b.model.output.weights@.len() == b.alphabet.output_classes * a.size(),
        b.model.output.bias@.len() == b.alphabet.output_classes,
        b.model.output.bias@[class].finite(),
        b.model.output.bias@[other].finite(),
        forall|i: int|
            0 <= i < b.model.output.weights@.len() ==> within(
                #[trigger] b.model.output.weights@[i],
                b.model.config.learning.weight_min,
                b.model.config.learning.weight_max,
            ),
        forall|i: int|
            0 <= i < a.numbers.errors@.len() ==> (#[trigger] a.numbers.errors@[i]).finite()
                && ops.product(
                ops.product(
                    b.model.config.learning.output_learning_rate.opposite(),
                    supervision(ops, b, target, permission),
                ),
                a.numbers.errors@[i],
            ).finite(),
    ensures
        b.model.output.bias@[class].at_most(a.model.output.bias@[class]),
        a.model.output.bias@[other].at_most(b.model.output.bias@[other]),
        m.loss matches Some(loss) && plus_or_zero(loss) && (alike(
            a.numbers.probabilities@[class],
            unit(),
        ) ==> zero(loss)),
{
    let (t, l, e) = lemma_learning_step(ops, b, symbol, target, permission, a, m);
    let s = t.stages;
    let p = s.predicted;
    let lesson = lesson_of(s);
    lemma_lesson_goes_through(ops, p, lesson, l, t.learned, e);
    lemma_lesson_frames(ops, p, lesson, l, t.learned, e);
    assert(lesson.class == class);
    assert(lesson.supervised(ops) == supervision(ops, b, target, permission));
    assert(told(ops, p, class, lesson.schedule(ops, p).0, l.told)) by {
        reveal(Lesson::starts);
    }
    law_errors_name_the_class_that_came(
        ops,
        p,
        class,
        lesson.schedule(ops, p).0,
        l.told,
        other,
    );
    assert(l.readout.numbers.errors@ == a.numbers.errors@);
    assert(p.size() == a.size());
    assert(p.numbers.probabilities == a.numbers.probabilities);
    assert(a.numbers.errors@.len() == b.alphabet.output_classes) by {
        reveal(told);
    }
    let place = class * a.size() + 0;
    crate::runtime::lemma_place(class, 0, b.alphabet.output_classes as int, a.size());
    crate::runtime::lemma_place(other, 0, b.alphabet.output_classes as int, a.size());
    assert(a.numbers.errors@[class].finite() && a.numbers.errors@[other].finite());
    law_readouts_descend(ops, lesson, p, l.told, None, l.readout, class, 0);
    law_readouts_descend(ops, lesson, p, l.told, None, l.readout, other, 0);
    let q = a.numbers.probabilities@[class];
    assert(plus_or_zero(a.numbers.probabilities@[other]));
    law_losses_of_probabilities(ops, q, q);
}

/// Every learning rule takes part in a step: where all but one of learning rate, supervision, error
/// and share are one, and all credit is consolidated, a weight or bias of zero takes on the value of
/// that one, within the bounds. That holds of the readout, of recurrent synapses that leave
/// excitatory neurons, and of input synapses.
pub proof fn law_steps_learn_in_proportion<T: Numerics>(
    ops: T,
    b: Runtime,
    symbol: u32,
    target: u32,
    permission: Permission,
    a: Runtime,
    m: StepMetrics,
    class: int,
    k: int,
    free: Scalar,
)
    requires
        orderly(ops),
        step_taken(
            ops,
            b,
            symbol,
            Some(target),
            permission,
            a,
            Ok::<StepMetrics, LeoError>(m),
        ),
        nought().below(permission.strength_in(b.model.config)),
        b.alphabet.class(target) is Some,
        b.alphabet.class(target)->0 < b.alphabet.output_classes,
        forall|phase: usize, ends: bool| (#[trigger] ops.consolidation(phase, ends)).0 == unit(),
        nought().below(supervision(ops, b, target, permission)),
        0 <= class < b.alphabet.output_classes,
        all_below(a.active@, a.size()),
        a.active@.no_duplicates(),
        a.state.activation@.len() == a.size(),
        a.numbers.probabilities@.len() == b.alphabet.output_classes,
        b.alphabet.output_classes * a.size() <= usize::MAX,
        b.model.output.weights@.len() == b.alphabet.output_classes * a.size(),
        b.model.output.bias@.len() == b.alphabet.output_classes,
        a.recurrent_traces.eligible.list@.no_duplicates(),
        all_below(a.recurrent_traces.eligible.list@, b.model.recurrent.weight@.len() as int),
        0 < b.model.recurrent.capacity_per_neuron,
        b.model.recurrent.weight@.len() == a.size() * b.model.recurrent.capacity_per_neuron,
        b.model.recurrent.weight@.len() <= usize::MAX,
        a.input_traces.eligible.list@.no_duplicates(),
        all_below(a.input_traces.eligible.list@, b.model.input.weights@.len() as int),
        free.at_most(b.model.config.learning.max_update),
        free.at_most(b.model.config.learning.weight_max),
        minus_or_zero(b.model.config.learning.weight_min),
    ensures
        ({
            &&& 0 <= k < a.active@.len()
            &&& (Factors {
                rate: b.model.config.learning.output_learning_rate,
                strength: supervision(ops, b, target, permission),
                error: a.numbers.errors@[class],
                share: a.state.activation@[a.active@[k] as int],
            }).lone(free)
        }) ==> {
            &&& zero(b.model.output.weights@[class * a.size() + a.active@[k]]) ==> alike(
                a.model.output.weights@[class * a.size() + a.active@[k]],
                free,
            )
            &&& a.state.activation@[a.active@[k] as int] == unit() && zero(
                b.model.output.bias@[class],
            ) ==> alike(a.model.output.bias@[class], free)
        },
        ({
            let slot = a.recurrent_traces.eligible.list@[k] as int;
            &&& 0 <= k < a.recurrent_traces.eligible.list@.len()
            &&& zero(b.model.recurrent.weight@[slot])
            &&& b.model.neurons.neuron_type[slot / b.model.recurrent.capacity_per_neuron as int]
                == 0
            &&& (Factors {
                rate: b.model.config.learning.recurrent_learning_rate,
                strength: supervision(ops, b, target, permission),
                error: a.numbers.signal@[b.model.recurrent.target_neuron@[slot] as int],
                share: a.recurrent_traces.eligibility@[slot],
            }).lone(free)
        }) ==> alike(
            a.model.recurrent.weight@[a.recurrent_traces.eligible.list@[k] as int],
            free,
        ),
        ({
            let slot = a.input_traces.eligible.list@[k] as int;
            &&& 0 <= k < a.input_traces.eligible.list@.len()
            &&& zero(b.model.input.weights@[slot])
            &&& (Factors {
                rate: b.model.config.learning.recurrent_learning_rate,
                strength: supervision(ops, b, target, permission),
                error: a.numbers.signal@[b.model.input.targets@[slot] as int],
                share: a.input_traces.eligibility@[slot],
            }).lone(free)
        }) ==> alike(a.model.input.weights@[a.input_traces.eligible.list@[k] as int], free),
{
    let (t, l, e) = lemma_learning_step(ops, b, symbol, target, permission, a, m);
    let s = t.stages;
    let p = s.predicted;
    let lesson = lesson_of(s);
    lemma_lesson_goes_through(ops, p, lesson, l, t.learned, e);
    lemma_lesson_frames(ops, p, lesson, l, t.learned, e);
    let strength = supervision(ops, b, target, permission);
    assert(lesson.supervised(ops) == strength);
    let scale = lesson.schedule(ops, p).0;
    assert(scale == unit() && nought().below(scale));
    assert(ops.product(strength, scale) == strength) by {
        lemma_ones(ops, strength);
    }
    assert(p.size() == a.size());
    if 0 <= k < a.active@.len() && (Factors {
        rate: b.model.config.learning.output_learning_rate,
        strength,
        error: a.numbers.errors@[class],
        share: a.state.activation@[a.active@[k] as int],
    }).lone(free) {
        law_readouts_learn_in_proportion(ops, lesson, p, l.told, l.readout, class, k, free);
    }
    let slot = a.recurrent_traces.eligible.list@[k] as int;
    if 0 <= k < a.recurrent_traces.eligible.list@.len() && zero(b.model.recurrent.weight@[slot])
        && b.model.neurons.neuron_type[slot / b.model.recurrent.capacity_per_neuron as int] == 0
        && (Factors {
        rate: b.model.config.learning.recurrent_learning_rate,
        strength,
        error: a.numbers.signal@[b.model.recurrent.target_neuron@[slot] as int],
        share: a.recurrent_traces.eligibility@[slot],
    }).lone(free) {
        let c = l.context;
        assert(c.recurrent_traces == a.recurrent_traces);
        assert(c.model.recurrent.weight == b.model.recurrent.weight);
        law_recurrent_weights_learn_in_proportion(
            ops,
            c,
            strength,
            l.synapses.recurrent,
            k,
            free,
        );
        let q = l.synapses.input;
        assert(q.model.recurrent.weight@.len() == b.model.recurrent.weight@.len()) by {
            lemma_recurrent_weights_stay_as_many(ops, c, strength, l.synapses.recurrent);
        }
        law_balancing_leaves_excitation(ops, q, lesson.strength, l.balanced, true, slot);
    }
    let place = a.input_traces.eligible.list@[k] as int;
    if 0 <= k < a.input_traces.eligible.list@.len() && zero(b.model.input.weights@[place])
        && (Factors {
        rate: b.model.config.learning.recurrent_learning_rate,
        strength,
        error: a.numbers.signal@[b.model.input.targets@[place] as int],
        share: a.input_traces.eligibility@[place],
    }).lone(free) {
        law_input_weights_learn_in_proportion(
            ops,
            l.synapses.recurrent,
            strength,
            l.synapses.input,
            k,
            free,
        );
    }
}

proof fn lemma_recurrent_weights_stay_as_many<T: Numerics>(
    ops: T,
    b: Runtime,
    strength: Scalar,
    a: Runtime,
)
    requires
        recurrent_learned(ops, b, strength, a, true),
        all_below(b.recurrent_traces.eligible.list@, b.model.recurrent.weight@.len() as int),
    ensures
        a.model.recurrent.weight@.len() == b.model.recurrent.weight@.len(),
{
    reveal(recurrent_learned);
    let places = b.recurrent_traces.eligible.list@;
    lemma_pass_len(
        recurrent_proposal(
            ops,
            ops.product(b.model.config.learning.recurrent_learning_rate.opposite(), strength),
            b.model,
            b.numbers.signal@,
            b.recurrent_traces.eligibility@,
            b.weight_bounds(),
        ),
        places,
        pass_of(b.model.recurrent.weight@, b.tracker.recurrent_weight),
        b.tracker.enabled,
        places.len() as int,
    );
}

} // verus!
