//! How the numbers that a step measures hang together.

use crate::arithmetic::Numerics;
use crate::context::{as_ints, law_history_is_bounded, table_of, ContextTable};
use crate::error::LeoResult;
use crate::learning::nought;
use crate::lesson::{lesson_taken, EligibilitySum, Lesson, LessonTrace};
use crate::lesson_parts::{
    balanced, context_learned, input_learned, readout_learned, recurrent_learned, told,
};
use crate::metrics::StepMetrics;
use crate::permission::Permission;
use crate::runtime::{is_argmax, neurons_of, opened, OpenedStep, Runtime};
use crate::selection::{gathered, law_selection_is_bounded};
use crate::stages::{competed, followed_all, predicted, received, rested, sent};
use crate::step::{
    class_weight, metrics_fit, step_accepted, step_closed, step_taken, thresholds_moved, StageTrace,
    StepTrace,
};
use vstd::prelude::*;

verus! {

/// At most one context of each order is active.
proof fn lemma_active_contexts(t: ContextTable, history: Seq<u32>, allocate: bool, upto: int)
    requires
        0 <= upto,
    ensures
        t.activate(history, allocate, upto).1.len() <= upto,
    decreases upto,
{
    if upto > 0 {
        lemma_active_contexts(t, history, allocate, upto - 1);
    }
}

/// What is counted of a step stays as it is.
spec fn counts_stay(b: Runtime, a: Runtime) -> bool {
    &&& a.active == b.active
    &&& a.context_slots == b.context_slots
    &&& a.context_probes == b.context_probes
    &&& a.context_applied == b.context_applied
}

/// A lesson changes nothing that is counted.
proof fn lemma_lesson_counts<T: Numerics>(
    ops: T,
    b: Runtime,
    l: Lesson,
    a: Runtime,
    r: LeoResult<EligibilitySum>,
)
    requires
        lesson_taken(ops, b, l, a, r),
    ensures
        counts_stay(b, a),
{
    let t = choose|t: LessonTrace| #[trigger] t.explains(ops, b, l, a, r);
    reveal(LessonTrace::explains);
    let (scale, phase) = l.schedule(ops, b);
    assert(counts_stay(b, t.told) && counts_stay(t.told, t.readout)) by {
        reveal(Lesson::starts);
        reveal(told);
        reveal(readout_learned);
    }
    if t.bad_bias is None {
        assert(counts_stay(t.readout, t.context)) by {
            reveal(Lesson::contextual);
            reveal(context_learned);
        }
        if t.context_result is Ok {
            let learned = if t.synapses.recurrent_whole {
                t.synapses.input
            } else {
                t.synapses.recurrent
            };
            assert(counts_stay(t.context, learned)) by {
                reveal(Lesson::synaptic);
                if nought().below(scale) {
                    assert(counts_stay(t.context, t.synapses.recurrent)) by {
                        reveal(recurrent_learned);
                    }
                    if t.synapses.recurrent_whole {
                        assert(counts_stay(t.synapses.recurrent, t.synapses.input)) by {
                            reveal(input_learned);
                        }
                    }
                }
            }
            if t.synapses.recurrent_whole && t.synapses.input_whole {
                assert(counts_stay(learned, a)) by {
                    reveal(Lesson::closes);
                    reveal(balanced);
                }
            }
        }
    }
}

/// What opening a step says of its contexts.
proof fn lemma_opened_contexts(
    b: Runtime,
    symbol: u32,
    target: Option<u32>,
    permission: Permission,
    step: OpenedStep,
    a: Runtime,
)
    requires
        b.wf(),
        step_accepted(b, symbol, target),
        opened(b, symbol, target, permission, step, a),
    ensures
        a.context_slots@.len() <= b.model.config.context.max_order,
        !a.context_applied ==> a.context_slots@.len() == 0 && a.context_probes == 0,
        step.target_class is Some <==> target is Some,
        a.model.config == b.model.config,
        a.model.recurrent == b.model.recurrent,
{
    reveal(opened);
    let order = b.model.config.context.max_order as int;
    if b.context_kept(symbol, permission) {
        law_history_is_bounded(b.history@, order, symbol);
        lemma_active_contexts(
            table_of(b.model),
            a.history@,
            permission != Permission::Frozen,
            a.history@.len() as int,
        );
        assert(as_ints(a.context_slots@).len() == a.context_slots@.len());
    }
}

/// What the stages of a step say of its counts.
proof fn lemma_stage_counts<T: Numerics>(
    ops: T,
    b: Runtime,
    symbol: u32,
    target: Option<u32>,
    permission: Permission,
    t: StageTrace,
)
    requires
        b.wf(),
        t.leads_on(ops, b, symbol, target, permission),
        step_accepted(b, symbol, target),
    ensures
        t.predicted.active@.len() == t.selection.active@.len(),
        t.selection.active@.len() <= b.model.config.model.max_active_global,
        t.selection.active@.len() + t.selection.global_cap_clipped_neurons
            == t.selection.block_selected_neurons,
        t.selection.block_selected_neurons <= t.selection.suprathreshold_neurons,
        t.events == t.predicted.active@.len() * b.model.config.model.synapses_per_neuron,
        t.predicted.context_slots@.len() <= b.model.config.context.max_order,
        !t.predicted.context_applied ==> t.predicted.context_slots@.len() == 0
            && t.predicted.context_probes == 0,
        t.step.target_class is Some <==> target is Some,
{
    reveal(StageTrace::leads_on);
    lemma_opened_contexts(b, symbol, target, permission, t.step, t.opened);
    assert(t.received.context_slots == t.opened.context_slots && t.received.context_probes
        == t.opened.context_probes && t.received.context_applied == t.opened.context_applied
        && t.received.model == t.opened.model) by {
        reveal(received);
    }
    assert(t.competed.context_slots == t.received.context_slots && t.competed.context_probes
        == t.received.context_probes && t.competed.context_applied == t.received.context_applied
        && t.competed.model == t.received.model && t.competed.active@ == neurons_of(
        t.selection.active@,
    )) by {
        reveal(competed);
    }
    lemma_competition_counts(ops, t);
    assert(counts_stay(t.competed, t.followed) && t.followed.model == t.competed.model) by {
        reveal(followed_all);
    }
    assert(counts_stay(t.followed, t.rested) && t.rested.model == t.followed.model) by {
        reveal(rested);
    }
    assert(counts_stay(t.rested, t.sent) && t.events == t.rested.active@.len()
        * t.rested.model.recurrent.capacity_per_neuron) by {
        reveal(sent);
    }
    assert(counts_stay(t.sent, t.predicted)) by {
        reveal(predicted);
    }
}

/// What the competition of a step says of its winners.
proof fn lemma_competition_counts<T: Numerics>(ops: T, t: StageTrace)
    requires
        competed(ops, t.received, t.selection, t.competed),
    ensures
        t.selection.active@.len() <= t.received.model.config.model.max_active_global,
        t.selection.active@.len() + t.selection.global_cap_clipped_neurons
            == t.selection.block_selected_neurons,
        t.selection.block_selected_neurons <= t.selection.suprathreshold_neurons,
{
    reveal(competed);
    let r = t.received;
    let list = r.touched.list@;
    let membrane = crate::dynamics::driven(
        ops,
        r.state@,
        r.model.neurons.excitability@,
        r.numbers.population_inhibition,
        r.current_tick,
        list,
        list.len() as int,
    );
    let acts = crate::dynamics::activities(
        ops,
        membrane,
        r.model.neurons.threshold@,
        r.state.refractory_until@,
        r.current_tick,
        list,
    );
    let blocks = gathered(
        r.shape(),
        list,
        crate::runtime::ready_at(list, r.state.refractory_until@, r.current_tick),
        acts,
        list.len() as int,
    );
    law_selection_is_bounded(r.shape(), blocks, t.selection);
}

/// The metrics of a step hang together: the active neurons are the winners of the blocks without
/// those that the global cap removed, and no more than it allows; the winners are among those above
/// their thresholds; every active neuron sends along each of its synapses; there is a loss where
/// there is a target; there is at most one active context for each order, and none where the
/// context was left out.
pub proof fn law_step_metrics_hang_together<T: Numerics>(
    ops: T,
    b: Runtime,
    symbol: u32,
    target: Option<u32>,
    permission: Permission,
    a: Runtime,
    m: StepMetrics,
)
    requires
        b.can_step(),
        step_accepted(b, symbol, target),
        step_taken(ops, b, symbol, target, permission, a, Ok(m)),
    ensures
        m.active_neurons == a.active@.len(),
        m.active_neurons + m.global_cap_clipped_neurons == m.block_selected_neurons,
        m.active_neurons <= b.model.config.model.max_active_global,
        m.block_selected_neurons <= m.suprathreshold_neurons,
        m.emitted_events == m.active_neurons * b.model.config.model.synapses_per_neuron,
        m.loss is Some <==> target is Some,
        m.context_cells <= b.model.config.context.max_order,
        !m.context_applied ==> m.context_cells == 0 && m.context_probes == 0,
{
    let r = Ok(m);
    let t = choose|t: StepTrace| #[trigger] t.explains(ops, b, symbol, target, permission, a, r);
    let s = t.stages;
    assert(b.wf()) by {
        reveal(Runtime::can_step);
    }
    reveal(StepTrace::explains);
    lemma_stage_counts(ops, b, symbol, target, permission, s);
    assert(counts_stay(s.predicted, t.learned)) by {
        reveal(StageTrace::teaches);
        if s.step.learns {
            lemma_lesson_counts(
                ops,
                s.predicted,
                Lesson {
                    class: s.step.target_class->0,
                    strength: s.step.strength,
                    weight: class_weight(s.predicted, s.step.target_class->0),
                },
                t.learned,
                t.lesson,
            );
        }
    }
    assert(counts_stay(t.learned, t.balanced)) by {
        reveal(thresholds_moved);
    }
    assert(counts_stay(t.balanced, a)) by {
        reveal(step_closed);
    }
    let best = choose|best: int|
        #[trigger] is_argmax(a.numbers.probabilities@, best) && m == t.measured(ops, best, a);
    assert(metrics_fit(ops, t, a, m));
    assert(m == t.measured(ops, best, a));
    assert(a.active.len() == a.active@.len());
    assert(a.context_slots.len() == a.context_slots@.len());
}

} // verus!
