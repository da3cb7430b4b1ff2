//! What a step does to the network as it goes along: signals arrive and are sent, neurons that were
//! active rest, and everything is counted.

use crate::arithmetic::Numerics;
use crate::delay_ring::Event;
use crate::dynamics::{settled, tired, NeuronView};
use crate::dynamics_laws::{decays_soundly, event_place, input_place};
use crate::error::LeoError;
use crate::learning::unit;
use crate::lesson::{lesson_taken, EligibilitySum, LessonTrace};
use crate::metrics::{StepMetrics, WideScalar};
use crate::order::{alike, orderly, zero};
use crate::permission::Permission;
use crate::runtime::{all_below, is_argmax, opened, Runtime};
use crate::scalar::Scalar;
use crate::stage_laws::{law_active_neurons_rest, law_signals_are_received};
use crate::stages::{competed, followed_all, predicted, received, rested, sent};
use crate::step::{
    metrics_fit, step_closed, step_taken, thresholds_moved, StageTrace, StepTrace,
};
use crate::step_laws::lemma_stages_keep;
use crate::trace_laws::law_active_neurons_send;
use crate::whole_step_laws::{lemma_lesson_frames, lesson_of};
use vstd::prelude::*;

verus! {

/// What the stages of a step leave to its end.
proof fn lemma_stages_lead_on<T: Numerics>(
    ops: T,
    b: Runtime,
    symbol: u32,
    target: Option<u32>,
    permission: Permission,
    s: StageTrace,
)
    requires
        s.leads_on(ops, b, symbol, target, permission),
    ensures
        opened(b, symbol, target, permission, s.step, s.opened),
        received(ops, s.opened, s.step, b.touched.list@, s.received),
        competed(ops, s.received, s.selection, s.competed),
        rested(ops, s.followed, s.rested),
        sent(ops, s.rested, s.events, s.sent),
        s.followed.state == s.competed.state,
        s.followed.active == s.competed.active,
        s.rested.active == s.competed.active,
        s.sent.active == s.competed.active,
        s.predicted.active == s.competed.active,
        s.sent.state == s.rested.state,
        s.predicted.state == s.rested.state,
        s.predicted.ring == s.sent.ring,
        s.opened.current_tick == b.current_tick,
        s.received.current_tick == b.current_tick,
        s.competed.current_tick == b.current_tick,
        s.followed.current_tick == b.current_tick,
        s.rested.current_tick == b.current_tick,
        s.opened.model.same_but_context_table(b.model),
        s.received.model == s.opened.model,
        s.competed.model == s.opened.model,
        s.followed.model == s.opened.model,
        s.rested.model == s.opened.model,
        s.sent.model == s.opened.model,
        s.predicted.model == s.opened.model,
        s.predicted.touched == s.opened.touched,
{
    reveal(StageTrace::leads_on);
    assert(s.opened.current_tick == b.current_tick && s.opened.model.same_but_context_table(
        b.model,
    )) by {
        reveal(opened);
    }
    assert(s.received.current_tick == s.opened.current_tick && s.received.model == s.opened.model
        && s.received.touched == s.opened.touched) by {
        reveal(received);
    }
    assert(s.competed.current_tick == s.received.current_tick && s.competed.model
        == s.received.model && s.competed.touched == s.received.touched) by {
        reveal(competed);
    }
    assert(s.followed.current_tick == s.competed.current_tick && s.followed.model
        == s.competed.model && s.followed.touched == s.competed.touched && s.followed.state
        == s.competed.state && s.followed.active == s.competed.active) by {
        reveal(followed_all);
    }
    assert(s.rested.current_tick == s.followed.current_tick && s.rested.model == s.followed.model
        && s.rested.touched == s.followed.touched && s.rested.active == s.followed.active) by {
        reveal(rested);
    }
    assert(s.sent.model == s.rested.model && s.sent.touched == s.rested.touched && s.sent.active
        == s.rested.active && s.sent.state == s.rested.state) by {
        reveal(sent);
    }
    assert(s.predicted.model == s.sent.model && s.predicted.touched == s.sent.touched
        && s.predicted.active == s.sent.active && s.predicted.state == s.sent.state
        && s.predicted.ring == s.sent.ring) by {
        reveal(predicted);
    }
}

/// A step that comes to its end ends with what its stages left, and counts itself.
proof fn lemma_step_ends<T: Numerics>(
    ops: T,
    b: Runtime,
    symbol: u32,
    target: Option<u32>,
    permission: Permission,
    a: Runtime,
    m: StepMetrics,
) -> (t: StepTrace)
    requires
        step_taken(ops, b, symbol, target, permission, a, Ok::<StepMetrics, LeoError>(m)),
    ensures
        t.stages.leads_on(ops, b, symbol, target, permission),
        a.active == t.stages.predicted.active,
        a.state == t.stages.predicted.state,
        a.ring == t.stages.predicted.ring,
        a.touched == t.stages.predicted.touched,
        m.emitted_events == t.stages.events,
        m.active_neurons == a.active@.len() as usize,
        ({
            let before = t.stages.predicted.model.statistics;
            &&& permission == Permission::Frozen ==> a.model.statistics == before
            &&& permission != Permission::Frozen ==> exists|sum: Option<WideScalar>|
                {
                    &&& (sum is Some <==> m.loss is Some)
                    &&& a.model.statistics == #[trigger] before.after_step(
                        symbol,
                        sum,
                        a.active.len(),
                        t.stages.events,
                    )
                }
        }),
{
    let ok = Ok::<StepMetrics, LeoError>(m);
    let t = choose|t: StepTrace| #[trigger]
        t.explains(ops, b, symbol, target, permission, a, ok);
    let s = t.stages;
    reveal(StepTrace::explains);
    let e = t.lesson->Ok_0;
    assert(t.learned.active == s.predicted.active && t.learned.state == s.predicted.state
        && t.learned.ring == s.predicted.ring && t.learned.touched == s.predicted.touched
        && t.learned.model.statistics == s.predicted.model.statistics) by {
        reveal(StageTrace::teaches);
        if s.step.learns {
            assert(lesson_taken(
                ops,
                s.predicted,
                lesson_of(s),
                t.learned,
                Ok::<EligibilitySum, LeoError>(e),
            ));
            let l = choose|l: LessonTrace| #[trigger]
                l.explains(
                    ops,
                    s.predicted,
                    lesson_of(s),
                    t.learned,
                    Ok::<EligibilitySum, LeoError>(e),
                );
            lemma_lesson_frames(ops, s.predicted, lesson_of(s), l, t.learned, e);
        }
    }
    if permission != Permission::Frozen {
        reveal(thresholds_moved);
    }
    reveal(step_closed);
    let best = choose|best: int|
        #[trigger] is_argmax(a.numbers.probabilities@, best) && m == t.measured(ops, best, a);
    assert(metrics_fit(ops, t, a, m));
    assert(m == t.measured(ops, best, a));
    t
}

/// A step counts what it did: a learning step is one more tick, with as many active neurons and
/// events as its metrics say; a byte counts as one more byte, and a target as one more target. A
/// frozen step counts nothing.
pub proof fn law_steps_are_counted<T: Numerics>(
    ops: T,
    b: Runtime,
    symbol: u32,
    target: Option<u32>,
    permission: Permission,
    a: Runtime,
    m: StepMetrics,
)
    requires
        step_taken(ops, b, symbol, target, permission, a, Ok::<StepMetrics, LeoError>(m)),
        b.model.statistics.persistent_ticks < u64::MAX,
        b.model.statistics.processed_bytes < u64::MAX,
        b.model.statistics.training_targets < u64::MAX,
        b.model.statistics.active_neurons_sum + m.active_neurons <= u64::MAX,
        b.model.statistics.synaptic_events + m.emitted_events <= u64::MAX,
    ensures
        permission == Permission::Frozen ==> a.model.statistics == b.model.statistics,
        permission != Permission::Frozen ==> {
            let before = b.model.statistics;
            let after = a.model.statistics;
            &&& after.persistent_ticks == before.persistent_ticks + 1
            &&& after.processed_bytes - before.processed_bytes == if symbol < 256 {
                1int
            } else {
                0
            }
            &&& after.training_targets - before.training_targets == if m.loss is Some {
                1int
            } else {
                0
            }
            &&& after.active_neurons_sum == before.active_neurons_sum + m.active_neurons
            &&& after.synaptic_events == before.synaptic_events + m.emitted_events
            &&& before.active_neurons_peak <= after.active_neurons_peak
            &&& m.active_neurons <= after.active_neurons_peak
            &&& after.active_neurons_peak == before.active_neurons_peak
                || after.active_neurons_peak == m.active_neurons
            &&& after.processed_stories == before.processed_stories
            &&& m.loss is None ==> after.training_loss_sum == before.training_loss_sum
        },
{
    let t = lemma_step_ends(ops, b, symbol, target, permission, a, m);
    lemma_stages_keep(ops, b, symbol, target, permission, t.stages);
}

/// A neuron that a step made active rests for its refractory time, and for no tick longer.
pub proof fn law_steps_let_active_neurons_rest<T: Numerics>(
    ops: T,
    b: Runtime,
    symbol: u32,
    target: Option<u32>,
    permission: Permission,
    a: Runtime,
    m: StepMetrics,
    neuron: int,
    later: u64,
)
    requires
        step_taken(ops, b, symbol, target, permission, a, Ok::<StepMetrics, LeoError>(m)),
        b.state@.refractory_until.len() == b.size(),
        all_below(a.active@, b.size()),
        0 <= neuron < b.size(),
        a.active@.contains(neuron as usize),
        b.current_tick + b.model.config.dynamics.refractory_ticks + 1 <= u64::MAX,
        b.current_tick < later,
    ensures
        later <= b.current_tick + b.model.config.dynamics.refractory_ticks
            <==> a.state@.refractory_until[neuron] > later,
{
    let t = lemma_step_ends(ops, b, symbol, target, permission, a, m);
    let s = t.stages;
    lemma_stages_lead_on(ops, b, symbol, target, permission, s);
    let f = s.followed;
    assert(f.state@.refractory_until == b.state@.refractory_until) by {
        reveal(opened);
        reveal(received);
        reveal(competed);
        let list = s.opened.touched.list@;
        lemma_settling_keeps_rest(
            ops,
            s.opened.model.config.dynamics,
            b.current_tick,
            s.opened.state@,
            list,
            list.len() as int,
        );
    }
    law_active_neurons_rest(ops, f, s.rested, neuron, later);
}

/// Bringing neurons to a tick does not change how long they rest.
proof fn lemma_settling_keeps_rest<T: Numerics>(
    ops: T,
    d: crate::config::DynamicsConfig,
    tick: u64,
    v: NeuronView,
    list: Seq<usize>,
    upto: int,
)
    ensures
        settled(ops, d, tick, v, list, upto).refractory_until == v.refractory_until,
    decreases upto,
{
    if upto > 0 {
        lemma_settling_keeps_rest(ops, d, tick, v, list, upto - 1);
    }
}

/// What is sent arrives: an event waits in the ring for the tick that lies the delay of its synapse
/// ahead, on its way from every active neuron along each of its synapses.
pub proof fn law_steps_send_along_every_synapse<T: Numerics>(
    ops: T,
    b: Runtime,
    symbol: u32,
    target: Option<u32>,
    permission: Permission,
    a: Runtime,
    m: StepMetrics,
    i: int,
    k: int,
)
    requires
        orderly(ops),
        step_taken(ops, b, symbol, target, permission, a, Ok::<StepMetrics, LeoError>(m)),
        0 < b.ring@.len(),
        0 <= i < a.active@.len(),
        0 <= k < b.model.recurrent.capacity_per_neuron,
        a.state.activation@[a.active@[i] as int].finite(),
        b.model.recurrent.weight@[a.active@[i] * b.model.recurrent.capacity_per_neuron + k].finite(),
        b.model.recurrent.delay@[a.active@[i] * b.model.recurrent.capacity_per_neuron + k] > 0,
        a.active@[i] * b.model.recurrent.capacity_per_neuron + k <= u32::MAX,
    ensures
        ({
            let slot = a.active@[i] * b.model.recurrent.capacity_per_neuron + k;
            let x = a.state.activation@[a.active@[i] as int];
            let w = b.model.recurrent.weight@[slot];
            exists|e: Event|
                {
                    &&& #[trigger] a.ring.due(
                        b.current_tick + b.model.recurrent.delay@[slot],
                    ).contains(e)
                    &&& e.target_neuron == b.model.recurrent.target_neuron@[slot]
                    &&& e.target_branch == b.model.recurrent.target_branch@[slot]
                    &&& e.synapse_slot == slot
                    &&& e.presynaptic_activation == x
                    &&& x == unit() ==> alike(e.value, w)
                    &&& w == unit() ==> alike(e.value, x)
                    &&& zero(x) || zero(w) ==> zero(e.value)
                }
        }),
{
    let t = lemma_step_ends(ops, b, symbol, target, permission, a, m);
    let s = t.stages;
    lemma_stages_lead_on(ops, b, symbol, target, permission, s);
    assert(s.rested.ring@.len() == b.ring@.len()) by {
        reveal(opened);
        reveal(received);
        reveal(competed);
        reveal(StageTrace::leads_on);
        reveal(followed_all);
        reveal(rested);
    }
    law_active_neurons_send(ops, s.rested, s.events, s.sent, i, k);
}

/// Signals arrive in the step that they are due in: a branch that was at zero ends the step with the
/// value of the event that was due for it, or with the weight of the symbol's synapse that ends on
/// it, where there is one such thing; and still at zero where there is none.
pub proof fn law_steps_take_signals_in<T: Numerics>(
    ops: T,
    b: Runtime,
    symbol: u32,
    target: Option<u32>,
    permission: Permission,
    a: Runtime,
    m: StepMetrics,
    neuron: int,
    branch: int,
    event: int,
    synapse: int,
)
    requires
        orderly(ops),
        step_taken(ops, b, symbol, target, permission, a, Ok::<StepMetrics, LeoError>(m)),
        decays_soundly(b.model.config.dynamics),
        b.state@.wf(b.size()),
        all_below(a.touched.list@, b.size()),
        0 <= neuron < b.size(),
        0 <= branch < 4,
        zero(b.state@.branches[neuron * 4 + branch]),
        (symbol + 1) * b.model.input.fanout <= b.model.input.targets.len(),
        forall|i: int|
            0 <= i < b.ring.due(b.current_tick as int).len() ==> (
            #[trigger] b.ring.due(b.current_tick as int)[i]).target_branch < 4,
        forall|i: int|
            0 <= i < b.model.input.fanout ==> (
            #[trigger] b.model.input.branches[symbol * b.model.input.fanout + i]) < 4,
        forall|i: int|
            0 <= i < b.ring.due(b.current_tick as int).len() && i != event
                ==> #[trigger] event_place(b.ring.due(b.current_tick as int)[i]) != neuron * 4
                + branch,
        forall|i: int|
            0 <= i < b.model.input.fanout && i != synapse ==> #[trigger] input_place(
                b.model,
                symbol * b.model.input.fanout + i,
            ) != neuron * 4 + branch,
        0 <= event < b.ring.due(b.current_tick as int).len() ==> event_place(
            b.ring.due(b.current_tick as int)[event],
        ) == neuron * 4 + branch && b.ring.due(b.current_tick as int)[event].value.finite(),
        0 <= synapse < b.model.input.fanout ==> input_place(
            b.model,
            symbol * b.model.input.fanout + synapse,
        ) == neuron * 4 + branch && b.model.input.weights[symbol * b.model.input.fanout
            + synapse].finite(),
    ensures
        ({
            let held = a.state@.branches[neuron * 4 + branch];
            let arrives = 0 <= event < b.ring.due(b.current_tick as int).len();
            let feeds = 0 <= synapse < b.model.input.fanout;
            &&& !arrives && !feeds ==> zero(held)
            &&& arrives && !feeds ==> alike(held, b.ring.due(b.current_tick as int)[event].value)
            &&& !arrives && feeds ==> alike(
                held,
                b.model.input.weights[symbol * b.model.input.fanout + synapse],
            )
        }),
{
    let t = lemma_step_ends(ops, b, symbol, target, permission, a, m);
    let s = t.stages;
    lemma_stages_lead_on(ops, b, symbol, target, permission, s);
    let o = s.opened;
    let due = b.ring.due(b.current_tick as int);
    assert(s.step.due@ == due && s.step.first_input == symbol * b.model.input.fanout
        && o.state@.branches == b.state@.branches && o.state@.wf(b.size())) by {
        reveal(opened);
    }
    assert(symbol * b.model.input.fanout + b.model.input.fanout == (symbol + 1)
        * b.model.input.fanout) by (nonlinear_arith);
    assert forall|i: int| 0 <= i < o.model.input.fanout && i != synapse implies #[trigger] input_place(
        o.model,
        s.step.first_input + i,
    ) != neuron * 4 + branch by {
        assert(input_place(b.model, symbol * b.model.input.fanout + i) == input_place(
            o.model,
            s.step.first_input + i,
        ));
    }
    law_signals_are_received(
        ops,
        o,
        s.step,
        b.touched.list@,
        s.received,
        neuron,
        branch,
        event,
        synapse,
    );
    assert(a.state@.branches == s.received.state@.branches) by {
        reveal(competed);
        reveal(rested);
        let f = s.followed;
        lemma_tiring_keeps_branches(
            ops,
            f.model.config.dynamics,
            f.model.neurons.threshold@,
            f.state@,
            f.active@,
            f.active@.len() as int,
        );
    }
}

proof fn lemma_tiring_keeps_branches<T: Numerics>(
    ops: T,
    d: crate::config::DynamicsConfig,
    threshold: Seq<Scalar>,
    v: NeuronView,
    list: Seq<usize>,
    upto: int,
)
    ensures
        tired(ops, d, threshold, v, list, upto).branches == v.branches,
    decreases upto,
{
    if upto > 0 {
        lemma_tiring_keeps_branches(ops, d, threshold, v, list, upto - 1);
    }
}

} // verus!
