//! What a tick does to its neurons and to the traces of their synapses, list by list.

use crate::arithmetic::Numerics;
use crate::config::{Config, DynamicsConfig};
use crate::delay_ring::Event;
use crate::dynamics::{settled, settled_one, tired, tired_one, NeuronView};
use crate::dynamics_laws::{
    decays_soundly, law_active_neurons_tire, law_neurons_settle, law_settling_leaves_others,
    left_of, raised_by, within_one,
};
use crate::learning::unit;
use crate::order::{alike, lemma_sum_with_zero, orderly, plus_or_zero, zero};
use crate::runtime::{all_below, OpenedStep, Runtime};
use crate::scalar::Scalar;
use crate::stages::{followed_all, received, rested};
use crate::trace_laws::{
    law_branches_move_their_neuron, law_eligibility_follows_the_neuron,
    law_traces_follow_the_membrane, lemma_followed_alone, lemma_walk_leaves, same_at, traced,
};
use crate::traces::{
    advanced, alive, destination_of, event_traces, followed, input_traces_after, signalled,
    tick_view, walked, TickView, TraceView,
};
use vstd::prelude::*;

verus! {

/// What neurons hold agrees on a neuron, but for its branches.
pub open spec fn same_neuron(v: NeuronView, w: NeuronView, n: int) -> bool {
    &&& v.membrane[n] == w.membrane[n]
    &&& v.activation[n] == w.activation[n]
    &&& v.fatigue[n] == w.fatigue[n]
    &&& v.fast[n] == w.fast[n]
    &&& v.medium[n] == w.medium[n]
    &&& v.slow[n] == w.slow[n]
    &&& v.neuron_last_tick[n] == w.neuron_last_tick[n]
}

proof fn lemma_settled_in_turn<T: Numerics>(
    ops: T,
    d: DynamicsConfig,
    tick: u64,
    v: NeuronView,
    list: Seq<usize>,
    upto: int,
    k: int,
    neurons: int,
)
    requires
        v.wf(neurons),
        all_below(list, neurons),
        list.no_duplicates(),
        0 <= k < upto <= list.len(),
    ensures
        settled(ops, d, tick, v, list, upto).wf(neurons),
        same_neuron(
            settled(ops, d, tick, v, list, upto),
            settled_one(ops, d, tick, v, list[k] as int),
            list[k] as int,
        ),
    decreases upto,
{
    let n = list[k] as int;
    if upto - 1 == k {
        assert forall|i: int| 0 <= i < k implies (#[trigger] list[i]) != n by {}
        law_settling_leaves_others(ops, d, tick, v, list, k, n, 0, neurons);
        lemma_settling_keeps_activity(ops, d, tick, v, list, k);
    } else {
        lemma_settled_in_turn(ops, d, tick, v, list, upto - 1, k, neurons);
        assert(list[upto - 1] != list[k]);
    }
}

proof fn lemma_settling_keeps_activity<T: Numerics>(
    ops: T,
    d: DynamicsConfig,
    tick: u64,
    v: NeuronView,
    list: Seq<usize>,
    upto: int,
)
    ensures
        settled(ops, d, tick, v, list, upto).activation == v.activation,
    decreases upto,
{
    if upto > 0 {
        lemma_settling_keeps_activity(ops, d, tick, v, list, upto - 1);
    }
}

/// Time wears the neurons of a tick down: when a tick takes its signals in, the membrane, the fatigue
/// and the adaptations of each neuron that it touches have faded, each by its own decay, for the time
/// since the neuron was last looked at.
pub proof fn law_ticks_wear_their_neurons_down<T: Numerics>(
    ops: T,
    b: Runtime,
    step: OpenedStep,
    last: Seq<usize>,
    a: Runtime,
    k: int,
)
    requires
        orderly(ops),
        received(ops, b, step, last, a),
        decays_soundly(b.model.config.dynamics),
        b.state@.wf(b.size()),
        all_below(b.touched.list@, b.size()),
        b.touched.list@.no_duplicates(),
        0 <= k < b.touched.list@.len(),
        ({
            let n = b.touched.list@[k] as int;
            let v = b.state@;
            &&& v.branches[n * 4].finite()
            &&& v.membrane[n].finite()
            &&& v.fatigue[n].finite()
            &&& v.fast[n].finite()
            &&& v.medium[n].finite()
            &&& v.slow[n].finite()
        }),
    ensures
        ({
            let n = b.touched.list@[k] as int;
            let d = b.model.config.dynamics;
            let v = b.state@;
            let w = a.state@;
            let gone = b.current_tick > v.neuron_last_tick[n];
            &&& left_of(v.membrane[n], w.membrane[n], d.membrane_decay, gone)
            &&& left_of(v.fatigue[n], w.fatigue[n], d.fatigue_decay, gone)
            &&& left_of(v.fast[n], w.fast[n], d.adaptation_fast_decay, gone)
            &&& left_of(v.medium[n], w.medium[n], d.adaptation_medium_decay, gone)
            &&& left_of(v.slow[n], w.slow[n], d.adaptation_slow_decay, gone)
        }),
{
    reveal(received);
    let d = b.model.config.dynamics;
    let list = b.touched.list@;
    lemma_settled_in_turn(
        ops,
        d,
        b.current_tick,
        b.state@,
        list,
        list.len() as int,
        k,
        b.size(),
    );
    law_neurons_settle(ops, d, b.current_tick, b.state@, list[k] as int, 0, b.size());
}

proof fn lemma_tired_in_turn<T: Numerics>(
    ops: T,
    d: DynamicsConfig,
    threshold: Seq<Scalar>,
    v: NeuronView,
    list: Seq<usize>,
    upto: int,
    n: int,
    neurons: int,
)
    requires
        v.wf(neurons),
        all_below(list, neurons),
        list.no_duplicates(),
        0 <= upto <= list.len(),
        0 <= n < neurons,
    ensures
        tired(ops, d, threshold, v, list, upto).wf(neurons),
        (forall|i: int| 0 <= i < upto ==> (#[trigger] list[i]) != n) ==> same_neuron(
            tired(ops, d, threshold, v, list, upto),
            v,
            n,
        ),
        (exists|i: int| 0 <= i < upto && (#[trigger] list[i]) == n) ==> same_neuron(
            tired(ops, d, threshold, v, list, upto),
            tired_one(ops, d, threshold, v, n),
            n,
        ),
    decreases upto,
{
    if upto > 0 {
        lemma_tired_in_turn(ops, d, threshold, v, list, upto - 1, n, neurons);
        if list[upto - 1] == n {
            assert forall|i: int| 0 <= i < upto - 1 implies (#[trigger] list[i]) != n by {}
        } else if exists|i: int| 0 <= i < upto && (#[trigger] list[i]) == n {
            let i = choose|i: int| 0 <= i < upto && (#[trigger] list[i]) == n;
            assert(i < upto - 1);
        }
    }
}

/// Activity has its price: a neuron that a tick made active has tired and adapted by its gains times
/// its activation, and its membrane has fallen by the part of its threshold that is taken away.
pub proof fn law_ticks_tire_their_active_neurons<T: Numerics>(
    ops: T,
    b: Runtime,
    a: Runtime,
    k: int,
)
    requires
        orderly(ops),
        rested(ops, b, a),
        b.state@.wf(b.size()),
        all_below(b.active@, b.size()),
        b.active@.no_duplicates(),
        0 <= k < b.active@.len(),
        ({
            let n = b.active@[k] as int;
            let d = b.model.config.dynamics;
            let v = b.state@;
            let t = b.model.neurons.threshold@[n];
            &&& within_one(v.activation[n])
            &&& plus_or_zero(d.fatigue_gain) && d.fatigue_gain.finite()
            &&& plus_or_zero(d.adaptation_fast_gain) && d.adaptation_fast_gain.finite()
            &&& plus_or_zero(d.adaptation_medium_gain) && d.adaptation_medium_gain.finite()
            &&& plus_or_zero(d.adaptation_slow_gain) && d.adaptation_slow_gain.finite()
            &&& within_one(d.membrane_reset_fraction)
            &&& plus_or_zero(t) && t.finite()
            &&& v.membrane[n].finite()
            &&& v.fatigue[n].finite()
            &&& v.fast[n].finite()
            &&& v.medium[n].finite()
            &&& v.slow[n].finite()
        }),
    ensures
        ({
            let n = b.active@[k] as int;
            let d = b.model.config.dynamics;
            let v = b.state@;
            let w = a.state@;
            let x = v.activation[n];
            &&& raised_by(v.fatigue[n], w.fatigue[n], d.fatigue_gain, x)
            &&& raised_by(v.fast[n], w.fast[n], d.adaptation_fast_gain, x)
            &&& raised_by(v.medium[n], w.medium[n], d.adaptation_medium_gain, x)
            &&& raised_by(v.slow[n], w.slow[n], d.adaptation_slow_gain, x)
            &&& w.membrane[n].at_most(v.membrane[n])
            &&& zero(d.membrane_reset_fraction) ==> alike(w.membrane[n], v.membrane[n])
            &&& alike(d.membrane_reset_fraction, unit()) && zero(v.membrane[n])
                ==> crate::order::mirrored(w.membrane[n], b.model.neurons.threshold@[n])
        }),
{
    reveal(rested);
    let n = b.active@[k] as int;
    let d = b.model.config.dynamics;
    let t = b.model.neurons.threshold@;
    lemma_tired_in_turn(ops, d, t, b.state@, b.active@, b.active@.len() as int, n, b.size());
    law_active_neurons_tire(ops, d, t, b.state@, n, b.size());
}

proof fn lemma_event_traces_in_turn<T: Numerics>(
    ops: T,
    d: DynamicsConfig,
    tick: u64,
    t: TraceView,
    events: Seq<Event>,
    upto: int,
    at: int,
    slot: int,
    synapses: int,
)
    requires
        orderly(ops),
        decays_soundly(d),
        traced(t, synapses),
        0 <= slot < synapses,
        0 <= upto <= events.len(),
        forall|i: int| 0 <= i < events.len() ==> (#[trigger] events[i]).synapse_slot < synapses,
        forall|i: int|
            0 <= i < events.len() && i != at ==> (#[trigger] events[i]).synapse_slot != slot,
        0 <= at < events.len() ==> events[at].synapse_slot == slot,
    ensures
        ({
            let u = event_traces(ops, d, tick, t, events, upto);
            &&& traced(u, synapses)
            &&& !(0 <= at < upto) ==> same_at(t, u, slot)
            &&& 0 <= at < upto ==> same_at(
                u,
                signalled(ops, d, tick, t, slot, events[at].presynaptic_activation),
                slot,
            )
        }),
    decreases upto,
{
    if upto > 0 {
        lemma_event_traces_in_turn(ops, d, tick, t, events, upto - 1, at, slot, synapses);
        let e = events[upto - 1];
    }
}

proof fn lemma_input_traces_in_turn<T: Numerics>(
    ops: T,
    d: DynamicsConfig,
    tick: u64,
    t: TraceView,
    first: int,
    upto: int,
    slot: int,
    synapses: int,
)
    requires
        orderly(ops),
        decays_soundly(d),
        traced(t, synapses),
        0 <= slot < synapses,
        0 <= first,
        0 <= upto,
        first + upto <= synapses,
    ensures
        ({
            let u = input_traces_after(ops, d, tick, t, first, upto);
            &&& traced(u, synapses)
            &&& !(first <= slot < first + upto) ==> same_at(t, u, slot)
            &&& first <= slot < first + upto ==> same_at(
                u,
                signalled(ops, d, tick, t, slot, unit()),
                slot,
            )
        }),
    decreases upto,
{
    if upto > 0 {
        lemma_input_traces_in_turn(ops, d, tick, t, first, upto - 1, slot, synapses);
    }
}

/// Traces remember what went along their synapses: in a learning tick, the trace of a synapse with
/// nothing left on its branch holds the activation that the one event along it came from, and one for
/// a synapse of the symbol; a synapse that nothing went along keeps its trace. A frozen tick traces
/// nothing.
pub proof fn law_ticks_trace_their_signals<T: Numerics>(
    ops: T,
    b: Runtime,
    step: OpenedStep,
    last: Seq<usize>,
    a: Runtime,
    at: int,
    slot: int,
    synapses: int,
    fed: int,
    inputs: int,
)
    requires
        orderly(ops),
        received(ops, b, step, last, a),
        decays_soundly(b.model.config.dynamics),
        traced(b.recurrent_traces@, synapses),
        traced(b.input_traces@, inputs),
        0 <= slot < synapses,
        0 <= fed < inputs,
        step.first_input + b.model.input.fanout <= inputs,
        forall|i: int|
            0 <= i < step.due@.len() ==> (#[trigger] step.due@[i]).synapse_slot < synapses,
        forall|i: int|
            0 <= i < step.due@.len() && i != at ==> (#[trigger] step.due@[i]).synapse_slot != slot,
        0 <= at < step.due@.len() ==> step.due@[at].synapse_slot == slot
            && !step.due@[at].presynaptic_activation.nan(),
        b.recurrent_traces@.branch[slot].finite(),
        b.input_traces@.branch[fed].finite(),
    ensures
        ({
            let t = b.recurrent_traces@;
            let u = a.recurrent_traces@;
            let q = b.input_traces@;
            let r = a.input_traces@;
            let feeds = step.first_input <= fed < step.first_input + b.model.input.fanout;
            &&& !b.learning_trace_enabled ==> u == t && r == q
            &&& !(0 <= at < step.due@.len()) ==> same_at(t, u, slot)
            &&& b.learning_trace_enabled && 0 <= at < step.due@.len() && zero(t.branch[slot])
                ==> alike(u.branch[slot], step.due@[at].presynaptic_activation)
            &&& !feeds ==> same_at(q, r, fed)
            &&& b.learning_trace_enabled && feeds && zero(q.branch[fed]) ==> alike(
                r.branch[fed],
                unit(),
            )
        }),
{
    reveal(received);
    let d = b.model.config.dynamics;
    let tick = b.current_tick;
    let n = step.due@.len() as int;
    if b.learning_trace_enabled {
        let t = b.recurrent_traces@;
        lemma_event_traces_in_turn(ops, d, tick, t, step.due@, n, at, slot, synapses);
        if 0 <= at < n {
            lemma_signal_is_taken(
                ops,
                d,
                tick,
                t,
                slot,
                step.due@[at].presynaptic_activation,
                synapses,
            );
        }
        let q = b.input_traces@;
        lemma_input_traces_in_turn(
            ops,
            d,
            tick,
            q,
            step.first_input as int,
            b.model.input.fanout as int,
            fed,
            inputs,
        );
        lemma_signal_is_taken(ops, d, tick, q, fed, unit(), inputs);
    }
}

proof fn lemma_signal_is_taken<T: Numerics>(
    ops: T,
    d: DynamicsConfig,
    tick: u64,
    t: TraceView,
    slot: int,
    signal: Scalar,
    synapses: int,
)
    requires
        orderly(ops),
        decays_soundly(d),
        traced(t, synapses),
        0 <= slot < synapses,
        t.branch[slot].finite(),
        !signal.nan(),
    ensures
        zero(t.branch[slot]) ==> alike(
            signalled(ops, d, tick, t, slot, signal).branch[slot],
            signal,
        ),
{
    let a = advanced(ops, d, tick, t, slot);
    let age = crate::dynamics::elapsed_since(tick, t.last_tick[slot]);
    crate::dynamics_laws::law_everything_fades(ops, t.branch[slot], d.branch_decay, age);
    if zero(t.branch[slot]) {
        lemma_sum_with_zero(ops, signal, a.branch[slot]);
    }
}

/// What following makes of a trace depends on that trace alone.
proof fn lemma_followed_alike<T: Numerics>(
    ops: T,
    c: Config,
    tick: u64,
    t: TraceView,
    u: TraceView,
    slot: int,
    to: crate::traces::Destination,
    synapses: int,
)
    requires
        traced(t, synapses),
        traced(u, synapses),
        0 <= slot < synapses,
        same_at(t, u, slot),
    ensures
        same_at(
            followed(ops, c, tick, t, slot, to),
            followed(ops, c, tick, u, slot, to),
            slot,
        ),
{
}

/// A walk comes by each synapse of its list once.
proof fn lemma_walk_comes_by<T: Numerics>(
    ops: T,
    c: Config,
    v: TickView,
    targets: Seq<u32>,
    branches: Seq<u8>,
    t: TraceView,
    list: Seq<usize>,
    place: int,
    at: int,
    synapses: int,
)
    requires
        traced(t, synapses),
        list.no_duplicates(),
        0 <= place <= at < list.len(),
        forall|i: int| 0 <= i < list.len() ==> (#[trigger] list[i]) < synapses,
    ensures
        ({
            let slot = list[at] as int;
            let to = destination_of(ops, v, targets[slot] as int, branches[slot]);
            same_at(
                walked(ops, c, v, targets, branches, t, list, place).0,
                followed(ops, c, v.tick, t, slot, to),
                slot,
            )
        }),
    decreases list.len() - place,
{
    let here = list[place] as int;
    let slot = list[at] as int;
    let to = destination_of(ops, v, targets[here] as int, branches[here]);
    let after = followed(ops, c, v.tick, t, here, to);
    assert(traced(after, synapses));
    let shorter = list.update(place, list.last()).drop_last();
    let goes_on = alive(after, here, c.learning.eligibility_epsilon);
    let rest = if goes_on {
        list
    } else {
        shorter
    };
    let next = if goes_on {
        place + 1
    } else {
        place
    };
    assert(walked(ops, c, v, targets, branches, t, list, place) == walked(
        ops,
        c,
        v,
        targets,
        branches,
        after,
        rest,
        next,
    ));
    assert forall|i: int| 0 <= i < shorter.len() implies (#[trigger] shorter[i]) < synapses by {
        if i == place {
            assert(shorter[i] == list[list.len() - 1]);
        } else {
            assert(shorter[i] == list[i]);
        }
    }
    if at == place {
        assert forall|i: int| next <= i < rest.len() implies (#[trigger] rest[i]) < synapses
            && rest[i] != slot by {
            if !goes_on {
                if i == place {
                    assert(shorter[i] == list[list.len() - 1]);
                    assert(list[list.len() - 1] != list[place]);
                } else {
                    assert(shorter[i] == list[i]);
                }
            }
        }
        lemma_walk_leaves(ops, c, v, targets, branches, after, rest, next, slot, synapses);
    } else {
        lemma_followed_alone(ops, c, v.tick, t, here, to, slot, synapses);
        let spot = if goes_on || at < list.len() - 1 {
            at
        } else {
            place
        };
        assert(rest[spot] == list[at]);
        assert(rest.no_duplicates()) by {
            assert forall|i: int, j: int|
                0 <= i < rest.len() && 0 <= j < rest.len() && i != j implies rest[i]
                != rest[j] by {
                if !goes_on {
                    let x = if i == place {
                        list.len() - 1
                    } else {
                        i
                    };
                    let y = if j == place {
                        list.len() - 1
                    } else {
                        j
                    };
                    assert(shorter[i] == list[x] && shorter[j] == list[y]);
                }
            }
        }
        lemma_walk_comes_by(
            ops,
            c,
            v,
            targets,
            branches,
            after,
            rest,
            next,
            spot,
            synapses,
        );
        let there = destination_of(ops, v, targets[slot] as int, branches[slot]);
        lemma_followed_alike(ops, c, v.tick, after, t, slot, there, synapses);
    }
}

/// Eligibility is what a weight would have done: after a learning tick, a synapse whose trace is at
/// this tick and whose neuron takes part, and follows its membrane by one, is eligible by what its
/// trace holds on the membrane, where nothing is on the branch; and by what it holds on an excitatory
/// or inhibitory branch, where nothing is on the membrane and the neuron's excitability is one. The
/// eligibility of a synapse onto a neuron that does not take part only fades.
pub proof fn law_ticks_make_synapses_eligible<T: Numerics>(
    ops: T,
    b: Runtime,
    a: Runtime,
    at: int,
    synapses: int,
)
    requires
        orderly(ops),
        followed_all(ops, b, a),
        decays_soundly(b.model.config.dynamics),
        within_one(b.model.config.learning.eligibility_decay),
        traced(b.recurrent_traces@, synapses),
        b.recurrent_traces.eligible.list@.no_duplicates(),
        forall|i: int|
            0 <= i < b.recurrent_traces.eligible.list@.len() ==> (
            #[trigger] b.recurrent_traces.eligible.list@[i]) < synapses,
        0 <= at < b.recurrent_traces.eligible.list@.len(),
        ({
            let slot = b.recurrent_traces.eligible.list@[at] as int;
            let n = b.model.recurrent.target_neuron@[slot] as int;
            let t = b.recurrent_traces@;
            &&& t.branch[slot].finite() && t.membrane[slot].finite() && t.eligibility[slot].finite()
            &&& zero(t.fatigue[slot]) && zero(t.fast[slot]) && zero(t.medium[slot]) && zero(
                t.slow[slot],
            )
            &&& t.last_tick[slot] >= b.current_tick
            &&& b.model.neurons.excitability@[n] == unit()
            &&& b.model.recurrent.target_branch@[slot] <= 1
            &&& b.state.branches@[n * 4 + 2].finite() && b.state.branches@[n * 4 + 3].finite()
            &&& b.numbers.surrogate@[n] == unit()
        }),
    ensures
        ({
            let slot = b.recurrent_traces.eligible.list@[at] as int;
            let n = b.model.recurrent.target_neuron@[slot] as int;
            let t = b.recurrent_traces@;
            let u = a.recurrent_traces@;
            let takes_part = b.touched.mark@[n] && b.state.refractory_until@[n] <= b.current_tick;
            &&& takes_part && zero(t.branch[slot]) ==> alike(u.eligibility[slot], t.membrane[slot])
            &&& takes_part && zero(t.membrane[slot]) ==> alike(
                u.eligibility[slot],
                t.branch[slot],
            )
            &&& !takes_part ==> left_of(
                t.eligibility[slot],
                u.eligibility[slot],
                b.model.config.learning.eligibility_decay,
                true,
            )
        }),
{
    reveal(followed_all);
    let m = b.model;
    let v = tick_view(
        b.current_tick,
        b.touched,
        b.selected@,
        b.state,
        m.neurons.excitability@,
        b.numbers.surrogate@,
    );
    let t = b.recurrent_traces@;
    let list = b.recurrent_traces.eligible.list@;
    let slot = list[at] as int;
    let n = m.recurrent.target_neuron@[slot] as int;
    let branch = m.recurrent.target_branch@[slot];
    lemma_walk_comes_by(
        ops,
        m.config,
        v,
        m.recurrent.target_neuron@,
        m.recurrent.target_branch@,
        t,
        list,
        0,
        at,
        synapses,
    );
    let to = destination_of(ops, v, n, branch);
    law_branches_move_their_neuron(
        ops,
        branch,
        unit(),
        v.branches[n * 4 + 2],
        v.branches[n * 4 + 3],
    );
    crate::order::lemma_same_bits(to.jacobian, unit());
    assert(to.jacobian == unit());
    law_eligibility_follows_the_neuron(ops, m.config, b.current_tick, t, slot, to, synapses);
    let f = advanced(ops, m.config.dynamics, b.current_tick, t, slot);
    assert(f.branch[slot] == t.branch[slot] && f.membrane[slot] == t.membrane[slot]
        && f.fatigue[slot] == t.fatigue[slot] && f.fast[slot] == t.fast[slot] && f.medium[slot]
        == t.medium[slot] && f.slow[slot] == t.slow[slot]);
    law_traces_follow_the_membrane(ops, f, slot, unit());
}

} // verus!
