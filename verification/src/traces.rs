//! The forward sensitivities of the synapses: how each of them has shaped the neuron it reaches.

use crate::arithmetic::Numerics;
use crate::config::{Config, DynamicsConfig};
use crate::delay_ring::Event;
use crate::dynamics::{adaptation_sum, clock_at, elapsed_since, sum_of_three};
use crate::learning::{branch_jacobian, branch_slope, fade, faded, unit};
use crate::marks::MarkList;
use crate::model::{BRANCH_CONTEXT_GATE, BRANCH_TEMPORAL};
use crate::runtime::{TraceArrays, WorkerState};
use crate::scalar::Scalar;
use vstd::prelude::*;

verus! {

/// The sensitivities of one kind of synapse, as sequences. Which synapses are eligible is no part of
/// it: contracts speak of the marks themselves.
#[verifier::ext_equal]
pub struct TraceView {
    pub branch: Seq<Scalar>,
    pub membrane: Seq<Scalar>,
    pub fatigue: Seq<Scalar>,
    pub fast: Seq<Scalar>,
    pub medium: Seq<Scalar>,
    pub slow: Seq<Scalar>,
    pub eligibility: Seq<Scalar>,
    pub last_tick: Seq<u64>,
}

impl View for TraceArrays {
    type V = TraceView;

    open spec fn view(&self) -> TraceView {
        TraceView {
            branch: self.branch@,
            membrane: self.membrane@,
            fatigue: self.fatigue@,
            fast: self.adaptation_fast@,
            medium: self.adaptation_medium@,
            slow: self.adaptation_slow@,
            eligibility: self.eligibility@,
            last_tick: self.last_tick@,
        }
    }
}

/// A trace brought to a tick: what it holds has decayed since it was last looked at.
pub open spec fn advanced<T: Numerics>(
    ops: T,
    d: DynamicsConfig,
    tick: u64,
    t: TraceView,
    slot: int,
) -> TraceView {
    let age = elapsed_since(tick, t.last_tick[slot]);
    TraceView {
        branch: t.branch.update(slot, faded(ops, t.branch[slot], d.branch_decay, age)),
        membrane: t.membrane.update(slot, faded(ops, t.membrane[slot], d.membrane_decay, age)),
        fatigue: t.fatigue.update(slot, faded(ops, t.fatigue[slot], d.fatigue_decay, age)),
        fast: t.fast.update(slot, faded(ops, t.fast[slot], d.adaptation_fast_decay, age)),
        medium: t.medium.update(slot, faded(ops, t.medium[slot], d.adaptation_medium_decay, age)),
        slow: t.slow.update(slot, faded(ops, t.slow[slot], d.adaptation_slow_decay, age)),
        last_tick: t.last_tick.update(slot, clock_at(tick, t.last_tick[slot])),
        ..t
    }
}

fn fade_slot<T: Numerics>(
    ops: &T,
    values: &mut Vec<Scalar>,
    slot: usize,
    base: Scalar,
    elapsed: u64,
)
    requires
        ops.ready(),
        slot < old(values).len(),
    ensures
        final(values)@ == old(values)@.update(
            slot as int,
            faded(*ops, old(values)@[slot as int], base, elapsed),
        ),
{
    let value: Scalar = fade(ops, values[slot], base, elapsed);
    values.set(slot, value);
}

fn advance<T: Numerics>(
    ops: &T,
    d: &DynamicsConfig,
    tick: u64,
    t: &mut TraceArrays,
    slot: usize,
    synapses: usize,
)
    requires
        ops.ready(),
        old(t).wf(synapses as int),
        slot < synapses,
    ensures
        final(t).wf(synapses as int),
        final(t)@ == advanced(*ops, *d, tick, old(t)@, slot as int),
        final(t).eligible == old(t).eligible,
{
    let age: u64 = tick.saturating_sub(t.last_tick[slot]);
    if age > 0 {
        fade_slot(ops, &mut t.branch, slot, d.branch_decay, age);
        fade_slot(ops, &mut t.membrane, slot, d.membrane_decay, age);
        fade_slot(ops, &mut t.fatigue, slot, d.fatigue_decay, age);
        fade_slot(ops, &mut t.adaptation_fast, slot, d.adaptation_fast_decay, age);
        fade_slot(ops, &mut t.adaptation_medium, slot, d.adaptation_medium_decay, age);
        fade_slot(ops, &mut t.adaptation_slow, slot, d.adaptation_slow_decay, age);
        t.last_tick.set(slot, tick);
    }
    assert(t@ =~= advanced(*ops, *d, tick, old(t)@, slot as int));
}

/// A trace after a signal went along its synapse.
pub open spec fn signalled<T: Numerics>(
    ops: T,
    d: DynamicsConfig,
    tick: u64,
    t: TraceView,
    slot: int,
    signal: Scalar,
) -> TraceView {
    let a = advanced(ops, d, tick, t, slot);
    TraceView { branch: a.branch.update(slot, ops.sum(a.branch[slot], signal)), ..a }
}

fn signal_along<T: Numerics>(
    ops: &T,
    d: &DynamicsConfig,
    tick: u64,
    t: &mut TraceArrays,
    slot: usize,
    signal: Scalar,
    synapses: usize,
)
    requires
        ops.ready(),
        old(t).wf(synapses as int),
        slot < synapses,
    ensures
        final(t).wf(synapses as int),
        final(t)@ == signalled(*ops, *d, tick, old(t)@, slot as int, signal),
        final(t).eligible == old(t).eligible,
{
    advance(ops, d, tick, t, slot, synapses);
    let value: Scalar = ops.plus(t.branch[slot], signal);
    t.branch.set(slot, value);
    assert(t@ =~= signalled(*ops, *d, tick, old(t)@, slot as int, signal));
}

/// The traces after the first `upto` events went along their synapses.
pub open spec fn event_traces<T: Numerics>(
    ops: T,
    d: DynamicsConfig,
    tick: u64,
    t: TraceView,
    events: Seq<Event>,
    upto: int,
) -> TraceView
    decreases upto,
{
    if upto <= 0 {
        t
    } else {
        let e = events[upto - 1];
        signalled(
            ops,
            d,
            tick,
            event_traces(ops, d, tick, t, events, upto - 1),
            e.synapse_slot as int,
            e.presynaptic_activation,
        )
    }
}

/// Enters the events that arrive into the traces of their synapses.
pub fn trace_events<T: Numerics>(
    ops: &T,
    d: &DynamicsConfig,
    tick: u64,
    t: &mut TraceArrays,
    events: &Vec<Event>,
    synapses: usize,
)
    requires
        ops.ready(),
        old(t).wf(synapses as int),
        forall|i: int| 0 <= i < events.len() ==> (#[trigger] events[i]).synapse_slot < synapses,
    ensures
        final(t).wf(synapses as int),
        final(t)@ == event_traces(*ops, *d, tick, old(t)@, events@, events@.len() as int),
        final(t).eligible == old(t).eligible,
{
    let mut i: usize = 0;
    while i < events.len()
        invariant
            i <= events.len(),
            ops.ready(),
            t.wf(synapses as int),
            forall|k: int| 0 <= k < events.len() ==> (#[trigger] events[k]).synapse_slot < synapses,
            t@ == event_traces(*ops, *d, tick, old(t)@, events@, i as int),
            t.eligible == old(t).eligible,
        decreases events.len() - i,
    {
        let e: Event = events[i];
        signal_along(
            ops,
            d,
            tick,
            t,
            e.synapse_slot as usize,
            e.presynaptic_activation,
            synapses,
        );
        i = i + 1;
    }
}

/// The traces after the first `upto` input synapses from `first` on were fed.
pub open spec fn input_traces_after<T: Numerics>(
    ops: T,
    d: DynamicsConfig,
    tick: u64,
    t: TraceView,
    first: int,
    upto: int,
) -> TraceView
    decreases upto,
{
    if upto <= 0 {
        t
    } else {
        signalled(
            ops,
            d,
            tick,
            input_traces_after(ops, d, tick, t, first, upto - 1),
            first + upto - 1,
            unit(),
        )
    }
}

/// Enters the symbol into the traces of its synapses.
pub fn trace_inputs<T: Numerics>(
    ops: &T,
    d: &DynamicsConfig,
    tick: u64,
    t: &mut TraceArrays,
    first: usize,
    fanout: usize,
    synapses: usize,
)
    requires
        ops.ready(),
        old(t).wf(synapses as int),
        first + fanout <= synapses,
    ensures
        final(t).wf(synapses as int),
        final(t)@ == input_traces_after(
            *ops,
            *d,
            tick,
            old(t)@,
            first as int,
            fanout as int,
        ),
        final(t).eligible == old(t).eligible,
{
    let mut i: usize = 0;
    while i < fanout
        invariant
            i <= fanout,
            ops.ready(),
            t.wf(synapses as int),
            first + fanout <= synapses,
            t@ == input_traces_after(*ops, *d, tick, old(t)@, first as int, i as int),
            t.eligible == old(t).eligible,
        decreases fanout - i,
    {
        signal_along(ops, d, tick, t, first + i, Scalar::one(), synapses);
        i = i + 1;
    }
}

/// What a synapse needs to know of the neuron that it reaches.
#[derive(Debug, Clone, Copy, PartialEq, Eq, Structural)]
pub struct Destination {
    /// The neuron was touched on this tick.
    pub touched: bool,
    pub refractory: bool,
    pub selected: bool,
    /// How strongly the branch that the synapse ends on moves the neuron.
    pub jacobian: Scalar,
    /// How strongly the neuron's activation follows its membrane.
    pub surrogate: Scalar,
}

/// What a tick shows of its neurons.
pub struct TickView {
    pub tick: u64,
    pub touched: Seq<bool>,
    pub selected: Seq<bool>,
    pub refractory_until: Seq<u64>,
    pub excitability: Seq<Scalar>,
    pub branches: Seq<Scalar>,
    pub surrogate: Seq<Scalar>,
}

/// The neuron that a synapse reaches, seen from the synapse.
pub open spec fn destination_of<T: Numerics>(
    ops: T,
    v: TickView,
    neuron: int,
    branch: u8,
) -> Destination {
    Destination {
        touched: v.touched[neuron],
        refractory: v.refractory_until[neuron] > v.tick,
        selected: v.selected[neuron],
        jacobian: branch_slope(
            ops,
            branch,
            v.excitability[neuron],
            v.branches[neuron * 4 + BRANCH_TEMPORAL],
            v.branches[neuron * 4 + BRANCH_CONTEXT_GATE],
        ),
        surrogate: v.surrogate[neuron],
    }
}

/// The membrane sensitivity of a synapse whose neuron takes part in a tick.
pub open spec fn moved_membrane<T: Numerics>(
    ops: T,
    t: TraceView,
    slot: int,
    jacobian: Scalar,
) -> Scalar {
    ops.difference(
        ops.difference(
            ops.sum(t.membrane[slot], ops.product(jacobian, t.branch[slot])),
            t.fatigue[slot],
        ),
        adaptation_sum(ops, t.fast[slot], t.medium[slot], t.slow[slot]),
    )
}

/// A trace after a tick: where the neuron takes part, the trace follows its membrane, otherwise
/// the eligibility dies away; where the neuron is active, it tires and adapts with it.
pub open spec fn followed<T: Numerics>(
    ops: T,
    c: Config,
    tick: u64,
    t: TraceView,
    slot: int,
    to: Destination,
) -> TraceView {
    let a = advanced(ops, c.dynamics, tick, t, slot);
    let idle = !to.touched || to.refractory;
    let membrane = if idle {
        a.membrane[slot]
    } else {
        moved_membrane(ops, a, slot, to.jacobian)
    };
    let eligibility = if idle {
        ops.product(a.eligibility[slot], c.learning.eligibility_decay)
    } else {
        ops.product(to.surrogate, membrane)
    };
    let b = TraceView {
        membrane: a.membrane.update(slot, membrane),
        eligibility: a.eligibility.update(slot, eligibility),
        ..a
    };
    if to.touched && to.selected {
        TraceView {
            fatigue: b.fatigue.update(
                slot,
                ops.sum(b.fatigue[slot], ops.product(c.dynamics.fatigue_gain, eligibility)),
            ),
            fast: b.fast.update(
                slot,
                ops.sum(b.fast[slot], ops.product(c.dynamics.adaptation_fast_gain, eligibility)),
            ),
            medium: b.medium.update(
                slot,
                ops.sum(
                    b.medium[slot],
                    ops.product(c.dynamics.adaptation_medium_gain, eligibility),
                ),
            ),
            slow: b.slow.update(
                slot,
                ops.sum(b.slow[slot], ops.product(c.dynamics.adaptation_slow_gain, eligibility)),
            ),
            ..b
        }
    } else {
        b
    }
}

/// The largest number of a trace, without its sign.
pub open spec fn trace_magnitude(t: TraceView, slot: int) -> Scalar {
    t.branch[slot].absolute().greater(t.membrane[slot].absolute()).greater(
        t.fatigue[slot].absolute(),
    ).greater(t.eligibility[slot].absolute()).greater(t.fast[slot].absolute()).greater(
        t.medium[slot].absolute(),
    ).greater(t.slow[slot].absolute())
}

/// The trace of a synapse has not died away.
pub open spec fn alive(t: TraceView, slot: int, epsilon: Scalar) -> bool {
    epsilon.below(trace_magnitude(t, slot))
}

fn raise_slot<T: Numerics>(
    ops: &T,
    values: &mut Vec<Scalar>,
    slot: usize,
    gain: Scalar,
    amount: Scalar,
)
    requires
        ops.ready(),
        slot < old(values).len(),
    ensures
        final(values)@ == old(values)@.update(
            slot as int,
            ops.sum(old(values)@[slot as int], ops.product(gain, amount)),
        ),
{
    let value: Scalar = ops.plus(values[slot], ops.times(gain, amount));
    values.set(slot, value);
}

fn follow<T: Numerics>(
    ops: &T,
    c: &Config,
    tick: u64,
    t: &mut TraceArrays,
    slot: usize,
    to: &Destination,
    synapses: usize,
) -> (r: bool)
    requires
        ops.ready(),
        old(t).wf(synapses as int),
        slot < synapses,
    ensures
        final(t).wf(synapses as int),
        final(t)@ == followed(*ops, *c, tick, old(t)@, slot as int, *to),
        final(t).eligible == old(t).eligible,
        r == alive(final(t)@, slot as int, c.learning.eligibility_epsilon),
{
    advance(ops, &c.dynamics, tick, t, slot, synapses);
    let ghost a = t@;
    let eligibility: Scalar = if !to.touched || to.refractory {
        ops.times(t.eligibility[slot], c.learning.eligibility_decay)
    } else {
        let adaptation: Scalar = sum_of_three(
            ops,
            t.adaptation_fast[slot],
            t.adaptation_medium[slot],
            t.adaptation_slow[slot],
        );
        let pushed: Scalar = ops.plus(
            t.membrane[slot],
            ops.times(to.jacobian, t.branch[slot]),
        );
        let membrane: Scalar = ops.minus(ops.minus(pushed, t.fatigue[slot]), adaptation);
        t.membrane.set(slot, membrane);
        ops.times(to.surrogate, membrane)
    };
    t.eligibility.set(slot, eligibility);
    if to.touched && to.selected {
        raise_slot(ops, &mut t.fatigue, slot, c.dynamics.fatigue_gain, eligibility);
        raise_slot(ops, &mut t.adaptation_fast, slot, c.dynamics.adaptation_fast_gain, eligibility);
        raise_slot(
            ops,
            &mut t.adaptation_medium,
            slot,
            c.dynamics.adaptation_medium_gain,
            eligibility,
        );
        raise_slot(ops, &mut t.adaptation_slow, slot, c.dynamics.adaptation_slow_gain, eligibility);
    }
    assert(t@ =~= followed(*ops, *c, tick, old(t)@, slot as int, *to));
    let magnitude: Scalar = t.branch[slot].abs().max_of(t.membrane[slot].abs()).max_of(
        t.fatigue[slot].abs(),
    ).max_of(t.eligibility[slot].abs()).max_of(t.adaptation_fast[slot].abs()).max_of(
        t.adaptation_medium[slot].abs(),
    ).max_of(t.adaptation_slow[slot].abs());
    c.learning.eligibility_epsilon.lt(magnitude)
}

/// What a walk along the eligible synapses leaves, from `place` on: every trace follows its
/// neuron, and one that has died away leaves the list, the last taking its place.
pub open spec fn walked<T: Numerics>(
    ops: T,
    c: Config,
    v: TickView,
    targets: Seq<u32>,
    branches: Seq<u8>,
    t: TraceView,
    list: Seq<usize>,
    place: int,
) -> (TraceView, Seq<usize>)
    decreases list.len() - place,
{
    if place < 0 || place >= list.len() {
        (t, list)
    } else {
        let slot = list[place] as int;
        let to = destination_of(ops, v, targets[slot] as int, branches[slot]);
        let after = followed(ops, c, v.tick, t, slot, to);
        if alive(after, slot, c.learning.eligibility_epsilon) {
            walked(ops, c, v, targets, branches, after, list, place + 1)
        } else {
            walked(
                ops,
                c,
                v,
                targets,
                branches,
                after,
                list.update(place, list.last()).drop_last(),
                place,
            )
        }
    }
}

/// What a tick shows of its neurons.
pub open spec fn tick_view(
    tick: u64,
    touched: MarkList,
    selected: Seq<bool>,
    state: WorkerState,
    excitability: Seq<Scalar>,
    surrogate: Seq<Scalar>,
) -> TickView {
    TickView {
        tick,
        touched: touched.mark@,
        selected,
        refractory_until: state.refractory_until@,
        excitability,
        branches: state.branches@,
        surrogate,
    }
}

fn see_destination<T: Numerics>(
    ops: &T,
    tick: u64,
    touched: &MarkList,
    selected: &Vec<bool>,
    state: &WorkerState,
    excitability: &Vec<Scalar>,
    surrogate: &Vec<Scalar>,
    neuron: usize,
    branch: u8,
    neurons: usize,
) -> (r: Destination)
    requires
        ops.ready(),
        neuron < neurons,
        neurons * 4 <= usize::MAX,
        touched.mark.len() == neurons,
        selected.len() == neurons,
        state.wf(neurons as int),
        excitability.len() == neurons,
        surrogate.len() == neurons,
    ensures
        r == destination_of(
            *ops,
            tick_view(tick, *touched, selected@, *state, excitability@, surrogate@),
            neuron as int,
            branch,
        ),
{
    let b: usize = neuron * 4;
    Destination {
        touched: touched.mark[neuron],
        refractory: state.refractory_until[neuron] > tick,
        selected: selected[neuron],
        jacobian: branch_jacobian(
            ops,
            branch,
            excitability[neuron],
            state.branches[b + 2],
            state.branches[b + 3],
        ),
        surrogate: surrogate[neuron],
    }
}

/// Lets the traces of the eligible synapses follow their neurons.
pub fn walk_eligible<T: Numerics>(
    ops: &T,
    c: &Config,
    tick: u64,
    touched: &MarkList,
    selected: &Vec<bool>,
    state: &WorkerState,
    excitability: &Vec<Scalar>,
    surrogate: &Vec<Scalar>,
    targets: &Vec<u32>,
    branches: &Vec<u8>,
    t: &mut TraceArrays,
    neurons: usize,
)
    requires
        ops.ready(),
        neurons * 4 <= usize::MAX,
        touched.mark.len() == neurons,
        selected.len() == neurons,
        state.wf(neurons as int),
        excitability.len() == neurons,
        surrogate.len() == neurons,
        old(t).wf(targets.len() as int),
        branches.len() == targets.len(),
        forall|i: int| 0 <= i < targets.len() ==> (#[trigger] targets[i]) < neurons,
    ensures
        final(t).wf(targets.len() as int),
        (final(t)@, final(t).eligible.list@) == walked(
            *ops,
            *c,
            tick_view(tick, *touched, selected@, *state, excitability@, surrogate@),
            targets@,
            branches@,
            old(t)@,
            old(t).eligible.list@,
            0,
        ),
{
    let ghost v = tick_view(tick, *touched, selected@, *state, excitability@, surrogate@);
    let synapses: usize = targets.len();
    let mut place: usize = 0;
    while place < t.eligible.list.len()
        invariant
            ops.ready(),
            neurons * 4 <= usize::MAX,
            touched.mark.len() == neurons,
            selected.len() == neurons,
            state.wf(neurons as int),
            excitability.len() == neurons,
            surrogate.len() == neurons,
            synapses == targets.len(),
            t.wf(synapses as int),
            branches.len() == targets.len(),
            forall|i: int| 0 <= i < targets.len() ==> (#[trigger] targets[i]) < neurons,
            v == tick_view(tick, *touched, selected@, *state, excitability@, surrogate@),
            place <= t.eligible.list.len(),
            walked(*ops, *c, v, targets@, branches@, old(t)@, old(t).eligible.list@, 0) == walked(
                *ops,
                *c,
                v,
                targets@,
                branches@,
                t@,
                t.eligible.list@,
                place as int,
            ),
        decreases t.eligible.list.len() - place,
    {
        let slot: usize = t.eligible.list[place];
        assert(slot < synapses);
        let to: Destination = see_destination(
            ops,
            tick,
            touched,
            selected,
            state,
            excitability,
            surrogate,
            targets[slot] as usize,
            branches[slot],
            neurons,
        );
        let keep: bool = follow(ops, c, tick, t, slot, &to, synapses);
        if keep {
            place = place + 1;
        } else {
            let ghost list = t.eligible.list@;
            t.eligible.remove_at(place);
            assert(t.eligible.list@ =~= list.update(place as int, list.last()).drop_last());
        }
    }
}

} // verus!
