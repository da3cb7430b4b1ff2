//! The dynamics of the neurons within a tick: decay, incoming signals, drive and fatigue.

use crate::arithmetic::Numerics;
use crate::config::DynamicsConfig;
use crate::delay_ring::Event;
use crate::learning::{fade, faded, nought, unit};
use crate::model::{
    Model, BRANCH_CONTEXT_GATE, BRANCH_EXCITATORY, BRANCH_INHIBITORY, BRANCH_TEMPORAL,
};
use crate::runtime::{all_below, WorkerState};
use crate::scalar::Scalar;
use vstd::prelude::*;

verus! {

/// The state of the neurons, as sequences.
#[verifier::ext_equal]
pub struct NeuronView {
    pub membrane: Seq<Scalar>,
    pub activation: Seq<Scalar>,
    pub fatigue: Seq<Scalar>,
    pub refractory_until: Seq<u64>,
    pub branches: Seq<Scalar>,
    pub fast: Seq<Scalar>,
    pub medium: Seq<Scalar>,
    pub slow: Seq<Scalar>,
    pub branch_last_tick: Seq<u64>,
    pub neuron_last_tick: Seq<u64>,
}

impl View for WorkerState {
    type V = NeuronView;

    open spec fn view(&self) -> NeuronView {
        NeuronView {
            membrane: self.membrane@,
            activation: self.activation@,
            fatigue: self.fatigue@,
            refractory_until: self.refractory_until@,
            branches: self.branches@,
            fast: self.adaptation_fast@,
            medium: self.adaptation_medium@,
            slow: self.adaptation_slow@,
            branch_last_tick: self.branch_last_tick@,
            neuron_last_tick: self.neuron_last_tick@,
        }
    }
}

impl NeuronView {
    /// One entry for each neuron, four branches for each.
    pub open spec fn wf(self, neurons: int) -> bool {
        &&& self.membrane.len() == neurons
        &&& self.activation.len() == neurons
        &&& self.fatigue.len() == neurons
        &&& self.refractory_until.len() == neurons
        &&& self.branches.len() == neurons * 4
        &&& self.fast.len() == neurons
        &&& self.medium.len() == neurons
        &&& self.slow.len() == neurons
        &&& self.branch_last_tick.len() == neurons
        &&& self.neuron_last_tick.len() == neurons
    }
}

/// The ticks that have gone by.
pub open spec fn elapsed_since(tick: u64, last: u64) -> u64 {
    if tick >= last {
        (tick - last) as u64
    } else {
        0
    }
}

/// A clock after it was read at `tick`.
pub open spec fn clock_at(tick: u64, last: u64) -> u64 {
    if tick >= last {
        tick
    } else {
        last
    }
}

/// A neuron brought to a tick: what it holds has decayed since it was last looked at.
pub open spec fn settled_one<T: Numerics>(
    ops: T,
    d: DynamicsConfig,
    tick: u64,
    v: NeuronView,
    neuron: int,
) -> NeuronView {
    let since = elapsed_since(tick, v.branch_last_tick[neuron]);
    let b = neuron * 4;
    let age = elapsed_since(tick, v.neuron_last_tick[neuron]);
    NeuronView {
        branches: v.branches.update(b, faded(ops, v.branches[b], d.branch_decay, since)).update(
            b + 1,
            faded(ops, v.branches[b + 1], d.branch_decay, since),
        ).update(b + 2, faded(ops, v.branches[b + 2], d.branch_decay, since)).update(
            b + 3,
            faded(ops, v.branches[b + 3], d.branch_decay, since),
        ),
        branch_last_tick: v.branch_last_tick.update(
            neuron,
            clock_at(tick, v.branch_last_tick[neuron]),
        ),
        membrane: v.membrane.update(
            neuron,
            faded(ops, v.membrane[neuron], d.membrane_decay, age),
        ),
        fatigue: v.fatigue.update(neuron, faded(ops, v.fatigue[neuron], d.fatigue_decay, age)),
        fast: v.fast.update(neuron, faded(ops, v.fast[neuron], d.adaptation_fast_decay, age)),
        medium: v.medium.update(
            neuron,
            faded(ops, v.medium[neuron], d.adaptation_medium_decay, age),
        ),
        slow: v.slow.update(neuron, faded(ops, v.slow[neuron], d.adaptation_slow_decay, age)),
        neuron_last_tick: v.neuron_last_tick.update(
            neuron,
            clock_at(tick, v.neuron_last_tick[neuron]),
        ),
        ..v
    }
}

/// The first `upto` neurons of a list brought to a tick.
pub open spec fn settled<T: Numerics>(
    ops: T,
    d: DynamicsConfig,
    tick: u64,
    v: NeuronView,
    list: Seq<usize>,
    upto: int,
) -> NeuronView
    decreases upto,
{
    if upto <= 0 {
        v
    } else {
        settled_one(ops, d, tick, settled(ops, d, tick, v, list, upto - 1), list[upto - 1] as int)
    }
}

/// The ticks that have gone by since a clock was read.
fn ticks_since(tick: u64, last: u64) -> (r: u64)
    ensures
        r == elapsed_since(tick, last),
{
    tick.saturating_sub(last)
}

fn fade_at<T: Numerics>(ops: &T, values: &mut Vec<Scalar>, place: usize, base: Scalar, elapsed: u64)
    requires
        ops.ready(),
        place < old(values).len(),
    ensures
        final(values)@ == old(values)@.update(
            place as int,
            faded(*ops, old(values)@[place as int], base, elapsed),
        ),
{
    let value: Scalar = fade(ops, values[place], base, elapsed);
    values.set(place, value);
}

fn settle_one<T: Numerics>(
    ops: &T,
    d: &DynamicsConfig,
    tick: u64,
    state: &mut WorkerState,
    neuron: usize,
    neurons: usize,
)
    requires
        ops.ready(),
        old(state).wf(neurons as int),
        neuron < neurons,
        neurons * 4 <= usize::MAX,
    ensures
        final(state).wf(neurons as int),
        final(state)@ == settled_one(*ops, *d, tick, old(state)@, neuron as int),
{
    let since: u64 = ticks_since(tick, state.branch_last_tick[neuron]);
    let b: usize = neuron * 4;
    if since > 0 {
        fade_at(ops, &mut state.branches, b, d.branch_decay, since);
        fade_at(ops, &mut state.branches, b + 1, d.branch_decay, since);
        fade_at(ops, &mut state.branches, b + 2, d.branch_decay, since);
        fade_at(ops, &mut state.branches, b + 3, d.branch_decay, since);
        state.branch_last_tick.set(neuron, tick);
    }
    let age: u64 = ticks_since(tick, state.neuron_last_tick[neuron]);
    if age > 0 {
        fade_at(ops, &mut state.membrane, neuron, d.membrane_decay, age);
        fade_at(ops, &mut state.fatigue, neuron, d.fatigue_decay, age);
        fade_at(ops, &mut state.adaptation_fast, neuron, d.adaptation_fast_decay, age);
        fade_at(ops, &mut state.adaptation_medium, neuron, d.adaptation_medium_decay, age);
        fade_at(ops, &mut state.adaptation_slow, neuron, d.adaptation_slow_decay, age);
        state.neuron_last_tick.set(neuron, tick);
    }
    assert(state@ =~= settled_one(*ops, *d, tick, old(state)@, neuron as int));
}

/// Brings the neurons of a list to a tick.
pub fn settle<T: Numerics>(
    ops: &T,
    d: &DynamicsConfig,
    tick: u64,
    state: &mut WorkerState,
    list: &Vec<usize>,
    neurons: usize,
)
    requires
        ops.ready(),
        old(state).wf(neurons as int),
        all_below(list@, neurons as int),
        neurons * 4 <= usize::MAX,
    ensures
        final(state).wf(neurons as int),
        final(state)@ == settled(*ops, *d, tick, old(state)@, list@, list@.len() as int),
{
    let mut i: usize = 0;
    while i < list.len()
        invariant
            i <= list.len(),
            ops.ready(),
            state.wf(neurons as int),
            all_below(list@, neurons as int),
            neurons * 4 <= usize::MAX,
            state@ == settled(*ops, *d, tick, old(state)@, list@, i as int),
        decreases list.len() - i,
    {
        settle_one(ops, d, tick, state, list[i], neurons);
        i = i + 1;
    }
}

/// A signal added to a branch; one for a neuron or a branch that there is not is lost.
pub open spec fn added<T: Numerics>(
    ops: T,
    branches: Seq<Scalar>,
    neurons: int,
    neuron: int,
    branch: u8,
    value: Scalar,
) -> Seq<Scalar> {
    let place = neuron * 4 + branch;
    if neuron >= neurons || branch > BRANCH_CONTEXT_GATE {
        branches
    } else {
        branches.update(place, ops.sum(branches[place], value))
    }
}

fn add_to_branch<T: Numerics>(
    ops: &T,
    branches: &mut Vec<Scalar>,
    neurons: usize,
    neuron: usize,
    branch: u8,
    value: Scalar,
)
    requires
        ops.ready(),
        old(branches).len() == neurons * 4,
    ensures
        final(branches)@ == added(*ops, old(branches)@, neurons as int, neuron as int, branch, value),
        final(branches).len() == old(branches).len(),
{
    if neuron >= neurons || branch > BRANCH_CONTEXT_GATE {
        return;
    }
    let place: usize = neuron * 4 + branch as usize;
    let sum: Scalar = ops.plus(branches[place], value);
    branches.set(place, sum);
}

/// The branches after the first `upto` events arrived.
pub open spec fn delivered<T: Numerics>(
    ops: T,
    branches: Seq<Scalar>,
    neurons: int,
    events: Seq<Event>,
    upto: int,
) -> Seq<Scalar>
    decreases upto,
{
    if upto <= 0 {
        branches
    } else {
        let e = events[upto - 1];
        added(
            ops,
            delivered(ops, branches, neurons, events, upto - 1),
            neurons,
            e.target_neuron as int,
            e.target_branch,
            e.value,
        )
    }
}

/// Adds the events that arrive to the branches they arrive at.
pub fn deliver<T: Numerics>(
    ops: &T,
    branches: &mut Vec<Scalar>,
    neurons: usize,
    events: &Vec<Event>,
)
    requires
        ops.ready(),
        old(branches).len() == neurons * 4,
    ensures
        final(branches)@ == delivered(
            *ops,
            old(branches)@,
            neurons as int,
            events@,
            events@.len() as int,
        ),
        final(branches).len() == old(branches).len(),
{
    let mut i: usize = 0;
    while i < events.len()
        invariant
            i <= events.len(),
            ops.ready(),
            branches.len() == neurons * 4,
            branches.len() == old(branches).len(),
            branches@ == delivered(*ops, old(branches)@, neurons as int, events@, i as int),
        decreases events.len() - i,
    {
        let e: Event = events[i];
        add_to_branch(ops, branches, neurons, e.target_neuron as usize, e.target_branch, e.value);
        i = i + 1;
    }
}

/// The branches after the first `upto` input synapses from `first` on were fed.
pub open spec fn injected<T: Numerics>(
    ops: T,
    branches: Seq<Scalar>,
    m: Model,
    first: int,
    upto: int,
) -> Seq<Scalar>
    decreases upto,
{
    if upto <= 0 {
        branches
    } else {
        let slot = first + upto - 1;
        added(
            ops,
            injected(ops, branches, m, first, upto - 1),
            m.config.model.neuron_count as int,
            m.input.targets[slot] as int,
            m.input.branches[slot],
            m.input.weights[slot],
        )
    }
}

/// Feeds the input synapses of a symbol.
pub fn inject<T: Numerics>(ops: &T, branches: &mut Vec<Scalar>, m: &Model, first: usize)
    requires
        ops.ready(),
        old(branches).len() == m.config.model.neuron_count * 4,
        first + m.input.fanout <= m.input.targets.len(),
        m.input.branches.len() == m.input.targets.len(),
        m.input.weights.len() == m.input.targets.len(),
    ensures
        final(branches)@ == injected(
            *ops,
            old(branches)@,
            *m,
            first as int,
            m.input.fanout as int,
        ),
        final(branches).len() == old(branches).len(),
{
    let neurons: usize = m.config.model.neuron_count;
    let mut i: usize = 0;
    while i < m.input.fanout
        invariant
            i <= m.input.fanout,
            ops.ready(),
            neurons == m.config.model.neuron_count,
            branches.len() == neurons * 4,
            branches.len() == old(branches).len(),
            first + m.input.fanout <= m.input.targets.len(),
            m.input.branches.len() == m.input.targets.len(),
            m.input.weights.len() == m.input.targets.len(),
            branches@ == injected(*ops, old(branches)@, *m, first as int, i as int),
        decreases m.input.fanout - i,
    {
        let slot: usize = first + i;
        add_to_branch(
            ops,
            branches,
            neurons,
            m.input.targets[slot] as usize,
            m.input.branches[slot],
            m.input.weights[slot],
        );
        i = i + 1;
    }
}

/// The sum of the three adaptations of a neuron.
pub open spec fn adaptation_sum<T: Numerics>(
    ops: T,
    fast: Scalar,
    medium: Scalar,
    slow: Scalar,
) -> Scalar {
    ops.sum(ops.sum(fast, medium), slow)
}

/// The sum of the three adaptations of a neuron.
pub fn sum_of_three<T: Numerics>(ops: &T, fast: Scalar, medium: Scalar, slow: Scalar) -> (r: Scalar)
    requires
        ops.ready(),
    ensures
        r == adaptation_sum(*ops, fast, medium, slow),
{
    ops.plus(ops.plus(fast, medium), slow)
}

/// The evidence of a neuron: what excites it, what its gate lets through, and what inhibits it.
pub open spec fn evidence<T: Numerics>(ops: T, v: NeuronView, neuron: int) -> Scalar {
    let b = neuron * 4;
    ops.sum(
        ops.sum(
            v.branches[b + BRANCH_EXCITATORY],
            ops.product(
                v.branches[b + BRANCH_TEMPORAL],
                v.branches[b + BRANCH_CONTEXT_GATE].confined(nought(), unit()),
            ),
        ),
        v.branches[b + BRANCH_INHIBITORY],
    )
}

/// The drive of a neuron: its excitability is a gain on evidence, and fatigue, adaptation and the
/// inhibition of the population hold it back.
pub open spec fn drive<T: Numerics>(
    ops: T,
    v: NeuronView,
    excitability: Seq<Scalar>,
    inhibition: Scalar,
    neuron: int,
) -> Scalar {
    ops.difference(
        ops.difference(
            ops.difference(
                ops.product(excitability[neuron], evidence(ops, v, neuron)),
                v.fatigue[neuron],
            ),
            adaptation_sum(ops, v.fast[neuron], v.medium[neuron], v.slow[neuron]),
        ),
        inhibition,
    )
}

/// The membranes after the first `upto` neurons of a list were driven; a refractory neuron is
/// not.
pub open spec fn driven<T: Numerics>(
    ops: T,
    v: NeuronView,
    excitability: Seq<Scalar>,
    inhibition: Scalar,
    tick: u64,
    list: Seq<usize>,
    upto: int,
) -> Seq<Scalar>
    decreases upto,
{
    if upto <= 0 {
        v.membrane
    } else {
        let before = driven(ops, v, excitability, inhibition, tick, list, upto - 1);
        let neuron = list[upto - 1] as int;
        if v.refractory_until[neuron] > tick {
            before
        } else {
            before.update(
                neuron,
                ops.sum(before[neuron], drive(ops, v, excitability, inhibition, neuron)),
            )
        }
    }
}

/// How far a neuron is above its threshold, between zero and one.
pub open spec fn activity<T: Numerics>(ops: T, membrane: Scalar, threshold: Scalar) -> Scalar {
    ops.difference(membrane, threshold).confined(nought(), unit())
}

/// The activations of the neurons of a list; a refractory neuron has none.
pub open spec fn activities<T: Numerics>(
    ops: T,
    membrane: Seq<Scalar>,
    threshold: Seq<Scalar>,
    refractory_until: Seq<u64>,
    tick: u64,
    list: Seq<usize>,
) -> Seq<Scalar> {
    Seq::new(
        list.len(),
        |i: int|
            if refractory_until[list[i] as int] > tick {
                nought()
            } else {
                activity(ops, membrane[list[i] as int], threshold[list[i] as int])
            },
    )
}

/// Drives the neurons of a list.
pub fn drive_membranes<T: Numerics>(
    ops: &T,
    state: &mut WorkerState,
    excitability: &Vec<Scalar>,
    inhibition: Scalar,
    tick: u64,
    list: &Vec<usize>,
    neurons: usize,
)
    requires
        ops.ready(),
        old(state).wf(neurons as int),
        excitability.len() == neurons,
        all_below(list@, neurons as int),
        neurons * 4 <= usize::MAX,
    ensures
        final(state).wf(neurons as int),
        final(state)@ == (NeuronView {
            membrane: driven(
                *ops,
                old(state)@,
                excitability@,
                inhibition,
                tick,
                list@,
                list@.len() as int,
            ),
            ..old(state)@
        }),
{
    let ghost v = state@;
    let mut i: usize = 0;
    while i < list.len()
        invariant
            i <= list.len(),
            ops.ready(),
            state.wf(neurons as int),
            v == old(state)@,
            excitability.len() == neurons,
            all_below(list@, neurons as int),
            neurons * 4 <= usize::MAX,
            state@ == (NeuronView {
                membrane: driven(*ops, v, excitability@, inhibition, tick, list@, i as int),
                ..v
            }),
        decreases list.len() - i,
    {
        let neuron: usize = list[i];
        if state.refractory_until[neuron] <= tick {
            let b: usize = neuron * 4;
            let gate: Scalar = state.branches[b + 3].clamp_to(Scalar::zero(), Scalar::one());
            let gated: Scalar = ops.times(state.branches[b + 2], gate);
            let net: Scalar = ops.plus(ops.plus(state.branches[b], gated), state.branches[b + 1]);
            let adaptation: Scalar = sum_of_three(
                ops,
                state.adaptation_fast[neuron],
                state.adaptation_medium[neuron],
                state.adaptation_slow[neuron],
            );
            let lifted: Scalar = ops.minus(
                ops.times(excitability[neuron], net),
                state.fatigue[neuron],
            );
            let force: Scalar = ops.minus(ops.minus(lifted, adaptation), inhibition);
            assert(force == drive(*ops, v, excitability@, inhibition, neuron as int));
            let raised: Scalar = ops.plus(state.membrane[neuron], force);
            state.membrane.set(neuron, raised);
        }
        i = i + 1;
        assert(state@ =~= (NeuronView {
            membrane: driven(*ops, v, excitability@, inhibition, tick, list@, i as int),
            ..v
        }));
    }
}

/// The activations of the neurons of a list.
pub fn list_activities<T: Numerics>(
    ops: &T,
    state: &WorkerState,
    threshold: &Vec<Scalar>,
    tick: u64,
    list: &Vec<usize>,
) -> (r: Vec<Scalar>)
    requires
        ops.ready(),
        state.membrane.len() == threshold.len(),
        state.refractory_until.len() == threshold.len(),
        all_below(list@, threshold.len() as int),
    ensures
        r@ == activities(
            *ops,
            state.membrane@,
            threshold@,
            state.refractory_until@,
            tick,
            list@,
        ),
{
    let mut r: Vec<Scalar> = Vec::new();
    let mut i: usize = 0;
    while i < list.len()
        invariant
            i <= list.len(),
            ops.ready(),
            state.membrane.len() == threshold.len(),
            state.refractory_until.len() == threshold.len(),
            all_below(list@, threshold.len() as int),
            r@ == activities(
                *ops,
                state.membrane@,
                threshold@,
                state.refractory_until@,
                tick,
                list@.take(i as int),
            ),
        decreases list.len() - i,
    {
        let neuron: usize = list[i];
        let value: Scalar = if state.refractory_until[neuron] > tick {
            Scalar::zero()
        } else {
            ops.minus(state.membrane[neuron], threshold[neuron]).clamp_to(
                Scalar::zero(),
                Scalar::one(),
            )
        };
        r.push(value);
        i = i + 1;
        assert(r@ =~= activities(
            *ops,
            state.membrane@,
            threshold@,
            state.refractory_until@,
            tick,
            list@.take(i as int),
        ));
    }
    assert(list@.take(i as int) =~= list@);
    r
}

/// The inhibition of the population after a tick: it follows how much more active the population
/// is than it should be.
pub open spec fn inhibition_after<T: Numerics>(
    ops: T,
    d: DynamicsConfig,
    inhibition: Scalar,
    active: int,
    neurons: int,
) -> Scalar {
    let error = ops.difference(
        share(ops, active, neurons),
        d.target_activity,
    );
    ops.sum(inhibition, ops.product(d.population_inhibition_rate, error)).confined(
        nought(),
        d.population_inhibition_max,
    )
}

/// The share of the neurons that is active.
pub open spec fn share<T: Numerics>(ops: T, active: int, neurons: int) -> Scalar {
    ops.quotient(
        ops.number(active as u64),
        ops.number(
            if neurons < 1 {
                1
            } else {
                neurons as u64
            },
        ),
    )
}

/// The share of the neurons that is active.
pub fn active_share<T: Numerics>(ops: &T, active: usize, neurons: usize) -> (r: Scalar)
    requires
        ops.ready(),
    ensures
        r == share(*ops, active as int, neurons as int),
{
    let all: u64 = if neurons < 1 {
        1
    } else {
        neurons as u64
    };
    ops.over(ops.of_count(active as u64), ops.of_count(all))
}

/// The inhibition of the population after a tick.
pub fn update_population_inhibition<T: Numerics>(
    ops: &T,
    d: &DynamicsConfig,
    inhibition: Scalar,
    active: usize,
    neurons: usize,
) -> (r: Scalar)
    requires
        ops.ready(),
    ensures
        r == inhibition_after(*ops, *d, inhibition, active as int, neurons as int),
{
    let error: Scalar = ops.minus(active_share(ops, active, neurons), d.target_activity);
    ops.plus(inhibition, ops.times(d.population_inhibition_rate, error)).clamp_to(
        Scalar::zero(),
        d.population_inhibition_max,
    )
}

/// A neuron after it was active: it tires, it adapts, and part of its threshold is taken from its
/// membrane.
pub open spec fn tired_one<T: Numerics>(
    ops: T,
    d: DynamicsConfig,
    threshold: Seq<Scalar>,
    v: NeuronView,
    neuron: int,
) -> NeuronView {
    let a = v.activation[neuron];
    NeuronView {
        fatigue: v.fatigue.update(
            neuron,
            ops.sum(v.fatigue[neuron], ops.product(d.fatigue_gain, a)),
        ),
        fast: v.fast.update(
            neuron,
            ops.sum(v.fast[neuron], ops.product(d.adaptation_fast_gain, a)),
        ),
        medium: v.medium.update(
            neuron,
            ops.sum(v.medium[neuron], ops.product(d.adaptation_medium_gain, a)),
        ),
        slow: v.slow.update(
            neuron,
            ops.sum(v.slow[neuron], ops.product(d.adaptation_slow_gain, a)),
        ),
        membrane: v.membrane.update(
            neuron,
            ops.difference(
                v.membrane[neuron],
                ops.product(threshold[neuron], d.membrane_reset_fraction),
            ),
        ),
        ..v
    }
}

/// The neurons after the first `upto` of a list were active.
pub open spec fn tired<T: Numerics>(
    ops: T,
    d: DynamicsConfig,
    threshold: Seq<Scalar>,
    v: NeuronView,
    list: Seq<usize>,
    upto: int,
) -> NeuronView
    decreases upto,
{
    if upto <= 0 {
        v
    } else {
        tired_one(
            ops,
            d,
            threshold,
            tired(ops, d, threshold, v, list, upto - 1),
            list[upto - 1] as int,
        )
    }
}

fn raise_at<T: Numerics>(
    ops: &T,
    values: &mut Vec<Scalar>,
    place: usize,
    gain: Scalar,
    amount: Scalar,
)
    requires
        ops.ready(),
        place < old(values).len(),
    ensures
        final(values)@ == old(values)@.update(
            place as int,
            ops.sum(old(values)@[place as int], ops.product(gain, amount)),
        ),
{
    let value: Scalar = ops.plus(values[place], ops.times(gain, amount));
    values.set(place, value);
}

/// Tires the active neurons.
pub fn tire<T: Numerics>(
    ops: &T,
    d: &DynamicsConfig,
    threshold: &Vec<Scalar>,
    state: &mut WorkerState,
    list: &Vec<usize>,
    neurons: usize,
)
    requires
        ops.ready(),
        old(state).wf(neurons as int),
        threshold.len() == neurons,
        all_below(list@, neurons as int),
    ensures
        final(state).wf(neurons as int),
        final(state)@ == tired(
            *ops,
            *d,
            threshold@,
            old(state)@,
            list@,
            list@.len() as int,
        ),
{
    let mut i: usize = 0;
    while i < list.len()
        invariant
            i <= list.len(),
            ops.ready(),
            state.wf(neurons as int),
            threshold.len() == neurons,
            all_below(list@, neurons as int),
            state@ == tired(*ops, *d, threshold@, old(state)@, list@, i as int),
        decreases list.len() - i,
    {
        let neuron: usize = list[i];
        let ghost v = state@;
        let a: Scalar = state.activation[neuron];
        raise_at(ops, &mut state.fatigue, neuron, d.fatigue_gain, a);
        raise_at(ops, &mut state.adaptation_fast, neuron, d.adaptation_fast_gain, a);
        raise_at(ops, &mut state.adaptation_medium, neuron, d.adaptation_medium_gain, a);
        raise_at(ops, &mut state.adaptation_slow, neuron, d.adaptation_slow_gain, a);
        let spent: Scalar = ops.times(threshold[neuron], d.membrane_reset_fraction);
        let left: Scalar = ops.minus(state.membrane[neuron], spent);
        state.membrane.set(neuron, left);
        assert(state@ =~= tired_one(*ops, *d, threshold@, v, neuron as int));
        i = i + 1;
    }
}

/// What the synapses of the active neurons carry: the activation times the weight, neuron by
/// neuron.
pub open spec fn carried<T: Numerics>(
    ops: T,
    m: Model,
    activation: Seq<Scalar>,
    active: Seq<usize>,
) -> Seq<Scalar> {
    let capacity = m.recurrent.capacity_per_neuron as int;
    Seq::new(
        (active.len() * capacity) as nat,
        |i: int|
            ops.product(
                activation[active[i / capacity] as int],
                m.recurrent.weight[active[i / capacity] * capacity + i % capacity],
            ),
    )
}

} // verus!
