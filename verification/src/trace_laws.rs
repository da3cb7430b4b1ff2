//! What the traces of the synapses are for: each follows what its signal did to the neuron that it
//! reached, as long as anything is left of it.

use crate::arithmetic::Numerics;
use crate::config::{Config, DynamicsConfig};
use crate::delay_ring::Event;
use crate::dynamics::{adaptation_sum, carried};
use crate::dynamics_laws::{decays_soundly, law_everything_fades, left_of, within_one};
use crate::learning::{branch_slope, direct_slope, faded, nought, surrogate_slope, unit};
use crate::order::{
    alike, differences_keep_order, lemma_product_with_one_and_zero, lemma_sum_with_zero,
    mirrored, orderly, plus_or_zero, products_keep_order, quotients_keep_order, sums_keep_order,
    zero,
};
use crate::runtime::{delay_of, emitted, emitted_event, lemma_place, Runtime};
use crate::scalar::Scalar;
use crate::stages::sent;
use crate::traces::{
    advanced, alive, destination_of, followed, moved_membrane, signalled, walked, Destination,
    TickView, TraceView,
};
use vstd::prelude::*;

verus! {

/// A trace has a number of each kind for each synapse.
pub open spec fn traced(t: TraceView, synapses: int) -> bool {
    &&& t.branch.len() == synapses
    &&& t.membrane.len() == synapses
    &&& t.fatigue.len() == synapses
    &&& t.fast.len() == synapses
    &&& t.medium.len() == synapses
    &&& t.slow.len() == synapses
    &&& t.eligibility.len() == synapses
    &&& t.last_tick.len() == synapses
}

/// The traces agree on a synapse.
pub open spec fn same_at(t: TraceView, u: TraceView, slot: int) -> bool {
    &&& t.branch[slot] == u.branch[slot]
    &&& t.membrane[slot] == u.membrane[slot]
    &&& t.fatigue[slot] == u.fatigue[slot]
    &&& t.fast[slot] == u.fast[slot]
    &&& t.medium[slot] == u.medium[slot]
    &&& t.slow[slot] == u.slow[slot]
    &&& t.eligibility[slot] == u.eligibility[slot]
    &&& t.last_tick[slot] == u.last_tick[slot]
}

/// A trace takes a signal in: where nothing is left on its branch it then holds the signal, and a
/// signal of zero leaves it as it has faded. The traces of other synapses stay as they are.
pub proof fn law_traces_take_signals_in<T: Numerics>(
    ops: T,
    d: DynamicsConfig,
    tick: u64,
    t: TraceView,
    slot: int,
    signal: Scalar,
    other: int,
    synapses: int,
)
    requires
        orderly(ops),
        decays_soundly(d),
        traced(t, synapses),
        0 <= slot < synapses,
        0 <= other < synapses,
        other != slot,
        t.branch[slot].finite(),
        !signal.nan(),
    ensures
        ({
            let u = signalled(ops, d, tick, t, slot, signal);
            &&& traced(u, synapses)
            &&& zero(t.branch[slot]) ==> alike(u.branch[slot], signal)
            &&& zero(signal) ==> left_of(
                t.branch[slot],
                u.branch[slot],
                d.branch_decay,
                tick > t.last_tick[slot],
            )
            &&& same_at(t, u, other)
        }),
{
    let a = advanced(ops, d, tick, t, slot);
    let age = crate::dynamics::elapsed_since(tick, t.last_tick[slot]);
    law_everything_fades(ops, t.branch[slot], d.branch_decay, age);
    if zero(t.branch[slot]) {
        lemma_sum_with_zero(ops, signal, a.branch[slot]);
    }
    if zero(signal) {
        lemma_sum_with_zero(ops, a.branch[slot], signal);
    }
}

/// Time wears every part of a trace down, each by the decay of what it follows.
pub proof fn law_traces_fade<T: Numerics>(
    ops: T,
    d: DynamicsConfig,
    tick: u64,
    t: TraceView,
    slot: int,
    synapses: int,
)
    requires
        orderly(ops),
        decays_soundly(d),
        traced(t, synapses),
        0 <= slot < synapses,
        t.branch[slot].finite() && t.membrane[slot].finite() && t.fatigue[slot].finite(),
        t.fast[slot].finite() && t.medium[slot].finite() && t.slow[slot].finite(),
    ensures
        ({
            let u = advanced(ops, d, tick, t, slot);
            let gone = tick > t.last_tick[slot];
            &&& left_of(t.branch[slot], u.branch[slot], d.branch_decay, gone)
            &&& left_of(t.membrane[slot], u.membrane[slot], d.membrane_decay, gone)
            &&& left_of(t.fatigue[slot], u.fatigue[slot], d.fatigue_decay, gone)
            &&& left_of(t.fast[slot], u.fast[slot], d.adaptation_fast_decay, gone)
            &&& left_of(t.medium[slot], u.medium[slot], d.adaptation_medium_decay, gone)
            &&& left_of(t.slow[slot], u.slow[slot], d.adaptation_slow_decay, gone)
            &&& u.last_tick[slot] >= tick
            &&& advanced(ops, d, tick, u, slot) == u
        }),
{
    let age = crate::dynamics::elapsed_since(tick, t.last_tick[slot]);
    law_everything_fades(ops, t.branch[slot], d.branch_decay, age);
    law_everything_fades(ops, t.membrane[slot], d.membrane_decay, age);
    law_everything_fades(ops, t.fatigue[slot], d.fatigue_decay, age);
    law_everything_fades(ops, t.fast[slot], d.adaptation_fast_decay, age);
    law_everything_fades(ops, t.medium[slot], d.adaptation_medium_decay, age);
    law_everything_fades(ops, t.slow[slot], d.adaptation_slow_decay, age);
    let u = advanced(ops, d, tick, t, slot);
    assert(advanced(ops, d, tick, u, slot) =~= u);
}

/// A branch moves its neuron as the neuron is driven: excitatory and inhibitory branches by the
/// excitability, the temporal branch by as much of it as its context lets through, the context branch
/// by the temporal signal where it lets through a part. Other branches do not move it.
pub proof fn law_branches_move_their_neuron<T: Numerics>(
    ops: T,
    branch: u8,
    excitability: Scalar,
    temporal: Scalar,
    gate: Scalar,
)
    requires
        orderly(ops),
        excitability.finite(),
        temporal.finite(),
        gate.finite(),
    ensures
        ({
            let slope = branch_slope(ops, branch, excitability, temporal, gate);
            &&& branch == 0 || branch == 1 ==> alike(slope, excitability)
            &&& branch == 2 && unit().at_most(gate) ==> alike(slope, excitability)
            &&& branch == 2 && gate.at_most(nought()) ==> zero(slope)
            &&& branch == 2 && excitability == unit() && within_one(gate) ==> alike(slope, gate)
            &&& branch == 3 && (unit().at_most(gate) || gate.at_most(nought())) && ops.product(
                excitability,
                temporal,
            ).finite() ==> zero(slope)
            &&& branch == 3 && excitability == unit() && nought().below(gate) && gate.below(unit())
                ==> alike(slope, temporal)
            &&& branch == 3 && temporal == unit() && nought().below(gate) && gate.below(unit())
                ==> alike(slope, excitability)
            &&& branch > 3 ==> zero(slope)
        }),
{
    let g = gate.confined(nought(), unit());
    lemma_product_with_one_and_zero(ops, excitability, g);
    lemma_product_with_one_and_zero(ops, g, excitability);
    lemma_product_with_one_and_zero(ops, temporal, g);
    lemma_product_with_one_and_zero(ops, excitability, temporal);
    let p = ops.product(excitability, temporal);
    if !p.nan() {
        lemma_product_with_one_and_zero(ops, p, nought());
    }
    if unit().at_most(gate) {
        assert(g.rank() == unit().rank());
        assert(g == unit());
    }
}

/// The membrane that a trace follows is moved by each of its parts in full: with all others zero it
/// ends up at its own value, at the branch's where that moves the neuron by one, at the slope where
/// the branch's is one, or at the opposite of the fatigue's or of an adaptation's.
pub proof fn law_traces_follow_the_membrane<T: Numerics>(
    ops: T,
    t: TraceView,
    slot: int,
    jacobian: Scalar,
)
    requires
        orderly(ops),
        jacobian.finite(),
        t.branch[slot].finite() && t.membrane[slot].finite() && t.fatigue[slot].finite(),
        t.fast[slot].finite() && t.medium[slot].finite() && t.slow[slot].finite(),
    ensures
        ({
            let r = moved_membrane(ops, t, slot, jacobian);
            let still = zero(t.fatigue[slot]) && zero(t.fast[slot]) && zero(t.medium[slot]) && zero(
                t.slow[slot],
            );
            let unmoved = zero(t.membrane[slot]) && zero(t.branch[slot]);
            &&& still && zero(t.branch[slot]) ==> alike(r, t.membrane[slot])
            &&& still && zero(t.membrane[slot]) && jacobian == unit() ==> alike(r, t.branch[slot])
            &&& still && zero(t.membrane[slot]) && t.branch[slot] == unit() ==> alike(r, jacobian)
            &&& unmoved && zero(t.fast[slot]) && zero(t.medium[slot]) && zero(t.slow[slot])
                ==> mirrored(r, t.fatigue[slot])
            &&& unmoved && zero(t.fatigue[slot]) && zero(t.medium[slot]) && zero(t.slow[slot])
                ==> mirrored(r, t.fast[slot])
            &&& unmoved && zero(t.fatigue[slot]) && zero(t.fast[slot]) && zero(t.slow[slot])
                ==> mirrored(r, t.medium[slot])
            &&& unmoved && zero(t.fatigue[slot]) && zero(t.fast[slot]) && zero(t.medium[slot])
                ==> mirrored(r, t.slow[slot])
        }),
{
    let b = t.branch[slot];
    let p = ops.product(jacobian, b);
    lemma_product_with_one_and_zero(ops, jacobian, b);
    lemma_product_with_one_and_zero(ops, b, jacobian);
    let s = ops.sum(t.membrane[slot], p);
    let x = adaptation_sum(ops, t.fast[slot], t.medium[slot], t.slow[slot]);
    reveal(sums_keep_order);
    reveal(differences_keep_order);
    if zero(t.fast[slot]) && zero(t.medium[slot]) {
        assert(alike(x, t.slow[slot]));
    }
    if zero(t.fast[slot]) && zero(t.slow[slot]) {
        assert(alike(x, t.medium[slot]));
    }
    if zero(t.medium[slot]) && zero(t.slow[slot]) {
        assert(alike(x, t.fast[slot]));
    }
    let d = ops.difference(s, t.fatigue[slot]);
    if zero(t.membrane[slot]) && !p.nan() {
        assert(alike(s, p));
    }
    if zero(b) {
        assert(alike(s, t.membrane[slot]));
    }
    if zero(s) {
        assert(mirrored(d, t.fatigue[slot]));
    }
    if zero(t.fatigue[slot]) && !s.nan() {
        assert(alike(d, s));
    }
}

/// Eligibility is what a change of the weight would have done to the activation: for a neuron that
/// takes part it is the membrane's trace where the activation follows the membrane by one, and
/// nothing where it does not follow it; for a neuron that does not take part it fades, and the
/// membrane's trace is left alone.
pub proof fn law_eligibility_follows_the_neuron<T: Numerics>(
    ops: T,
    c: Config,
    tick: u64,
    t: TraceView,
    slot: int,
    to: Destination,
    synapses: int,
)
    requires
        orderly(ops),
        traced(t, synapses),
        0 <= slot < synapses,
        within_one(c.learning.eligibility_decay),
        t.eligibility[slot].finite(),
    ensures
        ({
            let idle = !to.touched || to.refractory;
            let faded = advanced(ops, c.dynamics, tick, t, slot);
            let u = followed(ops, c, tick, t, slot, to);
            let moved = moved_membrane(ops, faded, slot, to.jacobian);
            &&& idle ==> u.membrane[slot] == faded.membrane[slot] && left_of(
                t.eligibility[slot],
                u.eligibility[slot],
                c.learning.eligibility_decay,
                true,
            )
            &&& !idle ==> u.membrane[slot] == moved
            &&& !idle && to.surrogate == unit() && !moved.nan() ==> alike(
                u.eligibility[slot],
                u.membrane[slot],
            )
            &&& !idle && u.membrane[slot] == unit() && !to.surrogate.nan() ==> alike(
                u.eligibility[slot],
                to.surrogate,
            )
            &&& !idle && zero(to.surrogate) && moved.finite() ==> zero(u.eligibility[slot])
        }),
{
    let a = advanced(ops, c.dynamics, tick, t, slot);
    let m = moved_membrane(ops, a, slot, to.jacobian);
    assert(a.eligibility[slot] == t.eligibility[slot]);
    let e = t.eligibility[slot];
    let d = c.learning.eligibility_decay;
    lemma_product_with_one_and_zero(ops, e, d);
    lemma_faded_once(ops, e, d);
    if !m.nan() {
        lemma_product_with_one_and_zero(ops, m, to.surrogate);
    }
    if !to.surrogate.nan() {
        lemma_product_with_one_and_zero(ops, to.surrogate, m);
    }
}

proof fn lemma_faded_once<T: Numerics>(ops: T, value: Scalar, base: Scalar)
    requires
        orderly(ops),
        value.finite(),
        within_one(base),
    ensures
        left_of(value, ops.product(value, base), base, true),
{
    law_everything_fades(ops, value, base, 1);
}

/// The trace of an active neuron tires and adapts with it: its fatigue and its adaptations are raised
/// by their gains times the eligibility; those of a neuron that is not active only fade.
pub proof fn law_traces_tire_with_the_neuron<T: Numerics>(
    ops: T,
    c: Config,
    tick: u64,
    t: TraceView,
    slot: int,
    to: Destination,
    synapses: int,
)
    requires
        orderly(ops),
        traced(t, synapses),
        0 <= slot < synapses,
        c.dynamics.fatigue_gain.finite() && c.dynamics.adaptation_fast_gain.finite(),
        c.dynamics.adaptation_medium_gain.finite() && c.dynamics.adaptation_slow_gain.finite(),
        followed(ops, c, tick, t, slot, to).eligibility[slot].finite(),
    ensures
        ({
            let f = advanced(ops, c.dynamics, tick, t, slot);
            let u = followed(ops, c, tick, t, slot, to);
            let e = u.eligibility[slot];
            &&& u.branch[slot] == f.branch[slot]
            &&& to.touched && to.selected ==> {
                &&& lifted_by(f.fatigue[slot], u.fatigue[slot], c.dynamics.fatigue_gain, e)
                &&& lifted_by(f.fast[slot], u.fast[slot], c.dynamics.adaptation_fast_gain, e)
                &&& lifted_by(f.medium[slot], u.medium[slot], c.dynamics.adaptation_medium_gain, e)
                &&& lifted_by(f.slow[slot], u.slow[slot], c.dynamics.adaptation_slow_gain, e)
            }
            &&& !(to.touched && to.selected) ==> u.fatigue[slot] == f.fatigue[slot] && u.fast[slot]
                == f.fast[slot] && u.medium[slot] == f.medium[slot] && u.slow[slot] == f.slow[slot]
        }),
{
    let f = advanced(ops, c.dynamics, tick, t, slot);
    let e = followed(ops, c, tick, t, slot, to).eligibility[slot];
    lemma_lifted(ops, f.fatigue[slot], c.dynamics.fatigue_gain, e);
    lemma_lifted(ops, f.fast[slot], c.dynamics.adaptation_fast_gain, e);
    lemma_lifted(ops, f.medium[slot], c.dynamics.adaptation_medium_gain, e);
    lemma_lifted(ops, f.slow[slot], c.dynamics.adaptation_slow_gain, e);
}

/// A number was moved by a gain times an amount: from zero it has the value of the amount where the
/// gain is one, and of the gain where the amount is one; it is the same where either is zero.
pub open spec fn lifted_by(before: Scalar, after: Scalar, gain: Scalar, amount: Scalar) -> bool {
    &&& zero(before) && gain == unit() ==> alike(after, amount)
    &&& zero(before) && amount == unit() ==> alike(after, gain)
    &&& !before.nan() && (zero(gain) || zero(amount)) ==> alike(after, before)
}

proof fn lemma_lifted<T: Numerics>(ops: T, before: Scalar, gain: Scalar, amount: Scalar)
    requires
        orderly(ops),
        gain.finite(),
        amount.finite(),
    ensures
        lifted_by(before, ops.sum(before, ops.product(gain, amount)), gain, amount),
{
    let p = ops.product(gain, amount);
    lemma_product_with_one_and_zero(ops, gain, amount);
    lemma_product_with_one_and_zero(ops, amount, gain);
    assert(!p.nan()) by {
        reveal(products_keep_order);
    }
    if zero(before) {
        lemma_sum_with_zero(ops, p, before);
    }
    if !before.nan() && zero(p) {
        lemma_sum_with_zero(ops, before, p);
    }
}

/// The slope of an activation: one for a neuron that was selected and is neither silent nor
/// saturated, zero otherwise; on top of that comes the gain where the neuron stands at the cutoff,
/// and nothing where it is farther away than the width. The slope is never negative, and never lower
/// nearer to the cutoff.
pub proof fn law_slopes_follow_the_selection<T: Numerics>(
    ops: T,
    margin: Scalar,
    cutoff: Scalar,
    selected: bool,
    width: Scalar,
    gain: Scalar,
)
    requires
        orderly(ops),
        margin.finite(),
        cutoff.finite(),
        width.finite(),
        plus_or_zero(gain),
        gain.finite(),
        ops.difference(margin, cutoff).finite(),
    ensures
        ({
            let s = surrogate_slope(ops, margin, cutoff, selected, width, gain);
            let passes = selected && nought().below(margin) && margin.below(unit());
            let off = ops.difference(margin, cutoff).absolute();
            &&& plus_or_zero(s)
            &&& passes ==> unit().at_most(s)
            &&& width.at_most(nought()) || zero(gain) ==> (passes ==> alike(s, unit())) && (!passes
                ==> zero(s))
            &&& nought().below(width) && width.at_most(off) ==> (passes ==> alike(s, unit())) && (
            !passes ==> zero(s))
            &&& nought().below(width) && nought().below(gain) && alike(margin, cutoff) && !passes
                ==> alike(s, gain)
        }),
{
    let direct = direct_slope(margin, selected);
    let off = ops.difference(margin, cutoff).absolute();
    if !width.at_most(nought()) && !gain.at_most(nought()) {
        reveal(quotients_keep_order);
        reveal(differences_keep_order);
        assert(nought().below(width));
        let q = ops.quotient(off, width);
        assert(off.finite() && plus_or_zero(off));
        assert(!q.nan());
        assert(zero(ops.quotient(nought(), width)));
        assert(alike(ops.quotient(width, width), unit()));
        let d = ops.difference(unit(), q);
        assert(unit().finite());
        assert(!d.nan());
        let near = d.confined(nought(), unit());
        assert(within_one(near));
        let p = ops.product(gain, near);
        lemma_product_with_one_and_zero(ops, gain, near);
        lemma_product_with_one_and_zero(ops, near, gain);
        assert(!p.nan() && plus_or_zero(p) && p.at_most(gain)) by {
            reveal(products_keep_order);
            assert(ops.product(gain, near).at_most(ops.product(gain, unit())));
        }
        reveal(sums_keep_order);
        assert(direct.finite() && p.finite());
        assert(!ops.sum(direct, p).nan());
        assert(alike(ops.sum(direct, nought()), direct));
        assert(ops.sum(direct, nought()).at_most(ops.sum(direct, p)));
        if width.at_most(off) {
            assert(ops.quotient(width, width).at_most(q));
            assert(unit().at_most(q));
            assert(zero(ops.difference(unit(), unit())));
            assert(d.at_most(ops.difference(unit(), unit())));
            assert(zero(near));
            assert(zero(p));
            assert(alike(ops.sum(direct, p), direct));
        }
        if alike(margin, cutoff) {
            assert(zero(ops.difference(margin, cutoff)));
            assert(zero(off));
            assert(zero(q));
            assert(alike(d, unit()));
            assert(near.rank() == unit().rank());
            assert(near == unit());
            assert(alike(p, gain));
            if zero(direct) {
                assert(alike(ops.sum(direct, p), p));
            }
        }
    }
}

/// Following one trace leaves the others as they are.
pub proof fn lemma_followed_alone<T: Numerics>(
    ops: T,
    c: Config,
    tick: u64,
    t: TraceView,
    slot: int,
    to: Destination,
    other: int,
    synapses: int,
)
    requires
        traced(t, synapses),
        0 <= slot < synapses,
        0 <= other < synapses,
        other != slot,
    ensures
        traced(followed(ops, c, tick, t, slot, to), synapses),
        same_at(t, followed(ops, c, tick, t, slot, to), other),
{
}

/// A walk leaves the traces that it does not come by as they are, and the list before its place.
pub proof fn lemma_walk_leaves<T: Numerics>(
    ops: T,
    c: Config,
    v: TickView,
    targets: Seq<u32>,
    branches: Seq<u8>,
    t: TraceView,
    list: Seq<usize>,
    place: int,
    other: int,
    synapses: int,
)
    requires
        traced(t, synapses),
        0 <= place <= list.len(),
        forall|i: int| place <= i < list.len() ==> (#[trigger] list[i]) < synapses && list[i] != other,
        0 <= other < synapses,
    ensures
        ({
            let (u, left) = walked(ops, c, v, targets, branches, t, list, place);
            &&& traced(u, synapses)
            &&& same_at(t, u, other)
            &&& place <= left.len()
            &&& forall|i: int| 0 <= i < place ==> #[trigger] left[i] == list[i]
        }),
    decreases list.len() - place,
{
    if place < list.len() {
        let slot = list[place] as int;
        let to = destination_of(ops, v, targets[slot] as int, branches[slot]);
        let after = followed(ops, c, v.tick, t, slot, to);
        lemma_followed_alone(ops, c, v.tick, t, slot, to, other, synapses);
        if alive(after, slot, c.learning.eligibility_epsilon) {
            lemma_walk_leaves(
                ops, c, v, targets, branches, after, list, place + 1, other, synapses,
            );
        } else {
            let shorter = list.update(place, list.last()).drop_last();
            assert forall|i: int| place <= i < shorter.len() implies (#[trigger] shorter[i])
                < synapses && shorter[i] != other by {
                if i == place {
                    assert(shorter[i] == list[list.len() - 1]);
                } else {
                    assert(shorter[i] == list[i]);
                }
            }
            lemma_walk_leaves(
                ops, c, v, targets, branches, after, shorter, place, other, synapses,
            );
            assert forall|i: int| 0 <= i < place implies walked(
                ops, c, v, targets, branches, t, list, place,
            ).1[i] == list[i] by {
                assert(shorter[i] == list[i]);
            }
        }
    }
}

/// Traces stay eligible as long as anything is left of them, and no longer: after a walk, a synapse
/// of the list is still on it if and only if some part of its trace is larger than the smallest that
/// counts.
pub proof fn law_live_traces_stay_eligible<T: Numerics>(
    ops: T,
    c: Config,
    v: TickView,
    targets: Seq<u32>,
    branches: Seq<u8>,
    t: TraceView,
    list: Seq<usize>,
    place: int,
    at: int,
    synapses: int,
)
    requires
        traced(t, synapses),
        list.no_duplicates(),
        0 <= place <= at < list.len(),
        forall|i: int| 0 <= i < list.len() ==> (#[trigger] list[i]) < synapses,
    ensures
        ({
            let (u, left) = walked(ops, c, v, targets, branches, t, list, place);
            let slot = list[at] as int;
            let e = c.learning.eligibility_epsilon;
            let numbers = !u.branch[slot].nan() && !u.membrane[slot].nan() && !u.fatigue[slot].nan()
                && !u.fast[slot].nan() && !u.medium[slot].nan() && !u.slow[slot].nan()
                && !u.eligibility[slot].nan();
            let large = e.below(u.branch[slot].absolute()) || e.below(u.membrane[slot].absolute())
                || e.below(u.fatigue[slot].absolute()) || e.below(u.fast[slot].absolute())
                || e.below(u.medium[slot].absolute()) || e.below(u.slow[slot].absolute())
                || e.below(u.eligibility[slot].absolute());
            numbers && !e.nan() ==> (left.contains(list[at]) <==> large)
        }),
    decreases list.len() - place,
{
    let slot = list[place] as int;
    let to = destination_of(ops, v, targets[slot] as int, branches[slot]);
    let after = followed(ops, c, v.tick, t, slot, to);
    assert(traced(after, synapses));
    let e = c.learning.eligibility_epsilon;
    let (u, left) = walked(ops, c, v, targets, branches, t, list, place);
    if alive(after, slot, e) {
        if at == place {
            lemma_walk_leaves(
                ops, c, v, targets, branches, after, list, place + 1, slot, synapses,
            );
            assert(left[place] == list[place]);
            assert(left.contains(list[at]));
            assert(same_at(after, u, slot));
        } else {
            law_live_traces_stay_eligible(
                ops, c, v, targets, branches, after, list, place + 1, at, synapses,
            );
        }
    } else {
        let shorter = list.update(place, list.last()).drop_last();
        assert forall|i: int, j: int|
            0 <= i < shorter.len() && 0 <= j < shorter.len() && i != j implies shorter[i]
            != shorter[j] by {
            let x = if i == place {
                list.len() - 1
            } else {
                i
            };
            let y = if j == place {
                list.len() - 1
            } else {
                j
            };
            assert(shorter[i] == list[x] && shorter[j] == list[y]);
        }
        assert forall|i: int| 0 <= i < shorter.len() implies (#[trigger] shorter[i])
            < synapses && shorter[i] != slot by {
            let x = if i == place {
                list.len() - 1
            } else {
                i
            };
            assert(shorter[i] == list[x]);
        }
        if at == place {
            lemma_walk_leaves(
                ops, c, v, targets, branches, after, shorter, place, slot, synapses,
            );
            assert(same_at(after, u, slot));
            lemma_walk_draws_from_list(
                ops, c, v, targets, branches, after, shorter, place,
            );
            if left.contains(list[at]) {
                let i = choose|i: int| 0 <= i < left.len() && left[i] == list[at];
                let inner = walked(ops, c, v, targets, branches, after, shorter, place).1;
                assert(shorter.contains(inner[i]));
                let j = choose|j: int| 0 <= j < shorter.len() && shorter[j] == left[i];
                assert(shorter[j] != slot);
            }
        } else {
            let x = if at == list.len() - 1 {
                place
            } else {
                at
            };
            assert(shorter[x] == list[at]);
            law_live_traces_stay_eligible(
                ops, c, v, targets, branches, after, shorter, place, x, synapses,
            );
        }
    }
}

/// What is left on a list after a walk was on it before.
proof fn lemma_walk_draws_from_list<T: Numerics>(
    ops: T,
    c: Config,
    v: TickView,
    targets: Seq<u32>,
    branches: Seq<u8>,
    t: TraceView,
    list: Seq<usize>,
    place: int,
)
    requires
        0 <= place <= list.len(),
    ensures
        forall|i: int|
            0 <= i < walked(ops, c, v, targets, branches, t, list, place).1.len()
                ==> list.contains(
                #[trigger] walked(ops, c, v, targets, branches, t, list, place).1[i],
            ),
    decreases list.len() - place,
{
    if place == list.len() {
        assert forall|i: int| 0 <= i < list.len() implies list.contains(#[trigger] list[i]) by {}
    } else {
        let slot = list[place] as int;
        let to = destination_of(ops, v, targets[slot] as int, branches[slot]);
        let after = followed(ops, c, v.tick, t, slot, to);
        let left = walked(ops, c, v, targets, branches, t, list, place).1;
        if alive(after, slot, c.learning.eligibility_epsilon) {
            lemma_walk_draws_from_list(ops, c, v, targets, branches, after, list, place + 1);
            let inner = walked(ops, c, v, targets, branches, after, list, place + 1).1;
            assert forall|i: int| 0 <= i < left.len() implies list.contains(#[trigger] left[i]) by {
                assert(list.contains(inner[i]));
            }
        } else {
            let shorter = list.update(place, list.last()).drop_last();
            lemma_walk_draws_from_list(ops, c, v, targets, branches, after, shorter, place);
            let inner = walked(ops, c, v, targets, branches, after, shorter, place).1;
            assert forall|i: int| 0 <= i < left.len() implies list.contains(#[trigger] left[i]) by {
                assert(shorter.contains(inner[i]));
                let j = choose|j: int| 0 <= j < shorter.len() && shorter[j] == left[i];
                if j == place {
                    assert(list[list.len() - 1] == left[i]);
                } else {
                    assert(list[j] == left[i]);
                }
            }
        }
    }
}

/// The event that an active neuron sends along one of its synapses waits in the ring.
proof fn lemma_emitted<T: Numerics>(
    ops: T,
    r: Runtime,
    buckets: Seq<Seq<Event>>,
    values: Seq<Scalar>,
    upto: int,
    at: int,
)
    requires
        0 < buckets.len(),
        0 < r.model.recurrent.capacity_per_neuron,
        0 <= upto,
        0 <= at,
    ensures
        emitted(buckets, r, values, upto).len() == buckets.len(),
        at < upto ==> ({
            let capacity = r.model.recurrent.capacity_per_neuron as int;
            let source = r.active@[at / capacity];
            let k = at % capacity;
            let due = r.current_tick + delay_of(r.model, source * capacity + k);
            emitted(buckets, r, values, upto)[due % (buckets.len() as int)].contains(
                emitted_event(
                    r.model,
                    source,
                    r.state.activation[source as int],
                    k,
                    values[at],
                ),
            )
        }),
    decreases upto,
{
    if upto > 0 {
        lemma_emitted(ops, r, buckets, values, upto - 1, at);
        let capacity = r.model.recurrent.capacity_per_neuron as int;
        let n = buckets.len() as int;
        let before = emitted(buckets, r, values, upto - 1);
        let after = emitted(buckets, r, values, upto);
        let last = r.active@[(upto - 1) / capacity];
        let j = (upto - 1) % capacity;
        let b = (r.current_tick + delay_of(r.model, last * capacity + j)) % n;
        vstd::arithmetic::div_mod::lemma_mod_bound(
            r.current_tick + delay_of(r.model, last * capacity + j),
            n,
        );
        assert(after[b].len() == before[b].len() + 1);
        if at < upto {
            let source = r.active@[at / capacity];
            let k = at % capacity;
            let due = (r.current_tick + delay_of(r.model, source * capacity + k)) % n;
            let e = emitted_event(
                r.model,
                source,
                r.state.activation[source as int],
                k,
                values[at],
            );
            if at == upto - 1 {
                assert(after[b][before[b].len() as int] == e);
            } else {
                vstd::arithmetic::div_mod::lemma_mod_bound(
                    r.current_tick + delay_of(r.model, source * capacity + k),
                    n,
                );
                let i = choose|i: int| 0 <= i < before[due].len() && before[due][i] == e;
                assert(after[due][i] == e);
            }
        }
    }
}

/// Active neurons send along every one of their synapses: an event waits for the tick that lies the
/// synapse's delay ahead. It goes to the neuron and the branch that the synapse ends on, remembers
/// the activation it came from, and carries the weight where the activation is one, the activation
/// where the weight is one, and nothing where either is zero.
pub proof fn law_active_neurons_send<T: Numerics>(
    ops: T,
    b: Runtime,
    count: usize,
    a: Runtime,
    i: int,
    k: int,
)
    requires
        orderly(ops),
        sent(ops, b, count, a),
        0 < b.ring@.len(),
        0 <= i < b.active@.len(),
        0 <= k < b.model.recurrent.capacity_per_neuron,
        b.state.activation@[b.active@[i] as int].finite(),
        b.model.recurrent.weight@[b.active@[i] * b.model.recurrent.capacity_per_neuron + k].finite(),
        b.model.recurrent.delay@[b.active@[i] * b.model.recurrent.capacity_per_neuron + k] > 0,
        b.active@[i] * b.model.recurrent.capacity_per_neuron + k <= u32::MAX,
    ensures
        ({
            let slot = b.active@[i] * b.model.recurrent.capacity_per_neuron + k;
            let x = b.state.activation@[b.active@[i] as int];
            let w = b.model.recurrent.weight@[slot];
            exists|e: Event|
                {
                    &&& #[trigger] a.ring.due(
                        b.current_tick + b.model.recurrent.delay@[slot],
                    ).contains(e)
                    &&& e.target_neuron == b.model.recurrent.target_neuron@[slot]
                    &&& e.target_branch == b.model.recurrent.target_branch@[slot]
                    &&& e.synapse_slot == slot
                    &&& e.presynaptic_activation == x
                    &&& x == unit() ==> alike(e.value, w)
                    &&& w == unit() ==> alike(e.value, x)
                    &&& zero(x) || zero(w) ==> zero(e.value)
                }
        }),
{
    reveal(sent);
    let capacity = b.model.recurrent.capacity_per_neuron as int;
    let values = carried(ops, b.model, b.state.activation@, b.active@);
    let at = i * capacity + k;
    lemma_place(i, k, b.active@.len() as int, capacity);
    assert(b.active@.len() * capacity == values.len());
    lemma_emitted(ops, b, b.ring@, values, values.len() as int, at);
    let source = b.active@[i];
    let slot = source * capacity + k;
    let x = b.state.activation@[source as int];
    let w = b.model.recurrent.weight@[slot];
    assert(values[at] == ops.product(x, w));
    lemma_product_with_one_and_zero(ops, x, w);
    lemma_product_with_one_and_zero(ops, w, x);
    let e = emitted_event(b.model, source, x, k, values[at]);
    assert(a.ring.due(b.current_tick + b.model.recurrent.delay@[slot]).contains(e));
}

} // verus!
