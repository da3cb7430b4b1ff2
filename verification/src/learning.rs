//! Forward-only local learning: the derivatives and the bounded changes that it is made of.

use crate::arithmetic::Numerics;
use crate::model::{BRANCH_CONTEXT_GATE, BRANCH_EXCITATORY, BRANCH_INHIBITORY, BRANCH_TEMPORAL};
use crate::scalar::{Scalar, ONE_BITS};
use vstd::prelude::*;

verus! {

/// Zero.
pub open spec fn nought() -> Scalar {
    Scalar { bits: 0 }
}

/// One.
pub open spec fn unit() -> Scalar {
    Scalar { bits: ONE_BITS }
}

/// A selected neuron that is neither silent nor saturated passes its gradient on.
pub open spec fn direct_slope(margin: Scalar, selected: bool) -> Scalar {
    if selected && nought().below(margin) && margin.below(unit()) {
        unit()
    } else {
        nought()
    }
}

/// How near a margin is to the cutoff of the selection: one at the cutoff, zero from `width` on.
pub open spec fn nearness<T: Numerics>(
    ops: T,
    margin: Scalar,
    cutoff: Scalar,
    width: Scalar,
) -> Scalar {
    ops.difference(
        unit(),
        ops.quotient(ops.difference(margin, cutoff).absolute(), width),
    ).confined(nought(), unit())
}

/// Straight-through derivative of the analog activation plus a small rank-boundary term.
pub open spec fn surrogate_slope<T: Numerics>(
    ops: T,
    margin: Scalar,
    cutoff: Scalar,
    selected: bool,
    width: Scalar,
    gain: Scalar,
) -> Scalar {
    let direct = direct_slope(margin, selected);
    if width.at_most(nought()) || gain.at_most(nought()) {
        direct
    } else {
        ops.sum(direct, ops.product(gain, nearness(ops, margin, cutoff, width)))
    }
}

/// Straight-through derivative of the analog activation plus a small rank-boundary term.
pub fn analog_rank_surrogate<T: Numerics>(
    ops: &T,
    margin: Scalar,
    selection_cutoff: Scalar,
    selected: bool,
    width: Scalar,
    gain: Scalar,
) -> (r: Scalar)
    requires
        ops.ready(),
    ensures
        r == surrogate_slope(*ops, margin, selection_cutoff, selected, width, gain),
{
    let zero: Scalar = Scalar::zero();
    let one: Scalar = Scalar::one();
    let direct: Scalar = if selected && zero.lt(margin) && margin.lt(one) {
        one
    } else {
        zero
    };
    if width.le(zero) || gain.le(zero) {
        return direct;
    }
    let distance: Scalar = ops.over(ops.minus(margin, selection_cutoff).abs(), width);
    let boundary: Scalar = ops.minus(one, distance).clamp_to(zero, one);
    ops.plus(direct, ops.times(gain, boundary))
}

/// Derivative of destination drive with respect to one branch accumulator.
pub open spec fn branch_slope<T: Numerics>(
    ops: T,
    branch: u8,
    excitability: Scalar,
    temporal: Scalar,
    gate: Scalar,
) -> Scalar {
    if branch == BRANCH_EXCITATORY || branch == BRANCH_INHIBITORY {
        excitability
    } else if branch == BRANCH_TEMPORAL {
        ops.product(excitability, gate.confined(nought(), unit()))
    } else if branch == BRANCH_CONTEXT_GATE {
        ops.product(
            ops.product(excitability, temporal),
            if nought().below(gate) && gate.below(unit()) {
                unit()
            } else {
                nought()
            },
        )
    } else {
        nought()
    }
}

/// Derivative of destination drive with respect to one branch accumulator. Inhibitory branch
/// values are already negative, so their derivative is positive.
pub fn branch_jacobian<T: Numerics>(
    ops: &T,
    branch: u8,
    excitability: Scalar,
    temporal_accumulator: Scalar,
    gate_accumulator: Scalar,
) -> (r: Scalar)
    requires
        ops.ready(),
    ensures
        r == branch_slope(*ops, branch, excitability, temporal_accumulator, gate_accumulator),
{
    let zero: Scalar = Scalar::zero();
    let one: Scalar = Scalar::one();
    if branch == BRANCH_EXCITATORY || branch == BRANCH_INHIBITORY {
        excitability
    } else if branch == BRANCH_TEMPORAL {
        ops.times(excitability, gate_accumulator.clamp_to(zero, one))
    } else if branch == BRANCH_CONTEXT_GATE {
        let derivative: Scalar = if zero.lt(gate_accumulator) && gate_accumulator.lt(one) {
            one
        } else {
            zero
        };
        ops.times(ops.times(excitability, temporal_accumulator), derivative)
    } else {
        zero
    }
}

/// A change within its bounds.
pub open spec fn bounded(value: Scalar, maximum: Scalar) -> Scalar {
    value.confined(maximum.opposite(), maximum)
}

/// A change within its bounds.
pub fn bounded_delta(value: Scalar, maximum: Scalar) -> (r: Scalar)
    requires
        nought().at_most(maximum),
    ensures
        r == bounded(value, maximum),
{
    value.clamp_to(maximum.negated(), maximum)
}

/// The bounds of a change are the same on both sides: a change and its opposite are cut alike.
pub proof fn law_clipping_is_symmetric(value: Scalar, maximum: Scalar)
    requires
        nought().at_most(maximum),
        !value.nan(),
    ensures
        bounded(value.opposite(), maximum).rank() == -bounded(value, maximum).rank(),
        bounded(value, maximum).at_most(maximum),
        maximum.opposite().at_most(bounded(value, maximum)),
{
}

/// The change of an inhibitory weight.
pub open spec fn balancing<T: Numerics>(
    ops: T,
    source_activation: Scalar,
    target_activity: Scalar,
    desired_activity: Scalar,
    learning_rate: Scalar,
    strength: Scalar,
    maximum: Scalar,
) -> Scalar {
    bounded(
        ops.product(
            ops.product(ops.product(learning_rate.opposite(), strength), source_activation),
            ops.difference(target_activity, desired_activity),
        ),
        maximum,
    )
}

/// Local inhibitory homeostasis: overactive targets make inhibitory weights more negative;
/// underactive targets release inhibition gradually.
pub fn inhibitory_homeostasis_delta<T: Numerics>(
    ops: &T,
    source_activation: Scalar,
    target_activity: Scalar,
    desired_activity: Scalar,
    learning_rate: Scalar,
    strength: Scalar,
    maximum_update: Scalar,
) -> (r: Scalar)
    requires
        ops.ready(),
        nought().at_most(maximum_update),
    ensures
        r == balancing(
            *ops,
            source_activation,
            target_activity,
            desired_activity,
            learning_rate,
            strength,
            maximum_update,
        ),
{
    let error: Scalar = ops.minus(target_activity, desired_activity);
    let rate: Scalar = ops.times(ops.times(learning_rate.negated(), strength), source_activation);
    bounded_delta(ops.times(rate, error), maximum_update)
}

/// What is left of one after some ticks of decay.
pub open spec fn decay<T: Numerics>(ops: T, base: Scalar, elapsed: u64) -> Scalar {
    if elapsed == 0 {
        unit()
    } else if elapsed == 1 {
        base
    } else {
        ops.power(
            base,
            if elapsed < i32::MAX {
                elapsed as u32
            } else {
                i32::MAX as u32
            },
        )
    }
}

/// What is left of one after some ticks of decay.
pub fn decay_for_elapsed<T: Numerics>(ops: &T, base: Scalar, elapsed: u64) -> (r: Scalar)
    requires
        ops.ready(),
    ensures
        r == decay(*ops, base, elapsed),
{
    if elapsed == 0 {
        Scalar::one()
    } else if elapsed == 1 {
        base
    } else {
        let exponent: u32 = if elapsed < i32::MAX as u64 {
            elapsed as u32
        } else {
            i32::MAX as u32
        };
        ops.raised(base, exponent)
    }
}

/// A number after some ticks of decay: without any it stays as it is.
pub open spec fn faded<T: Numerics>(ops: T, value: Scalar, base: Scalar, elapsed: u64) -> Scalar {
    if elapsed == 0 {
        value
    } else {
        ops.product(value, decay(ops, base, elapsed))
    }
}

/// A number after some ticks of decay.
pub fn fade<T: Numerics>(ops: &T, value: Scalar, base: Scalar, elapsed: u64) -> (r: Scalar)
    requires
        ops.ready(),
    ensures
        r == faded(*ops, value, base, elapsed),
{
    if elapsed == 0 {
        value
    } else {
        ops.times(value, decay_for_elapsed(ops, base, elapsed))
    }
}

} // verus!
