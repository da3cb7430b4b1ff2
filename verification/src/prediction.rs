//! The prediction of a step: from the active neurons and the active contexts to probabilities.

use crate::arithmetic::Numerics;
use crate::learning::{nought, unit};
use crate::model::{lemma_row_fits, Model};
use crate::runtime::all_below;
use crate::scalar::Scalar;
use vstd::prelude::*;

verus! {

/// The bits of minus infinity.
pub const MINUS_INFINITY_BITS: u32 = 0xff80_0000;

/// The bits of the smallest probability that a loss is taken of.
pub const LEAST_PROBABILITY_BITS: u32 = 0x2b8c_bccc;

/// A list of zeros.
pub open spec fn blank(n: int) -> Seq<Scalar> {
    Seq::new(n as nat, |i: int| nought())
}

/// A list of zeros.
pub fn blank_list(n: usize) -> (r: Vec<Scalar>)
    ensures
        r@ == blank(n as int),
{
    let mut r: Vec<Scalar> = Vec::new();
    let mut i: usize = 0;
    while i < n
        invariant
            i <= n,
            r@ == blank(i as int),
        decreases n - i,
    {
        r.push(Scalar::zero());
        i = i + 1;
        assert(r@ =~= blank(i as int));
    }
    r
}

/// Values after a row of a table, scaled, was added to them.
pub open spec fn row_added<T: Numerics>(
    ops: T,
    values: Seq<Scalar>,
    table: Seq<Scalar>,
    row: int,
    scale: Scalar,
) -> Seq<Scalar> {
    Seq::new(
        values.len(),
        |i: int| ops.sum(values[i], ops.product(table[row * values.len() + i], scale)),
    )
}

pub fn add_row<T: Numerics>(
    ops: &T,
    values: &mut Vec<Scalar>,
    table: &Vec<Scalar>,
    row: usize,
    scale: Scalar,
)
    requires
        ops.ready(),
        row * old(values).len() + old(values).len() <= table.len(),
    ensures
        final(values)@ == row_added(*ops, old(values)@, table@, row as int, scale),
{
    let width: usize = values.len();
    let ghost before = values@;
    assert(0 <= row * width) by (nonlinear_arith);
    let first: usize = row * width;
    let mut i: usize = 0;
    while i < width
        invariant
            i <= width,
            ops.ready(),
            width == values.len(),
            width == before.len(),
            first == row * width,
            first + width <= table.len(),
            forall|k: int|
                0 <= k < i ==> #[trigger] values@[k] == row_added(
                    *ops,
                    before,
                    table@,
                    row as int,
                    scale,
                )[k],
            forall|k: int| i <= k < width ==> #[trigger] values@[k] == before[k],
        decreases width - i,
    {
        let value: Scalar = ops.plus(values[i], ops.times(table[first + i], scale));
        values.set(i, value);
        i = i + 1;
    }
    assert(values@ =~= row_added(*ops, before, table@, row as int, scale));
}

/// The logits after the first `upto` active neurons were heard.
pub open spec fn heard<T: Numerics>(
    ops: T,
    bias: Seq<Scalar>,
    weights: Seq<Scalar>,
    activation: Seq<Scalar>,
    active: Seq<usize>,
    upto: int,
) -> Seq<Scalar>
    decreases upto,
{
    if upto <= 0 {
        bias
    } else {
        row_added(
            ops,
            heard(ops, bias, weights, activation, active, upto - 1),
            weights,
            active[upto - 1] as int,
            activation[active[upto - 1] as int],
        )
    }
}

fn copy_values(values: &Vec<Scalar>) -> (r: Vec<Scalar>)
    ensures
        r@ == values@,
{
    let mut r: Vec<Scalar> = Vec::new();
    let mut i: usize = 0;
    while i < values.len()
        invariant
            i <= values.len(),
            r@ == values@.take(i as int),
        decreases values.len() - i,
    {
        r.push(values[i]);
        i = i + 1;
        assert(r@ =~= values@.take(i as int));
    }
    assert(values@.take(i as int) =~= values@);
    r
}

/// The logits that the active neurons give.
pub fn neural_logits<T: Numerics>(
    ops: &T,
    bias: &Vec<Scalar>,
    weights_by_neuron: &Vec<Scalar>,
    activation: &Vec<Scalar>,
    active: &Vec<usize>,
) -> (r: Vec<Scalar>)
    requires
        ops.ready(),
        all_below(active@, activation.len() as int),
        weights_by_neuron.len() == activation.len() * bias.len(),
    ensures
        r@ == heard(
            *ops,
            bias@,
            weights_by_neuron@,
            activation@,
            active@,
            active@.len() as int,
        ),
        r.len() == bias.len(),
{
    let mut r: Vec<Scalar> = copy_values(bias);
    let mut i: usize = 0;
    while i < active.len()
        invariant
            i <= active.len(),
            ops.ready(),
            all_below(active@, activation.len() as int),
            weights_by_neuron.len() == activation.len() * bias.len(),
            r.len() == bias.len(),
            r@ == heard(*ops, bias@, weights_by_neuron@, activation@, active@, i as int),
        decreases active.len() - i,
    {
        let neuron: usize = active[i];
        proof {
            lemma_row_fits(neuron as int, activation.len() as int, bias.len() as int);
        }
        add_row(ops, &mut r, weights_by_neuron, neuron, activation[neuron]);
        i = i + 1;
    }
    r
}

/// The context latent after the first `upto` contexts were added; one without weight is not.
pub open spec fn recalled<T: Numerics>(
    ops: T,
    dim: int,
    embeddings: Seq<Scalar>,
    slots: Seq<usize>,
    scales: Seq<Scalar>,
    upto: int,
) -> Seq<Scalar>
    decreases upto,
{
    if upto <= 0 {
        blank(dim)
    } else {
        let before = recalled(ops, dim, embeddings, slots, scales, upto - 1);
        if scales[upto - 1].at_most(nought()) {
            before
        } else {
            row_added(ops, before, embeddings, slots[upto - 1] as int, scales[upto - 1])
        }
    }
}

/// The context latent of the active contexts.
pub fn context_latent<T: Numerics>(
    ops: &T,
    dim: usize,
    embeddings: &Vec<Scalar>,
    slots: &Vec<usize>,
    scales: &Vec<Scalar>,
    rows: usize,
) -> (r: Vec<Scalar>)
    requires
        ops.ready(),
        slots.len() == scales.len(),
        all_below(slots@, rows as int),
        embeddings.len() == rows * dim,
    ensures
        r@ == recalled(*ops, dim as int, embeddings@, slots@, scales@, slots@.len() as int),
        r.len() == dim,
{
    let mut r: Vec<Scalar> = blank_list(dim);
    let mut i: usize = 0;
    while i < slots.len()
        invariant
            i <= slots.len(),
            ops.ready(),
            slots.len() == scales.len(),
            all_below(slots@, rows as int),
            embeddings.len() == rows * dim,
            r.len() == dim,
            r@ == recalled(*ops, dim as int, embeddings@, slots@, scales@, i as int),
        decreases slots.len() - i,
    {
        let slot: usize = slots[i];
        let scale: Scalar = scales[i];
        if !scale.le(Scalar::zero()) {
            proof {
                lemma_row_fits(slot as int, rows as int, dim as int);
            }
            add_row(ops, &mut r, embeddings, slot, scale);
        }
        i = i + 1;
    }
    r
}

/// The product of a row of a table and a list, from its first `upto` places.
pub open spec fn dot<T: Numerics>(
    ops: T,
    table: Seq<Scalar>,
    first: int,
    values: Seq<Scalar>,
    upto: int,
) -> Scalar
    decreases upto,
{
    if upto <= 0 {
        nought()
    } else {
        ops.sum(
            dot(ops, table, first, values, upto - 1),
            ops.product(table[first + upto - 1], values[upto - 1]),
        )
    }
}

/// The product of a row of a table and a list.
pub fn row_dot<T: Numerics>(ops: &T, table: &Vec<Scalar>, first: usize, values: &Vec<Scalar>) -> (r:
    Scalar)
    requires
        ops.ready(),
        first + values.len() <= table.len(),
    ensures
        r == dot(*ops, table@, first as int, values@, values@.len() as int),
{
    let mut r: Scalar = Scalar::zero();
    let mut i: usize = 0;
    while i < values.len()
        invariant
            i <= values.len(),
            ops.ready(),
            first + values.len() <= table.len(),
            r == dot(*ops, table@, first as int, values@, i as int),
        decreases values.len() - i,
    {
        r = ops.plus(r, ops.times(table[first + i], values[i]));
        i = i + 1;
    }
    r
}

/// Logits with what the context says added.
pub open spec fn with_context<T: Numerics>(
    ops: T,
    logits: Seq<Scalar>,
    output_weights: Seq<Scalar>,
    latent: Seq<Scalar>,
) -> Seq<Scalar> {
    let dim = latent.len() as int;
    Seq::new(
        logits.len(),
        |o: int| ops.sum(logits[o], dot(ops, output_weights, o * dim, latent, dim)),
    )
}

/// Adds what the context says to the logits.
pub fn add_context<T: Numerics>(
    ops: &T,
    logits: &mut Vec<Scalar>,
    output_weights: &Vec<Scalar>,
    latent: &Vec<Scalar>,
)
    requires
        ops.ready(),
        output_weights.len() == old(logits).len() * latent.len(),
    ensures
        final(logits)@ == with_context(*ops, old(logits)@, output_weights@, latent@),
{
    let ghost before = logits@;
    let dim: usize = latent.len();
    let mut o: usize = 0;
    while o < logits.len()
        invariant
            o <= logits.len(),
            ops.ready(),
            dim == latent.len(),
            logits.len() == before.len(),
            output_weights.len() == logits.len() * latent.len(),
            forall|k: int|
                0 <= k < o ==> #[trigger] logits@[k] == with_context(
                    *ops,
                    before,
                    output_weights@,
                    latent@,
                )[k],
            forall|k: int| o <= k < logits.len() ==> #[trigger] logits@[k] == before[k],
        decreases logits.len() - o,
    {
        proof {
            lemma_row_fits(o as int, logits.len() as int, dim as int);
            assert(0 <= o * dim) by (nonlinear_arith);
        }
        let contribution: Scalar = row_dot(ops, output_weights, o * dim, latent);
        let value: Scalar = ops.plus(logits[o], contribution);
        logits.set(o, value);
        o = o + 1;
    }
    assert(logits@ =~= with_context(*ops, before, output_weights@, latent@));
}

/// The largest of the first `upto` logits.
pub open spec fn highest(logits: Seq<Scalar>, upto: int) -> Scalar
    decreases upto,
{
    if upto <= 0 {
        Scalar { bits: MINUS_INFINITY_BITS }
    } else {
        highest(logits, upto - 1).greater(logits[upto - 1])
    }
}

/// The largest logit.
pub fn highest_logit(logits: &Vec<Scalar>) -> (r: Scalar)
    ensures
        r == highest(logits@, logits@.len() as int),
{
    let mut r: Scalar = Scalar { bits: MINUS_INFINITY_BITS };
    let mut i: usize = 0;
    while i < logits.len()
        invariant
            i <= logits.len(),
            r == highest(logits@, i as int),
        decreases logits.len() - i,
    {
        r = r.max_of(logits[i]);
        i = i + 1;
    }
    r
}

/// How likely each class is, next to the likeliest.
pub open spec fn weights_of<T: Numerics>(ops: T, logits: Seq<Scalar>) -> Seq<Scalar> {
    let top = highest(logits, logits.len() as int);
    Seq::new(logits.len(), |i: int| ops.exponential(ops.difference(logits[i], top)))
}

/// The sum of the first `upto` numbers.
pub open spec fn total<T: Numerics>(ops: T, values: Seq<Scalar>, upto: int) -> Scalar
    decreases upto,
{
    if upto <= 0 {
        nought()
    } else {
        ops.sum(total(ops, values, upto - 1), values[upto - 1])
    }
}

fn relative_weights<T: Numerics>(ops: &T, logits: &Vec<Scalar>, top: Scalar) -> (r: (
    Vec<Scalar>,
    Scalar,
))
    requires
        ops.ready(),
        top == highest(logits@, logits@.len() as int),
    ensures
        r.0@ == weights_of(*ops, logits@),
        r.1 == total(*ops, r.0@, r.0@.len() as int),
{
    let mut values: Vec<Scalar> = Vec::new();
    let mut sum: Scalar = Scalar::zero();
    let mut i: usize = 0;
    while i < logits.len()
        invariant
            i <= logits.len(),
            ops.ready(),
            top == highest(logits@, logits@.len() as int),
            values@ == weights_of(*ops, logits@).take(i as int),
            sum == total(*ops, weights_of(*ops, logits@), i as int),
        decreases logits.len() - i,
    {
        let value: Scalar = ops.exp(ops.minus(logits[i], top));
        values.push(value);
        sum = ops.plus(sum, value);
        i = i + 1;
        assert(values@ =~= weights_of(*ops, logits@).take(i as int));
    }
    assert(values@ =~= weights_of(*ops, logits@));
    (values, sum)
}

/// A sum that can be divided by.
pub open spec fn divisible(sum: Scalar) -> bool {
    sum.finite() && !sum.at_most(nought())
}

/// The loss of a class under some logits.
pub open spec fn logit_loss<T: Numerics>(ops: T, logits: Seq<Scalar>, target: int) -> Scalar {
    let top = highest(logits, logits.len() as int);
    let sum = total(ops, weights_of(ops, logits), logits.len() as int);
    if divisible(sum) {
        ops.difference(ops.sum(top, ops.logarithm(sum)), logits[target])
    } else {
        ops.logarithm(ops.number(logits.len() as u64))
    }
}

/// The loss of a class under some logits.
pub fn loss_from_logits<T: Numerics>(ops: &T, logits: &Vec<Scalar>, target: usize) -> (r: Scalar)
    requires
        ops.ready(),
        target < logits.len(),
    ensures
        r == logit_loss(*ops, logits@, target as int),
{
    let top: Scalar = highest_logit(logits);
    let (_, sum) = relative_weights(ops, logits, top);
    if !sum.is_finite() || sum.le(Scalar::zero()) {
        ops.ln(ops.of_count(logits.len() as u64))
    } else {
        ops.minus(ops.plus(top, ops.ln(sum)), logits[target])
    }
}

/// The probabilities of the classes: all alike where the weights cannot be divided.
pub open spec fn normalized<T: Numerics>(ops: T, logits: Seq<Scalar>) -> Seq<Scalar> {
    let values = weights_of(ops, logits);
    let sum = total(ops, values, values.len() as int);
    Seq::new(
        logits.len(),
        |i: int|
            if divisible(sum) {
                ops.quotient(values[i], sum)
            } else {
                ops.quotient(unit(), ops.number(logits.len() as u64))
            },
    )
}

/// The probabilities of the classes.
pub fn normalize_probabilities<T: Numerics>(ops: &T, logits: &Vec<Scalar>) -> (r: Vec<Scalar>)
    requires
        ops.ready(),
    ensures
        r@ == normalized(*ops, logits@),
        r.len() == logits.len(),
{
    let top: Scalar = highest_logit(logits);
    let (values, sum) = relative_weights(ops, logits, top);
    let sound: bool = sum.is_finite() && !sum.le(Scalar::zero());
    let mut r: Vec<Scalar> = Vec::new();
    let mut i: usize = 0;
    while i < logits.len()
        invariant
            i <= logits.len(),
            ops.ready(),
            values@ == weights_of(*ops, logits@),
            sum == total(*ops, values@, values@.len() as int),
            sound == divisible(sum),
            r@ == normalized(*ops, logits@).take(i as int),
        decreases logits.len() - i,
    {
        let value: Scalar = if sound {
            ops.over(values[i], sum)
        } else {
            ops.over(Scalar::one(), ops.of_count(logits.len() as u64))
        };
        r.push(value);
        i = i + 1;
        assert(r@ =~= normalized(*ops, logits@).take(i as int));
    }
    assert(r@ =~= normalized(*ops, logits@));
    r
}

/// The loss of a probability.
pub open spec fn loss_of<T: Numerics>(ops: T, probability: Scalar) -> Scalar {
    ops.logarithm(probability.greater(Scalar { bits: LEAST_PROBABILITY_BITS })).opposite()
}

/// The loss of a probability.
pub fn probability_loss<T: Numerics>(ops: &T, probability: Scalar) -> (r: Scalar)
    requires
        ops.ready(),
    ensures
        r == loss_of(*ops, probability),
{
    ops.ln(probability.max_of(Scalar { bits: LEAST_PROBABILITY_BITS })).negated()
}

/// The weight of a context before weights are made comparable: what it has seen, and how long a
/// history it stands for.
pub open spec fn raw_scale<T: Numerics>(ops: T, m: Model, slot: int) -> Scalar {
    let seen = ops.number(m.context.observations[slot] as u64);
    let order = slot / m.config.context.slots_per_order as int + 1;
    ops.product(
        ops.quotient(
            seen,
            ops.sum(seen, ops.number(m.config.context.confidence_observations as u64)),
        ),
        ops.number(order as u64),
    )
}

/// The weights of the active contexts before they are made comparable.
pub open spec fn raw_scales<T: Numerics>(ops: T, m: Model, slots: Seq<usize>) -> Seq<Scalar> {
    Seq::new(slots.len(), |i: int| raw_scale(ops, m, slots[i] as int))
}

/// The weights of the active contexts: they add up to one where any has weight.
pub open spec fn context_scales_of<T: Numerics>(ops: T, m: Model, slots: Seq<usize>) -> Seq<Scalar> {
    let raw = raw_scales(ops, m, slots);
    let sum = total(ops, raw, raw.len() as int);
    if nought().below(sum) {
        Seq::new(raw.len(), |i: int| ops.quotient(raw[i], sum))
    } else {
        raw
    }
}

/// The weights of the active contexts.
pub fn context_scales<T: Numerics>(ops: &T, m: &Model, slots: &Vec<usize>) -> (r: Vec<Scalar>)
    requires
        ops.ready(),
        all_below(slots@, m.context.observations.len() as int),
        0 < m.config.context.slots_per_order,
    ensures
        r@ == context_scales_of(*ops, *m, slots@),
        r.len() == slots.len(),
{
    let mut raw: Vec<Scalar> = Vec::new();
    let mut sum: Scalar = Scalar::zero();
    let mut i: usize = 0;
    while i < slots.len()
        invariant
            i <= slots.len(),
            ops.ready(),
            all_below(slots@, m.context.observations.len() as int),
            0 < m.config.context.slots_per_order,
            raw@ == raw_scales(*ops, *m, slots@).take(i as int),
            sum == total(*ops, raw_scales(*ops, *m, slots@), i as int),
        decreases slots.len() - i,
    {
        let slot: usize = slots[i];
        let seen: Scalar = ops.of_count(m.context.observations[slot] as u64);
        let needed: Scalar = ops.of_count(m.config.context.confidence_observations as u64);
        let order: u64 = (slot / m.config.context.slots_per_order) as u64;
        assert(slot / m.config.context.slots_per_order <= slot) by (nonlinear_arith)
            requires
                0 < m.config.context.slots_per_order,
        ;
        assert(slot < m.context.observations.len() <= usize::MAX);
        let confidence: Scalar = ops.over(seen, ops.plus(seen, needed));
        let scale: Scalar = ops.times(confidence, ops.of_count(order + 1));
        raw.push(scale);
        sum = ops.plus(sum, scale);
        i = i + 1;
        assert(raw@ =~= raw_scales(*ops, *m, slots@).take(i as int));
    }
    assert(raw@ =~= raw_scales(*ops, *m, slots@));
    if !Scalar::zero().lt(sum) {
        return raw;
    }
    let mut r: Vec<Scalar> = Vec::new();
    let mut k: usize = 0;
    while k < raw.len()
        invariant
            k <= raw.len(),
            ops.ready(),
            raw@ == raw_scales(*ops, *m, slots@),
            raw.len() == slots.len(),
            sum == total(*ops, raw@, raw@.len() as int),
            nought().below(sum),
            r@ == context_scales_of(*ops, *m, slots@).take(k as int),
        decreases raw.len() - k,
    {
        r.push(ops.over(raw[k], sum));
        k = k + 1;
        assert(r@ =~= context_scales_of(*ops, *m, slots@).take(k as int));
    }
    assert(r@ =~= context_scales_of(*ops, *m, slots@));
    r
}

} // verus!
