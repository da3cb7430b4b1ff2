//! What predictions are for: contexts that were seen count, likelier classes are likelier, and a loss
//! is lower the likelier the class was that came.

use crate::arithmetic::Numerics;
use crate::dynamics_laws::no_higher;
use crate::learning::{nought, unit};
use crate::model::Model;
use crate::order::{
    alike, counts_are_exact, counts_keep_order, differences_keep_order, exponentials_keep_order,
    lemma_product_with_one_and_zero, lemma_sum_with_zero, logarithms_keep_order, orderly,
    plus_or_zero, products_keep_order, quotients_keep_order, sums_keep_order, zero,
    EXACT_COUNTS,
};
use crate::prediction::{
    context_scales_of, divisible, dot, heard, highest, logit_loss, loss_of, normalized,
    raw_scale, raw_scales, recalled, total, weights_of, with_context, LEAST_PROBABILITY_BITS,
};
use crate::scalar::Scalar;
use vstd::prelude::*;

verus! {

/// Counts that a context's weight is made of can be told apart.
pub open spec fn seen_exactly(m: Model, slot: int) -> bool {
    &&& 0 < m.config.context.confidence_observations
    &&& m.context.observations@[slot] + m.config.context.confidence_observations <= EXACT_COUNTS
}

/// The order of the history that a slot of the context memory is for.
pub open spec fn order_of(m: Model, slot: int) -> int {
    slot / m.config.context.slots_per_order as int
}

/// Before weights are made comparable: none for a context that was never seen, never negative, and
/// no more than the order.
pub proof fn lemma_raw_scale<T: Numerics>(ops: T, m: Model, slot: int)
    requires
        orderly(ops),
        seen_exactly(m, slot),
        0 <= order_of(m, slot) < u64::MAX,
    ensures
        plus_or_zero(raw_scale(ops, m, slot)),
        m.context.observations@[slot] == 0 ==> zero(raw_scale(ops, m, slot)),
{
    reveal(counts_keep_order);
    reveal(counts_are_exact);
    let seen = m.context.observations@[slot] as u64;
    let needed = m.config.context.confidence_observations as u64;
    let n = ops.number(seen);
    let all = ops.sum(n, ops.number(needed));
    assert(all == ops.number((seen + needed) as u64));
    assert(ops.number(0).at_most(n));
    assert(ops.number(1).at_most(all));
    let q = ops.quotient(n, all);
    let o = ops.number((order_of(m, slot) + 1) as u64);
    assert(ops.number(0).at_most(o));
    reveal(quotients_keep_order);
    assert(!q.nan());
    assert(zero(ops.quotient(nought(), all)));
    assert(ops.quotient(nought(), all).at_most(q));
    assert(q.at_most(ops.quotient(all, all)));
    assert(q.finite());
    reveal(products_keep_order);
    assert(!ops.product(q, o).nan());
}

/// Of two contexts of the same order, the one that was seen more often weighs no less before weights
/// are made comparable.
pub proof fn lemma_raw_order<T: Numerics>(ops: T, m: Model, few: int, many: int)
    requires
        orderly(ops),
        seen_exactly(m, few),
        seen_exactly(m, many),
        order_of(m, few) == order_of(m, many),
        0 <= order_of(m, few) < u64::MAX,
        m.context.observations@[few] <= m.context.observations@[many],
    ensures
        raw_scale(ops, m, few).at_most(raw_scale(ops, m, many)),
{
    lemma_raw_scale(ops, m, few);
    lemma_raw_scale(ops, m, many);
    reveal(counts_are_exact);
    reveal(counts_keep_order);
    let c = m.config.context.confidence_observations as u64;
    let a = m.context.observations@[few] as u64;
    let b = m.context.observations@[many] as u64;
    assert(a * (b + c) <= b * (a + c)) by (nonlinear_arith)
        requires
            a <= b,
            0 <= c,
    ;
    let p = ops.quotient(ops.number(a), ops.number((a + c) as u64));
    let q = ops.quotient(ops.number(b), ops.number((b + c) as u64));
    assert(ops.sum(ops.number(a), ops.number(c)) == ops.number((a + c) as u64));
    assert(ops.sum(ops.number(b), ops.number(c)) == ops.number((b + c) as u64));
    assert(p.at_most(q));
    assert(ops.number(0).at_most(ops.number((order_of(m, few) + 1) as u64)));
    reveal(products_keep_order);
}

/// The sum of numbers that are not negative is not below any of them.
pub proof fn lemma_total_covers<T: Numerics>(ops: T, values: Seq<Scalar>, upto: int, i: int)
    requires
        orderly(ops),
        0 <= upto <= values.len(),
        forall|k: int| 0 <= k < values.len() ==> plus_or_zero(#[trigger] values[k]),
        !total(ops, values, upto).nan(),
    ensures
        plus_or_zero(total(ops, values, upto)),
        0 <= i < upto ==> values[i].at_most(total(ops, values, upto)),
        (forall|k: int| 0 <= k < upto ==> zero(#[trigger] values[k])) ==> zero(
            total(ops, values, upto),
        ),
    decreases upto,
{
    reveal(sums_keep_order);
    if upto > 0 {
        let before = total(ops, values, upto - 1);
        let last = values[upto - 1];
        assert(!before.nan());
        lemma_total_covers(ops, values, upto - 1, i);
        assert(alike(ops.sum(before, nought()), before));
        assert(alike(ops.sum(nought(), last), last));
        assert(ops.sum(before, nought()).at_most(ops.sum(before, last)));
        assert(ops.sum(nought(), last).at_most(ops.sum(before, last)));
    }
}

/// Only contexts that were seen have weight, and those that were seen more have no less: a context
/// without observations has weight zero, and of two contexts of the same order the one with more
/// observations weighs at least as much. No weight is negative or above one where any is above
/// zero, and a context that was seen and stands alone has weight one.
pub proof fn law_contexts_weigh_what_they_have_seen<T: Numerics>(
    ops: T,
    m: Model,
    slots: Seq<usize>,
    few: int,
    many: int,
)
    requires
        orderly(ops),
        0 <= few < slots.len(),
        0 <= many < slots.len(),
        forall|i: int| 0 <= i < slots.len() ==> seen_exactly(m, (#[trigger] slots[i]) as int),
        forall|i: int|
            0 <= i < slots.len() ==> 0 <= order_of(m, (#[trigger] slots[i]) as int) < u64::MAX,
        total(ops, raw_scales(ops, m, slots), slots.len() as int).finite(),
    ensures
        ({
            let r = context_scales_of(ops, m, slots);
            let seen = m.context.observations@;
            &&& r.len() == slots.len()
            &&& plus_or_zero(r[few])
            &&& seen[slots[few] as int] == 0 ==> zero(r[few])
            &&& order_of(m, slots[few] as int) == order_of(m, slots[many] as int)
                && seen[slots[few] as int] <= seen[slots[many] as int] ==> r[few].at_most(r[many])
            &&& nought().below(total(ops, raw_scales(ops, m, slots), slots.len() as int))
                ==> r[few].at_most(unit())
            &&& slots.len() == 1 && nought().below(raw_scale(ops, m, slots[few] as int)) ==> alike(
                r[few],
                unit(),
            )
        }),
{
    let raw = raw_scales(ops, m, slots);
    let sum = total(ops, raw, raw.len() as int);
    assert forall|k: int| 0 <= k < raw.len() implies plus_or_zero(#[trigger] raw[k]) by {
        assert(seen_exactly(m, slots[k] as int));
        lemma_raw_scale(ops, m, slots[k] as int);
    }
    lemma_total_covers(ops, raw, raw.len() as int, few);
    lemma_total_covers(ops, raw, raw.len() as int, many);
    lemma_raw_scale(ops, m, slots[few] as int);
    lemma_raw_scale(ops, m, slots[many] as int);
    assert(raw[few] == raw_scale(ops, m, slots[few] as int));
    assert(raw[many] == raw_scale(ops, m, slots[many] as int));
    if order_of(m, slots[few] as int) == order_of(m, slots[many] as int)
        && m.context.observations@[slots[few] as int]
        <= m.context.observations@[slots[many] as int] {
        lemma_raw_order(ops, m, slots[few] as int, slots[many] as int);
    }
    if slots.len() == 1 {
        assert(few == 0);
        reveal_with_fuel(total, 2);
        lemma_sum_with_zero(ops, raw[0], nought());
    }
    if nought().below(sum) {
        reveal(quotients_keep_order);
        let a = ops.quotient(raw[few], sum);
        let b = ops.quotient(raw[many], sum);
        assert(raw[few].finite() && raw[many].finite());
        assert(!a.nan() && !b.nan());
        assert(zero(ops.quotient(nought(), sum)));
        assert(ops.quotient(nought(), sum).at_most(a));
        assert(a.at_most(ops.quotient(sum, sum)));
    }
}

/// A context of a longer history that was seen as often weighs no less, and one whose confidence
/// asks for fewer observations weighs no less either, before weights are made comparable.
pub proof fn law_longer_histories_weigh_more<T: Numerics>(
    ops: T,
    m: Model,
    other: Model,
    short: int,
    long: int,
)
    requires
        orderly(ops),
        seen_exactly(m, short),
        seen_exactly(other, long),
        0 <= order_of(m, short) <= order_of(other, long) < u64::MAX,
        m.context.observations@[short] == other.context.observations@[long],
        other.config.context.confidence_observations <= m.config.context.confidence_observations,
    ensures
        raw_scale(ops, m, short).at_most(raw_scale(ops, other, long)),
        order_of(m, short) == 0 && order_of(other, long) == 0 ==> raw_scale(
            ops,
            m,
            short,
        ).at_most(unit()),
{
    lemma_raw_scale(ops, m, short);
    lemma_raw_scale(ops, other, long);
    reveal(counts_are_exact);
    reveal(counts_keep_order);
    let c = m.config.context.confidence_observations as u64;
    let d = other.config.context.confidence_observations as u64;
    let a = m.context.observations@[short] as u64;
    assert(a * (a + d) <= a * (a + c)) by (nonlinear_arith)
        requires
            d <= c,
            0 <= a,
    ;
    let p = ops.quotient(ops.number(a), ops.number((a + c) as u64));
    let q = ops.quotient(ops.number(a), ops.number((a + d) as u64));
    assert(ops.sum(ops.number(a), ops.number(c)) == ops.number((a + c) as u64));
    assert(ops.sum(ops.number(a), ops.number(d)) == ops.number((a + d) as u64));
    assert(p.at_most(q));
    let s = ops.number((order_of(m, short) + 1) as u64);
    let l = ops.number((order_of(other, long) + 1) as u64);
    assert(s.at_most(l));
    assert(ops.number(0).at_most(s));
    reveal(quotients_keep_order);
    let w = ops.number((a + c) as u64);
    assert(ops.number(1).at_most(w) && ops.number(a).at_most(w));
    let y = ops.number((a + d) as u64);
    assert(ops.number(1).at_most(y) && ops.number(a).at_most(y));
    assert(q.at_most(ops.quotient(y, y)) && p.at_most(ops.quotient(w, w)));
    assert(zero(ops.quotient(nought(), w)) && ops.quotient(nought(), w).at_most(p));
    reveal(products_keep_order);
    assert(!ops.product(p, l).nan() && !ops.product(p, s).nan());
    assert(ops.product(p, s).at_most(ops.product(p, l)));
    assert(ops.product(p, l).at_most(ops.product(q, l)));
    assert(alike(ops.product(p, unit()), p));
    assert(ops.number(1) == unit());
}

pub proof fn lemma_heard_len<T: Numerics>(
    ops: T,
    bias: Seq<Scalar>,
    weights: Seq<Scalar>,
    activation: Seq<Scalar>,
    active: Seq<usize>,
    upto: int,
)
    ensures
        heard(ops, bias, weights, activation, active, upto).len() == bias.len(),
    decreases upto,
{
    if upto > 0 {
        lemma_heard_len(ops, bias, weights, activation, active, upto - 1);
    }
}

/// Active neurons are heard in full: where no active neuron speaks for a class, its logit is its
/// bias; where one does and the bias is zero, the logit is the neuron's activation if its output
/// weight is one, and its output weight if its activation is one.
pub proof fn law_active_neurons_are_heard<T: Numerics>(
    ops: T,
    bias: Seq<Scalar>,
    weights: Seq<Scalar>,
    activation: Seq<Scalar>,
    active: Seq<usize>,
    upto: int,
    class: int,
    k: int,
)
    requires
        orderly(ops),
        0 <= class < bias.len(),
        0 <= upto <= active.len(),
        !bias[class].nan(),
        forall|i: int|
            0 <= i < upto && i != k ==> zero(
                #[trigger] weights[active[i] as int * bias.len() + class],
            ),
        forall|i: int| 0 <= i < upto ==> activation[(#[trigger] active[i]) as int].finite(),
        0 <= k < upto ==> weights[active[k] as int * bias.len() + class].finite(),
    ensures
        ({
            let logit = heard(ops, bias, weights, activation, active, upto)[class];
            &&& !(0 <= k < upto) ==> alike(logit, bias[class])
            &&& 0 <= k < upto && zero(bias[class]) ==> {
                let w = weights[active[k] as int * bias.len() + class];
                let x = activation[active[k] as int];
                &&& w == unit() ==> alike(logit, x)
                &&& x == unit() ==> alike(logit, w)
                &&& zero(x) ==> zero(logit)
            }
        }),
    decreases upto,
{
    if upto > 0 {
        law_active_neurons_are_heard(
            ops, bias, weights, activation, active, upto - 1, class, k,
        );
        lemma_heard_len(ops, bias, weights, activation, active, upto - 1);
        let before = heard(ops, bias, weights, activation, active, upto - 1)[class];
        let n = active[upto - 1] as int;
        let w = weights[n * bias.len() + class];
        let x = activation[n];
        let p = ops.product(w, x);
        assert(x.finite());
        lemma_product_with_one_and_zero(ops, w, x);
        lemma_product_with_one_and_zero(ops, x, w);
        if upto - 1 == k {
            if zero(bias[class]) && !p.nan() {
                lemma_sum_with_zero(ops, p, before);
            }
        } else {
            assert(zero(w));
            assert(zero(p));
            if !before.nan() {
                lemma_sum_with_zero(ops, before, p);
            }
        }
    }
}

pub proof fn lemma_recalled_len<T: Numerics>(
    ops: T,
    dim: int,
    embeddings: Seq<Scalar>,
    slots: Seq<usize>,
    scales: Seq<Scalar>,
    upto: int,
)
    requires
        0 <= dim,
    ensures
        recalled(ops, dim, embeddings, slots, scales, upto).len() == dim,
    decreases upto,
{
    if upto > 0 {
        lemma_recalled_len(ops, dim, embeddings, slots, scales, upto - 1);
    }
}

/// Contexts are recalled by their weight: those without weight say nothing, and where a single one
/// has weight, the latent is its row if the weight is one, and the weight itself where the row holds
/// a one.
pub proof fn law_contexts_are_recalled<T: Numerics>(
    ops: T,
    dim: int,
    embeddings: Seq<Scalar>,
    slots: Seq<usize>,
    scales: Seq<Scalar>,
    upto: int,
    place: int,
    k: int,
)
    requires
        orderly(ops),
        0 <= place < dim,
        0 <= upto <= slots.len(),
        forall|i: int| 0 <= i < upto && i != k ==> zero(#[trigger] scales[i]),
        0 <= k < upto ==> nought().below(scales[k]) && scales[k].finite(),
        0 <= k < upto ==> embeddings[slots[k] as int * dim + place].finite(),
    ensures
        ({
            let said = recalled(ops, dim, embeddings, slots, scales, upto)[place];
            &&& !(0 <= k < upto) ==> zero(said)
            &&& 0 <= k < upto ==> {
                let e = embeddings[slots[k] as int * dim + place];
                &&& scales[k] == unit() ==> alike(said, e)
                &&& e == unit() ==> alike(said, scales[k])
                &&& zero(e) ==> zero(said)
            }
        }),
    decreases upto,
{
    if upto > 0 {
        law_contexts_are_recalled(
            ops, dim, embeddings, slots, scales, upto - 1, place, k,
        );
        lemma_recalled_len(ops, dim, embeddings, slots, scales, upto - 1);
        let before = recalled(ops, dim, embeddings, slots, scales, upto - 1)[place];
        if upto - 1 == k {
            let e = embeddings[slots[k] as int * dim + place];
            let p = ops.product(e, scales[k]);
            lemma_product_with_one_and_zero(ops, e, scales[k]);
            lemma_product_with_one_and_zero(ops, scales[k], e);
            if !p.nan() {
                lemma_sum_with_zero(ops, p, before);
            }
        } else {
            assert(zero(scales[upto - 1]));
        }
    }
}

/// What contexts say is added to the logits: the logit of a class whose projection picks one
/// dimension of the latent grows from zero to what the latent holds there, and the logit of a class
/// that they say nothing of stays as it is.
pub proof fn law_contexts_add_to_logits<T: Numerics>(
    ops: T,
    logits: Seq<Scalar>,
    weights: Seq<Scalar>,
    latent: Seq<Scalar>,
    class: int,
    k: int,
)
    requires
        orderly(ops),
        0 <= class < logits.len(),
        !logits[class].nan(),
        forall|i: int| 0 <= i < latent.len() ==> (#[trigger] latent[i]).finite(),
        forall|i: int|
            0 <= i < latent.len() && i != k ==> zero(#[trigger] weights[class * latent.len() + i]),
        0 <= k < latent.len() ==> weights[class * latent.len() + k] == unit(),
    ensures
        0 <= k < latent.len() && zero(logits[class]) ==> alike(
            with_context(ops, logits, weights, latent)[class],
            latent[k],
        ),
        !(0 <= k < latent.len()) ==> alike(
            with_context(ops, logits, weights, latent)[class],
            logits[class],
        ),
{
    let dim = latent.len() as int;
    crate::lesson_laws::lemma_dot_picks(ops, weights, class * dim, latent, dim, k);
    let d = dot(ops, weights, class * dim, latent, dim);
    if 0 <= k < dim {
        if zero(logits[class]) {
            lemma_sum_with_zero(ops, d, logits[class]);
        }
    } else {
        lemma_sum_with_zero(ops, logits[class], d);
    }
}

/// The highest logit is one of them, and none is above it.
pub proof fn lemma_highest(logits: Seq<Scalar>, upto: int, i: int)
    requires
        0 < upto <= logits.len(),
        forall|k: int| 0 <= k < logits.len() ==> (#[trigger] logits[k]).finite(),
    ensures
        exists|k: int| 0 <= k < upto && #[trigger] logits[k] == highest(logits, upto),
        0 <= i < upto ==> logits[i].at_most(highest(logits, upto)),
    decreases upto,
{
    assert(logits[upto - 1].finite());
    if upto > 1 {
        lemma_highest(logits, upto - 1, i);
        let k = choose|k: int| 0 <= k < upto - 1 && #[trigger] logits[k] == highest(logits, upto - 1);
        assert(logits[k].finite());
        assert(logits[k] == highest(logits, upto) || logits[upto - 1] == highest(logits, upto));
    } else {
        assert(highest(logits, 0) == (Scalar { bits: crate::prediction::MINUS_INFINITY_BITS }));
        assert(logits[0] == highest(logits, 1));
    }
}

/// The weights of the classes next to the likeliest: between zero and one, in the order of the
/// logits, and one for the likeliest.
pub proof fn lemma_weights<T: Numerics>(ops: T, logits: Seq<Scalar>, i: int, j: int) -> (best: int)
    requires
        orderly(ops),
        forall|k: int| 0 <= k < logits.len() ==> (#[trigger] logits[k]).finite(),
        0 <= i < logits.len(),
        0 <= j < logits.len(),
    ensures
        ({
            let w = weights_of(ops, logits);
            &&& plus_or_zero(w[i]) && w[i].at_most(unit())
            &&& logits[i].at_most(logits[j]) ==> w[i].at_most(w[j])
            &&& 0 <= best < logits.len()
            &&& logits[best] == highest(logits, logits.len() as int)
            &&& alike(w[best], unit())
        }),
{
    let n = logits.len() as int;
    lemma_highest(logits, n, i);
    lemma_highest(logits, n, j);
    let top = highest(logits, n);
    let best = choose|k: int| 0 <= k < n && #[trigger] logits[k] == top;
    assert(logits[i].finite() && logits[j].finite() && logits[best].finite());
    reveal(differences_keep_order);
    reveal(exponentials_keep_order);
    let x = ops.difference(logits[i], top);
    let y = ops.difference(logits[j], top);
    let z = ops.difference(logits[best], top);
    assert(zero(z));
    assert(!x.nan() && !y.nan());
    assert(x.at_most(z) && y.at_most(z));
    let w = weights_of(ops, logits);
    assert(w[i] == ops.exponential(x) && w[j] == ops.exponential(y) && w[best]
        == ops.exponential(z));
    assert(alike(ops.exponential(z), unit()));
    assert(ops.exponential(x).at_most(ops.exponential(z)));
    best
}

/// Probabilities are what they are called: each lies between zero and one, a class with a logit that
/// is no lower is no less likely, classes with equal logits are equally likely, and a class that is
/// alone is certain.
pub proof fn law_probabilities_follow_logits<T: Numerics>(
    ops: T,
    logits: Seq<Scalar>,
    i: int,
    j: int,
)
    requires
        orderly(ops),
        forall|k: int| 0 <= k < logits.len() ==> (#[trigger] logits[k]).finite(),
        0 <= i < logits.len(),
        0 <= j < logits.len(),
        logits.len() <= u64::MAX,
        !total(ops, weights_of(ops, logits), logits.len() as int).nan(),
    ensures
        ({
            let p = normalized(ops, logits);
            &&& p.len() == logits.len()
            &&& plus_or_zero(p[i]) && p[i].at_most(unit())
            &&& logits[i].at_most(logits[j]) ==> p[i].at_most(p[j])
            &&& logits.len() == 1 ==> alike(p[i], unit())
        }),
{
    let n = logits.len() as int;
    let w = weights_of(ops, logits);
    let best = lemma_weights(ops, logits, i, j);
    let _ = lemma_weights(ops, logits, j, i);
    assert forall|k: int| 0 <= k < w.len() implies plus_or_zero(#[trigger] w[k]) by {
        let _ = lemma_weights(ops, logits, k, k);
    }
    let sum = total(ops, w, n);
    lemma_total_covers(ops, w, n, i);
    lemma_total_covers(ops, w, n, j);
    lemma_total_covers(ops, w, n, best);
    reveal(quotients_keep_order);
    if divisible(sum) {
        assert(w[i].finite() && w[j].finite());
        let a = ops.quotient(w[i], sum);
        let b = ops.quotient(w[j], sum);
        assert(!a.nan() && !b.nan());
        assert(zero(ops.quotient(nought(), sum)));
        assert(ops.quotient(nought(), sum).at_most(a));
        assert(alike(ops.quotient(sum, sum), unit()));
        assert(a.at_most(ops.quotient(sum, sum)));
        if n == 1 {
            reveal_with_fuel(total, 2);
            lemma_sum_with_zero(ops, w[0], nought());
            assert(alike(sum, w[0]));
        }
    } else {
        reveal(counts_keep_order);
        let all = ops.number(n as u64);
        assert(ops.number(1).at_most(all));
        let q = ops.quotient(unit(), all);
        assert(!q.nan());
        assert(zero(ops.quotient(nought(), all)));
        assert(ops.quotient(nought(), all).at_most(q));
        assert(q.at_most(ops.quotient(all, all)));
        assert(alike(ops.quotient(all, all), unit()));
        if n == 1 {
            reveal_with_fuel(total, 2);
            lemma_sum_with_zero(ops, w[0], nought());
            assert(best == 0);
            assert(alike(sum, unit()));
            assert(sum.finite() && nought().below(sum));
        }
    }
}

/// The loss of a prediction is what it missed: never negative, no higher for a likelier class, and
/// zero for a class that is alone.
pub proof fn law_losses_measure_what_was_missed<T: Numerics>(
    ops: T,
    logits: Seq<Scalar>,
    i: int,
    j: int,
)
    requires
        orderly(ops),
        forall|k: int| 0 <= k < logits.len() ==> (#[trigger] logits[k]).finite(),
        0 <= i < logits.len(),
        0 <= j < logits.len(),
        total(ops, weights_of(ops, logits), logits.len() as int).finite(),
    ensures
        ({
            let loss = logit_loss(ops, logits, i);
            &&& !loss.nan() ==> plus_or_zero(loss)
            &&& logits[i].at_most(logits[j]) ==> no_higher(logit_loss(ops, logits, j), loss)
            &&& logits.len() == 1 ==> zero(loss)
        }),
{
    let n = logits.len() as int;
    let w = weights_of(ops, logits);
    let best = lemma_weights(ops, logits, i, j);
    assert forall|k: int| 0 <= k < w.len() implies plus_or_zero(#[trigger] w[k]) by {
        let _ = lemma_weights(ops, logits, k, k);
    }
    let sum = total(ops, w, n);
    lemma_total_covers(ops, w, n, best);
    assert(unit().at_most(sum));
    assert(divisible(sum));
    reveal(logarithms_keep_order);
    let l = ops.logarithm(sum);
    assert(zero(ops.logarithm(unit())));
    assert(plus_or_zero(l));
    let top = highest(logits, n);
    lemma_highest(logits, n, i);
    assert(logits[best].finite());
    reveal(sums_keep_order);
    let s = ops.sum(top, l);
    assert(alike(ops.sum(top, nought()), top));
    reveal(differences_keep_order);
    assert(zero(ops.difference(logits[i], logits[i])));
    if !s.nan() {
        assert(ops.sum(top, nought()).at_most(s));
        assert(logits[i].at_most(s));
    }
    if n == 1 {
        reveal_with_fuel(total, 2);
        lemma_sum_with_zero(ops, w[0], nought());
        assert(best == 0);
        assert(alike(sum, unit()));
        assert(zero(l));
        assert(alike(s, top));
        assert(i == 0 && logits[i] == top);
        assert(s.finite());
        assert(zero(ops.difference(s, logits[i])));
    }
}

/// The loss of a probability is lower the higher the probability is, never negative up to one, and
/// zero at one; below the smallest probability that a loss is taken of it grows no more.
pub proof fn law_losses_of_probabilities<T: Numerics>(ops: T, low: Scalar, high: Scalar)
    requires
        orderly(ops),
        low.at_most(high),
    ensures
        loss_of(ops, high).at_most(loss_of(ops, low)),
        low.at_most(unit()) ==> plus_or_zero(loss_of(ops, low)),
        alike(low, unit()) ==> zero(loss_of(ops, low)),
        high.at_most(Scalar { bits: 0x2b8c_bccc }) ==> loss_of(ops, high).rank() == loss_of(
            ops,
            low,
        ).rank(),
{
    reveal(logarithms_keep_order);
    let least = Scalar { bits: LEAST_PROBABILITY_BITS };
    let x = low.greater(least);
    let y = high.greater(least);
    assert(nought().below(x) && x.at_most(y));
    assert(ops.logarithm(x).at_most(ops.logarithm(y)));
    assert(zero(ops.logarithm(unit())));
    if low.at_most(unit()) {
        assert(x.at_most(unit()));
    }
    if high.at_most(least) {
        assert(y.rank() == least.rank());
    }
}

} // verus!
