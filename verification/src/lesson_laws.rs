//! What the parts of a lesson are for: errors name the class that came, contexts remember that they
//! were seen, and inhibition and thresholds hold activity at its target.

use crate::arithmetic::Numerics;
use crate::context_learning::{
    context_pass, latent_gradient, once_more, projection_proposal, row_of, ContextLesson,
    ContextPass,
};
use crate::dynamics::share;
use crate::error::LeoResult;
use crate::learning::{bounded, nought, unit};
use crate::learning_laws::{
    descends, learns_soundly, lemma_bounded, lemma_descends, lemma_ended_pass_descends,
    lemma_nudged_goes, lemma_pass_len, lemma_plain_pass_descends, within,
};
use crate::lesson_parts::{balanced, context_learned, told, told_neurons};
use crate::marks::{accumulated, agree, law_accumulation_is_a_union, unmarked};
use crate::order::{
    alike, differences_keep_order, lemma_product_with_one_and_zero, lemma_sign,
    lemma_sum_with_zero, minus_or_zero, mirrored, orderly, plus_or_zero, products_keep_order,
    sums_keep_order, zero,
};
use crate::plasticity::{
    count_up, ends_of, inhibitory_proposal, inhibitory_slots, pass_of, passed, quieted, signals,
    stops_at, threshold_proposal, unlisted, WeightPass,
};
use crate::prediction::dot;
use crate::runtime::{all_below, lemma_place, Runtime};
use crate::scalar::Scalar;
use crate::step::thresholds_moved;
use vstd::prelude::*;

verus! {

/// The errors of a prediction say how each class should have been: the class that came was not
/// likely enough, by all that was missing to one, and every other class was too likely by what it
/// had.
pub proof fn law_errors_name_the_class_that_came<T: Numerics>(
    ops: T,
    b: Runtime,
    class: int,
    scale: Scalar,
    a: Runtime,
    other: int,
)
    requires
        orderly(ops),
        told(ops, b, class, scale, a),
        0 <= class < b.numbers.probabilities@.len(),
        0 <= other < b.numbers.probabilities@.len(),
        other != class,
        plus_or_zero(b.numbers.probabilities@[class]),
        b.numbers.probabilities@[class].at_most(unit()),
    ensures
        minus_or_zero(a.numbers.errors@[class]),
        alike(b.numbers.probabilities@[class], unit()) ==> zero(a.numbers.errors@[class]),
        zero(b.numbers.probabilities@[class]) ==> mirrored(a.numbers.errors@[class], unit()),
        a.numbers.errors@[other] == b.numbers.probabilities@[other],
{
    reveal(told);
    let p = b.numbers.probabilities@[class];
    reveal(differences_keep_order);
    let e = ops.difference(p, unit());
    assert(zero(ops.difference(unit(), unit())));
    assert(p.finite());
    assert(!e.nan()) by {
        assert(unit().finite());
    }
    assert(e.at_most(ops.difference(unit(), unit())));
}

/// Where a row has a single number that is one, and is zero elsewhere, its product with a list is the
/// list's number there; where all of it is zero, so is the product.
pub proof fn lemma_dot_picks<T: Numerics>(
    ops: T,
    table: Seq<Scalar>,
    first: int,
    values: Seq<Scalar>,
    upto: int,
    k: int,
)
    requires
        orderly(ops),
        0 <= upto <= values.len(),
        forall|i: int| 0 <= i < values.len() ==> (#[trigger] values[i]).finite(),
        forall|i: int|
            0 <= i < values.len() && i != k ==> zero(#[trigger] table[first + i]),
        0 <= k < upto ==> table[first + k] == unit(),
    ensures
        0 <= k < upto ==> alike(dot(ops, table, first, values, upto), values[k]),
        k < 0 || k >= upto ==> zero(dot(ops, table, first, values, upto)),
    decreases upto,
{
    if upto > 0 {
        lemma_dot_picks(ops, table, first, values, upto - 1, k);
        let before = dot(ops, table, first, values, upto - 1);
        let x = table[first + (upto - 1)];
        assert(first + (upto - 1) == first + upto - 1);
        let v = values[upto - 1];
        lemma_product_with_one_and_zero(ops, v, x);
        let p = ops.product(x, v);
        if upto - 1 == k {
            lemma_sum_with_zero(ops, p, before);
        } else {
            assert(zero(x));
            assert(zero(p));
            lemma_sum_with_zero(ops, before, p);
        }
    }
}

proof fn lemma_signal_given<T: Numerics>(
    ops: T,
    signal: Seq<Scalar>,
    weights: Seq<Scalar>,
    errors: Seq<Scalar>,
    list: Seq<usize>,
    upto: int,
    neuron: int,
)
    requires
        0 <= upto <= list.len(),
        all_below(list, signal.len() as int),
        0 <= neuron < signal.len(),
    ensures
        signals(ops, signal, weights, errors, list, upto).len() == signal.len(),
        (exists|i: int| 0 <= i < upto && #[trigger] list[i] == neuron) ==> signals(
            ops,
            signal,
            weights,
            errors,
            list,
            upto,
        )[neuron] == dot(
            ops,
            weights,
            neuron * errors.len(),
            errors,
            errors.len() as int,
        ),
        !(exists|i: int| 0 <= i < upto && #[trigger] list[i] == neuron) ==> signals(
            ops,
            signal,
            weights,
            errors,
            list,
            upto,
        )[neuron] == signal[neuron],
    decreases upto,
{
    if upto > 0 {
        lemma_signal_given(ops, signal, weights, errors, list, upto - 1, neuron);
        if list[upto - 1] != neuron {
            if exists|i: int| 0 <= i < upto && #[trigger] list[i] == neuron {
                let i = choose|i: int| 0 <= i < upto && #[trigger] list[i] == neuron;
                assert(i < upto - 1);
                assert(list[i] == neuron);
            }
        }
    }
}

/// A neuron is told of the classes that it speaks for: where credit is assigned, an active neuron
/// whose output weight for a class is one, and zero for all others, gets the error of that class as
/// its signal, and one whose output weights are all zero gets none. The same is true of the neurons
/// that eligible synapses reach.
pub proof fn law_neurons_hear_of_their_classes<T: Numerics>(
    ops: T,
    b: Runtime,
    class: int,
    scale: Scalar,
    a: Runtime,
    neuron: int,
    spoken: int,
)
    requires
        orderly(ops),
        told(ops, b, class, scale, a),
        nought().below(scale),
        0 <= class < b.numbers.probabilities@.len(),
        b.numbers.signal@.len() == b.size(),
        all_below(b.active@, b.size()),
        all_below(b.numbers.destinations.list@, b.size()),
        forall|i: int|
            0 <= i < b.recurrent_traces.eligible.list@.len() ==> (
            #[trigger] b.model.recurrent.target_neuron@[b.recurrent_traces.eligible.list@[i] as int])
                < b.size(),
        forall|i: int|
            0 <= i < b.input_traces.eligible.list@.len() ==> (
            #[trigger] b.model.input.targets@[b.input_traces.eligible.list@[i] as int]) < b.size(),
        0 <= neuron < b.size(),
        b.active@.contains(neuron as usize) || ends_of(
            b.recurrent_traces.eligible.list@,
            b.model.recurrent.target_neuron@,
        ).contains(neuron as usize) || ends_of(
            b.input_traces.eligible.list@,
            b.model.input.targets@,
        ).contains(neuron as usize),
        forall|i: int|
            0 <= i < a.numbers.errors@.len() ==> (#[trigger] a.numbers.errors@[i]).finite(),
        forall|i: int|
            0 <= i < a.numbers.errors@.len() && i != spoken ==> zero(
                #[trigger] b.output_weights_by_neuron@[neuron * a.numbers.errors@.len() + i],
            ),
        0 <= spoken < a.numbers.errors@.len() ==> b.output_weights_by_neuron@[neuron
            * a.numbers.errors@.len() + spoken] == unit(),
    ensures
        0 <= spoken < a.numbers.errors@.len() ==> alike(
            a.numbers.signal@[neuron],
            a.numbers.errors@[spoken],
        ),
        !(0 <= spoken < a.numbers.errors@.len()) ==> zero(a.numbers.signal@[neuron]),
{
    reveal(told);
    let errors = a.numbers.errors@;
    let recurrent = ends_of(
        b.recurrent_traces.eligible.list@,
        b.model.recurrent.target_neuron@,
    );
    let input = ends_of(b.input_traces.eligible.list@, b.model.input.targets@);
    let (l0, m0) = accumulated(
        Seq::empty(),
        unmarked(b.size()),
        recurrent,
        recurrent.len() as int,
    );
    let (l1, m1) = accumulated(l0, m0, input, input.len() as int);
    let (list, mark) = told_neurons(b);
    assert(agree(Seq::<usize>::empty(), unmarked(b.size())));
    assert forall|i: int| 0 <= i < recurrent.len() implies (#[trigger] recurrent[i])
        < b.size() by {
        assert(b.model.recurrent.target_neuron@[b.recurrent_traces.eligible.list@[i] as int]
            < b.size());
    }
    assert forall|i: int| 0 <= i < input.len() implies (#[trigger] input[i]) < b.size() by {
        assert(b.model.input.targets@[b.input_traces.eligible.list@[i] as int] < b.size());
    }
    law_accumulation_is_a_union(
        Seq::empty(),
        unmarked(b.size()),
        recurrent,
        recurrent.len() as int,
    );
    law_accumulation_is_a_union(l0, m0, input, input.len() as int);
    law_accumulation_is_a_union(l1, m1, b.active@, b.active@.len() as int);
    assert(recurrent.take(recurrent.len() as int) =~= recurrent);
    assert(input.take(input.len() as int) =~= input);
    assert(b.active@.take(b.active@.len() as int) =~= b.active@);
    assert(list.contains(neuron as usize));
    let i = choose|i: int| 0 <= i < list.len() && list[i] == neuron as usize;
    assert(list[i] == neuron);
    let before = quieted(
        b.numbers.signal@,
        b.numbers.destinations.list@,
        b.numbers.destinations.list@.len() as int,
    );
    lemma_quieted_len(
        b.numbers.signal@,
        b.numbers.destinations.list@,
        b.numbers.destinations.list@.len() as int,
    );
    assert(all_below(list, b.size())) by {
        assert forall|i: int| 0 <= i < list.len() implies (#[trigger] list[i]) < b.size() by {
            assert(list[i] < mark.len());
        }
    }
    lemma_signal_given(
        ops,
        before,
        b.output_weights_by_neuron@,
        errors,
        list,
        list.len() as int,
        neuron,
    );
    lemma_dot_picks(
        ops,
        b.output_weights_by_neuron@,
        neuron * errors.len(),
        errors,
        errors.len() as int,
        spoken,
    );
}

proof fn lemma_quieted_len(signal: Seq<Scalar>, list: Seq<usize>, upto: int)
    requires
        upto <= list.len(),
        all_below(list, signal.len() as int),
    ensures
        quieted(signal, list, upto).len() == signal.len(),
    decreases upto,
{
    if upto > 0 {
        lemma_quieted_len(signal, list, upto - 1);
    }
}

/// Contexts remember that they were seen: after a lesson that went through, each of the contexts of
/// the step was observed once more, as far as that can be counted, and every other one as often as
/// before.
pub proof fn law_lessons_count_their_contexts<T: Numerics>(
    ops: T,
    b: Runtime,
    strength: Scalar,
    a: Runtime,
    r: LeoResult<()>,
    slot: usize,
)
    requires
        context_learned(ops, b, strength, a, r),
        r is Ok,
        b.context_slots@.len() > 0,
        b.context_slots@.no_duplicates(),
        all_below(b.context_slots@, b.model.context.observations@.len() as int),
        0 <= slot < b.model.context.observations@.len(),
    ensures
        b.context_slots@.contains(slot) && b.model.context.observations@[slot as int] < u32::MAX
            ==> a.model.context.observations@[slot as int] == b.model.context.observations@[slot as int] + 1,
        !b.context_slots@.contains(slot) || b.model.context.observations@[slot as int]
            == u32::MAX ==> a.model.context.observations@[slot as int]
            == b.model.context.observations@[slot as int],
{
    reveal(context_learned);
    let rate = ops.product(b.model.config.context.learning_rate.opposite(), strength);
    let lesson = ContextLesson {
        ops,
        rate,
        slots: b.context_slots@,
        scales: b.numbers.context_scales@,
        gradient: latent_gradient(
            ops,
            b.model.context.output_weights@,
            b.numbers.errors@,
            b.model.config.context.embedding_dim as int,
            b.numbers.errors@.len() as int,
        ),
        bounds: b.weight_bounds(),
        enabled: b.tracker.enabled,
    };
    let rows = context_pass(b.model, b.tracker.context_slots);
    let n = b.context_slots@.len() as int;
    lemma_counted(lesson, rows, n, slot);
    assert(context_pass(a.model, a.tracker.context_slots) == lesson.learned(rows, n));
    assert(b.context_slots@.take(n) =~= b.context_slots@);
}

proof fn lemma_counted<T: Numerics>(l: ContextLesson<T>, p: ContextPass, upto: int, slot: usize)
    requires
        0 <= upto <= l.slots.len(),
        l.slots.no_duplicates(),
        all_below(l.slots, p.observations.len() as int),
        0 <= slot < p.observations.len(),
    ensures
        l.learned(p, upto).observations.len() == p.observations.len(),
        l.slots.take(upto).contains(slot) ==> l.learned(p, upto).observations[slot as int]
            == once_more(p.observations[slot as int]),
        !l.slots.take(upto).contains(slot) ==> l.learned(p, upto).observations[slot as int]
            == p.observations[slot as int],
    decreases upto,
{
    if upto > 0 {
        lemma_counted(l, p, upto - 1, slot);
        let last = l.slots[upto - 1];
        let now = l.slots.take(upto);
        let earlier = l.slots.take(upto - 1);
        assert(now =~= earlier.push(last));
        if last == slot {
            assert(now[upto - 1] == slot);
            if earlier.contains(slot) {
                let i = choose|i: int| 0 <= i < earlier.len() && earlier[i] == slot;
                assert(l.slots[i] == l.slots[upto - 1]);
            }
        } else {
            if now.contains(slot) {
                let i = choose|i: int| 0 <= i < now.len() && now[i] == slot;
                assert(earlier[i] == slot);
            }
            if earlier.contains(slot) {
                let i = choose|i: int| 0 <= i < earlier.len() && earlier[i] == slot;
                assert(now[i] == slot);
            }
        }
    }
}

/// The projection of the contexts goes down the loss: the weight of a class and a dimension does not
/// rise where the error of the class and the latent have the same sign, and does not fall where they
/// have opposite ones.
pub proof fn law_projections_descend<T: Numerics>(
    ops: T,
    b: Runtime,
    strength: Scalar,
    a: Runtime,
    r: LeoResult<()>,
    class: int,
    place: int,
)
    requires
        orderly(ops),
        context_learned(ops, b, strength, a, r),
        b.context_slots@.len() > 0,
        learns_soundly(b.model.config),
        plus_or_zero(strength),
        ops.product(b.model.config.context.learning_rate.opposite(), strength).finite(),
        0 <= class < b.numbers.errors@.len(),
        0 <= place < b.numbers.latent@.len(),
        b.model.context.output_weights@.len() == b.numbers.errors@.len() * b.numbers.latent@.len(),
        b.model.context.output_weights@.len() <= usize::MAX,
        ops.product(b.numbers.errors@[class], b.numbers.latent@[place]).finite(),
        within(
            b.model.context.output_weights@[class * b.numbers.latent@.len() + place],
            b.model.config.learning.weight_min,
            b.model.config.learning.weight_max,
        ),
    ensures
        descends(
            b.model.context.output_weights@[class * b.numbers.latent@.len() + place],
            a.model.context.output_weights@[class * b.numbers.latent@.len() + place],
            ops.product(b.numbers.errors@[class], b.numbers.latent@[place]),
        ),
{
    reveal(context_learned);
    let rate = ops.product(b.model.config.context.learning_rate.opposite(), strength);
    let bounds = b.weight_bounds();
    let dim = b.numbers.latent@.len() as int;
    let at = class * dim + place;
    lemma_place(class, place, b.numbers.errors@.len() as int, dim);
    let rule = projection_proposal(ops, rate, b.numbers.errors@, b.numbers.latent@, bounds);
    let places = count_up(b.model.context.output_weights@.len() as int);
    let gradient = ops.product(b.numbers.errors@[class], b.numbers.latent@[place]);
    lemma_descends(ops, b.model.config.context.learning_rate, strength);
    let change = ops.product(rate, gradient);
    assert(!change.nan()) by {
        reveal(products_keep_order);
    }
    lemma_sign(ops, rate, gradient);
    assert forall|w: Seq<Scalar>|
        within(w[at], bounds.low, bounds.high) && (#[trigger] rule(w, at)).finite() implies within(
        rule(w, at),
        bounds.low,
        bounds.high,
    ) && descends(w[at], rule(w, at), gradient) by {
        lemma_nudged_goes(ops, w[at], change, bounds);
    }
    let whole = r is Ok || crate::plasticity::pass_ends(
        rule,
        places,
        unlisted(b.model.context.output_weights@),
        false,
        unlisted(a.model.context.output_weights@),
        true,
    );
    lemma_ended_pass_descends(
        rule,
        places,
        unlisted(b.model.context.output_weights@),
        false,
        unlisted(a.model.context.output_weights@),
        whole,
        at,
        bounds.low,
        bounds.high,
        gradient,
    );
}

pub proof fn lemma_gradient_len<T: Numerics>(
    ops: T,
    weights: Seq<Scalar>,
    errors: Seq<Scalar>,
    dim: int,
    upto: int,
)
    requires
        0 <= dim,
    ensures
        latent_gradient(ops, weights, errors, dim, upto).len() == dim,
    decreases upto,
{
    if upto > 0 {
        lemma_gradient_len(ops, weights, errors, dim, upto - 1);
    }
}

/// A dimension of the latent that speaks for one class only, with a weight of one, has the error of
/// that class as its gradient; one that speaks for none has none.
pub proof fn law_latents_hear_of_their_classes<T: Numerics>(
    ops: T,
    weights: Seq<Scalar>,
    errors: Seq<Scalar>,
    dim: int,
    upto: int,
    place: int,
    spoken: int,
)
    requires
        orderly(ops),
        0 <= place < dim,
        0 <= upto <= errors.len(),
        forall|o: int| 0 <= o < errors.len() ==> (#[trigger] errors[o]).finite(),
        forall|o: int|
            0 <= o < errors.len() && o != spoken ==> zero(#[trigger] weights[o * dim + place]),
        0 <= spoken < upto ==> weights[spoken * dim + place] == unit(),
    ensures
        0 <= spoken < upto ==> alike(
            latent_gradient(ops, weights, errors, dim, upto)[place],
            errors[spoken],
        ),
        spoken < 0 || spoken >= upto ==> zero(
            latent_gradient(ops, weights, errors, dim, upto)[place],
        ),
    decreases upto,
{
    if upto > 0 {
        law_latents_hear_of_their_classes(
            ops, weights, errors, dim, upto - 1, place, spoken,
        );
        lemma_gradient_len(ops, weights, errors, dim, upto - 1);
        let before = latent_gradient(ops, weights, errors, dim, upto - 1)[place];
        let x = weights[(upto - 1) * dim + place];
        let e = errors[upto - 1];
        lemma_product_with_one_and_zero(ops, e, x);
        let p = ops.product(x, e);
        if upto - 1 == spoken {
            lemma_sum_with_zero(ops, p, before);
        } else {
            assert(zero(p));
            lemma_sum_with_zero(ops, before, p);
        }
    }
}

/// The rows of contexts go down the loss: over a lesson that went through, a number of the row of an
/// active context does not rise where the gradient of its dimension is not negative, and does not
/// fall where it is not positive; the rows of other contexts stay as they are.
pub proof fn law_context_rows_descend<T: Numerics>(
    ops: T,
    b: Runtime,
    strength: Scalar,
    a: Runtime,
    r: LeoResult<()>,
    k: int,
    other: int,
    place: int,
)
    requires
        orderly(ops),
        context_learned(ops, b, strength, a, r),
        r is Ok,
        b.context_slots@.len() > 0,
        b.context_slots@.no_duplicates(),
        learns_soundly(b.model.config),
        plus_or_zero(strength),
        ops.product(b.model.config.context.learning_rate.opposite(), strength).finite(),
        all_below(b.context_slots@, b.model.context.observations@.len() as int),
        b.model.context.embeddings@.len() == b.model.context.observations@.len()
            * b.model.config.context.embedding_dim,
        b.model.context.embeddings@.len() <= usize::MAX,
        0 <= k < b.context_slots@.len(),
        0 <= place < b.model.config.context.embedding_dim,
        plus_or_zero(b.numbers.context_scales@[k]),
        b.numbers.context_scales@[k].finite(),
        latent_gradient(
            ops,
            b.model.context.output_weights@,
            b.numbers.errors@,
            b.model.config.context.embedding_dim as int,
            b.numbers.errors@.len() as int,
        )[place].finite(),
        ops.product(
            b.numbers.context_scales@[k],
            latent_gradient(
                ops,
                b.model.context.output_weights@,
                b.numbers.errors@,
                b.model.config.context.embedding_dim as int,
                b.numbers.errors@.len() as int,
            )[place],
        ).finite(),
        within(
            b.model.context.embeddings@[b.context_slots@[k] * b.model.config.context.embedding_dim
                + place],
            b.model.config.learning.weight_min,
            b.model.config.learning.weight_max,
        ),
        0 <= other < b.model.context.observations@.len(),
        forall|i: int| 0 <= i < b.context_slots@.len() ==> (#[trigger] b.context_slots@[i]) != other,
    ensures
        descends(
            b.model.context.embeddings@[b.context_slots@[k] * b.model.config.context.embedding_dim
                + place],
            a.model.context.embeddings@[b.context_slots@[k] * b.model.config.context.embedding_dim
                + place],
            latent_gradient(
                ops,
                b.model.context.output_weights@,
                b.numbers.errors@,
                b.model.config.context.embedding_dim as int,
                b.numbers.errors@.len() as int,
            )[place],
        ),
        a.model.context.embeddings@[other * b.model.config.context.embedding_dim + place]
            == b.model.context.embeddings@[other * b.model.config.context.embedding_dim + place],
{
    reveal(context_learned);
    let dim = b.model.config.context.embedding_dim as int;
    let gradient = latent_gradient(
        ops,
        b.model.context.output_weights@,
        b.numbers.errors@,
        dim,
        b.numbers.errors@.len() as int,
    );
    lemma_gradient_len(
        ops,
        b.model.context.output_weights@,
        b.numbers.errors@,
        dim,
        b.numbers.errors@.len() as int,
    );
    let rate = ops.product(b.model.config.context.learning_rate.opposite(), strength);
    let lesson = ContextLesson {
        ops,
        rate,
        slots: b.context_slots@,
        scales: b.numbers.context_scales@,
        gradient,
        bounds: b.weight_bounds(),
        enabled: b.tracker.enabled,
    };
    let rows = context_pass(b.model, b.tracker.context_slots);
    let n = b.context_slots@.len() as int;
    let count = b.model.context.observations@.len() as int;
    let g = gradient[place];
    let share = ops.product(b.numbers.context_scales@[k], g);
    lemma_sign(ops, b.numbers.context_scales@[k], g);
    lemma_descends(ops, b.model.config.context.learning_rate, strength);
    assert(!ops.product(rate, share).nan()) by {
        reveal(products_keep_order);
    }
    lemma_sign(ops, rate, share);
    lemma_row_descends(lesson, rows, n, k, place, count);
    lemma_row_stays(lesson, rows, n, other, place, count);
}

/// Rows of contexts do not overlap.
pub proof fn lemma_rows_apart(slot: int, other: int, dim: int, i: int, place: int)
    requires
        slot != other,
        0 <= i < dim,
        0 <= place < dim,
    ensures
        slot * dim + i != other * dim + place,
{
    assert(slot * dim + i != other * dim + place) by (nonlinear_arith)
        requires
            slot != other,
            0 <= i < dim,
            0 <= place < dim,
    ;
}

pub proof fn lemma_row_places(slot: int, dim: int, count: int)
    requires
        0 <= slot < count,
        0 <= dim,
        count * dim <= usize::MAX,
    ensures
        all_below(row_of(slot, dim), count * dim),
        row_of(slot, dim).no_duplicates(),
        forall|i: int| 0 <= i < dim ==> #[trigger] row_of(slot, dim)[i] == slot * dim + i,
{
    assert(0 <= slot * dim && slot * dim + dim <= count * dim) by (nonlinear_arith)
        requires
            0 <= slot < count,
            0 <= dim,
    ;
}

pub proof fn lemma_row_stays<T: Numerics>(
    l: ContextLesson<T>,
    p: ContextPass,
    upto: int,
    other: int,
    place: int,
    count: int,
)
    requires
        0 <= upto <= l.slots.len(),
        all_below(l.slots, count),
        p.embeddings.len() == count * l.gradient.len(),
        p.embeddings.len() <= usize::MAX,
        0 <= other < count,
        0 <= place < l.gradient.len(),
        forall|i: int| 0 <= i < upto ==> (#[trigger] l.slots[i]) != other,
    ensures
        l.learned(p, upto).embeddings.len() == p.embeddings.len(),
        l.learned(p, upto).embeddings[other * l.gradient.len() + place] == p.embeddings[other
            * l.gradient.len() + place],
    decreases upto,
{
    let dim = l.gradient.len() as int;
    lemma_place(other, place, count, dim);
    if upto > 0 {
        lemma_row_stays(l, p, upto - 1, other, place, count);
        let before = l.learned(p, upto - 1);
        let slot = l.slots[upto - 1] as int;
        lemma_row_places(slot, dim, count);
        assert forall|i: int| 0 <= i < dim implies (#[trigger] l.row(upto - 1)[i]) != other * dim
            + place by {
            lemma_rows_apart(slot, other, dim, i, place);
        }
        crate::learning_laws::lemma_pass_leaves(
            l.proposal(upto - 1),
            l.row(upto - 1),
            unlisted(before.embeddings),
            false,
            dim,
            other * dim + place,
        );
        lemma_pass_len(
            l.proposal(upto - 1),
            l.row(upto - 1),
            unlisted(before.embeddings),
            false,
            dim,
        );
    }
}

proof fn lemma_row_descends<T: Numerics>(
    l: ContextLesson<T>,
    p: ContextPass,
    upto: int,
    k: int,
    place: int,
    count: int,
)
    requires
        orderly(l.ops),
        0 <= k < upto <= l.slots.len(),
        l.slots.no_duplicates(),
        all_below(l.slots, count),
        p.embeddings.len() == count * l.gradient.len(),
        p.embeddings.len() <= usize::MAX,
        0 <= place < l.gradient.len(),
        plus_or_zero(l.bounds.update),
        l.bounds.update.finite(),
        l.bounds.low.finite(),
        l.bounds.high.finite(),
        !l.ops.product(l.rate, l.ops.product(l.scales[k], l.gradient[place])).nan(),
        plus_or_zero(l.gradient[place]) ==> minus_or_zero(
            l.ops.product(l.rate, l.ops.product(l.scales[k], l.gradient[place])),
        ),
        minus_or_zero(l.gradient[place]) ==> plus_or_zero(
            l.ops.product(l.rate, l.ops.product(l.scales[k], l.gradient[place])),
        ),
        within(
            p.embeddings[l.slots[k] * l.gradient.len() + place],
            l.bounds.low,
            l.bounds.high,
        ),
    ensures
        l.learned(p, upto).embeddings.len() == p.embeddings.len(),
        descends(
            p.embeddings[l.slots[k] * l.gradient.len() + place],
            l.learned(p, upto).embeddings[l.slots[k] * l.gradient.len() + place],
            l.gradient[place],
        ),
    decreases upto,
{
    let dim = l.gradient.len() as int;
    let slot = l.slots[k] as int;
    let at = slot * dim + place;
    lemma_place(slot, place, count, dim);
    let before = l.learned(p, upto - 1);
    let last = l.slots[upto - 1] as int;
    lemma_row_places(last, dim, count);
    if upto - 1 == k {
        assert forall|i: int| 0 <= i < k implies (#[trigger] l.slots[i]) != slot by {}
        lemma_row_stays(l, p, k, slot, place, count);
        let rule = l.proposal(k);
        let change = l.ops.product(l.rate, l.ops.product(l.scales[k], l.gradient[place]));
        assert forall|w: Seq<Scalar>|
            within(w[at], l.bounds.low, l.bounds.high) implies within(
            #[trigger] rule(w, at),
            l.bounds.low,
            l.bounds.high,
        ) && descends(w[at], rule(w, at), l.gradient[place]) by {
            lemma_nudged_goes(l.ops, w[at], change, l.bounds);
        }
        lemma_plain_pass_descends(
            rule,
            l.row(k),
            unlisted(before.embeddings),
            dim,
            at,
            l.bounds.low,
            l.bounds.high,
            l.gradient[place],
        );
    } else {
        lemma_row_descends(l, p, upto - 1, k, place, count);
        assert(last != slot);
        assert forall|i: int| 0 <= i < dim implies (#[trigger] l.row(upto - 1)[i]) != at by {
            lemma_rows_apart(last, slot, dim, i, place);
        }
        crate::learning_laws::lemma_pass_leaves(
            l.proposal(upto - 1),
            l.row(upto - 1),
            unlisted(before.embeddings),
            false,
            dim,
            at,
        );
    }
    lemma_pass_len(
        l.proposal(upto - 1),
        l.row(upto - 1),
        unlisted(before.embeddings),
        false,
        dim,
    );
}

/// Inhibition holds activity at its target: an inhibitory weight onto a neuron that is active does
/// not rise, so that it inhibits no less, and one onto a silent neuron does not fall. The weights of
/// excitatory neurons are left alone.
pub proof fn law_inhibition_is_balanced<T: Numerics>(
    ops: T,
    b: Runtime,
    strength: Scalar,
    a: Runtime,
    whole: bool,
    slot: int,
)
    requires
        orderly(ops),
        balanced(ops, b, strength, a, whole),
        learns_soundly(b.model.config),
        plus_or_zero(strength),
        strength.finite(),
        plus_or_zero(b.model.config.dynamics.target_activity),
        b.model.config.dynamics.target_activity.at_most(unit()),
        0 < b.model.recurrent.capacity_per_neuron,
        b.model.recurrent.weight@.len() == b.size() * b.model.recurrent.capacity_per_neuron,
        b.model.recurrent.weight@.len() <= usize::MAX,
        all_below(b.active@, b.size()),
        0 <= slot < b.model.recurrent.weight@.len(),
        ({
            let source = b.state.activation@[slot / b.model.recurrent.capacity_per_neuron as int];
            let rate = ops.product(
                b.model.config.learning.inhibitory_learning_rate.opposite(),
                strength,
            );
            &&& plus_or_zero(source) && source.finite()
            &&& rate.finite()
            &&& ops.product(rate, source).finite()
        }),
        within(
            b.model.recurrent.weight@[slot],
            b.model.config.learning.weight_min,
            nought(),
        ),
    ensures
        b.model.neurons.neuron_type[slot / b.model.recurrent.capacity_per_neuron as int] != 0 ==> {
            &&& nought().below(
                b.state.activation@[b.model.recurrent.target_neuron@[slot] as int],
            ) ==> a.model.recurrent.weight@[slot].at_most(b.model.recurrent.weight@[slot])
            &&& !nought().below(
                b.state.activation@[b.model.recurrent.target_neuron@[slot] as int],
            ) ==> b.model.recurrent.weight@[slot].at_most(a.model.recurrent.weight@[slot])
        },
        b.model.neurons.neuron_type[slot / b.model.recurrent.capacity_per_neuron as int] == 0
            ==> a.model.recurrent.weight@[slot] == b.model.recurrent.weight@[slot],
{
    reveal(balanced);
    let m = b.model;
    let capacity = m.recurrent.capacity_per_neuron as int;
    let l = m.config.learning;
    let desired = m.config.dynamics.target_activity;
    let rule = inhibitory_proposal(
        ops,
        m,
        b.state.activation@,
        desired,
        l.inhibitory_learning_rate,
        strength,
        l.max_update,
        l.weight_min,
    );
    let places = inhibitory_slots(m, b.active@, b.active@.len() as int);
    let start = pass_of(m.recurrent.weight@, b.tracker.recurrent_weight);
    let end = pass_of(a.model.recurrent.weight@, a.tracker.recurrent_weight);
    lemma_inhibitory_places(m, b.active@, b.active@.len() as int, b.size());
    let target = b.state.activation@[m.recurrent.target_neuron@[slot] as int];
    let seen = if nought().below(target) {
        unit()
    } else {
        nought()
    };
    let error = ops.difference(seen, desired);
    assert(!error.nan() && (seen == unit() ==> plus_or_zero(error)) && (seen == nought()
        ==> minus_or_zero(error)) && error.finite()) by {
        lemma_activity_error(ops, seen, desired);
    }
    let source = b.state.activation@[slot / capacity];
    let rate = ops.product(l.inhibitory_learning_rate.opposite(), strength);
    lemma_descends(ops, l.inhibitory_learning_rate, strength);
    lemma_sign(ops, rate, source);
    let step = ops.product(ops.product(rate, source), error);
    assert(!step.nan()) by {
        reveal(products_keep_order);
    }
    lemma_sign(ops, ops.product(rate, source), error);
    lemma_bounded(step, l.max_update);
    let change = bounded(step, l.max_update);
    assert forall|w: Seq<Scalar>|
        within(w[slot], l.weight_min, nought()) && (#[trigger] rule(w, slot)).finite() implies within(
        rule(w, slot),
        l.weight_min,
        nought(),
    ) && descends(w[slot], rule(w, slot), error) by {
        let s = ops.sum(w[slot], change);
        lemma_sum_with_zero(ops, w[slot], nought());
        reveal(sums_keep_order);
        assert(w[slot].finite());
        assert(!s.nan());
        assert(plus_or_zero(error) ==> s.at_most(ops.sum(w[slot], nought())));
        assert(minus_or_zero(error) ==> ops.sum(w[slot], nought()).at_most(s));
    }
    lemma_ended_pass_descends(
        rule,
        places,
        start,
        b.tracker.enabled,
        end,
        whole,
        slot,
        l.weight_min,
        nought(),
        error,
    );
    if m.neurons.neuron_type[slot / capacity] == 0 {
        law_balancing_leaves_excitation(ops, b, strength, a, whole, slot);
    }
}

/// Balancing inhibition is about inhibition alone: the weights of excitatory neurons stay as they
/// are.
pub proof fn law_balancing_leaves_excitation<T: Numerics>(
    ops: T,
    b: Runtime,
    strength: Scalar,
    a: Runtime,
    whole: bool,
    slot: int,
)
    requires
        balanced(ops, b, strength, a, whole),
        0 < b.model.recurrent.capacity_per_neuron,
        b.model.recurrent.weight@.len() == b.size() * b.model.recurrent.capacity_per_neuron,
        b.model.recurrent.weight@.len() <= usize::MAX,
        all_below(b.active@, b.size()),
        0 <= slot < b.model.recurrent.weight@.len(),
        b.model.neurons.neuron_type[slot / b.model.recurrent.capacity_per_neuron as int] == 0,
    ensures
        a.model.recurrent.weight@[slot] == b.model.recurrent.weight@[slot],
{
    reveal(balanced);
    let m = b.model;
    let capacity = m.recurrent.capacity_per_neuron as int;
    let l = m.config.learning;
    let rule = inhibitory_proposal(
        ops,
        m,
        b.state.activation@,
        m.config.dynamics.target_activity,
        l.inhibitory_learning_rate,
        strength,
        l.max_update,
        l.weight_min,
    );
    let places = inhibitory_slots(m, b.active@, b.active@.len() as int);
    let start = pass_of(m.recurrent.weight@, b.tracker.recurrent_weight);
    let end = pass_of(a.model.recurrent.weight@, a.tracker.recurrent_weight);
    lemma_inhibitory_places(m, b.active@, b.active@.len() as int, b.size());
    let done = if whole {
        places.len() as int
    } else {
        choose|i: int|
            #[trigger] stops_at(rule, places, start, b.tracker.enabled, i) && end == passed(
                rule,
                places,
                start,
                b.tracker.enabled,
                i,
            )
    };
    assert forall|i: int| 0 <= i < done implies (#[trigger] places[i]) != slot by {
        assert(m.neurons.neuron_type[places[i] as int / capacity] != 0);
    }
    crate::learning_laws::lemma_pass_leaves(rule, places, start, b.tracker.enabled, done, slot);
}

proof fn lemma_activity_error<T: Numerics>(ops: T, seen: Scalar, desired: Scalar)
    requires
        orderly(ops),
        seen == unit() || seen == nought(),
        plus_or_zero(desired),
        desired.at_most(unit()),
    ensures
        ops.difference(seen, desired).finite(),
        seen == unit() ==> plus_or_zero(ops.difference(seen, desired)),
        seen == nought() ==> minus_or_zero(ops.difference(seen, desired)),
{
    reveal(differences_keep_order);
    assert(desired.finite() && unit().finite());
    let e = ops.difference(seen, desired);
    assert(!e.nan());
    let one = ops.difference(unit(), nought());
    let none = ops.difference(unit(), unit());
    let least = ops.difference(nought(), unit());
    assert(alike(one, unit()) && zero(none) && mirrored(least, unit()));
    if seen == unit() {
        assert(none.at_most(e) && e.at_most(one));
    } else {
        assert(least.at_most(e));
        assert(zero(ops.difference(nought(), nought())));
        assert(e.at_most(ops.difference(nought(), nought())));
    }
}

pub proof fn lemma_inhibitory_places(
    m: crate::model::Model,
    active: Seq<usize>,
    upto: int,
    neurons: int,
)
    requires
        0 <= upto <= active.len(),
        all_below(active, neurons),
        0 < m.recurrent.capacity_per_neuron,
        m.recurrent.weight@.len() == neurons * m.recurrent.capacity_per_neuron,
        m.recurrent.weight@.len() <= usize::MAX,
    ensures
        all_below(inhibitory_slots(m, active, upto), m.recurrent.weight@.len() as int),
        forall|i: int|
            0 <= i < inhibitory_slots(m, active, upto).len() ==> m.neurons.neuron_type[(
            #[trigger] inhibitory_slots(m, active, upto)[i]) as int
                / m.recurrent.capacity_per_neuron as int] != 0,
    decreases upto,
{
    if upto > 0 {
        lemma_inhibitory_places(m, active, upto - 1, neurons);
        let before = inhibitory_slots(m, active, upto - 1);
        let all = inhibitory_slots(m, active, upto);
        let source = active[upto - 1] as int;
        let capacity = m.recurrent.capacity_per_neuron as int;
        assert forall|i: int| 0 <= i < all.len() implies (#[trigger] all[i])
            < m.recurrent.weight@.len() && m.neurons.neuron_type[all[i] as int / capacity] != 0 by {
            if i < before.len() {
                assert(all[i] == before[i]);
            } else {
                lemma_place(source, i - before.len(), neurons, capacity);
            }
        }
    }
}

/// Thresholds hold activity at its target: the threshold of an active neuron does not fall where the
/// population is at least as active as it should be, and that of a silent neuron does not rise where
/// the population is at most as active. A threshold stays between a twentieth and two.
pub proof fn law_thresholds_are_balanced<T: Numerics>(
    ops: T,
    b: Runtime,
    a: Runtime,
    neuron: int,
)
    requires
        orderly(ops),
        thresholds_moved(ops, b, a),
        all_below(b.touched.list@, b.model.neurons.threshold@.len() as int),
        0 <= neuron < b.model.neurons.threshold@.len(),
        plus_or_zero(b.model.config.dynamics.target_activity),
        b.model.config.dynamics.target_activity.at_most(unit()),
        plus_or_zero(b.model.config.dynamics.threshold_homeostasis_rate),
        b.model.config.dynamics.threshold_homeostasis_rate.finite(),
        ops.difference(
            share(ops, b.active@.len() as int, b.size()),
            b.model.config.dynamics.target_activity,
        ).finite(),
        within(
            b.model.neurons.threshold@[neuron],
            Scalar { bits: 0x3d4c_cccd },
            Scalar { bits: 0x4000_0000 },
        ),
    ensures
        ({
            let d = b.model.config.dynamics;
            let crowd = share(ops, b.active@.len() as int, b.size());
            let before = b.model.neurons.threshold@[neuron];
            let after = a.model.neurons.threshold@[neuron];
            let lively = nought().below(b.state.activation@[neuron]);
            &&& lively && d.target_activity.at_most(crowd) ==> before.at_most(after) || after.nan()
            &&& !lively && crowd.at_most(d.target_activity) ==> after.at_most(before) || after.nan()
            &&& !after.nan() ==> within(
                after,
                Scalar { bits: 0x3d4c_cccd },
                Scalar { bits: 0x4000_0000 },
            )
        }),
{
    reveal(thresholds_moved);
    let d = b.model.config.dynamics;
    let crowd = share(ops, b.active@.len() as int, b.size());
    let population = ops.difference(crowd, d.target_activity);
    let rule = threshold_proposal(
        ops,
        b.state.activation@,
        d.target_activity,
        d.threshold_homeostasis_rate,
        population,
    );
    let low = Scalar { bits: 0x3d4c_cccd };
    let high = Scalar { bits: 0x4000_0000 };
    let local = if nought().below(b.state.activation@[neuron]) {
        unit()
    } else {
        nought()
    };
    lemma_activity_error(ops, local, d.target_activity);
    let own = ops.difference(local, d.target_activity);
    let error = ops.sum(own, population);
    reveal(sums_keep_order);
    assert(!error.nan());
    assert(d.target_activity.finite());
    if d.target_activity.at_most(crowd) {
        assert(plus_or_zero(population)) by {
            reveal(differences_keep_order);
            assert(zero(ops.difference(d.target_activity, d.target_activity)));
        }
    }
    if crowd.at_most(d.target_activity) {
        assert(minus_or_zero(population)) by {
            reveal(differences_keep_order);
            assert(zero(ops.difference(d.target_activity, d.target_activity)));
        }
    }
    let rest = ops.sum(nought(), nought());
    assert(zero(rest));
    if plus_or_zero(own) && plus_or_zero(population) {
        assert(rest.at_most(error));
    }
    if minus_or_zero(own) && minus_or_zero(population) {
        assert(error.at_most(rest));
    }
    let step = ops.product(d.threshold_homeostasis_rate, error);
    if !step.nan() {
        lemma_sign(ops, d.threshold_homeostasis_rate, error);
    }
    // Where the error is turned round, the threshold goes down the loss.
    let turned = error.opposite();
    assert forall|w: Seq<Scalar>|
        sound_threshold(w[neuron]) implies sound_threshold(
        #[trigger] rule(w, neuron),
    ) && (rule(w, neuron).nan() || w[neuron].nan() || descends(w[neuron], rule(w, neuron), turned)) by {
        if !w[neuron].nan() {
            lemma_sum_with_zero(ops, w[neuron], nought());
            let s = ops.sum(w[neuron], step);
            if !s.nan() {
                assert(plus_or_zero(step) ==> ops.sum(w[neuron], nought()).at_most(s));
                assert(minus_or_zero(step) ==> s.at_most(ops.sum(w[neuron], nought())));
            }
        }
    }
    assert forall|w: Seq<Scalar>| w[neuron].nan() implies (#[trigger] rule(w, neuron)).nan() by {
        assert(ops.sum(w[neuron], step).nan());
    }
    lemma_threshold_pass(
        rule,
        b.touched.list@,
        pass_of(b.model.neurons.threshold@, b.tracker.threshold),
        b.tracker.enabled,
        b.touched.list@.len() as int,
        neuron,
        turned,
    );
}

/// A threshold within its bounds, or no number.
pub open spec fn sound_threshold(w: Scalar) -> bool {
    w.nan() || within(w, Scalar { bits: 0x3d4c_cccd }, Scalar { bits: 0x4000_0000 })
}

proof fn lemma_threshold_pass(
    propose: spec_fn(Seq<Scalar>, int) -> Scalar,
    places: Seq<usize>,
    p: WeightPass,
    enabled: bool,
    upto: int,
    place: int,
    gradient: Scalar,
)
    requires
        0 <= upto <= places.len(),
        all_below(places, p.weights.len() as int),
        0 <= place < p.weights.len(),
        sound_threshold(p.weights[place]),
        !p.weights[place].nan(),
        forall|w: Seq<Scalar>|
            sound_threshold(w[place]) ==> sound_threshold(#[trigger] propose(w, place)) && (propose(
                w,
                place,
            ).nan() || w[place].nan() || descends(w[place], propose(w, place), gradient)),
        forall|w: Seq<Scalar>| w[place].nan() ==> (#[trigger] propose(w, place)).nan(),
    ensures
        ({
            let after = passed(propose, places, p, enabled, upto).weights[place];
            &&& sound_threshold(after)
            &&& after.nan() || descends(p.weights[place], after, gradient)
        }),
    decreases upto,
{
    if upto > 0 {
        lemma_threshold_pass(propose, places, p, enabled, upto - 1, place, gradient);
        lemma_pass_len(propose, places, p, enabled, upto - 1);
    }
}

} // verus!
