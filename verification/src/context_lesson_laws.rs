//! How far a lesson moves what contexts say.

use crate::arithmetic::Numerics;
use crate::context_learning::{
    context_pass, latent_gradient, projection_proposal, ContextLesson, ContextPass,
};
use crate::error::LeoError;
use crate::learning::unit;
use crate::learning_laws::{
    lemma_lone_change, lemma_nudged_from_zero, lemma_pass_leaves, lemma_pass_len,
    lemma_passed_once, Factors,
};
use crate::lesson_laws::{
    lemma_gradient_len, lemma_row_places, lemma_row_stays, lemma_rows_apart,
};
use crate::lesson_parts::context_learned;
use crate::order::{alike, lemma_ones, minus_one, minus_or_zero, orderly, zero};
use crate::plasticity::{count_up, passed, unlisted};
use crate::runtime::{all_below, lemma_place, Runtime};
use crate::scalar::Scalar;
use vstd::prelude::*;

verus! {

/// What the shared projection learns is the product of learning rate, strength, error and latent: a
/// weight of zero takes on the value of any one of them, within the bounds, where the others are one
/// and the error is negative.
pub proof fn law_projections_learn_in_proportion<T: Numerics>(
    ops: T,
    b: Runtime,
    strength: Scalar,
    a: Runtime,
    class: int,
    place: int,
    free: Scalar,
)
    requires
        orderly(ops),
        context_learned(ops, b, strength, a, Ok::<(), LeoError>(())),
        b.context_slots@.len() > 0,
        0 <= class < b.numbers.errors@.len(),
        0 <= place < b.numbers.latent@.len(),
        b.model.context.output_weights@.len() == b.numbers.errors@.len() * b.numbers.latent@.len(),
        b.model.context.output_weights@.len() <= usize::MAX,
        zero(b.model.context.output_weights@[class * b.numbers.latent@.len() + place]),
        (Factors {
            rate: b.model.config.context.learning_rate,
            strength,
            error: b.numbers.errors@[class],
            share: b.numbers.latent@[place],
        }).lone(free),
        free.at_most(b.model.config.learning.max_update),
        free.at_most(b.model.config.learning.weight_max),
        minus_or_zero(b.model.config.learning.weight_min),
    ensures
        alike(
            a.model.context.output_weights@[class * b.numbers.latent@.len() + place],
            free,
        ),
{
    reveal(context_learned);
    let rate = ops.product(b.model.config.context.learning_rate.opposite(), strength);
    let bounds = b.weight_bounds();
    let dim = b.numbers.latent@.len() as int;
    let at = class * dim + place;
    lemma_place(class, place, b.numbers.errors@.len() as int, dim);
    let rule = projection_proposal(ops, rate, b.numbers.errors@, b.numbers.latent@, bounds);
    let n = b.model.context.output_weights@.len() as int;
    let places = count_up(n);
    let start = unlisted(b.model.context.output_weights@);
    lemma_lone_change(
        ops,
        Factors {
            rate: b.model.config.context.learning_rate,
            strength,
            error: b.numbers.errors@[class],
            share: b.numbers.latent@[place],
        },
        free,
    );
    vstd::arithmetic::div_mod::lemma_fundamental_div_mod_converse(at, dim, class, place);
    assert(places[at] == at);
    lemma_passed_once(rule, places, start, false, n, at);
    let w = passed(rule, places, start, false, at).weights;
    lemma_nudged_from_zero(ops, w[at], free, bounds);
}

/// A number of the row of a context is changed once, by what is proposed for it.
proof fn lemma_row_is_moved<T: Numerics>(
    l: ContextLesson<T>,
    p: ContextPass,
    upto: int,
    k: int,
    place: int,
    count: int,
) -> (w: Seq<Scalar>)
    requires
        0 <= k < upto <= l.slots.len(),
        l.slots.no_duplicates(),
        all_below(l.slots, count),
        p.embeddings.len() == count * l.gradient.len(),
        p.embeddings.len() <= usize::MAX,
        0 <= place < l.gradient.len(),
    ensures
        l.learned(p, upto).embeddings.len() == p.embeddings.len(),
        ({
            let at = l.slots[k] * l.gradient.len() + place;
            &&& w[at] == p.embeddings[at]
            &&& l.learned(p, upto).embeddings[at] == l.proposal(k)(w, at)
        }),
    decreases upto,
{
    let dim = l.gradient.len() as int;
    let slot = l.slots[k] as int;
    let at = slot * dim + place;
    lemma_place(slot, place, count, dim);
    let before = l.learned(p, upto - 1);
    let last = l.slots[upto - 1] as int;
    lemma_row_places(last, dim, count);
    if upto - 1 == k {
        assert forall|i: int| 0 <= i < k implies (#[trigger] l.slots[i]) != slot by {}
        lemma_row_stays(l, p, k, slot, place, count);
        let start = unlisted(before.embeddings);
        assert(l.row(k)[place] == at);
        lemma_passed_once(l.proposal(k), l.row(k), start, false, dim, place);
        lemma_pass_len(
            l.proposal(upto - 1),
            l.row(upto - 1),
            unlisted(before.embeddings),
            false,
            dim,
        );
        passed(l.proposal(k), l.row(k), start, false, place).weights
    } else {
        let w = lemma_row_is_moved(l, p, upto - 1, k, place, count);
        assert(last != slot);
        assert forall|i: int| 0 <= i < dim implies (#[trigger] l.row(upto - 1)[i]) != at by {
            lemma_rows_apart(last, slot, dim, i, place);
        }
        lemma_pass_leaves(
            l.proposal(upto - 1),
            l.row(upto - 1),
            unlisted(before.embeddings),
            false,
            dim,
            at,
        );
        lemma_pass_len(
            l.proposal(upto - 1),
            l.row(upto - 1),
            unlisted(before.embeddings),
            false,
            dim,
        );
        w
    }
}

/// What the row of a context learns is the product of learning rate, strength, gradient and the share
/// that the context had in the prediction: a number of zero takes on the value of any one of them,
/// within the bounds, where the others are one and the gradient is negative.
pub proof fn law_context_rows_learn_in_proportion<T: Numerics>(
    ops: T,
    b: Runtime,
    strength: Scalar,
    a: Runtime,
    k: int,
    place: int,
    free: Scalar,
)
    requires
        orderly(ops),
        context_learned(ops, b, strength, a, Ok::<(), LeoError>(())),
        b.context_slots@.no_duplicates(),
        all_below(b.context_slots@, b.model.context.observations@.len() as int),
        b.model.context.embeddings@.len() == b.model.context.observations@.len()
            * b.model.config.context.embedding_dim,
        b.model.context.embeddings@.len() <= usize::MAX,
        0 <= k < b.context_slots@.len(),
        0 <= place < b.model.config.context.embedding_dim,
        zero(
            b.model.context.embeddings@[b.context_slots@[k] * b.model.config.context.embedding_dim
                + place],
        ),
        (Factors {
            rate: b.model.config.context.learning_rate,
            strength,
            error: latent_gradient(
                ops,
                b.model.context.output_weights@,
                b.numbers.errors@,
                b.model.config.context.embedding_dim as int,
                b.numbers.errors@.len() as int,
            )[place],
            share: b.numbers.context_scales@[k],
        }).lone(free),
        free.at_most(b.model.config.learning.max_update),
        free.at_most(b.model.config.learning.weight_max),
        minus_or_zero(b.model.config.learning.weight_min),
    ensures
        alike(
            a.model.context.embeddings@[b.context_slots@[k] * b.model.config.context.embedding_dim
                + place],
            free,
        ),
{
    reveal(context_learned);
    let dim = b.model.config.context.embedding_dim as int;
    let gradient = latent_gradient(
        ops,
        b.model.context.output_weights@,
        b.numbers.errors@,
        dim,
        b.numbers.errors@.len() as int,
    );
    lemma_gradient_len(
        ops,
        b.model.context.output_weights@,
        b.numbers.errors@,
        dim,
        b.numbers.errors@.len() as int,
    );
    let rate = ops.product(b.model.config.context.learning_rate.opposite(), strength);
    let lesson = ContextLesson {
        ops,
        rate,
        slots: b.context_slots@,
        scales: b.numbers.context_scales@,
        gradient,
        bounds: b.weight_bounds(),
        enabled: b.tracker.enabled,
    };
    let rows = context_pass(b.model, b.tracker.context_slots);
    let n = b.context_slots@.len() as int;
    let count = b.model.context.observations@.len() as int;
    let f = Factors {
        rate: b.model.config.context.learning_rate,
        strength,
        error: gradient[place],
        share: b.numbers.context_scales@[k],
    };
    lemma_lone_change(ops, f, free);
    let change = ops.product(rate, ops.product(f.share, f.error));
    assert(change == free) by {
        assert(!zero(free) && !zero(free.opposite()) && !zero(unit()) && !zero(minus_one()));
        assert(free.opposite().opposite() == free);
        lemma_ones(ops, free);
        lemma_ones(ops, free.opposite());
        lemma_ones(ops, unit());
        lemma_ones(ops, minus_one());
    }
    let w = lemma_row_is_moved(lesson, rows, n, k, place, count);
    let at = b.context_slots@[k] * dim + place;
    assert(at - b.context_slots@[k] * dim == place);
    lemma_nudged_from_zero(ops, w[at], free, b.weight_bounds());
}

} // verus!
