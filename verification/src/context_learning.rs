//! Learning of the context memory: the shared projection and the rows of the active contexts.

use crate::arithmetic::Numerics;
use crate::learning::nought;
use crate::marks::{marked_once, MarkList};
use crate::model::{lemma_row_fits, Model};
use crate::plasticity::{
    count_up, entered, nudge, nudged, pass_ends, pass_so_far, passed, sound_at, stops_at, unlisted,
    Bounds, WeightPass,
};
use crate::prediction::{blank, blank_list, row_added};
use crate::runtime::{all_below, lemma_place, note};
use crate::scalar::Scalar;
use vstd::prelude::*;

verus! {

/// How the loss follows the context latent: the errors of the first `upto` classes, weighed by
/// their rows of the projection.
pub open spec fn latent_gradient<T: Numerics>(
    ops: T,
    output_weights: Seq<Scalar>,
    errors: Seq<Scalar>,
    dim: int,
    upto: int,
) -> Seq<Scalar>
    decreases upto,
{
    if upto <= 0 {
        blank(dim)
    } else {
        row_added(
            ops,
            latent_gradient(ops, output_weights, errors, dim, upto - 1),
            output_weights,
            upto - 1,
            errors[upto - 1],
        )
    }
}

/// How the loss follows the context latent.
pub fn context_gradient<T: Numerics>(
    ops: &T,
    output_weights: &Vec<Scalar>,
    errors: &Vec<Scalar>,
    dim: usize,
) -> (r: Vec<Scalar>)
    requires
        ops.ready(),
        output_weights.len() == errors.len() * dim,
    ensures
        r@ == latent_gradient(*ops, output_weights@, errors@, dim as int, errors@.len() as int),
        r.len() == dim,
{
    let mut r: Vec<Scalar> = blank_list(dim);
    let mut o: usize = 0;
    while o < errors.len()
        invariant
            o <= errors.len(),
            ops.ready(),
            output_weights.len() == errors.len() * dim,
            r.len() == dim,
            r@ == latent_gradient(*ops, output_weights@, errors@, dim as int, o as int),
        decreases errors.len() - o,
    {
        proof {
            lemma_row_fits(o as int, errors.len() as int, dim as int);
        }
        crate::prediction::add_row(ops, &mut r, output_weights, o, errors[o]);
        o = o + 1;
    }
    r
}

/// A weight of the projection after a change.
pub open spec fn projection_proposal<T: Numerics>(
    ops: T,
    rate: Scalar,
    errors: Seq<Scalar>,
    latent: Seq<Scalar>,
    b: Bounds,
) -> spec_fn(Seq<Scalar>, int) -> Scalar {
    let dim = latent.len() as int;
    |w: Seq<Scalar>, place: int|
        nudged(
            ops,
            w[place],
            ops.product(rate, ops.product(errors[place / dim], latent[place % dim])),
            b,
        )
}

/// Enters what a pass proposes for its next place, unless it is not finite.
fn put(
    Ghost(propose): Ghost<spec_fn(Seq<Scalar>, int) -> Scalar>,
    Ghost(places): Ghost<Seq<usize>>,
    Ghost(start): Ghost<WeightPass>,
    Ghost(at): Ghost<int>,
    weights: &mut Vec<Scalar>,
    place: usize,
    value: Scalar,
) -> (r: bool)
    requires
        0 <= at < places.len(),
        places[at] == place,
        place < old(weights).len(),
        value == propose(old(weights)@, place as int),
        pass_so_far(propose, places, start, false, unlisted(old(weights)@), at),
    ensures
        final(weights).len() == old(weights).len(),
        r ==> pass_so_far(propose, places, start, false, unlisted(final(weights)@), at + 1),
        !r ==> pass_ends(propose, places, start, false, unlisted(final(weights)@), false),
{
    assert(sound_at(propose, places, start, false, at) == value.finite());
    if !value.is_finite() {
        assert(stops_at(propose, places, start, false, at));
        return false;
    }
    weights.set(place, value);
    assert(unlisted(weights@) =~= entered(
        unlisted(old(weights)@),
        place as int,
        value,
        false,
    ));
    true
}

/// Learns the shared projection from the latent to the classes.
pub fn update_projection<T: Numerics>(
    ops: &T,
    output_weights: &mut Vec<Scalar>,
    errors: &Vec<Scalar>,
    latent: &Vec<Scalar>,
    rate: Scalar,
    b: &Bounds,
) -> (r: bool)
    requires
        ops.ready(),
        nought().at_most(b.update),
        old(output_weights).len() == errors.len() * latent.len(),
    ensures
        final(output_weights).len() == old(output_weights).len(),
        pass_ends(
            projection_proposal(*ops, rate, errors@, latent@, *b),
            count_up(old(output_weights).len() as int),
            unlisted(old(output_weights)@),
            false,
            unlisted(final(output_weights)@),
            r,
        ),
{
    let ghost propose = projection_proposal(*ops, rate, errors@, latent@, *b);
    let ghost places = count_up(output_weights.len() as int);
    let ghost start = unlisted(output_weights@);
    let dim: usize = latent.len();
    let mut o: usize = 0;
    let mut at: usize = 0;
    while o < errors.len()
        invariant
            o <= errors.len(),
            ops.ready(),
            nought().at_most(b.update),
            dim == latent.len(),
            at == o * dim,
            output_weights.len() == errors.len() * latent.len(),
            output_weights.len() == old(output_weights).len(),
            start == unlisted(old(output_weights)@),
            propose == projection_proposal(*ops, rate, errors@, latent@, *b),
            places == count_up(output_weights.len() as int),
            pass_so_far(propose, places, start, false, unlisted(output_weights@), at as int),
        decreases errors.len() - o,
    {
        let mut d: usize = 0;
        while d < dim
            invariant
                d <= dim,
                o < errors.len(),
                ops.ready(),
                nought().at_most(b.update),
                dim == latent.len(),
                at == o * dim + d,
                output_weights.len() == errors.len() * latent.len(),
                output_weights.len() == old(output_weights).len(),
                start == unlisted(old(output_weights)@),
                propose == projection_proposal(*ops, rate, errors@, latent@, *b),
                places == count_up(output_weights.len() as int),
                pass_so_far(propose, places, start, false, unlisted(output_weights@), at as int),
            decreases dim - d,
        {
            proof {
                lemma_place(o as int, d as int, errors.len() as int, dim as int);
            }
            let gradient: Scalar = ops.times(errors[o], latent[d]);
            let value: Scalar = nudge(ops, output_weights[at], ops.times(rate, gradient), b);
            assert(places[at as int] == at);
            let fine: bool = put(
                Ghost(propose),
                Ghost(places),
                Ghost(start),
                Ghost(at as int),
                output_weights,
                at,
                value,
            );
            if !fine {
                return false;
            }
            at = at + 1;
            d = d + 1;
        }
        assert((o + 1) * dim == o * dim + dim) by (nonlinear_arith);
        o = o + 1;
    }
    true
}

/// The places of the row of a slot.
pub open spec fn row_of(slot: int, dim: int) -> Seq<usize> {
    Seq::new(dim as nat, |i: int| (slot * dim + i) as usize)
}

/// A number of the row of a slot after a change: the row has its share of the gradient.
pub open spec fn embedding_proposal<T: Numerics>(
    ops: T,
    rate: Scalar,
    slot: int,
    scale: Scalar,
    gradient: Seq<Scalar>,
    b: Bounds,
) -> spec_fn(Seq<Scalar>, int) -> Scalar {
    let dim = gradient.len() as int;
    |w: Seq<Scalar>, place: int|
        nudged(
            ops,
            w[place],
            ops.product(rate, ops.product(scale, gradient[place - slot * dim])),
            b,
        )
}

fn update_row<T: Numerics>(
    ops: &T,
    embeddings: &mut Vec<Scalar>,
    slot: usize,
    scale: Scalar,
    gradient: &Vec<Scalar>,
    rate: Scalar,
    b: &Bounds,
) -> (r: bool)
    requires
        ops.ready(),
        nought().at_most(b.update),
        slot * gradient.len() + gradient.len() <= old(embeddings).len(),
    ensures
        final(embeddings).len() == old(embeddings).len(),
        pass_ends(
            embedding_proposal(*ops, rate, slot as int, scale, gradient@, *b),
            row_of(slot as int, gradient.len() as int),
            unlisted(old(embeddings)@),
            false,
            unlisted(final(embeddings)@),
            r,
        ),
{
    let dim: usize = gradient.len();
    let ghost propose = embedding_proposal(*ops, rate, slot as int, scale, gradient@, *b);
    let ghost places = row_of(slot as int, dim as int);
    let ghost start = unlisted(embeddings@);
    assert(0 <= slot * dim) by (nonlinear_arith);
    let first: usize = slot * dim;
    let mut d: usize = 0;
    while d < dim
        invariant
            d <= dim,
            ops.ready(),
            nought().at_most(b.update),
            dim == gradient.len(),
            first == slot * dim,
            first + dim <= embeddings.len(),
            embeddings.len() == old(embeddings).len(),
            start == unlisted(old(embeddings)@),
            propose == embedding_proposal(*ops, rate, slot as int, scale, gradient@, *b),
            places == row_of(slot as int, dim as int),
            pass_so_far(propose, places, start, false, unlisted(embeddings@), d as int),
        decreases dim - d,
    {
        let place: usize = first + d;
        let change: Scalar = ops.times(rate, ops.times(scale, gradient[d]));
        let value: Scalar = nudge(ops, embeddings[place], change, b);
        let fine: bool = put(
            Ghost(propose),
            Ghost(places),
            Ghost(start),
            Ghost(d as int),
            embeddings,
            place,
            value,
        );
        if !fine {
            return false;
        }
        d = d + 1;
    }
    true
}

/// The rows of the context memory, how often each was seen, and which have changed.
#[verifier::ext_equal]
pub struct ContextPass {
    pub embeddings: Seq<Scalar>,
    pub observations: Seq<u32>,
    pub list: Seq<usize>,
    pub mark: Seq<bool>,
}

/// One more observation.
pub open spec fn once_more(n: u32) -> u32 {
    if n == u32::MAX {
        n
    } else {
        (n + 1) as u32
    }
}

/// What the learning of contexts is told.
pub struct ContextLesson<T> {
    pub ops: T,
    pub rate: Scalar,
    pub slots: Seq<usize>,
    pub scales: Seq<Scalar>,
    pub gradient: Seq<Scalar>,
    pub bounds: Bounds,
    pub enabled: bool,
}

impl<T: Numerics> ContextLesson<T> {
    /// What is proposed for the row of the `k`-th context.
    pub open spec fn proposal(self, k: int) -> spec_fn(Seq<Scalar>, int) -> Scalar {
        embedding_proposal(
            self.ops,
            self.rate,
            self.slots[k] as int,
            self.scales[k],
            self.gradient,
            self.bounds,
        )
    }

    /// The places of the row of the `k`-th context.
    pub open spec fn row(self, k: int) -> Seq<usize> {
        row_of(self.slots[k] as int, self.gradient.len() as int)
    }

    /// The memory after the first `upto` contexts were learned.
    pub open spec fn learned(self, p: ContextPass, upto: int) -> ContextPass
        decreases upto,
    {
        if upto <= 0 {
            p
        } else {
            let before = self.learned(p, upto - 1);
            let slot = self.slots[upto - 1];
            let (list, mark) = if self.enabled {
                marked_once(before.list, before.mark, slot)
            } else {
                (before.list, before.mark)
            };
            ContextPass {
                embeddings: passed(
                    self.proposal(upto - 1),
                    self.row(upto - 1),
                    unlisted(before.embeddings),
                    false,
                    self.gradient.len() as int,
                ).weights,
                observations: before.observations.update(
                    slot as int,
                    once_more(before.observations[slot as int]),
                ),
                list,
                mark,
            }
        }
    }

    /// Every number of the row of the `k`-th context stays finite.
    pub open spec fn sound(self, p: ContextPass, k: int) -> bool {
        forall|i: int|
            0 <= i < self.gradient.len() ==> #[trigger] sound_at(
                self.proposal(k),
                self.row(k),
                unlisted(self.learned(p, k).embeddings),
                false,
                i,
            )
    }

    /// The learning stops in the row of the `k`-th context: its numbers before the first that
    /// would not be finite are changed, and nothing of the context is noted.
    pub open spec fn stopped(self, p: ContextPass, k: int, after: ContextPass) -> bool {
        let before = self.learned(p, k);
        &&& 0 <= k < self.slots.len()
        &&& forall|j: int| 0 <= j < k ==> #[trigger] self.sound(p, j)
        &&& pass_ends(
            self.proposal(k),
            self.row(k),
            unlisted(before.embeddings),
            false,
            unlisted(after.embeddings),
            false,
        )
        &&& after == (ContextPass { embeddings: after.embeddings, ..before })
    }

    /// All contexts are learned, or the learning stops in a row.
    pub open spec fn ends(self, p: ContextPass, after: ContextPass, whole: bool) -> bool {
        if whole {
            &&& after == self.learned(p, self.slots.len() as int)
            &&& forall|j: int| 0 <= j < self.slots.len() ==> #[trigger] self.sound(p, j)
        } else {
            exists|k: int| #[trigger] self.stopped(p, k, after)
        }
    }
}

/// The context memory of a model, with the list of its changed rows.
pub open spec fn context_pass(m: Model, list: MarkList) -> ContextPass {
    ContextPass {
        embeddings: m.context.embeddings@,
        observations: m.context.observations@,
        list: list.list@,
        mark: list.mark@,
    }
}

/// Learns the rows of the active contexts. Each has the share of the gradient that it had in the
/// prediction.
pub fn update_rows<T: Numerics>(
    ops: &T,
    m: &mut Model,
    list: &mut MarkList,
    enabled: bool,
    slots: &Vec<usize>,
    scales: &Vec<Scalar>,
    gradient: &Vec<Scalar>,
    rate: Scalar,
    b: &Bounds,
) -> (r: bool)
    requires
        ops.ready(),
        nought().at_most(b.update),
        slots.len() == scales.len(),
        all_below(slots@, old(m).context.observations.len() as int),
        old(m).context.embeddings.len() == old(m).context.observations.len() * gradient.len(),
        old(list).wf(),
        enabled ==> old(list).capacity() == old(m).context.observations.len(),
    ensures
        final(list).wf(),
        final(list).capacity() == old(list).capacity(),
        final(m).context.embeddings.len() == old(m).context.embeddings.len(),
        final(m).context.observations.len() == old(m).context.observations.len(),
        *final(m) == (Model {
            context: crate::model::ContextProjection {
                embeddings: final(m).context.embeddings,
                observations: final(m).context.observations,
                ..old(m).context
            },
            ..*old(m)
        }),
        (ContextLesson {
            ops: *ops,
            rate,
            slots: slots@,
            scales: scales@,
            gradient: gradient@,
            bounds: *b,
            enabled,
        }).ends(context_pass(*old(m), *old(list)), context_pass(*final(m), *final(list)), r),
{
    let ghost lesson = ContextLesson {
        ops: *ops,
        rate,
        slots: slots@,
        scales: scales@,
        gradient: gradient@,
        bounds: *b,
        enabled,
    };
    let ghost start = context_pass(*m, *list);
    let rows: usize = m.context.observations.len();
    let mut k: usize = 0;
    while k < slots.len()
        invariant
            k <= slots.len(),
            ops.ready(),
            nought().at_most(b.update),
            slots.len() == scales.len(),
            rows == old(m).context.observations.len(),
            all_below(slots@, rows as int),
            m.context.observations.len() == rows,
            m.context.embeddings.len() == old(m).context.embeddings.len(),
            m.context.embeddings.len() == rows * gradient.len(),
            list.wf(),
            list.capacity() == old(list).capacity(),
            enabled ==> list.capacity() == rows,
            *m == (Model {
                context: crate::model::ContextProjection {
                    embeddings: m.context.embeddings,
                    observations: m.context.observations,
                    ..old(m).context
                },
                ..*old(m)
            }),
            lesson == (ContextLesson {
                ops: *ops,
                rate,
                slots: slots@,
                scales: scales@,
                gradient: gradient@,
                bounds: *b,
                enabled,
            }),
            start == context_pass(*old(m), *old(list)),
            context_pass(*m, *list) == lesson.learned(start, k as int),
            forall|j: int| 0 <= j < k ==> #[trigger] lesson.sound(start, j),
        decreases slots.len() - k,
    {
        let slot: usize = slots[k];
        proof {
            lemma_row_fits(slot as int, rows as int, gradient.len() as int);
        }
        let fine: bool = update_row(
            ops,
            &mut m.context.embeddings,
            slot,
            scales[k],
            gradient,
            rate,
            b,
        );
        if !fine {
            assert(lesson.stopped(start, k as int, context_pass(*m, *list)));
            return false;
        }
        assert(lesson.sound(start, k as int));
        note(enabled, list, slot);
        let seen: u32 = m.context.observations[slot].saturating_add(1);
        m.context.observations.set(slot, seen);
        k = k + 1;
        assert(context_pass(*m, *list) =~= lesson.learned(start, k as int));
    }
    true
}

} // verus!
