//! What a runtime notes of the rows of its context memory.

use crate::arithmetic::Numerics;
use crate::context::{
    as_ints, fingerprint, law_history_is_bounded, lemma_victim_exists, remembered, table_of,
    ContextTable,
};
use crate::context_learning::{context_pass, latent_gradient, ContextLesson, ContextPass};
use crate::error::LeoResult;
use crate::learning::nought;
use crate::lesson::{lesson_taken, EligibilitySum, Lesson, LessonTrace};
use crate::lesson_parts::{
    balanced, context_learned, input_learned, readout_learned, recurrent_learned, told,
};
use crate::metrics::StepMetrics;
use crate::model::{lemma_probe_in_partition, lemma_row_fits, Model};
use crate::permission::Permission;
use crate::plasticity::unlisted;
use crate::runtime::{all_below, opened, OpenedStep, Runtime};
use crate::scalar::Scalar;
use crate::stages::{competed, followed_all, predicted, received, rested, sent};
use crate::step::{
    class_weight, step_closed, step_taken, thresholds_moved, StageTrace, StepTrace,
};
use crate::tracking_laws::{lemma_pass_leaves, lemma_pass_len};
use vstd::prelude::*;

verus! {

/// A row is the same in two context memories: its fingerprint, how often it was seen, and its
/// embedding.
pub open spec fn same_row(s: ContextTable, t: ContextTable, slot: int) -> bool {
    &&& s.keys[slot] == t.keys[slot]
    &&& s.observations[slot] == t.observations[slot]
    &&& forall|i: int|
        slot * s.embedding_dim <= i < slot * s.embedding_dim + s.embedding_dim
            ==> #[trigger] s.embeddings[i] == t.embeddings[i]
}

/// The two context memories have the same size.
pub open spec fn same_extent(s: ContextTable, t: ContextTable) -> bool {
    &&& s.keys.len() == t.keys.len()
    &&& s.observations.len() == t.observations.len()
    &&& s.embeddings.len() == t.embeddings.len()
    &&& s.embedding_dim == t.embedding_dim
    &&& s.max_order == t.max_order
}

/// A runtime that tracks its changes has noted every row in which its context memory differs from
/// that of a model.
pub open spec fn rows_noted(base: Model, r: Runtime) -> bool {
    let s = table_of(base);
    let t = table_of(r.model);
    let mark = r.tracker.context_slots.mark@;
    &&& r.tracker.enabled
    &&& same_extent(s, t)
    &&& mark.len() == t.keys.len()
    &&& forall|slot: int|
        0 <= slot < t.keys.len() ==> #[trigger] mark[slot] || same_row(s, t, slot)
}

/// The context memory already holds every context of a step.
pub open spec fn knows_contexts(r: Runtime, symbol: u32) -> bool {
    let t = table_of(r.model);
    let history = remembered(r.history@, r.model.config.context.max_order as int, symbol);
    t.activate(history, true, history.len() as int).0 == t
}

/// A step leaves no row without a note: it is frozen, or does without the context, or comes to its
/// end having learned from a target or having met contexts that were known.
pub open spec fn rows_settled(
    r: Runtime,
    symbol: u32,
    target: Option<u32>,
    permission: Permission,
    result: LeoResult<StepMetrics>,
) -> bool {
    ||| permission == Permission::Frozen
    ||| !r.context_kept(symbol, permission)
    ||| {
        &&& result is Ok
        &&& {
            ||| target is Some && Scalar { bits: 0 }.below(permission.strength_in(r.model.config))
            ||| knows_contexts(r, symbol)
        }
    }
}

/// A runtime that starts to track has noted every row in which it differs from its own model.
pub proof fn law_rows_start_noted(r: Runtime)
    requires
        r.wf(),
        r.tracker.enabled,
    ensures
        rows_noted(r.model, r),
{
}

proof fn lemma_rows_apart(a: int, b: int, dim: int, i: int)
    requires
        a != b,
        0 <= dim,
        a * dim <= i < a * dim + dim,
    ensures
        !(b * dim <= i < b * dim + dim),
{
    if a < b {
        assert(a * dim + dim <= b * dim) by (nonlinear_arith)
            requires
                a + 1 <= b,
                0 <= dim,
        ;
    } else {
        assert(b * dim + dim <= a * dim) by (nonlinear_arith)
            requires
                b + 1 <= a,
                0 <= dim,
        ;
    }
}

/// A row that is the same in one memory and the next is the same in both.
proof fn lemma_rows_chain(r: ContextTable, s: ContextTable, t: ContextTable, slot: int)
    requires
        same_extent(r, s),
        same_row(r, s, slot),
        same_row(s, t, slot),
    ensures
        same_row(r, t, slot),
{
    assert forall|i: int|
        slot * r.embedding_dim <= i < slot * r.embedding_dim
            + r.embedding_dim implies #[trigger] r.embeddings[i] == t.embeddings[i] by {
        assert(s.embeddings[i] == t.embeddings[i]);
    }
}

/// Giving a slot to a fingerprint changes no other row.
proof fn lemma_given_leaves(t: ContextTable, given: int, key: u64, slot: int)
    requires
        t.wf(),
        0 <= t.embedding_dim,
        t.embeddings.len() == t.keys.len() * t.embedding_dim,
        0 <= slot < t.keys.len(),
        0 <= given < t.keys.len(),
        slot != given,
    ensures
        same_row(t, t.given(given, key), slot),
{
    lemma_row_fits(slot, t.keys.len() as int, t.embedding_dim);
    let after = t.given(given, key);
    assert forall|i: int|
        slot * t.embedding_dim <= i < slot * t.embedding_dim
            + t.embedding_dim implies #[trigger] t.embeddings[i] == after.embeddings[i] by {
        lemma_rows_apart(slot, given, t.embedding_dim, i);
    }
}

/// Resolving a fingerprint changes no row but the one that it finds.
proof fn lemma_resolution_leaves(
    t: ContextTable,
    order: int,
    key: u64,
    allocate: bool,
    slot: int,
)
    requires
        t.wf(),
        1 <= order <= t.max_order,
        0 <= t.embedding_dim,
        t.embeddings.len() == t.keys.len() * t.embedding_dim,
        0 <= slot < t.keys.len(),
    ensures
        t.resolve(order, key, allocate).0.wf(),
        same_extent(t, t.resolve(order, key, allocate).0),
        t.resolve(order, key, allocate).1 == Some(slot) || same_row(
            t,
            t.resolve(order, key, allocate).0,
            slot,
        ),
{
    reveal(ContextTable::resolve);
    if !t.holds(order, key) && allocate {
        lemma_victim_exists(t, order, key);
        let o = choose|o: int| #[trigger] t.victim(order, key, o);
        let given = t.slot_at(order, key, o);
        lemma_probe_in_partition(order, key, t.slots_per_order, o);
        assert(0 <= (order - 1) * t.slots_per_order && (order - 1) * t.slots_per_order
            + t.slots_per_order <= t.max_order * t.slots_per_order) by (nonlinear_arith)
            requires
                1 <= order <= t.max_order,
                0 < t.slots_per_order,
        ;
        if slot != given {
            lemma_given_leaves(t, given, key, slot);
        }
    }
}

/// Activating contexts changes no row but those of the active ones.
proof fn lemma_activation_leaves(
    t: ContextTable,
    history: Seq<u32>,
    allocate: bool,
    upto: int,
    slot: int,
)
    requires
        t.wf(),
        upto <= t.max_order,
        0 <= t.embedding_dim,
        t.embeddings.len() == t.keys.len() * t.embedding_dim,
        0 <= slot < t.keys.len(),
    ensures
        t.activate(history, allocate, upto).0.wf(),
        same_extent(t, t.activate(history, allocate, upto).0),
        t.activate(history, allocate, upto).1.contains(slot) || same_row(
            t,
            t.activate(history, allocate, upto).0,
            slot,
        ),
    decreases upto,
{
    if upto > 0 {
        lemma_activation_leaves(t, history, allocate, upto - 1, slot);
        let (middle, slots, probes) = t.activate(history, allocate, upto - 1);
        let key = fingerprint(history, upto);
        let (after, found, more) = middle.resolve(upto, key, allocate);
        lemma_resolution_leaves(middle, upto, key, allocate, slot);
        let all = t.activate(history, allocate, upto).1;
        if slots.contains(slot) {
            let k = slots.index_of(slot);
            assert(all[k] == slot);
        } else if found == Some(slot) {
            assert(all[slots.len() as int] == slot);
        } else {
            lemma_rows_chain(t, middle, after, slot);
        }
    }
}

proof fn lemma_gradient_len<T: Numerics>(
    ops: T,
    output_weights: Seq<Scalar>,
    errors: Seq<Scalar>,
    dim: int,
    upto: int,
)
    requires
        0 <= dim,
    ensures
        latent_gradient(ops, output_weights, errors, dim, upto).len() == dim,
    decreases upto,
{
    if upto > 0 {
        lemma_gradient_len(ops, output_weights, errors, dim, upto - 1);
    }
}

/// Learning the rows of contexts notes each of them, and changes no other row.
proof fn lemma_learning_leaves<T: Numerics>(
    lesson: ContextLesson<T>,
    p: ContextPass,
    rows: int,
    upto: int,
    slot: int,
)
    requires
        lesson.enabled,
        0 <= upto <= lesson.slots.len(),
        all_below(lesson.slots, rows),
        p.embeddings.len() == rows * lesson.gradient.len(),
        p.embeddings.len() <= usize::MAX,
        p.observations.len() == rows,
        p.mark.len() == rows,
        0 <= slot < rows,
    ensures
        ({
            let q = lesson.learned(p, upto);
            let dim = lesson.gradient.len() as int;
            &&& q.embeddings.len() == p.embeddings.len()
            &&& q.observations.len() == rows
            &&& q.mark.len() == rows
            &&& p.mark[slot] ==> q.mark[slot]
            &&& (exists|k: int| 0 <= k < upto && #[trigger] lesson.slots[k] == slot)
                ==> q.mark[slot]
            &&& q.mark[slot] || {
                &&& q.observations[slot] == p.observations[slot]
                &&& forall|i: int|
                    slot * dim <= i < slot * dim + dim ==> #[trigger] q.embeddings[i]
                        == p.embeddings[i]
            }
        }),
    decreases upto,
{
    if upto > 0 {
        lemma_learning_leaves(lesson, p, rows, upto - 1, slot);
        let before = lesson.learned(p, upto - 1);
        let after = lesson.learned(p, upto);
        let dim = lesson.gradient.len() as int;
        let here = lesson.slots[upto - 1] as int;
        let propose = lesson.proposal(upto - 1);
        let places = lesson.row(upto - 1);
        let start = unlisted(before.embeddings);
        assert(here < rows);
        lemma_row_fits(here, rows, dim);
        lemma_row_fits(slot, rows, dim);
        assert forall|k: int| 0 <= k < places.len() implies (#[trigger] places[k]) == here * dim + k
            && places[k] < before.embeddings.len() by {}
        assert(after.embeddings.len() == before.embeddings.len()) by {
            lemma_pass_len(propose, places, start, false, dim);
        }
        if !after.mark[slot] {
            assert(here != slot);
            assert forall|i: int|
                slot * dim <= i < slot * dim + dim implies #[trigger] after.embeddings[i]
                == p.embeddings[i] by {
                assert(before.embeddings[i] == p.embeddings[i]);
                lemma_rows_apart(slot, here, dim, i);
                assert forall|k: int| 0 <= k < dim implies (#[trigger] places[k]) as int != i by {}
                lemma_pass_leaves(propose, places, start, false, dim, i);
            }
        }
    }
}

/// Every row that differs from that of a model is noted, or belongs to an active context.
spec fn noted_or_active(base: Model, r: Runtime) -> bool {
    let s = table_of(base);
    let t = table_of(r.model);
    let mark = r.tracker.context_slots.mark@;
    &&& r.tracker.enabled
    &&& same_extent(s, t)
    &&& mark.len() == t.keys.len()
    &&& forall|slot: int|
        0 <= slot < t.keys.len() ==> #[trigger] mark[slot] || r.context_slots@.contains(
            slot as usize,
        ) || same_row(s, t, slot)
}

/// The context memory and what is noted of it stay as they are.
pub open spec fn rows_stay(b: Runtime, a: Runtime) -> bool {
    &&& table_of(a.model) == table_of(b.model)
    &&& a.model.config == b.model.config
    &&& a.tracker.enabled == b.tracker.enabled
    &&& a.tracker.context_slots == b.tracker.context_slots
    &&& a.context_slots == b.context_slots
    &&& a.context_applied == b.context_applied
}

/// Opening a step changes no row but those of the active contexts.
proof fn lemma_opening_rows(
    base: Model,
    b: Runtime,
    symbol: u32,
    target: Option<u32>,
    permission: Permission,
    step: OpenedStep,
    a: Runtime,
)
    requires
        b.wf(),
        opened(b, symbol, target, permission, step, a),
        rows_noted(base, b),
    ensures
        noted_or_active(base, a),
        a.context_applied == b.context_kept(symbol, permission),
        permission == Permission::Frozen || !b.context_kept(symbol, permission) || knows_contexts(
            b,
            symbol,
        ) ==> rows_noted(base, a),
{
    reveal(opened);
    let s = table_of(base);
    let t = table_of(b.model);
    let u = table_of(a.model);
    let learning = permission != Permission::Frozen;
    let upto = a.history@.len() as int;
    law_history_is_bounded(b.history@, t.max_order, symbol);
    if b.context_kept(symbol, permission) && learning {
        let (after, slots, probes) = t.activate(a.history@, true, upto);
        assert(u == after && as_ints(a.context_slots@) == slots);
        if t.keys.len() > 0 {
            lemma_activation_leaves(t, a.history@, true, upto, 0);
        } else {
            assert(t.keys.len() > 0) by (nonlinear_arith)
                requires
                    t.keys.len() == t.max_order * t.slots_per_order,
                    0 < t.max_order,
                    0 < t.slots_per_order,
            ;
        }
        assert forall|slot: int| 0 <= slot < u.keys.len() implies #[trigger] b.tracker.context_slots.mark@[slot]
            || a.context_slots@.contains(slot as usize) || same_row(s, u, slot) by {
            lemma_activation_leaves(t, a.history@, true, upto, slot);
            if slots.contains(slot) {
                let k = slots.index_of(slot);
                assert(a.context_slots@[k] as int == as_ints(a.context_slots@)[k]);
                assert(a.context_slots@[k] == slot as usize);
            } else if !b.tracker.context_slots.mark@[slot] {
                lemma_rows_chain(s, t, u, slot);
            }
        }
    }
}

/// The stages up to the prediction leave the rows alone.
pub proof fn lemma_stages_rows<T: Numerics>(
    ops: T,
    b: Runtime,
    symbol: u32,
    target: Option<u32>,
    permission: Permission,
    t: StageTrace,
)
    requires
        t.leads_on(ops, b, symbol, target, permission),
    ensures
        rows_stay(t.opened, t.predicted),
        t.opened.model == t.predicted.model,
{
    reveal(StageTrace::leads_on);
    assert(rows_stay(t.opened, t.received) && t.opened.model == t.received.model) by {
        reveal(received);
    }
    assert(rows_stay(t.received, t.competed) && t.received.model == t.competed.model) by {
        reveal(competed);
    }
    assert(rows_stay(t.competed, t.followed) && t.competed.model == t.followed.model) by {
        reveal(followed_all);
    }
    assert(rows_stay(t.followed, t.rested) && t.followed.model == t.rested.model) by {
        reveal(rested);
    }
    assert(rows_stay(t.rested, t.sent) && t.rested.model == t.sent.model) by {
        reveal(sent);
    }
    assert(rows_stay(t.sent, t.predicted) && t.sent.model == t.predicted.model) by {
        reveal(predicted);
    }
}

/// A lesson that learns the context notes every active row.
proof fn lemma_context_rows<T: Numerics>(
    ops: T,
    base: Model,
    b: Runtime,
    strength: Scalar,
    a: Runtime,
    r: LeoResult<()>,
)
    requires
        context_learned(ops, b, strength, a, r),
        r is Ok,
        noted_or_active(base, b),
        b.model.context_ready(),
        all_below(b.context_slots@, b.model.context.keys@.len() as int),
    ensures
        rows_noted(base, a),
{
    reveal(context_learned);
    let s = table_of(base);
    let t = table_of(b.model);
    let u = table_of(a.model);
    if b.context_slots@.len() > 0 {
        let dim = t.embedding_dim;
        let rate = ops.product(b.model.config.context.learning_rate.opposite(), strength);
        let lesson = ContextLesson {
            ops,
            rate,
            slots: b.context_slots@,
            scales: b.numbers.context_scales@,
            gradient: latent_gradient(
                ops,
                b.model.context.output_weights@,
                b.numbers.errors@,
                dim,
                b.numbers.errors@.len() as int,
            ),
            bounds: b.weight_bounds(),
            enabled: b.tracker.enabled,
        };
        let rows = t.keys.len() as int;
        let p = context_pass(b.model, b.tracker.context_slots);
        let n = lesson.slots.len() as int;
        let q = lesson.learned(p, n);
        assert(q == context_pass(a.model, a.tracker.context_slots));
        lemma_gradient_len(
            ops,
            b.model.context.output_weights@,
            b.numbers.errors@,
            dim,
            b.numbers.errors@.len() as int,
        );
        lemma_learning_leaves(lesson, p, rows, n, lesson.slots[0] as int);
        assert forall|slot: int| 0 <= slot < rows implies #[trigger] q.mark[slot] || same_row(
            s,
            u,
            slot,
        ) by {
            lemma_learning_leaves(lesson, p, rows, n, slot);
            if !q.mark[slot] {
                if b.context_slots@.contains(slot as usize) {
                    let k = b.context_slots@.index_of(slot as usize);
                    assert(lesson.slots[k] == slot);
                }
                assert(!p.mark[slot]);
                assert(same_row(s, t, slot));
                assert(same_row(t, u, slot)) by {
                    assert forall|i: int|
                        slot * dim <= i < slot * dim + dim implies #[trigger] t.embeddings[i]
                        == u.embeddings[i] by {
                        assert(q.embeddings[i] == p.embeddings[i]);
                    }
                }
                lemma_rows_chain(s, t, u, slot);
            }
        }
    } else {
        assert forall|slot: int| 0 <= slot < u.keys.len() implies #[trigger] a.tracker.context_slots.mark@[slot]
            || same_row(s, u, slot) by {
            assert(!b.context_slots@.contains(slot as usize));
        }
    }
}

/// The parts of a lesson after the context leave the rows alone.
proof fn lemma_synapses_leave_rows<T: Numerics>(
    ops: T,
    l: Lesson,
    scale: Scalar,
    b: Runtime,
    t: LessonTrace,
    a: Runtime,
)
    requires
        l.synaptic(ops, scale, b, t.synapses, a),
    ensures
        rows_stay(b, a),
{
    reveal(Lesson::synaptic);
    if nought().below(scale) {
        assert(rows_stay(b, t.synapses.recurrent)) by {
            reveal(recurrent_learned);
        }
        if t.synapses.recurrent_whole {
            assert(rows_stay(t.synapses.recurrent, t.synapses.input)) by {
                reveal(input_learned);
            }
        }
    }
}

/// A lesson notes the rows of the active contexts, where it learns them and comes to its end.
proof fn lemma_lesson_rows<T: Numerics>(
    ops: T,
    base: Model,
    b: Runtime,
    l: Lesson,
    a: Runtime,
    r: LeoResult<EligibilitySum>,
)
    requires
        lesson_taken(ops, b, l, a, r),
        b.model.context_ready(),
        all_below(b.context_slots@, b.model.context.keys@.len() as int),
        noted_or_active(base, b),
        b.context_applied || rows_noted(base, b),
        b.context_applied ==> r is Ok,
    ensures
        rows_noted(base, a),
{
    let t = choose|t: LessonTrace| #[trigger] t.explains(ops, b, l, a, r);
    reveal(LessonTrace::explains);
    let (scale, phase) = l.schedule(ops, b);
    assert(rows_stay(b, t.told) && t.told.model == b.model) by {
        reveal(Lesson::starts);
        reveal(told);
    }
    assert(rows_stay(t.told, t.readout) && t.readout.model.context == b.model.context) by {
        reveal(Lesson::starts);
        reveal(readout_learned);
    }
    if t.bad_bias is None {
        assert(rows_noted(base, t.context)) by {
            reveal(Lesson::contextual);
            if b.context_applied {
                lemma_context_rows(
                    ops,
                    base,
                    t.readout,
                    l.supervised(ops),
                    t.context,
                    t.context_result,
                );
            }
        }
        if t.context_result is Ok {
            let learned = if t.synapses.recurrent_whole {
                t.synapses.input
            } else {
                t.synapses.recurrent
            };
            lemma_synapses_leave_rows(ops, l, scale, t.context, t, learned);
            if t.synapses.recurrent_whole && t.synapses.input_whole {
                assert(rows_stay(learned, a)) by {
                    reveal(Lesson::closes);
                    reveal(balanced);
                }
            }
        }
    }
}

/// A step that settles the rows of its contexts notes those that it changes: where every row that
/// differs from that of a base model was noted before the step, it is noted after it.
pub proof fn law_settled_steps_note_their_rows<T: Numerics>(
    ops: T,
    base: Model,
    b: Runtime,
    symbol: u32,
    target: Option<u32>,
    permission: Permission,
    a: Runtime,
    r: LeoResult<StepMetrics>,
)
    requires
        b.can_step(),
        step_taken(ops, b, symbol, target, permission, a, r),
        rows_settled(b, symbol, target, permission, r),
        rows_noted(base, b),
    ensures
        rows_noted(base, a),
{
    let t = choose|t: StepTrace| #[trigger] t.explains(ops, b, symbol, target, permission, a, r);
    let s = t.stages;
    reveal(StepTrace::explains);
    assert(b.wf()) by {
        reveal(Runtime::can_step);
    }
    assert(opened(b, symbol, target, permission, s.step, s.opened) && s.predicted.steady()) by {
        reveal(StageTrace::leads_on);
    }
    lemma_opening_rows(base, b, symbol, target, permission, s.step, s.opened);
    lemma_stages_rows(ops, b, symbol, target, permission, s);
    assert(s.step.learns == (target is Some && Scalar { bits: 0 }.below(
        permission.strength_in(b.model.config),
    ))) by {
        reveal(opened);
    }
    assert(s.predicted.model.context_ready() && all_below(
        s.predicted.context_slots@,
        s.predicted.model.context.keys@.len() as int,
    )) by {
        reveal(Runtime::steady);
    }
    assert(rows_noted(base, t.learned)) by {
        reveal(StageTrace::teaches);
        if s.step.learns {
            lemma_lesson_rows(
                ops,
                base,
                s.predicted,
                Lesson {
                    class: s.step.target_class->0,
                    strength: s.step.strength,
                    weight: class_weight(s.predicted, s.step.target_class->0),
                },
                t.learned,
                t.lesson,
            );
        }
    }
    if t.lesson is Ok {
        assert(rows_stay(t.learned, t.balanced)) by {
            reveal(thresholds_moved);
        }
        assert(rows_stay(t.balanced, a)) by {
            reveal(step_closed);
        }
    }
}

} // verus!
