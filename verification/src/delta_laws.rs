//! What the deltas of two models hold.

use crate::context::{table_of, ContextTable};
use crate::marks::MarkList;
use crate::model::{all_finite, lemma_probe_in_partition, lemma_row_fits, Model};
use crate::parallel::{
    all_inside, all_slots, any_moved, canonical, context_delta, covers, differences, diffed,
    diffed_selected, embedding_before, embedding_place, gives, kept_rows, lemma_slot_in_order,
    lemma_sparse_holds, law_tracked_delta_is_the_full_delta, matters, moved, one_answer, order_of,
    output_places, partition_end, placed, probed, row_leq, row_of, row_views, rows_for, rows_listed,
    slot_row, sought, sparse, KeyedRow, SparseF32Delta, SparseModelDelta,
};
use crate::row_laws::{rows_noted, same_row};
use crate::runtime::{lemma_place, ParameterChanges, Runtime};
use crate::scalar::Scalar;
use crate::tracking_laws::{
    cancels, law_notes_cover_the_changes, noted, notes_all, outputs_noted, same_value,
};
use vstd::prelude::*;
use vstd::seq_lib::*;

verus! {

/// The list of the differences of two tensors holds exactly the places where they differ, each with
/// its difference, from the first to the last.
pub proof fn law_differences_are_listed<F: Fn(Scalar, Scalar) -> Scalar>(
    f: F,
    before: Seq<Scalar>,
    after: Seq<Scalar>,
    list: Seq<SparseF32Delta>,
)
    requires
        one_answer(f),
        before.len() == after.len(),
        before.len() <= usize::MAX,
        diffed(f, before, after, list),
    ensures
        forall|u: SparseF32Delta| #[trigger]
            list.contains(u) <==> u.index < before.len() && moved(u.delta) && gives(
                f,
                after[u.index as int],
                before[u.index as int],
                u.delta,
            ),
        forall|j: int, k: int|
            0 <= j < k < list.len() ==> (#[trigger] list[j]).index < (#[trigger] list[k]).index,
{
    let d = choose|d: Seq<Scalar>| #[trigger] differences(f, before, after, d) && list == sparse(d);
    let any = SparseF32Delta { index: 0, delta: Scalar { bits: 0 } };
    lemma_sparse_holds(d, any);
    assert forall|u: SparseF32Delta| #[trigger]
        list.contains(u) <==> u.index < before.len() && moved(u.delta) && gives(
            f,
            after[u.index as int],
            before[u.index as int],
            u.delta,
        ) by {
        lemma_sparse_holds(d, u);
        if u.index < before.len() {
            assert(gives(f, after[u.index as int], before[u.index as int], d[u.index as int]));
        }
    }
}

/// The two tensors are equal in value, place by place.
pub open spec fn same_values(before: Seq<Scalar>, after: Seq<Scalar>) -> bool {
    &&& before.len() == after.len()
    &&& forall|i: int| 0 <= i < after.len() ==> same_value(#[trigger] after[i], before[i])
}

/// Tensors of finite numbers that are equal in value have no differences.
pub proof fn law_equal_tensors_have_no_differences<F: Fn(Scalar, Scalar) -> Scalar>(
    f: F,
    before: Seq<Scalar>,
    after: Seq<Scalar>,
    list: Seq<SparseF32Delta>,
)
    requires
        cancels(f),
        all_finite(before),
        all_finite(after),
        before.len() <= usize::MAX,
        same_values(before, after),
        diffed(f, before, after, list),
    ensures
        list.len() == 0,
{
    let d = choose|d: Seq<Scalar>| #[trigger] differences(f, before, after, d) && list == sparse(d);
    if list.len() > 0 {
        let u = list[0];
        assert(list.contains(u));
        lemma_sparse_holds(d, u);
        let i = u.index as int;
        assert(same_value(after[i], before[i]));
        assert(gives(f, after[i], before[i], d[i]));
    }
}

/// Two lists of the same differences are one.
proof fn lemma_differences_agree<F: Fn(Scalar, Scalar) -> Scalar>(
    f: F,
    before: Seq<Scalar>,
    after: Seq<Scalar>,
    list: Seq<SparseF32Delta>,
    other: Seq<SparseF32Delta>,
)
    requires
        one_answer(f),
        diffed(f, before, after, list),
        diffed(f, before, after, other),
    ensures
        list == other,
{
    let d = choose|d: Seq<Scalar>| #[trigger] differences(f, before, after, d) && list == sparse(d);
    let e = choose|e: Seq<Scalar>| #[trigger] differences(f, before, after, e) && other == sparse(e);
    assert forall|i: int| 0 <= i < d.len() implies d[i] == e[i] by {
        assert(gives(f, after[i], before[i], d[i]));
        assert(gives(f, after[i], before[i], e[i]));
    }
    assert(d =~= e);
}

/// Every fingerprint of a context memory stands where probing looks for it, and only once in the
/// partition of its order.
pub open spec fn keys_at_home(t: ContextTable) -> bool {
    &&& forall|order: int, slot: int|
        #![trigger t.in_partition(order, slot)]
        t.in_partition(order, slot) && t.keys[slot] != 0 ==> exists|o: int|
            0 <= o < t.probe_limit && #[trigger] t.slot_at(order, t.keys[slot], o) == slot
    &&& forall|order: int, a: int, b: int|
        #![trigger t.in_partition(order, a), t.in_partition(order, b)]
        t.in_partition(order, a) && t.in_partition(order, b) && a != b && t.keys[a] != 0
            ==> t.keys[a] != t.keys[b]
}

/// In a memory whose fingerprints are at home, probing and looking through the partition find the
/// same.
proof fn lemma_searches_agree(m: Model, order: int, key: u64, one: Option<int>, two: Option<int>)
    requires
        m.context_ready(),
        keys_at_home(table_of(m)),
        1 <= order <= m.config.context.max_order,
        key != 0,
        placed(m, order, key, partition_end(m, order), one),
        probed(m, order, key, two),
    ensures
        one == two,
{
    let t = table_of(m);
    let slots = t.slots_per_order;
    match two {
        Some(slot) => {
            let o = choose|o: int| #[trigger] m.hit(order, key, o) && slot == m.slot_at(order, key, o);
            lemma_probe_in_partition(order, key, slots, o);
            assert(m.key_at(order, key, o) == key);
            assert(t.in_partition(order, slot));
            match one {
                Some(other) => {
                    assert(t.in_partition(order, other));
                    assert(t.keys[other] == t.keys[slot]);
                },
                None => {
                    assert(m.context.keys@[slot] != key);
                },
            }
        },
        None => {
            if let Some(slot) = one {
                assert(t.in_partition(order, slot));
                let o = choose|o: int|
                    0 <= o < t.probe_limit && #[trigger] t.slot_at(order, t.keys[slot], o) == slot;
                assert(m.slot_at(order, key, o) == slot);
                assert(m.key_at(order, key, o) != key);
            }
        },
    }
}

/// Looking through a partition finds one slot only.
proof fn lemma_placed_once(m: Model, order: int, key: u64, one: Option<int>, two: Option<int>)
    requires
        placed(m, order, key, partition_end(m, order), one),
        placed(m, order, key, partition_end(m, order), two),
    ensures
        one == two,
{
    match (one, two) {
        (Some(a), Some(b)) => {
            if a < b {
                assert(m.context.keys@[b] != key);
            } else if b < a {
                assert(m.context.keys@[a] != key);
            }
        },
        (Some(a), None) => {
            assert(m.context.keys@[a] != key);
        },
        (None, Some(b)) => {
            assert(m.context.keys@[b] != key);
        },
        (None, None) => {},
    }
}

/// A slot makes one entry only, whichever way its fingerprint is looked for.
proof fn lemma_slot_row_once<F: Fn(Scalar, Scalar) -> Scalar>(
    f: F,
    base: Model,
    trained: Model,
    slot: int,
    probing: bool,
    one: Option<KeyedRow>,
    two: Option<KeyedRow>,
)
    requires
        one_answer(f),
        base.context_ready(),
        trained.context_ready(),
        base.config.context == trained.config.context,
        keys_at_home(table_of(base)),
        0 <= slot < trained.context.keys.len(),
        slot_row(f, base, trained, slot, false, one),
        slot_row(f, base, trained, slot, probing, two),
    ensures
        one == two,
{
    if let Some(x) = one {
        let y = two->0;
        let order = order_of(base, slot);
        let key = trained.context.keys@[slot];
        let from = choose|from: Option<int>| #[trigger]
            sought(false, base, order, key, from) && row_of(f, base, trained, slot, from, x);
        let other = choose|from: Option<int>| #[trigger]
            sought(probing, base, order, key, from) && row_of(f, base, trained, slot, from, y);
        lemma_slot_in_order(base, slot);
        if probing {
            lemma_searches_agree(base, order, key, from, other);
        } else {
            lemma_placed_once(base, order, key, from, other);
        }
        let dim = base.config.context.embedding_dim as int;
        assert forall|i: int| 0 <= i < dim implies x.embedding_delta[i] == y.embedding_delta[i] by {
            let after = trained.context.embeddings@[embedding_place(slot, dim, i)];
            assert(gives(f, after, embedding_before(base, from, i), x.embedding_delta[i]));
            assert(gives(f, after, embedding_before(base, from, i), y.embedding_delta[i]));
        }
        assert(x.embedding_delta =~= y.embedding_delta);
    }
}

/// A slot whose row did not change makes no entry that changes something.
proof fn lemma_same_row_is_dropped<F: Fn(Scalar, Scalar) -> Scalar>(
    f: F,
    base: Model,
    trained: Model,
    slot: int,
    row: KeyedRow,
)
    requires
        cancels(f),
        base.context_ready(),
        trained.context_ready(),
        base.config.context == trained.config.context,
        keys_at_home(table_of(base)),
        all_finite(base.context.embeddings@),
        all_finite(trained.context.embeddings@),
        0 <= slot < trained.context.keys.len(),
        same_row(table_of(base), table_of(trained), slot),
        slot_row(f, base, trained, slot, false, Some(row)),
    ensures
        !matters(row),
{
    let order = order_of(base, slot);
    let key = trained.context.keys@[slot];
    let t = table_of(base);
    let dim = base.config.context.embedding_dim as int;
    let from = choose|from: Option<int>| #[trigger]
        sought(false, base, order, key, from) && row_of(f, base, trained, slot, from, row);
    lemma_slot_in_order(base, slot);
    assert(t.in_partition(order, slot));
    match from {
        Some(other) => {
            assert(t.in_partition(order, other));
        },
        None => {
            assert(base.context.keys@[slot] != key);
        },
    }
    assert(from == Some(slot));
    lemma_row_fits(slot, trained.context.keys.len() as int, dim);
    if any_moved(row.embedding_delta) {
        let i = choose|i: int| 0 <= i < row.embedding_delta.len() && moved(
            #[trigger] row.embedding_delta[i],
        );
        let at = embedding_place(slot, dim, i);
        assert(table_of(base).embeddings[at] == table_of(trained).embeddings[at]);
        assert(gives(
            f,
            trained.context.embeddings@[at],
            embedding_before(base, from, i),
            row.embedding_delta[i],
        ));
        assert(trained.context.embeddings@[at].finite());
    }
}

/// The two entries belong to different contexts.
pub open spec fn apart(a: KeyedRow, b: KeyedRow) -> bool {
    a.order != b.order || a.key != b.key
}

/// An entry comes before another by order and fingerprint.
pub open spec fn row_below(a: KeyedRow, b: KeyedRow) -> bool {
    a.order < b.order || (a.order == b.order && a.key < b.key)
}

/// The entries stand in strictly ascending order.
pub open spec fn rows_ascend(rows: Seq<KeyedRow>) -> bool {
    forall|i: int, j: int|
        0 <= i < j < rows.len() ==> row_below(#[trigger] rows[i], #[trigger] rows[j])
}

/// The entry is made by a slot of the trained model, and changes something.
pub open spec fn made_by_a_slot<F: Fn(Scalar, Scalar) -> Scalar>(
    f: F,
    base: Model,
    trained: Model,
    row: KeyedRow,
) -> bool {
    matters(row) && exists|slot: int|
        0 <= slot < trained.context.keys.len() && #[trigger] slot_row(
            f,
            base,
            trained,
            slot,
            false,
            Some(row),
        )
}

/// What is kept are the entries that change something.
proof fn lemma_kept_holds(rows: Seq<Option<KeyedRow>>, row: KeyedRow)
    ensures
        kept_rows(rows).contains(row) <==> matters(row) && rows.contains(Some(row)),
    decreases rows.len(),
{
    if rows.len() > 0 {
        let rest = rows.drop_last();
        lemma_kept_holds(rest, row);
        let before = kept_rows(rest);
        let after = kept_rows(rows);
        if rest.contains(Some(row)) {
            let k = rest.index_of(Some(row));
            assert(rows[k] == Some(row));
        }
        if rows.contains(Some(row)) && rows.last() != Some(row) {
            let k = rows.index_of(Some(row));
            assert(rest[k] == Some(row));
        }
        if rows.last() == Some(row) {
            assert(rows[rows.len() - 1] == Some(row));
        }
        if before.contains(row) {
            let k = before.index_of(row);
            assert(after[k] == row);
        }
        if after.contains(row) && !before.contains(row) {
            let k = after.index_of(row);
            if k < before.len() {
                assert(before[k] == row);
            }
            assert(rows.last() == Some(row));
        }
        if rows.last() == Some(row) && matters(row) {
            assert(after[before.len() as int] == row);
        }
    }
}

/// Entries of different contexts stay so.
proof fn lemma_kept_apart(rows: Seq<Option<KeyedRow>>)
    requires
        forall|j: int, k: int|
            0 <= j < k < rows.len() && rows[j] is Some && rows[k] is Some ==> apart(
                (#[trigger] rows[j])->0,
                (#[trigger] rows[k])->0,
            ),
    ensures
        forall|j: int, k: int|
            0 <= j < k < kept_rows(rows).len() ==> apart(
                #[trigger] kept_rows(rows)[j],
                #[trigger] kept_rows(rows)[k],
            ),
    decreases rows.len(),
{
    if rows.len() > 0 {
        let rest = rows.drop_last();
        let before = kept_rows(rest);
        let after = kept_rows(rows);
        assert forall|j: int, k: int|
            0 <= j < k < rest.len() && rest[j] is Some && rest[k] is Some implies apart(
            (#[trigger] rest[j])->0,
            (#[trigger] rest[k])->0,
        ) by {
            assert(rows[j] is Some && rows[k] is Some);
        }
        lemma_kept_apart(rest);
        assert forall|j: int, k: int| 0 <= j < k < after.len() implies apart(
            #[trigger] after[j],
            #[trigger] after[k],
        ) by {
            assert(after[j] == before[j]);
            if k < before.len() {
                assert(after[k] == before[k]);
            } else {
                assert(before.contains(before[j]));
                lemma_kept_holds(rest, before[j]);
                let i = rest.index_of(Some(before[j]));
                assert(rows[i] is Some && rows[rows.len() - 1] is Some);
            }
        }
    }
}

/// Strictly ascending lists of the same entries are one.
proof fn lemma_ascending_once(a: Seq<KeyedRow>, b: Seq<KeyedRow>)
    requires
        rows_ascend(a),
        rows_ascend(b),
        forall|row: KeyedRow| a.contains(row) <==> b.contains(row),
    ensures
        a == b,
    decreases a.len(),
{
    if a.len() == 0 {
        if b.len() > 0 {
            assert(b.contains(b[0]));
        }
        assert(a =~= b);
    } else {
        assert(a.contains(a[0]));
        let x = a.last();
        assert(a.contains(x));
        let y = b.last();
        assert(b.len() > 0);
        assert(b.contains(y));
        let i = b.index_of(x);
        let j = a.index_of(y);
        if i < b.len() - 1 {
            assert(row_below(b[i], b[b.len() - 1]));
            if j < a.len() - 1 {
                assert(row_below(a[j], a[a.len() - 1]));
            }
        }
        assert(x == y);
        let p = a.drop_last();
        let q = b.drop_last();
        assert forall|row: KeyedRow| p.contains(row) <==> q.contains(row) by {
            if p.contains(row) {
                let k = p.index_of(row);
                assert(a[k] == row);
                assert(row_below(a[k], a[a.len() - 1]));
                assert(b.contains(row));
                let l = b.index_of(row);
                assert(q[l] == row);
            }
            if q.contains(row) {
                let k = q.index_of(row);
                assert(b[k] == row);
                assert(row_below(b[k], b[b.len() - 1]));
                assert(a.contains(row));
                let l = a.index_of(row);
                assert(p[l] == row);
            }
        }
        lemma_ascending_once(p, q);
        assert(a =~= p.push(x));
        assert(b =~= q.push(y));
    }
}

/// Entries that differ in order or fingerprint, once sorted, ascend strictly.
proof fn lemma_sorted_ascend(rows: Seq<KeyedRow>, sorted: Seq<KeyedRow>)
    requires
        canonical(rows, sorted),
        forall|j: int, k: int|
            0 <= j < k < rows.len() ==> apart(#[trigger] rows[j], #[trigger] rows[k]),
    ensures
        rows_ascend(sorted),
        forall|row: KeyedRow| sorted.contains(row) <==> rows.contains(row),
{
    broadcast use group_to_multiset_ensures;

    assert(rows.no_duplicates()) by {
        assert forall|j: int, k: int| 0 <= j < rows.len() && 0 <= k < rows.len() && j != k implies
            rows[j] != rows[k] by {
            if j < k {
                assert(apart(rows[j], rows[k]));
            } else {
                assert(apart(rows[k], rows[j]));
            }
        }
    }
    rows.lemma_multiset_has_no_duplicates();
    sorted.lemma_multiset_has_no_duplicates_conv();
    assert forall|row: KeyedRow| sorted.contains(row) <==> rows.contains(row) by {
        assert(sorted.contains(row) <==> sorted.to_multiset().count(row) > 0);
        assert(rows.contains(row) <==> rows.to_multiset().count(row) > 0);
    }
    assert forall|i: int, j: int| 0 <= i < j < sorted.len() implies row_below(
        #[trigger] sorted[i],
        #[trigger] sorted[j],
    ) by {
        assert(row_leq(sorted[i], sorted[j]));
        assert(sorted[i] != sorted[j]);
        assert(sorted.contains(sorted[i]) && sorted.contains(sorted[j]));
        let k = rows.index_of(sorted[i]);
        let l = rows.index_of(sorted[j]);
        if k < l {
            assert(apart(rows[k], rows[l]));
        } else {
            assert(apart(rows[l], rows[k]));
        }
    }
}

/// The entries of different slots belong to different contexts.
proof fn lemma_rows_apart<F: Fn(Scalar, Scalar) -> Scalar>(
    f: F,
    base: Model,
    trained: Model,
    slots: Seq<usize>,
    probing: bool,
    rows: Seq<Option<KeyedRow>>,
)
    requires
        base.context_ready(),
        trained.context_ready(),
        base.config.context == trained.config.context,
        keys_at_home(table_of(trained)),
        slots.no_duplicates(),
        all_inside(slots, trained.context.keys.len() as int, trained.context.keys.len() as int),
        rows_for(f, base, trained, slots, probing, rows),
    ensures
        forall|j: int, k: int|
            0 <= j < k < rows.len() && rows[j] is Some && rows[k] is Some ==> apart(
                (#[trigger] rows[j])->0,
                (#[trigger] rows[k])->0,
            ),
{
    let t = table_of(trained);
    assert forall|j: int, k: int|
        0 <= j < k < rows.len() && rows[j] is Some && rows[k] is Some implies apart(
        (#[trigger] rows[j])->0,
        (#[trigger] rows[k])->0,
    ) by {
        let a = slots[j] as int;
        let b = slots[k] as int;
        assert(slot_row(f, base, trained, a, probing, rows[j]));
        assert(slot_row(f, base, trained, b, probing, rows[k]));
        lemma_slot_in_order(trained, a);
        lemma_slot_in_order(trained, b);
        assert(order_of(base, a) == order_of(trained, a));
        assert(order_of(base, b) == order_of(trained, b));
        assert(a != b);
        if order_of(trained, a) == order_of(trained, b) {
            let order = order_of(trained, a);
            assert(t.in_partition(order, a) && t.in_partition(order, b));
            assert(t.keys[a] != t.keys[b]);
        }
    }
}

/// The context entries of a delta ascend by order and fingerprint, and are those of the trained
/// slots that change something: a fingerprint that the base does not hold counts as one with a zero
/// embedding and no observations.
pub proof fn law_changed_contexts_are_listed<F: Fn(Scalar, Scalar) -> Scalar>(
    f: F,
    base: Model,
    trained: Model,
    sorted: Seq<KeyedRow>,
)
    requires
        one_answer(f),
        base.context_ready(),
        trained.context_ready(),
        base.config.context == trained.config.context,
        keys_at_home(table_of(base)),
        keys_at_home(table_of(trained)),
        context_delta(
            f,
            base,
            trained,
            all_slots(trained.context.keys@.len()),
            false,
            sorted,
        ),
    ensures
        rows_ascend(sorted),
        forall|row: KeyedRow| #[trigger]
            sorted.contains(row) <==> made_by_a_slot(f, base, trained, row),
{
    let slots = all_slots(trained.context.keys@.len());
    let kept = choose|kept: Seq<KeyedRow>| #[trigger]
        rows_listed(f, base, trained, slots, false, kept) && canonical(kept, sorted);
    let rows = choose|rows: Seq<Option<KeyedRow>>| #[trigger]
        rows_for(f, base, trained, slots, false, rows) && kept == kept_rows(rows);
    lemma_rows_apart(f, base, trained, slots, false, rows);
    lemma_kept_apart(rows);
    lemma_sorted_ascend(kept, sorted);
    assert forall|row: KeyedRow| #[trigger]
        sorted.contains(row) <==> made_by_a_slot(f, base, trained, row) by {
        lemma_kept_holds(rows, row);
        if rows.contains(Some(row)) {
            let k = rows.index_of(Some(row));
            assert(slot_row(f, base, trained, slots[k] as int, false, rows[k]));
        }
        if made_by_a_slot(f, base, trained, row) {
            let slot = choose|slot: int|
                0 <= slot < trained.context.keys.len() && #[trigger] slot_row(
                    f,
                    base,
                    trained,
                    slot,
                    false,
                    Some(row),
                );
            assert(slot_row(f, base, trained, slots[slot] as int, false, rows[slot]));
            lemma_slot_row_once(f, base, trained, slot, false, rows[slot], Some(row));
            assert(rows[slot] == Some(row));
        }
    }
}

/// A model compared with itself has no differences.
pub proof fn law_a_model_does_not_differ_from_itself<F: Fn(Scalar, Scalar) -> Scalar>(
    f: F,
    m: Model,
    delta: SparseModelDelta,
)
    requires
        one_answer(f),
        cancels(f),
        m.context_ready(),
        m.numbers_finite(),
        keys_at_home(table_of(m)),
        delta.full(f, m, m),
    ensures
        delta.threshold.len() == 0,
        delta.excitability.len() == 0,
        delta.recurrent_weight.len() == 0,
        delta.input_weight.len() == 0,
        delta.output_weight.len() == 0,
        delta.output_bias.len() == 0,
        delta.context_output_weight.len() == 0,
        delta.context.len() == 0,
{
    lemma_lengths(m);
    law_equal_tensors_have_no_differences(
        f,
        m.neurons.threshold@,
        m.neurons.threshold@,
        delta.threshold@,
    );
    law_equal_tensors_have_no_differences(
        f,
        m.neurons.excitability@,
        m.neurons.excitability@,
        delta.excitability@,
    );
    law_equal_tensors_have_no_differences(
        f,
        m.recurrent.weight@,
        m.recurrent.weight@,
        delta.recurrent_weight@,
    );
    law_equal_tensors_have_no_differences(
        f,
        m.input.weights@,
        m.input.weights@,
        delta.input_weight@,
    );
    law_equal_tensors_have_no_differences(
        f,
        m.output.weights@,
        m.output.weights@,
        delta.output_weight@,
    );
    law_equal_tensors_have_no_differences(f, m.output.bias@, m.output.bias@, delta.output_bias@);
    law_equal_tensors_have_no_differences(
        f,
        m.context.output_weights@,
        m.context.output_weights@,
        delta.context_output_weight@,
    );
    let sorted = row_views(delta.context@);
    law_changed_contexts_are_listed(f, m, m, sorted);
    if delta.context.len() > 0 {
        let row = sorted[0];
        assert(sorted.contains(row));
        let slot = choose|slot: int|
            0 <= slot < m.context.keys.len() && #[trigger] slot_row(
                f,
                m,
                m,
                slot,
                false,
                Some(row),
            );
        lemma_same_row_is_dropped(f, m, m, slot, row);
    }
}

/// Every tensor of a model has a length that can be counted.
proof fn lemma_lengths(m: Model)
    ensures
        m.neurons.threshold@.len() <= usize::MAX,
        m.neurons.excitability@.len() <= usize::MAX,
        m.recurrent.weight@.len() <= usize::MAX,
        m.input.weights@.len() <= usize::MAX,
        m.output.weights@.len() <= usize::MAX,
        m.output.bias@.len() <= usize::MAX,
        m.context.output_weights@.len() <= usize::MAX,
        m.context.keys@.len() <= usize::MAX,
{
    assert(m.neurons.threshold.len() == m.neurons.threshold@.len());
    assert(m.neurons.excitability.len() == m.neurons.excitability@.len());
    assert(m.recurrent.weight.len() == m.recurrent.weight@.len());
    assert(m.input.weights.len() == m.input.weights@.len());
    assert(m.output.weights.len() == m.output.weights@.len());
    assert(m.output.bias.len() == m.output.bias@.len());
    assert(m.context.output_weights.len() == m.context.output_weights@.len());
    assert(m.context.keys.len() == m.context.keys@.len());
}

/// The output places of neurons are those of their rows, each once.
proof fn lemma_output_places(neurons: Seq<usize>, count: int, classes: int)
    requires
        neurons.no_duplicates(),
        0 < count,
        0 <= classes,
        classes * count <= usize::MAX,
        forall|k: int| 0 <= k < neurons.len() ==> (#[trigger] neurons[k]) < count,
    ensures
        output_places(neurons, count, classes).no_duplicates(),
        forall|k: int|
            0 <= k < output_places(neurons, count, classes).len() ==> {
                let p = #[trigger] output_places(neurons, count, classes)[k];
                p < classes * count && neurons.contains((p as int % count) as usize)
            },
        forall|i: int|
            0 <= i < classes * count && neurons.contains((i % count) as usize) ==> #[trigger]
            output_places(neurons, count, classes).contains(i as usize),
    decreases neurons.len(),
{
    let places = output_places(neurons, count, classes);
    if neurons.len() == 0 {
        assert forall|i: int|
            0 <= i < classes * count && neurons.contains((i % count) as usize) implies #[trigger]
        places.contains(i as usize) by {
            assert(false);
        }
    } else {
        let rest = neurons.drop_last();
        let last = neurons.last();
        lemma_output_places(rest, count, classes);
        let before = output_places(rest, count, classes);
        let row = Seq::new(classes as nat, |class: int| (class * count + last) as usize);
        assert(places == before + row);
        assert(neurons[neurons.len() - 1] == last);
        assert forall|c: int| 0 <= c < classes implies (#[trigger] row[c]) as int == c * count + last
            && c * count + last < classes * count && (c * count + last) % count == last by {
            lemma_place(c, last as int, classes, count);
        }
        assert forall|k: int| 0 <= k < places.len() implies {
            let p = #[trigger] places[k];
            p < classes * count && neurons.contains((p as int % count) as usize)
        } by {
            if k < before.len() {
                assert(places[k] == before[k]);
                let x = (before[k] as int % count) as usize;
                let j = rest.index_of(x);
                assert(neurons[j] == x);
            } else {
                assert(places[k] == row[k - before.len()]);
            }
        }
        assert forall|j: int, k: int|
            0 <= j < places.len() && 0 <= k < places.len() && j != k implies places[j]
            != places[k] by {
            let low = if j < k {
                j
            } else {
                k
            };
            let high = if j < k {
                k
            } else {
                j
            };
            if high < before.len() {
                assert(before[low] != before[high]);
            } else if low < before.len() {
                assert(places[low] == before[low]);
                assert(places[high] == row[high - before.len()]);
                let x = (before[low] as int % count) as usize;
                let at = rest.index_of(x);
                assert(neurons[at] == x);
                assert(x != last);
            } else {
                let c = low - before.len();
                let d = high - before.len();
                assert(row[c] as int == c * count + last && row[d] as int == d * count + last);
                assert(c * count < d * count) by (nonlinear_arith)
                    requires
                        c < d,
                        0 < count,
                ;
            }
        }
        assert forall|i: int|
            0 <= i < classes * count && neurons.contains((i % count) as usize) implies #[trigger]
        places.contains(i as usize) by {
            let x = (i % count) as usize;
            vstd::arithmetic::div_mod::lemma_mod_bound(i, count);
            if x == last {
                let c = i / count;
                vstd::arithmetic::div_mod::lemma_fundamental_div_mod(i, count);
                assert(0 <= c < classes) by (nonlinear_arith)
                    requires
                        0 <= i < classes * count,
                        0 < count,
                        c == i / count,
                ;
                assert(c * count == count * c) by (nonlinear_arith);
                assert(row[c] as int == i);
                assert(places[before.len() + c] == i as usize);
            } else {
                let j = neurons.index_of(x);
                assert(rest[j] == x);
                assert(before.contains(i as usize));
                let k = before.index_of(i as usize);
                assert(places[k] == i as usize);
            }
        }
    }
}

/// What was noted of one tensor gives the whole list of its differences.
proof fn lemma_noted_tensor<F: Fn(Scalar, Scalar) -> Scalar>(
    f: F,
    base: Seq<Scalar>,
    numbers: Seq<Scalar>,
    list: MarkList,
    full: Seq<SparseF32Delta>,
    selected: Seq<SparseF32Delta>,
)
    requires
        one_answer(f),
        cancels(f),
        all_finite(base),
        all_finite(numbers),
        list.wf(),
        noted(base, numbers, list.mark@),
        base.len() <= usize::MAX,
        diffed(f, base, numbers, full),
        diffed_selected(f, base, numbers, list.list@, selected),
    ensures
        selected == full,
{
    law_notes_cover_the_changes(f, base, numbers, list);
    law_tracked_delta_is_the_full_delta(f, base, numbers, list.list@, full, selected);
}

/// What was noted of the output weights gives the whole list of their differences.
proof fn lemma_noted_outputs<F: Fn(Scalar, Scalar) -> Scalar>(
    f: F,
    base: Seq<Scalar>,
    numbers: Seq<Scalar>,
    list: MarkList,
    neurons: int,
    classes: int,
    full: Seq<SparseF32Delta>,
    selected: Seq<SparseF32Delta>,
)
    requires
        one_answer(f),
        cancels(f),
        all_finite(base),
        all_finite(numbers),
        list.wf(),
        0 < neurons,
        0 <= classes,
        base.len() == classes * neurons,
        base.len() <= usize::MAX,
        outputs_noted(base, numbers, list.mark@, neurons),
        diffed(f, base, numbers, full),
        diffed_selected(f, base, numbers, output_places(list.list@, neurons, classes), selected),
    ensures
        selected == full,
{
    let places = output_places(list.list@, neurons, classes);
    assert(list.mark.len() == neurons);
    lemma_output_places(list.list@, neurons, classes);
    assert(covers(f, base, numbers, places)) by {
        assert forall|i: int, d: Scalar|
            0 <= i < base.len() && i < numbers.len() && #[trigger] gives(f, numbers[i], base[i], d)
                && moved(d) implies places.contains(i as usize) by {
            assert(list.mark@[i % neurons] || same_value(numbers[i], base[i]));
            vstd::arithmetic::div_mod::lemma_mod_bound(i, neurons);
            let neuron = (i % neurons) as usize;
            assert(list.mark@[neuron as int] <==> list.list@.contains(neuron));
            assert(numbers[i].finite() && base[i].finite());
        }
    }
    law_tracked_delta_is_the_full_delta(f, base, numbers, places, full, selected);
}

/// The entries of the noted rows are those of all slots.
proof fn lemma_noted_rows<F: Fn(Scalar, Scalar) -> Scalar>(
    f: F,
    base: Model,
    r: Runtime,
    full: Seq<KeyedRow>,
    selected: Seq<KeyedRow>,
)
    requires
        one_answer(f),
        cancels(f),
        base.context_ready(),
        r.model.context_ready(),
        base.config.context == r.model.config.context,
        keys_at_home(table_of(base)),
        keys_at_home(table_of(r.model)),
        all_finite(base.context.embeddings@),
        all_finite(r.model.context.embeddings@),
        r.tracker.context_slots.wf(),
        rows_noted(base, r),
        context_delta(
            f,
            base,
            r.model,
            all_slots(r.model.context.keys@.len()),
            false,
            full,
        ),
        context_delta(f, base, r.model, r.tracker.context_slots.list@, true, selected),
    ensures
        selected == full,
{
    let m = r.model;
    let slots = r.tracker.context_slots.list@;
    let mark = r.tracker.context_slots.mark@;
    law_changed_contexts_are_listed(f, base, m, full);
    let kept = choose|kept: Seq<KeyedRow>| #[trigger]
        rows_listed(f, base, m, slots, true, kept) && canonical(kept, selected);
    let rows = choose|rows: Seq<Option<KeyedRow>>| #[trigger]
        rows_for(f, base, m, slots, true, rows) && kept == kept_rows(rows);
    lemma_rows_apart(f, base, m, slots, true, rows);
    lemma_kept_apart(rows);
    lemma_sorted_ascend(kept, selected);
    let everything = choose|kept: Seq<KeyedRow>| #[trigger]
        rows_listed(f, base, m, all_slots(m.context.keys@.len()), false, kept) && canonical(
            kept,
            full,
        );
    let whole = choose|rows: Seq<Option<KeyedRow>>| #[trigger]
        rows_for(f, base, m, all_slots(m.context.keys@.len()), false, rows) && everything
            == kept_rows(rows);
    assert forall|row: KeyedRow| selected.contains(row) <==> full.contains(row) by {
        lemma_kept_holds(rows, row);
        if selected.contains(row) {
            let k = rows.index_of(Some(row));
            let slot = slots[k] as int;
            assert(slot_row(f, base, m, slot, true, rows[k]));
            assert(slot_row(f, base, m, all_slots(m.context.keys@.len())[slot] as int, false, whole[slot]));
            lemma_slot_row_once(f, base, m, slot, true, whole[slot], rows[k]);
            assert(made_by_a_slot(f, base, m, row));
        }
        if full.contains(row) {
            assert(made_by_a_slot(f, base, m, row));
            let slot = choose|slot: int|
                0 <= slot < m.context.keys.len() && #[trigger] slot_row(
                    f,
                    base,
                    m,
                    slot,
                    false,
                    Some(row),
                );
            if !mark[slot] {
                lemma_same_row_is_dropped(f, base, m, slot, row);
            }
            assert(mark[(slot as usize) as int] <==> slots.contains(slot as usize));
            let k = slots.index_of(slot as usize);
            assert(slot_row(f, base, m, slots[k] as int, true, rows[k]));
            lemma_slot_row_once(f, base, m, slot, true, Some(row), rows[k]);
            assert(rows[k] == Some(row));
        }
    }
    lemma_ascending_once(selected, full);
}

/// What a runtime reports of its changes.
pub open spec fn reported(r: Runtime, changes: ParameterChanges) -> bool {
    &&& changes.threshold@ == r.tracker.threshold.list@
    &&& changes.recurrent_weight@ == r.tracker.recurrent_weight.list@
    &&& changes.input_weight@ == r.tracker.input_weight.list@
    &&& changes.output_neurons@ == r.tracker.output_neurons.list@
    &&& changes.context_slots@ == r.tracker.context_slots.list@
    &&& changes.output_bias_dirty == r.tracker.output_bias_dirty
    &&& changes.context_output_dirty == r.tracker.context_output_dirty
}

/// Where a runtime has noted everything in which its model differs from a base model, the delta of
/// what it noted is the whole delta of the two models: tracking misses no changed parameter, and
/// the order of the notes does not show.
pub proof fn law_the_noted_delta_is_whole<F: Fn(Scalar, Scalar) -> Scalar>(
    f: F,
    base: Model,
    r: Runtime,
    changes: ParameterChanges,
    full: SparseModelDelta,
    noted_delta: SparseModelDelta,
)
    requires
        one_answer(f),
        cancels(f),
        r.wf(),
        reported(r, changes),
        notes_all(base, r),
        rows_noted(base, r),
        base.context_ready(),
        base.config == r.model.config,
        base.neurons.excitability@ == r.model.neurons.excitability@,
        base.numbers_finite(),
        r.model.numbers_finite(),
        keys_at_home(table_of(base)),
        keys_at_home(table_of(r.model)),
        full.full(f, base, r.model),
        noted_delta.selected(f, base, r.model, changes, r.alphabet.output_classes as int),
    ensures
        noted_delta.threshold@ == full.threshold@,
        noted_delta.excitability@ == full.excitability@,
        noted_delta.recurrent_weight@ == full.recurrent_weight@,
        noted_delta.input_weight@ == full.input_weight@,
        noted_delta.output_weight@ == full.output_weight@,
        noted_delta.output_bias@ == full.output_bias@,
        noted_delta.context_output_weight@ == full.context_output_weight@,
        row_views(noted_delta.context@) == row_views(full.context@),
{
    let m = r.model;
    let k = r.tracker;
    lemma_lengths(m);
    lemma_noted_tensor(
        f,
        base.neurons.threshold@,
        m.neurons.threshold@,
        k.threshold,
        full.threshold@,
        noted_delta.threshold@,
    );
    law_equal_tensors_have_no_differences(
        f,
        base.neurons.excitability@,
        m.neurons.excitability@,
        full.excitability@,
    );
    assert(noted_delta.excitability@ =~= full.excitability@);
    lemma_noted_tensor(
        f,
        base.recurrent.weight@,
        m.recurrent.weight@,
        k.recurrent_weight,
        full.recurrent_weight@,
        noted_delta.recurrent_weight@,
    );
    lemma_noted_tensor(
        f,
        base.input.weights@,
        m.input.weights@,
        k.input_weight,
        full.input_weight@,
        noted_delta.input_weight@,
    );
    lemma_noted_outputs(
        f,
        base.output.weights@,
        m.output.weights@,
        k.output_neurons,
        r.size(),
        r.alphabet.output_classes as int,
        full.output_weight@,
        noted_delta.output_weight@,
    );
    if k.output_bias_dirty {
        lemma_differences_agree(
            f,
            base.output.bias@,
            m.output.bias@,
            noted_delta.output_bias@,
            full.output_bias@,
        );
    } else {
        law_equal_tensors_have_no_differences(
            f,
            base.output.bias@,
            m.output.bias@,
            full.output_bias@,
        );
        assert(noted_delta.output_bias@ =~= full.output_bias@);
    }
    if k.context_output_dirty {
        lemma_differences_agree(
            f,
            base.context.output_weights@,
            m.context.output_weights@,
            noted_delta.context_output_weight@,
            full.context_output_weight@,
        );
    } else {
        law_equal_tensors_have_no_differences(
            f,
            base.context.output_weights@,
            m.context.output_weights@,
            full.context_output_weight@,
        );
        assert(noted_delta.context_output_weight@ =~= full.context_output_weight@);
    }
    lemma_noted_rows(
        f,
        base,
        r,
        row_views(full.context@),
        row_views(noted_delta.context@),
    );
}

} // verus!
