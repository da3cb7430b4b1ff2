//! What merging the deltas of workers leaves of the context memory.

use crate::arithmetic::Numerics;
use crate::context::{table_of, ContextTable};
use crate::context_merge::{
    after_place, all_rows, belongs, context_merged, context_result, entries_merged, entries_ranked,
    entry_listed, entry_merged, lemma_positions, observed_in, occurs, positions_in, row_mergeable, rows_mergeable,
    ContextEntry,
};
use crate::delta_laws::keys_at_home;
use crate::error::{LeoError, LeoResult};
use crate::key_laws::{lemma_resolution_keeps_keys, lemma_slot_in_table};
use crate::merge::tensors_merged;
use crate::model::{lemma_probe_in_partition, Model};
use crate::parallel::{
    row_views, ConfigFingerprint, ContextKeyDelta, KeyedRow, MergeMetrics, SparseModelDelta,
};
use crate::reduction::{batch_merged, batch_problem, reduction_result};
use crate::scalar::Scalar;
use crate::symbols::Alphabet;
use vstd::prelude::*;

verus! {

/// The memories hold the same fingerprints in the same places.
pub open spec fn same_keys(a: ContextTable, b: ContextTable) -> bool {
    &&& a.keys == b.keys
    &&& a.max_order == b.max_order
    &&& a.slots_per_order == b.slots_per_order
    &&& a.probe_limit == b.probe_limit
}

/// Where fingerprints are at home follows from the fingerprints alone.
pub proof fn lemma_home_follows_the_keys(a: ContextTable, b: ContextTable)
    requires
        same_keys(a, b),
        keys_at_home(a),
    ensures
        keys_at_home(b),
{
    assert forall|order: int, slot: int|
        #![trigger b.in_partition(order, slot)]
        b.in_partition(order, slot) && b.keys[slot] != 0 implies exists|o: int|
        0 <= o < b.probe_limit && #[trigger] b.slot_at(order, b.keys[slot], o) == slot by {
        assert(a.in_partition(order, slot));
        let o = choose|o: int|
            0 <= o < a.probe_limit && #[trigger] a.slot_at(order, a.keys[slot], o) == slot;
        assert(b.slot_at(order, b.keys[slot], o) == slot);
    }
    assert forall|order: int, x: int, y: int|
        #![trigger b.in_partition(order, x), b.in_partition(order, y)]
        b.in_partition(order, x) && b.in_partition(order, y) && x != y && b.keys[x]
            != 0 implies b.keys[x] != b.keys[y] by {
        assert(a.in_partition(order, x) && a.in_partition(order, y));
    }
}

/// Merging the first `upto` entries leaves every fingerprint at home.
pub proof fn lemma_entries_keep_keys<G: Fn(Scalar, Vec<Scalar>, usize) -> Scalar>(
    g: G,
    flat: Seq<KeyedRow>,
    workers: usize,
    entries: Seq<ContextEntry>,
    tables: Seq<ContextTable>,
    dim: int,
    upto: int,
)
    requires
        entries_merged(g, flat, workers, entries, tables),
        entries_ranked(flat, entries),
        rows_mergeable(flat, dim, tables[0].max_order),
        tables[0].wf(),
        keys_at_home(tables[0]),
        0 <= upto <= entries.len(),
    ensures
        tables[upto].wf(),
        tables[upto].max_order == tables[0].max_order,
        keys_at_home(tables[upto]),
    decreases upto,
{
    if upto > 0 {
        let k = upto - 1;
        lemma_entries_keep_keys(g, flat, workers, entries, tables, dim, k);
        let e = entries[k];
        let t = tables[k];
        let after = tables[after_place(k)];
        assert(entry_merged(g, flat, workers, e, t, after));
        lemma_positions(flat, e.order, e.key);
        let at = positions_in(flat, e.order, e.key);
        assert(occurs(flat, e.order, e.key));
        assert(row_mergeable(flat[at[0]], dim, tables[0].max_order));
        lemma_resolution_keeps_keys(t, e.order, e.key, true);
        let (given, found, _) = t.resolve(e.order, e.key, true);
        let slot = found->0;
        assert(0 <= slot < given.keys.len()) by {
            reveal(ContextTable::resolve);
            let o = if t.holds(e.order, e.key) {
                choose|o: int| #[trigger] t.hit(e.order, e.key, o)
            } else {
                choose|o: int| #[trigger] t.victim(e.order, e.key, o)
            };
            lemma_probe_in_partition(e.order, e.key, t.slots_per_order, o);
            assert(t.in_partition(e.order, slot));
            lemma_slot_in_table(t, e.order, slot);
        }
        lemma_home_follows_the_keys(given, after);
    }
}

/// Merging the context entries of a batch leaves every fingerprint at home.
proof fn lemma_contexts_keep_keys<G: Fn(Scalar, Vec<Scalar>, usize) -> Scalar>(
    g: G,
    before: Model,
    deltas: Seq<SparseModelDelta>,
    after: Model,
    r: LeoResult<usize>,
)
    requires
        before.context_ready(),
        0 < before.config.context.probe_limit,
        keys_at_home(table_of(before)),
        context_result(g, before, deltas, after, r),
    ensures
        keys_at_home(table_of(after)),
{
    let flat = all_rows(deltas);
    let c = before.config.context;
    if rows_mergeable(flat, c.embedding_dim as int, c.max_order as int) {
        let entries = choose|entries: Seq<ContextEntry>|
            {
                &&& #[trigger] entries_ranked(flat, entries)
                &&& context_merged(
                    g,
                    flat,
                    deltas.len() as usize,
                    entries,
                    table_of(before),
                    table_of(after),
                )
                &&& r == Ok::<usize, LeoError>(entries.len() as usize)
            };
        let tables = choose|tables: Seq<ContextTable>|
            {
                &&& #[trigger] entries_merged(g, flat, deltas.len() as usize, entries, tables)
                &&& tables[0] == table_of(before)
                &&& tables.last() == table_of(after)
            };
        lemma_entries_keep_keys(
            g,
            flat,
            deltas.len() as usize,
            entries,
            tables,
            c.embedding_dim as int,
            entries.len() as int,
        );
    }
}

/// Merging a batch of workers leaves every fingerprint of the context memory at home, whether the
/// merge comes to its end or not.
pub proof fn law_merges_keep_keys_at_home<T: Numerics, G: Fn(Scalar, Vec<Scalar>, usize) -> Scalar>(
    ops: T,
    g: G,
    before: Model,
    deltas: Seq<SparseModelDelta>,
    fingerprint: ConfigFingerprint,
    alphabet: Alphabet,
    after: Model,
    r: LeoResult<MergeMetrics>,
)
    requires
        before.context_ready(),
        0 < before.config.context.probe_limit,
        keys_at_home(table_of(before)),
        reduction_result(
            ops,
            g,
            before,
            deltas,
            fingerprint,
            alphabet,
            after,
            r,
        ),
    ensures
        keys_at_home(table_of(after)),
{
    if batch_problem(deltas, fingerprint, before.parameter_revision) is None {
        if exists|e: LeoError| tensors_merged(g, before, deltas, after, Err::<usize, LeoError>(e)) {
            lemma_home_follows_the_keys(table_of(before), table_of(after));
        } else if exists|updates: usize| #[trigger]
            tensors_merged(g, before, deltas, after, Ok::<usize, LeoError>(updates)) {
            lemma_home_follows_the_keys(table_of(before), table_of(after));
        } else {
            let (first, second, third, updates, keys) = choose|
                first: Model,
                second: Model,
                third: Model,
                updates: usize,
                keys: usize,
            | #[trigger]
                batch_merged(
                    ops,
                    g,
                    before,
                    deltas,
                            first,
                    second,
                    third,
                    after,
                    updates,
                    keys,
                );
            lemma_home_follows_the_keys(table_of(before), table_of(first));
            lemma_contexts_keep_keys(g, first, deltas, second, Ok::<usize, LeoError>(keys));
            lemma_home_follows_the_keys(table_of(second), table_of(after));
        }
    }
}

/// How often some rows say that a fingerprint was observed.
pub open spec fn rows_observed(rows: Seq<ContextKeyDelta>, order: int, key: u64) -> int
    decreases rows.len(),
{
    if rows.len() == 0 {
        0
    } else {
        rows_observed(rows.drop_last(), order, key) + if rows.last().order == order
            && rows.last().key == key {
            rows.last().observation_increment as int
        } else {
            0
        }
    }
}

/// How often all workers together say that a fingerprint was observed.
pub open spec fn workers_observed(deltas: Seq<SparseModelDelta>, order: int, key: u64) -> int
    decreases deltas.len(),
{
    if deltas.len() == 0 {
        0
    } else {
        workers_observed(deltas.drop_last(), order, key) + rows_observed(
            deltas.last().context@,
            order,
            key,
        )
    }
}

/// A number, held at the largest count.
pub open spec fn at_most_full(n: int) -> int {
    if n > u32::MAX {
        u32::MAX as int
    } else {
        n
    }
}

pub proof fn lemma_rows_observed(flat: Seq<KeyedRow>, rows: Seq<ContextKeyDelta>, order: int, key: u64)
    ensures
        rows_observed(rows, order, key) >= 0,
        observed_in(flat, order, key) + rows_observed(rows, order, key) <= u64::MAX ==> observed_in(
            flat + row_views(rows),
            order,
            key,
        ) == observed_in(flat, order, key) + rows_observed(rows, order, key),
        observed_in(flat, order, key) + rows_observed(rows, order, key) > u64::MAX ==> observed_in(
            flat + row_views(rows),
            order,
            key,
        ) == u64::MAX,
    decreases rows.len(),
{
    if rows.len() == 0 {
        assert(flat + row_views(rows) =~= flat);
    } else {
        lemma_rows_observed(flat, rows.drop_last(), order, key);
        let all = flat + row_views(rows);
        assert(all.drop_last() =~= flat + row_views(rows.drop_last()));
        assert(all.last() == rows.last()@);
    }
}

pub proof fn lemma_workers_observed(deltas: Seq<SparseModelDelta>, order: int, key: u64)
    ensures
        workers_observed(deltas, order, key) >= 0,
        workers_observed(deltas, order, key) <= u64::MAX ==> observed_in(
            all_rows(deltas),
            order,
            key,
        ) == workers_observed(deltas, order, key),
        workers_observed(deltas, order, key) > u64::MAX ==> observed_in(
            all_rows(deltas),
            order,
            key,
        ) == u64::MAX,
    decreases deltas.len(),
{
    if deltas.len() > 0 {
        lemma_workers_observed(deltas.drop_last(), order, key);
        lemma_rows_observed(
            all_rows(deltas.drop_last()),
            deltas.last().context@,
            order,
            key,
        );
        lemma_rows_observed(Seq::empty(), deltas.last().context@, order, key);
    }
}

/// A fingerprint that no worker names was observed by none.
proof fn lemma_unnamed(flat: Seq<KeyedRow>, order: int, key: u64)
    requires
        forall|i: int| 0 <= i < flat.len() ==> !belongs(#[trigger] flat[i], order, key),
    ensures
        observed_in(flat, order, key) == 0,
    decreases flat.len(),
{
    if flat.len() > 0 {
        assert forall|i: int| 0 <= i < flat.drop_last().len() implies !belongs(
            #[trigger] flat.drop_last()[i],
            order,
            key,
        ) by {
            assert(flat.drop_last()[i] == flat[i]);
        }
        lemma_unnamed(flat.drop_last(), order, key);
    }
}

/// Where resolving a fingerprint leads: into the partition of its order, to a slot that then holds
/// it. Only that slot can have changed, and one that held the fingerprint has not.
pub proof fn lemma_resolution_leads_home(t: ContextTable, order: int, key: u64)
    requires
        t.wf(),
        1 <= order <= t.max_order,
    ensures
        ({
            let (given, found, _) = t.resolve(order, key, true);
            &&& found matches Some(slot) && {
                &&& t.in_partition(order, slot)
                &&& 0 <= slot < t.keys.len()
                &&& given.keys[slot] == key
                &&& t.keys[slot] == key ==> given.observations[slot] == t.observations[slot]
                &&& t.keys[slot] != key ==> given.observations[slot] == 0
                &&& forall|other: int|
                    0 <= other < t.keys.len() && other != slot ==> #[trigger] given.keys[other]
                        == t.keys[other] && given.observations[other] == t.observations[other]
                &&& t.holds(order, key) ==> given == t && t.keys[slot] == key
            }
            &&& given.keys.len() == t.keys.len()
            &&& given.observations.len() == t.observations.len()
            &&& given.max_order == t.max_order
            &&& given.slots_per_order == t.slots_per_order
            &&& given.probe_limit == t.probe_limit
        }),
{
    reveal(ContextTable::resolve);
    let o = if t.holds(order, key) {
        choose|o: int| #[trigger] t.hit(order, key, o)
    } else {
        choose|o: int| #[trigger] t.victim(order, key, o)
    };
    if !t.holds(order, key) {
        crate::context::lemma_victim_exists(t, order, key);
    }
    let slot = t.slot_at(order, key, o);
    lemma_probe_in_partition(order, key, t.slots_per_order, o);
    assert(t.in_partition(order, slot));
    lemma_slot_in_table(t, order, slot);
    if !t.holds(order, key) && t.keys[slot] == key {
        crate::context::lemma_table_holds(t, order, key, o);
    }
}

/// Orders have partitions of their own.
pub proof fn lemma_partitions_apart(t: ContextTable, order: int, other: int, slot: int)
    requires
        t.in_partition(order, slot),
        t.in_partition(other, slot),
    ensures
        order == other,
{
    let n = t.slots_per_order;
    if order < other {
        assert((order - 1) * n + n <= (other - 1) * n) by (nonlinear_arith)
            requires
                order < other,
                0 <= n,
        ;
    } else if other < order {
        assert((other - 1) * n + n <= (order - 1) * n) by (nonlinear_arith)
            requires
                other < order,
                0 <= n,
        ;
    }
}

/// One of the first `upto` entries is that of a fingerprint.
pub open spec fn merged_by(entries: Seq<ContextEntry>, order: int, key: u64, upto: int) -> bool {
    exists|i: int|
        0 <= i < upto && (#[trigger] entries[i]).order == order && entries[i].key == key
}

/// The orders of entries are among those of the memory.
pub proof fn lemma_entry_order<G: Fn(Scalar, Vec<Scalar>, usize) -> Scalar>(
    flat: Seq<KeyedRow>,
    entries: Seq<ContextEntry>,
    dim: int,
    max_order: int,
    k: int,
)
    requires
        entries_ranked(flat, entries),
        rows_mergeable(flat, dim, max_order),
        0 <= k < entries.len(),
    ensures
        1 <= entries[k].order <= max_order,
        entries[k].key != 0,
{
    let e = entries[k];
    lemma_positions(flat, e.order, e.key);
    let at = positions_in(flat, e.order, e.key);
    assert(occurs(flat, e.order, e.key));
    assert(row_mergeable(flat[at[0]], dim, max_order));
}

/// Once a fingerprint is merged, a slot of its order that holds it has at least the observations of
/// the workers.
proof fn lemma_merged_counts<G: Fn(Scalar, Vec<Scalar>, usize) -> Scalar>(
    g: G,
    flat: Seq<KeyedRow>,
    workers: usize,
    entries: Seq<ContextEntry>,
    tables: Seq<ContextTable>,
    dim: int,
    upto: int,
    order: int,
    key: u64,
    slot: int,
)
    requires
        entries_merged(g, flat, workers, entries, tables),
        entries_ranked(flat, entries),
        rows_mergeable(flat, dim, tables[0].max_order),
        tables[0].wf(),
        keys_at_home(tables[0]),
        0 <= upto <= entries.len(),
        merged_by(entries, order, key, upto),
        tables[upto].in_partition(order, slot),
        tables[upto].keys[slot] == key,
    ensures
        tables[upto].observations[slot] >= at_most_full(observed_in(flat, order, key) as int),
    decreases upto,
{
    let k = upto - 1;
    let e = entries[k];
    let t = tables[k];
    let after = tables[after_place(k)];
    assert(entry_merged(g, flat, workers, e, t, after));
    lemma_entries_keep_keys(g, flat, workers, entries, tables, dim, k);
    lemma_entries_keep_keys(g, flat, workers, entries, tables, dim, upto);
    lemma_entry_order::<G>(flat, entries, dim, tables[0].max_order, k);
    lemma_resolution_leads_home(t, e.order, e.key);
    let (given, found, _) = t.resolve(e.order, e.key, true);
    let s = found->0;
    lemma_slot_in_table(after, order, slot);
    if e.order == order && e.key == key {
        assert(after.in_partition(order, s));
        assert(after.keys[s] == key);
        assert(s == slot);
    } else {
        let i = choose|i: int|
            0 <= i < upto && (#[trigger] entries[i]).order == order && entries[i].key == key;
        assert(merged_by(entries, order, key, k)) by {
            assert(entries[i].order == order && entries[i].key == key);
        }
        if s == slot {
            assert(after.in_partition(e.order, s));
            lemma_partitions_apart(after, order, e.order, s);
            assert(false);
        }
        assert(t.keys[slot] == key);
        assert(t.in_partition(order, slot));
        lemma_merged_counts(
            g, flat, workers, entries, tables, dim, k, order, key, slot,
        );
    }
}

/// Where every fingerprint that is merged is held already, none is displaced, and the observations
/// of a slot follow from what has been merged.
proof fn lemma_known_counts<G: Fn(Scalar, Vec<Scalar>, usize) -> Scalar>(
    g: G,
    flat: Seq<KeyedRow>,
    workers: usize,
    entries: Seq<ContextEntry>,
    tables: Seq<ContextTable>,
    dim: int,
    upto: int,
    order: int,
    key: u64,
    slot: int,
)
    requires
        entries_merged(g, flat, workers, entries, tables),
        entries_ranked(flat, entries),
        rows_mergeable(flat, dim, tables[0].max_order),
        tables[0].wf(),
        keys_at_home(tables[0]),
        forall|i: int|
            0 <= i < entries.len() ==> tables[0].holds((#[trigger] entries[i]).order, entries[i].key),
        0 <= upto <= entries.len(),
        tables[0].in_partition(order, slot),
        tables[0].keys[slot] == key,
        key != 0,
    ensures
        tables[upto].keys == tables[0].keys,
        tables[upto].wf(),
        tables[upto].max_order == tables[0].max_order,
        tables[upto].slots_per_order == tables[0].slots_per_order,
        tables[upto].probe_limit == tables[0].probe_limit,
        tables[upto].observations[slot] == at_most_full(
            tables[0].observations[slot] + if merged_by(entries, order, key, upto) {
                observed_in(flat, order, key) as int
            } else {
                0
            },
        ),
    decreases upto,
{
    if upto > 0 {
        let k = upto - 1;
        let e = entries[k];
        let t = tables[k];
        let after = tables[after_place(k)];
        lemma_known_counts(g, flat, workers, entries, tables, dim, k, order, key, slot);
        assert(entry_merged(g, flat, workers, e, t, after));
        lemma_entries_keep_keys(g, flat, workers, entries, tables, dim, k);
        lemma_entry_order::<G>(flat, entries, dim, tables[0].max_order, k);
        lemma_held_alike(tables[0], t, e.order, e.key);
        lemma_resolution_leads_home(t, e.order, e.key);
        let s = t.resolve(e.order, e.key, true).1->0;
        lemma_slot_in_table(t, order, slot);
        if e.order == order && e.key == key {
            assert(t.in_partition(order, s) && t.in_partition(order, slot));
            assert(s == slot);
            assert(merged_by(entries, order, key, upto)) by {
                assert(entries[k].order == order);
            }
            if merged_by(entries, order, key, k) {
                let i = choose|i: int|
                    0 <= i < k && (#[trigger] entries[i]).order == order && entries[i].key == key;
                assert(crate::context_merge::merges_before(entries[i], entries[k]));
            }
        } else {
            if s == slot {
                lemma_partitions_apart(t, order, e.order, s);
            }
            if merged_by(entries, order, key, upto) {
                let i = choose|i: int|
                    0 <= i < upto && (#[trigger] entries[i]).order == order && entries[i].key
                        == key;
                assert(entries[i].order == order);
                assert(i < k);
            }
            if merged_by(entries, order, key, k) {
                let i = choose|i: int|
                    0 <= i < k && (#[trigger] entries[i]).order == order && entries[i].key == key;
                assert(entries[i].order == order);
            }
        }
    }
}

/// Where every fingerprint that is merged is held already, the fingerprints stay where they are.
pub proof fn lemma_known_keys<G: Fn(Scalar, Vec<Scalar>, usize) -> Scalar>(
    g: G,
    flat: Seq<KeyedRow>,
    workers: usize,
    entries: Seq<ContextEntry>,
    tables: Seq<ContextTable>,
    dim: int,
    upto: int,
)
    requires
        entries_merged(g, flat, workers, entries, tables),
        entries_ranked(flat, entries),
        rows_mergeable(flat, dim, tables[0].max_order),
        tables[0].wf(),
        keys_at_home(tables[0]),
        forall|i: int|
            0 <= i < entries.len() ==> tables[0].holds((#[trigger] entries[i]).order, entries[i].key),
        0 <= upto <= entries.len(),
    ensures
        same_keys(tables[upto], tables[0]),
    decreases upto,
{
    if upto > 0 {
        let k = upto - 1;
        let e = entries[k];
        let t = tables[k];
        lemma_known_keys(g, flat, workers, entries, tables, dim, k);
        assert(entry_merged(g, flat, workers, e, t, tables[after_place(k)]));
        lemma_held_alike(tables[0], t, e.order, e.key);
        reveal(ContextTable::resolve);
    }
}

/// Whether a fingerprint is held follows from the fingerprints alone.
pub proof fn lemma_held_alike(a: ContextTable, b: ContextTable, order: int, key: u64)
    requires
        same_keys(a, b),
        a.holds(order, key),
    ensures
        b.holds(order, key),
{
    let o = choose|o: int| #[trigger] a.hit(order, key, o);
    assert forall|j: int| a.slot_at(order, key, j) == #[trigger] b.slot_at(order, key, j) by {}
    assert(b.hit(order, key, o)) by {
        assert forall|j: int| 0 <= j < o implies b.keys[#[trigger] b.slot_at(order, key, j)]
            != key by {
            assert(a.keys[a.slot_at(order, key, j)] != key);
        }
    }
}

/// A worker names the fingerprint.
pub open spec fn workers_name(deltas: Seq<SparseModelDelta>, order: int, key: u64) -> bool {
    exists|i: int, j: int|
        0 <= i < deltas.len() && 0 <= j < deltas[i].context@.len() && #[trigger] names_at(
            deltas,
            i,
            j,
            order,
            key,
        )
}

/// The row names the fingerprint.
pub open spec fn names_at(
    deltas: Seq<SparseModelDelta>,
    i: int,
    j: int,
    order: int,
    key: u64,
) -> bool {
    deltas[i].context@[j].order == order && deltas[i].context@[j].key == key
}

pub proof fn lemma_named_rows(deltas: Seq<SparseModelDelta>, order: int, key: u64, at: int)
    requires
        0 <= at < all_rows(deltas).len(),
        belongs(all_rows(deltas)[at], order, key),
    ensures
        workers_name(deltas, order, key),
    decreases deltas.len(),
{
    let n = deltas.len() - 1;
    let earlier = all_rows(deltas.drop_last());
    let last = row_views(deltas.last().context@);
    if at < earlier.len() {
        lemma_named_rows(deltas.drop_last(), order, key, at);
        let (i, j) = choose|i: int, j: int|
            0 <= i < deltas.drop_last().len() && 0 <= j < deltas.drop_last()[i].context@.len()
                && #[trigger] names_at(deltas.drop_last(), i, j, order, key);
        assert(names_at(deltas, i, j, order, key));
    } else {
        let j = at - earlier.len();
        assert(all_rows(deltas)[at] == last[j]);
        assert(names_at(deltas, n, j, order, key));
    }
}

pub proof fn lemma_rows_of_names(deltas: Seq<SparseModelDelta>, order: int, key: u64) -> (at: int)
    requires
        workers_observed(deltas, order, key) > 0,
    ensures
        0 <= at < all_rows(deltas).len(),
        belongs(all_rows(deltas)[at], order, key),
{
    lemma_workers_observed(deltas, order, key);
    let flat = all_rows(deltas);
    if forall|i: int| 0 <= i < flat.len() ==> !belongs(#[trigger] flat[i], order, key) {
        lemma_unnamed(flat, order, key);
    }
    choose|i: int| 0 <= i < flat.len() && belongs(#[trigger] flat[i], order, key)
}

/// Nothing that the workers observed is lost: after a merge, a slot of the context memory that holds
/// a fingerprint has at least as many observations as the workers together made of it, as far as
/// they can be counted, whether the memory knew the fingerprint before or not. Where it knew every
/// fingerprint that the workers name, each slot has exactly those that it had before and those of
/// the workers.
pub proof fn law_merges_count_every_observation<
    T: Numerics,
    G: Fn(Scalar, Vec<Scalar>, usize) -> Scalar,
>(
    ops: T,
    g: G,
    before: Model,
    deltas: Seq<SparseModelDelta>,
    fingerprint: ConfigFingerprint,
    alphabet: Alphabet,
    after: Model,
    metrics: MergeMetrics,
    order: int,
    key: u64,
    slot: int,
)
    requires
        before.context_ready(),
        0 < before.config.context.probe_limit,
        keys_at_home(table_of(before)),
        reduction_result(
            ops,
            g,
            before,
            deltas,
            fingerprint,
            alphabet,
            after,
            Ok::<MergeMetrics, LeoError>(metrics),
        ),
        key != 0,
        table_of(after).in_partition(order, slot),
        after.context.keys@[slot] == key,
    ensures
        after.context.observations@[slot] >= at_most_full(workers_observed(deltas, order, key)),
        (forall|o: int, k: u64| #[trigger]
            workers_name(deltas, o, k) ==> table_of(before).holds(o, k)) ==> before.context.keys@
            == after.context.keys@ && after.context.observations@[slot] == at_most_full(
            before.context.observations@[slot] + workers_observed(deltas, order, key),
        ),
{
    let r = Ok::<MergeMetrics, LeoError>(metrics);
    let (first, second, third, updates, keys) = choose|
        first: Model,
        second: Model,
        third: Model,
        updates: usize,
        keys: usize,
    | #[trigger]
        batch_merged(ops, g, before, deltas, first, second, third, after, updates, keys);
    lemma_home_follows_the_keys(table_of(before), table_of(first));
    let flat = all_rows(deltas);
    let c = first.config.context;
    let workers = deltas.len() as usize;
    let entries = choose|entries: Seq<ContextEntry>|
        {
            &&& #[trigger] entries_ranked(flat, entries)
            &&& context_merged(g, flat, workers, entries, table_of(first), table_of(second))
            &&& Ok::<usize, LeoError>(keys) == Ok::<usize, LeoError>(entries.len() as usize)
        };
    let tables = choose|tables: Seq<ContextTable>|
        {
            &&& #[trigger] entries_merged(g, flat, workers, entries, tables)
            &&& tables[0] == table_of(first)
            &&& tables.last() == table_of(second)
        };
    let n = entries.len() as int;
    let dim = c.embedding_dim as int;
    lemma_workers_observed(deltas, order, key);
    assert(table_of(second).keys == after.context.keys@);
    assert(table_of(second).observations == after.context.observations@);
    if workers_observed(deltas, order, key) > 0 {
        let at = lemma_rows_of_names(deltas, order, key);
        assert(entry_listed(entries, flat[at].order, flat[at].key));
        let i = choose|i: int|
            0 <= i < entries.len() && (#[trigger] entries[i]).order == order && entries[i].key
                == key;
        assert(merged_by(entries, order, key, n)) by {
            assert(entries[i].order == order);
        }
        lemma_merged_counts(g, flat, workers, entries, tables, dim, n, order, key, slot);
    }
    if forall|o: int, k: u64| #[trigger]
        workers_name(deltas, o, k) ==> table_of(before).holds(o, k) {
        assert forall|i: int| 0 <= i < entries.len() implies tables[0].holds(
            (#[trigger] entries[i]).order,
            entries[i].key,
        ) by {
            let e = entries[i];
            lemma_positions(flat, e.order, e.key);
            assert(occurs(flat, e.order, e.key));
            let at = positions_in(flat, e.order, e.key)[0];
            lemma_named_rows(deltas, e.order, e.key, at);
            assert(workers_name(deltas, e.order, e.key));
            assert(tables[0].keys == table_of(before).keys);
            assert(table_of(before).holds(e.order, e.key));
            let o = choose|o: int| #[trigger] table_of(before).hit(e.order, e.key, o);
            assert(tables[0] == table_of(before));
        }
        lemma_known_keys(g, flat, workers, entries, tables, dim, n);
        lemma_known_counts(g, flat, workers, entries, tables, dim, n, order, key, slot);
        if !merged_by(entries, order, key, n) {
            assert(workers_observed(deltas, order, key) == 0);
        }
    }
}

} // verus!
