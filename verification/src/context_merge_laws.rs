//! What a merge makes of the embeddings of contexts.

use crate::arithmetic::Numerics;
use crate::context::{table_of, ContextTable};
use crate::context_merge::{
    after_place, all_rows, belongs, column, context_merged, entries_merged, entries_ranked,
    entry_listed, entry_merged, lemma_positions, occurs, positions_in, rows_mergeable,
    ContextEntry,
};
use crate::delta_laws::keys_at_home;
use crate::error::LeoError;
use crate::key_laws::lemma_slot_in_table;
use crate::merge::means;
use crate::merge_laws::{
    lemma_entries_keep_keys, lemma_entry_order, lemma_held_alike, lemma_home_follows_the_keys,
    lemma_known_keys, lemma_named_rows, lemma_partitions_apart, lemma_resolution_leads_home,
    merged_by, names_at, workers_name,
};
use crate::model::{lemma_row_fits, Model};
use crate::parallel::{
    row_views, ConfigFingerprint, ContextKeyDelta, KeyedRow, MergeMetrics, SparseModelDelta,
};
use crate::reduction::reduction_result;
use crate::reduction_laws::{lemma_batch, lies};
use crate::scalar::Scalar;
use crate::symbols::Alphabet;
use vstd::prelude::*;

verus! {

/// How many of some rows name a fingerprint.
pub open spec fn rows_naming(rows: Seq<ContextKeyDelta>, order: int, key: u64) -> int
    decreases rows.len(),
{
    if rows.len() == 0 {
        0
    } else {
        rows_naming(rows.drop_last(), order, key) + if rows.last().order == order
            && rows.last().key == key {
            1int
        } else {
            0
        }
    }
}

/// How many rows of all workers name a fingerprint.
pub open spec fn workers_naming(deltas: Seq<SparseModelDelta>, order: int, key: u64) -> int
    decreases deltas.len(),
{
    if deltas.len() == 0 {
        0
    } else {
        workers_naming(deltas.drop_last(), order, key) + rows_naming(
            deltas.last().context@,
            order,
            key,
        )
    }
}

proof fn lemma_rows_naming(flat: Seq<KeyedRow>, rows: Seq<ContextKeyDelta>, order: int, key: u64)
    ensures
        positions_in(flat + row_views(rows), order, key).len() == positions_in(
            flat,
            order,
            key,
        ).len() + rows_naming(rows, order, key),
    decreases rows.len(),
{
    if rows.len() == 0 {
        assert(flat + row_views(rows) =~= flat);
    } else {
        lemma_rows_naming(flat, rows.drop_last(), order, key);
        let all = flat + row_views(rows);
        assert(all.drop_last() =~= flat + row_views(rows.drop_last()));
        assert(all.last() == rows.last()@);
    }
}

proof fn lemma_workers_naming(deltas: Seq<SparseModelDelta>, order: int, key: u64)
    ensures
        positions_in(all_rows(deltas), order, key).len() == workers_naming(deltas, order, key),
    decreases deltas.len(),
{
    if deltas.len() > 0 {
        lemma_workers_naming(deltas.drop_last(), order, key);
        lemma_rows_naming(all_rows(deltas.drop_last()), deltas.last().context@, order, key);
    }
}

/// Every row that belongs to a fingerprint has its position listed.
proof fn lemma_positions_complete(flat: Seq<KeyedRow>, order: int, key: u64, at: int)
    requires
        0 <= at < flat.len(),
        belongs(flat[at], order, key),
    ensures
        positions_in(flat, order, key).contains(at),
    decreases flat.len(),
{
    let all = positions_in(flat, order, key);
    if at == flat.len() - 1 {
        assert(all.last() == at);
    } else {
        let shorter = flat.drop_last();
        assert(shorter[at] == flat[at]);
        lemma_positions_complete(shorter, order, key, at);
        let earlier = positions_in(shorter, order, key);
        let i = choose|i: int| 0 <= i < earlier.len() && earlier[i] == at;
        assert(all[i] == at);
    }
}

/// The rows of a worker stand among those of all.
proof fn lemma_row_stands(deltas: Seq<SparseModelDelta>, w: int, j: int) -> (at: int)
    requires
        0 <= w < deltas.len(),
        0 <= j < deltas[w].context@.len(),
    ensures
        0 <= at < all_rows(deltas).len(),
        all_rows(deltas)[at] == deltas[w].context@[j]@,
    decreases deltas.len(),
{
    let earlier = deltas.drop_last();
    if w == deltas.len() - 1 {
        let at = all_rows(earlier).len() + j;
        assert(all_rows(deltas)[at] == row_views(deltas.last().context@)[j]);
        at
    } else {
        assert(earlier[w] == deltas[w]);
        let at = lemma_row_stands(earlier, w, j);
        assert(all_rows(deltas)[at] == all_rows(earlier)[at]);
        at
    }
}

/// Places of different rows differ.
proof fn lemma_rows_apart(slot: int, other: int, dim: int, i: int)
    requires
        slot != other,
        0 <= i < dim,
    ensures
        !(other * dim <= slot * dim + i < other * dim + dim),
{
    if slot < other {
        assert(slot * dim + dim <= other * dim) by (nonlinear_arith)
            requires
                slot < other,
                0 < dim,
        ;
    } else {
        assert(other * dim + dim <= slot * dim) by (nonlinear_arith)
            requires
                other < slot,
                0 < dim,
        ;
    }
}

/// Where every fingerprint that is merged is held already, a number of an embedding is moved once.
proof fn lemma_known_embeddings<G: Fn(Scalar, Vec<Scalar>, usize) -> Scalar>(
    g: G,
    flat: Seq<KeyedRow>,
    workers: usize,
    entries: Seq<ContextEntry>,
    tables: Seq<ContextTable>,
    dim: int,
    upto: int,
    order: int,
    key: u64,
    slot: int,
    i: int,
)
    requires
        entries_merged(g, flat, workers, entries, tables),
        entries_ranked(flat, entries),
        rows_mergeable(flat, dim, tables[0].max_order),
        tables[0].wf(),
        tables[0].embedding_dim == dim,
        keys_at_home(tables[0]),
        forall|i: int|
            0 <= i < entries.len() ==> tables[0].holds((#[trigger] entries[i]).order, entries[i].key),
        0 <= upto <= entries.len(),
        tables[0].in_partition(order, slot),
        tables[0].keys[slot] == key,
        key != 0,
        0 <= i < dim,
        tables[0].embeddings.len() == tables[0].keys.len() * dim,
    ensures
        tables[upto].embedding_dim == dim,
        tables[upto].embeddings.len() == tables[0].embeddings.len(),
        0 <= slot * dim + i < tables[0].embeddings.len(),
        merged_by(entries, order, key, upto) ==> means(
            g,
            tables[0].embeddings[slot * dim + i],
            column(flat, order, key, i),
            workers,
            tables[upto].embeddings[slot * dim + i],
        ),
        !merged_by(entries, order, key, upto) ==> tables[upto].embeddings[slot * dim + i]
            == tables[0].embeddings[slot * dim + i],
    decreases upto,
{
    let j = slot * dim + i;
    lemma_slot_in_table(tables[0], order, slot);
    lemma_row_fits(slot, tables[0].keys.len() as int, dim);
    if upto > 0 {
        let k = upto - 1;
        let e = entries[k];
        let t = tables[k];
        let after = tables[after_place(k)];
        lemma_known_embeddings(g, flat, workers, entries, tables, dim, k, order, key, slot, i);
        assert(entry_merged(g, flat, workers, e, t, after));
        lemma_entries_keep_keys(g, flat, workers, entries, tables, dim, k);
        lemma_known_keys(g, flat, workers, entries, tables, dim, k);
        lemma_entry_order::<G>(flat, entries, dim, tables[0].max_order, k);
        lemma_held_alike(tables[0], t, e.order, e.key);
        lemma_resolution_leads_home(t, e.order, e.key);
        let s = t.resolve(e.order, e.key, true).1->0;
        assert(after.embeddings.len() == t.embeddings.len());
        assert(after.embedding_dim == dim);
        if e.order == order && e.key == key {
            assert(t.in_partition(order, s) && t.in_partition(order, slot));
            assert(s == slot);
            assert(merged_by(entries, order, key, upto)) by {
                assert(entries[k].order == order);
            }
            if merged_by(entries, order, key, k) {
                let i = choose|i: int|
                    0 <= i < k && (#[trigger] entries[i]).order == order && entries[i].key == key;
                assert(crate::context_merge::merges_before(entries[i], entries[k]));
            }
            assert(j - slot * dim == i);
            assert(means(
                g,
                t.embeddings[j],
                column(flat, order, key, j - slot * dim),
                workers,
                after.embeddings[j],
            ));
        } else {
            if s == slot {
                lemma_partitions_apart(t, order, e.order, s);
            }
            lemma_rows_apart(slot, s, dim, i);
            assert(after.embeddings[j] == t.embeddings[j]);
            if merged_by(entries, order, key, upto) {
                let i = choose|i: int|
                    0 <= i < upto && (#[trigger] entries[i]).order == order && entries[i].key
                        == key;
                assert(entries[i].order == order);
                assert(i < k);
            }
            if merged_by(entries, order, key, k) {
                let i = choose|i: int|
                    0 <= i < k && (#[trigger] entries[i]).order == order && entries[i].key == key;
                assert(entries[i].order == order);
            }
        }
    }
}

/// Every worker is heard of every context: where the memory knew all fingerprints that the workers
/// name, each number of a fingerprint's embedding moves by the mean, over all workers of the batch, of
/// a list that holds what each row of that fingerprint says and nothing else, as far as that lies
/// within the bounds of learning; and the embeddings of other fingerprints stay as they are.
pub proof fn law_merges_hear_every_context<
    T: Numerics,
    G: Fn(Scalar, Vec<Scalar>, usize) -> Scalar,
>(
    ops: T,
    g: G,
    before: Model,
    deltas: Seq<SparseModelDelta>,
    fingerprint: ConfigFingerprint,
    alphabet: Alphabet,
    after: Model,
    metrics: MergeMetrics,
    order: int,
    key: u64,
    slot: int,
    i: int,
)
    requires
        before.context_ready(),
        0 < before.config.context.probe_limit,
        keys_at_home(table_of(before)),
        reduction_result(
            ops,
            g,
            before,
            deltas,
            fingerprint,
            alphabet,
            after,
            Ok::<MergeMetrics, LeoError>(metrics),
        ),
        forall|o: int, k: u64| #[trigger]
            workers_name(deltas, o, k) ==> table_of(before).holds(o, k),
        key != 0,
        table_of(before).in_partition(order, slot),
        before.context.keys@[slot] == key,
        0 <= i < before.config.context.embedding_dim,
    ensures
        ({
            let place = slot * before.config.context.embedding_dim + i;
            let l = before.config.learning;
            let x = after.context.embeddings@[place];
            let was = before.context.embeddings@[place];
            if workers_naming(deltas, order, key) == 0 {
                lies(was, l.weight_min, l.weight_max) ==> x == was
            } else {
                exists|list: Vec<Scalar>, y: Scalar|
                    {
                        &&& #[trigger] call_ensures(g, (was, list, deltas.len() as usize), y)
                        &&& list@.len() == workers_naming(deltas, order, key)
                        &&& forall|w: int, j: int|
                            0 <= w < deltas.len() && 0 <= j < deltas[w].context@.len()
                                && #[trigger] names_at(deltas, w, j, order, key)
                                ==> list@.contains(deltas[w].context@[j].embedding_delta@[i])
                        &&& lies(y, l.weight_min, l.weight_max) ==> x == y
                    }
            }
        }),
{
    let (first, second, third) = lemma_batch(
        ops,
        g,
        before,
        deltas,
        fingerprint,
        alphabet,
        after,
        metrics,
    );
    let keys = metrics.context_keys;
    lemma_home_follows_the_keys(table_of(before), table_of(first));
    let flat = all_rows(deltas);
    let c = first.config.context;
    let workers = deltas.len() as usize;
    let entries = choose|entries: Seq<ContextEntry>|
        {
            &&& #[trigger] entries_ranked(flat, entries)
            &&& context_merged(g, flat, workers, entries, table_of(first), table_of(second))
            &&& Ok::<usize, LeoError>(keys) == Ok::<usize, LeoError>(entries.len() as usize)
        };
    let tables = choose|tables: Seq<ContextTable>|
        {
            &&& #[trigger] entries_merged(g, flat, workers, entries, tables)
            &&& tables[0] == table_of(first)
            &&& tables.last() == table_of(second)
        };
    let n = entries.len() as int;
    let dim = c.embedding_dim as int;
    assert forall|i: int| 0 <= i < entries.len() implies tables[0].holds(
        (#[trigger] entries[i]).order,
        entries[i].key,
    ) by {
        let e = entries[i];
        lemma_positions(flat, e.order, e.key);
        assert(occurs(flat, e.order, e.key));
        let at = positions_in(flat, e.order, e.key)[0];
        lemma_named_rows(deltas, e.order, e.key, at);
        assert(workers_name(deltas, e.order, e.key));
        assert(table_of(before).holds(e.order, e.key));
        let o = choose|o: int| #[trigger] table_of(before).hit(e.order, e.key, o);
        assert(tables[0] == table_of(before));
    }
    lemma_known_embeddings(g, flat, workers, entries, tables, dim, n, order, key, slot, i);
    lemma_workers_naming(deltas, order, key);
    lemma_positions(flat, order, key);
    let place = slot * dim + i;
    let was = before.context.embeddings@[place];
    let y = second.context.embeddings@[place];
    assert(table_of(second).embeddings == third.context.embeddings@);
    assert(table_of(first).embeddings == before.context.embeddings@);
    if workers_naming(deltas, order, key) > 0 {
        let list = positions_in(flat, order, key);
        let at = list[0];
        assert(belongs(flat[at], order, key));
        assert(entry_listed(entries, flat[at].order, flat[at].key));
        let k = choose|k: int|
            0 <= k < entries.len() && (#[trigger] entries[k]).order == order && entries[k].key
                == key;
        assert(merged_by(entries, order, key, n)) by {
            assert(entries[k].order == order);
        }
        let said = column(flat, order, key, i);
        assert(means(g, was, said, workers, y));
        let v = choose|v: Vec<Scalar>|
            v@ == said && #[trigger] call_ensures(g, (was, v, workers), y);
        assert forall|w: int, j: int|
            0 <= w < deltas.len() && 0 <= j < deltas[w].context@.len() && #[trigger] names_at(
                deltas,
                w,
                j,
                order,
                key,
            ) implies v@.contains(deltas[w].context@[j].embedding_delta@[i]) by {
            let p = lemma_row_stands(deltas, w, j);
            lemma_positions_complete(flat, order, key, p);
            let q = choose|q: int| 0 <= q < list.len() && list[q] == p;
            assert(said[q] == deltas[w].context@[j].embedding_delta@[i]);
        }
        assert(call_ensures(g, (was, v, workers), y));
    } else {
        if merged_by(entries, order, key, n) {
            let k = choose|k: int|
                0 <= k < n && (#[trigger] entries[k]).order == order && entries[k].key == key;
            assert(occurs(flat, entries[k].order, entries[k].key));
        }
    }
}

} // verus!
