//! The context entries of a story batch, merged by order and fingerprint.

use crate::context::{resolve_in_table, table_of, ContextTable};
use crate::error::{fails, LeoError, LeoErrorKind, LeoResult};
use crate::merge::{means, takes_any_list};
use crate::metrics::capped_sum;
use crate::model::{lemma_row_fits, Model};
use crate::parallel::{row_views, ContextKeyDelta, KeyedRow, SparseModelDelta};
use crate::scalar::Scalar;
use crate::sorting::{lemma_ranked, rank_order, sort_ranked, Ranked};
use std::collections::HashMap;
use vstd::prelude::*;
use vstd::relations::total_ordering;
use vstd::std_specs::hash::group_hash_axioms;

verus! {

/// The entries of all workers, one worker after the other.
pub open spec fn all_rows(deltas: Seq<SparseModelDelta>) -> Seq<KeyedRow>
    decreases deltas.len(),
{
    if deltas.len() == 0 {
        seq![]
    } else {
        all_rows(deltas.drop_last()) + row_views(deltas.last().context@)
    }
}

/// The row belongs to a fingerprint of an order.
pub open spec fn belongs(row: KeyedRow, order: int, key: u64) -> bool {
    row.order == order && row.key == key
}

/// Where the rows of a fingerprint stand.
pub open spec fn positions_in(flat: Seq<KeyedRow>, order: int, key: u64) -> Seq<int>
    decreases flat.len(),
{
    if flat.len() == 0 {
        seq![]
    } else if belongs(flat.last(), order, key) {
        positions_in(flat.drop_last(), order, key).push(flat.len() - 1)
    } else {
        positions_in(flat.drop_last(), order, key)
    }
}

/// How often the workers observed a fingerprint, held at the largest value.
pub open spec fn observed_in(flat: Seq<KeyedRow>, order: int, key: u64) -> u64
    decreases flat.len(),
{
    if flat.len() == 0 {
        0
    } else if belongs(flat.last(), order, key) {
        capped_sum(
            observed_in(flat.drop_last(), order, key),
            flat.last().observation_increment as u64,
        )
    } else {
        observed_in(flat.drop_last(), order, key)
    }
}

/// A row that can be merged.
pub open spec fn row_mergeable(row: KeyedRow, dim: int, max_order: int) -> bool {
    &&& row.embedding_delta.len() == dim
    &&& 1 <= row.order <= max_order
    &&& row.key != 0
    &&& crate::model::all_finite(row.embedding_delta)
}

/// Every row can be merged.
pub open spec fn rows_mergeable(flat: Seq<KeyedRow>, dim: int, max_order: int) -> bool {
    forall|i: int| 0 <= i < flat.len() ==> row_mergeable(#[trigger] flat[i], dim, max_order)
}

/// Where a row stands: its worker and its place in the worker's list.
#[derive(Debug, Clone, Copy, PartialEq, Eq, Structural)]
struct RowRef {
    order: usize,
    key: u64,
    observations: u32,
    worker: usize,
    place: usize,
}

/// The reference names the row.
spec fn names(deltas: Seq<SparseModelDelta>, r: RowRef, row: KeyedRow) -> bool {
    &&& r.worker < deltas.len()
    &&& r.place < deltas[r.worker as int].context.len()
    &&& deltas[r.worker as int].context@[r.place as int]@ == row
    &&& r.order == row.order
    &&& r.key == row.key
    &&& r.observations == row.observation_increment
}

/// The references name the rows of a list, one for one.
spec fn names_all(deltas: Seq<SparseModelDelta>, refs: Seq<RowRef>, flat: Seq<KeyedRow>) -> bool {
    &&& refs.len() == flat.len()
    &&& forall|i: int| 0 <= i < refs.len() ==> names(deltas, #[trigger] refs[i], flat[i])
}

/// References to the rows of all workers.
fn list_rows(deltas: &Vec<SparseModelDelta>) -> (r: Vec<RowRef>)
    ensures
        names_all(deltas@, r@, all_rows(deltas@)),
{
    let mut refs: Vec<RowRef> = Vec::new();
    let mut worker: usize = 0;
    assert(deltas@.take(0) =~= Seq::<SparseModelDelta>::empty());
    while worker < deltas.len()
        invariant
            worker <= deltas.len(),
            names_all(deltas@, refs@, all_rows(deltas@.take(worker as int))),
        decreases deltas.len() - worker,
    {
        let ghost earlier = all_rows(deltas@.take(worker as int));
        let ghost rows = row_views(deltas@[worker as int].context@);
        let count: usize = deltas[worker].context.len();
        let mut place: usize = 0;
        assert(earlier + rows.take(0) =~= earlier);
        while place < count
            invariant
                worker < deltas.len(),
                place <= count == deltas@[worker as int].context.len(),
                rows == row_views(deltas@[worker as int].context@),
                names_all(deltas@, refs@, earlier + rows.take(place as int)),
            decreases count - place,
        {
            let entry: &ContextKeyDelta = &deltas[worker].context[place];
            let reference = RowRef {
                order: entry.order,
                key: entry.key,
                observations: entry.observation_increment,
                worker,
                place,
            };
            refs.push(reference);
            assert(names(deltas@, reference, rows[place as int]));
            assert(earlier + rows.take(place + 1) =~= (earlier + rows.take(place as int)).push(
                rows[place as int],
            ));
            place = place + 1;
        }
        proof {
            assert(rows.take(count as int) =~= rows);
            let upto = deltas@.take(worker + 1);
            assert(upto.drop_last() =~= deltas@.take(worker as int));
            assert(upto.last() == deltas@[worker as int]);
        }
        worker = worker + 1;
    }
    assert(deltas@.take(deltas.len() as int) =~= deltas@);
    refs
}

/// Whether every number of a list is finite.
fn finite_list(values: &Vec<Scalar>) -> (r: bool)
    ensures
        r == crate::model::all_finite(values@),
{
    let mut i: usize = 0;
    while i < values.len()
        invariant
            i <= values.len(),
            forall|k: int| 0 <= k < i ==> (#[trigger] values@[k]).finite(),
        decreases values.len() - i,
    {
        if !values[i].is_finite() {
            assert(!values@[i as int].finite());
            return false;
        }
        i = i + 1;
    }
    true
}

/// Refuses rows that cannot be merged.
fn check_rows(
    deltas: &Vec<SparseModelDelta>,
    refs: &Vec<RowRef>,
    dim: usize,
    max_order: usize,
) -> (r: LeoResult<()>)
    requires
        names_all(deltas@, refs@, all_rows(deltas@)),
    ensures
        rows_mergeable(all_rows(deltas@), dim as int, max_order as int) ==> r is Ok,
        !rows_mergeable(all_rows(deltas@), dim as int, max_order as int) ==> fails(
            r,
            LeoErrorKind::Internal,
            "invalid keyed context worker delta"@,
        ),
{
    let ghost flat = all_rows(deltas@);
    let mut i: usize = 0;
    while i < refs.len()
        invariant
            flat == all_rows(deltas@),
            names_all(deltas@, refs@, flat),
            i <= refs.len(),
            forall|k: int|
                0 <= k < i ==> row_mergeable(#[trigger] flat[k], dim as int, max_order as int),
        decreases refs.len() - i,
    {
        let reference: RowRef = refs[i];
        assert(names(deltas@, refs@[i as int], flat[i as int]));
        let entry: &ContextKeyDelta = &deltas[reference.worker].context[reference.place];
        if entry.embedding_delta.len() != dim || entry.order == 0 || entry.order > max_order
            || entry.key == 0 || !finite_list(&entry.embedding_delta) {
            assert(!row_mergeable(flat[i as int], dim as int, max_order as int));
            return Err(LeoError::internal("invalid keyed context worker delta".to_owned()));
        }
        i = i + 1;
    }
    Ok(())
}

/// One fingerprint, where its rows stand and how often it was observed.
#[derive(Debug)]
struct Entry {
    order: usize,
    key: u64,
    sources: Vec<usize>,
    observations: u64,
}

/// Positions as integers.
spec fn as_positions(s: Seq<usize>) -> Seq<int> {
    Seq::new(s.len(), |i: int| s[i] as int)
}

/// The entry is that of its fingerprint.
spec fn entry_of(flat: Seq<KeyedRow>, e: Entry) -> bool {
    &&& as_positions(e.sources@) == positions_in(flat, e.order as int, e.key)
    &&& e.sources.len() > 0
    &&& e.observations == observed_in(flat, e.order as int, e.key)
}

/// Some row belongs to the fingerprint.
pub open spec fn occurs(flat: Seq<KeyedRow>, order: int, key: u64) -> bool {
    positions_in(flat, order, key).len() > 0
}

/// The entries from `start` on are those of one order, each fingerprint once.
spec fn entries_of_order(
    flat: Seq<KeyedRow>,
    entries: Seq<Entry>,
    start: int,
    order: int,
) -> bool {
    &&& forall|k: int|
        start <= k < entries.len() ==> (#[trigger] entries[k]).order == order && entry_of(
            flat,
            entries[k],
        )
    &&& forall|j: int, k: int|
        start <= j < k < entries.len() ==> (#[trigger] entries[j]).key != (
        #[trigger] entries[k]).key
    &&& forall|key: u64| #[trigger] occurs(flat, order, key) ==> has_key(entries, start, key)
}

/// The fingerprint is among the entries from `start` on.
spec fn has_key(entries: Seq<Entry>, start: int, key: u64) -> bool {
    exists|k: int| start <= k < entries.len() && (#[trigger] entries[k]).key == key
}

/// Puts the entries of one order behind a list.
fn gather_order(
    deltas: &Vec<SparseModelDelta>,
    refs: &Vec<RowRef>,
    order: usize,
    entries: &mut Vec<Entry>,
)
    requires
        names_all(deltas@, refs@, all_rows(deltas@)),
    ensures
        final(entries).len() >= old(entries).len(),
        forall|k: int| 0 <= k < old(entries).len() ==> #[trigger] final(entries)@[k] == old(entries)@[k],
        entries_of_order(
            all_rows(deltas@),
            final(entries)@,
            old(entries).len() as int,
            order as int,
        ),
{
    broadcast use group_hash_axioms;

    let ghost flat = all_rows(deltas@);
    let start: usize = entries.len();
    let mut map: HashMap<u64, usize> = HashMap::new();
    let mut at: usize = 0;
    assert(flat.take(0) =~= Seq::<KeyedRow>::empty());
    while at < refs.len()
        invariant
            flat == all_rows(deltas@),
            names_all(deltas@, refs@, flat),
            at <= refs.len(),
            start == old(entries).len(),
            start <= entries.len(),
            forall|k: int| 0 <= k < start ==> #[trigger] entries@[k] == old(entries)@[k],
            forall|k: int|
                start <= k < entries.len() ==> (#[trigger] entries@[k]).order == order && entry_of(
                    flat.take(at as int),
                    entries@[k],
                ) && map@.contains_key(entries@[k].key) && map@[entries@[k].key] == k,
            forall|key: u64| #[trigger]
                map@.contains_key(key) ==> start <= map@[key] < entries.len()
                    && entries@[map@[key] as int].key == key,
            forall|key: u64|
                #![trigger map@.contains_key(key)]
                occurs(flat.take(at as int), order as int, key) ==> map@.contains_key(key),
        decreases refs.len() - at,
    {
        let reference: RowRef = refs[at];
        let ghost earlier = flat.take(at as int);
        let ghost now = flat.take(at + 1);
        let ghost before = map@;
        let ghost old_entries = entries@;
        proof {
            assert(names(deltas@, refs@[at as int], flat[at as int]));
            assert(now.drop_last() =~= earlier);
            assert(now.last() == flat[at as int]);
        }
        if reference.order == order {
            let known: Option<usize> = match map.get(&reference.key) {
                Some(k) => Some(*k),
                None => None,
            };
            match known {
                Some(k) => {
                    assert(entries@[k as int].key == reference.key);
                    assert(entry_of(earlier, entries@[k as int]));
                    let observations: u64 = entries[k].observations.saturating_add(
                        reference.observations as u64,
                    );
                    entries[k].sources.push(at);
                    entries[k].observations = observations;
                    proof {
                        assert(as_positions(entries@[k as int].sources@) =~= as_positions(
                            old_entries[k as int].sources@,
                        ).push(at as int));
                        assert(entry_of(now, entries@[k as int]));
                    }
                },
                None => {
                    assert(!occurs(earlier, order as int, reference.key)) by {
                        assert(!before.contains_key(reference.key));
                    }
                    proof {
                        lemma_unobserved(earlier, order as int, reference.key);
                    }
                    let mut sources: Vec<usize> = Vec::new();
                    sources.push(at);
                    let entry = Entry {
                        order,
                        key: reference.key,
                        sources,
                        observations: reference.observations as u64,
                    };
                    assert(as_positions(entry.sources@) =~= positions_in(
                        now,
                        order as int,
                        reference.key,
                    ));
                    assert(entry_of(now, entry));
                    map.insert(reference.key, entries.len());
                    entries.push(entry);
                },
            }
        }
        proof {
            assert forall|k: int| start <= k < entries.len() implies (#[trigger] entries@[k]).order
                == order && entry_of(now, entries@[k]) && map@.contains_key(entries@[k].key)
                && map@[entries@[k].key] == k by {
                if k < old_entries.len() {
                    assert(old_entries[k].order == order);
                    assert(before.contains_key(old_entries[k].key));
                    assert(entry_of(earlier, old_entries[k]));
                }
            }
            assert forall|key: u64|
                #![trigger map@.contains_key(key)]
                occurs(now, order as int, key) implies map@.contains_key(key) by {
                if !belongs(now.last(), order as int, key) {
                    assert(occurs(earlier, order as int, key));
                    assert(before.contains_key(key));
                }
            }
        }
        at = at + 1;
    }
    proof {
        assert(flat.take(refs.len() as int) =~= flat);
        assert forall|j: int, k: int| start <= j < k < entries.len() implies (
        #[trigger] entries@[j]).key != (#[trigger] entries@[k]).key by {
            assert(map@[entries@[j].key] == j);
            assert(map@[entries@[k].key] == k);
        }
        assert forall|key: u64| #[trigger] occurs(flat, order as int, key) implies has_key(
            entries@,
            start as int,
            key,
        ) by {
            assert(map@.contains_key(key));
            assert(entries@[map@[key] as int].key == key);
        }
    }
}

proof fn lemma_unobserved(flat: Seq<KeyedRow>, order: int, key: u64)
    requires
        !occurs(flat, order, key),
    ensures
        observed_in(flat, order, key) == 0,
    decreases flat.len(),
{
    if flat.len() > 0 {
        lemma_unobserved(flat.drop_last(), order, key);
    }
}

/// The entries of the orders up to `orders`, each fingerprint once.
spec fn entries_complete(flat: Seq<KeyedRow>, entries: Seq<Entry>, orders: int) -> bool {
    &&& forall|k: int|
        0 <= k < entries.len() ==> 1 <= (#[trigger] entries[k]).order <= orders && entry_of(
            flat,
            entries[k],
        )
    &&& forall|j: int, k: int|
        0 <= j < k < entries.len() ==> (#[trigger] entries[j]).key != (#[trigger] entries[k]).key
            || entries[j].order != entries[k].order
    &&& forall|order: int, key: u64|
        1 <= order <= orders && #[trigger] occurs(flat, order, key) ==> has_entry(
            entries,
            order,
            key,
        )
}

/// The fingerprint of an order is among the entries.
spec fn has_entry(entries: Seq<Entry>, order: int, key: u64) -> bool {
    exists|k: int|
        0 <= k < entries.len() && (#[trigger] entries[k]).order == order && entries[k].key == key
}

/// The entries of all orders.
fn gather_entries(
    deltas: &Vec<SparseModelDelta>,
    refs: &Vec<RowRef>,
    max_order: usize,
) -> (r: Vec<Entry>)
    requires
        names_all(deltas@, refs@, all_rows(deltas@)),
    ensures
        entries_complete(all_rows(deltas@), r@, max_order as int),
{
    let ghost flat = all_rows(deltas@);
    let mut entries: Vec<Entry> = Vec::new();
    let mut done: usize = 0;
    while done < max_order
        invariant
            flat == all_rows(deltas@),
            names_all(deltas@, refs@, flat),
            done <= max_order,
            entries_complete(flat, entries@, done as int),
        decreases max_order - done,
    {
        let order: usize = done + 1;
        let ghost before = entries@;
        gather_order(deltas, refs, order, &mut entries);
        proof {
            let start = before.len() as int;
            assert forall|k: int| 0 <= k < entries.len() implies 1 <= (
            #[trigger] entries@[k]).order <= order && entry_of(flat, entries@[k]) by {
                if k < start {
                    assert(entries@[k] == before[k]);
                }
            }
            assert forall|j: int, k: int| 0 <= j < k < entries.len() implies (
            #[trigger] entries@[j]).key != (#[trigger] entries@[k]).key || entries@[j].order
                != entries@[k].order by {
                if k < start {
                    assert(entries@[j] == before[j] && entries@[k] == before[k]);
                } else if j < start {
                    assert(entries@[j] == before[j]);
                    assert(entries@[j].order <= done);
                }
            }
            assert forall|o: int, key: u64|
                1 <= o <= order && #[trigger] occurs(flat, o, key) implies has_entry(
                entries@,
                o,
                key,
            ) by {
                if o < order {
                    assert(has_entry(before, o, key));
                    let k = choose|k: int|
                        0 <= k < before.len() && (#[trigger] before[k]).order == o && before[k].key
                            == key;
                    assert(entries@[k] == before[k]);
                } else {
                    assert(has_key(entries@, start, key));
                    let k = choose|k: int|
                        start <= k < entries@.len() && (#[trigger] entries@[k]).key == key;
                    assert(entries@[k].order == order);
                }
            }
        }
        done = order;
    }
    entries
}

/// A fingerprint and how often the workers observed it.
pub struct ContextEntry {
    pub order: int,
    pub key: u64,
    pub observations: u64,
}

/// The entry is merged before another: it was observed more often, or as often and its order
/// and fingerprint are smaller.
pub open spec fn merges_before(a: ContextEntry, b: ContextEntry) -> bool {
    a.observations > b.observations || (a.observations == b.observations && (a.order < b.order || (
    a.order == b.order && a.key < b.key)))
}

/// The fingerprint of an order is among the entries.
pub open spec fn entry_listed(entries: Seq<ContextEntry>, order: int, key: u64) -> bool {
    exists|k: int|
        0 <= k < entries.len() && (#[trigger] entries[k]).order == order && entries[k].key == key
}

/// The fingerprints of some rows, each once, in the order in which they merge.
pub open spec fn entries_ranked(flat: Seq<KeyedRow>, entries: Seq<ContextEntry>) -> bool {
    &&& forall|k: int|
        0 <= k < entries.len() ==> {
            let e = #[trigger] entries[k];
            occurs(flat, e.order, e.key) && e.observations == observed_in(flat, e.order, e.key)
        }
    &&& forall|j: int, k: int|
        0 <= j < k < entries.len() ==> merges_before(#[trigger] entries[j], #[trigger] entries[k])
    &&& forall|i: int|
        0 <= i < flat.len() ==> entry_listed(entries, (#[trigger] flat[i]).order, flat[i].key)
}

/// An entry's rank, and where the entry stands.
#[derive(Debug, Clone, Copy, PartialEq, Eq, Structural)]
pub struct ContextRank {
    pub observations: u64,
    pub order: usize,
    pub key: u64,
    pub place: usize,
}

impl Ranked for ContextRank {
    open spec fn leq(self, other: Self) -> bool {
        self.observations > other.observations || (self.observations == other.observations && (
        self.order < other.order || (self.order == other.order && (self.key < other.key || (
        self.key == other.key && self.place <= other.place)))))
    }

    proof fn order_is_total() {
        assert(total_ordering(|a: Self, b: Self| a.leq(b)));
    }

    fn comes_before(&self, other: &Self) -> (r: bool) {
        self.observations > other.observations || (self.observations == other.observations && (
        self.order < other.order || (self.order == other.order && (self.key < other.key || (
        self.key == other.key && self.place <= other.place)))))
    }
}

/// The ranks as entries.
pub open spec fn entries_of(ranks: Seq<ContextRank>) -> Seq<ContextEntry> {
    Seq::new(
        ranks.len(),
        |k: int|
            ContextEntry {
                order: ranks[k].order as int,
                key: ranks[k].key,
                observations: ranks[k].observations,
            },
    )
}

/// The rank names its entry.
spec fn ranks_entry(entries: Seq<Entry>, rank: ContextRank) -> bool {
    &&& rank.place < entries.len()
    &&& rank.order == entries[rank.place as int].order
    &&& rank.key == entries[rank.place as int].key
    &&& rank.observations == entries[rank.place as int].observations
}

proof fn lemma_position_occurs(flat: Seq<KeyedRow>, i: int)
    requires
        0 <= i < flat.len(),
    ensures
        occurs(flat, flat[i].order, flat[i].key),
    decreases flat.len(),
{
    if i < flat.len() - 1 {
        lemma_position_occurs(flat.drop_last(), i);
    }
}

/// The order in which the entries merge.
fn rank_entries(
    deltas: &Vec<SparseModelDelta>,
    entries: &Vec<Entry>,
    max_order: usize,
) -> (r: Vec<ContextRank>)
    requires
        entries_complete(all_rows(deltas@), entries@, max_order as int),
        forall|i: int|
            0 <= i < all_rows(deltas@).len() ==> 1 <= (#[trigger] all_rows(deltas@)[i]).order
                <= max_order,
    ensures
        entries_ranked(all_rows(deltas@), entries_of(r@)),
        r.len() == entries.len(),
        forall|k: int| 0 <= k < r.len() ==> ranks_entry(entries@, #[trigger] r@[k]),
{
    let ghost flat = all_rows(deltas@);
    let mut ranks: Vec<ContextRank> = Vec::new();
    let mut i: usize = 0;
    while i < entries.len()
        invariant
            i <= entries.len(),
            ranks.len() == i,
            forall|k: int|
                0 <= k < i ==> ranks_entry(entries@, #[trigger] ranks@[k]) && ranks@[k].place == k,
        decreases entries.len() - i,
    {
        let entry: &Entry = &entries[i];
        ranks.push(
            ContextRank {
                observations: entry.observations,
                order: entry.order,
                key: entry.key,
                place: i,
            },
        );
        i = i + 1;
    }
    let sorted: Vec<ContextRank> = sort_ranked(&ranks);
    proof {
        lemma_ranked(ranks@);
        let listed = entries_of(sorted@);
        assert forall|k: int| 0 <= k < sorted.len() implies ranks_entry(
            entries@,
            #[trigger] sorted@[k],
        ) by {
            assert(sorted@.contains(sorted@[k]));
            assert(ranks@.contains(sorted@[k]));
        }
        assert(ranks@.no_duplicates()) by {
            assert forall|j: int, k: int|
                0 <= j < ranks@.len() && 0 <= k < ranks@.len() && j != k implies
                #[trigger] ranks@[j] != #[trigger] ranks@[k] by {
                assert(ranks@[j].place == j && ranks@[k].place == k);
            }
        }
        ranks@.lemma_multiset_has_no_duplicates();
        sorted@.lemma_multiset_has_no_duplicates_conv();
        let leq = rank_order::<ContextRank>();
        assert forall|j: int, k: int| 0 <= j < k < listed.len() implies merges_before(
            #[trigger] listed[j],
            #[trigger] listed[k],
        ) by {
            assert(leq(sorted@[j], sorted@[k]));
            assert(sorted@[j] != sorted@[k]);
            let a = sorted@[j].place as int;
            let b = sorted@[k].place as int;
            assert(ranks_entry(entries@, sorted@[j]) && ranks_entry(entries@, sorted@[k]));
            if a == b {
                assert(sorted@[j] == sorted@[k]);
            } else if a < b {
                assert(entries@[a].key != entries@[b].key || entries@[a].order
                    != entries@[b].order);
            } else {
                assert(entries@[b].key != entries@[a].key || entries@[b].order
                    != entries@[a].order);
            }
        }
        assert forall|k: int| 0 <= k < listed.len() implies ({
            let e = #[trigger] listed[k];
            occurs(flat, e.order, e.key) && e.observations == observed_in(flat, e.order, e.key)
        }) by {
            assert(ranks_entry(entries@, sorted@[k]));
            let e = entries@[sorted@[k].place as int];
            assert(entry_of(flat, e));
            assert(as_positions(e.sources@).len() == e.sources@.len());
        }
        assert forall|i: int| 0 <= i < flat.len() implies entry_listed(
            listed,
            (#[trigger] flat[i]).order,
            flat[i].key,
        ) by {
            lemma_position_occurs(flat, i);
            assert(has_entry(entries@, flat[i].order, flat[i].key));
            let k = choose|k: int|
                0 <= k < entries@.len() && (#[trigger] entries@[k]).order == flat[i].order
                    && entries@[k].key == flat[i].key;
            assert(ranks_entry(entries@, ranks@[k]) && ranks@[k].place == k);
            assert(ranks@.contains(ranks@[k]));
            assert(sorted@.contains(ranks@[k]));
            let m = choose|m: int| 0 <= m < sorted@.len() && sorted@[m] == ranks@[k];
            assert(listed[m].order == flat[i].order && listed[m].key == flat[i].key);
        }
    }
    sorted
}

/// One number of the rows at some positions, in the order of arrival.
pub open spec fn column(flat: Seq<KeyedRow>, order: int, key: u64, i: int) -> Seq<Scalar> {
    let at = positions_in(flat, order, key);
    Seq::new(at.len(), |k: int| flat[at[k]].embedding_delta[i])
}

/// The observations of a slot after a merge, held at the largest value.
pub open spec fn observations_after(before: u32, observed: u64) -> u32 {
    if before + observed > u32::MAX {
        u32::MAX
    } else {
        (before + observed) as u32
    }
}

/// One entry is merged: its slot is resolved, each number of the embedding is moved by its
/// mean, and the observations are counted.
pub open spec fn entry_merged<G: Fn(Scalar, Vec<Scalar>, usize) -> Scalar>(
    g: G,
    flat: Seq<KeyedRow>,
    workers: usize,
    e: ContextEntry,
    before: ContextTable,
    after: ContextTable,
) -> bool {
    let (given, found, _) = before.resolve(e.order, e.key, true);
    match found {
        Some(slot) => {
            let start = slot * given.embedding_dim;
            &&& after == (ContextTable {
                observations: given.observations.update(
                    slot,
                    observations_after(given.observations[slot], e.observations),
                ),
                embeddings: after.embeddings,
                ..given
            })
            &&& after.embeddings.len() == given.embeddings.len()
            &&& forall|j: int|
                0 <= j < after.embeddings.len() ==> if start <= j < start + given.embedding_dim {
                    means(
                        g,
                        given.embeddings[j],
                        column(flat, e.order, e.key, j - start),
                        workers,
                        #[trigger] after.embeddings[j],
                    )
                } else {
                    after.embeddings[j] == given.embeddings[j]
                }
        },
        None => false,
    }
}

/// The entries are merged one after the other, each into the table that the one before left.
pub open spec fn entries_merged<G: Fn(Scalar, Vec<Scalar>, usize) -> Scalar>(
    g: G,
    flat: Seq<KeyedRow>,
    workers: usize,
    entries: Seq<ContextEntry>,
    tables: Seq<ContextTable>,
) -> bool {
    &&& tables.len() == entries.len() + 1
    &&& forall|k: int|
        0 <= k < entries.len() ==> entry_merged(
            g,
            flat,
            workers,
            #[trigger] entries[k],
            tables[k],
            tables[after_place(k)],
        )
}

/// The place after another.
pub open spec fn after_place(k: int) -> int {
    k + 1
}

/// What merging the entries of a batch makes of the context memory.
pub open spec fn context_merged<G: Fn(Scalar, Vec<Scalar>, usize) -> Scalar>(
    g: G,
    flat: Seq<KeyedRow>,
    workers: usize,
    entries: Seq<ContextEntry>,
    before: ContextTable,
    after: ContextTable,
) -> bool {
    exists|tables: Seq<ContextTable>|
        {
            &&& #[trigger] entries_merged(g, flat, workers, entries, tables)
            &&& tables[0] == before
            &&& tables.last() == after
        }
}

pub proof fn lemma_positions(flat: Seq<KeyedRow>, order: int, key: u64)
    ensures
        forall|k: int|
            0 <= k < positions_in(flat, order, key).len() ==> 0 <= #[trigger] positions_in(
                flat,
                order,
                key,
            )[k] < flat.len() && belongs(flat[positions_in(flat, order, key)[k]], order, key),
    decreases flat.len(),
{
    if flat.len() > 0 {
        lemma_positions(flat.drop_last(), order, key);
        let shorter = positions_in(flat.drop_last(), order, key);
        let at = positions_in(flat, order, key);
        assert forall|k: int| 0 <= k < at.len() implies 0 <= #[trigger] at[k] < flat.len()
            && belongs(flat[at[k]], order, key) by {
            if k < shorter.len() {
                assert(at[k] == shorter[k]);
                assert(flat.drop_last()[shorter[k]] == flat[at[k]]);
            }
        }
    }
}

/// One number of the rows of an entry.
fn gather_column(
    deltas: &Vec<SparseModelDelta>,
    refs: &Vec<RowRef>,
    entry: &Entry,
    i: usize,
    dim: usize,
    max_order: usize,
) -> (r: Vec<Scalar>)
    requires
        names_all(deltas@, refs@, all_rows(deltas@)),
        entry_of(all_rows(deltas@), *entry),
        rows_mergeable(all_rows(deltas@), dim as int, max_order as int),
        i < dim,
    ensures
        r@ == column(all_rows(deltas@), entry.order as int, entry.key, i as int),
{
    let ghost flat = all_rows(deltas@);
    let ghost at = positions_in(flat, entry.order as int, entry.key);
    proof {
        lemma_positions(flat, entry.order as int, entry.key);
        assert(as_positions(entry.sources@).len() == entry.sources@.len());
    }
    let mut out: Vec<Scalar> = Vec::new();
    let mut k: usize = 0;
    while k < entry.sources.len()
        invariant
            flat == all_rows(deltas@),
            at == positions_in(flat, entry.order as int, entry.key),
            names_all(deltas@, refs@, flat),
            as_positions(entry.sources@) == at,
            at.len() == entry.sources.len(),
            forall|j: int| 0 <= j < at.len() ==> 0 <= #[trigger] at[j] < flat.len(),
            rows_mergeable(flat, dim as int, max_order as int),
            i < dim,
            k <= entry.sources.len(),
            out.len() == k,
            forall|j: int|
                0 <= j < k ==> #[trigger] out@[j] == flat[at[j]].embedding_delta[i as int],
        decreases entry.sources.len() - k,
    {
        let position: usize = entry.sources[k];
        assert(at[k as int] == position);
        let reference: RowRef = refs[position];
        assert(names(deltas@, refs@[position as int], flat[position as int]));
        assert(row_mergeable(flat[position as int], dim as int, max_order as int));
        out.push(deltas[reference.worker].context[reference.place].embedding_delta[i]);
        k = k + 1;
    }
    assert(out@ =~= column(flat, entry.order as int, entry.key, i as int));
    out
}

/// Merges one entry into the context memory.
fn merge_entry<G: Fn(Scalar, Vec<Scalar>, usize) -> Scalar>(
    master: &mut Model,
    deltas: &Vec<SparseModelDelta>,
    refs: &Vec<RowRef>,
    entry: &Entry,
    mean: &G,
)
    requires
        takes_any_list(*mean),
        old(master).context_ready(),
        0 < old(master).config.context.probe_limit,
        names_all(deltas@, refs@, all_rows(deltas@)),
        entry_of(all_rows(deltas@), *entry),
        rows_mergeable(
            all_rows(deltas@),
            old(master).config.context.embedding_dim as int,
            old(master).config.context.max_order as int,
        ),
    ensures
        final(master).context_ready(),
        final(master).same_but_context_table(*old(master)),
        entry_merged(
            *mean,
            all_rows(deltas@),
            deltas.len(),
            ContextEntry {
                order: entry.order as int,
                key: entry.key,
                observations: entry.observations,
            },
            table_of(*old(master)),
            table_of(*final(master)),
        ),
{
    let ghost flat = all_rows(deltas@);
    let ghost order = entry.order as int;
    let ghost key = entry.key;
    let ghost first = table_of(*master);
    let dim: usize = master.config.context.embedding_dim;
    let max_order: usize = master.config.context.max_order;
    let workers: usize = deltas.len();
    proof {
        lemma_positions(flat, order, key);
        assert(as_positions(entry.sources@).len() == entry.sources@.len());
        let p = positions_in(flat, order, key)[0];
        assert(row_mergeable(flat[p], dim as int, max_order as int));
        reveal(ContextTable::resolve);
    }
    let (found, _) = resolve_in_table(master, entry.order, entry.key, true);
    let slot: usize = match found {
        Some(s) => s,
        None => 0,
    };
    assert(found is Some);
    let ghost given = *master;
    let ghost t = table_of(given);
    proof {
        lemma_row_fits(slot as int, master.context.keys.len() as int, dim as int);
    }
    let start: usize = slot * dim;
    let mut i: usize = 0;
    while i < dim
        invariant
            takes_any_list(*mean),
            flat == all_rows(deltas@),
            order == entry.order,
            key == entry.key,
            workers == deltas.len(),
            names_all(deltas@, refs@, flat),
            entry_of(flat, *entry),
            rows_mergeable(flat, dim as int, max_order as int),
            dim == given.config.context.embedding_dim,
            master.context_ready(),
            master.same_but_context_table(given),
            master.context.keys == given.context.keys,
            master.context.observations == given.context.observations,
            i <= dim,
            start == slot * dim,
            start + dim <= master.context.embeddings.len(),
            master.context.embeddings.len() == given.context.embeddings.len(),
            forall|j: int|
                0 <= j < master.context.embeddings.len() ==> if start <= j < start + i {
                    means(
                        *mean,
                        given.context.embeddings@[j],
                        column(flat, order, key, j - start),
                        workers,
                        #[trigger] master.context.embeddings@[j],
                    )
                } else {
                    master.context.embeddings@[j] == given.context.embeddings@[j]
                },
        decreases dim - i,
    {
        let list: Vec<Scalar> = gather_column(deltas, refs, entry, i, dim, max_order);
        let value: Scalar = master.context.embeddings[start + i];
        let ghost contributed = list;
        assert(call_requires(*mean, (value, list, workers)));
        let moved: Scalar = mean(value, list, workers);
        assert(call_ensures(*mean, (value, contributed, workers), moved));
        assert(means(
            *mean,
            given.context.embeddings@[start + i],
            column(flat, order, key, i as int),
            workers,
            moved,
        ));
        master.context.embeddings.set(start + i, moved);
        i = i + 1;
    }
    let most: u64 = u32::MAX as u64;
    let observed: u32 = if entry.observations < most {
        entry.observations as u32
    } else {
        u32::MAX
    };
    let seen: u32 = master.context.observations[slot];
    master.context.observations.set(slot, seen.saturating_add(observed));
    proof {
        let after = table_of(*master);
        assert(after.observations =~= t.observations.update(
            slot as int,
            observations_after(t.observations[slot as int], entry.observations),
        ));
        assert(after.keys =~= t.keys);
        assert(first.resolve(order, key, true).0 == t);
        assert(first.resolve(order, key, true).1 == Some(slot as int));
        assert(t.embedding_dim == dim);
        assert forall|j: int| 0 <= j < after.embeddings.len() implies if start <= j < start + dim {
            means(
                *mean,
                t.embeddings[j],
                column(flat, order, key, j - start),
                workers,
                #[trigger] after.embeddings[j],
            )
        } else {
            after.embeddings[j] == t.embeddings[j]
        } by {
            assert(after.embeddings[j] == master.context.embeddings@[j]);
        }
    }
}

/// Merges the context entries of a batch by order and fingerprint: those that were observed
/// most come first.
pub fn apply_context_deltas<G: Fn(Scalar, Vec<Scalar>, usize) -> Scalar>(
    master: &mut Model,
    deltas: &Vec<SparseModelDelta>,
    mean: &G,
) -> (r: LeoResult<usize>)
    requires
        takes_any_list(*mean),
        old(master).context_ready(),
        0 < old(master).config.context.probe_limit,
    ensures
        final(master).context_ready(),
        final(master).same_but_context_table(*old(master)),
        context_result(*mean, *old(master), deltas@, *final(master), r),
{
    let ghost flat = all_rows(deltas@);
    let ghost before = *master;
    let dim: usize = master.config.context.embedding_dim;
    let max_order: usize = master.config.context.max_order;
    let refs: Vec<RowRef> = list_rows(deltas);
    match check_rows(deltas, &refs, dim, max_order) {
        Err(e) => {
            return Err(e);
        },
        Ok(_) => {},
    }
    let entries: Vec<Entry> = gather_entries(deltas, &refs, max_order);
    assert forall|i: int| 0 <= i < flat.len() implies 1 <= (#[trigger] flat[i]).order
        <= max_order by {
        assert(row_mergeable(flat[i], dim as int, max_order as int));
    }
    let ranks: Vec<ContextRank> = rank_entries(deltas, &entries, max_order);
    let ghost listed = entries_of(ranks@);
    let ghost mut tables: Seq<ContextTable> = seq![table_of(*master)];
    let mut k: usize = 0;
    while k < ranks.len()
        invariant
            takes_any_list(*mean),
            flat == all_rows(deltas@),
            names_all(deltas@, refs@, flat),
            rows_mergeable(flat, dim as int, max_order as int),
            dim == before.config.context.embedding_dim,
            max_order == before.config.context.max_order,
            0 < before.config.context.probe_limit,
            entries_complete(flat, entries@, max_order as int),
            forall|j: int| 0 <= j < ranks.len() ==> ranks_entry(entries@, #[trigger] ranks@[j]),
            listed == entries_of(ranks@),
            master.context_ready(),
            master.same_but_context_table(before),
            k <= ranks.len(),
            tables.len() == k + 1,
            tables[0] == table_of(before),
            tables[k as int] == table_of(*master),
            forall|j: int|
                0 <= j < k ==> entry_merged(
                    *mean,
                    flat,
                    deltas.len(),
                    #[trigger] listed[j],
                    tables[j],
                    tables[after_place(j)],
                ),
        decreases ranks.len() - k,
    {
        let place: usize = ranks[k].place;
        assert(ranks_entry(entries@, ranks@[k as int]));
        assert(entry_of(flat, entries@[place as int]));
        let ghost earlier = tables;
        merge_entry(master, deltas, &refs, &entries[place], mean);
        proof {
            tables = earlier.push(table_of(*master));
            assert forall|j: int| 0 <= j < k + 1 implies entry_merged(
                *mean,
                flat,
                deltas.len(),
                #[trigger] listed[j],
                tables[j],
                tables[after_place(j)],
            ) by {
                if j < k {
                    assert(tables[j] == earlier[j] && tables[after_place(j)]
                        == earlier[after_place(j)]);
                } else {
                    assert(tables[j] == earlier[j]);
                    assert(tables[after_place(j)] == table_of(*master));
                }
            }
        }
        k = k + 1;
    }
    proof {
        assert(entries_merged(*mean, flat, deltas.len(), listed, tables));
        assert(tables.last() == table_of(*master));
        assert(context_merged(
            *mean,
            flat,
            deltas.len(),
            listed,
            table_of(before),
            table_of(*master),
        ));
    }
    Ok(ranks.len())
}

/// What merging the context entries of a batch gives.
pub open spec fn context_result<G: Fn(Scalar, Vec<Scalar>, usize) -> Scalar>(
    g: G,
    before: Model,
    deltas: Seq<SparseModelDelta>,
    after: Model,
    r: LeoResult<usize>,
) -> bool {
    let flat = all_rows(deltas);
    let c = before.config.context;
    if !rows_mergeable(flat, c.embedding_dim as int, c.max_order as int) {
        &&& fails(r, LeoErrorKind::Internal, "invalid keyed context worker delta"@)
        &&& after == before
    } else {
        exists|entries: Seq<ContextEntry>|
            {
                &&& #[trigger] entries_ranked(flat, entries)
                &&& context_merged(
                    g,
                    flat,
                    deltas.len() as usize,
                    entries,
                    table_of(before),
                    table_of(after),
                )
                &&& r == Ok::<usize, LeoError>(entries.len() as usize)
            }
    }
}

/// Every row of a batch is merged into the entry of its own order and fingerprint, and into
/// no other.
pub proof fn law_rows_merge_by_fingerprint(
    flat: Seq<KeyedRow>,
    entries: Seq<ContextEntry>,
    row: int,
    j: int,
    k: int,
)
    requires
        entries_ranked(flat, entries),
        0 <= row < flat.len(),
        0 <= j < entries.len(),
        0 <= k < entries.len(),
    ensures
        entry_listed(entries, flat[row].order, flat[row].key),
        positions_in(flat, entries[k].order, entries[k].key).contains(row) <==> belongs(
            flat[row],
            entries[k].order,
            entries[k].key,
        ),
        j != k ==> entries[j].order != entries[k].order || entries[j].key != entries[k].key,
{
    assert(entry_listed(entries, flat[row].order, flat[row].key));
    let e = entries[k];
    lemma_positions(flat, e.order, e.key);
    if belongs(flat[row], e.order, e.key) {
        lemma_row_position(flat, e.order, e.key, row);
    }
    if j < k {
        assert(merges_before(entries[j], entries[k]));
    } else if k < j {
        assert(merges_before(entries[k], entries[j]));
    }
}

proof fn lemma_row_position(flat: Seq<KeyedRow>, order: int, key: u64, row: int)
    requires
        0 <= row < flat.len(),
        belongs(flat[row], order, key),
    ensures
        positions_in(flat, order, key).contains(row),
    decreases flat.len(),
{
    let at = positions_in(flat, order, key);
    let shorter = positions_in(flat.drop_last(), order, key);
    if row == flat.len() - 1 {
        assert(at[at.len() - 1] == row);
    } else {
        lemma_row_position(flat.drop_last(), order, key, row);
        let k = choose|k: int| 0 <= k < shorter.len() && shorter[k] == row;
        assert(at[k] == row);
    }
}

} // verus!
