//! The mean of what the workers of a story batch changed, applied to the canonical model.

use crate::context::capped;
use crate::error::{LeoError, LeoErrorKind, LeoResult};
use crate::model::Model;
use crate::parallel::{SparseF32Delta, SparseModelDelta};
use crate::scalar::Scalar;
use crate::sorting::{lemma_ranked, rank_order, sort_ranked, Ranked};
use std::collections::HashMap;
use vstd::prelude::*;
use vstd::relations::total_ordering;
use vstd::std_specs::hash::group_hash_axioms;

verus! {

/// What was contributed to one place, in the order of arrival.
pub open spec fn contributions(flat: Seq<SparseF32Delta>, index: int) -> Seq<Scalar>
    decreases flat.len(),
{
    if flat.len() == 0 {
        seq![]
    } else if flat.last().index == index {
        contributions(flat.drop_last(), index).push(flat.last().delta)
    } else {
        contributions(flat.drop_last(), index)
    }
}

/// Something was contributed to a place.
pub open spec fn contributed(flat: Seq<SparseF32Delta>, index: int) -> bool {
    contributions(flat, index).len() > 0
}

/// How many places something was contributed to.
pub open spec fn places_touched(flat: Seq<SparseF32Delta>) -> nat
    decreases flat.len(),
{
    if flat.len() == 0 {
        0
    } else {
        places_touched(flat.drop_last()) + if contributed(
            flat.drop_last(),
            flat.last().index as int,
        ) {
            0nat
        } else {
            1nat
        }
    }
}

/// The mean can be asked for.
pub open spec fn takes_any_list<G: Fn(Scalar, Vec<Scalar>, usize) -> Scalar>(g: G) -> bool {
    forall|a: Scalar, list: Vec<Scalar>, n: usize| #[trigger] call_requires(g, (a, list, n))
}

/// The arithmetic may answer `after` for `before` moved by the mean that `workers` workers
/// contributed.
pub open spec fn means<G: Fn(Scalar, Vec<Scalar>, usize) -> Scalar>(
    g: G,
    before: Scalar,
    list: Seq<Scalar>,
    workers: usize,
    after: Scalar,
) -> bool {
    exists|v: Vec<Scalar>| v@ == list && #[trigger] call_ensures(g, (before, v, workers), after)
}

/// A place and where it stands in a list.
#[derive(Debug, Clone, Copy, PartialEq, Eq, Structural)]
pub struct IndexPlace {
    pub index: usize,
    pub place: usize,
}

impl Ranked for IndexPlace {
    open spec fn leq(self, other: Self) -> bool {
        self.index < other.index || (self.index == other.index && self.place <= other.place)
    }

    proof fn order_is_total() {
        assert(total_ordering(|a: Self, b: Self| a.leq(b)));
    }

    fn comes_before(&self, other: &Self) -> (r: bool) {
        self.index < other.index || (self.index == other.index && self.place <= other.place)
    }
}

/// The contributions to each place: the places in ascending order, each with the row of
/// `rows` that holds what was contributed to it.
#[derive(Debug)]
struct Gathered {
    rows: Vec<Vec<Scalar>>,
    order: Vec<IndexPlace>,
}

impl Gathered {
    /// Every place with a contribution is listed once, in ascending order.
    spec fn holds(self, flat: Seq<SparseF32Delta>) -> bool {
        &&& self.order.len() == self.rows.len()
        &&& self.order.len() == places_touched(flat)
        &&& forall|k: int|
            0 <= k < self.order.len() ==> (#[trigger] self.order@[k]).place < self.rows.len()
                && self.rows@[self.order@[k].place as int]@ == contributions(
                flat,
                self.order@[k].index as int,
            ) && contributed(flat, self.order@[k].index as int)
        &&& forall|j: int, k: int|
            0 <= j < k < self.order.len() ==> (#[trigger] self.order@[j]).index < (
            #[trigger] self.order@[k]).index
        &&& forall|i: usize|
            #[trigger] contributed(flat, i as int) ==> is_listed(self.order@, i)
    }
}

/// A place is listed.
spec fn is_listed(order: Seq<IndexPlace>, i: usize) -> bool {
    exists|k: int| 0 <= k < order.len() && (#[trigger] order[k]).index == i
}

/// Gathers what was contributed to each place.
fn gather(flat: &Vec<SparseF32Delta>) -> (r: Gathered)
    ensures
        r.holds(flat@),
{
    broadcast use group_hash_axioms;

    let mut map: HashMap<usize, usize> = HashMap::new();
    let mut rows: Vec<Vec<Scalar>> = Vec::new();
    let mut places: Vec<IndexPlace> = Vec::new();
    let mut at: usize = 0;
    assert(flat@.take(0) =~= Seq::<SparseF32Delta>::empty());
    while at < flat.len()
        invariant
            at <= flat.len(),
            places.len() == rows.len(),
            places.len() == places_touched(flat@.take(at as int)),
            forall|k: int|
                0 <= k < places.len() ==> (#[trigger] places@[k]).place == k
                    && map@.contains_key(places@[k].index) && map@[places@[k].index] == k
                    && rows@[k]@ == contributions(
                    flat@.take(at as int),
                    places@[k].index as int,
                ) && contributed(flat@.take(at as int), places@[k].index as int),
            forall|i: usize| #[trigger]
                map@.contains_key(i) ==> map@[i] < places.len() && places@[map@[i] as int].index
                    == i,
            forall|i: usize|
                #![trigger map@.contains_key(i)]
                contributed(flat@.take(at as int), i as int) ==> map@.contains_key(i),
        decreases flat.len() - at,
    {
        let update: SparseF32Delta = flat[at];
        let ghost earlier = flat@.take(at as int);
        let ghost now = flat@.take(at + 1);
        proof {
            assert(now.drop_last() =~= earlier);
            assert(now.last() == update);
        }
        let ghost before = map@;
        let ghost old_rows = rows@;
        let known: Option<usize> = match map.get(&update.index) {
            Some(k) => Some(*k),
            None => None,
        };
        match known {
            Some(k) => {
                assert(places@[k as int].index == update.index);
                assert(contributed(earlier, update.index as int));
                rows[k].push(update.delta);
            },
            None => {
                assert(!contributed(earlier, update.index as int)) by {
                    assert(!before.contains_key(update.index));
                }
                let mut row: Vec<Scalar> = Vec::new();
                row.push(update.delta);
                assert(row@ =~= contributions(now, update.index as int));
                map.insert(update.index, rows.len());
                places.push(IndexPlace { index: update.index, place: rows.len() });
                rows.push(row);
            },
        }
        proof {
            assert forall|k: int| 0 <= k < places.len() implies (#[trigger] places@[k]).place == k
                && map@.contains_key(places@[k].index) && map@[places@[k].index] == k
                && rows@[k]@ == contributions(now, places@[k].index as int) && contributed(
                now,
                places@[k].index as int,
            ) by {
                if k < old_rows.len() {
                    assert(before.contains_key(places@[k].index));
                    assert(contributed(earlier, places@[k].index as int));
                }
            }
            assert forall|i: usize|
                #![trigger map@.contains_key(i)]
                contributed(now, i as int) implies map@.contains_key(i) by {
                if i != update.index {
                    assert(contributed(earlier, i as int));
                    assert(before.contains_key(i));
                }
            }
        }
        at = at + 1;
    }
    assert(flat@.take(flat.len() as int) =~= flat@);
    let order: Vec<IndexPlace> = sort_ranked(&places);
    proof {
        lemma_ranked(places@);
        assert forall|k: int| 0 <= k < order.len() implies (#[trigger] order@[k]).place < rows.len()
            && rows@[order@[k].place as int]@ == contributions(flat@, order@[k].index as int)
            && contributed(flat@, order@[k].index as int) && places@[order@[k].place as int]
            == order@[k] by {
            assert(order@.contains(order@[k]));
            assert(places@.contains(order@[k]));
        }
        let leq = rank_order::<IndexPlace>();
        lemma_no_duplicate_places(places@, order@);
        assert forall|j: int, k: int| 0 <= j < k < order.len() implies (#[trigger] order@[j]).index
            < (#[trigger] order@[k]).index by {
            assert(leq(order@[j], order@[k]));
            if order@[j].index == order@[k].index {
                assert(places@[order@[j].place as int].index == places@[order@[k].place as int].index);
                assert(order@[j].place == order@[k].place);
            }
        }
        assert forall|i: usize| #[trigger] contributed(flat@, i as int) implies is_listed(
            order@,
            i,
        ) by {
            assert(map@.contains_key(i));
            let p = places@[map@[i] as int];
            assert(places@.contains(p));
            assert(order@.contains(p));
            let k = choose|k: int| 0 <= k < order@.len() && order@[k] == p;
            assert(order@[k].index == i);
        }
    }
    Gathered { rows, order }
}

/// A sorted list of distinct places holds no place twice.
proof fn lemma_no_duplicate_places(places: Seq<IndexPlace>, order: Seq<IndexPlace>)
    requires
        order == crate::sorting::ranked(places),
        forall|k: int| 0 <= k < places.len() ==> (#[trigger] places[k]).place == k,
    ensures
        forall|j: int, k: int| 0 <= j < k < order.len() ==> #[trigger] order[j] != #[trigger] order[k],
{
    lemma_ranked(places);
    assert(places.no_duplicates()) by {
        assert forall|j: int, k: int| 0 <= j < places.len() && 0 <= k < places.len() && j != k implies
            #[trigger] places[j] != #[trigger] places[k] by {
            assert(places[j].place == j && places[k].place == k);
        }
    }
    places.lemma_multiset_has_no_duplicates();
    order.lemma_multiset_has_no_duplicates_conv();
}

/// A contribution that can be merged: it names a place of the tensor and is finite.
pub open spec fn mergeable(update: SparseF32Delta, len: int) -> bool {
    update.index < len && update.delta.finite()
}

/// Every contribution can be merged.
pub open spec fn all_mergeable(flat: Seq<SparseF32Delta>, len: int) -> bool {
    forall|k: int| 0 <= k < flat.len() ==> mergeable(#[trigger] flat[k], len)
}

/// The places below `bound` are merged, the others are as before.
pub open spec fn merged_below<G: Fn(Scalar, Vec<Scalar>, usize) -> Scalar>(
    g: G,
    before: Seq<Scalar>,
    flat: Seq<SparseF32Delta>,
    workers: usize,
    bound: int,
    after: Seq<Scalar>,
) -> bool {
    &&& after.len() == before.len()
    &&& forall|i: int|
        0 <= i < after.len() ==> if contributed(flat, i) && i < bound {
            means(g, before[i], contributions(flat, i), workers, #[trigger] after[i])
        } else {
            after[i] == before[i]
        }
}

/// Every merged place below `bound` holds a finite number.
pub open spec fn finite_below(flat: Seq<SparseF32Delta>, bound: int, after: Seq<Scalar>) -> bool {
    forall|i: int|
        0 <= i < after.len() && i < bound && contributed(flat, i) ==> (
        #[trigger] after[i]).finite()
}

/// What merging one tensor gives: a count of its places, or the first error.
pub open spec fn tensor_merged<G: Fn(Scalar, Vec<Scalar>, usize) -> Scalar>(
    g: G,
    before: Seq<Scalar>,
    flat: Seq<SparseF32Delta>,
    workers: usize,
    after: Seq<Scalar>,
    r: LeoResult<usize>,
) -> bool {
    match r {
        Ok(count) => {
            &&& all_mergeable(flat, before.len() as int)
            &&& merged_below(g, before, flat, workers, before.len() as int, after)
            &&& finite_below(flat, before.len() as int, after)
            &&& count == places_touched(flat)
        },
        Err(e) => if !all_mergeable(flat, before.len() as int) {
            after == before && e.says(
                LeoErrorKind::Internal,
                "invalid sparse worker parameter delta"@,
            )
        } else {
            e.says(LeoErrorKind::Internal, "merged parameter became non-finite"@)
                && exists|at: int| #[trigger] broke_at(g, before, flat, workers, at, after)
        },
    }
}

/// Merging stopped at a place that became something other than a finite number.
pub open spec fn broke_at<G: Fn(Scalar, Vec<Scalar>, usize) -> Scalar>(
    g: G,
    before: Seq<Scalar>,
    flat: Seq<SparseF32Delta>,
    workers: usize,
    at: int,
    after: Seq<Scalar>,
) -> bool {
    &&& 0 <= at < before.len()
    &&& contributed(flat, at)
    &&& merged_below(g, before, flat, workers, at + 1, after)
    &&& finite_below(flat, at, after)
    &&& !after[at].finite()
}

proof fn lemma_contributor(flat: Seq<SparseF32Delta>, index: int)
    requires
        contributed(flat, index),
    ensures
        exists|k: int| 0 <= k < flat.len() && (#[trigger] flat[k]).index == index,
    decreases flat.len(),
{
    if flat.last().index == index {
        assert(flat[flat.len() - 1].index == index);
    } else {
        lemma_contributor(flat.drop_last(), index);
        let k = choose|k: int|
            0 <= k < flat.drop_last().len() && (#[trigger] flat.drop_last()[k]).index == index;
        assert(flat[k].index == index);
    }
}

/// Moves every place of a tensor by the mean of what was contributed to it.
pub fn apply_sparse_mean<G: Fn(Scalar, Vec<Scalar>, usize) -> Scalar>(
    target: &mut Vec<Scalar>,
    flat: &Vec<SparseF32Delta>,
    workers: usize,
    mean: &G,
) -> (r: LeoResult<usize>)
    requires
        takes_any_list(*mean),
    ensures
        tensor_merged(*mean, old(target)@, flat@, workers, final(target)@, r),
{
    let ghost before = target@;
    let mut k: usize = 0;
    while k < flat.len()
        invariant
            k <= flat.len(),
            target@ == before,
            forall|j: int| 0 <= j < k ==> mergeable(#[trigger] flat@[j], before.len() as int),
        decreases flat.len() - k,
    {
        let update: SparseF32Delta = flat[k];
        if update.index >= target.len() || !update.delta.is_finite() {
            assert(!mergeable(flat@[k as int], before.len() as int));
            return Err(LeoError::internal("invalid sparse worker parameter delta".to_owned()));
        }
        k = k + 1;
    }
    let gathered: Gathered = gather(flat);
    let ghost mut bound: int = 0;
    let mut at: usize = 0;
    assert(before.len() == target.len());
    assert forall|i: int| 0 <= i < before.len() && #[trigger] contributed(flat@, i) implies exists|
        m: int,
    |
        at <= m < gathered.order.len() && (#[trigger] gathered.order@[m]).index == i by {
        let u = i as usize;
        assert(u == i);
        assert(contributed(flat@, u as int));
        assert(is_listed(gathered.order@, u));
    }
    while at < gathered.order.len()
        invariant
            takes_any_list(*mean),
            before == old(target)@,
            all_mergeable(flat@, before.len() as int),
            gathered.holds(flat@),
            at <= gathered.order.len(),
            merged_below(*mean, before, flat@, workers, bound, target@),
            finite_below(flat@, bound, target@),
            at < gathered.order.len() ==> bound <= gathered.order@[at as int].index,
            forall|i: int|
                bound <= i < before.len() && #[trigger] contributed(flat@, i) ==> exists|m: int|
                    at <= m < gathered.order.len() && (#[trigger] gathered.order@[m]).index == i,
        decreases gathered.order.len() - at,
    {
        let index: usize = gathered.order[at].index;
        let place: usize = gathered.order[at].place;
        proof {
            assert(contributed(flat@, gathered.order@[at as int].index as int));
            lemma_contributor(flat@, index as int);
            let j = choose|j: int| 0 <= j < flat@.len() && (#[trigger] flat@[j]).index == index;
            assert(mergeable(flat@[j], before.len() as int));
        }
        let list: Vec<Scalar> = crate::parallel::copy_scalars(&gathered.rows[place]);
        let value: Scalar = target[index];
        assert(call_requires(*mean, (value, list, workers)));
        let ghost contributed_here = list;
        let moved: Scalar = mean(value, list, workers);
        assert(call_ensures(*mean, (value, contributed_here, workers), moved));
        assert(means(*mean, value, contributions(flat@, index as int), workers, moved));
        let ghost earlier = target@;
        target.set(index, moved);
        proof {
            assert forall|i: int| 0 <= i < target@.len() implies if contributed(flat@, i) && i
                < index + 1 {
                means(*mean, before[i], contributions(flat@, i), workers, #[trigger] target@[i])
            } else {
                target@[i] == before[i]
            } by {
                assert(target@[i] == if i == index {
                    moved
                } else {
                    earlier[i]
                });
                if i != index && contributed(flat@, i) && bound <= i < index {
                    let m = choose|m: int|
                        at <= m < gathered.order.len() && (#[trigger] gathered.order@[m]).index
                            == i;
                    if m > at {
                        assert(gathered.order@[at as int].index < gathered.order@[m].index);
                    }
                    assert(false);
                }
            }
            assert(merged_below(*mean, before, flat@, workers, index + 1, target@));
            assert forall|i: int| 0 <= i < target@.len() && i < index && contributed(flat@, i) implies (
            #[trigger] target@[i]).finite() by {
                assert(earlier[i] == target@[i]);
                if bound <= i {
                    let m = choose|m: int|
                        at <= m < gathered.order.len() && (#[trigger] gathered.order@[m]).index
                            == i;
                    if m > at {
                        assert(gathered.order@[at as int].index < gathered.order@[m].index);
                    }
                    assert(false);
                }
            }
        }
        if !moved.is_finite() {
            assert(broke_at(*mean, before, flat@, workers, index as int, target@));
            return Err(LeoError::internal("merged parameter became non-finite".to_owned()));
        }
        proof {
            assert forall|i: int|
                index + 1 <= i < before.len() && #[trigger] contributed(flat@, i) implies exists|m: int|
                at + 1 <= m < gathered.order.len() && (#[trigger] gathered.order@[m]).index == i by {
                let m = choose|m: int|
                    at <= m < gathered.order.len() && (#[trigger] gathered.order@[m]).index == i;
                assert(at + 1 <= m);
            }
            if at + 1 < gathered.order.len() {
                assert(gathered.order@[at as int].index < gathered.order@[at + 1].index);
            }
            bound = index + 1;
        }
        at = at + 1;
    }
    assert(merged_below(*mean, before, flat@, workers, before.len() as int, target@)) by {
        assert forall|i: int| 0 <= i < target@.len() implies if contributed(flat@, i) && i
            < before.len() {
            means(*mean, before[i], contributions(flat@, i), workers, #[trigger] target@[i])
        } else {
            target@[i] == before[i]
        } by {
            if contributed(flat@, i) && bound <= i {
                assert(false);
            }
        }
    }
    assert(finite_below(flat@, before.len() as int, target@)) by {
        assert forall|i: int| 0 <= i < target@.len() && contributed(flat@, i) implies (
        #[trigger] target@[i]).finite() by {
            if bound <= i {
                assert(false);
            }
        }
    }
    Ok(gathered.order.len())
}

/// The learned tensors that merge by aligned index.
#[derive(Debug, Clone, Copy, PartialEq, Eq, Structural)]
pub enum Tensor {
    Threshold,
    Excitability,
    RecurrentWeight,
    InputWeight,
    OutputWeight,
    OutputBias,
    ContextOutputWeight,
}

/// How many tensors merge by aligned index.
pub const TENSOR_COUNT: usize = 7;

/// The tensors in the order in which they merge.
pub open spec fn tensor_at(k: int) -> Tensor {
    if k == 0 {
        Tensor::Threshold
    } else if k == 1 {
        Tensor::Excitability
    } else if k == 2 {
        Tensor::RecurrentWeight
    } else if k == 3 {
        Tensor::InputWeight
    } else if k == 4 {
        Tensor::OutputWeight
    } else if k == 5 {
        Tensor::OutputBias
    } else {
        Tensor::ContextOutputWeight
    }
}

fn nth_tensor(k: usize) -> (r: Tensor)
    ensures
        r == tensor_at(k as int),
{
    if k == 0 {
        Tensor::Threshold
    } else if k == 1 {
        Tensor::Excitability
    } else if k == 2 {
        Tensor::RecurrentWeight
    } else if k == 3 {
        Tensor::InputWeight
    } else if k == 4 {
        Tensor::OutputWeight
    } else if k == 5 {
        Tensor::OutputBias
    } else {
        Tensor::ContextOutputWeight
    }
}

/// The numbers of a tensor.
pub open spec fn tensor_of(m: Model, t: Tensor) -> Seq<Scalar> {
    match t {
        Tensor::Threshold => m.neurons.threshold@,
        Tensor::Excitability => m.neurons.excitability@,
        Tensor::RecurrentWeight => m.recurrent.weight@,
        Tensor::InputWeight => m.input.weights@,
        Tensor::OutputWeight => m.output.weights@,
        Tensor::OutputBias => m.output.bias@,
        Tensor::ContextOutputWeight => m.context.output_weights@,
    }
}

/// What one worker contributed to a tensor.
pub open spec fn updates_of(d: SparseModelDelta, t: Tensor) -> Seq<SparseF32Delta> {
    match t {
        Tensor::Threshold => d.threshold@,
        Tensor::Excitability => d.excitability@,
        Tensor::RecurrentWeight => d.recurrent_weight@,
        Tensor::InputWeight => d.input_weight@,
        Tensor::OutputWeight => d.output_weight@,
        Tensor::OutputBias => d.output_bias@,
        Tensor::ContextOutputWeight => d.context_output_weight@,
    }
}

/// What the workers contributed to a tensor, one worker after the other.
pub open spec fn all_updates(deltas: Seq<SparseModelDelta>, t: Tensor) -> Seq<SparseF32Delta>
    decreases deltas.len(),
{
    if deltas.len() == 0 {
        seq![]
    } else {
        all_updates(deltas.drop_last(), t) + updates_of(deltas.last(), t)
    }
}

fn worker_updates(d: &SparseModelDelta, t: Tensor) -> (r: &Vec<SparseF32Delta>)
    ensures
        r@ == updates_of(*d, t),
{
    match t {
        Tensor::Threshold => &d.threshold,
        Tensor::Excitability => &d.excitability,
        Tensor::RecurrentWeight => &d.recurrent_weight,
        Tensor::InputWeight => &d.input_weight,
        Tensor::OutputWeight => &d.output_weight,
        Tensor::OutputBias => &d.output_bias,
        Tensor::ContextOutputWeight => &d.context_output_weight,
    }
}

/// What the workers contributed to a tensor.
fn collect_updates(deltas: &Vec<SparseModelDelta>, t: Tensor) -> (r: Vec<SparseF32Delta>)
    ensures
        r@ == all_updates(deltas@, t),
{
    let mut flat: Vec<SparseF32Delta> = Vec::new();
    let mut w: usize = 0;
    assert(deltas@.take(0) =~= Seq::<SparseModelDelta>::empty());
    while w < deltas.len()
        invariant
            w <= deltas.len(),
            flat@ == all_updates(deltas@.take(w as int), t),
        decreases deltas.len() - w,
    {
        let list: &Vec<SparseF32Delta> = worker_updates(&deltas[w], t);
        let ghost earlier = flat@;
        let mut i: usize = 0;
        while i < list.len()
            invariant
                i <= list.len(),
                flat@ == earlier + list@.take(i as int),
            decreases list.len() - i,
        {
            flat.push(list[i]);
            assert(list@.take(i + 1) =~= list@.take(i as int).push(list@[i as int]));
            assert(flat@ =~= earlier + list@.take(i + 1));
            i = i + 1;
        }
        proof {
            assert(list@.take(list.len() as int) =~= list@);
            let upto = deltas@.take(w + 1);
            assert(upto.drop_last() =~= deltas@.take(w as int));
            assert(upto.last() == deltas@[w as int]);
        }
        w = w + 1;
    }
    assert(deltas@.take(deltas.len() as int) =~= deltas@);
    flat
}

/// The same model but for the tensors that merge by aligned index.
pub open spec fn same_but_tensors(a: Model, b: Model) -> bool {
    &&& a.config == b.config
    &&& a.generation == b.generation
    &&& a.parameter_revision == b.parameter_revision
    &&& a.neurons.neuron_type == b.neurons.neuron_type
    &&& a.recurrent.capacity_per_neuron == b.recurrent.capacity_per_neuron
    &&& a.recurrent.target_neuron == b.recurrent.target_neuron
    &&& a.recurrent.target_branch == b.recurrent.target_branch
    &&& a.recurrent.delay == b.recurrent.delay
    &&& a.input.fanout == b.input.fanout
    &&& a.input.targets == b.input.targets
    &&& a.input.branches == b.input.branches
    &&& a.context.keys == b.context.keys
    &&& a.context.embeddings == b.context.embeddings
    &&& a.context.observations == b.context.observations
    &&& a.statistics == b.statistics
}

/// Merges one tensor.
fn merge_tensor<G: Fn(Scalar, Vec<Scalar>, usize) -> Scalar>(
    master: &mut Model,
    deltas: &Vec<SparseModelDelta>,
    t: Tensor,
    mean: &G,
) -> (r: LeoResult<usize>)
    requires
        takes_any_list(*mean),
    ensures
        tensor_merged(
            *mean,
            tensor_of(*old(master), t),
            all_updates(deltas@, t),
            deltas.len(),
            tensor_of(*final(master), t),
            r,
        ),
        same_but_tensors(*final(master), *old(master)),
        forall|u: Tensor| u != t ==> tensor_of(*final(master), u) == tensor_of(*old(master), u),
{
    let flat: Vec<SparseF32Delta> = collect_updates(deltas, t);
    let workers: usize = deltas.len();
    match t {
        Tensor::Threshold => apply_sparse_mean(&mut master.neurons.threshold, &flat, workers, mean),
        Tensor::Excitability => apply_sparse_mean(
            &mut master.neurons.excitability,
            &flat,
            workers,
            mean,
        ),
        Tensor::RecurrentWeight => apply_sparse_mean(
            &mut master.recurrent.weight,
            &flat,
            workers,
            mean,
        ),
        Tensor::InputWeight => apply_sparse_mean(&mut master.input.weights, &flat, workers, mean),
        Tensor::OutputWeight => apply_sparse_mean(&mut master.output.weights, &flat, workers, mean),
        Tensor::OutputBias => apply_sparse_mean(&mut master.output.bias, &flat, workers, mean),
        Tensor::ContextOutputWeight => apply_sparse_mean(
            &mut master.context.output_weights,
            &flat,
            workers,
            mean,
        ),
    }
}

/// Tensor `k` went through its merge with result `r`.
pub open spec fn tensor_result<G: Fn(Scalar, Vec<Scalar>, usize) -> Scalar>(
    g: G,
    before: Model,
    deltas: Seq<SparseModelDelta>,
    after: Model,
    k: int,
    r: LeoResult<usize>,
) -> bool {
    tensor_merged(
        g,
        tensor_of(before, tensor_at(k)),
        all_updates(deltas, tensor_at(k)),
        deltas.len() as usize,
        tensor_of(after, tensor_at(k)),
        r,
    )
}

/// Tensor `k` is merged.
pub open spec fn tensor_done<G: Fn(Scalar, Vec<Scalar>, usize) -> Scalar>(
    g: G,
    before: Model,
    deltas: Seq<SparseModelDelta>,
    after: Model,
    k: int,
) -> bool {
    exists|count: usize| #[trigger]
        tensor_result(g, before, deltas, after, k, Ok::<usize, LeoError>(count))
}

/// The tensors before `k` are merged, `k` failed, those after it are as before.
pub open spec fn tensor_failed<G: Fn(Scalar, Vec<Scalar>, usize) -> Scalar>(
    g: G,
    before: Model,
    deltas: Seq<SparseModelDelta>,
    after: Model,
    k: int,
    e: LeoError,
) -> bool {
    &&& 0 <= k < TENSOR_COUNT
    &&& forall|j: int| 0 <= j < k ==> #[trigger] tensor_done(g, before, deltas, after, j)
    &&& tensor_result(g, before, deltas, after, k, Err::<usize, LeoError>(e))
    &&& forall|j: int|
        k < j < TENSOR_COUNT ==> tensor_of(after, #[trigger] tensor_at(j)) == tensor_of(
            before,
            tensor_at(j),
        )
}

/// How many places of the first `k` tensors are merged.
pub open spec fn places_merged(deltas: Seq<SparseModelDelta>, k: int) -> int
    decreases k,
{
    if k <= 0 {
        0
    } else {
        capped(
            places_merged(deltas, k - 1) + places_touched(all_updates(deltas, tensor_at(k - 1))),
        )
    }
}

/// What merging the tensors gives.
pub open spec fn tensors_merged<G: Fn(Scalar, Vec<Scalar>, usize) -> Scalar>(
    g: G,
    before: Model,
    deltas: Seq<SparseModelDelta>,
    after: Model,
    r: LeoResult<usize>,
) -> bool {
    &&& same_but_tensors(after, before)
    &&& match r {
        Ok(count) => {
            &&& forall|k: int|
                0 <= k < TENSOR_COUNT ==> #[trigger] tensor_done(g, before, deltas, after, k)
            &&& count == places_merged(deltas, TENSOR_COUNT as int)
        },
        Err(e) => exists|k: int| #[trigger] tensor_failed(g, before, deltas, after, k, e),
    }
}

/// Merges the tensors one after the other.
pub fn merge_tensors<G: Fn(Scalar, Vec<Scalar>, usize) -> Scalar>(
    master: &mut Model,
    deltas: &Vec<SparseModelDelta>,
    mean: &G,
) -> (r: LeoResult<usize>)
    requires
        takes_any_list(*mean),
    ensures
        tensors_merged(*mean, *old(master), deltas@, *final(master), r),
{
    let mut count: usize = 0;
    let mut k: usize = 0;
    let ghost before = *master;
    while k < TENSOR_COUNT
        invariant
            takes_any_list(*mean),
            k <= TENSOR_COUNT,
            before == *old(master),
            same_but_tensors(*master, before),
            forall|j: int|
                0 <= j < k ==> #[trigger] tensor_done(*mean, before, deltas@, *master, j),
            forall|j: int|
                k <= j < TENSOR_COUNT ==> tensor_of(*master, #[trigger] tensor_at(j)) == tensor_of(
                    before,
                    tensor_at(j),
                ),
            count == places_merged(deltas@, k as int),
        decreases TENSOR_COUNT - k,
    {
        let ghost earlier = *master;
        let t: Tensor = nth_tensor(k);
        let result = merge_tensor(master, deltas, t, mean);
        proof {
            assert forall|j: int| 0 <= j < k implies #[trigger] tensor_done(
                *mean,
                before,
                deltas@,
                *master,
                j,
            ) by {
                assert(tensor_done(*mean, before, deltas@, earlier, j));
                assert(tensor_at(j) != t);
                let c = choose|c: usize| #[trigger]
                    tensor_result(*mean, before, deltas@, earlier, j, Ok::<usize, LeoError>(c));
                assert(tensor_result(
                    *mean,
                    before,
                    deltas@,
                    *master,
                    j,
                    Ok::<usize, LeoError>(c),
                ));
            }
            assert forall|j: int| k < j < TENSOR_COUNT implies tensor_of(
                *master,
                #[trigger] tensor_at(j),
            ) == tensor_of(before, tensor_at(j)) by {
                assert(tensor_at(j) != t);
            }
            assert(tensor_at(k as int) == t);
        }
        match result {
            Ok(more) => {
                assert(tensor_result(
                    *mean,
                    before,
                    deltas@,
                    *master,
                    k as int,
                    Ok::<usize, LeoError>(more),
                ));
                assert(tensor_done(*mean, before, deltas@, *master, k as int));
                count = count.saturating_add(more);
            },
            Err(e) => {
                assert(tensor_failed(*mean, before, deltas@, *master, k as int, e));
                return Err(e);
            },
        }
        k = k + 1;
    }
    Ok(count)
}

/// A parameter that no worker changed stays as it is.
pub proof fn law_untouched_parameters_stay<G: Fn(Scalar, Vec<Scalar>, usize) -> Scalar>(
    g: G,
    before: Model,
    deltas: Seq<SparseModelDelta>,
    after: Model,
    count: usize,
    k: int,
    index: int,
)
    requires
        tensors_merged(g, before, deltas, after, Ok::<usize, LeoError>(count)),
        0 <= k < TENSOR_COUNT,
        0 <= index < tensor_of(before, tensor_at(k)).len(),
        !contributed(all_updates(deltas, tensor_at(k)), index),
    ensures
        tensor_of(after, tensor_at(k)).len() == tensor_of(before, tensor_at(k)).len(),
        tensor_of(after, tensor_at(k))[index] == tensor_of(before, tensor_at(k))[index],
{
    assert(tensor_done(g, before, deltas, after, k));
    let c = choose|c: usize| #[trigger]
        tensor_result(g, before, deltas, after, k, Ok::<usize, LeoError>(c));
    assert(tensor_result(g, before, deltas, after, k, Ok::<usize, LeoError>(c)));
}

} // verus!
