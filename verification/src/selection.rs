//! The competition for activity: which of the neurons with evidence become active.
//!
//! Each block keeps its strongest candidates; where the blocks together may exceed the
//! global cap, the strongest of all are kept. Equal activations are told apart by the
//! neuron's distance from a place that moves on with every tick.

use crate::scalar::Scalar;
use crate::sorting::{lemma_ranked, ranked, sort_ranked, Ranked};
use vstd::prelude::*;
use vstd::seq_lib::*;

verus! {

/// A neuron with positive activation.
#[derive(Debug, Clone, Copy, PartialEq, Eq, Structural)]
pub struct Candidate {
    pub activation: Scalar,
    /// Distance of the neuron from the tick's rotation.
    pub tie: usize,
    pub neuron: usize,
}

impl Ranked for Candidate {
    /// The stronger comes first; among equals the one nearer to the rotation.
    open spec fn leq(self, other: Self) -> bool {
        ||| other.activation.total_rank() < self.activation.total_rank()
        ||| self.activation.total_rank() == other.activation.total_rank() && (self.tie < other.tie
            || (self.tie == other.tie && self.neuron <= other.neuron))
    }

    proof fn order_is_total() {
    }

    fn comes_before(&self, other: &Self) -> (r: bool) {
        let mine: i64 = self.activation.total_order();
        let theirs: i64 = other.activation.total_order();
        theirs < mine || (mine == theirs && (self.tie < other.tie || (self.tie == other.tie
            && self.neuron <= other.neuron)))
    }
}

/// The distance of a neuron from the rotation, counted upwards around the ring of neurons.
pub open spec fn tie_key(neuron: int, tick_rotation: int, neuron_count: int) -> int {
    (neuron + neuron_count - tick_rotation) % neuron_count
}

/// The distance of a neuron from the rotation, counted upwards around the ring of neurons.
pub fn rotated_tie_key(neuron: usize, tick_rotation: usize, neuron_count: usize) -> (r: usize)
    requires
        0 < neuron_count,
        tick_rotation <= neuron_count,
    ensures
        r == tie_key(neuron as int, tick_rotation as int, neuron_count as int),
        r < neuron_count,
{
    ((neuron as u128 + (neuron_count - tick_rotation) as u128) % (neuron_count as u128)) as usize
}

/// Two neurons of the ring never have the same distance.
pub proof fn law_tie_keys_are_distinct(a: int, b: int, tick_rotation: int, neuron_count: int)
    requires
        0 <= a < neuron_count,
        0 <= b < neuron_count,
        0 <= tick_rotation < neuron_count,
        tie_key(a, tick_rotation, neuron_count) == tie_key(b, tick_rotation, neuron_count),
    ensures
        a == b,
{
    let x = a + neuron_count - tick_rotation;
    let y = b + neuron_count - tick_rotation;
    lemma_small_mod(x, neuron_count);
    lemma_small_mod(y, neuron_count);
}

/// The remainder of a number below twice the divisor.
proof fn lemma_small_mod(x: int, n: int)
    requires
        0 < n,
        0 <= x < 2 * n,
    ensures
        x % n == (if x < n {
            x
        } else {
            x - n
        }),
{
    if x < n {
        vstd::arithmetic::div_mod::lemma_small_mod(x as nat, n as nat);
    } else {
        vstd::arithmetic::div_mod::lemma_mod_sub_multiples_vanish(x, n);
        vstd::arithmetic::div_mod::lemma_small_mod((x - n) as nat, n as nat);
    }
}

/// What the competition looks at on a tick.
#[derive(Debug, Clone, Copy)]
pub struct SelectionShape {
    pub neuron_count: usize,
    pub block_count: usize,
    pub neurons_per_block: usize,
    pub max_active_per_block: usize,
    pub max_active_global: usize,
    pub tick: u64,
}

impl SelectionShape {
    /// Blocks of equal size cover the neurons.
    pub open spec fn wf(self) -> bool {
        &&& 0 < self.neuron_count
        &&& 0 < self.neurons_per_block
        &&& self.block_count * self.neurons_per_block == self.neuron_count
    }

    /// The rotation of the tick.
    pub open spec fn rotation(self) -> int {
        self.tick as int % self.neuron_count as int
    }

    /// A neuron with its activation, as a candidate of this tick.
    pub open spec fn candidate(self, neuron: usize, activation: Scalar) -> Candidate {
        Candidate {
            activation,
            tie: tie_key(neuron as int, self.rotation(), self.neuron_count as int) as usize,
            neuron,
        }
    }

    /// Whether the `i`-th touched neuron enters the competition of block `b`: it belongs to
    /// the block, it can fire, and its activation is positive.
    pub open spec fn enters(
        self,
        touched: Seq<usize>,
        ready: Seq<bool>,
        activation: Seq<Scalar>,
        b: int,
        i: int,
    ) -> bool {
        &&& ready[i]
        &&& Scalar { bits: 0 }.below(activation[i])
        &&& touched[i] as int / self.neurons_per_block as int == b
    }

    /// The candidates of block `b` among the first `upto` touched neurons, in the order
    /// they were touched.
    pub open spec fn block_candidates(
        self,
        touched: Seq<usize>,
        ready: Seq<bool>,
        activation: Seq<Scalar>,
        b: int,
        upto: int,
    ) -> Seq<Candidate>
        decreases upto,
    {
        if upto <= 0 {
            Seq::empty()
        } else {
            let rest = self.block_candidates(touched, ready, activation, b, upto - 1);
            if self.enters(touched, ready, activation, b, upto - 1) {
                rest.push(self.candidate(touched[upto - 1], activation[upto - 1]))
            } else {
                rest
            }
        }
    }

    /// Whether the winners of all blocks together can never exceed the global cap.
    pub open spec fn global_ranking_is_redundant(self) -> bool {
        self.max_active_global >= (if self.block_count * self.max_active_per_block > usize::MAX {
            usize::MAX as int
        } else {
            self.block_count * self.max_active_per_block
        })
    }
}

/// The strongest candidates of one block.
pub open spec fn block_winners(block: Seq<Candidate>, limit: int) -> Seq<Candidate> {
    if block.len() > limit {
        ranked(block).take(limit)
    } else {
        ranked(block)
    }
}

/// The winners of the first `upto` blocks, block after block.
pub open spec fn all_winners(blocks: Seq<Seq<Candidate>>, limit: int, upto: int) -> Seq<Candidate>
    decreases upto,
{
    if upto <= 0 {
        Seq::empty()
    } else {
        all_winners(blocks, limit, upto - 1) + block_winners(blocks[upto - 1], limit)
    }
}

/// The number of candidates in the first `upto` blocks.
pub open spec fn candidate_count(blocks: Seq<Seq<Candidate>>, upto: int) -> int
    decreases upto,
{
    if upto <= 0 {
        0
    } else {
        candidate_count(blocks, upto - 1) + blocks[upto - 1].len()
    }
}

/// The blocks as sequences.
pub open spec fn block_views(blocks: Seq<Vec<Candidate>>) -> Seq<Seq<Candidate>> {
    Seq::new(blocks.len(), |b: int| blocks[b]@)
}

/// The outcome of the competition.
#[derive(Debug)]
pub struct Selection {
    /// The active neurons with their activations.
    pub active: Vec<Candidate>,
    /// For each block, the activation of its strongest loser, or zero where none lost.
    pub block_cutoff: Vec<Scalar>,
    /// The strongest neuron that the global cap removed.
    pub cutoff_neuron: Option<usize>,
    pub suprathreshold_neurons: usize,
    pub block_selected_neurons: usize,
    pub global_cap_clipped_neurons: usize,
}

impl SelectionShape {
    /// What the competition must give for these blocks of candidates.
    pub open spec fn decides(self, blocks: Seq<Seq<Candidate>>, r: Selection) -> bool {
        let limit = self.max_active_per_block as int;
        let local = all_winners(blocks, limit, blocks.len() as int);
        let global = ranked(local);
        let cap = self.max_active_global as int;
        &&& r.suprathreshold_neurons == candidate_count(blocks, blocks.len() as int)
        &&& r.block_selected_neurons == local.len()
        &&& r.block_cutoff.len() == blocks.len()
        &&& forall|b: int|
            0 <= b < blocks.len() ==> #[trigger] r.block_cutoff[b] == (if blocks[b].len() > limit {
                ranked(blocks[b])[limit].activation
            } else {
                Scalar { bits: 0 }
            })
        &&& if self.global_ranking_is_redundant() {
            &&& r.active@ == local
            &&& r.cutoff_neuron is None
            &&& r.global_cap_clipped_neurons == 0
        } else if local.len() > cap {
            &&& r.active@ == global.take(cap)
            &&& r.cutoff_neuron == Some(global[cap].neuron)
            &&& r.global_cap_clipped_neurons == local.len() - cap
        } else {
            &&& r.active@ == global
            &&& r.cutoff_neuron is None
            &&& r.global_cap_clipped_neurons == 0
        }
    }

    /// Sorts the touched neurons that can fire and have evidence into their blocks.
    ///
    /// `ready[i]` says whether the `i`-th touched neuron is past its refractory time,
    /// `activation[i]` is its activation.
    pub fn gather(&self, touched: &Vec<usize>, ready: &Vec<bool>, activation: &Vec<Scalar>) -> (r:
        Vec<Vec<Candidate>>)
        requires
            self.wf(),
            ready.len() == touched.len(),
            activation.len() == touched.len(),
            forall|i: int| 0 <= i < touched.len() ==> (#[trigger] touched[i]) < self.neuron_count,
        ensures
            r.len() == self.block_count,
            forall|b: int|
                0 <= b < self.block_count ==> (#[trigger] r[b])@ == self.block_candidates(
                    touched@,
                    ready@,
                    activation@,
                    b,
                    touched.len() as int,
                ),
    {
        let mut blocks: Vec<Vec<Candidate>> = Vec::new();
        let mut b: usize = 0;
        while b < self.block_count
            invariant
                b <= self.block_count,
                blocks.len() == b,
                forall|k: int| 0 <= k < b ==> (#[trigger] blocks[k])@ == Seq::<Candidate>::empty(),
            decreases self.block_count - b,
        {
            blocks.push(Vec::new());
            b = b + 1;
        }
        let rotation: usize = (self.tick % (self.neuron_count as u64)) as usize;
        let mut i: usize = 0;
        while i < touched.len()
            invariant
                self.wf(),
                i <= touched.len(),
                ready.len() == touched.len(),
                activation.len() == touched.len(),
                rotation == self.rotation(),
                rotation < self.neuron_count,
                blocks.len() == self.block_count,
                forall|k: int|
                    0 <= k < touched.len() ==> (#[trigger] touched[k]) < self.neuron_count,
                forall|k: int|
                    0 <= k < self.block_count ==> (#[trigger] blocks[k])@ == self.block_candidates(
                        touched@,
                        ready@,
                        activation@,
                        k,
                        i as int,
                    ),
            decreases touched.len() - i,
        {
            let neuron: usize = touched[i];
            let at: usize = neuron / self.neurons_per_block;
            assert(at < self.block_count) by (nonlinear_arith)
                requires
                    at == neuron as int / self.neurons_per_block as int,
                    0 <= neuron < self.neuron_count,
                    self.block_count * self.neurons_per_block == self.neuron_count,
                    0 < self.neurons_per_block,
            ;
            if ready[i] && Scalar::zero().lt(activation[i]) {
                let candidate = Candidate {
                    activation: activation[i],
                    tie: rotated_tie_key(neuron, rotation, self.neuron_count),
                    neuron,
                };
                assert(candidate == self.candidate(neuron, activation@[i as int]));
                blocks[at].push(candidate);
            }
            i = i + 1;
        }
        blocks
    }

    /// Holds the competition on the candidates of the blocks.
    pub fn compete(&self, blocks: &Vec<Vec<Candidate>>) -> (r: Selection)
        requires
            candidate_count(block_views(blocks@), blocks.len() as int) <= usize::MAX,
        ensures
            self.decides(block_views(blocks@), r),
    {
        let limit: usize = self.max_active_per_block;
        let ghost views = block_views(blocks@);
        let mut local: Vec<Candidate> = Vec::new();
        let mut block_cutoff: Vec<Scalar> = Vec::new();
        let mut suprathreshold: usize = 0;
        let mut b: usize = 0;
        while b < blocks.len()
            invariant
                b <= blocks.len(),
                limit == self.max_active_per_block,
                views == block_views(blocks@),
                local@ == all_winners(views, limit as int, b as int),
                block_cutoff.len() == b,
                forall|k: int|
                    0 <= k < b ==> #[trigger] block_cutoff[k] == (if views[k].len() > limit {
                        ranked(views[k])[limit as int].activation
                    } else {
                        Scalar { bits: 0 }
                    }),
                suprathreshold == candidate_count(views, b as int),
                candidate_count(views, blocks.len() as int) <= usize::MAX,
            decreases blocks.len() - b,
        {
            proof {
                lemma_count_grows(views, b + 1, blocks.len() as int);
                lemma_ranked(views[b as int]);
            }
            let mut order = sort_ranked(&blocks[b]);
            suprathreshold = suprathreshold + blocks[b].len();
            if order.len() > limit {
                block_cutoff.push(order[limit].activation);
                order.truncate(limit);
                assert(order@ =~= ranked(views[b as int]).take(limit as int));
            } else {
                block_cutoff.push(Scalar::zero());
            }
            assert(order@ == block_winners(views[b as int], limit as int));
            local.append(&mut order);
            b = b + 1;
        }
        let block_selected: usize = local.len();
        let capacity: usize = match self.block_count.checked_mul(limit) {
            Some(product) => product,
            None => usize::MAX,
        };
        let cap: usize = self.max_active_global;
        if cap >= capacity {
            return Selection {
                active: local,
                block_cutoff,
                cutoff_neuron: None,
                suprathreshold_neurons: suprathreshold,
                block_selected_neurons: block_selected,
                global_cap_clipped_neurons: 0,
            };
        }
        proof {
            lemma_ranked(local@);
        }
        let mut global = sort_ranked(&local);
        let mut cutoff_neuron: Option<usize> = None;
        let mut clipped: usize = 0;
        if global.len() > cap {
            cutoff_neuron = Some(global[cap].neuron);
            clipped = global.len() - cap;
            global.truncate(cap);
            assert(global@ =~= ranked(local@).take(cap as int));
        }
        Selection {
            active: global,
            block_cutoff,
            cutoff_neuron,
            suprathreshold_neurons: suprathreshold,
            block_selected_neurons: block_selected,
            global_cap_clipped_neurons: clipped,
        }
    }
}

/// The candidate stands in one of the first `upto` blocks.
pub open spec fn in_some_block(blocks: Seq<Seq<Candidate>>, upto: int, c: Candidate) -> bool {
    exists|b: int| 0 <= b < upto && #[trigger] blocks[b].contains(c)
}

/// Counting more blocks never counts fewer candidates.
proof fn lemma_count_grows(blocks: Seq<Seq<Candidate>>, low: int, high: int)
    requires
        0 <= low <= high,
    ensures
        0 <= candidate_count(blocks, low) <= candidate_count(blocks, high),
    decreases high,
{
    if low < high {
        lemma_count_grows(blocks, low, high - 1);
    } else if low > 0 {
        lemma_count_grows(blocks, low - 1, high - 1);
    }
}

/// All blocks of candidates among the first `upto` touched neurons.
pub open spec fn gathered(
    shape: SelectionShape,
    touched: Seq<usize>,
    ready: Seq<bool>,
    activation: Seq<Scalar>,
    upto: int,
) -> Seq<Seq<Candidate>> {
    Seq::new(
        shape.block_count as nat,
        |b: int| shape.block_candidates(touched, ready, activation, b, upto),
    )
}

/// Where only one block grew, and by one candidate, the count grew by one.
proof fn lemma_one_more(
    before: Seq<Seq<Candidate>>,
    after: Seq<Seq<Candidate>>,
    grown: int,
    upto: int,
)
    requires
        before.len() == after.len(),
        0 <= upto <= before.len(),
        forall|b: int| 0 <= b < before.len() && b != grown ==> #[trigger] after[b] == before[b],
        0 <= grown < before.len() ==> after[grown].len() <= before[grown].len() + 1,
    ensures
        candidate_count(after, upto) <= candidate_count(before, upto) + (if 0 <= grown < upto {
            1int
        } else {
            0
        }),
    decreases upto,
{
    if upto > 0 {
        lemma_one_more(before, after, grown, upto - 1);
    }
}

/// There are no more candidates than touched neurons.
proof fn lemma_candidates_are_touched(
    shape: SelectionShape,
    touched: Seq<usize>,
    ready: Seq<bool>,
    activation: Seq<Scalar>,
    upto: int,
)
    requires
        0 <= upto <= touched.len(),
    ensures
        candidate_count(
            gathered(shape, touched, ready, activation, upto),
            shape.block_count as int,
        ) <= upto,
    decreases upto,
{
    let n = shape.block_count as int;
    let after = gathered(shape, touched, ready, activation, upto);
    if upto == 0 {
        lemma_empty_count(after, n);
    } else {
        let before = gathered(shape, touched, ready, activation, upto - 1);
        lemma_candidates_are_touched(shape, touched, ready, activation, upto - 1);
        let grown = touched[upto - 1] as int / shape.neurons_per_block as int;
        assert forall|b: int| 0 <= b < before.len() && b != grown implies #[trigger] after[b]
            == before[b] by {
            assert(!shape.enters(touched, ready, activation, b, upto - 1));
        }
        lemma_one_more(before, after, grown, n);
    }
}

impl SelectionShape {
    /// Gathers the candidates among the touched neurons and holds the competition.
    pub fn select(&self, touched: &Vec<usize>, ready: &Vec<bool>, activation: &Vec<Scalar>) -> (r:
        Selection)
        requires
            self.wf(),
            ready.len() == touched.len(),
            activation.len() == touched.len(),
            forall|i: int| 0 <= i < touched.len() ==> (#[trigger] touched[i]) < self.neuron_count,
        ensures
            self.decides(
                gathered(*self, touched@, ready@, activation@, touched.len() as int),
                r,
            ),
    {
        let blocks = self.gather(touched, ready, activation);
        proof {
            assert(block_views(blocks@) =~= gathered(
                *self,
                touched@,
                ready@,
                activation@,
                touched.len() as int,
            ));
            lemma_candidates_are_touched(
                *self,
                touched@,
                ready@,
                activation@,
                touched.len() as int,
            );
        }
        self.compete(&blocks)
    }
}

/// The winners of `upto` blocks are at most `limit` for each block, and no more than there
/// are candidates; each is a candidate of its block.
proof fn lemma_winners(blocks: Seq<Seq<Candidate>>, limit: int, upto: int)
    requires
        0 <= limit,
        0 <= upto <= blocks.len(),
    ensures
        all_winners(blocks, limit, upto).len() <= upto * limit,
        all_winners(blocks, limit, upto).len() <= candidate_count(blocks, upto),
        forall|i: int|
            0 <= i < all_winners(blocks, limit, upto).len() ==> in_some_block(
                blocks,
                upto,
                #[trigger] all_winners(blocks, limit, upto)[i],
            ),
    decreases upto,
{
    if upto > 0 {
        let before = all_winners(blocks, limit, upto - 1);
        let block = blocks[upto - 1];
        lemma_winners(blocks, limit, upto - 1);
        lemma_ranked(block);
        assert(upto * limit == (upto - 1) * limit + limit) by (nonlinear_arith);
        assert forall|i: int| 0 <= i < all_winners(blocks, limit, upto).len() implies in_some_block(
            blocks,
            upto,
            #[trigger] all_winners(blocks, limit, upto)[i],
        ) by {
            let w = all_winners(blocks, limit, upto)[i];
            if i < before.len() {
                assert(w == before[i]);
                assert(in_some_block(blocks, upto - 1, before[i]));
                let b = choose|b: int|
                    0 <= b < upto - 1 && #[trigger] blocks[b].contains(before[i]);
                assert(blocks[b].contains(w));
            } else {
                let k = i - before.len();
                assert(w == ranked(block)[k]);
                assert(ranked(block).contains(w));
                assert(blocks[upto - 1].contains(w));
            }
        }
    }
}

/// A neuron is a candidate of some block.
pub open spec fn is_candidate(blocks: Seq<Seq<Candidate>>, neuron: usize) -> bool {
    exists|c: Candidate|
        #[trigger] in_some_block(blocks, blocks.len() as int, c) && c.neuron == neuron
}

/// The competition never makes more neurons active than the global cap, nor more than the
/// block cap in each block allows, and only candidates become active.
pub proof fn law_selection_is_bounded(
    shape: SelectionShape,
    blocks: Seq<Seq<Candidate>>,
    r: Selection,
)
    requires
        blocks.len() == shape.block_count,
        shape.decides(blocks, r),
    ensures
        r.active.len() <= shape.max_active_global,
        r.active.len() <= shape.block_count * shape.max_active_per_block,
        r.active.len() + r.global_cap_clipped_neurons == r.block_selected_neurons,
        r.block_selected_neurons <= r.suprathreshold_neurons,
        forall|i: int|
            0 <= i < r.active.len() ==> in_some_block(
                blocks,
                blocks.len() as int,
                #[trigger] r.active[i],
            ),
        r.cutoff_neuron matches Some(neuron) ==> is_candidate(blocks, neuron),
{
    let limit = shape.max_active_per_block as int;
    let n = blocks.len() as int;
    let local = all_winners(blocks, limit, n);
    lemma_winners(blocks, limit, n);
    lemma_ranked(local);
    if let Some(neuron) = r.cutoff_neuron {
        let c = ranked(local)[shape.max_active_global as int];
        assert(ranked(local).contains(c));
        assert(local.contains(c));
        let k = choose|k: int| 0 <= k < local.len() && local[k] == c;
        assert(in_some_block(blocks, n, local[k]));
        assert(c.neuron == neuron);
    }
    assert(0 <= n * limit) by (nonlinear_arith)
        requires
            0 <= n,
            0 <= limit,
    ;
    assert forall|i: int| 0 <= i < r.active.len() implies in_some_block(
        blocks,
        blocks.len() as int,
        #[trigger] r.active[i],
    ) by {
        let w = r.active[i];
        assert(local.contains(w)) by {
            if shape.global_ranking_is_redundant() {
                assert(w == local[i]);
            } else {
                assert(w == ranked(local)[i]);
                assert(ranked(local).contains(w));
            }
        }
        let k = choose|k: int| 0 <= k < local.len() && local[k] == w;
        assert(in_some_block(blocks, n, local[k]));
    }
}

/// Without a candidate no neuron becomes active: the target activity forces nothing.
pub proof fn law_no_winner_without_evidence(
    shape: SelectionShape,
    blocks: Seq<Seq<Candidate>>,
    r: Selection,
)
    requires
        blocks.len() == shape.block_count,
        shape.decides(blocks, r),
        forall|b: int| 0 <= b < blocks.len() ==> (#[trigger] blocks[b]).len() == 0,
    ensures
        r.active.len() == 0,
        r.suprathreshold_neurons == 0,
{
    law_selection_is_bounded(shape, blocks, r);
    lemma_empty_count(blocks, blocks.len() as int);
}

/// Empty blocks count no candidate.
proof fn lemma_empty_count(blocks: Seq<Seq<Candidate>>, upto: int)
    requires
        0 <= upto <= blocks.len(),
        forall|b: int| 0 <= b < blocks.len() ==> (#[trigger] blocks[b]).len() == 0,
    ensures
        candidate_count(blocks, upto) == 0,
    decreases upto,
{
    if upto > 0 {
        lemma_empty_count(blocks, upto - 1);
    }
}

/// Where the global ranking is skipped, holding it would have kept the same neurons.
pub proof fn law_skipped_ranking_keeps_the_winners(
    shape: SelectionShape,
    blocks: Seq<Seq<Candidate>>,
    r: Selection,
)
    requires
        blocks.len() == shape.block_count,
        shape.decides(blocks, r),
        shape.global_ranking_is_redundant(),
    ensures
        ranked(r.active@).len() <= shape.max_active_global,
        ranked(r.active@).to_multiset() == r.active@.to_multiset(),
{
    law_selection_is_bounded(shape, blocks, r);
    lemma_ranked(r.active@);
}

} // verus!
