//! How the draws of a new model are shared out over delays and branches.

use crate::error::LeoResult;
use crate::initialize::{
    input_branch, neighbour_block, with_inhibitory, DrawStage, RecurrentBuilder,
};
use crate::model::{
    BRANCH_CONTEXT_GATE, BRANCH_EXCITATORY, BRANCH_INHIBITORY, BRANCH_TEMPORAL,
};
use crate::scalar::Scalar;
use vstd::prelude::*;

verus! {

/// How often a value stands among the first `upto` of a list.
pub open spec fn occurrences(list: Seq<u8>, value: u8, upto: int) -> int
    decreases upto,
{
    if upto <= 0 {
        0
    } else {
        occurrences(list, value, upto - 1) + if list[upto - 1] == value {
            1int
        } else {
            0
        }
    }
}

proof fn lemma_stretch(list: Seq<u8>, value: u8, held: u8, from: int, to: int)
    requires
        0 <= from <= to <= list.len(),
        forall|i: int| from <= i < to ==> #[trigger] list[i] == held,
    ensures
        occurrences(list, value, to) == occurrences(list, value, from) + if held == value {
            to - from
        } else {
            0
        },
    decreases to - from,
{
    if from < to {
        lemma_stretch(list, value, held, from, to - 1);
    }
}

/// The delay of the synapse that was built last.
pub open spec fn last_delay(b: RecurrentBuilder) -> u8 {
    b.synapses.delay@.last()
}

/// Of the hundred draws for a delay, fifty build a synapse of one tick, twenty-five one of two,
/// fifteen one of four and ten one of eight, and a larger draw never gives a shorter delay.
pub proof fn law_delays_are_shared_out(
    b: RecurrentBuilder,
    chosen: Seq<RecurrentBuilder>,
    results: Seq<LeoResult<()>>,
    weight: Scalar,
    built: Seq<RecurrentBuilder>,
)
    requires
        b.stage is ForDelay,
        chosen.len() == 100,
        built.len() == 100,
        forall|d: int|
            0 <= d < 100 ==> b.drew(#[trigger] chosen[d], d as usize, results[d])
                && chosen[d].weighed(built[d], weight),
    ensures
        ({
            let delays = Seq::new(100, |d: int| last_delay(built[d]));
            &&& occurrences(delays, 1, 100) == 50
            &&& occurrences(delays, 2, 100) == 25
            &&& occurrences(delays, 4, 100) == 15
            &&& occurrences(delays, 8, 100) == 10
            &&& forall|i: int, j: int|
                0 <= i <= j < 100 ==> #[trigger] last_delay(built[i]) <= #[trigger] last_delay(
                    built[j],
                )
        }),
{
    let delays = Seq::new(100, |d: int| last_delay(built[d]));
    assert forall|d: int| 0 <= d < 100 implies #[trigger] last_delay(built[d])
        == crate::initialize::delay_of_draw(d as usize) by {
        assert(b.drew(chosen[d], d as usize, results[d]));
    }
    assert forall|v: u8| #![trigger occurrences(delays, v, 100)]
        occurrences(delays, v, 100) == (if v == 1 {
            50int
        } else {
            0
        }) + (if v == 2 {
            25int
        } else {
            0
        }) + (if v == 4 {
            15int
        } else {
            0
        }) + (if v == 8 {
            10int
        } else {
            0
        }) by {
        lemma_stretch(delays, v, 1, 0, 50);
        lemma_stretch(delays, v, 2, 50, 75);
        lemma_stretch(delays, v, 4, 75, 90);
        lemma_stretch(delays, v, 8, 90, 100);
    }
}

/// The three draws for the branch of an excitatory synapse give its three branches, each of them
/// once, and never the inhibitory one. They are proposed for the target that was drawn.
pub proof fn law_branches_are_shared_out(
    b: RecurrentBuilder,
    target: usize,
    chosen: Seq<RecurrentBuilder>,
    results: Seq<LeoResult<()>>,
    i: int,
    j: int,
)
    requires
        b.stage == DrawStage::OnTarget(target),
        b.used@.len() == 0,
        target != b.source,
        0 <= i < 3,
        0 <= j < 3,
        forall|d: int| 0 <= d < 3 ==> b.drew(#[trigger] chosen[d], d as usize, results[d]),
    ensures
        ({
            let e = chosen[i].stage->ForDelay_0;
            let f = chosen[j].stage->ForDelay_0;
            &&& chosen[i].stage is ForDelay
            &&& e.target == target
            &&& e.branch == BRANCH_EXCITATORY || e.branch == BRANCH_TEMPORAL || e.branch
                == BRANCH_CONTEXT_GATE
            &&& i != j ==> e.branch != f.branch
        }),
{
    assert(b.drew(chosen[i], i as usize, results[i]));
    assert(b.drew(chosen[j], j as usize, results[j]));
}

/// Of any eight input synapses of a symbol in a row, six end on the excitatory branch, one on the
/// temporal branch and one on the context branch.
pub proof fn law_input_branches_are_shared_out(first: int, list: Seq<u8>)
    requires
        0 <= first,
        list.len() == 8,
        forall|k: int| 0 <= k < 8 ==> #[trigger] list[k] == input_branch(first + k),
    ensures
        occurrences(list, BRANCH_EXCITATORY, 8) == 6,
        occurrences(list, BRANCH_TEMPORAL, 8) == 1,
        occurrences(list, BRANCH_CONTEXT_GATE, 8) == 1,
        occurrences(list, BRANCH_INHIBITORY, 8) == 0,
{
    reveal_with_fuel(occurrences, 9);
    assert(list[0] == input_branch(first + 0));
    assert(list[1] == input_branch(first + 1));
    assert(list[2] == input_branch(first + 2));
    assert(list[3] == input_branch(first + 3));
    assert(list[4] == input_branch(first + 4));
    assert(list[5] == input_branch(first + 5));
    assert(list[6] == input_branch(first + 6));
    assert(list[7] == input_branch(first + 7));
}

/// The first three quarters of a neuron's synapses stay near, rounded down, and the others go
/// anywhere. A synapse that stays near ends in the block before that of its source, in that block
/// or in the one after it, one draw of three for each, as far as there is such a block, and at the
/// place in the block that was drawn; one that goes anywhere ends at the neuron that was drawn.
pub proof fn law_most_synapses_stay_near(
    b: RecurrentBuilder,
    m: RecurrentBuilder,
    a: RecurrentBuilder,
    first: usize,
    second: usize,
    r: LeoResult<()>,
    q: LeoResult<()>,
)
    requires
        b.wf(),
        b.source < b.shape.neuron_count,
        b.stage == DrawStage::Start,
        b.neuron_type[b.source as int] == 0,
        b.answers(first),
        b.drew(m, first, r),
        m.stage is InBlock ==> second < b.shape.neurons_per_block && m.drew(a, second, q),
    ensures
        ({
            let size = b.shape.neurons_per_block as int;
            let home = b.source as int / size;
            let near = 4 * (b.local_slot + 1) <= 3 * b.shape.synapses_per_neuron;
            &&& near ==> a.stage is OnTarget && {
                let target = a.stage->OnTarget_0 as int;
                &&& 0 <= target < b.shape.neuron_count
                &&& target % size == second
                &&& first == 1 ==> target / size == home
                &&& first == 0 ==> target / size == if home == 0 {
                    0
                } else {
                    home - 1
                }
                &&& first == 2 ==> target / size == if home == b.shape.block_count - 1 {
                    home
                } else {
                    home + 1
                }
            }
            &&& !near ==> m.stage == DrawStage::OnTarget(first)
        }),
{
    let size = b.shape.neurons_per_block as int;
    let blocks = b.shape.block_count as int;
    let home = b.source as int / size;
    assert(0 <= home < blocks) by (nonlinear_arith)
        requires
            0 <= b.source < blocks * size,
            home == b.source as int / size,
            0 < size,
    ;
    if b.shape.is_local(b.local_slot as int) {
        let block = neighbour_block(home, first as int, blocks);
        crate::runtime::lemma_place(block, second as int, blocks, size);
        let target = block * size + second;
        vstd::arithmetic::div_mod::lemma_fundamental_div_mod_converse(target, size, block, second as int);
    }
}

/// The neurons that are listed first become inhibitory, as many as asked for; every other neuron
/// keeps its type.
pub proof fn law_listed_neurons_become_inhibitory(
    types: Seq<u8>,
    ids: Seq<usize>,
    count: int,
    neuron: int,
)
    requires
        forall|i: int| 0 <= i < ids.len() ==> (#[trigger] ids[i]) < types.len(),
        0 <= count <= ids.len(),
        0 <= neuron < types.len(),
    ensures
        ({
            let after = with_inhibitory(types, ids, count);
            &&& after.len() == types.len()
            &&& (exists|i: int| 0 <= i < count && #[trigger] ids[i] == neuron)
                ==> after[neuron] == 1
            &&& (forall|i: int| 0 <= i < count ==> #[trigger] ids[i] != neuron) ==> after[neuron]
                == types[neuron]
        }),
    decreases count,
{
    if count > 0 {
        law_listed_neurons_become_inhibitory(types, ids, count - 1, neuron);
        assert(ids[count - 1] < types.len());
        if ids[count - 1] != neuron {
            if exists|i: int| 0 <= i < count && #[trigger] ids[i] == neuron {
                let i = choose|i: int| 0 <= i < count && #[trigger] ids[i] == neuron;
                assert(i < count - 1 && ids[i] == neuron);
            }
        }
    }
}

} // verus!
