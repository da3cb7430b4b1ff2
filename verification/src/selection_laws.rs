//! What the competition is for: the strongest neurons become active, as many as may, and chance
//! among equals moves on with the ticks.

use crate::scalar::Scalar;
use crate::selection::{
    all_winners, block_winners, gathered, tie_key, Candidate, Selection, SelectionShape,
};
use crate::sorting::{lemma_ranked, rank_order, ranked};
use vstd::prelude::*;
use vstd::relations::sorted_by;

verus! {

/// The neuron of a touched place competes: it is past its refractory time and has evidence.
pub open spec fn competes(ready: Seq<bool>, activation: Seq<Scalar>, i: int) -> bool {
    ready[i] && (Scalar { bits: 0 }).below(activation[i])
}

/// The neuron is among the active ones.
pub open spec fn is_active(s: Selection, neuron: usize) -> bool {
    exists|k: int| 0 <= k < s.active@.len() && (#[trigger] s.active@[k]).neuron == neuron
}

/// How far a neuron is from the place of the tick, counted upwards around the ring of neurons.
pub open spec fn steps_from_tick(neuron: int, tick: int, neurons: int) -> int {
    (neuron - tick) % neurons
}

/// Among the candidates of a block are those neurons of it that compete, with their activation.
proof fn lemma_block_holds(
    shape: SelectionShape,
    touched: Seq<usize>,
    ready: Seq<bool>,
    activation: Seq<Scalar>,
    b: int,
    upto: int,
    i: int,
)
    requires
        0 <= upto <= touched.len(),
    ensures
        0 <= i < upto && competes(ready, activation, i) && touched[i] as int
            / shape.neurons_per_block as int == b ==> shape.block_candidates(
            touched,
            ready,
            activation,
            b,
            upto,
        ).contains(shape.candidate(touched[i], activation[i])),
        forall|c: Candidate| #[trigger]
            shape.block_candidates(touched, ready, activation, b, upto).contains(c) ==> exists|j: int|
                0 <= j < upto && competes(ready, activation, j) && #[trigger] touched[j] as int
                    / shape.neurons_per_block as int == b && c == shape.candidate(
                    touched[j],
                    activation[j],
                ),
    decreases upto,
{
    if upto > 0 {
        lemma_block_holds(shape, touched, ready, activation, b, upto - 1, i);
        let before = shape.block_candidates(touched, ready, activation, b, upto - 1);
        let now = shape.block_candidates(touched, ready, activation, b, upto);
        let last = shape.candidate(touched[upto - 1], activation[upto - 1]);
        if 0 <= i < upto && competes(ready, activation, i) && touched[i] as int
            / shape.neurons_per_block as int == b {
            let c = shape.candidate(touched[i], activation[i]);
            if i < upto - 1 {
                let k = choose|k: int| 0 <= k < before.len() && before[k] == c;
                assert(now[k] == c);
            } else {
                assert(now[before.len() as int] == c);
            }
        }
        assert forall|c: Candidate| #[trigger] now.contains(c) implies exists|j: int|
            0 <= j < upto && competes(ready, activation, j) && #[trigger] touched[j] as int
                / shape.neurons_per_block as int == b && c == shape.candidate(
                touched[j],
                activation[j],
            ) by {
            let k = choose|k: int| 0 <= k < now.len() && now[k] == c;
            if k < before.len() {
                assert(before[k] == c);
                assert(before.contains(c));
                let j = choose|j: int|
                    0 <= j < upto - 1 && competes(ready, activation, j) && #[trigger] touched[j] as int
                        / shape.neurons_per_block as int == b && c == shape.candidate(
                        touched[j],
                        activation[j],
                    );
                assert(touched[j] as int / shape.neurons_per_block as int == b);
            } else {
                assert(touched[upto - 1] as int / shape.neurons_per_block as int == b);
            }
        }
    }
}

/// A winner of all blocks is a winner of one of them.
proof fn lemma_winner_of_a_block(blocks: Seq<Seq<Candidate>>, limit: int, upto: int, w: Candidate)
    requires
        0 <= upto <= blocks.len(),
        0 <= limit,
    ensures
        all_winners(blocks, limit, upto).contains(w) <==> exists|b: int|
            0 <= b < upto && #[trigger] block_winners(blocks[b], limit).contains(w),
    decreases upto,
{
    if upto > 0 {
        lemma_winner_of_a_block(blocks, limit, upto - 1, w);
        let before = all_winners(blocks, limit, upto - 1);
        let last = block_winners(blocks[upto - 1], limit);
        let now = all_winners(blocks, limit, upto);
        if now.contains(w) {
            let k = choose|k: int| 0 <= k < now.len() && now[k] == w;
            if k < before.len() {
                assert(before[k] == w);
                assert(before.contains(w));
                let b = choose|b: int|
                    0 <= b < upto - 1 && #[trigger] block_winners(blocks[b], limit).contains(w);
                assert(block_winners(blocks[b], limit).contains(w));
            } else {
                assert(last[k - before.len()] == w);
                assert(block_winners(blocks[upto - 1], limit).contains(w));
            }
        }
        if exists|b: int|
            0 <= b < upto && #[trigger] block_winners(blocks[b], limit).contains(w) {
            let b = choose|b: int|
                0 <= b < upto && #[trigger] block_winners(blocks[b], limit).contains(w);
            if b < upto - 1 {
                assert(before.contains(w));
                let k = choose|k: int| 0 <= k < before.len() && before[k] == w;
                assert(now[k] == w);
            } else {
                let k = choose|k: int| 0 <= k < last.len() && last[k] == w;
                assert(now[before.len() + k] == w);
            }
        }
    }
}

/// What stands among the first of a ranked list comes before what does not.
proof fn lemma_first_come_before(list: Seq<Candidate>, limit: int, w: Candidate, c: Candidate)
    requires
        0 <= limit <= list.len(),
        ranked(list).take(limit).contains(w),
        list.contains(c),
        !ranked(list).take(limit).contains(c),
    ensures
        crate::sorting::Ranked::leq(w, c),
{
    lemma_ranked(list);
    let r = ranked(list);
    assert(r.contains(c));
    let i = choose|i: int| 0 <= i < r.take(limit).len() && r.take(limit)[i] == w;
    let j = choose|j: int| 0 <= j < r.len() && r[j] == c;
    assert(r[i] == w);
    if j < limit {
        assert(r.take(limit)[j] == c);
    }
    let order = rank_order::<Candidate>();
    assert(order(r[i], r[j]));
}

/// The strongest win: of two neurons of a block that compete, one that becomes active is at least as
/// strong as one that does not; and where they are equally strong, the one that becomes active is
/// not farther from the place of the tick.
pub proof fn law_the_strongest_win(
    shape: SelectionShape,
    touched: Seq<usize>,
    ready: Seq<bool>,
    activation: Seq<Scalar>,
    s: Selection,
    won: int,
    lost: int,
)
    requires
        shape.wf(),
        shape.decides(gathered(shape, touched, ready, activation, touched.len() as int), s),
        forall|i: int| 0 <= i < touched.len() ==> (#[trigger] touched[i]) < shape.neuron_count,
        touched.no_duplicates(),
        0 <= won < touched.len(),
        0 <= lost < touched.len(),
        competes(ready, activation, lost),
        touched[won] as int / shape.neurons_per_block as int == touched[lost] as int
            / shape.neurons_per_block as int,
        is_active(s, touched[won]),
        !is_active(s, touched[lost]),
    ensures
        activation[lost].total_rank() <= activation[won].total_rank(),
        activation[lost] == activation[won] ==> steps_from_tick(
            touched[won] as int,
            shape.tick as int,
            shape.neuron_count as int,
        ) <= steps_from_tick(
            touched[lost] as int,
            shape.tick as int,
            shape.neuron_count as int,
        ),
{
    let n = touched.len() as int;
    let blocks = gathered(shape, touched, ready, activation, n);
    let limit = shape.max_active_per_block as int;
    let local = all_winners(blocks, limit, blocks.len() as int);
    let per = shape.neurons_per_block as int;
    let b = touched[lost] as int / per;
    assert(0 <= b < shape.block_count) by {
        crate::plasticity::lemma_source(
            touched[lost] as int,
            shape.block_count as int,
            per,
        );
    }
    let c = shape.candidate(touched[lost], activation[lost]);
    lemma_block_holds(shape, touched, ready, activation, b, n, lost);
    assert(blocks[b].contains(c));
    let k = choose|k: int| 0 <= k < s.active@.len() && (#[trigger] s.active@[k]).neuron == touched[won];
    let w = s.active@[k];
    assert(s.active@.contains(w));
    lemma_ranked(local);
    assert(local.contains(w)) by {
        if shape.global_ranking_is_redundant() {
        } else if local.len() > shape.max_active_global {
            assert(ranked(local)[k] == w);
            assert(ranked(local).contains(w));
        }
    }
    lemma_winner_of_a_block(blocks, limit, blocks.len() as int, w);
    let home = choose|x: int|
        0 <= x < blocks.len() && #[trigger] block_winners(blocks[x], limit).contains(w);
    lemma_block_holds(shape, touched, ready, activation, home, n, 0);
    lemma_ranked(blocks[home]);
    assert(blocks[home].contains(w)) by {
        let i = choose|i: int|
            0 <= i < block_winners(blocks[home], limit).len() && block_winners(
                blocks[home],
                limit,
            )[i] == w;
        assert(ranked(blocks[home])[i] == w);
        assert(ranked(blocks[home]).contains(w));
    }
    let j = choose|j: int|
        0 <= j < n && competes(ready, activation, j) && #[trigger] touched[j] as int / per == home
            && w == shape.candidate(touched[j], activation[j]);
    assert(touched[j] == touched[won]);
    assert(j == won);
    assert(home == b);
    assert(!s.active@.contains(c)) by {
        if s.active@.contains(c) {
            let i = choose|i: int| 0 <= i < s.active@.len() && s.active@[i] == c;
            assert(s.active@[i].neuron == touched[lost]);
        }
    }
    lemma_ranked(blocks[b]);
    if !block_winners(blocks[b], limit).contains(c) {
        if blocks[b].len() > limit {
            lemma_first_come_before(blocks[b], limit, w, c);
        } else {
            assert(ranked(blocks[b]).contains(c));
        }
    } else {
        lemma_winner_of_a_block(blocks, limit, blocks.len() as int, c);
        assert(local.contains(c));
        if !shape.global_ranking_is_redundant() {
            if local.len() > shape.max_active_global {
                lemma_first_come_before(local, shape.max_active_global as int, w, c);
            } else {
                assert(ranked(local).contains(c));
            }
        }
    }
    assert(crate::sorting::Ranked::leq(w, c));
    lemma_steps(shape, touched[won] as int);
    lemma_steps(shape, touched[lost] as int);
}

/// The distance by which equals are told apart is that from the place of the tick.
proof fn lemma_steps(shape: SelectionShape, neuron: int)
    requires
        shape.wf(),
        0 <= neuron < shape.neuron_count,
    ensures
        tie_key(neuron, shape.rotation(), shape.neuron_count as int) == steps_from_tick(
            neuron,
            shape.tick as int,
            shape.neuron_count as int,
        ),
        0 <= tie_key(neuron, shape.rotation(), shape.neuron_count as int) < shape.neuron_count,
{
    let n = shape.neuron_count as int;
    let t = shape.tick as int;
    vstd::arithmetic::div_mod::lemma_sub_mod_noop(neuron, t, n);
    vstd::arithmetic::div_mod::lemma_sub_mod_noop(neuron, t % n, n);
    vstd::arithmetic::div_mod::lemma_mod_twice(t, n);
    vstd::arithmetic::div_mod::lemma_mod_add_multiples_vanish(neuron - t % n, n);
    assert(n + (neuron - t % n) == neuron + n - t % n);
    vstd::arithmetic::div_mod::lemma_mod_bound(neuron - t, n);
}

/// A neuron that the global limit leaves out although its block would have it is no stronger than
/// any that becomes active.
pub proof fn law_the_global_limit_keeps_the_strongest(
    shape: SelectionShape,
    blocks: Seq<Seq<Candidate>>,
    s: Selection,
    won: int,
    lost: Candidate,
)
    requires
        blocks.len() == shape.block_count,
        shape.decides(blocks, s),
        0 <= won < s.active@.len(),
        all_winners(blocks, shape.max_active_per_block as int, blocks.len() as int).contains(lost),
        !s.active@.contains(lost),
    ensures
        lost.activation.total_rank() <= s.active@[won].activation.total_rank(),
        s.active@.len() == shape.max_active_global,
{
    let local = all_winners(blocks, shape.max_active_per_block as int, blocks.len() as int);
    let w = s.active@[won];
    lemma_ranked(local);
    if !shape.global_ranking_is_redundant() {
        if local.len() > shape.max_active_global {
            let cap = shape.max_active_global as int;
            assert(ranked(local).take(cap)[won] == w);
            assert(ranked(local).take(cap).contains(w));
            lemma_first_come_before(local, cap, w, lost);
        } else {
            assert(ranked(local).contains(lost));
        }
    }
}

/// The smaller of two numbers.
pub open spec fn smaller(a: int, b: int) -> int {
    if a < b {
        a
    } else {
        b
    }
}

/// How many neurons the blocks may keep together: each as many as compete, up to its limit.
pub open spec fn room(blocks: Seq<Seq<Candidate>>, limit: int, upto: int) -> int
    decreases upto,
{
    if upto <= 0 {
        0
    } else {
        room(blocks, limit, upto - 1) + smaller(blocks[upto - 1].len() as int, limit)
    }
}

proof fn lemma_room(blocks: Seq<Seq<Candidate>>, limit: int, upto: int)
    requires
        0 <= upto <= blocks.len(),
        0 <= limit,
    ensures
        all_winners(blocks, limit, upto).len() == room(blocks, limit, upto),
    decreases upto,
{
    if upto > 0 {
        lemma_room(blocks, limit, upto - 1);
        lemma_ranked(blocks[upto - 1]);
    }
}

/// As many neurons become active as the limits leave room for, and a block that more compete in than
/// it may keep has the strength of its strongest loser as its cutoff: no loser is above it, no
/// winner below.
pub proof fn law_the_limits_are_used_up(
    shape: SelectionShape,
    blocks: Seq<Seq<Candidate>>,
    s: Selection,
    b: int,
    c: Candidate,
)
    requires
        blocks.len() == shape.block_count,
        shape.decides(blocks, s),
        0 <= b < blocks.len(),
        blocks[b].contains(c),
    ensures
        s.block_selected_neurons == room(
            blocks,
            shape.max_active_per_block as int,
            blocks.len() as int,
        ),
        shape.global_ranking_is_redundant() ==> s.active@.len() == s.block_selected_neurons,
        !shape.global_ranking_is_redundant() ==> s.active@.len() == smaller(
            s.block_selected_neurons as int,
            shape.max_active_global as int,
        ),
        blocks[b].len() > shape.max_active_per_block ==> {
            &&& block_winners(blocks[b], shape.max_active_per_block as int).contains(c)
                ==> s.block_cutoff@[b].total_rank() <= c.activation.total_rank()
            &&& !block_winners(blocks[b], shape.max_active_per_block as int).contains(c)
                ==> c.activation.total_rank() <= s.block_cutoff@[b].total_rank()
        },
{
    let limit = shape.max_active_per_block as int;
    lemma_room(blocks, limit, blocks.len() as int);
    let local = all_winners(blocks, limit, blocks.len() as int);
    lemma_ranked(local);
    lemma_ranked(blocks[b]);
    if blocks[b].len() > limit {
        let r = ranked(blocks[b]);
        assert(r.contains(c));
        let cut = r[limit];
        assert(s.block_cutoff[b] == cut.activation);
        let order = rank_order::<Candidate>();
        if block_winners(blocks[b], limit).contains(c) {
            let i = choose|i: int| 0 <= i < r.take(limit).len() && r.take(limit)[i] == c;
            assert(r[i] == c);
            assert(order(r[i], r[limit]));
        } else {
            let j = choose|j: int| 0 <= j < r.len() && r[j] == c;
            if j < limit {
                assert(r.take(limit)[j] == c);
            } else if j > limit {
                assert(order(r[limit], r[j]));
            }
        }
    }
}

} // verus!
