//! What the dynamics of a tick are for: what excites a neuron lifts it, what inhibits it holds it
//! back, and everything fades.

use crate::arithmetic::Numerics;
use crate::config::DynamicsConfig;
use crate::delay_ring::Event;
use crate::dynamics::{
    activities, activity, adaptation_sum, delivered, drive, driven, evidence, inhibition_after,
    injected, settled, settled_one, share, tired, tired_one, NeuronView,
};
use crate::learning::{decay, faded, nought, unit};
use crate::model::Model;
use crate::order::{
    alike, counts_keep_order, differences_keep_order, lemma_difference_with_zero,
    lemma_product_falls, lemma_product_with_one_and_zero, lemma_sum_with_zero, minus_or_zero,
    mirrored, orderly, plus_or_zero, powers_keep_order, products_keep_order,
    quotients_keep_order, sums_keep_order, zero,
};
use crate::runtime::all_below;
use crate::scalar::Scalar;
use vstd::prelude::*;

verus! {

/// Where both are numbers, the first is no larger.
pub open spec fn no_higher(a: Scalar, b: Scalar) -> bool {
    a.nan() || b.nan() || a.at_most(b)
}

/// Every neuron of the first state is held back at least as much as in the second: less excites it,
/// more inhibits it, and it is no less tired.
pub open spec fn held_back(v: NeuronView, w: NeuronView, neurons: int) -> bool {
    &&& v.wf(neurons)
    &&& w.wf(neurons)
    &&& v.refractory_until == w.refractory_until
    &&& forall|n: int|
        #![trigger v.membrane[n]]
        0 <= n < neurons ==> {
            &&& no_higher(v.membrane[n], w.membrane[n])
            &&& no_higher(v.branches[n * 4], w.branches[n * 4])
            &&& no_higher(v.branches[n * 4 + 1], w.branches[n * 4 + 1])
            &&& no_higher(v.branches[n * 4 + 2], w.branches[n * 4 + 2])
            &&& v.branches[n * 4 + 3] == w.branches[n * 4 + 3]
            &&& no_higher(w.fatigue[n], v.fatigue[n])
            &&& no_higher(w.fast[n], v.fast[n])
            &&& no_higher(w.medium[n], v.medium[n])
            &&& no_higher(w.slow[n], v.slow[n])
        }
}

proof fn lemma_weaker_evidence<T: Numerics>(ops: T, v: NeuronView, w: NeuronView, n: int)
    requires
        orderly(ops),
        no_higher(v.branches[n * 4], w.branches[n * 4]),
        no_higher(v.branches[n * 4 + 1], w.branches[n * 4 + 1]),
        no_higher(v.branches[n * 4 + 2], w.branches[n * 4 + 2]),
        v.branches[n * 4 + 3] == w.branches[n * 4 + 3],
    ensures
        no_higher(evidence(ops, v, n), evidence(ops, w, n)),
{
    reveal(sums_keep_order);
    reveal(products_keep_order);
    let gate = v.branches[n * 4 + 3].confined(nought(), unit());
    let p = ops.product(v.branches[n * 4 + 2], gate);
    let q = ops.product(w.branches[n * 4 + 2], gate);
    if !p.nan() && !q.nan() {
        assert(plus_or_zero(gate));
        assert(p.at_most(q));
    }
    assert(no_higher(ops.sum(v.branches[n * 4], p), ops.sum(w.branches[n * 4], q)));
}

proof fn lemma_weaker_drive<T: Numerics>(
    ops: T,
    v: NeuronView,
    w: NeuronView,
    excitability: Seq<Scalar>,
    more: Scalar,
    less: Scalar,
    n: int,
    neurons: int,
)
    requires
        orderly(ops),
        held_back(v, w, neurons),
        0 <= n < neurons,
        plus_or_zero(excitability[n]),
        no_higher(less, more),
    ensures
        no_higher(
            drive(ops, v, excitability, more, n),
            drive(ops, w, excitability, less, n),
        ),
{
    assert(no_higher(v.membrane[n], w.membrane[n]));
    lemma_weaker_evidence(ops, v, w, n);
    let a = ops.product(excitability[n], evidence(ops, v, n));
    let b = ops.product(excitability[n], evidence(ops, w, n));
    assert(no_higher(a, b)) by {
        reveal(products_keep_order);
    }
    let x = adaptation_sum(ops, v.fast[n], v.medium[n], v.slow[n]);
    let y = adaptation_sum(ops, w.fast[n], w.medium[n], w.slow[n]);
    assert(no_higher(y, x)) by {
        reveal(sums_keep_order);
        assert(no_higher(ops.sum(w.fast[n], w.medium[n]), ops.sum(v.fast[n], v.medium[n])));
    }
    reveal(differences_keep_order);
    assert(no_higher(ops.difference(a, v.fatigue[n]), ops.difference(b, w.fatigue[n])));
    assert(no_higher(
        ops.difference(ops.difference(a, v.fatigue[n]), x),
        ops.difference(ops.difference(b, w.fatigue[n]), y),
    ));
}

/// What lowers the evidence of a neuron never lifts it: where every neuron of one state gets no more
/// from its excitatory, inhibitory and temporal branches than in another, is no less tired and no
/// less adapted, and the population inhibits no less, no membrane ends up higher.
pub proof fn law_inhibition_holds_back<T: Numerics>(
    ops: T,
    v: NeuronView,
    w: NeuronView,
    excitability: Seq<Scalar>,
    more: Scalar,
    less: Scalar,
    tick: u64,
    list: Seq<usize>,
    upto: int,
    neuron: int,
    neurons: int,
)
    requires
        orderly(ops),
        held_back(v, w, neurons),
        no_higher(less, more),
        forall|n: int| 0 <= n < neurons ==> plus_or_zero(#[trigger] excitability[n]),
        all_below(list, neurons),
        0 <= upto <= list.len(),
        0 <= neuron < neurons,
    ensures
        no_higher(
            driven(ops, v, excitability, more, tick, list, upto)[neuron],
            driven(ops, w, excitability, less, tick, list, upto)[neuron],
        ),
    decreases upto,
{
    assert(no_higher(v.membrane[neuron], w.membrane[neuron]));
    if upto > 0 {
        let n = list[upto - 1] as int;
        law_inhibition_holds_back(
            ops, v, w, excitability, more, less, tick, list, upto - 1, neuron, neurons,
        );
        lemma_driven_len(ops, v, excitability, more, tick, list, upto - 1, neurons);
        lemma_driven_len(ops, w, excitability, less, tick, list, upto - 1, neurons);
        if n == neuron && !(v.refractory_until[n] > tick) {
            assert(plus_or_zero(excitability[n]));
            lemma_weaker_drive(ops, v, w, excitability, more, less, n, neurons);
            reveal(sums_keep_order);
        }
    }
}

proof fn lemma_driven_len<T: Numerics>(
    ops: T,
    v: NeuronView,
    excitability: Seq<Scalar>,
    inhibition: Scalar,
    tick: u64,
    list: Seq<usize>,
    upto: int,
    neurons: int,
)
    requires
        v.membrane.len() == neurons,
        all_below(list, neurons),
        upto <= list.len(),
    ensures
        driven(ops, v, excitability, inhibition, tick, list, upto).len() == neurons,
    decreases upto,
{
    if upto > 0 {
        lemma_driven_len(ops, v, excitability, inhibition, tick, list, upto - 1, neurons);
    }
}

/// A neuron that is driven once is driven by what it holds itself.
proof fn lemma_driven_once<T: Numerics>(
    ops: T,
    v: NeuronView,
    excitability: Seq<Scalar>,
    inhibition: Scalar,
    tick: u64,
    list: Seq<usize>,
    upto: int,
    place: int,
    neurons: int,
)
    requires
        v.wf(neurons),
        all_below(list, neurons),
        list.no_duplicates(),
        0 <= place < list.len(),
        0 <= upto <= list.len(),
    ensures
        driven(ops, v, excitability, inhibition, tick, list, upto)[list[place] as int] == if upto
            <= place || v.refractory_until[list[place] as int] > tick {
            v.membrane[list[place] as int]
        } else {
            ops.sum(
                v.membrane[list[place] as int],
                drive(ops, v, excitability, inhibition, list[place] as int),
            )
        },
    decreases upto,
{
    if upto > 0 {
        lemma_driven_once(
            ops, v, excitability, inhibition, tick, list, upto - 1, place, neurons,
        );
        lemma_driven_len(ops, v, excitability, inhibition, tick, list, upto - 1, neurons);
        assert(list[upto - 1] == list[place] ==> upto - 1 == place);
    }
}

/// What a neuron is driven by, number by number.
pub struct Forces {
    pub membrane: Scalar,
    pub excitatory: Scalar,
    pub inhibitory: Scalar,
    pub temporal: Scalar,
    pub gate: Scalar,
    pub fatigue: Scalar,
    pub fast: Scalar,
    pub medium: Scalar,
    pub slow: Scalar,
    pub inhibition: Scalar,
}

/// What a neuron is driven by.
pub open spec fn forces_on(v: NeuronView, inhibition: Scalar, n: int) -> Forces {
    Forces {
        membrane: v.membrane[n],
        excitatory: v.branches[n * 4],
        inhibitory: v.branches[n * 4 + 1],
        temporal: v.branches[n * 4 + 2],
        gate: v.branches[n * 4 + 3],
        fatigue: v.fatigue[n],
        fast: v.fast[n],
        medium: v.medium[n],
        slow: v.slow[n],
        inhibition,
    }
}

impl Forces {
    /// All are finite.
    pub open spec fn finite(self) -> bool {
        &&& self.membrane.finite()
        &&& self.excitatory.finite()
        &&& self.inhibitory.finite()
        &&& self.temporal.finite()
        &&& self.gate.finite()
        &&& self.fatigue.finite()
        &&& self.fast.finite()
        &&& self.medium.finite()
        &&& self.slow.finite()
        &&& self.inhibition.finite()
    }

    /// No signal has arrived on the branches that drive the neuron.
    pub open spec fn silent(self) -> bool {
        zero(self.excitatory) && zero(self.inhibitory) && zero(self.temporal)
    }

    /// Nothing holds the neuron back.
    pub open spec fn rested(self) -> bool {
        zero(self.fatigue) && zero(self.fast) && zero(self.medium) && zero(self.slow) && zero(
            self.inhibition,
        )
    }
}

/// Each of the things that a neuron is driven by counts in full. With excitability one and all the
/// others zero, the membrane ends up at the excitatory signal, at the inhibitory one, at the
/// temporal one where its context lets it through (and at zero where it does not), at the membrane's own
/// value, or at the opposite of the fatigue, of an adaptation or of the population's inhibition.
pub proof fn law_every_force_counts<T: Numerics>(
    ops: T,
    v: NeuronView,
    excitability: Seq<Scalar>,
    inhibition: Scalar,
    tick: u64,
    list: Seq<usize>,
    place: int,
    neurons: int,
)
    requires
        orderly(ops),
        v.wf(neurons),
        all_below(list, neurons),
        list.no_duplicates(),
        0 <= place < list.len(),
        v.refractory_until[list[place] as int] <= tick,
        excitability[list[place] as int] == unit(),
        forces_on(v, inhibition, list[place] as int).finite(),
    ensures
        ({
            let f = forces_on(v, inhibition, list[place] as int);
            let r = driven(ops, v, excitability, inhibition, tick, list, list.len() as int)[list[place] as int];
            let calm = zero(f.membrane) && f.rested();
            &&& calm && zero(f.inhibitory) && zero(f.temporal) ==> alike(r, f.excitatory)
            &&& calm && zero(f.excitatory) && zero(f.temporal) ==> alike(r, f.inhibitory)
            &&& calm && zero(f.excitatory) && zero(f.inhibitory) && unit().at_most(f.gate)
                ==> alike(r, f.temporal)
            &&& calm && zero(f.excitatory) && zero(f.inhibitory) && f.gate.at_most(nought())
                ==> zero(r)
            &&& f.rested() && f.silent() ==> alike(r, f.membrane)
            &&& f.silent() && zero(f.membrane) ==> {
                &&& zero(f.fast) && zero(f.medium) && zero(f.slow) && zero(f.inhibition)
                    ==> mirrored(r, f.fatigue)
                &&& zero(f.fatigue) && zero(f.medium) && zero(f.slow) && zero(f.inhibition)
                    ==> mirrored(r, f.fast)
                &&& zero(f.fatigue) && zero(f.fast) && zero(f.slow) && zero(f.inhibition)
                    ==> mirrored(r, f.medium)
                &&& zero(f.fatigue) && zero(f.fast) && zero(f.medium) && zero(f.inhibition)
                    ==> mirrored(r, f.slow)
                &&& zero(f.fatigue) && zero(f.fast) && zero(f.medium) && zero(f.slow)
                    ==> mirrored(r, f.inhibition)
            }
        }),
{
    let n = list[place] as int;
    lemma_driven_once(
        ops, v, excitability, inhibition, tick, list, list.len() as int, place, neurons,
    );
    let f = forces_on(v, inhibition, n);
    let gate = f.gate.confined(nought(), unit());
    let p = ops.product(f.temporal, gate);
    lemma_product_with_one_and_zero(ops, f.temporal, gate);
    lemma_product_with_one_and_zero(ops, gate, f.temporal);
    assert(zero(f.temporal) ==> zero(p));
    assert(unit().at_most(f.gate) ==> alike(p, f.temporal)) by {
        if unit().at_most(f.gate) {
            assert(gate.rank() == unit().rank());
            assert(gate == unit());
        }
    }
    assert(f.gate.at_most(nought()) ==> zero(p));
    let e = ops.sum(f.excitatory, p);
    let s = ops.sum(e, f.inhibitory);
    let q = ops.product(unit(), s);
    let d1 = ops.difference(q, f.fatigue);
    let x = adaptation_sum(ops, f.fast, f.medium, f.slow);
    let d2 = ops.difference(d1, x);
    let d3 = ops.difference(d2, f.inhibition);
    assert(drive(ops, v, excitability, inhibition, n) == d3);
    reveal(sums_keep_order);
    reveal(differences_keep_order);
    assert(!s.nan() ==> alike(q, s)) by {
        reveal(products_keep_order);
    }
    let r = ops.sum(f.membrane, d3);
    let calm = zero(f.membrane) && f.rested();
    if zero(f.fast) && zero(f.medium) {
        assert(zero(ops.sum(f.fast, f.medium)));
        assert(alike(x, f.slow));
    }
    if zero(f.fast) && zero(f.slow) {
        assert(alike(x, f.medium));
    }
    if zero(f.medium) && zero(f.slow) {
        assert(alike(x, f.fast));
    }
    if f.silent() {
        assert(zero(e) && zero(s) && zero(q));
        assert(mirrored(d1, f.fatigue));
        if zero(f.fatigue) && !x.nan() {
            assert(zero(d1) && mirrored(d2, x));
        }
    }
    if f.rested() {
        assert(zero(x));
        if !s.nan() {
            assert(alike(d1, q) && alike(d2, d1) && alike(d3, d2));
        }
    }
}

/// Excitability is a gain on evidence: a neuron that nothing else drives ends up at its excitability
/// where its excitatory signal is one, and stays where it is where its excitability is zero.
pub proof fn law_excitability_is_a_gain<T: Numerics>(
    ops: T,
    v: NeuronView,
    excitability: Seq<Scalar>,
    inhibition: Scalar,
    tick: u64,
    list: Seq<usize>,
    place: int,
    neurons: int,
)
    requires
        orderly(ops),
        v.wf(neurons),
        all_below(list, neurons),
        list.no_duplicates(),
        0 <= place < list.len(),
        v.refractory_until[list[place] as int] <= tick,
        excitability[list[place] as int].finite(),
        forces_on(v, inhibition, list[place] as int).finite(),
        forces_on(v, inhibition, list[place] as int).rested(),
        zero(forces_on(v, inhibition, list[place] as int).inhibitory),
        zero(forces_on(v, inhibition, list[place] as int).temporal),
    ensures
        ({
            let f = forces_on(v, inhibition, list[place] as int);
            let x = excitability[list[place] as int];
            let r = driven(ops, v, excitability, inhibition, tick, list, list.len() as int)[list[place] as int];
            &&& f.excitatory == unit() && zero(f.membrane) ==> alike(r, x)
            &&& zero(x) ==> alike(r, f.membrane)
        }),
{
    let n = list[place] as int;
    lemma_driven_once(
        ops, v, excitability, inhibition, tick, list, list.len() as int, place, neurons,
    );
    let f = forces_on(v, inhibition, n);
    let x = excitability[n];
    let gate = f.gate.confined(nought(), unit());
    let p = ops.product(f.temporal, gate);
    lemma_product_with_one_and_zero(ops, gate, f.temporal);
    let e = ops.sum(f.excitatory, p);
    let s = ops.sum(e, f.inhibitory);
    lemma_sum_with_zero(ops, f.excitatory, p);
    lemma_sum_with_zero(ops, e, f.inhibitory);
    assert(alike(s, f.excitatory));
    let q = ops.product(x, s);
    lemma_product_with_one_and_zero(ops, x, x);
    lemma_product_with_one_and_zero(ops, s, x);
    assert(f.excitatory == unit() ==> alike(q, x)) by {
        if f.excitatory == unit() {
            assert(s.rank() == unit().rank());
            assert(s == unit());
        }
    }
    let d1 = ops.difference(q, f.fatigue);
    let a = adaptation_sum(ops, f.fast, f.medium, f.slow);
    let d2 = ops.difference(d1, a);
    let d3 = ops.difference(d2, f.inhibition);
    assert(drive(ops, v, excitability, inhibition, n) == d3);
    lemma_sum_with_zero(ops, f.fast, f.medium);
    lemma_sum_with_zero(ops, ops.sum(f.fast, f.medium), f.slow);
    if !q.nan() {
        lemma_difference_with_zero(ops, q, f.fatigue);
        lemma_difference_with_zero(ops, d1, a);
        lemma_difference_with_zero(ops, d2, f.inhibition);
        assert(alike(d3, q));
        if zero(f.membrane) {
            lemma_sum_with_zero(ops, d3, f.membrane);
        }
        if zero(x) {
            lemma_sum_with_zero(ops, f.membrane, d3);
        }
    }
}

/// A refractory neuron keeps its membrane and is not active.
pub proof fn law_refractory_neurons_take_no_part<T: Numerics>(
    ops: T,
    v: NeuronView,
    excitability: Seq<Scalar>,
    threshold: Seq<Scalar>,
    inhibition: Scalar,
    tick: u64,
    list: Seq<usize>,
    upto: int,
    place: int,
    neurons: int,
)
    requires
        v.wf(neurons),
        all_below(list, neurons),
        0 <= upto <= list.len(),
        0 <= place < list.len(),
        v.refractory_until[list[place] as int] > tick,
    ensures
        driven(ops, v, excitability, inhibition, tick, list, upto)[list[place] as int]
            == v.membrane[list[place] as int],
        activities(ops, v.membrane, threshold, v.refractory_until, tick, list)[place] == nought(),
    decreases upto,
{
    if upto > 0 {
        law_refractory_neurons_take_no_part(
            ops, v, excitability, threshold, inhibition, tick, list, upto - 1, place, neurons,
        );
        lemma_driven_len(ops, v, excitability, inhibition, tick, list, upto - 1, neurons);
    }
}

/// The activation of a neuron lies between zero and one, grows with its membrane and falls with its
/// threshold. It is zero up to the threshold, and with a threshold of zero it is the membrane's
/// value as far as that is between zero and one.
pub proof fn law_activations_follow_membranes<T: Numerics>(
    ops: T,
    membrane: Seq<Scalar>,
    threshold: Seq<Scalar>,
    higher: Seq<Scalar>,
    lower: Seq<Scalar>,
    refractory_until: Seq<u64>,
    tick: u64,
    list: Seq<usize>,
    place: int,
)
    requires
        orderly(ops),
        0 <= place < list.len(),
        refractory_until[list[place] as int] <= tick,
        membrane[list[place] as int].finite(),
        threshold[list[place] as int].finite(),
        membrane[list[place] as int].at_most(higher[list[place] as int]),
        lower[list[place] as int].at_most(threshold[list[place] as int]),
    ensures
        ({
            let n = list[place] as int;
            let a = activities(ops, membrane, threshold, refractory_until, tick, list)[place];
            let b = activities(ops, higher, lower, refractory_until, tick, list)[place];
            &&& no_higher(a, b)
            &&& !a.nan() ==> plus_or_zero(a) && a.at_most(unit())
            &&& !a.nan() && membrane[n].at_most(threshold[n]) ==> zero(a)
            &&& zero(threshold[n]) && plus_or_zero(membrane[n]) && membrane[n].at_most(unit())
                ==> alike(a, membrane[n])
            &&& zero(threshold[n]) && unit().at_most(membrane[n]) ==> alike(a, unit())
        }),
{
    reveal(differences_keep_order);
    let n = list[place] as int;
    let x = ops.difference(membrane[n], threshold[n]);
    let y = ops.difference(higher[n], lower[n]);
    let own = ops.difference(threshold[n], threshold[n]);
    assert(zero(own));
    assert(no_higher(x, y));
    if membrane[n].at_most(threshold[n]) && !x.nan() {
        assert(x.at_most(own));
    }
}

/// The decay of a number between zero and one leaves between none and all of it.
proof fn lemma_decay<T: Numerics>(ops: T, base: Scalar, elapsed: u64)
    requires
        orderly(ops),
        plus_or_zero(base),
        base.at_most(unit()),
    ensures
        plus_or_zero(decay(ops, base, elapsed)),
        decay(ops, base, elapsed).at_most(unit()),
        elapsed > 0 && zero(base) ==> zero(decay(ops, base, elapsed)),
        alike(base, unit()) ==> alike(decay(ops, base, elapsed), unit()),
{
    reveal(powers_keep_order);
}

/// What has faded keeps its sign and is no larger than it was; without time gone by it is the same.
/// A decay of one keeps everything, a decay of zero nothing.
pub proof fn law_everything_fades<T: Numerics>(ops: T, value: Scalar, base: Scalar, elapsed: u64)
    requires
        orderly(ops),
        value.finite(),
        plus_or_zero(base),
        base.at_most(unit()),
    ensures
        elapsed == 0 ==> faded(ops, value, base, elapsed) == value,
        plus_or_zero(value) ==> plus_or_zero(faded(ops, value, base, elapsed)) && faded(
            ops,
            value,
            base,
            elapsed,
        ).at_most(value),
        minus_or_zero(value) ==> minus_or_zero(faded(ops, value, base, elapsed)) && value.at_most(
            faded(ops, value, base, elapsed),
        ),
        alike(base, unit()) ==> alike(faded(ops, value, base, elapsed), value),
        elapsed > 0 && zero(base) ==> zero(faded(ops, value, base, elapsed)),
{
    lemma_decay(ops, base, elapsed);
    let d = decay(ops, base, elapsed);
    if elapsed > 0 {
        lemma_scaled_down(ops, value, d);
    }
}

/// A number times one between zero and one.
proof fn lemma_scaled_down<T: Numerics>(ops: T, value: Scalar, d: Scalar)
    requires
        orderly(ops),
        value.finite(),
        plus_or_zero(d),
        d.at_most(unit()),
    ensures
        !ops.product(value, d).nan(),
        plus_or_zero(value) ==> plus_or_zero(ops.product(value, d)) && ops.product(
            value,
            d,
        ).at_most(value),
        minus_or_zero(value) ==> minus_or_zero(ops.product(value, d)) && value.at_most(
            ops.product(value, d),
        ),
        alike(d, unit()) ==> alike(ops.product(value, d), value),
        zero(d) ==> zero(ops.product(value, d)),
{
    reveal(products_keep_order);
    let p = ops.product(value, d);
    let whole = ops.product(value, unit());
    let none = ops.product(value, nought());
    assert(alike(whole, value));
    assert(zero(none));
    if alike(d, unit()) {
        assert(d == unit());
    }
    if minus_or_zero(value) {
        lemma_product_falls(ops, value, d, unit());
    }
}

/// The decays of the dynamics lie between zero and one.
pub open spec fn decays_soundly(d: DynamicsConfig) -> bool {
    &&& within_one(d.branch_decay)
    &&& within_one(d.membrane_decay)
    &&& within_one(d.fatigue_decay)
    &&& within_one(d.adaptation_fast_decay)
    &&& within_one(d.adaptation_medium_decay)
    &&& within_one(d.adaptation_slow_decay)
}

/// A number between zero and one.
pub open spec fn within_one(a: Scalar) -> bool {
    plus_or_zero(a) && a.at_most(unit())
}

/// What is left of a number is no larger than it was and has its sign; all of it is left where the
/// decay is one or no time has gone by, and none where it is zero.
pub open spec fn left_of(before: Scalar, after: Scalar, base: Scalar, gone: bool) -> bool {
    &&& plus_or_zero(before) ==> plus_or_zero(after) && after.at_most(before)
    &&& minus_or_zero(before) ==> minus_or_zero(after) && before.at_most(after)
    &&& !gone || alike(base, unit()) ==> alike(after, before)
    &&& gone && zero(base) ==> zero(after)
}

proof fn lemma_left<T: Numerics>(ops: T, value: Scalar, base: Scalar, elapsed: u64)
    requires
        orderly(ops),
        value.finite(),
        within_one(base),
    ensures
        left_of(value, faded(ops, value, base, elapsed), base, elapsed > 0),
{
    law_everything_fades(ops, value, base, elapsed);
}

/// Time wears everything that a neuron holds down, each thing by its own decay: when a neuron is
/// brought to a later tick its branches, membrane, fatigue and adaptations are no larger than
/// before. What the decay of one of them says has no bearing on the others, and bringing the neuron
/// to the same tick again changes nothing.
pub proof fn law_neurons_settle<T: Numerics>(
    ops: T,
    d: DynamicsConfig,
    tick: u64,
    v: NeuronView,
    n: int,
    branch: int,
    neurons: int,
)
    requires
        orderly(ops),
        decays_soundly(d),
        v.wf(neurons),
        0 <= n < neurons,
        0 <= branch < 4,
        v.branches[n * 4 + branch].finite(),
        v.membrane[n].finite(),
        v.fatigue[n].finite(),
        v.fast[n].finite(),
        v.medium[n].finite(),
        v.slow[n].finite(),
    ensures
        ({
            let w = settled_one(ops, d, tick, v, n);
            let gone = tick > v.neuron_last_tick[n];
            &&& left_of(
                v.branches[n * 4 + branch],
                w.branches[n * 4 + branch],
                d.branch_decay,
                tick > v.branch_last_tick[n],
            )
            &&& left_of(v.membrane[n], w.membrane[n], d.membrane_decay, gone)
            &&& left_of(v.fatigue[n], w.fatigue[n], d.fatigue_decay, gone)
            &&& left_of(v.fast[n], w.fast[n], d.adaptation_fast_decay, gone)
            &&& left_of(v.medium[n], w.medium[n], d.adaptation_medium_decay, gone)
            &&& left_of(v.slow[n], w.slow[n], d.adaptation_slow_decay, gone)
            &&& w.activation == v.activation
            &&& w.refractory_until == v.refractory_until
            &&& settled_one(ops, d, tick, w, n) == w
            &&& w.neuron_last_tick[n] >= tick
        }),
{
    let since = crate::dynamics::elapsed_since(tick, v.branch_last_tick[n]);
    let age = crate::dynamics::elapsed_since(tick, v.neuron_last_tick[n]);
    lemma_left(ops, v.branches[n * 4 + branch], d.branch_decay, since);
    lemma_left(ops, v.membrane[n], d.membrane_decay, age);
    lemma_left(ops, v.fatigue[n], d.fatigue_decay, age);
    lemma_left(ops, v.fast[n], d.adaptation_fast_decay, age);
    lemma_left(ops, v.medium[n], d.adaptation_medium_decay, age);
    lemma_left(ops, v.slow[n], d.adaptation_slow_decay, age);
    let w = settled_one(ops, d, tick, v, n);
    assert(w.branches.len() == v.branches.len());
    assert(settled_one(ops, d, tick, w, n) =~= w);
}

/// Bringing neurons to a tick leaves the others as they are.
pub proof fn law_settling_leaves_others<T: Numerics>(
    ops: T,
    d: DynamicsConfig,
    tick: u64,
    v: NeuronView,
    list: Seq<usize>,
    upto: int,
    n: int,
    branch: int,
    neurons: int,
)
    requires
        v.wf(neurons),
        all_below(list, neurons),
        0 <= upto <= list.len(),
        0 <= n < neurons,
        0 <= branch < 4,
        forall|i: int| 0 <= i < upto ==> (#[trigger] list[i]) != n,
    ensures
        ({
            let w = settled(ops, d, tick, v, list, upto);
            &&& w.wf(neurons)
            &&& w.branches[n * 4 + branch] == v.branches[n * 4 + branch]
            &&& w.membrane[n] == v.membrane[n]
            &&& w.fatigue[n] == v.fatigue[n]
            &&& w.fast[n] == v.fast[n]
            &&& w.medium[n] == v.medium[n]
            &&& w.slow[n] == v.slow[n]
            &&& w.neuron_last_tick[n] == v.neuron_last_tick[n]
            &&& w.branch_last_tick[n] == v.branch_last_tick[n]
        }),
    decreases upto,
{
    if upto > 0 {
        law_settling_leaves_others(
            ops, d, tick, v, list, upto - 1, n, branch, neurons,
        );
        assert(list[upto - 1] != n);
    }
}

/// The events for a place of the branches, among the first `upto`.
pub open spec fn arrives_at(events: Seq<Event>, place: int, upto: int) -> bool {
    exists|i: int| 0 <= i < upto && #[trigger] event_place(events[i]) == place
}

/// The place of the branches that an event goes to.
pub open spec fn event_place(e: Event) -> int {
    e.target_neuron as int * 4 + e.target_branch as int
}

/// Signals arrive where they are sent, in full: a branch that no event is for stays as it is; a
/// branch at zero that one event is for takes on its value; and where every event carries no more,
/// no branch ends up higher.
pub proof fn law_signals_arrive<T: Numerics>(
    ops: T,
    branches: Seq<Scalar>,
    neurons: int,
    events: Seq<Event>,
    upto: int,
    k: int,
    neuron: int,
    branch: int,
)
    requires
        orderly(ops),
        branches.len() == neurons * 4,
        0 <= upto <= events.len(),
        0 <= neuron < neurons,
        0 <= branch < 4,
        forall|i: int|
            0 <= i < upto && i != k ==> #[trigger] event_place(events[i]) != neuron * 4 + branch,
        forall|i: int| 0 <= i < upto ==> (#[trigger] events[i]).target_branch < 4,
        0 <= k < upto ==> event_place(events[k]) == neuron * 4 + branch && !events[k].value.nan(),
    ensures
        delivered(ops, branches, neurons, events, upto).len() == branches.len(),
        !(0 <= k < upto) ==> delivered(ops, branches, neurons, events, upto)[neuron * 4 + branch]
            == branches[neuron * 4 + branch],
        0 <= k < upto && zero(branches[neuron * 4 + branch]) ==> alike(
            delivered(ops, branches, neurons, events, upto)[neuron * 4 + branch],
            events[k].value,
        ),
        0 <= k < upto && zero(events[k].value) && !branches[neuron * 4 + branch].nan() ==> alike(
            delivered(ops, branches, neurons, events, upto)[neuron * 4 + branch],
            branches[neuron * 4 + branch],
        ),
    decreases upto,
{
    if upto > 0 {
        law_signals_arrive(ops, branches, neurons, events, upto - 1, k, neuron, branch);
        let before = delivered(ops, branches, neurons, events, upto - 1);
        let e = events[upto - 1];
        let at = neuron * 4 + branch;
        if upto - 1 == k {
            assert(event_place(e) == at);
            assert(e.target_neuron == neuron && e.target_branch == branch);
            if zero(branches[at]) {
                lemma_sum_with_zero(ops, e.value, before[at]);
            }
            if zero(e.value) && !branches[at].nan() {
                lemma_sum_with_zero(ops, before[at], e.value);
            }
        } else {
            assert(event_place(e) != at);
        }
    }
}

/// A stronger signal never leaves a branch lower.
pub proof fn law_stronger_signals_arrive_stronger<T: Numerics>(
    ops: T,
    weak: Seq<Scalar>,
    strong: Seq<Scalar>,
    neurons: int,
    less: Seq<Event>,
    more: Seq<Event>,
    upto: int,
    place: int,
)
    requires
        orderly(ops),
        weak.len() == neurons * 4,
        strong.len() == neurons * 4,
        0 <= upto <= less.len(),
        less.len() == more.len(),
        0 <= place < neurons * 4,
        no_higher(weak[place], strong[place]),
        forall|i: int|
            0 <= i < upto ==> (#[trigger] less[i]).target_neuron == more[i].target_neuron
                && less[i].target_branch == more[i].target_branch && no_higher(
                less[i].value,
                more[i].value,
            ),
    ensures
        delivered(ops, weak, neurons, less, upto).len() == weak.len(),
        delivered(ops, strong, neurons, more, upto).len() == strong.len(),
        no_higher(
            delivered(ops, weak, neurons, less, upto)[place],
            delivered(ops, strong, neurons, more, upto)[place],
        ),
    decreases upto,
{
    if upto > 0 {
        law_stronger_signals_arrive_stronger(
            ops, weak, strong, neurons, less, more, upto - 1, place,
        );
        assert(less[upto - 1].target_neuron == more[upto - 1].target_neuron);
        reveal(sums_keep_order);
    }
}

/// A symbol feeds its own synapses: a branch at zero that one of them ends on takes on its weight,
/// and a branch that none ends on stays as it is.
pub proof fn law_symbols_feed_their_synapses<T: Numerics>(
    ops: T,
    branches: Seq<Scalar>,
    m: Model,
    first: int,
    upto: int,
    k: int,
    neuron: int,
    branch: int,
)
    requires
        orderly(ops),
        branches.len() == m.config.model.neuron_count * 4,
        0 <= first,
        0 <= upto,
        first + upto <= m.input.targets.len(),
        0 <= neuron < m.config.model.neuron_count,
        0 <= branch < 4,
        forall|i: int|
            0 <= i < upto && i != k ==> #[trigger] input_place(m, first + i) != neuron * 4 + branch,
        forall|i: int|
            0 <= i < upto ==> (#[trigger] m.input.branches[first + i]) < 4,
        0 <= k < upto ==> input_place(m, first + k) == neuron * 4 + branch && !m.input.weights[first
            + k].nan(),
    ensures
        injected(ops, branches, m, first, upto).len() == branches.len(),
        !(0 <= k < upto) ==> injected(ops, branches, m, first, upto)[neuron * 4 + branch]
            == branches[neuron * 4 + branch],
        0 <= k < upto && zero(branches[neuron * 4 + branch]) ==> alike(
            injected(ops, branches, m, first, upto)[neuron * 4 + branch],
            m.input.weights[first + k],
        ),
        0 <= k < upto && zero(m.input.weights[first + k]) && !branches[neuron * 4 + branch].nan()
            ==> alike(
            injected(ops, branches, m, first, upto)[neuron * 4 + branch],
            branches[neuron * 4 + branch],
        ),
    decreases upto,
{
    if upto > 0 {
        law_symbols_feed_their_synapses(
            ops, branches, m, first, upto - 1, k, neuron, branch,
        );
        let before = injected(ops, branches, m, first, upto - 1);
        let slot = first + (upto - 1);
        let at = neuron * 4 + branch;
        assert(m.input.branches[slot] < 4);
        if upto - 1 == k {
            if zero(branches[at]) {
                lemma_sum_with_zero(ops, m.input.weights[slot], before[at]);
            }
            if zero(m.input.weights[slot]) && !branches[at].nan() {
                lemma_sum_with_zero(ops, before[at], m.input.weights[slot]);
            }
        } else {
            assert(input_place(m, slot) != at);
        }
    }
}

/// The place of the branches that an input synapse ends on.
pub open spec fn input_place(m: Model, slot: int) -> int {
    m.input.targets[slot] as int * 4 + m.input.branches[slot] as int
}

/// The inhibition of the population holds its activity at the target: it stays between zero and its
/// maximum, does not fall where at least as many neurons are active as should be, does not rise
/// where at most as many are, and is no lower the more are active.
pub proof fn law_population_inhibition_follows_activity<T: Numerics>(
    ops: T,
    d: DynamicsConfig,
    inhibition: Scalar,
    few: u64,
    many: u64,
    neurons: u64,
)
    requires
        orderly(ops),
        few <= many <= neurons,
        0 < neurons,
        d.target_activity.finite(),
        within_one(d.target_activity),
        plus_or_zero(d.population_inhibition_rate),
        d.population_inhibition_rate.finite(),
        d.population_inhibition_max.finite(),
        plus_or_zero(inhibition),
        inhibition.at_most(d.population_inhibition_max),
    ensures
        ({
            let low = inhibition_after(ops, d, inhibition, few as int, neurons as int);
            let high = inhibition_after(ops, d, inhibition, many as int, neurons as int);
            let crowd = share(ops, few as int, neurons as int);
            &&& no_higher(low, high)
            &&& !low.nan() ==> plus_or_zero(low) && low.at_most(d.population_inhibition_max)
            &&& d.target_activity.at_most(crowd) ==> no_higher(inhibition, low)
            &&& crowd.at_most(d.target_activity) ==> no_higher(low, inhibition)
            &&& few == neurons ==> alike(crowd, unit())
            &&& few == 0 ==> zero(crowd)
        }),
{
    reveal(counts_keep_order);
    reveal(quotients_keep_order);
    let all = ops.number(neurons);
    assert(ops.number(1).at_most(all));
    assert(ops.number(0).at_most(ops.number(few)) && ops.number(few).at_most(ops.number(many))
        && ops.number(many).at_most(all));
    let a = share(ops, few as int, neurons as int);
    let b = share(ops, many as int, neurons as int);
    assert(!a.nan() && !b.nan() && a.at_most(b));
    let x = ops.difference(a, d.target_activity);
    let y = ops.difference(b, d.target_activity);
    reveal(differences_keep_order);
    assert(zero(ops.difference(d.target_activity, d.target_activity)));
    assert(no_higher(x, y));
    reveal(products_keep_order);
    let p = ops.product(d.population_inhibition_rate, x);
    let q = ops.product(d.population_inhibition_rate, y);
    assert(no_higher(p, q));
    reveal(sums_keep_order);
    let s = ops.sum(inhibition, p);
    assert(no_higher(s, ops.sum(inhibition, q)));
    assert(alike(ops.sum(inhibition, nought()), inhibition));
    if d.target_activity.at_most(a) && !p.nan() {
        assert(plus_or_zero(x));
        assert(plus_or_zero(p));
        assert(no_higher(ops.sum(inhibition, nought()), s));
    }
    if a.at_most(d.target_activity) && !p.nan() {
        assert(minus_or_zero(x));
        assert(minus_or_zero(p));
        assert(no_higher(s, ops.sum(inhibition, nought())));
    }
}

/// A neuron that was active tires and adapts in proportion: its fatigue and its adaptations do not
/// fall, those that were zero take on the value of their gain where the activation is one and of the
/// activation where the gain is one, and its membrane does not rise; with a membrane of zero, it
/// falls below by its threshold where all of that is taken away.
pub proof fn law_active_neurons_tire<T: Numerics>(
    ops: T,
    d: DynamicsConfig,
    threshold: Seq<Scalar>,
    v: NeuronView,
    n: int,
    neurons: int,
)
    requires
        orderly(ops),
        v.wf(neurons),
        0 <= n < neurons,
        within_one(v.activation[n]),
        plus_or_zero(d.fatigue_gain) && d.fatigue_gain.finite(),
        plus_or_zero(d.adaptation_fast_gain) && d.adaptation_fast_gain.finite(),
        plus_or_zero(d.adaptation_medium_gain) && d.adaptation_medium_gain.finite(),
        plus_or_zero(d.adaptation_slow_gain) && d.adaptation_slow_gain.finite(),
        within_one(d.membrane_reset_fraction),
        plus_or_zero(threshold[n]) && threshold[n].finite(),
        v.membrane[n].finite(),
        v.fatigue[n].finite() && v.fast[n].finite() && v.medium[n].finite() && v.slow[n].finite(),
    ensures
        ({
            let w = tired_one(ops, d, threshold, v, n);
            let a = v.activation[n];
            &&& raised_by(v.fatigue[n], w.fatigue[n], d.fatigue_gain, a)
            &&& raised_by(v.fast[n], w.fast[n], d.adaptation_fast_gain, a)
            &&& raised_by(v.medium[n], w.medium[n], d.adaptation_medium_gain, a)
            &&& raised_by(v.slow[n], w.slow[n], d.adaptation_slow_gain, a)
            &&& w.membrane[n].at_most(v.membrane[n])
            &&& zero(d.membrane_reset_fraction) ==> alike(w.membrane[n], v.membrane[n])
            &&& alike(d.membrane_reset_fraction, unit()) && zero(v.membrane[n]) ==> mirrored(
                w.membrane[n],
                threshold[n],
            )
            &&& w.activation == v.activation
            &&& w.branches == v.branches
        }),
{
    let a = v.activation[n];
    lemma_raised(ops, v.fatigue[n], d.fatigue_gain, a);
    lemma_raised(ops, v.fast[n], d.adaptation_fast_gain, a);
    lemma_raised(ops, v.medium[n], d.adaptation_medium_gain, a);
    lemma_raised(ops, v.slow[n], d.adaptation_slow_gain, a);
    let spent = ops.product(threshold[n], d.membrane_reset_fraction);
    lemma_scaled_down(ops, threshold[n], d.membrane_reset_fraction);
    assert(spent.finite());
    lemma_difference_with_zero(ops, v.membrane[n], nought());
    reveal(differences_keep_order);
    assert(!ops.difference(v.membrane[n], spent).nan());
}

/// A number was raised by a gain times an amount: it did not fall; where it was zero it has the value
/// of the amount if the gain is one, and of the gain if the amount is one; it is the same where
/// either is zero.
pub open spec fn raised_by(before: Scalar, after: Scalar, gain: Scalar, amount: Scalar) -> bool {
    &&& before.at_most(after)
    &&& zero(before) && gain == unit() ==> alike(after, amount)
    &&& zero(before) && amount == unit() ==> alike(after, gain)
    &&& zero(gain) || zero(amount) ==> alike(after, before)
}

proof fn lemma_raised<T: Numerics>(ops: T, before: Scalar, gain: Scalar, amount: Scalar)
    requires
        orderly(ops),
        before.finite(),
        plus_or_zero(gain),
        gain.finite(),
        within_one(amount),
    ensures
        raised_by(before, ops.sum(before, ops.product(gain, amount)), gain, amount),
{
    let p = ops.product(gain, amount);
    lemma_scaled_down(ops, gain, amount);
    lemma_product_with_one_and_zero(ops, amount, gain);
    lemma_product_with_one_and_zero(ops, gain, amount);
    assert(p.finite());
    lemma_sum_with_zero(ops, before, nought());
    reveal(sums_keep_order);
    assert(!ops.sum(before, p).nan());
    assert(ops.sum(before, nought()).at_most(ops.sum(before, p)));
}

/// Only active neurons tire.
pub proof fn law_silent_neurons_do_not_tire<T: Numerics>(
    ops: T,
    d: DynamicsConfig,
    threshold: Seq<Scalar>,
    v: NeuronView,
    list: Seq<usize>,
    upto: int,
    n: int,
    neurons: int,
)
    requires
        v.wf(neurons),
        all_below(list, neurons),
        0 <= upto <= list.len(),
        0 <= n < neurons,
        forall|i: int| 0 <= i < upto ==> (#[trigger] list[i]) != n,
    ensures
        ({
            let w = tired(ops, d, threshold, v, list, upto);
            &&& w.wf(neurons)
            &&& w.fatigue[n] == v.fatigue[n]
            &&& w.fast[n] == v.fast[n]
            &&& w.medium[n] == v.medium[n]
            &&& w.slow[n] == v.slow[n]
            &&& w.membrane[n] == v.membrane[n]
        }),
    decreases upto,
{
    if upto > 0 {
        law_silent_neurons_do_not_tire(ops, d, threshold, v, list, upto - 1, n, neurons);
        assert(list[upto - 1] != n);
    }
}

} // verus!
