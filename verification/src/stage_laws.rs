//! What the stages of a step are for, taken as a whole.

use crate::arithmetic::Numerics;
use crate::dynamics::{delivered, settled, tired, NeuronView};
use crate::dynamics_laws::{
    decays_soundly, event_place, forces_on, held_back, input_place, law_every_force_counts,
    law_everything_fades, law_inhibition_holds_back, law_signals_arrive,
    law_symbols_feed_their_synapses, no_higher,
};
use crate::learning::unit;
use crate::order::{alike, mirrored, orderly, plus_or_zero, zero};
use crate::prediction::{heard, normalized};
use crate::prediction_laws::{law_active_neurons_are_heard, law_contexts_add_to_logits};
use crate::runtime::{all_below, silenced, OpenedStep, Runtime};
use crate::scalar::Scalar;
use crate::selection::Selection;
use crate::stages::{competed, predicted, received, rested, step_logits};
use vstd::prelude::*;

verus! {

/// A branch at zero stays there when its neuron is brought to a tick.
proof fn lemma_settled_zero<T: Numerics>(
    ops: T,
    d: crate::config::DynamicsConfig,
    tick: u64,
    v: NeuronView,
    list: Seq<usize>,
    upto: int,
    place: int,
    neurons: int,
)
    requires
        orderly(ops),
        decays_soundly(d),
        v.wf(neurons),
        all_below(list, neurons),
        0 <= upto <= list.len(),
        0 <= place < neurons * 4,
        zero(v.branches[place]),
    ensures
        settled(ops, d, tick, v, list, upto).wf(neurons),
        zero(settled(ops, d, tick, v, list, upto).branches[place]),
    decreases upto,
{
    if upto > 0 {
        lemma_settled_zero(ops, d, tick, v, list, upto - 1, place, neurons);
        let w = settled(ops, d, tick, v, list, upto - 1);
        let n = list[upto - 1] as int;
        let since = crate::dynamics::elapsed_since(tick, w.branch_last_tick[n]);
        law_everything_fades(ops, w.branches[place], d.branch_decay, since);
    }
}

/// A tick brings each neuron what is sent to it: a branch at zero holds, after the signals were taken
/// in, the value of the event that arrives for it, or the weight of the symbol's synapse that ends
/// on it, where there is one such thing; and still nothing where there is none.
pub proof fn law_signals_are_received<T: Numerics>(
    ops: T,
    b: Runtime,
    step: OpenedStep,
    last: Seq<usize>,
    a: Runtime,
    neuron: int,
    branch: int,
    event: int,
    synapse: int,
)
    requires
        orderly(ops),
        received(ops, b, step, last, a),
        decays_soundly(b.model.config.dynamics),
        b.state@.wf(b.size()),
        b.size() == b.model.config.model.neuron_count,
        all_below(b.touched.list@, b.size()),
        0 <= neuron < b.size(),
        0 <= branch < 4,
        zero(b.state@.branches[neuron * 4 + branch]),
        step.first_input + b.model.input.fanout <= b.model.input.targets.len(),
        forall|i: int| 0 <= i < step.due@.len() ==> (#[trigger] step.due@[i]).target_branch < 4,
        forall|i: int|
            0 <= i < b.model.input.fanout ==> (
            #[trigger] b.model.input.branches[step.first_input + i]) < 4,
        forall|i: int|
            0 <= i < step.due@.len() && i != event ==> #[trigger] event_place(step.due@[i])
                != neuron * 4 + branch,
        forall|i: int|
            0 <= i < b.model.input.fanout && i != synapse ==> #[trigger] input_place(
                b.model,
                step.first_input + i,
            ) != neuron * 4 + branch,
        0 <= event < step.due@.len() ==> event_place(step.due@[event]) == neuron * 4 + branch
            && step.due@[event].value.finite(),
        0 <= synapse < b.model.input.fanout ==> input_place(b.model, step.first_input + synapse)
            == neuron * 4 + branch && b.model.input.weights[step.first_input + synapse].finite(),
    ensures
        ({
            let held = a.state@.branches[neuron * 4 + branch];
            let arrives = 0 <= event < step.due@.len();
            let feeds = 0 <= synapse < b.model.input.fanout;
            &&& !arrives && !feeds ==> zero(held)
            &&& arrives && !feeds ==> alike(held, step.due@[event].value)
            &&& !arrives && feeds ==> alike(
                held,
                b.model.input.weights[step.first_input + synapse],
            )
        }),
{
    reveal(received);
    let d = b.model.config.dynamics;
    let list = b.touched.list@;
    let v = settled(ops, d, b.current_tick, b.state@, list, list.len() as int);
    let place = neuron * 4 + branch;
    lemma_settled_zero(
        ops,
        d,
        b.current_tick,
        b.state@,
        list,
        list.len() as int,
        place,
        b.size(),
    );
    let arrived = delivered(ops, v.branches, b.size(), step.due@, step.due@.len() as int);
    law_signals_arrive(
        ops,
        v.branches,
        b.size(),
        step.due@,
        step.due@.len() as int,
        event,
        neuron,
        branch,
    );
    law_symbols_feed_their_synapses(
        ops,
        arrived,
        b.model,
        step.first_input as int,
        b.model.input.fanout as int,
        synapse,
        neuron,
        branch,
    );
}

/// A competition drives its neurons by everything that they hold: what is true of the forces on one
/// neuron is true of the membrane that it has after the competition.
pub proof fn law_competitions_drive_their_neurons<T: Numerics>(
    ops: T,
    b: Runtime,
    s: Selection,
    a: Runtime,
    place: int,
)
    requires
        orderly(ops),
        competed(ops, b, s, a),
        b.state@.wf(b.size()),
        all_below(b.touched.list@, b.size()),
        b.touched.list@.no_duplicates(),
        0 <= place < b.touched.list@.len(),
        b.state@.refractory_until[b.touched.list@[place] as int] <= b.current_tick,
        b.model.neurons.excitability@[b.touched.list@[place] as int] == unit(),
        forces_on(
            b.state@,
            b.numbers.population_inhibition,
            b.touched.list@[place] as int,
        ).finite(),
    ensures
        ({
            let n = b.touched.list@[place] as int;
            let f = forces_on(b.state@, b.numbers.population_inhibition, n);
            let r = a.state@.membrane[n];
            let calm = zero(f.membrane) && f.rested();
            &&& calm && zero(f.inhibitory) && zero(f.temporal) ==> alike(r, f.excitatory)
            &&& calm && zero(f.excitatory) && zero(f.temporal) ==> alike(r, f.inhibitory)
            &&& calm && zero(f.excitatory) && zero(f.inhibitory) && unit().at_most(f.gate)
                ==> alike(r, f.temporal)
            &&& f.rested() && f.silent() ==> alike(r, f.membrane)
            &&& f.silent() && zero(f.membrane) && zero(f.fast) && zero(f.medium) && zero(f.slow)
                && zero(f.inhibition) ==> mirrored(r, f.fatigue)
            &&& f.silent() && zero(f.membrane) && zero(f.fatigue) && zero(f.fast) && zero(f.medium)
                && zero(f.slow) ==> mirrored(r, f.inhibition)
        }),
{
    reveal(competed);
    law_every_force_counts(
        ops,
        b.state@,
        b.model.neurons.excitability@,
        b.numbers.population_inhibition,
        b.current_tick,
        b.touched.list@,
        place,
        b.size(),
    );
}

/// Of two competitions over the same neurons, the one whose neurons are held back at least as much
/// leaves no membrane higher.
pub proof fn law_competitions_hold_back<T: Numerics>(
    ops: T,
    b: Runtime,
    s: Selection,
    a: Runtime,
    c: Runtime,
    t: Selection,
    d: Runtime,
    neuron: int,
)
    requires
        orderly(ops),
        competed(ops, b, s, a),
        competed(ops, c, t, d),
        held_back(b.state@, c.state@, b.size()),
        no_higher(c.numbers.population_inhibition, b.numbers.population_inhibition),
        b.current_tick == c.current_tick,
        b.touched.list@ == c.touched.list@,
        b.model.neurons.excitability@ == c.model.neurons.excitability@,
        forall|n: int|
            0 <= n < b.size() ==> plus_or_zero(#[trigger] b.model.neurons.excitability@[n]),
        all_below(b.touched.list@, b.size()),
        0 <= neuron < b.size(),
    ensures
        no_higher(a.state@.membrane[neuron], d.state@.membrane[neuron]),
{
    reveal(competed);
    law_inhibition_holds_back(
        ops,
        b.state@,
        c.state@,
        b.model.neurons.excitability@,
        b.numbers.population_inhibition,
        c.numbers.population_inhibition,
        b.current_tick,
        b.touched.list@,
        b.touched.list@.len() as int,
        neuron,
        b.size(),
    );
}

/// A neuron that was active rests: it takes part in none of the ticks that it has to stay silent
/// for, and in the first after them; the times of other neurons are left alone.
pub proof fn law_active_neurons_rest<T: Numerics>(
    ops: T,
    b: Runtime,
    a: Runtime,
    neuron: int,
    later: u64,
)
    requires
        rested(ops, b, a),
        b.state@.refractory_until.len() == b.size(),
        all_below(b.active@, b.size()),
        0 <= neuron < b.size(),
        b.current_tick + b.model.config.dynamics.refractory_ticks + 1 <= u64::MAX,
    ensures
        b.active@.contains(neuron as usize) && b.current_tick < later <= b.current_tick
            + b.model.config.dynamics.refractory_ticks ==> a.state@.refractory_until[neuron]
            > later,
        b.active@.contains(neuron as usize) && later > b.current_tick
            + b.model.config.dynamics.refractory_ticks ==> a.state@.refractory_until[neuron]
            <= later,
        !b.active@.contains(neuron as usize) ==> a.state@.refractory_until[neuron]
            == b.state@.refractory_until[neuron],
{
    reveal(rested);
    let d = b.model.config.dynamics;
    let n = b.active@.len() as int;
    let v = tired(ops, d, b.model.neurons.threshold@, b.state@, b.active@, n);
    lemma_tired_times(ops, d, b.model.neurons.threshold@, b.state@, b.active@, n);
    lemma_silenced(
        v.refractory_until,
        b.active@,
        crate::runtime::silent_until(b.current_tick, d.refractory_ticks),
        n,
        neuron as usize,
        b.size(),
    );
    assert(b.active@.take(n) =~= b.active@);
    assert(b.size() <= usize::MAX);
}

proof fn lemma_tired_times<T: Numerics>(
    ops: T,
    d: crate::config::DynamicsConfig,
    threshold: Seq<Scalar>,
    v: NeuronView,
    list: Seq<usize>,
    upto: int,
)
    ensures
        tired(ops, d, threshold, v, list, upto).refractory_until == v.refractory_until,
    decreases upto,
{
    if upto > 0 {
        lemma_tired_times(ops, d, threshold, v, list, upto - 1);
    }
}

proof fn lemma_silenced(
    base: Seq<u64>,
    active: Seq<usize>,
    until: u64,
    upto: int,
    neuron: usize,
    neurons: int,
)
    requires
        base.len() == neurons,
        all_below(active, neurons),
        0 <= upto <= active.len(),
        neuron < neurons,
    ensures
        silenced(base, active, until, upto).len() == neurons,
        active.take(upto).contains(neuron) ==> silenced(base, active, until, upto)[neuron as int]
            == until,
        !active.take(upto).contains(neuron) ==> silenced(base, active, until, upto)[neuron as int]
            == base[neuron as int],
    decreases upto,
{
    if upto > 0 {
        lemma_silenced(base, active, until, upto - 1, neuron, neurons);
        let now = active.take(upto);
        let earlier = active.take(upto - 1);
        assert(now =~= earlier.push(active[upto - 1]));
        if active[upto - 1] == neuron {
            assert(now[upto - 1] == neuron);
        } else {
            if now.contains(neuron) {
                let i = choose|i: int| 0 <= i < now.len() && now[i] == neuron;
                assert(earlier[i] == neuron);
            }
            if earlier.contains(neuron) {
                let i = choose|i: int| 0 <= i < earlier.len() && earlier[i] == neuron;
                assert(now[i] == neuron);
            }
        }
    }
}

/// A prediction is made from what the active neurons say and what the contexts add: the
/// probabilities are those of logits in which a class that no active neuron speaks for has its bias,
/// or, where the bias is zero and the contexts speak for it by one dimension of their latent, what
/// the latent holds there.
pub proof fn law_predictions_hear_neurons_and_contexts<T: Numerics>(
    ops: T,
    b: Runtime,
    target: Option<usize>,
    neural_loss: Option<Scalar>,
    a: Runtime,
    class: int,
    k: int,
)
    requires
        orderly(ops),
        predicted(ops, b, target, neural_loss, a),
        0 <= class < b.model.output.bias@.len(),
        b.model.output.bias@[class].finite(),
        forall|i: int|
            0 <= i < b.active@.len() ==> b.state.activation@[(#[trigger] b.active@[i]) as int].finite(),
        forall|i: int|
            0 <= i < b.active@.len() ==> zero(
                b.output_weights_by_neuron@[(#[trigger] b.active@[i]) as int
                    * b.model.output.bias@.len() + class],
            ),
        forall|i: int|
            0 <= i < a.numbers.latent@.len() ==> (#[trigger] a.numbers.latent@[i]).finite(),
        forall|i: int|
            0 <= i < a.numbers.latent@.len() && i != k ==> zero(
                #[trigger] b.model.context.output_weights@[class * a.numbers.latent@.len() + i],
            ),
        0 <= k < a.numbers.latent@.len() ==> b.model.context.output_weights@[class
            * a.numbers.latent@.len() + k] == unit(),
    ensures
        exists|logits: Seq<Scalar>|
            {
                &&& a.numbers.probabilities@ == #[trigger] normalized(ops, logits)
                &&& logits.len() == b.model.output.bias@.len()
                &&& b.context_slots@.len() == 0 || !(0 <= k < a.numbers.latent@.len()) ==> alike(
                    logits[class],
                    b.model.output.bias@[class],
                )
                &&& b.context_slots@.len() > 0 && 0 <= k < a.numbers.latent@.len() && zero(
                    b.model.output.bias@[class],
                ) ==> alike(logits[class], a.numbers.latent@[k])
            },
{
    reveal(predicted);
    let bias = b.model.output.bias@;
    let n = b.active@.len() as int;
    let neural = heard(
        ops,
        bias,
        b.output_weights_by_neuron@,
        b.state.activation@,
        b.active@,
        n,
    );
    assert forall|i: int| 0 <= i < n && i != -1 implies zero(
        #[trigger] b.output_weights_by_neuron@[b.active@[i] as int * bias.len() + class],
    ) by {
        let at = b.active@[i];
    }
    law_active_neurons_are_heard(
        ops,
        bias,
        b.output_weights_by_neuron@,
        b.state.activation@,
        b.active@,
        n,
        class,
        -1,
    );
    crate::prediction_laws::lemma_heard_len(
        ops,
        bias,
        b.output_weights_by_neuron@,
        b.state.activation@,
        b.active@,
        n,
    );
    let logits = step_logits(ops, b);
    if b.context_slots@.len() > 0 {
        law_contexts_add_to_logits(
            ops,
            neural,
            b.model.context.output_weights@,
            a.numbers.latent@,
            class,
            k,
        );
    }
    assert(a.numbers.probabilities@ == normalized(ops, logits));
}

} // verus!
