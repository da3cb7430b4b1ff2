//! The stages of a step: taking signals in, competing, following, resting and predicting.

use crate::arithmetic::Numerics;
use crate::dynamics::{
    activities, carried, deliver, delivered, drive_membranes, driven, inhibition_after, inject,
    injected, list_activities, settle, settled, tire, tired, update_population_inhibition,
    NeuronView,
};
use crate::learning::{analog_rank_surrogate, nought, surrogate_slope};
use crate::model::{lemma_row_fits, Model};
use crate::plasticity::{quiet, quieted};
use crate::prediction::{
    add_context, blank, blank_list, context_latent, context_scales, context_scales_of, heard,
    logit_loss, loss_from_logits, neural_logits, normalize_probabilities, normalized, recalled,
    with_context,
};
use crate::runtime::{
    activated, all_below, chosen, emitted, lemma_place, neurons_of, ready_at, silenced,
    silent_until, Numbers, OpenedStep, Runtime, WorkerState,
};
use crate::scalar::Scalar;
use crate::selection::{gathered, Selection};
use crate::traces::{
    event_traces, input_traces_after, tick_view, trace_events, trace_inputs, walk_eligible, walked,
};
use vstd::prelude::*;

verus! {

/// What the signals of a tick do: the touched neurons are brought to the tick, what arrives is
/// added to their branches, and a learning runtime traces where it came from. The contexts of the
/// step get their weights.
#[verifier::opaque]
pub open spec fn received<T: Numerics>(
    ops: T,
    b: Runtime,
    step: OpenedStep,
    last_touched: Seq<usize>,
    a: Runtime,
) -> bool {
    let d = b.model.config.dynamics;
    let tick = b.current_tick;
    let v = settled(ops, d, tick, b.state@, b.touched.list@, b.touched.list@.len() as int);
    let arrived = delivered(ops, v.branches, b.size(), step.due@, step.due@.len() as int);
    &&& a.state@ == (NeuronView {
        branches: injected(
            ops,
            arrived,
            b.model,
            step.first_input as int,
            b.model.input.fanout as int,
        ),
        ..v
    })
    &&& a.recurrent_traces@ == if b.learning_trace_enabled {
        event_traces(ops, d, tick, b.recurrent_traces@, step.due@, step.due@.len() as int)
    } else {
        b.recurrent_traces@
    }
    &&& a.recurrent_traces.eligible == b.recurrent_traces.eligible
    &&& a.input_traces@ == if b.learning_trace_enabled {
        input_traces_after(
            ops,
            d,
            tick,
            b.input_traces@,
            step.first_input as int,
            b.model.input.fanout as int,
        )
    } else {
        b.input_traces@
    }
    &&& a.input_traces.eligible == b.input_traces.eligible
    &&& a.numbers.surrogate@ == quieted(
        b.numbers.surrogate@,
        last_touched,
        last_touched.len() as int,
    )
    &&& a.numbers.context_scales@ == context_scales_of(ops, b.model, b.context_slots@)
    &&& a.numbers.latent@ == blank(b.model.config.context.embedding_dim as int)
    &&& a == (Runtime {
        state: a.state,
        recurrent_traces: a.recurrent_traces,
        input_traces: a.input_traces,
        numbers: Numbers {
            surrogate: a.numbers.surrogate,
            context_scales: a.numbers.context_scales,
            latent: a.numbers.latent,
            ..b.numbers
        },
        ..b
    })
}

/// The slopes after the first `upto` touched neurons got theirs: a neuron that takes part follows
/// its membrane, the more the nearer it is to the cutoff.
pub open spec fn slopes<T: Numerics>(
    ops: T,
    m: Model,
    v: NeuronView,
    tick: u64,
    selected: Seq<bool>,
    block_cutoff: Seq<Scalar>,
    population_cutoff: Scalar,
    surrogate: Seq<Scalar>,
    list: Seq<usize>,
    upto: int,
) -> Seq<Scalar>
    decreases upto,
{
    if upto <= 0 {
        surrogate
    } else {
        let neuron = list[upto - 1] as int;
        let block = neuron / m.config.model.neurons_per_block as int;
        slopes(
            ops,
            m,
            v,
            tick,
            selected,
            block_cutoff,
            population_cutoff,
            surrogate,
            list,
            upto - 1,
        ).update(
            neuron,
            if v.refractory_until[neuron] > tick {
                nought()
            } else {
                surrogate_slope(
                    ops,
                    ops.difference(v.membrane[neuron], m.neurons.threshold[neuron]),
                    block_cutoff[block].greater(population_cutoff),
                    selected[neuron],
                    m.config.learning.surrogate_width,
                    m.config.learning.surrogate_gain,
                )
            },
        )
    }
}

/// The cutoff of the population: how far above its threshold the strongest neuron was that the
/// global cap removed.
pub open spec fn population_cutoff_of<T: Numerics>(
    ops: T,
    m: Model,
    membrane: Seq<Scalar>,
    cutoff_neuron: Option<usize>,
) -> Scalar {
    match cutoff_neuron {
        Some(neuron) => ops.difference(
            membrane[neuron as int],
            m.neurons.threshold[neuron as int],
        ).confined(nought(), m.config.dynamics.population_inhibition_max),
        None => nought(),
    }
}

/// What the competition of a tick does: the touched neurons are driven, the strongest become
/// active, the inhibition of the population follows, and the slopes are kept.
#[verifier::opaque]
pub open spec fn competed<T: Numerics>(ops: T, b: Runtime, s: Selection, a: Runtime) -> bool {
    let m = b.model;
    let list = b.touched.list@;
    let tick = b.current_tick;
    let membrane = driven(
        ops,
        b.state@,
        m.neurons.excitability@,
        b.numbers.population_inhibition,
        tick,
        list,
        list.len() as int,
    );
    let acts = activities(
        ops,
        membrane,
        m.neurons.threshold@,
        b.state.refractory_until@,
        tick,
        list,
    );
    &&& b.shape().decides(
        gathered(
            b.shape(),
            list,
            ready_at(list, b.state.refractory_until@, tick),
            acts,
            list.len() as int,
        ),
        s,
    )
    &&& a.active@ == neurons_of(s.active@)
    &&& a.selected@ == chosen(b.selected@, s.active@, s.active@.len() as int)
    &&& a.state@ == (NeuronView {
        membrane,
        activation: activated(b.state.activation@, s.active@, s.active@.len() as int),
        ..b.state@
    })
    &&& a.numbers.population_inhibition == inhibition_after(
        ops,
        m.config.dynamics,
        b.numbers.population_inhibition,
        s.active@.len() as int,
        b.size(),
    )
    &&& a.numbers.surrogate@ == slopes(
        ops,
        m,
        a.state@,
        tick,
        a.selected@,
        s.block_cutoff@,
        population_cutoff_of(ops, m, membrane, s.cutoff_neuron),
        b.numbers.surrogate@,
        list,
        list.len() as int,
    )
    &&& a == (Runtime {
        active: a.active,
        selected: a.selected,
        state: a.state,
        numbers: Numbers {
            population_inhibition: a.numbers.population_inhibition,
            surrogate: a.numbers.surrogate,
            ..b.numbers
        },
        ..b
    })
}

fn keep_slopes<T: Numerics>(
    ops: &T,
    m: &Model,
    state: &WorkerState,
    tick: u64,
    selected: &Vec<bool>,
    block_cutoff: &Vec<Scalar>,
    population_cutoff: Scalar,
    surrogate: &mut Vec<Scalar>,
    list: &Vec<usize>,
    neurons: usize,
)
    requires
        ops.ready(),
        state.wf(neurons as int),
        m.neurons.threshold.len() == neurons,
        selected.len() == neurons,
        old(surrogate).len() == neurons,
        0 < m.config.model.neurons_per_block,
        block_cutoff.len() * m.config.model.neurons_per_block == neurons,
        all_below(list@, neurons as int),
    ensures
        final(surrogate).len() == old(surrogate).len(),
        final(surrogate)@ == slopes(
            *ops,
            *m,
            state@,
            tick,
            selected@,
            block_cutoff@,
            population_cutoff,
            old(surrogate)@,
            list@,
            list@.len() as int,
        ),
{
    let per_block: usize = m.config.model.neurons_per_block;
    let width: Scalar = m.config.learning.surrogate_width;
    let gain: Scalar = m.config.learning.surrogate_gain;
    let mut i: usize = 0;
    while i < list.len()
        invariant
            i <= list.len(),
            ops.ready(),
            state.wf(neurons as int),
            m.neurons.threshold.len() == neurons,
            selected.len() == neurons,
            surrogate.len() == neurons,
            surrogate.len() == old(surrogate).len(),
            per_block == m.config.model.neurons_per_block,
            width == m.config.learning.surrogate_width,
            gain == m.config.learning.surrogate_gain,
            0 < per_block,
            block_cutoff.len() * per_block == neurons,
            all_below(list@, neurons as int),
            surrogate@ == slopes(
                *ops,
                *m,
                state@,
                tick,
                selected@,
                block_cutoff@,
                population_cutoff,
                old(surrogate)@,
                list@,
                i as int,
            ),
        decreases list.len() - i,
    {
        let neuron: usize = list[i];
        proof {
            crate::plasticity::lemma_source(
                neuron as int,
                block_cutoff.len() as int,
                per_block as int,
            );
        }
        let value: Scalar = if state.refractory_until[neuron] > tick {
            Scalar::zero()
        } else {
            let margin: Scalar = ops.minus(state.membrane[neuron], m.neurons.threshold[neuron]);
            let cutoff: Scalar = block_cutoff[neuron / per_block].max_of(population_cutoff);
            analog_rank_surrogate(ops, margin, cutoff, selected[neuron], width, gain)
        };
        surrogate.set(neuron, value);
        i = i + 1;
    }
}

/// What no stage up to the prediction changes.
pub open spec fn same_surroundings(b: Runtime, a: Runtime) -> bool {
    &&& a.model == b.model
    &&& a.alphabet == b.alphabet
    &&& a.tracker == b.tracker
    &&& a.output_cache_dirty == b.output_cache_dirty
    &&& a.context_slots == b.context_slots
    &&& a.learning_trace_enabled == b.learning_trace_enabled
}

impl Runtime {
    /// Takes the signals of a tick in.
    pub fn receive<T: Numerics>(&mut self, ops: &T, step: &OpenedStep, last_touched: &Vec<usize>)
        requires
            ops.ready(),
            old(self).wf(),
            old(self).takes(*step),
            all_below(last_touched@, old(self).size()),
        ensures
            final(self).wf(),
            received(*ops, *old(self), *step, last_touched@, *final(self)),
            same_surroundings(*old(self), *final(self)),
            final(self).numbers.context_scales.len() == final(self).context_slots.len(),
    {
        reveal(received);
        let neurons: usize = self.model.config.model.neuron_count;
        let tick: u64 = self.current_tick;
        settle(
            ops,
            &self.model.config.dynamics,
            tick,
            &mut self.state,
            &self.touched.list,
            neurons,
        );
        deliver(ops, &mut self.state.branches, neurons, &step.due);
        inject(ops, &mut self.state.branches, &self.model, step.first_input);
        if self.learning_trace_enabled {
            trace_events(
                ops,
                &self.model.config.dynamics,
                tick,
                &mut self.recurrent_traces,
                &step.due,
                self.model.recurrent.weight.len(),
            );
            trace_inputs(
                ops,
                &self.model.config.dynamics,
                tick,
                &mut self.input_traces,
                step.first_input,
                self.model.input.fanout,
                self.model.input.weights.len(),
            );
        }
        quiet(&mut self.numbers.surrogate, last_touched);
        self.numbers.context_scales = context_scales(ops, &self.model, &self.context_slots);
        self.numbers.latent = blank_list(self.model.config.context.embedding_dim);
    }

    /// Holds the competition of a tick.
    pub fn compete<T: Numerics>(&mut self, ops: &T) -> (s: Selection)
        requires
            ops.ready(),
            old(self).wf(),
        ensures
            final(self).wf(),
            competed(*ops, *old(self), s, *final(self)),
            same_surroundings(*old(self), *final(self)),
            final(self).numbers.context_scales == old(self).numbers.context_scales,
    {
        reveal(competed);
        let neurons: usize = self.model.config.model.neuron_count;
        let tick: u64 = self.current_tick;
        drive_membranes(
            ops,
            &mut self.state,
            &self.model.neurons.excitability,
            self.numbers.population_inhibition,
            tick,
            &self.touched.list,
            neurons,
        );
        let activation: Vec<Scalar> = list_activities(
            ops,
            &self.state,
            &self.model.neurons.threshold,
            tick,
            &self.touched.list,
        );
        let s: Selection = self.select_active_neurons(&activation);
        let population_cutoff: Scalar = match s.cutoff_neuron {
            Some(neuron) => {
                ops.minus(self.state.membrane[neuron], self.model.neurons.threshold[neuron]).clamp_to(
                    Scalar::zero(),
                    self.model.config.dynamics.population_inhibition_max,
                )
            },
            None => Scalar::zero(),
        };
        self.numbers.population_inhibition = update_population_inhibition(
            ops,
            &self.model.config.dynamics,
            self.numbers.population_inhibition,
            self.active.len(),
            neurons,
        );
        keep_slopes(
            ops,
            &self.model,
            &self.state,
            tick,
            &self.selected,
            &s.block_cutoff,
            population_cutoff,
            &mut self.numbers.surrogate,
            &self.touched.list,
            neurons,
        );
        s
    }
}

/// What following does: every eligible trace follows its neuron, and those that have died away
/// leave the lists.
#[verifier::opaque]
pub open spec fn followed_all<T: Numerics>(ops: T, b: Runtime, a: Runtime) -> bool {
    let m = b.model;
    let v = tick_view(
        b.current_tick,
        b.touched,
        b.selected@,
        b.state,
        m.neurons.excitability@,
        b.numbers.surrogate@,
    );
    &&& (a.recurrent_traces@, a.recurrent_traces.eligible.list@) == walked(
        ops,
        m.config,
        v,
        m.recurrent.target_neuron@,
        m.recurrent.target_branch@,
        b.recurrent_traces@,
        b.recurrent_traces.eligible.list@,
        0,
    )
    &&& (a.input_traces@, a.input_traces.eligible.list@) == walked(
        ops,
        m.config,
        v,
        m.input.targets@,
        m.input.branches@,
        b.input_traces@,
        b.input_traces.eligible.list@,
        0,
    )
    &&& a == (Runtime {
        recurrent_traces: a.recurrent_traces,
        input_traces: a.input_traces,
        ..b
    })
}

/// What resting does: the active neurons tire and fall silent for a while.
#[verifier::opaque]
pub open spec fn rested<T: Numerics>(ops: T, b: Runtime, a: Runtime) -> bool {
    let d = b.model.config.dynamics;
    let v = tired(
        ops,
        d,
        b.model.neurons.threshold@,
        b.state@,
        b.active@,
        b.active@.len() as int,
    );
    &&& a.state@ == (NeuronView {
        refractory_until: silenced(
            v.refractory_until,
            b.active@,
            silent_until(b.current_tick, d.refractory_ticks),
            b.active@.len() as int,
        ),
        ..v
    })
    &&& a == (Runtime { state: a.state, ..b })
}

/// What emitting does: every synapse of an active neuron sends the activation times its weight.
#[verifier::opaque]
pub open spec fn sent<T: Numerics>(ops: T, b: Runtime, count: usize, a: Runtime) -> bool {
    let values = carried(ops, b.model, b.state.activation@, b.active@);
    &&& count == b.active@.len() * b.model.recurrent.capacity_per_neuron
    &&& a.ring@ == emitted(b.ring@, b, values, values.len() as int)
    &&& a == (Runtime { ring: a.ring, ..b })
}

/// The logits of a step: what the active neurons say, and what the active contexts add.
pub open spec fn step_logits<T: Numerics>(ops: T, r: Runtime) -> Seq<Scalar> {
    let neural = heard(
        ops,
        r.model.output.bias@,
        r.output_weights_by_neuron@,
        r.state.activation@,
        r.active@,
        r.active@.len() as int,
    );
    if r.context_slots@.len() == 0 {
        neural
    } else {
        with_context(ops, neural, r.model.context.output_weights@, step_latent(ops, r))
    }
}

/// What the active contexts say together.
pub open spec fn step_latent<T: Numerics>(ops: T, r: Runtime) -> Seq<Scalar> {
    recalled(
        ops,
        r.model.config.context.embedding_dim as int,
        r.model.context.embeddings@,
        r.context_slots@,
        r.numbers.context_scales@,
        r.context_slots@.len() as int,
    )
}

/// What predicting does. `neural_loss` is the loss of the target if the neurons alone had
/// predicted.
#[verifier::opaque]
pub open spec fn predicted<T: Numerics>(
    ops: T,
    b: Runtime,
    target: Option<usize>,
    neural_loss: Option<Scalar>,
    a: Runtime,
) -> bool {
    let neural = heard(
        ops,
        b.model.output.bias@,
        b.output_weights_by_neuron@,
        b.state.activation@,
        b.active@,
        b.active@.len() as int,
    );
    &&& neural_loss == (match target {
        Some(class) => Some(logit_loss(ops, neural, class as int)),
        None => None,
    })
    &&& a.numbers.latent@ == step_latent(ops, b)
    &&& a.numbers.probabilities@ == normalized(ops, step_logits(ops, b))
    &&& a == (Runtime {
        numbers: Numbers {
            latent: a.numbers.latent,
            probabilities: a.numbers.probabilities,
            ..b.numbers
        },
        ..b
    })
}

fn carried_values<T: Numerics>(
    ops: &T,
    m: &Model,
    activation: &Vec<Scalar>,
    active: &Vec<usize>,
    neurons: usize,
) -> (r: Vec<Scalar>)
    requires
        ops.ready(),
        activation.len() == neurons,
        0 < m.recurrent.capacity_per_neuron,
        m.recurrent.weight.len() == neurons * m.recurrent.capacity_per_neuron,
        all_below(active@, neurons as int),
    ensures
        r@ == carried(*ops, *m, activation@, active@),
        r.len() == active.len() * m.recurrent.capacity_per_neuron,
{
    let capacity: usize = m.recurrent.capacity_per_neuron;
    let ghost whole = carried(*ops, *m, activation@, active@);
    let mut r: Vec<Scalar> = Vec::new();
    let mut i: usize = 0;
    assert(0 * capacity == 0) by (nonlinear_arith);
    while i < active.len()
        invariant
            i <= active.len(),
            ops.ready(),
            capacity == m.recurrent.capacity_per_neuron,
            0 < capacity,
            activation.len() == neurons,
            m.recurrent.weight.len() == neurons * capacity,
            all_below(active@, neurons as int),
            whole == carried(*ops, *m, activation@, active@),
            r.len() == i * capacity,
            forall|j: int| 0 <= j < r.len() ==> #[trigger] r@[j] == whole[j],
        decreases active.len() - i,
    {
        let source: usize = active[i];
        let a: Scalar = activation[source];
        proof {
            lemma_row_fits(source as int, neurons as int, capacity as int);
        }
        let first: usize = source * capacity;
        let mut k: usize = 0;
        while k < capacity
            invariant
                k <= capacity,
                i < active.len(),
                ops.ready(),
                capacity == m.recurrent.capacity_per_neuron,
                0 < capacity,
                source == active@[i as int],
                a == activation@[source as int],
                first == source * capacity,
                first + capacity <= m.recurrent.weight.len(),
                whole == carried(*ops, *m, activation@, active@),
                r.len() == i * capacity + k,
                forall|j: int| 0 <= j < r.len() ==> #[trigger] r@[j] == whole[j],
            decreases capacity - k,
        {
            let value: Scalar = ops.times(a, m.recurrent.weight[first + k]);
            proof {
                lemma_place(i as int, k as int, active.len() as int, capacity as int);
                assert(whole[i * capacity + k] == value);
            }
            r.push(value);
            k = k + 1;
        }
        assert((i + 1) * capacity == i * capacity + capacity) by (nonlinear_arith);
        i = i + 1;
    }
    assert(r@ =~= whole);
    r
}

impl Runtime {
    /// Lets the eligible traces follow their neurons.
    pub fn follow_neurons<T: Numerics>(&mut self, ops: &T)
        requires
            ops.ready(),
            old(self).wf(),
        ensures
            final(self).wf(),
            followed_all(*ops, *old(self), *final(self)),
            same_surroundings(*old(self), *final(self)),
            final(self).numbers.context_scales == old(self).numbers.context_scales,
    {
        reveal(followed_all);
        let neurons: usize = self.model.config.model.neuron_count;
        walk_eligible(
            ops,
            &self.model.config,
            self.current_tick,
            &self.touched,
            &self.selected,
            &self.state,
            &self.model.neurons.excitability,
            &self.numbers.surrogate,
            &self.model.recurrent.target_neuron,
            &self.model.recurrent.target_branch,
            &mut self.recurrent_traces,
            neurons,
        );
        walk_eligible(
            ops,
            &self.model.config,
            self.current_tick,
            &self.touched,
            &self.selected,
            &self.state,
            &self.model.neurons.excitability,
            &self.numbers.surrogate,
            &self.model.input.targets,
            &self.model.input.branches,
            &mut self.input_traces,
            neurons,
        );
    }

    /// Tires the active neurons and silences them for a while.
    pub fn rest<T: Numerics>(&mut self, ops: &T)
        requires
            ops.ready(),
            old(self).wf(),
        ensures
            final(self).wf(),
            rested(*ops, *old(self), *final(self)),
            same_surroundings(*old(self), *final(self)),
            final(self).numbers.context_scales == old(self).numbers.context_scales,
    {
        reveal(rested);
        let neurons: usize = self.model.config.model.neuron_count;
        tire(
            ops,
            &self.model.config.dynamics,
            &self.model.neurons.threshold,
            &mut self.state,
            &self.active,
            neurons,
        );
        self.silence_active_neurons();
    }

    /// Sends what the active neurons have to say.
    pub fn send<T: Numerics>(&mut self, ops: &T) -> (count: usize)
        requires
            ops.ready(),
            old(self).wf(),
            old(self).model.recurrent.weight.len() <= u32::MAX,
        ensures
            final(self).wf(),
            sent(*ops, *old(self), count, *final(self)),
            same_surroundings(*old(self), *final(self)),
            final(self).numbers.context_scales == old(self).numbers.context_scales,
    {
        reveal(sent);
        let values: Vec<Scalar> = carried_values(
            ops,
            &self.model,
            &self.state.activation,
            &self.active,
            self.model.config.model.neuron_count,
        );
        self.emit_recurrent_events(&values)
    }

    /// Predicts the next symbol.
    pub fn predict<T: Numerics>(&mut self, ops: &T, target: Option<usize>) -> (neural_loss: Option<
        Scalar,
    >)
        requires
            ops.ready(),
            old(self).wf(),
            !old(self).output_cache_dirty,
            old(self).numbers.context_scales.len() == old(self).context_slots.len(),
            target matches Some(class) ==> class < old(self).alphabet.output_classes,
        ensures
            final(self).wf(),
            predicted(*ops, *old(self), target, neural_loss, *final(self)),
            same_surroundings(*old(self), *final(self)),
            final(self).numbers.context_scales == old(self).numbers.context_scales,
    {
        reveal(predicted);
        let mut logits: Vec<Scalar> = neural_logits(
            ops,
            &self.model.output.bias,
            &self.output_weights_by_neuron,
            &self.state.activation,
            &self.active,
        );
        let neural_loss: Option<Scalar> = match target {
            Some(class) => Some(loss_from_logits(ops, &logits, class)),
            None => None,
        };
        let dim: usize = self.model.config.context.embedding_dim;
        self.numbers.latent = context_latent(
            ops,
            dim,
            &self.model.context.embeddings,
            &self.context_slots,
            &self.numbers.context_scales,
            self.model.context.keys.len(),
        );
        if self.context_slots.len() > 0 {
            add_context(
                ops,
                &mut logits,
                &self.model.context.output_weights,
                &self.numbers.latent,
            );
        }
        self.numbers.probabilities = normalize_probabilities(ops, &logits);
        neural_loss
    }
}

} // verus!
