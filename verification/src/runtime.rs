//! The state of a runtime between and during steps.
//!
//! A step is taken in phases. The runtime keeps the clock, the delay ring, the lists of
//! touched, active and eligible indices, the context history, the record of changed parameters
//! and the numbers that pass through a step (drives, activations, probabilities, errors).

use crate::arithmetic::Numerics;
use crate::context::{
    as_ints, capped, context_key, context_survives_dropout, lemma_probe_count, remember, remembered,
    resolve_in_table, survives_dropout, table_of,
};
use crate::delay_ring::{scheduled, DelayRing, Event};
use crate::error::{fails, LeoError, LeoErrorKind, LeoResult};
use crate::marks::{accumulated, MarkList};
use crate::metrics::{TrainingStatistics, WideScalar};
use crate::model::{Model, BRANCH_CONTEXT_GATE};
use crate::permission::Permission;
use crate::scalar::Scalar;
use crate::selection::{gathered, law_selection_is_bounded, Selection, SelectionShape};
use crate::symbols::Alphabet;
use crate::text::{decimal, with_number};
use vstd::prelude::*;

verus! {

/// The parameters that learning has changed.
#[derive(Debug, Clone)]
pub struct ParameterChanges {
    pub threshold: Vec<usize>,
    pub recurrent_weight: Vec<usize>,
    pub input_weight: Vec<usize>,
    pub output_neurons: Vec<usize>,
    pub context_slots: Vec<usize>,
    pub output_bias_dirty: bool,
    pub context_output_dirty: bool,
}

impl ParameterChanges {
    /// Nothing has changed.
    pub open spec fn nothing(self) -> bool {
        &&& self.threshold@.len() == 0
        &&& self.recurrent_weight@.len() == 0
        &&& self.input_weight@.len() == 0
        &&& self.output_neurons@.len() == 0
        &&& self.context_slots@.len() == 0
        &&& !self.output_bias_dirty
        &&& !self.context_output_dirty
    }
}

impl Default for ParameterChanges {
    fn default() -> (r: Self)
        ensures
            r.nothing(),
    {
        ParameterChanges {
            threshold: Vec::new(),
            recurrent_weight: Vec::new(),
            input_weight: Vec::new(),
            output_neurons: Vec::new(),
            context_slots: Vec::new(),
            output_bias_dirty: false,
            context_output_dirty: false,
        }
    }
}

/// The record of changed parameters.
#[derive(Debug, Clone)]
pub struct ChangeTracker {
    pub enabled: bool,
    pub threshold: MarkList,
    pub recurrent_weight: MarkList,
    pub input_weight: MarkList,
    pub output_neurons: MarkList,
    pub context_slots: MarkList,
    pub output_bias_dirty: bool,
    pub context_output_dirty: bool,
}

/// A copy of a list.
pub fn copy_list(list: &Vec<usize>) -> (r: Vec<usize>)
    ensures
        r@ == list@,
{
    let mut out: Vec<usize> = Vec::new();
    let mut i: usize = 0;
    while i < list.len()
        invariant
            i <= list.len(),
            out@ == list@.take(i as int),
        decreases list.len() - i,
    {
        out.push(list[i]);
        assert(list@.take(i + 1) =~= list@.take(i as int).push(list@[i as int]));
        i = i + 1;
    }
    assert(list@.take(list.len() as int) =~= list@);
    out
}

/// Notes a change where changes are tracked.
pub fn note(enabled: bool, list: &mut MarkList, index: usize)
    requires
        old(list).wf(),
        enabled ==> index < old(list).capacity(),
    ensures
        final(list).wf(),
        final(list).capacity() == old(list).capacity(),
        enabled ==> (final(list).list@, final(list).mark@) == crate::marks::marked_once(
            old(list).list@,
            old(list).mark@,
            index,
        ),
        !enabled ==> *final(list) == *old(list),
{
    if enabled {
        list.add(index);
    }
}

impl ChangeTracker {
    /// Lists and marks agree; while tracking they cover the model.
    pub open spec fn wf(self, m: Model) -> bool {
        &&& self.threshold.wf()
        &&& self.recurrent_weight.wf()
        &&& self.input_weight.wf()
        &&& self.output_neurons.wf()
        &&& self.context_slots.wf()
        &&& self.enabled ==> {
            &&& self.threshold.capacity() == m.config.model.neuron_count
            &&& self.recurrent_weight.capacity() == m.recurrent.weight.len()
            &&& self.input_weight.capacity() == m.input.weights.len()
            &&& self.output_neurons.capacity() == m.config.model.neuron_count
            &&& self.context_slots.capacity() == m.context.keys.len()
        }
    }

    /// Nothing is on any list.
    pub open spec fn lists_empty(self) -> bool {
        &&& self.threshold.list@.len() == 0
        &&& self.recurrent_weight.list@.len() == 0
        &&& self.input_weight.list@.len() == 0
        &&& self.output_neurons.list@.len() == 0
        &&& self.context_slots.list@.len() == 0
    }

    /// The tracker after it was switched on: nothing is on its lists yet, and what was dirty stays
    /// so.
    pub open spec fn started(self, after: ChangeTracker) -> bool {
        &&& after.lists_empty()
        &&& after.output_bias_dirty == self.output_bias_dirty
        &&& after.context_output_dirty == self.context_output_dirty
    }

    /// A tracker that is switched off: it has noted nothing, and keeps no marks.
    pub fn disabled() -> (r: Self)
        ensures
            !r.enabled,
            forall|m: Model| r.wf(m),
            r.lists_empty(),
            r.threshold.capacity() == 0,
            r.recurrent_weight.capacity() == 0,
            r.input_weight.capacity() == 0,
            r.output_neurons.capacity() == 0,
            r.context_slots.capacity() == 0,
            !r.output_bias_dirty,
            !r.context_output_dirty,
    {
        ChangeTracker {
            enabled: false,
            threshold: MarkList::new(0),
            recurrent_weight: MarkList::new(0),
            input_weight: MarkList::new(0),
            output_neurons: MarkList::new(0),
            context_slots: MarkList::new(0),
            output_bias_dirty: false,
            context_output_dirty: false,
        }
    }

    /// Starts tracking the parameters of a model; what is tracked already stays.
    pub fn enable(&mut self, m: &Model)
        requires
            old(self).wf(*m),
        ensures
            final(self).wf(*m),
            final(self).enabled,
            old(self).enabled ==> *final(self) == *old(self),
            !old(self).enabled ==> old(self).started(*final(self)),
    {
        if self.enabled {
            return;
        }
        self.enabled = true;
        self.threshold = MarkList::new(m.config.model.neuron_count);
        self.recurrent_weight = MarkList::new(m.recurrent.weight.len());
        self.input_weight = MarkList::new(m.input.weights.len());
        self.output_neurons = MarkList::new(m.config.model.neuron_count);
        self.context_slots = MarkList::new(m.context.keys.len());
    }

    /// What has changed so far.
    pub fn changes(&self) -> (r: ParameterChanges)
        ensures
            r.threshold@ == self.threshold.list@,
            r.recurrent_weight@ == self.recurrent_weight.list@,
            r.input_weight@ == self.input_weight.list@,
            r.output_neurons@ == self.output_neurons.list@,
            r.context_slots@ == self.context_slots.list@,
            r.output_bias_dirty == self.output_bias_dirty,
            r.context_output_dirty == self.context_output_dirty,
    {
        ParameterChanges {
            threshold: copy_list(&self.threshold.list),
            recurrent_weight: copy_list(&self.recurrent_weight.list),
            input_weight: copy_list(&self.input_weight.list),
            output_neurons: copy_list(&self.output_neurons.list),
            context_slots: copy_list(&self.context_slots.list),
            output_bias_dirty: self.output_bias_dirty,
            context_output_dirty: self.context_output_dirty,
        }
    }
}

/// Every number is zero.
pub open spec fn all_zero(s: Seq<Scalar>) -> bool {
    forall|i: int| 0 <= i < s.len() ==> #[trigger] s[i] == (Scalar { bits: 0 })
}

/// Every entry is `tick`.
pub open spec fn all_ticks(s: Seq<u64>, tick: u64) -> bool {
    forall|i: int| 0 <= i < s.len() ==> #[trigger] s[i] == tick
}

fn zeros(n: usize) -> (r: Vec<Scalar>)
    ensures
        r.len() == n,
        all_zero(r@),
{
    let mut out: Vec<Scalar> = Vec::new();
    while out.len() < n
        invariant
            out.len() <= n,
            all_zero(out@),
        decreases n - out.len(),
    {
        out.push(Scalar { bits: 0 });
    }
    out
}

fn ticks(n: usize, tick: u64) -> (r: Vec<u64>)
    ensures
        r.len() == n,
        all_ticks(r@, tick),
{
    let mut out: Vec<u64> = Vec::new();
    while out.len() < n
        invariant
            out.len() <= n,
            all_ticks(out@, tick),
        decreases n - out.len(),
    {
        out.push(tick);
    }
    out
}

fn all_false(n: usize) -> (r: Vec<bool>)
    ensures
        r.len() == n,
        forall|i: int| 0 <= i < n ==> !(#[trigger] r[i]),
{
    let mut out: Vec<bool> = Vec::new();
    while out.len() < n
        invariant
            out.len() <= n,
            forall|i: int| 0 <= i < out.len() ==> !(#[trigger] out[i]),
        decreases n - out.len(),
    {
        out.push(false);
    }
    out
}

/// The state of the neurons within a document.
#[derive(Debug)]
pub struct WorkerState {
    pub membrane: Vec<Scalar>,
    pub activation: Vec<Scalar>,
    pub fatigue: Vec<Scalar>,
    pub refractory_until: Vec<u64>,
    pub branches: Vec<Scalar>,
    pub adaptation_fast: Vec<Scalar>,
    pub adaptation_medium: Vec<Scalar>,
    pub adaptation_slow: Vec<Scalar>,
    pub branch_last_tick: Vec<u64>,
    pub neuron_last_tick: Vec<u64>,
}

impl WorkerState {
    /// One entry for each neuron, four branches for each.
    pub open spec fn wf(self, neurons: int) -> bool {
        &&& self.membrane.len() == neurons
        &&& self.activation.len() == neurons
        &&& self.fatigue.len() == neurons
        &&& self.refractory_until.len() == neurons
        &&& self.branches.len() == neurons * 4
        &&& self.adaptation_fast.len() == neurons
        &&& self.adaptation_medium.len() == neurons
        &&& self.adaptation_slow.len() == neurons
        &&& self.branch_last_tick.len() == neurons
        &&& self.neuron_last_tick.len() == neurons
    }

    /// Nothing has happened since `tick`.
    pub open spec fn at_rest(self, tick: u64) -> bool {
        &&& all_zero(self.membrane@)
        &&& all_zero(self.activation@)
        &&& all_zero(self.fatigue@)
        &&& all_ticks(self.refractory_until@, 0)
        &&& all_zero(self.branches@)
        &&& all_zero(self.adaptation_fast@)
        &&& all_zero(self.adaptation_medium@)
        &&& all_zero(self.adaptation_slow@)
        &&& all_ticks(self.branch_last_tick@, tick)
        &&& all_ticks(self.neuron_last_tick@, tick)
    }

    /// The state of neurons at rest.
    pub fn new(neurons: usize, tick: u64) -> (r: Self)
        requires
            neurons * 4 <= usize::MAX,
        ensures
            r.wf(neurons as int),
            r.at_rest(tick),
    {
        WorkerState {
            membrane: zeros(neurons),
            activation: zeros(neurons),
            fatigue: zeros(neurons),
            refractory_until: ticks(neurons, 0),
            branches: zeros(neurons * 4),
            adaptation_fast: zeros(neurons),
            adaptation_medium: zeros(neurons),
            adaptation_slow: zeros(neurons),
            branch_last_tick: ticks(neurons, tick),
            neuron_last_tick: ticks(neurons, tick),
        }
    }
}

/// The forward sensitivities of one kind of synapse.
#[derive(Debug)]
pub struct TraceArrays {
    pub branch: Vec<Scalar>,
    pub membrane: Vec<Scalar>,
    pub fatigue: Vec<Scalar>,
    pub adaptation_fast: Vec<Scalar>,
    pub adaptation_medium: Vec<Scalar>,
    pub adaptation_slow: Vec<Scalar>,
    pub eligibility: Vec<Scalar>,
    pub last_tick: Vec<u64>,
    /// The synapses whose trace has not died away.
    pub eligible: MarkList,
}

impl TraceArrays {
    /// One entry for each synapse.
    pub open spec fn wf(self, synapses: int) -> bool {
        &&& self.branch.len() == synapses
        &&& self.membrane.len() == synapses
        &&& self.fatigue.len() == synapses
        &&& self.adaptation_fast.len() == synapses
        &&& self.adaptation_medium.len() == synapses
        &&& self.adaptation_slow.len() == synapses
        &&& self.eligibility.len() == synapses
        &&& self.last_tick.len() == synapses
        &&& self.eligible.wf()
        &&& self.eligible.capacity() == synapses
    }

    /// No synapse has a trace.
    pub open spec fn at_rest(self, tick: u64) -> bool {
        &&& all_zero(self.branch@)
        &&& all_zero(self.membrane@)
        &&& all_zero(self.fatigue@)
        &&& all_zero(self.adaptation_fast@)
        &&& all_zero(self.adaptation_medium@)
        &&& all_zero(self.adaptation_slow@)
        &&& all_zero(self.eligibility@)
        &&& all_ticks(self.last_tick@, tick)
        &&& self.eligible.list@.len() == 0
    }

    /// Traces at rest.
    pub fn new(synapses: usize, tick: u64) -> (r: Self)
        ensures
            r.wf(synapses as int),
            r.at_rest(tick),
    {
        TraceArrays {
            branch: zeros(synapses),
            membrane: zeros(synapses),
            fatigue: zeros(synapses),
            adaptation_fast: zeros(synapses),
            adaptation_medium: zeros(synapses),
            adaptation_slow: zeros(synapses),
            eligibility: zeros(synapses),
            last_tick: ticks(synapses, tick),
            eligible: MarkList::new(synapses),
        }
    }
}

/// What a runtime computes with: the course of its inhibition, its predictions and what it
/// learns from them.
#[derive(Debug)]
pub struct Numbers {
    pub population_inhibition: Scalar,
    /// How strongly each touched neuron's activation follows its membrane.
    pub surrogate: Vec<Scalar>,
    /// The weights of the active contexts.
    pub context_scales: Vec<Scalar>,
    /// What the active contexts say together.
    pub latent: Vec<Scalar>,
    pub probabilities: Vec<Scalar>,
    pub errors: Vec<Scalar>,
    /// What each neuron is told of the errors.
    pub signal: Vec<Scalar>,
    /// The neurons that are told of the errors.
    pub destinations: MarkList,
    pub plasticity_phase: usize,
}

impl Numbers {
    /// One entry for each neuron, class and dimension.
    pub open spec fn wf(self, neurons: int, classes: int, dim: int) -> bool {
        &&& self.surrogate.len() == neurons
        &&& self.latent.len() == dim
        &&& self.probabilities.len() == classes
        &&& self.errors.len() == classes
        &&& self.signal.len() == neurons
        &&& self.destinations.wf()
        &&& self.destinations.capacity() == neurons
    }

    /// Nothing of a document is left: neither inhibition nor context nor a phase of learning.
    pub open spec fn at_rest(self) -> bool {
        &&& self.population_inhibition == Scalar { bits: 0 }
        &&& all_zero(self.surrogate@)
        &&& self.context_scales@.len() == 0
        &&& all_zero(self.latent@)
        &&& self.plasticity_phase == 0
    }

    /// Numbers at rest.
    pub fn new(neurons: usize, classes: usize, dim: usize) -> (r: Numbers)
        ensures
            r.wf(neurons as int, classes as int, dim as int),
            r.at_rest(),
            all_zero(r.probabilities@),
            all_zero(r.errors@),
            all_zero(r.signal@),
            r.destinations.list@.len() == 0,
    {
        Numbers {
            population_inhibition: Scalar::zero(),
            surrogate: zeros(neurons),
            context_scales: Vec::new(),
            latent: zeros(dim),
            probabilities: zeros(classes),
            errors: zeros(classes),
            signal: zeros(neurons),
            destinations: MarkList::new(neurons),
            plasticity_phase: 0,
        }
    }

    /// Ends a document: what was predicted and learned last is kept.
    pub fn reset(&mut self)
        ensures
            final(self).at_rest(),
            final(self).surrogate.len() == old(self).surrogate.len(),
            final(self).latent.len() == old(self).latent.len(),
            *final(self) == (Numbers {
                population_inhibition: final(self).population_inhibition,
                surrogate: final(self).surrogate,
                context_scales: final(self).context_scales,
                latent: final(self).latent,
                plasticity_phase: 0,
                ..*old(self)
            }),
    {
        self.population_inhibition = Scalar::zero();
        self.surrogate = zeros(self.surrogate.len());
        self.context_scales.clear();
        self.latent = zeros(self.latent.len());
        self.plasticity_phase = 0;
    }
}

/// A runtime: a model and the state of the document it is working on.
#[derive(Debug)]
pub struct Runtime {
    pub model: Model,
    pub alphabet: Alphabet,
    pub state: WorkerState,
    pub recurrent_traces: TraceArrays,
    pub input_traces: TraceArrays,
    pub ring: DelayRing,
    pub current_tick: u64,
    pub touched: MarkList,
    pub active: Vec<usize>,
    pub previous_active: Vec<usize>,
    pub selected: Vec<bool>,
    pub history: Vec<u32>,
    pub context_slots: Vec<usize>,
    pub context_probes: usize,
    pub context_applied: bool,
    pub tracker: ChangeTracker,
    /// The output weights in neuron-major layout: [neuron][output].
    pub output_weights_by_neuron: Vec<Scalar>,
    /// The model was handed out for changes; the neuron-major weights are stale.
    pub output_cache_dirty: bool,
    pub persistent_document_activity: bool,
    pub learning_trace_enabled: bool,
    pub numbers: Numbers,
}

/// Every waiting event belongs to a recurrent synapse.
pub open spec fn events_in_range(buckets: Seq<Seq<Event>>, synapses: int) -> bool {
    forall|b: int, i: int|
        0 <= b < buckets.len() && 0 <= i < buckets[b].len() ==> (
        #[trigger] buckets[b][i]).synapse_slot < synapses
}

/// Every index is below a bound.
pub open spec fn all_below(s: Seq<usize>, bound: int) -> bool {
    forall|i: int| 0 <= i < s.len() ==> (#[trigger] s[i]) < bound
}

impl Runtime {
    /// The model can be run: its arrays have their sizes and its context can be probed.
    pub open spec fn model_ready(self) -> bool {
        let m = self.model.config.model;
        &&& self.model.tensors_match(self.alphabet)
        &&& self.model.context_ready()
        &&& 0 < self.model.config.context.probe_limit
        &&& 0 < self.model.config.context.max_order
        &&& 0 < m.neuron_count
        &&& 0 < m.neurons_per_block
        &&& m.block_count * m.neurons_per_block == m.neuron_count
        &&& m.max_active_global <= m.neuron_count
        &&& forall|s: int|
            0 <= s < self.model.input.targets.len() ==> (#[trigger] self.model.input.targets[s])
                < m.neuron_count
        &&& forall|s: int|
            0 <= s < self.model.recurrent.target_neuron.len() ==> (
            #[trigger] self.model.recurrent.target_neuron[s]) < m.neuron_count
        &&& 0 < self.model.recurrent.capacity_per_neuron
        &&& m.neuron_count * 4 <= usize::MAX
    }

    /// Every part of the runtime fits the model.
    pub open spec fn wf(self) -> bool {
        let n = self.model.config.model.neuron_count as int;
        &&& self.model_ready()
        &&& self.state.wf(n)
        &&& self.recurrent_traces.wf(self.model.recurrent.weight.len() as int)
        &&& self.input_traces.wf(self.model.input.weights.len() as int)
        &&& 9 <= self.ring@.len()
        &&& events_in_range(self.ring@, self.model.recurrent.weight.len() as int)
        &&& self.touched.wf()
        &&& self.touched.capacity() == n
        &&& all_below(self.active@, n)
        &&& self.active.len() <= n
        &&& all_below(self.previous_active@, n)
        &&& self.selected.len() == n
        &&& self.history.len() <= self.model.config.context.max_order
        &&& self.tracker.wf(self.model)
        &&& self.numbers.wf(
            n,
            self.alphabet.output_classes as int,
            self.model.config.context.embedding_dim as int,
        )
        &&& all_below(self.context_slots@, self.model.context.keys.len() as int)
        &&& !self.output_cache_dirty ==> self.output_weights_by_neuron@ == transposed(
            self.model.output.weights@,
            n,
            self.alphabet.output_classes as int,
        )
    }

    /// A document is about to begin: no activity, no waiting event, no trace, no context.
    pub open spec fn at_rest(self) -> bool {
        &&& self.state.at_rest(self.current_tick)
        &&& self.recurrent_traces.at_rest(self.current_tick)
        &&& self.input_traces.at_rest(self.current_tick)
        &&& forall|b: int|
            0 <= b < self.ring@.len() ==> (#[trigger] self.ring@[b]) == Seq::<Event>::empty()
        &&& self.touched.list@.len() == 0
        &&& self.active@.len() == 0
        &&& self.previous_active@.len() == 0
        &&& forall|i: int| 0 <= i < self.selected.len() ==> !(#[trigger] self.selected[i])
        &&& self.history@.len() == 0
        &&& self.context_slots@.len() == 0
        &&& self.context_probes == 0
        &&& !self.context_applied
        &&& !self.persistent_document_activity
        &&& !self.learning_trace_enabled
        &&& self.numbers.at_rest()
    }

    /// The runtime has just been made: it is at rest, its clock stands at zero, it has predicted
    /// nothing and tracks nothing.
    pub open spec fn is_fresh(self) -> bool {
        &&& self.at_rest()
        &&& self.current_tick == 0
        &&& self.ring@.len() == 9
        &&& !self.tracker.enabled
        &&& self.tracker.lists_empty()
        &&& !self.tracker.output_bias_dirty
        &&& !self.tracker.context_output_dirty
        &&& !self.output_cache_dirty
        &&& all_zero(self.numbers.probabilities@)
        &&& all_zero(self.numbers.errors@)
        &&& all_zero(self.numbers.signal@)
        &&& self.numbers.destinations.list@.len() == 0
    }

    /// Ends whatever document was going on: no trace of it stays but in the model.
    pub fn reset_transient_state(&mut self)
        requires
            old(self).wf(),
        ensures
            final(self).wf(),
            final(self).at_rest(),
            final(self).model == old(self).model,
            final(self).alphabet == old(self).alphabet,
            final(self).current_tick == old(self).current_tick,
            final(self).tracker == old(self).tracker,
            final(self).output_cache_dirty == old(self).output_cache_dirty,
            final(self).output_weights_by_neuron == old(self).output_weights_by_neuron,
            final(self).ring@.len() == old(self).ring@.len(),
            final(self).numbers.probabilities == old(self).numbers.probabilities,
            final(self).numbers.errors == old(self).numbers.errors,
            final(self).numbers.signal == old(self).numbers.signal,
            final(self).numbers.destinations == old(self).numbers.destinations,
    {
        let neurons: usize = self.model.config.model.neuron_count;
        let tick: u64 = self.current_tick;
        self.state = WorkerState::new(neurons, tick);
        self.recurrent_traces = TraceArrays::new(self.model.recurrent.weight.len(), tick);
        self.input_traces = TraceArrays::new(self.model.input.weights.len(), tick);
        self.ring.clear();
        self.touched.clear();
        self.active.clear();
        self.previous_active.clear();
        self.selected = all_false(neurons);
        self.history.clear();
        self.context_slots.clear();
        self.context_probes = 0;
        self.context_applied = false;
        self.persistent_document_activity = false;
        self.learning_trace_enabled = false;
        self.numbers.reset();
    }

    /// Begins a document.
    pub fn begin_document(&mut self)
        requires
            old(self).wf(),
        ensures
            final(self).wf(),
            final(self).at_rest(),
            final(self).model == old(self).model,
            final(self).alphabet == old(self).alphabet,
            final(self).current_tick == old(self).current_tick,
            final(self).tracker == old(self).tracker,
            final(self).output_cache_dirty == old(self).output_cache_dirty,
            final(self).output_weights_by_neuron == old(self).output_weights_by_neuron,
            final(self).ring@.len() == old(self).ring@.len(),
            final(self).numbers.probabilities == old(self).numbers.probabilities,
            final(self).numbers.errors == old(self).numbers.errors,
            final(self).numbers.signal == old(self).numbers.signal,
            final(self).numbers.destinations == old(self).numbers.destinations,
    {
        self.reset_transient_state();
    }

    /// Ends a document; one that was learned from counts as a story.
    pub fn finish_document(&mut self)
        requires
            old(self).wf(),
        ensures
            final(self).wf(),
            final(self).at_rest(),
            final(self).model == (Model {
                statistics: TrainingStatistics {
                    processed_stories: if old(self).persistent_document_activity {
                        crate::metrics::capped_sum(old(self).model.statistics.processed_stories, 1)
                    } else {
                        old(self).model.statistics.processed_stories
                    },
                    ..old(self).model.statistics
                },
                ..old(self).model
            }),
            final(self).alphabet == old(self).alphabet,
            final(self).current_tick == old(self).current_tick,
            final(self).tracker == old(self).tracker,
            final(self).output_cache_dirty == old(self).output_cache_dirty,
            final(self).output_weights_by_neuron == old(self).output_weights_by_neuron,
            final(self).ring@.len() == old(self).ring@.len(),
            final(self).numbers.probabilities == old(self).numbers.probabilities,
            final(self).numbers.errors == old(self).numbers.errors,
            final(self).numbers.signal == old(self).numbers.signal,
            final(self).numbers.destinations == old(self).numbers.destinations,
    {
        if self.persistent_document_activity {
            self.model.statistics.record_story();
        }
        self.reset_transient_state();
    }

    /// Starts tracking changed parameters.
    pub fn enable_parameter_tracking(&mut self)
        requires
            old(self).wf(),
        ensures
            final(self).wf(),
            final(self).tracker.enabled,
            old(self).tracker.enabled ==> final(self).tracker == old(self).tracker,
            !old(self).tracker.enabled ==> old(self).tracker.started(final(self).tracker),
            *final(self) == (Runtime { tracker: final(self).tracker, ..*old(self) }),
    {
        self.tracker.enable(&self.model);
    }

    /// The parameters changed since tracking began.
    pub fn parameter_changes(&self) -> (r: ParameterChanges)
        ensures
            r.threshold@ == self.tracker.threshold.list@,
            r.recurrent_weight@ == self.tracker.recurrent_weight.list@,
            r.input_weight@ == self.tracker.input_weight.list@,
            r.output_neurons@ == self.tracker.output_neurons.list@,
            r.context_slots@ == self.tracker.context_slots.list@,
            r.output_bias_dirty == self.tracker.output_bias_dirty,
            r.context_output_dirty == self.tracker.context_output_dirty,
    {
        self.tracker.changes()
    }

    /// The model.
    pub fn model(&self) -> (r: &Model)
        ensures
            *r == self.model,
    {
        &self.model
    }

    /// The neurons that are active.
    pub fn active_neurons(&self) -> (r: &Vec<usize>)
        ensures
            *r == self.active,
    {
        &self.active
    }

    /// The probabilities of the classes that the last step predicted.
    pub fn probabilities(&self) -> (r: &Vec<Scalar>)
        ensures
            *r == self.numbers.probabilities,
    {
        &self.numbers.probabilities
    }

    /// The activation of a neuron; zero for a neuron that is not there.
    pub fn activation(&self, neuron: usize) -> (r: Scalar)
        ensures
            r == (if neuron < self.state.activation.len() {
                self.state.activation[neuron as int]
            } else {
                Scalar { bits: 0 }
            }),
    {
        if neuron < self.state.activation.len() {
            self.state.activation[neuron]
        } else {
            Scalar::zero()
        }
    }
}

/// Where no input synapse from `from` on is wrong, none after it is.
proof fn lemma_inputs_reach_neurons(m: Model, from: int, slot: int)
    requires
        0 <= from <= slot < m.input.targets.len(),
        m.input_violation_from(from) is None,
    ensures
        m.input_synapse_ok(slot),
    decreases slot - from,
{
    if from < slot {
        lemma_inputs_reach_neurons(m, from + 1, slot);
    }
}

/// The longest delay, zero where there is none.
fn longest_delay(delays: &Vec<u8>) -> (r: u8)
    ensures
        forall|i: int| 0 <= i < delays.len() ==> (#[trigger] delays[i]) <= r,
        r == 0 || exists|i: int| 0 <= i < delays.len() && #[trigger] delays[i] == r,
{
    let mut longest: u8 = 0;
    let mut i: usize = 0;
    while i < delays.len()
        invariant
            i <= delays.len(),
            forall|k: int| 0 <= k < i ==> (#[trigger] delays[k]) <= longest,
            longest == 0 || exists|k: int| 0 <= k < i && #[trigger] delays[k] == longest,
        decreases delays.len() - i,
    {
        if delays[i] > longest {
            longest = delays[i];
        }
        i = i + 1;
    }
    longest
}

impl Runtime {
    /// A runtime at rest for a model that passes validation.
    pub fn new<T: Numerics>(model: Model, alphabet: Alphabet, ops: &T) -> (r: LeoResult<Self>)
        requires
            ops.ready(),
            model.config.model.neuron_count * 4 <= usize::MAX,
        ensures
            match model.config.violation(
                alphabet.output_classes,
                model.config.target_active(*ops),
            ) {
                Some(text) => fails(r, LeoErrorKind::Configuration, text),
                None => match model.violation(alphabet) {
                    Some(text) => fails(r, LeoErrorKind::Internal, text),
                    None => r is Ok,
                },
            },
            r matches Ok(runtime) ==> {
                &&& runtime.wf()
                &&& runtime.is_fresh()
                &&& runtime.model == model
                &&& runtime.alphabet == alphabet
            },
    {
        if let Err(error) = model.validate(&alphabet, ops) {
            return Err(error);
        }
        proof {
            let target_active = model.config.target_active(*ops);
            crate::model::law_valid_model(model, alphabet, target_active);
            crate::config::law_valid_sizes_fit(
                model.config,
                alphabet.output_classes,
                target_active,
            );
            assert forall|s: int| 0 <= s < model.input.targets.len() implies (
            #[trigger] model.input.targets[s]) < model.config.model.neuron_count by {
                lemma_inputs_reach_neurons(model, 0, s);
            }
        }
        let neurons: usize = model.config.model.neuron_count;
        let longest: u8 = longest_delay(&model.recurrent.delay);
        proof {
            if longest > 8 {
                let i = choose|i: int|
                    0 <= i < model.recurrent.delay.len() && #[trigger] model.recurrent.delay[i]
                        == longest;
                assert(model.recurrent.target_neuron[i] < model.config.model.neuron_count);
            }
        }
        proof {
            assert(model.size_violation(alphabet) is None);
        }
        let output_weights_by_neuron = transpose_output_weights(
            &model.output.weights,
            neurons,
            alphabet.output_classes,
        );
        let state = WorkerState::new(neurons, 0);
        let recurrent_traces = TraceArrays::new(model.recurrent.weight.len(), 0);
        let input_traces = TraceArrays::new(model.input.weights.len(), 0);
        let numbers = Numbers::new(
            neurons,
            alphabet.output_classes,
            model.config.context.embedding_dim,
        );
        Ok(
            Runtime {
                model,
                alphabet,
                state,
                recurrent_traces,
                input_traces,
                ring: DelayRing::new(longest),
                current_tick: 0,
                touched: MarkList::new(neurons),
                active: Vec::new(),
                previous_active: Vec::new(),
                selected: all_false(neurons),
                history: Vec::new(),
                context_slots: Vec::new(),
                context_probes: 0,
                context_applied: false,
                tracker: ChangeTracker::disabled(),
                output_weights_by_neuron,
                output_cache_dirty: false,
                persistent_document_activity: false,
                learning_trace_enabled: false,
                numbers,
            },
        )
    }
}

/// Output-major weights in neuron-major layout.
pub open spec fn transposed(weights: Seq<Scalar>, neurons: int, classes: int) -> Seq<Scalar> {
    Seq::new(
        (neurons * classes) as nat,
        |i: int| weights[(i % classes) * neurons + i / classes],
    )
}

/// A row and a column give a place in a table, and the place gives them back.
pub proof fn lemma_place(row: int, column: int, rows: int, columns: int)
    requires
        0 <= row < rows,
        0 <= column < columns,
    ensures
        0 <= row * columns + column < rows * columns,
        (row * columns + column) / columns == row,
        (row * columns + column) % columns == column,
{
    assert(0 <= row * columns + column < rows * columns) by (nonlinear_arith)
        requires
            0 <= row < rows,
            0 <= column < columns,
    ;
    vstd::arithmetic::div_mod::lemma_fundamental_div_mod_converse(
        row * columns + column,
        columns,
        row,
        column,
    );
}

/// Output-major weights in neuron-major layout.
pub fn transpose_output_weights(weights: &Vec<Scalar>, neurons: usize, classes: usize) -> (r: Vec<
    Scalar,
>)
    requires
        weights.len() == classes * neurons,
    ensures
        r@ == transposed(weights@, neurons as int, classes as int),
{
    assert(classes * neurons == neurons * classes) by (nonlinear_arith);
    let mut out: Vec<Scalar> = Vec::new();
    let mut neuron: usize = 0;
    while neuron < neurons
        invariant
            neuron <= neurons,
            weights.len() == classes * neurons,
            neurons * classes == classes * neurons,
            out.len() == neuron * classes,
            forall|i: int|
                0 <= i < out.len() ==> #[trigger] out[i] == weights[(i % classes as int) * neurons
                    + i / classes as int],
        decreases neurons - neuron,
    {
        let mut class: usize = 0;
        assert((neuron + 1) * classes == neuron * classes + classes) by (nonlinear_arith);
        while class < classes
            invariant
                class <= classes,
                neuron < neurons,
                weights.len() == classes * neurons,
                out.len() == neuron * classes + class,
                forall|i: int|
                    0 <= i < out.len() ==> #[trigger] out[i] == weights[(i % classes as int)
                        * neurons + i / classes as int],
            decreases classes - class,
        {
            proof {
                lemma_place(class as int, neuron as int, classes as int, neurons as int);
                lemma_place(neuron as int, class as int, neurons as int, classes as int);
                assert(0 <= class * neurons) by (nonlinear_arith);
            }
            out.push(weights[class * neurons + neuron]);
            class = class + 1;
        }
        neuron = neuron + 1;
    }
    assert(out@ =~= transposed(weights@, neurons as int, classes as int));
    out
}

/// Transposing twice gives the weights back.
pub proof fn law_transposition_inverts(weights: Seq<Scalar>, neurons: int, classes: int)
    requires
        0 <= neurons,
        0 <= classes,
        weights.len() == classes * neurons,
    ensures
        transposed(transposed(weights, neurons, classes), classes, neurons) == weights,
{
    let once = transposed(weights, neurons, classes);
    let twice = transposed(once, classes, neurons);
    assert(classes * neurons == neurons * classes && 0 <= classes * neurons) by (nonlinear_arith)
        requires
            0 <= neurons,
            0 <= classes,
    ;
    assert forall|i: int| 0 <= i < weights.len() implies twice[i] == weights[i] by {
        assert(0 < neurons && 0 < classes) by (nonlinear_arith)
            requires
                0 <= i < classes * neurons,
                0 <= neurons,
                0 <= classes,
        ;
        let class = i / neurons;
        let neuron = i % neurons;
        crate::model::lemma_source_of_slot(i, classes, neurons);
        vstd::arithmetic::div_mod::lemma_fundamental_div_mod(i, neurons);
        vstd::arithmetic::div_mod::lemma_mod_bound(i, neurons);
        lemma_place(neuron, class, neurons, classes);
        assert(class * neurons == neurons * class) by (nonlinear_arith);
        assert(twice[i] == once[neuron * classes + class]);
    }
    assert(twice =~= weights);
}

/// The neurons that the first `upto` events reach, leaving out targets that do not exist.
pub open spec fn reached(events: Seq<Event>, neurons: int, upto: int) -> Seq<usize>
    decreases upto,
{
    if upto <= 0 {
        Seq::empty()
    } else {
        let e = events[upto - 1];
        if e.target_neuron < neurons && e.target_branch <= BRANCH_CONTEXT_GATE {
            reached(events, neurons, upto - 1).push(e.target_neuron as usize)
        } else {
            reached(events, neurons, upto - 1)
        }
    }
}

/// The synapses that events came along.
pub open spec fn travelled(events: Seq<Event>) -> Seq<usize> {
    Seq::new(events.len(), |i: int| events[i].synapse_slot as usize)
}

fn reached_neurons(events: &Vec<Event>, neurons: usize) -> (r: Vec<usize>)
    ensures
        r@ == reached(events@, neurons as int, events.len() as int),
        all_below(r@, neurons as int),
{
    let mut out: Vec<usize> = Vec::new();
    let mut i: usize = 0;
    while i < events.len()
        invariant
            i <= events.len(),
            out@ == reached(events@, neurons as int, i as int),
            all_below(out@, neurons as int),
        decreases events.len() - i,
    {
        let e = events[i];
        if (e.target_neuron as usize) < neurons && e.target_branch <= BRANCH_CONTEXT_GATE {
            out.push(e.target_neuron as usize);
        }
        i = i + 1;
    }
    out
}

fn travelled_synapses(events: &Vec<Event>) -> (r: Vec<usize>)
    ensures
        r@ == travelled(events@),
{
    let mut out: Vec<usize> = Vec::new();
    let mut i: usize = 0;
    while i < events.len()
        invariant
            i <= events.len(),
            out.len() == i,
            forall|k: int| 0 <= k < i ==> #[trigger] out[k] == events[k].synapse_slot,
        decreases events.len() - i,
    {
        out.push(events[i].synapse_slot as usize);
        i = i + 1;
    }
    assert(out@ =~= travelled(events@));
    out
}

/// The input synapses of a symbol.
pub open spec fn input_slots(symbol: u32, fanout: int) -> Seq<usize> {
    Seq::new(fanout as nat, |i: int| (symbol * fanout + i) as usize)
}

/// The neurons that the first `upto` input synapses of a symbol reach.
pub open spec fn fed(m: Model, symbol: u32, upto: int) -> Seq<usize>
    decreases upto,
{
    if upto <= 0 {
        Seq::empty()
    } else {
        let slot = symbol * m.input.fanout + upto - 1;
        if m.input.branches[slot] <= BRANCH_CONTEXT_GATE {
            fed(m, symbol, upto - 1).push(m.input.targets[slot] as usize)
        } else {
            fed(m, symbol, upto - 1)
        }
    }
}

/// What a step needs to know before it computes: which class is its target, what arrives,
/// what the symbol feeds, and whether context and learning take part.
#[derive(Debug)]
pub struct OpenedStep {
    pub target_class: Option<usize>,
    /// The recurrent events that are due, in the order they were emitted.
    pub due: Vec<Event>,
    /// The first input synapse of the symbol; its others follow.
    pub first_input: usize,
    pub context_enabled: bool,
    /// How strongly the step may learn.
    pub strength: Scalar,
    /// Whether the step has a target and may learn from it.
    pub learns: bool,
}

impl Runtime {
    /// Whether a step under this permission uses the context memory.
    pub open spec fn context_kept(self, symbol: u32, permission: Permission) -> bool {
        permission == Permission::Frozen || survives_dropout(
            self.model.config.model.seed,
            self.current_tick,
            symbol,
            self.model.config.context.dropout_rate,
        )
    }

    /// Clears the last tick's marks; the neurons that were active are touched first.
    fn start_tick(&mut self)
        requires
            old(self).wf(),
        ensures
            final(self).wf(),
            (final(self).touched.list@, final(self).touched.mark@) == accumulated(
                Seq::empty(),
                crate::marks::unmarked(old(self).touched.capacity()),
                old(self).active@,
                old(self).active.len() as int,
            ),
            final(self).previous_active@ == old(self).active@,
            final(self).active@.len() == 0,
            forall|i: int|
                0 <= i < final(self).selected.len() ==> #[trigger] final(self).selected[i] == (
                old(self).selected[i] && !old(self).active@.contains(i as usize)),
            forall|i: int|
                0 <= i < final(self).state.activation.len() ==> #[trigger] final(self).state.activation[i] == (if old(self).active@.contains(i as usize) {
                    Scalar { bits: 0 }
                } else {
                    old(self).state.activation[i]
                }),
            *final(self) == (Runtime {
                touched: final(self).touched,
                active: final(self).active,
                previous_active: final(self).previous_active,
                selected: final(self).selected,
                state: WorkerState {
                    activation: final(self).state.activation,
                    ..old(self).state
                },
                ..*old(self)
            }),
    {
        let previous = copy_list(&self.active);
        self.active.clear();
        let mut i: usize = 0;
        while i < previous.len()
            invariant
                i <= previous.len(),
                previous@ == old(self).active@,
                all_below(previous@, old(self).model.config.model.neuron_count as int),
                self.selected.len() == old(self).model.config.model.neuron_count,
                old(self).selected.len() == old(self).model.config.model.neuron_count,
                self.state.activation.len() == old(self).model.config.model.neuron_count,
                old(self).state.activation.len() == old(self).model.config.model.neuron_count,
                forall|k: int|
                    0 <= k < self.selected.len() ==> #[trigger] self.selected[k] == (old(self).selected[k] && !previous@.take(i as int).contains(k as usize)),
                forall|k: int|
                    0 <= k < self.state.activation.len() ==> #[trigger] self.state.activation[k]
                        == (if previous@.take(i as int).contains(k as usize) {
                        Scalar { bits: 0 }
                    } else {
                        old(self).state.activation[k]
                    }),
                self.active@.len() == 0,
                *self == (Runtime {
                    active: self.active,
                    selected: self.selected,
                    state: WorkerState { activation: self.state.activation, ..old(self).state },
                    ..*old(self)
                }),
            decreases previous.len() - i,
        {
            let neuron: usize = previous[i];
            proof {
                let shorter = previous@.take(i as int);
                let longer = previous@.take(i + 1);
                assert(longer =~= shorter.push(neuron));
                assert forall|x: usize| #[trigger]
                    longer.contains(x) <==> shorter.contains(x) || x == neuron by {
                    if shorter.contains(x) {
                        let k = choose|k: int| 0 <= k < shorter.len() && shorter[k] == x;
                        assert(longer[k] == x);
                    }
                    if longer.contains(x) && x != neuron {
                        let k = choose|k: int| 0 <= k < longer.len() && longer[k] == x;
                        assert(shorter[k] == x);
                    }
                    assert(longer[i as int] == neuron);
                }
            }
            self.state.activation.set(neuron, Scalar { bits: 0 });
            self.selected.set(neuron, false);
            i = i + 1;
        }
        assert(previous@.take(previous.len() as int) =~= previous@);
        self.touched.clear();
        self.touched.add_all(&previous);
        self.previous_active = previous;
    }

    /// Takes the due events and touches what they reach; while learning, their synapses
    /// become eligible.
    fn deliver_due_events(&mut self) -> (due: Vec<Event>)
        requires
            old(self).wf(),
        ensures
            final(self).wf(),
            due@ == old(self).ring.due(old(self).current_tick as int),
            final(self).ring@ == old(self).ring@.update(
                old(self).current_tick as int % (old(self).ring@.len() as int),
                Seq::<Event>::empty(),
            ),
            (final(self).touched.list@, final(self).touched.mark@) == accumulated(
                old(self).touched.list@,
                old(self).touched.mark@,
                reached(
                    due@,
                    old(self).model.config.model.neuron_count as int,
                    due.len() as int,
                ),
                reached(
                    due@,
                    old(self).model.config.model.neuron_count as int,
                    due.len() as int,
                ).len() as int,
            ),
            old(self).learning_trace_enabled ==> (
                final(self).recurrent_traces.eligible.list@,
                final(self).recurrent_traces.eligible.mark@,
            ) == accumulated(
                old(self).recurrent_traces.eligible.list@,
                old(self).recurrent_traces.eligible.mark@,
                travelled(due@),
                due.len() as int,
            ),
            !old(self).learning_trace_enabled ==> final(self).recurrent_traces == old(self).recurrent_traces,
            *final(self) == (Runtime {
                ring: final(self).ring,
                touched: final(self).touched,
                recurrent_traces: TraceArrays {
                    eligible: final(self).recurrent_traces.eligible,
                    ..old(self).recurrent_traces
                },
                ..*old(self)
            }),
    {
        let ghost at = self.current_tick as int % (self.ring@.len() as int);
        let due = self.ring.take_due(self.current_tick);
        let targets = reached_neurons(&due, self.model.config.model.neuron_count);
        self.touched.add_all(&targets);
        if self.learning_trace_enabled {
            let slots = travelled_synapses(&due);
            assert forall|i: int| 0 <= i < slots.len() implies (#[trigger] slots[i])
                < self.recurrent_traces.eligible.capacity() by {
                assert(old(self).ring@[at][i].synapse_slot < self.model.recurrent.weight.len());
            }
            self.recurrent_traces.eligible.add_all(&slots);
        }
        due
    }

    /// Touches what a symbol feeds; while learning, its synapses become eligible.
    fn inject_symbol(&mut self, symbol: u32) -> (first: usize)
        requires
            old(self).wf(),
            old(self).alphabet.accepts(symbol),
        ensures
            final(self).wf(),
            first == symbol * old(self).model.input.fanout,
            first + old(self).model.input.fanout <= old(self).model.input.targets.len(),
            (final(self).touched.list@, final(self).touched.mark@) == accumulated(
                old(self).touched.list@,
                old(self).touched.mark@,
                fed(old(self).model, symbol, old(self).model.input.fanout as int),
                fed(old(self).model, symbol, old(self).model.input.fanout as int).len() as int,
            ),
            old(self).learning_trace_enabled ==> (
                final(self).input_traces.eligible.list@,
                final(self).input_traces.eligible.mark@,
            ) == accumulated(
                old(self).input_traces.eligible.list@,
                old(self).input_traces.eligible.mark@,
                input_slots(symbol, old(self).model.input.fanout as int),
                old(self).model.input.fanout as int,
            ),
            !old(self).learning_trace_enabled ==> final(self).input_traces == old(self).input_traces,
            *final(self) == (Runtime {
                touched: final(self).touched,
                input_traces: TraceArrays {
                    eligible: final(self).input_traces.eligible,
                    ..old(self).input_traces
                },
                ..*old(self)
            }),
    {
        let fanout: usize = self.model.input.fanout;
        let ghost count = self.alphabet.input.len() as int;
        assert(0 <= symbol * fanout && symbol * fanout + fanout <= count * fanout)
            by (nonlinear_arith)
            requires
                0 <= symbol < count,
                0 <= fanout,
        ;
        let first: usize = symbol as usize * fanout;
        let mut targets: Vec<usize> = Vec::new();
        let mut slots: Vec<usize> = Vec::new();
        let mut i: usize = 0;
        while i < fanout
            invariant
                i <= fanout,
                self.wf(),
                *self == *old(self),
                fanout == self.model.input.fanout,
                first == symbol * fanout,
                first + fanout <= self.model.input.targets.len(),
                first + fanout <= self.model.input.branches.len(),
                targets@ == fed(self.model, symbol, i as int),
                all_below(targets@, self.model.config.model.neuron_count as int),
                slots.len() == i,
                forall|k: int| 0 <= k < i ==> #[trigger] slots[k] == first + k,
            decreases fanout - i,
        {
            let slot: usize = first + i;
            if self.model.input.branches[slot] <= BRANCH_CONTEXT_GATE {
                targets.push(self.model.input.targets[slot] as usize);
            }
            slots.push(slot);
            i = i + 1;
        }
        self.touched.add_all(&targets);
        if self.learning_trace_enabled {
            assert(slots@ =~= input_slots(symbol, fanout as int));
            self.input_traces.eligible.add_all(&slots);
        }
        first
    }

    /// Remembers a symbol and, where context takes part, looks up its rows.
    fn activate_context(&mut self, symbol: u32, allocate: bool, enabled: bool)
        requires
            old(self).wf(),
        ensures
            final(self).wf(),
            final(self).history@ == remembered(
                old(self).history@,
                old(self).model.config.context.max_order as int,
                symbol,
            ),
            final(self).context_applied == enabled,
            final(self).model.same_but_context_table(old(self).model),
            !(enabled && allocate) ==> final(self).model == old(self).model,
            !enabled ==> final(self).context_slots@.len() == 0 && final(self).context_probes == 0,
            enabled ==> {
                let (table, slots, probes) = table_of(old(self).model).activate(
                    final(self).history@,
                    allocate,
                    final(self).history.len() as int,
                );
                &&& table_of(final(self).model) == table
                &&& as_ints(final(self).context_slots@) == slots
                &&& final(self).context_probes == capped(probes)
            },
            *final(self) == (Runtime {
                model: final(self).model,
                history: final(self).history,
                context_slots: final(self).context_slots,
                context_probes: final(self).context_probes,
                context_applied: final(self).context_applied,
                ..*old(self)
            }),
    {
        remember(&mut self.history, self.model.config.context.max_order, symbol);
        self.context_slots.clear();
        self.context_probes = 0;
        self.context_applied = enabled;
        if !enabled {
            return;
        }
        let ghost opening = *self;
        let ghost first = table_of(self.model);
        let mut done: usize = 0;
        assert(as_ints(self.context_slots@) =~= Seq::<int>::empty());
        while done < self.history.len()
            invariant
                done <= self.history.len(),
                self.wf(),
                self.context_slots.len() <= done,
                self.model.same_but_context_table(opening.model),
                !allocate ==> self.model == opening.model,
                ({
                    let (table, found, looked) = first.activate(
                        self.history@,
                        allocate,
                        done as int,
                    );
                    &&& table_of(self.model) == table
                    &&& as_ints(self.context_slots@) == found
                    &&& 0 <= looked
                    &&& self.context_probes == capped(looked)
                }),
                *self == (Runtime {
                    model: self.model,
                    context_slots: self.context_slots,
                    context_probes: self.context_probes,
                    ..opening
                }),
            decreases self.history.len() - done,
        {
            let order: usize = done + 1;
            let key: u64 = context_key(&self.history, order);
            proof {
                lemma_probe_count(table_of(self.model), order as int, key, allocate);
            }
            if let Some(slot) = self.resolve_context_slot(order, key, allocate) {
                let ghost before = self.context_slots@;
                self.context_slots.push(slot);
                assert(as_ints(self.context_slots@) =~= as_ints(before).push(slot as int));
            }
            done = order;
        }
    }

    /// Looks up one fingerprint; where `allocate` is set, one that is not there gets a row. The
    /// slots that were looked at are counted.
    pub fn resolve_context_slot(&mut self, order: usize, key: u64, allocate: bool) -> (r: Option<
        usize,
    >)
        requires
            old(self).wf(),
            1 <= order <= old(self).model.config.context.max_order,
            key != 0,
        ensures
            final(self).wf(),
            final(self).model.same_but_context_table(old(self).model),
            !allocate ==> final(self).model == old(self).model,
            ({
                let (table, slot, probes) = table_of(old(self).model).resolve(
                    order as int,
                    key,
                    allocate,
                );
                &&& table_of(final(self).model) == table
                &&& final(self).context_probes == capped(old(self).context_probes + probes)
                &&& match r {
                    Some(s) => slot == Some(s as int) && s < final(self).model.context.keys.len(),
                    None => slot is None,
                }
            }),
            *final(self) == (Runtime {
                model: final(self).model,
                context_probes: final(self).context_probes,
                ..*old(self)
            }),
    {
        let (slot, probes) = resolve_in_table(&mut self.model, order, key, allocate);
        self.context_probes = self.context_probes.saturating_add(probes);
        slot
    }
}

/// The touched neurons of a step, as list and marks: those that were active, then those
/// that events reach, then those that the symbol feeds, each once.
pub open spec fn touched_in_step(r: Runtime, symbol: u32) -> (Seq<usize>, Seq<bool>) {
    let n = r.model.config.model.neuron_count as int;
    let due = r.ring.due(r.current_tick as int);
    let hit = reached(due, n, due.len() as int);
    let inputs = fed(r.model, symbol, r.model.input.fanout as int);
    let (l0, m0) = accumulated(
        Seq::empty(),
        crate::marks::unmarked(n),
        r.active@,
        r.active.len() as int,
    );
    let (l1, m1) = accumulated(l0, m0, hit, hit.len() as int);
    accumulated(l1, m1, inputs, inputs.len() as int)
}

/// The marks of the selected neurons after those of a list were taken back.
pub open spec fn deselected(selected: Seq<bool>, list: Seq<usize>) -> Seq<bool> {
    Seq::new(selected.len(), |i: int| selected[i] && !list.contains(i as usize))
}

/// The activations after the neurons of a list fell silent.
pub open spec fn deactivated(activation: Seq<Scalar>, list: Seq<usize>) -> Seq<Scalar> {
    Seq::new(
        activation.len(),
        |i: int|
            if list.contains(i as usize) {
                Scalar { bits: 0 }
            } else {
                activation[i]
            },
    )
}

impl Runtime {
    /// The number of neurons.
    pub open spec fn size(self) -> int {
        self.model.config.model.neuron_count as int
    }

    /// What an opened step hands on fits the runtime.
    pub open spec fn takes(self, step: OpenedStep) -> bool {
        &&& step.first_input + self.model.input.fanout <= self.model.input.targets.len()
        &&& forall|i: int|
            0 <= i < step.due.len() ==> (#[trigger] step.due[i]).synapse_slot
                < self.model.recurrent.weight.len()
    }
}

/// What the stages after the opening of a step rely on.
pub open spec fn can_go_on(
    before: Runtime,
    target: Option<u32>,
    permission: Permission,
    step: OpenedStep,
    after: Runtime,
) -> bool {
    &&& after.takes(step)
    &&& after.model.config == before.model.config
    &&& after.model.recurrent.weight.len() == before.model.recurrent.weight.len()
    &&& after.alphabet == before.alphabet
    &&& !after.output_cache_dirty
    &&& after.learning_trace_enabled == (permission != Permission::Frozen)
    &&& step.target_class == (match target {
        Some(t) => before.alphabet.class(t),
        None => None,
    })
    &&& step.learns ==> step.target_class is Some
}

/// What the opening of a step does to a runtime.
#[verifier::opaque]
pub open spec fn opened(
    before: Runtime,
    symbol: u32,
    target: Option<u32>,
    permission: Permission,
    step: OpenedStep,
    after: Runtime,
) -> bool {
    let learning = permission != Permission::Frozen;
    let kept = before.context_kept(symbol, permission);
    let due = before.ring.due(before.current_tick as int);
    &&& step.target_class == (match target {
        Some(t) => before.alphabet.class(t),
        None => None,
    })
    &&& step.due@ == due
    &&& step.first_input == symbol * before.model.input.fanout
    &&& step.context_enabled == kept
    &&& step.strength == permission.strength_in(before.model.config)
    &&& step.learns == (target is Some && Scalar { bits: 0 }.below(step.strength))
    &&& after.current_tick == before.current_tick
    &&& after.learning_trace_enabled == learning
    &&& (after.touched.list@, after.touched.mark@) == touched_in_step(
        before,
        symbol,
    )
    &&& after.active@.len() == 0
    &&& after.previous_active@ == before.active@
    &&& after.history@ == remembered(
        before.history@,
        before.model.config.context.max_order as int,
        symbol,
    )
    &&& after.context_applied == kept
    &&& kept ==> {
        let (table, slots, probes) = table_of(before.model).activate(
            after.history@,
            learning,
            after.history.len() as int,
        );
        &&& table_of(after.model) == table
        &&& as_ints(after.context_slots@) == slots
        &&& after.context_probes == capped(probes)
    }
    &&& !kept ==> after.context_slots@.len() == 0 && after.context_probes
        == 0
    &&& after.model.same_but_context_table(before.model)
    &&& learning ==> (
        after.recurrent_traces.eligible.list@,
        after.recurrent_traces.eligible.mark@,
    ) == accumulated(
        before.recurrent_traces.eligible.list@,
        before.recurrent_traces.eligible.mark@,
        travelled(due),
        due.len() as int,
    )
    &&& learning ==> (
        after.input_traces.eligible.list@,
        after.input_traces.eligible.mark@,
    ) == accumulated(
        before.input_traces.eligible.list@,
        before.input_traces.eligible.mark@,
        input_slots(symbol, before.model.input.fanout as int),
        before.model.input.fanout as int,
    )
    &&& !learning ==> {
        &&& after.model == before.model
        &&& after.recurrent_traces == before.recurrent_traces
        &&& after.input_traces == before.input_traces
    }
    &&& !kept ==> after.model == before.model
    &&& after.tracker == before.tracker
    &&& after.alphabet == before.alphabet
    &&& after.persistent_document_activity == before.persistent_document_activity
    &&& after.ring@ == before.ring@.update(
        before.current_tick as int % (before.ring@.len() as int),
        Seq::<Event>::empty(),
    )
    &&& after.selected@ == deselected(before.selected@, before.active@)
    &&& after.state.activation@ == deactivated(before.state.activation@, before.active@)
    &&& after.state == (WorkerState {
        activation: after.state.activation,
        ..before.state
    })
    &&& after.recurrent_traces == (TraceArrays {
        eligible: after.recurrent_traces.eligible,
        ..before.recurrent_traces
    })
    &&& after.input_traces == (TraceArrays {
        eligible: after.input_traces.eligible,
        ..before.input_traces
    })
    &&& after.numbers == before.numbers
    &&& !after.output_cache_dirty
}

impl Runtime {
    /// Opens a step: checks its symbols, moves the clock's marks on, delivers what is due,
    /// feeds the symbol and looks up the context.
    pub fn open_step(&mut self, symbol: u32, target: Option<u32>, permission: Permission) -> (r:
        LeoResult<OpenedStep>)
        requires
            old(self).wf(),
        ensures
            final(self).wf(),
            !old(self).alphabet.accepts(symbol) ==> {
                &&& fails(
                    r,
                    LeoErrorKind::Internal,
                    "invalid input symbol: "@ + decimal(symbol as nat) + ""@,
                )
                &&& *final(self) == *old(self)
            },
            old(self).alphabet.accepts(symbol) && (target matches Some(t) && old(
                self).alphabet.class(t) is None) ==> {
                &&& fails(
                    r,
                    LeoErrorKind::Internal,
                    "invalid output target: "@ + decimal(target->0 as nat) + ""@,
                )
                &&& *final(self) == *old(self)
            },
            old(self).alphabet.accepts(symbol) && (target matches Some(t) ==> old(
                self).alphabet.class(t) is Some) ==> r is Ok,
            r matches Ok(step) ==> opened(
                *old(self),
                symbol,
                target,
                permission,
                step,
                *final(self),
            ) && can_go_on(*old(self), target, permission, step, *final(self)),
    {
        if !self.alphabet.is_input_symbol(symbol) {
            return Err(
                LeoError::internal(with_number("invalid input symbol: ", symbol as u64, "")),
            );
        }
        let mut target_class: Option<usize> = None;
        if let Some(value) = target {
            target_class = self.alphabet.output_symbol_to_index(value);
            if target_class.is_none() {
                return Err(
                    LeoError::internal(with_number("invalid output target: ", value as u64, "")),
                );
            }
        }
        let frozen: bool = permission.is_frozen();
        self.ensure_output_weight_cache();
        self.learning_trace_enabled = !frozen;
        self.start_tick();
        let due = self.deliver_due_events();
        let first_input: usize = self.inject_symbol(symbol);
        let context_enabled: bool = frozen || context_survives_dropout(
            self.model.config.model.seed,
            self.current_tick,
            symbol,
            self.model.config.context.dropout_rate,
        );
        self.activate_context(symbol, !frozen && context_enabled, context_enabled);
        let strength = permission.strength(&self.model.config);
        let learns: bool = target_class.is_some() && Scalar::zero().lt(strength);
        reveal(opened);
        assert(self.selected@ =~= deselected(old(self).selected@, old(self).active@));
        assert(self.state.activation@ =~= deactivated(
            old(self).state.activation@,
            old(self).active@,
        ));
        proof {
            let at = old(self).current_tick as int % (old(self).ring@.len() as int);
            assert forall|i: int| 0 <= i < due.len() implies (#[trigger] due[i]).synapse_slot
                < self.model.recurrent.weight.len() by {
                assert(old(self).ring@[at][i].synapse_slot
                    < old(self).model.recurrent.weight.len());
            }
        }
        Ok(OpenedStep { target_class, due, first_input, context_enabled, strength, learns })
    }
}

/// For each touched neuron, whether its refractory time is over.
pub open spec fn ready_at(touched: Seq<usize>, refractory_until: Seq<u64>, tick: u64) -> Seq<bool> {
    Seq::new(touched.len(), |i: int| refractory_until[touched[i] as int] <= tick)
}

/// The neurons of a list of candidates.
pub open spec fn neurons_of(s: Seq<crate::selection::Candidate>) -> Seq<usize> {
    Seq::new(s.len(), |i: int| s[i].neuron)
}

/// Activations after the first `upto` winners got theirs.
pub open spec fn activated(
    base: Seq<Scalar>,
    winners: Seq<crate::selection::Candidate>,
    upto: int,
) -> Seq<Scalar>
    decreases upto,
{
    if upto <= 0 {
        base
    } else {
        activated(base, winners, upto - 1).update(
            winners[upto - 1].neuron as int,
            winners[upto - 1].activation,
        )
    }
}

/// Marks after the first `upto` winners were marked.
pub open spec fn chosen(
    base: Seq<bool>,
    winners: Seq<crate::selection::Candidate>,
    upto: int,
) -> Seq<bool>
    decreases upto,
{
    if upto <= 0 {
        base
    } else {
        chosen(base, winners, upto - 1).update(winners[upto - 1].neuron as int, true)
    }
}

/// The tick until which a neuron that fires on `tick` stays silent.
pub open spec fn silent_until(tick: u64, refractory_ticks: u64) -> u64 {
    crate::metrics::capped_sum(crate::metrics::capped_sum(tick, refractory_ticks), 1)
}

/// Refractory times after the first `upto` active neurons fired.
pub open spec fn silenced(base: Seq<u64>, active: Seq<usize>, until: u64, upto: int) -> Seq<u64>
    decreases upto,
{
    if upto <= 0 {
        base
    } else {
        silenced(base, active, until, upto - 1).update(active[upto - 1] as int, until)
    }
}

impl Runtime {
    /// Brings the neuron-major output weights up to date.
    fn ensure_output_weight_cache(&mut self)
        requires
            old(self).wf(),
        ensures
            final(self).wf(),
            !final(self).output_cache_dirty,
            *final(self) == (Runtime {
                output_weights_by_neuron: final(self).output_weights_by_neuron,
                output_cache_dirty: false,
                ..*old(self)
            }),
    {
        if self.output_cache_dirty {
            self.output_weights_by_neuron = transpose_output_weights(
                &self.model.output.weights,
                self.model.config.model.neuron_count,
                self.alphabet.output_classes,
            );
            self.output_cache_dirty = false;
        }
    }

    /// Hands the model out for changes; the neuron-major output weights are then stale.
    pub fn model_mut(&mut self) -> (r: &mut Model)
        ensures
            *r == old(self).model,
            *final(self) == (Runtime {
                model: *final(r),
                output_cache_dirty: true,
                ..*old(self)
            }),
    {
        self.output_cache_dirty = true;
        &mut self.model
    }

    /// The shape of the competition on the current tick.
    pub open spec fn shape(self) -> SelectionShape {
        let m = self.model.config.model;
        SelectionShape {
            neuron_count: m.neuron_count,
            block_count: m.block_count,
            neurons_per_block: m.neurons_per_block,
            max_active_per_block: m.max_active_per_block,
            max_active_global: m.max_active_global,
            tick: self.current_tick,
        }
    }

    /// Holds the competition among the touched neurons, whose activations are given in the
    /// order of the list, and makes the winners active.
    pub fn select_active_neurons(&mut self, activation: &Vec<Scalar>) -> (r: Selection)
        requires
            old(self).wf(),
            activation.len() == old(self).touched.list.len(),
        ensures
            final(self).wf(),
            old(self).shape().decides(
                gathered(
                    old(self).shape(),
                    old(self).touched.list@,
                    ready_at(
                        old(self).touched.list@,
                        old(self).state.refractory_until@,
                        old(self).current_tick,
                    ),
                    activation@,
                    activation.len() as int,
                ),
                r,
            ),
            r.cutoff_neuron matches Some(neuron) ==> neuron
                < old(self).model.config.model.neuron_count,
            final(self).active@ == neurons_of(r.active@),
            final(self).state.activation@ == activated(
                old(self).state.activation@,
                r.active@,
                r.active.len() as int,
            ),
            final(self).selected@ == chosen(
                old(self).selected@,
                r.active@,
                r.active.len() as int,
            ),
            *final(self) == (Runtime {
                active: final(self).active,
                selected: final(self).selected,
                state: WorkerState {
                    activation: final(self).state.activation,
                    ..old(self).state
                },
                ..*old(self)
            }),
    {
        let m = &self.model.config.model;
        let shape = SelectionShape {
            neuron_count: m.neuron_count,
            block_count: m.block_count,
            neurons_per_block: m.neurons_per_block,
            max_active_per_block: m.max_active_per_block,
            max_active_global: m.max_active_global,
            tick: self.current_tick,
        };
        let neurons: usize = m.neuron_count;
        let touched = &self.touched.list;
        let mut ready: Vec<bool> = Vec::new();
        let mut i: usize = 0;
        while i < touched.len()
            invariant
                i <= touched.len(),
                *self == *old(self),
                self.wf(),
                *touched == self.touched.list,
                ready.len() == i,
                forall|k: int|
                    0 <= k < i ==> #[trigger] ready[k] == (
                    self.state.refractory_until[touched[k] as int] <= self.current_tick),
            decreases touched.len() - i,
        {
            ready.push(self.state.refractory_until[touched[i]] <= self.current_tick);
            i = i + 1;
        }
        assert(ready@ =~= ready_at(
            touched@,
            self.state.refractory_until@,
            self.current_tick,
        ));
        let r = shape.select(touched, &ready, activation);
        let ghost blocks = gathered(
            shape,
            self.touched.list@,
            ready@,
            activation@,
            activation.len() as int,
        );
        proof {
            law_selection_is_bounded(shape, blocks, r);
            assert forall|c: crate::selection::Candidate|
                #[trigger] crate::selection::in_some_block(
                    blocks,
                    blocks.len() as int,
                    c,
                ) implies c.neuron < neurons by {
                let b = choose|b: int| 0 <= b < blocks.len() && #[trigger] blocks[b].contains(c);
                let at = choose|at: int| 0 <= at < blocks[b].len() && blocks[b][at] == c;
                lemma_candidate_is_touched(
                    shape,
                    self.touched.list@,
                    ready@,
                    activation@,
                    b,
                    activation.len() as int,
                    at,
                );
            }
            assert forall|k: int| 0 <= k < r.active.len() implies (#[trigger] r.active[k]).neuron
                < neurons by {
                assert(crate::selection::in_some_block(
                    blocks,
                    blocks.len() as int,
                    r.active[k],
                ));
            }
        }
        self.active.clear();
        let mut w: usize = 0;
        while w < r.active.len()
            invariant
                w <= r.active.len(),
                neurons == old(self).model.config.model.neuron_count,
                self.state.activation.len() == neurons,
                self.selected.len() == neurons,
                forall|k: int|
                    0 <= k < r.active.len() ==> (#[trigger] r.active[k]).neuron < neurons,
                self.active.len() == w,
                forall|k: int| 0 <= k < w ==> #[trigger] self.active[k] == r.active[k].neuron,
                self.state.activation@ == activated(
                    old(self).state.activation@,
                    r.active@,
                    w as int,
                ),
                self.selected@ == chosen(old(self).selected@, r.active@, w as int),
                *self == (Runtime {
                    active: self.active,
                    selected: self.selected,
                    state: WorkerState { activation: self.state.activation, ..old(self).state },
                    ..*old(self)
                }),
            decreases r.active.len() - w,
        {
            let winner = r.active[w];
            self.active.push(winner.neuron);
            self.state.activation.set(winner.neuron, winner.activation);
            self.selected.set(winner.neuron, true);
            w = w + 1;
        }
        assert(self.active@ =~= neurons_of(r.active@));
        r
    }

    /// Makes the active neurons refractory.
    pub fn silence_active_neurons(&mut self)
        requires
            old(self).wf(),
        ensures
            final(self).wf(),
            final(self).state.refractory_until@ == silenced(
                old(self).state.refractory_until@,
                old(self).active@,
                silent_until(
                    old(self).current_tick,
                    old(self).model.config.dynamics.refractory_ticks,
                ),
                old(self).active.len() as int,
            ),
            *final(self) == (Runtime {
                state: WorkerState {
                    refractory_until: final(self).state.refractory_until,
                    ..old(self).state
                },
                ..*old(self)
            }),
    {
        let until: u64 = self.current_tick.saturating_add(
            self.model.config.dynamics.refractory_ticks,
        ).saturating_add(1);
        let mut i: usize = 0;
        while i < self.active.len()
            invariant
                i <= self.active.len(),
                old(self).wf(),
                self.state.refractory_until.len() == old(self).model.config.model.neuron_count,
                self.state.refractory_until@ == silenced(
                    old(self).state.refractory_until@,
                    old(self).active@,
                    until,
                    i as int,
                ),
                *self == (Runtime {
                    state: WorkerState {
                        refractory_until: self.state.refractory_until,
                        ..old(self).state
                    },
                    ..*old(self)
                }),
            decreases self.active.len() - i,
        {
            let neuron: usize = self.active[i];
            self.state.refractory_until.set(neuron, until);
            i = i + 1;
        }
    }
}

/// A candidate of a block is one of the touched neurons.
proof fn lemma_candidate_is_touched(
    shape: SelectionShape,
    touched: Seq<usize>,
    ready: Seq<bool>,
    activation: Seq<Scalar>,
    b: int,
    upto: int,
    at: int,
)
    requires
        0 <= upto <= touched.len(),
        0 <= at < shape.block_candidates(touched, ready, activation, b, upto).len(),
    ensures
        exists|i: int|
            0 <= i < upto && #[trigger] touched[i] == shape.block_candidates(
                touched,
                ready,
                activation,
                b,
                upto,
            )[at].neuron && ready[i],
    decreases upto,
{
    if upto > 0 {
        let rest = shape.block_candidates(touched, ready, activation, b, upto - 1);
        if at < rest.len() {
            lemma_candidate_is_touched(shape, touched, ready, activation, b, upto - 1, at);
        } else {
            assert(touched[upto - 1] == shape.block_candidates(
                touched,
                ready,
                activation,
                b,
                upto,
            )[at].neuron);
        }
    }
}

/// The event of the `k`-th synapse of an active neuron.
pub open spec fn emitted_event(
    m: Model,
    source: usize,
    activation: Scalar,
    k: int,
    value: Scalar,
) -> Event {
    let slot = source * m.recurrent.capacity_per_neuron + k;
    Event {
        target_neuron: m.recurrent.target_neuron[slot],
        target_branch: m.recurrent.target_branch[slot],
        value,
        synapse_slot: slot as u32,
        presynaptic_activation: activation,
    }
}

/// The delay of a synapse, at least one tick.
pub open spec fn delay_of(m: Model, slot: int) -> int {
    if m.recurrent.delay[slot] == 0 {
        1
    } else {
        m.recurrent.delay[slot] as int
    }
}

/// The delay ring after the first `upto` events of a step were emitted: the synapses of the
/// active neurons in order, each neuron's from its first to its last.
pub open spec fn emitted(
    buckets: Seq<Seq<Event>>,
    r: Runtime,
    values: Seq<Scalar>,
    upto: int,
) -> Seq<Seq<Event>>
    decreases upto,
{
    if upto <= 0 {
        buckets
    } else {
        let capacity = r.model.recurrent.capacity_per_neuron as int;
        let source = r.active[(upto - 1) / capacity];
        let k = (upto - 1) % capacity;
        scheduled(
            emitted(buckets, r, values, upto - 1),
            r.current_tick + delay_of(r.model, source * capacity + k),
            emitted_event(
                r.model,
                source,
                r.state.activation[source as int],
                k,
                values[upto - 1],
            ),
        )
    }
}

impl Runtime {
    /// Emits the events of the active neurons. `values` holds for each of them, and for
    /// each of its synapses, the activation times the weight.
    pub fn emit_recurrent_events(&mut self, values: &Vec<Scalar>) -> (r: usize)
        requires
            old(self).wf(),
            old(self).model.recurrent.weight.len() <= u32::MAX,
            0 < old(self).model.recurrent.capacity_per_neuron,
            values.len() == old(self).active.len() * old(self).model.recurrent.capacity_per_neuron,
        ensures
            final(self).wf(),
            r == old(self).active.len() * old(self).model.recurrent.capacity_per_neuron,
            final(self).ring@ == emitted(
                old(self).ring@,
                *old(self),
                values@,
                values.len() as int,
            ),
            *final(self) == (Runtime { ring: final(self).ring, ..*old(self) }),
    {
        let capacity: usize = self.model.recurrent.capacity_per_neuron;
        let ghost synapses = self.model.recurrent.weight.len() as int;
        let ghost neurons = self.model.config.model.neuron_count as int;
        let mut done: usize = 0;
        let mut i: usize = 0;
        while i < self.active.len()
            invariant
                i <= self.active.len(),
                old(self).wf(),
                capacity == old(self).model.recurrent.capacity_per_neuron,
                0 < capacity,
                synapses == old(self).model.recurrent.weight.len(),
                neurons == old(self).model.config.model.neuron_count,
                synapses <= u32::MAX,
                values.len() == old(self).active.len() * capacity,
                done == i * capacity,
                self.ring@ == emitted(old(self).ring@, *old(self), values@, done as int),
                self.ring@.len() == old(self).ring@.len(),
                events_in_range(self.ring@, synapses),
                *self == (Runtime { ring: self.ring, ..*old(self) }),
            decreases self.active.len() - i,
        {
            let source: usize = self.active[i];
            let activation: Scalar = self.state.activation[source];
            let mut k: usize = 0;
            assert((i + 1) * capacity == i * capacity + capacity) by (nonlinear_arith);
            let ghost count = self.active.len() as int;
            assert((i + 1) * capacity <= count * capacity) by (nonlinear_arith)
                requires
                    i + 1 <= count,
                    0 < capacity,
            ;
            while k < capacity
                invariant
                    k <= capacity,
                    i < old(self).active.len(),
                    old(self).wf(),
                    source == old(self).active[i as int],
                    activation == old(self).state.activation[source as int],
                    capacity == old(self).model.recurrent.capacity_per_neuron,
                    0 < capacity,
                    synapses == old(self).model.recurrent.weight.len(),
                    neurons == old(self).model.config.model.neuron_count,
                    synapses <= u32::MAX,
                    values.len() == old(self).active.len() * capacity,
                    i * capacity + capacity <= values.len(),
                    done == i * capacity + k,
                    self.ring@ == emitted(old(self).ring@, *old(self), values@, done as int),
                    self.ring@.len() == old(self).ring@.len(),
                    events_in_range(self.ring@, synapses),
                    *self == (Runtime { ring: self.ring, ..*old(self) }),
                decreases capacity - k,
            {
                proof {
                    lemma_place(source as int, k as int, neurons, capacity as int);
                    lemma_place(
                        i as int,
                        k as int,
                        old(self).active.len() as int,
                        capacity as int,
                    );
                    assert(0 <= source * capacity) by (nonlinear_arith);
                }
                let slot: usize = source * capacity + k;
                let delay: u8 = if self.model.recurrent.delay[slot] == 0 {
                    1
                } else {
                    self.model.recurrent.delay[slot]
                };
                let event = Event {
                    target_neuron: self.model.recurrent.target_neuron[slot],
                    target_branch: self.model.recurrent.target_branch[slot],
                    value: values[done],
                    synapse_slot: slot as u32,
                    presynaptic_activation: activation,
                };
                let ghost before = self.ring@;
                self.ring.schedule(self.current_tick, delay, event);
                proof {
                    let at = (self.current_tick + delay) % (before.len() as int);
                    assert forall|b: int, j: int|
                        0 <= b < self.ring@.len() && 0 <= j < self.ring@[b].len() implies (
                    #[trigger] self.ring@[b][j]).synapse_slot < synapses by {
                        if b == at {
                            if j < before[b].len() {
                                assert(before[b][j].synapse_slot < synapses);
                            }
                        } else {
                            assert(before[b][j].synapse_slot < synapses);
                        }
                    }
                }
                done = done + 1;
                k = k + 1;
            }
            i = i + 1;
        }
        done
    }

    /// Closes a step: a step that learned makes a new revision, one that was not frozen
    /// enters the statistics, and the clock moves on.
    ///
    /// `loss_sum` is the loss sum of the statistics with this step's loss added.
    pub fn close_step(
        &mut self,
        symbol: u32,
        permission: Permission,
        learned: bool,
        loss_sum: Option<WideScalar>,
        emitted_events: usize,
    )
        requires
            old(self).wf(),
        ensures
            final(self).wf(),
            final(self).current_tick == crate::metrics::capped_sum(old(self).current_tick, 1),
            final(self).model == (Model {
                parameter_revision: if learned {
                    crate::metrics::capped_sum(old(self).model.parameter_revision, 1)
                } else {
                    old(self).model.parameter_revision
                },
                statistics: if permission == Permission::Frozen {
                    old(self).model.statistics
                } else {
                    old(self).model.statistics.after_step(
                        symbol,
                        loss_sum,
                        old(self).active.len(),
                        emitted_events,
                    )
                },
                ..old(self).model
            }),
            final(self).persistent_document_activity == (old(self).persistent_document_activity
                || permission != Permission::Frozen),
            *final(self) == (Runtime {
                model: final(self).model,
                current_tick: final(self).current_tick,
                persistent_document_activity: final(self).persistent_document_activity,
                ..*old(self)
            }),
    {
        if learned {
            self.model.parameter_revision = self.model.parameter_revision.saturating_add(1);
        }
        if !permission.is_frozen() {
            self.persistent_document_activity = true;
            let active: usize = self.active.len();
            self.model.statistics.record_step(symbol, loss_sum, active, emitted_events);
        }
        self.current_tick = self.current_tick.saturating_add(1);
    }
}

/// The sum of two counts, held at the largest value.
pub open spec fn capped_add(a: int, b: int) -> int {
    capped(a + b)
}

/// The product of two counts, held at the largest value.
pub fn capped_product(a: usize, b: usize) -> (r: usize)
    ensures
        r == capped(a * b),
{
    match a.checked_mul(b) {
        Some(product) => product,
        None => usize::MAX,
    }
}

/// The multiply-adds of one prediction: every active neuron and every context row feeds the
/// output, and where there is a context row, its projection does too.
pub open spec fn prediction_madds(
    active: int,
    context_cells: int,
    embedding_dim: int,
    output_classes: int,
) -> int {
    capped_add(
        capped_add(capped(active * output_classes), capped(context_cells * embedding_dim)),
        if context_cells == 0 {
            0
        } else {
            capped(embedding_dim * output_classes)
        },
    )
}

/// The multiply-adds of one prediction.
pub fn output_madds(
    active: usize,
    context_cells: usize,
    embedding_dim: usize,
    output_classes: usize,
) -> (r: usize)
    ensures
        r == prediction_madds(
            active as int,
            context_cells as int,
            embedding_dim as int,
            output_classes as int,
        ),
{
    capped_product(active, output_classes).saturating_add(
        capped_product(context_cells, embedding_dim),
    ).saturating_add(
        if context_cells == 0 {
            0
        } else {
            capped_product(embedding_dim, output_classes)
        },
    )
}

/// The class with the largest probability is at `best`: none is larger, and none before it
/// is as large.
pub open spec fn is_argmax(probabilities: Seq<Scalar>, best: int) -> bool {
    &&& 0 <= best < probabilities.len()
    &&& forall|i: int|
        0 <= i < probabilities.len() ==> (#[trigger] probabilities[i]).total_rank()
            <= probabilities[best].total_rank()
    &&& forall|i: int|
        0 <= i < best ==> (#[trigger] probabilities[i]).total_rank()
            < probabilities[best].total_rank()
}

/// The class with the largest probability, the first of several; zero where there is none.
pub fn argmax_probability(probabilities: &Vec<Scalar>) -> (r: usize)
    ensures
        probabilities.len() == 0 ==> r == 0,
        probabilities.len() > 0 ==> is_argmax(probabilities@, r as int),
{
    let mut best: usize = 0;
    let mut i: usize = 1;
    while i < probabilities.len()
        invariant
            1 <= i,
            probabilities.len() > 0 ==> i <= probabilities.len() && best < i && is_argmax(
                probabilities@.take(i as int),
                best as int,
            ),
            probabilities.len() == 0 ==> best == 0,
        decreases probabilities.len() - i,
    {
        let ghost seen = probabilities@.take(i as int);
        let ghost more = probabilities@.take(i + 1);
        if probabilities[i].total_order() > probabilities[best].total_order() {
            best = i;
        }
        proof {
            assert forall|k: int| 0 <= k < more.len() implies (#[trigger] more[k]).total_rank()
                <= more[best as int].total_rank() by {
                if k < i {
                    assert(seen[k] == more[k]);
                }
            }
            assert forall|k: int| 0 <= k < best implies (#[trigger] more[k]).total_rank()
                < more[best as int].total_rank() by {
                assert(seen[k] == more[k]);
            }
        }
        i = i + 1;
    }
    assert(probabilities.len() > 0 ==> probabilities@.take(probabilities.len() as int)
        =~= probabilities@);
    best
}

/// A neuron that fires on a tick is silent on the next `refractory_ticks` ticks and can
/// fire on the one after them.
pub proof fn law_refractory_time(tick: u64, refractory_ticks: u64, later: u64)
    requires
        tick + refractory_ticks + 1 <= u64::MAX,
    ensures
        tick <= later <= tick + refractory_ticks ==> silent_until(tick, refractory_ticks) > later,
        later > tick + refractory_ticks ==> silent_until(tick, refractory_ticks) <= later,
{
}

} // verus!
