//! What the host shows of a device: the active neurons, the prediction of the last step and the
//! course of a document.

use crate::arithmetic::Numerics;
use crate::error::{LeoError, LeoErrorKind, LeoResult};
use crate::metrics::{capped_sum, StepMetrics, TrainingStatistics};
use crate::parallel::takes_any_pair;
use crate::prediction::{logit_loss, loss_from_logits, loss_of, probability_loss};
use crate::records::{
    metrics_match, takes_any_count, training_record_to_metrics, DeviceState, RecordShape,
    StepRecord, TrainingStepRecord,
};
use crate::runtime::{argmax_probability, is_argmax};
use crate::scalar::Scalar;
use crate::steps::StepNote;
use crate::symbols::Alphabet;
use crate::text::{decimal, with_number};
use vstd::prelude::*;

verus! {

/// The active neurons of the last step, and how active each neuron is.
pub struct HostActivity {
    pub active: Vec<usize>,
    pub activation: Vec<Scalar>,
}

/// The activations with some neurons made silent.
pub open spec fn silenced(activation: Seq<Scalar>, neurons: Seq<usize>, upto: int) -> Seq<Scalar>
    decreases upto,
{
    if upto <= 0 {
        activation
    } else {
        let before = silenced(activation, neurons, upto - 1);
        let neuron = neurons[upto - 1] as int;
        if neuron < before.len() {
            before.update(neuron, Scalar { bits: 0 })
        } else {
            before
        }
    }
}

/// The activations with some neurons made active.
pub open spec fn excited(
    activation: Seq<Scalar>,
    neurons: Seq<u32>,
    values: Seq<Scalar>,
    upto: int,
) -> Seq<Scalar>
    decreases upto,
{
    if upto <= 0 {
        activation
    } else {
        let before = excited(activation, neurons, values, upto - 1);
        let neuron = neurons[upto - 1] as int;
        if neuron < before.len() {
            before.update(neuron, values[upto - 1])
        } else {
            before
        }
    }
}

/// A neuron is in a list.
pub open spec fn lists(neurons: Seq<usize>, neuron: int) -> bool {
    exists|k: int| 0 <= k < neurons.len() && #[trigger] neurons[k] == neuron
}

/// A list as indices.
pub open spec fn indices_of(neurons: Seq<u32>) -> Seq<usize> {
    Seq::new(neurons.len(), |i: int| neurons[i] as usize)
}

proof fn lemma_silenced_len(activation: Seq<Scalar>, neurons: Seq<usize>, upto: int)
    ensures
        silenced(activation, neurons, upto).len() == activation.len(),
    decreases upto,
{
    if upto > 0 {
        lemma_silenced_len(activation, neurons, upto - 1);
    }
}

proof fn lemma_excited_len(
    activation: Seq<Scalar>,
    neurons: Seq<u32>,
    values: Seq<Scalar>,
    upto: int,
)
    ensures
        excited(activation, neurons, values, upto).len() == activation.len(),
    decreases upto,
{
    if upto > 0 {
        lemma_excited_len(activation, neurons, values, upto - 1);
    }
}

proof fn lemma_silenced(activation: Seq<Scalar>, neurons: Seq<usize>, upto: int, i: int)
    requires
        0 <= i < activation.len(),
        0 <= upto <= neurons.len(),
    ensures
        silenced(activation, neurons, upto).len() == activation.len(),
        silenced(activation, neurons, upto)[i] == activation[i] || silenced(
            activation,
            neurons,
            upto,
        )[i] == (Scalar { bits: 0 }),
        (exists|k: int| 0 <= k < upto && #[trigger] neurons[k] == i) ==> silenced(
            activation,
            neurons,
            upto,
        )[i] == (Scalar { bits: 0 }),
    decreases upto,
{
    if upto > 0 {
        lemma_silenced(activation, neurons, upto - 1, i);
        lemma_silenced_len(activation, neurons, upto - 1);
    }
}

proof fn lemma_excited(
    activation: Seq<Scalar>,
    neurons: Seq<u32>,
    values: Seq<Scalar>,
    upto: int,
    i: int,
)
    requires
        0 <= i < activation.len(),
        0 <= upto <= neurons.len(),
        forall|k: int| 0 <= k < upto ==> #[trigger] neurons[k] != i,
    ensures
        excited(activation, neurons, values, upto).len() == activation.len(),
        excited(activation, neurons, values, upto)[i] == activation[i],
    decreases upto,
{
    lemma_excited_len(activation, neurons, values, upto);
    if upto > 0 {
        lemma_excited(activation, neurons, values, upto - 1, i);
        assert(neurons[upto - 1] != i);
    }
}

impl HostActivity {
    /// Nothing is active.
    pub fn new(neurons: usize) -> (r: HostActivity)
        ensures
            r.active@ == Seq::<usize>::empty(),
            r.activation@ == Seq::new(neurons as nat, |i: int| Scalar { bits: 0 }),
    {
        let mut activation: Vec<Scalar> = Vec::new();
        let mut i: usize = 0;
        while i < neurons
            invariant
                i <= neurons,
                activation@ == Seq::new(i as nat, |k: int| Scalar { bits: 0 }),
            decreases neurons - i,
        {
            activation.push(Scalar::zero());
            i = i + 1;
            assert(activation@ =~= Seq::new(i as nat, |k: int| Scalar { bits: 0 }));
        }
        HostActivity { active: Vec::new(), activation }
    }

    /// Only the active neurons are not silent.
    pub open spec fn truthful(self) -> bool {
        forall|i: int|
            0 <= i < self.activation@.len() && (#[trigger] self.activation@[i]) != (Scalar {
                bits: 0,
            }) ==> lists(self.active@, i)
    }

    /// Takes the active neurons of a step over: those of the step before fall silent first.
    pub fn refresh(&mut self, neurons: &Vec<u32>, values: &Vec<Scalar>)
        requires
            neurons.len() == values.len(),
        ensures
            final(self).active@ == indices_of(neurons@),
            final(self).activation@ == excited(
                silenced(old(self).activation@, old(self).active@, old(self).active@.len() as int),
                neurons@,
                values@,
                neurons@.len() as int,
            ),
            final(self).activation@.len() == old(self).activation@.len(),
    {
        let ghost before = self.activation@;
        let ghost shown = self.active@;
        let mut i: usize = 0;
        while i < self.active.len()
            invariant
                i <= self.active.len(),
                self.active@ == shown,
                self.activation@ == silenced(before, shown, i as int),
            decreases self.active.len() - i,
        {
            let neuron: usize = self.active[i];
            proof {
                lemma_silenced_len(before, shown, i as int);
            }
            if neuron < self.activation.len() {
                self.activation.set(neuron, Scalar::zero());
            }
            i = i + 1;
        }
        let ghost quiet = self.activation@;
        let mut active: Vec<usize> = Vec::new();
        let mut k: usize = 0;
        while k < neurons.len()
            invariant
                k <= neurons.len(),
                neurons.len() == values.len(),
                active@ == indices_of(neurons@.take(k as int)),
                self.activation@ == excited(quiet, neurons@, values@, k as int),
            decreases neurons.len() - k,
        {
            let neuron: usize = neurons[k] as usize;
            active.push(neuron);
            proof {
                lemma_excited_len(quiet, neurons@, values@, k as int);
            }
            if neuron < self.activation.len() {
                self.activation.set(neuron, values[k]);
            }
            k = k + 1;
            assert(active@ =~= indices_of(neurons@.take(k as int)));
        }
        assert(neurons@.take(k as int) =~= neurons@);
        self.active = active;
        proof {
            lemma_silenced_len(before, shown, shown.len() as int);
            lemma_excited_len(quiet, neurons@, values@, neurons@.len() as int);
        }
    }

    /// Makes every neuron silent.
    pub fn clear(&mut self)
        ensures
            final(self).active@ == Seq::<usize>::empty(),
            final(self).activation@ == Seq::new(
                old(self).activation@.len(),
                |i: int| Scalar { bits: 0 },
            ),
    {
        *self = HostActivity::new(self.activation.len());
    }

    /// How active a neuron is: a neuron that there is not is silent.
    pub fn activation(&self, neuron: usize) -> (r: Scalar)
        ensures
            r == if neuron < self.activation@.len() {
                self.activation@[neuron as int]
            } else {
                Scalar { bits: 0 }
            },
    {
        if neuron < self.activation.len() {
            self.activation[neuron]
        } else {
            Scalar::zero()
        }
    }
}

/// A neuron that is not active in a step is silent after it, whatever it was before.
pub proof fn law_refreshed_activity_is_truthful(
    h: HostActivity,
    neurons: Seq<u32>,
    values: Seq<Scalar>,
    i: int,
)
    requires
        h.truthful(),
        0 <= i < h.activation@.len(),
        forall|k: int| 0 <= k < neurons.len() ==> #[trigger] neurons[k] != i,
    ensures
        excited(
            silenced(h.activation@, h.active@, h.active@.len() as int),
            neurons,
            values,
            neurons.len() as int,
        )[i] == (Scalar { bits: 0 }),
{
    let quiet = silenced(h.activation@, h.active@, h.active@.len() as int);
    lemma_silenced(h.activation@, h.active@, h.active@.len() as int, i);
    lemma_excited(quiet, neurons, values, neurons.len() as int, i);
}

/// What a host reads of a single step.
#[derive(Debug, Clone, Copy, PartialEq, Eq, Structural)]
pub struct StepCounters {
    pub suprathreshold: u32,
    pub block_selected: u32,
    pub global_clipped: u32,
    pub context_probes: u32,
    pub eligible_recurrent: u32,
    pub eligible_input: u32,
    pub learning_eligibility_count: u32,
    pub learning_eligibility_abs_sum: Scalar,
}

/// The numbers of a single step besides its counters.
#[derive(Debug, Clone, Copy, PartialEq, Eq, Structural)]
pub struct StepReading {
    pub population_inhibition: Scalar,
    pub active_count: u32,
    pub context_count: u32,
    pub error_flag: u32,
    pub counters: StepCounters,
}

/// The loss of the target under what was predicted, and the loss that the neurons alone would have.
/// Without a target there is none.
pub open spec fn losses_of<T: Numerics>(
    ops: T,
    probabilities: Seq<Scalar>,
    neural_logits: Seq<Scalar>,
    target: Option<usize>,
) -> (Scalar, Scalar) {
    match target {
        Some(class) => (
            loss_of(ops, probabilities[class as int]),
            logit_loss(ops, neural_logits, class as int),
        ),
        None => (Scalar { bits: 0 }, Scalar { bits: 0 }),
    }
}

/// The record that a kernel would have left of the step.
pub open spec fn record_of(
    reading: StepReading,
    losses: (Scalar, Scalar),
    predicted: u32,
) -> TrainingStepRecord {
    TrainingStepRecord {
        loss: losses.0,
        neural_loss: losses.1,
        population_inhibition: reading.population_inhibition,
        learning_eligibility_abs_sum: reading.counters.learning_eligibility_abs_sum,
        predicted_index: predicted,
        active_count: reading.active_count,
        suprathreshold: reading.counters.suprathreshold,
        block_selected: reading.counters.block_selected,
        global_clipped: reading.counters.global_clipped,
        context_cells: reading.context_count,
        context_probes: reading.counters.context_probes,
        eligible_recurrent: reading.counters.eligible_recurrent,
        eligible_input: reading.counters.eligible_input,
        learning_eligibility_count: reading.counters.learning_eligibility_count,
        error_code: reading.error_flag,
    }
}

/// The metrics of a step of which the class `predicted` is the most probable.
pub open spec fn step_collected<
    T: Numerics,
    S: Fn(Scalar, Scalar) -> Scalar,
    Q: Fn(Scalar, u32) -> Scalar,
>(
    ops: T,
    s: S,
    q: Q,
    a: Alphabet,
    shape: RecordShape,
    probabilities: Seq<Scalar>,
    neural_logits: Seq<Scalar>,
    reading: StepReading,
    note: StepNote,
    m: StepMetrics,
) -> bool {
    let losses = losses_of(ops, probabilities, neural_logits, note.target_index);
    exists|predicted: u32|
        #![trigger record_of(reading, losses, predicted)]
        is_argmax(probabilities, predicted as int) && metrics_match(
            s,
            q,
            a,
            shape,
            StepRecord::Full(record_of(reading, losses, predicted)),
            note,
            m,
        )
}

/// Reads a single step. A number that is not finite is counted and refused.
pub fn collect_step_metrics<
    T: Numerics,
    S: Fn(Scalar, Scalar) -> Scalar,
    Q: Fn(Scalar, u32) -> Scalar,
>(
    ops: &T,
    state: &mut DeviceState,
    alphabet: &Alphabet,
    shape: &RecordShape,
    probabilities: &Vec<Scalar>,
    neural_logits: &Vec<Scalar>,
    reading: &StepReading,
    note: &StepNote,
    subtract: &S,
    divide: &Q,
) -> (r: LeoResult<StepMetrics>)
    requires
        ops.ready(),
        takes_any_pair(*subtract),
        takes_any_count(*divide),
        0 < probabilities.len() <= u32::MAX,
        probabilities.len() == alphabet.symbol_of.len(),
        note.target_index matches Some(class) ==> class < probabilities.len() && class
            < neural_logits.len(),
    ensures
        reading.error_flag != 0 ==> {
            &&& *final(state) == old(state).rejected()
            &&& crate::error::fails(
                r,
                LeoErrorKind::Cuda,
                "CUDA learning update rejected a non-finite value (code "@ + decimal(
                    reading.error_flag as nat,
                ) + ")"@,
            )
        },
        reading.error_flag == 0 ==> {
            &&& *final(state) == *old(state)
            &&& r matches Ok(m) && step_collected(
                *ops,
                *subtract,
                *divide,
                *alphabet,
                *shape,
                probabilities@,
                neural_logits@,
                *reading,
                *note,
                m,
            )
        },
{
    if reading.error_flag != 0 {
        state.statistics.numerical_rejections =
            state.statistics.numerical_rejections.saturating_add(1);
        return Err(
            LeoError::cuda(
                with_number(
                    "CUDA learning update rejected a non-finite value (code ",
                    reading.error_flag as u64,
                    ")",
                ),
            ),
        );
    }
    let predicted: u32 = argmax_probability(probabilities) as u32;
    let (loss, neural_loss): (Scalar, Scalar) = match note.target_index {
        Some(class) => (
            probability_loss(ops, probabilities[class]),
            loss_from_logits(ops, neural_logits, class),
        ),
        None => (Scalar::zero(), Scalar::zero()),
    };
    let record: TrainingStepRecord = TrainingStepRecord {
        loss,
        neural_loss,
        population_inhibition: reading.population_inhibition,
        learning_eligibility_abs_sum: reading.counters.learning_eligibility_abs_sum,
        predicted_index: predicted,
        active_count: reading.active_count,
        suprathreshold: reading.counters.suprathreshold,
        block_selected: reading.counters.block_selected,
        global_clipped: reading.counters.global_clipped,
        context_cells: reading.context_count,
        context_probes: reading.counters.context_probes,
        eligible_recurrent: reading.counters.eligible_recurrent,
        eligible_input: reading.counters.eligible_input,
        learning_eligibility_count: reading.counters.learning_eligibility_count,
        error_code: reading.error_flag,
    };
    assert(record == record_of(
        *reading,
        losses_of(*ops, probabilities@, neural_logits@, note.target_index),
        predicted,
    ));
    let metrics: StepMetrics = training_record_to_metrics(
        alphabet,
        shape,
        &record,
        note,
        subtract,
        divide,
    );
    Ok(metrics)
}

/// The state after a document: it counts where it has learning steps.
pub open spec fn after_document(s: DeviceState) -> DeviceState {
    DeviceState {
        statistics: TrainingStatistics {
            processed_stories: if s.document_activity {
                capped_sum(s.statistics.processed_stories, 1)
            } else {
                s.statistics.processed_stories
            },
            ..s.statistics
        },
        document_activity: false,
        ..s
    }
}

/// Opens a document: nothing is active, and no step has been taken.
pub fn begin_document(state: &mut DeviceState, activity: &mut HostActivity)
    ensures
        *final(state) == (DeviceState { document_activity: false, ..*old(state) }),
        final(activity).active@ == Seq::<usize>::empty(),
        final(activity).activation@ == Seq::new(
            old(activity).activation@.len(),
            |i: int| Scalar { bits: 0 },
        ),
{
    activity.clear();
    state.document_activity = false;
}

/// Closes a document.
pub fn finish_document(state: &mut DeviceState, activity: &mut HostActivity)
    ensures
        *final(state) == after_document(*old(state)),
        final(activity).active@ == Seq::<usize>::empty(),
        final(activity).activation@ == Seq::new(
            old(activity).activation@.len(),
            |i: int| Scalar { bits: 0 },
        ),
{
    if state.document_activity {
        state.statistics.processed_stories = state.statistics.processed_stories.saturating_add(1);
    }
    begin_document(state, activity);
}

/// A document is counted once, however often it is closed.
pub proof fn law_documents_count_once(s: DeviceState)
    ensures
        after_document(after_document(s)) == after_document(s),
{
}

} // verus!
