//! The records that a device leaves of its steps, and what the host makes of them.

use crate::context::capped;
use crate::error::{LeoError, LeoErrorKind, LeoResult};
use crate::metrics::{capped_sum, StepMetrics, TrainingStatistics, WideScalar};
use crate::parallel::{gives, takes_any_pair};
use crate::runtime::{capped_product, output_madds, prediction_madds};
use crate::scalar::Scalar;
use crate::steps::StepNote;
use crate::symbols::Alphabet;
use crate::text::{decimal, with_number};
use vstd::prelude::*;

verus! {

/// The full record of a training step.
#[derive(Debug, Clone, Copy, PartialEq, Eq, Structural)]
pub struct TrainingStepRecord {
    pub loss: Scalar,
    pub neural_loss: Scalar,
    pub population_inhibition: Scalar,
    pub learning_eligibility_abs_sum: Scalar,
    pub predicted_index: u32,
    pub active_count: u32,
    pub suprathreshold: u32,
    pub block_selected: u32,
    pub global_clipped: u32,
    pub context_cells: u32,
    pub context_probes: u32,
    pub eligible_recurrent: u32,
    pub eligible_input: u32,
    pub learning_eligibility_count: u32,
    pub error_code: u32,
}

/// The short record of a training step: the loss of its target, the size of its activity, and
/// the sticky numerical error code.
#[derive(Debug, Clone, Copy, PartialEq, Eq, Structural)]
pub struct FastTrainingStepRecord {
    pub loss: Scalar,
    pub active_count: u32,
    pub error_code: u32,
}

/// The record of a step.
#[derive(Debug, Clone, Copy, PartialEq, Eq, Structural)]
pub enum StepRecord {
    Full(TrainingStepRecord),
    Fast(FastTrainingStepRecord),
}

/// The sizes of a model that a record is read with.
#[derive(Debug, Clone, Copy, PartialEq, Eq, Structural)]
pub struct RecordShape {
    pub embedding_dim: usize,
    pub synapses_per_neuron: usize,
}

impl StepRecord {
    /// The error code of the step; zero where the step went through.
    pub open spec fn code(self) -> u32 {
        match self {
            StepRecord::Full(r) => r.error_code,
            StepRecord::Fast(r) => r.error_code,
        }
    }

    /// The error code of the step.
    pub fn error_code(&self) -> (r: u32)
        ensures
            r == self.code(),
    {
        match self {
            StepRecord::Full(r) => r.error_code,
            StepRecord::Fast(r) => r.error_code,
        }
    }

    /// The predicted class is one of the alphabet's.
    pub open spec fn readable(self, a: Alphabet) -> bool {
        self matches StepRecord::Full(r) ==> r.predicted_index < a.symbol_of.len()
    }

    /// The loss that the record gives.
    pub open spec fn loss_of(self) -> Scalar {
        match self {
            StepRecord::Full(r) => r.loss,
            StepRecord::Fast(r) => r.loss,
        }
    }
}

/// The quotient can be asked for.
pub open spec fn takes_any_count<Q: Fn(Scalar, u32) -> Scalar>(q: Q) -> bool {
    forall|a: Scalar, n: u32| #[trigger] call_requires(q, (a, n))
}

/// The sum can be asked for.
pub open spec fn takes_any_loss<A: Fn(WideScalar, Scalar) -> WideScalar>(a: A) -> bool {
    forall|sum: WideScalar, loss: Scalar| #[trigger] call_requires(a, (sum, loss))
}

/// By how much the context lowered the loss: nothing without a target.
pub open spec fn gain_of<S: Fn(Scalar, Scalar) -> Scalar>(
    s: S,
    r: TrainingStepRecord,
    note: StepNote,
    gain: Scalar,
) -> bool {
    if note.target_index is Some {
        gives(s, r.neural_loss, r.loss, gain)
    } else {
        gain == (Scalar { bits: 0 })
    }
}

/// The mean eligibility of the synapses that a learning step changed.
pub open spec fn eligibility_of<Q: Fn(Scalar, u32) -> Scalar>(
    q: Q,
    r: TrainingStepRecord,
    note: StepNote,
    mean: Scalar,
) -> bool {
    if note.learned && r.learning_eligibility_count > 0 {
        call_ensures(
            q,
            (r.learning_eligibility_abs_sum, r.learning_eligibility_count),
            mean,
        )
    } else {
        mean == (Scalar { bits: 0 })
    }
}

/// The metrics of a full record.
pub open spec fn full_metrics(
    a: Alphabet,
    shape: RecordShape,
    r: TrainingStepRecord,
    note: StepNote,
    gain: Scalar,
    mean: Scalar,
) -> StepMetrics {
    StepMetrics {
        loss: if note.target_index is Some {
            Some(r.loss)
        } else {
            None
        },
        predicted_symbol: a.symbol_of[r.predicted_index as int],
        active_neurons: r.active_count as usize,
        emitted_events: capped(r.active_count * shape.synapses_per_neuron) as usize,
        suprathreshold_neurons: r.suprathreshold as usize,
        block_selected_neurons: r.block_selected as usize,
        global_cap_clipped_neurons: r.global_clipped as usize,
        population_inhibition: r.population_inhibition,
        context_cells: r.context_cells as usize,
        context_probes: r.context_probes as usize,
        context_applied: note.context_enabled,
        context_loss_gain: gain,
        output_madds: prediction_madds(
            r.active_count as int,
            r.context_cells as int,
            shape.embedding_dim as int,
            a.output_classes as int,
        ) as usize,
        eligible_recurrent_synapses: r.eligible_recurrent as usize,
        eligible_input_synapses: r.eligible_input as usize,
        mean_abs_eligibility: mean,
    }
}

/// The metrics of a short record: loss, activity and events; the rest is blank.
pub open spec fn fast_metrics(
    shape: RecordShape,
    r: FastTrainingStepRecord,
    note: StepNote,
) -> StepMetrics {
    StepMetrics {
        loss: if note.target_index is Some {
            Some(r.loss)
        } else {
            None
        },
        active_neurons: r.active_count as usize,
        emitted_events: capped(r.active_count * shape.synapses_per_neuron) as usize,
        context_applied: note.context_enabled,
        ..StepMetrics::blank()
    }
}

/// The metrics are those of the record.
pub open spec fn metrics_match<
    S: Fn(Scalar, Scalar) -> Scalar,
    Q: Fn(Scalar, u32) -> Scalar,
>(
    s: S,
    q: Q,
    a: Alphabet,
    shape: RecordShape,
    record: StepRecord,
    note: StepNote,
    m: StepMetrics,
) -> bool {
    match record {
        StepRecord::Full(r) => {
            &&& gain_of(s, r, note, m.context_loss_gain)
            &&& eligibility_of(q, r, note, m.mean_abs_eligibility)
            &&& m == full_metrics(
                a,
                shape,
                r,
                note,
                m.context_loss_gain,
                m.mean_abs_eligibility,
            )
        },
        StepRecord::Fast(r) => m == fast_metrics(shape, r, note),
    }
}

/// What a full record says of its step.
pub fn training_record_to_metrics<
    S: Fn(Scalar, Scalar) -> Scalar,
    Q: Fn(Scalar, u32) -> Scalar,
>(
    alphabet: &Alphabet,
    shape: &RecordShape,
    record: &TrainingStepRecord,
    note: &StepNote,
    subtract: &S,
    divide: &Q,
) -> (r: StepMetrics)
    requires
        takes_any_pair(*subtract),
        takes_any_count(*divide),
        record.predicted_index < alphabet.symbol_of.len(),
    ensures
        metrics_match(
            *subtract,
            *divide,
            *alphabet,
            *shape,
            StepRecord::Full(*record),
            *note,
            r,
        ),
{
    let context_loss_gain: Scalar = if note.target_index.is_some() {
        assert(call_requires(*subtract, (record.neural_loss, record.loss)));
        let gain: Scalar = subtract(record.neural_loss, record.loss);
        assert(gives(*subtract, record.neural_loss, record.loss, gain));
        gain
    } else {
        Scalar::zero()
    };
    let mean_abs_eligibility: Scalar = if note.learned && record.learning_eligibility_count > 0 {
        assert(call_requires(
            *divide,
            (record.learning_eligibility_abs_sum, record.learning_eligibility_count),
        ));
        divide(record.learning_eligibility_abs_sum, record.learning_eligibility_count)
    } else {
        Scalar::zero()
    };
    let active_count: usize = record.active_count as usize;
    let context_cells: usize = record.context_cells as usize;
    StepMetrics {
        loss: if note.target_index.is_some() {
            Some(record.loss)
        } else {
            None
        },
        predicted_symbol: alphabet.symbol_of[record.predicted_index as usize],
        active_neurons: active_count,
        emitted_events: capped_product(active_count, shape.synapses_per_neuron),
        suprathreshold_neurons: record.suprathreshold as usize,
        block_selected_neurons: record.block_selected as usize,
        global_cap_clipped_neurons: record.global_clipped as usize,
        population_inhibition: record.population_inhibition,
        context_cells,
        context_probes: record.context_probes as usize,
        context_applied: note.context_enabled,
        context_loss_gain,
        output_madds: output_madds(
            active_count,
            context_cells,
            shape.embedding_dim,
            alphabet.output_classes,
        ),
        eligible_recurrent_synapses: record.eligible_recurrent as usize,
        eligible_input_synapses: record.eligible_input as usize,
        mean_abs_eligibility,
    }
}

/// What a short record says of its step.
pub fn fast_training_record_to_metrics(
    shape: &RecordShape,
    record: &FastTrainingStepRecord,
    note: &StepNote,
) -> (r: StepMetrics)
    ensures
        r == fast_metrics(*shape, *record, *note),
{
    let active_count: usize = record.active_count as usize;
    let blank: StepMetrics = StepMetrics::default();
    StepMetrics {
        loss: if note.target_index.is_some() {
            Some(record.loss)
        } else {
            None
        },
        active_neurons: active_count,
        emitted_events: capped_product(active_count, shape.synapses_per_neuron),
        context_applied: note.context_enabled,
        ..blank
    }
}

/// What the host keeps of a device's progress.
#[derive(Debug, Clone, Copy, PartialEq, Eq, Structural)]
pub struct DeviceState {
    pub current_tick: u64,
    pub parameter_revision: u64,
    pub statistics: TrainingStatistics,
    /// The output bias has changed since the host model was last synchronized.
    pub output_bias_dirty: bool,
    /// The context projection has changed since the host model was last synchronized.
    pub context_output_dirty: bool,
    /// The current document has learning steps.
    pub document_activity: bool,
    /// The current and the next list of eligible synapses have changed places.
    pub lists_swapped: bool,
}

impl DeviceState {
    /// The state after a launch: the clock and the revision advance, what was learned is not
    /// on the host yet, and an odd number of trace steps swaps the eligibility lists.
    pub open spec fn after_launch(
        self,
        steps: usize,
        trace_steps: usize,
        learned_steps: u64,
        context_learning: bool,
    ) -> DeviceState {
        DeviceState {
            current_tick: capped_sum(self.current_tick, steps as u64),
            parameter_revision: capped_sum(self.parameter_revision, learned_steps),
            output_bias_dirty: self.output_bias_dirty || learned_steps > 0,
            context_output_dirty: self.context_output_dirty || (learned_steps > 0
                && context_learning),
            lists_swapped: self.lists_swapped != (trace_steps % 2 == 1),
            ..self
        }
    }

    /// Records a launch of `steps` steps, `trace_steps` of which kept traces.
    pub fn record_launch(
        &mut self,
        steps: usize,
        trace_steps: usize,
        learned_steps: u64,
        context_learning: bool,
    )
        ensures
            *final(self) == old(self).after_launch(
                steps,
                trace_steps,
                learned_steps,
                context_learning,
            ),
    {
        self.current_tick = self.current_tick.saturating_add(steps as u64);
        self.parameter_revision = self.parameter_revision.saturating_add(learned_steps);
        if learned_steps > 0 {
            self.output_bias_dirty = true;
            if context_learning {
                self.context_output_dirty = true;
            }
        }
        if trace_steps % 2 == 1 {
            self.lists_swapped = !self.lists_swapped;
        }
    }

    /// The state after a step was refused because a number was not finite.
    pub open spec fn rejected(self) -> DeviceState {
        DeviceState {
            statistics: TrainingStatistics {
                numerical_rejections: capped_sum(self.statistics.numerical_rejections, 1),
                ..self.statistics
            },
            ..self
        }
    }

    /// The state after a learning step with these metrics.
    pub open spec fn after_step(
        self,
        symbol: u32,
        loss_sum: Option<WideScalar>,
        m: StepMetrics,
    ) -> DeviceState {
        DeviceState {
            statistics: self.statistics.after_step(
                symbol,
                loss_sum,
                m.active_neurons,
                m.emitted_events,
            ),
            document_activity: true,
            ..self
        }
    }

    /// The state after the record of a step was read.
    pub open spec fn step_read<A: Fn(WideScalar, Scalar) -> WideScalar>(
        self,
        raise: A,
        note: StepNote,
        m: StepMetrics,
        learning_trace: bool,
        after: DeviceState,
    ) -> bool {
        if !learning_trace {
            after == self
        } else {
            match m.loss {
                None => after == self.after_step(note.symbol, None, m),
                Some(loss) => call_ensures(
                    raise,
                    (self.statistics.training_loss_sum, loss),
                    after.statistics.training_loss_sum,
                ) && after == self.after_step(
                    note.symbol,
                    Some(after.statistics.training_loss_sum),
                    m,
                ),
            }
        }
    }

    /// Enters the metrics of a step.
    pub fn enter_step<A: Fn(WideScalar, Scalar) -> WideScalar>(
        &mut self,
        note: &StepNote,
        m: &StepMetrics,
        learning_trace: bool,
        raise: &A,
    )
        requires
            takes_any_loss(*raise),
        ensures
            old(self).step_read(*raise, *note, *m, learning_trace, *final(self)),
    {
        if learning_trace {
            self.document_activity = true;
            let loss_sum: Option<WideScalar> = match m.loss {
                None => None,
                Some(loss) => {
                    let sum: WideScalar = self.statistics.training_loss_sum;
                    assert(call_requires(*raise, (sum, loss)));
                    Some(raise(sum, loss))
                },
            };
            self.statistics.record_step(note.symbol, loss_sum, m.active_neurons, m.emitted_events);
        }
    }
}

/// The steps that came before a place went through: each note has its metrics, and the state
/// moved from one to the next.
pub open spec fn records_read<
    S: Fn(Scalar, Scalar) -> Scalar,
    Q: Fn(Scalar, u32) -> Scalar,
    A: Fn(WideScalar, Scalar) -> WideScalar,
>(
    s: S,
    q: Q,
    raise: A,
    a: Alphabet,
    shape: RecordShape,
    notes: Seq<Option<StepNote>>,
    records: Seq<StepRecord>,
    learning_trace: bool,
    states: Seq<DeviceState>,
    metrics: Seq<Option<StepMetrics>>,
) -> bool {
    &&& states.len() == metrics.len() + 1
    &&& forall|k: int|
        0 <= k < metrics.len() ==> record_read(
            s,
            q,
            raise,
            a,
            shape,
            notes[k],
            records[k],
            learning_trace,
            states[k],
            states[next(k)],
            #[trigger] metrics[k],
        )
}

/// The place after another.
pub open spec fn next(k: int) -> int {
    k + 1
}

/// The record of one step was read: a step without a note leaves everything as it is.
pub open spec fn record_read<
    S: Fn(Scalar, Scalar) -> Scalar,
    Q: Fn(Scalar, u32) -> Scalar,
    A: Fn(WideScalar, Scalar) -> WideScalar,
>(
    s: S,
    q: Q,
    raise: A,
    a: Alphabet,
    shape: RecordShape,
    note: Option<StepNote>,
    record: StepRecord,
    learning_trace: bool,
    before: DeviceState,
    after: DeviceState,
    metrics: Option<StepMetrics>,
) -> bool {
    match (note, metrics) {
        (Some(n), Some(m)) => {
            &&& record.code() == 0
            &&& metrics_match(s, q, a, shape, record, n, m)
            &&& before.step_read(raise, n, m, learning_trace, after)
        },
        (None, None) => after == before,
        _ => false,
    }
}

/// The metrics that are there.
pub open spec fn kept_metrics(metrics: Seq<Option<StepMetrics>>) -> Seq<StepMetrics>
    decreases metrics.len(),
{
    if metrics.len() == 0 {
        seq![]
    } else {
        match metrics.last() {
            Some(m) => kept_metrics(metrics.drop_last()).push(m),
            None => kept_metrics(metrics.drop_last()),
        }
    }
}

/// What reading the records of a launch gives.
pub open spec fn reading_result<
    S: Fn(Scalar, Scalar) -> Scalar,
    Q: Fn(Scalar, u32) -> Scalar,
    A: Fn(WideScalar, Scalar) -> WideScalar,
>(
    s: S,
    q: Q,
    raise: A,
    a: Alphabet,
    shape: RecordShape,
    notes: Seq<Option<StepNote>>,
    records: Seq<StepRecord>,
    learning_trace: bool,
    head: Seq<char>,
    before: DeviceState,
    after: DeviceState,
    r: LeoResult<Vec<StepMetrics>>,
) -> bool {
    exists|states: Seq<DeviceState>, metrics: Seq<Option<StepMetrics>>|
        {
            &&& #[trigger] records_read(
                s,
                q,
                raise,
                a,
                shape,
                notes,
                records,
                learning_trace,
                states,
                metrics,
            )
            &&& states[0] == before
            &&& match r {
                Ok(list) => {
                    &&& metrics.len() == notes.len()
                    &&& after == states.last()
                    &&& list@ == kept_metrics(metrics)
                },
                Err(e) => {
                    let at = metrics.len() as int;
                    &&& at < notes.len()
                    &&& notes[at] is Some
                    &&& records[at].code() != 0
                    &&& after == states.last().rejected()
                    &&& e.says(
                        LeoErrorKind::Cuda,
                        head + decimal(records[at].code() as nat) + ")"@,
                    )
                },
            }
        }
}

impl DeviceState {
    /// Reads the records of a launch. A record with an error code ends the reading: the
    /// rejection is counted and the error carries `head` and the code.
    pub fn read_records<
        S: Fn(Scalar, Scalar) -> Scalar,
        Q: Fn(Scalar, u32) -> Scalar,
        A: Fn(WideScalar, Scalar) -> WideScalar,
    >(
        &mut self,
        alphabet: &Alphabet,
        shape: &RecordShape,
        notes: &Vec<Option<StepNote>>,
        records: &Vec<StepRecord>,
        learning_trace: bool,
        head: &str,
        subtract: &S,
        divide: &Q,
        raise: &A,
    ) -> (r: LeoResult<Vec<StepMetrics>>)
        requires
            takes_any_pair(*subtract),
            takes_any_count(*divide),
            takes_any_loss(*raise),
            notes.len() == records.len(),
            forall|k: int|
                0 <= k < records.len() && notes@[k] is Some && records@[k].code() == 0
                    ==> #[trigger] records@[k].readable(*alphabet),
        ensures
            reading_result(
                *subtract,
                *divide,
                *raise,
                *alphabet,
                *shape,
                notes@,
                records@,
                learning_trace,
                head@,
                *old(self),
                *final(self),
                r,
            ),
    {
        let mut list: Vec<StepMetrics> = Vec::new();
        let ghost mut states: Seq<DeviceState> = seq![*self];
        let ghost mut metrics: Seq<Option<StepMetrics>> = seq![];
        let mut k: usize = 0;
        while k < notes.len()
            invariant
                takes_any_pair(*subtract),
                takes_any_count(*divide),
                takes_any_loss(*raise),
                notes.len() == records.len(),
                forall|k: int|
                    0 <= k < records.len() && notes@[k] is Some && records@[k].code() == 0
                        ==> #[trigger] records@[k].readable(*alphabet),
                k <= notes.len(),
                metrics.len() == k,
                states.len() == k + 1,
                states[0] == *old(self),
                states[k as int] == *self,
                records_read(
                    *subtract,
                    *divide,
                    *raise,
                    *alphabet,
                    *shape,
                    notes@,
                    records@,
                    learning_trace,
                    states,
                    metrics,
                ),
                list@ == kept_metrics(metrics),
            decreases notes.len() - k,
        {
            let ghost earlier_states = states;
            let ghost earlier = metrics;
            let ghost before = *self;
            let note: Option<StepNote> = notes[k];
            let record: StepRecord = records[k];
            let ghost mut row: Option<StepMetrics> = None;
            if let Some(n) = note {
                let code: u32 = record.error_code();
                if code != 0 {
                    self.statistics.record_rejection();
                    assert(*self == before.rejected());
                    assert(states.last() == before);
                    return Err(LeoError::cuda(with_number(head, code as u64, ")")));
                }
                assert(records@[k as int].readable(*alphabet));
                let m: StepMetrics = match &record {
                    StepRecord::Full(full) => training_record_to_metrics(
                        alphabet,
                        shape,
                        full,
                        &n,
                        subtract,
                        divide,
                    ),
                    StepRecord::Fast(fast) => fast_training_record_to_metrics(shape, fast, &n),
                };
                self.enter_step(&n, &m, learning_trace, raise);
                list.push(m);
                proof {
                    row = Some(m);
                }
            }
            proof {
                states = earlier_states.push(*self);
                metrics = earlier.push(row);
                assert(metrics.drop_last() =~= earlier);
                assert forall|j: int| 0 <= j < metrics.len() implies record_read(
                    *subtract,
                    *divide,
                    *raise,
                    *alphabet,
                    *shape,
                    notes@[j],
                    records@[j],
                    learning_trace,
                    states[j],
                    states[next(j)],
                    #[trigger] metrics[j],
                ) by {
                    if j < k {
                        assert(metrics[j] == earlier[j]);
                        assert(states[j] == earlier_states[j]);
                        assert(states[next(j)] == earlier_states[next(j)]);
                    } else {
                        assert(states[j] == before);
                        assert(states[next(j)] == *self);
                    }
                }
            }
            k = k + 1;
        }
        assert(states.last() == *self);
        Ok(list)
    }
}

/// Notes that are all there.
pub open spec fn some_notes(notes: Seq<StepNote>) -> Seq<Option<StepNote>> {
    Seq::new(notes.len(), |i: int| Some(notes[i]))
}

/// Notes that are all there.
pub fn to_some_notes(notes: &Vec<StepNote>) -> (r: Vec<Option<StepNote>>)
    ensures
        r@ == some_notes(notes@),
{
    let mut out: Vec<Option<StepNote>> = Vec::new();
    let mut i: usize = 0;
    while i < notes.len()
        invariant
            i <= notes.len(),
            out.len() == i,
            forall|k: int| 0 <= k < i ==> #[trigger] out@[k] == Some(notes@[k]),
        decreases notes.len() - i,
    {
        out.push(Some(notes[i]));
        i = i + 1;
    }
    assert(out@ =~= some_notes(notes@));
    out
}

/// A launch that learns nothing leaves the revision and the host's flags as they are.
pub proof fn law_idle_launch_changes_no_parameters(s: DeviceState, steps: usize, trace: usize, c: bool)
    ensures
        s.after_launch(steps, trace, 0, c).parameter_revision == s.parameter_revision,
        s.after_launch(steps, trace, 0, c).output_bias_dirty == s.output_bias_dirty,
        s.after_launch(steps, trace, 0, c).context_output_dirty == s.context_output_dirty,
        s.after_launch(steps, trace, 0, c).statistics == s.statistics,
{
}

/// Two launches swap the eligibility lists as one launch of all their steps does.
pub proof fn law_swaps_add_up(s: DeviceState, a: usize, b: usize, n: u64, m: u64, c: bool, d: bool)
    requires
        a + b <= usize::MAX,
        s.current_tick + a + b <= u64::MAX,
    ensures
        s.after_launch(a, a, n, c).after_launch(b, b, m, d).lists_swapped == s.after_launch(
            (a + b) as usize,
            (a + b) as usize,
            0,
            false,
        ).lists_swapped,
        s.after_launch(a, a, n, c).after_launch(b, b, m, d).current_tick == s.after_launch(
            (a + b) as usize,
            (a + b) as usize,
            0,
            false,
        ).current_tick,
{
}

} // verus!
