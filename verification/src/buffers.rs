//! The buffers of a device: which there are, how large each is, who owns it and when it is
//! cleared.

use crate::backend::GPU_STORY_BATCH_MAX_LANES;
use crate::context::capped;
use crate::device::{allocation, allocation_bytes};
use crate::model::Model;
use crate::runtime::capped_product;
use crate::steps::TRAINING_STEP_BATCH_CAPACITY;
use crate::symbols::Alphabet;
use vstd::prelude::*;

verus! {

/// The buckets of a delay ring on a device.
pub const RING_BUCKETS: usize = 9;

/// The branches of a neuron.
pub const BRANCHES: usize = 4;

/// How many counters the phases of a wavefront are measured with.
pub const PHASE_PROFILE_COUNTERS: usize = 10;

/// How many counters the phases of a replay are measured with.
pub const REPLAY_PROFILE_COUNTERS: usize = 17;

/// What a model learns.
#[derive(Debug, Clone, Copy, PartialEq, Eq, Structural)]
pub enum LearnedBuffer {
    Threshold,
    RecurrentWeight,
    InputWeight,
    OutputWeight,
    OutputBias,
    ContextKeys,
    ContextEmbeddings,
    ContextObservations,
    ContextOutputWeight,
}

/// What of a model never changes.
#[derive(Debug, Clone, Copy, PartialEq, Eq, Structural)]
pub enum TopologyBuffer {
    Excitability,
    NeuronType,
    RecurrentTarget,
    RecurrentBranch,
    RecurrentDelay,
    InputTarget,
    InputBranch,
}

/// The state of the neurons.
#[derive(Debug, Clone, Copy, PartialEq, Eq, Structural)]
pub enum StateBuffer {
    Membrane,
    Activation,
    Fatigue,
    RefractoryUntil,
    Branches,
    BranchDelta,
    BranchLastTick,
    NeuronLastTick,
    AdaptationFast,
    AdaptationMedium,
    AdaptationSlow,
    TouchedEpoch,
    TouchedList,
    TouchedCount,
    SelectedEpoch,
    Surrogate,
    CandidateActivation,
    Active,
    ActiveValue,
    ActiveCount,
    BlockWinnerNeuron,
    BlockWinnerValue,
    BlockCutoff,
    PopulationCutoff,
    PopulationInhibition,
}

/// What a kind of synapse remembers of its past.
#[derive(Debug, Clone, Copy, PartialEq, Eq, Structural)]
pub enum TraceBuffer {
    BranchSensitivity,
    MembraneSensitivity,
    FatigueSensitivity,
    AdaptationFastSensitivity,
    AdaptationMediumSensitivity,
    AdaptationSlowSensitivity,
    Eligibility,
    LastTick,
    EligibleMark,
    EligibleList,
    EligibleCount,
    NextEligibleList,
    NextEligibleCount,
}

/// The events that are on their way.
#[derive(Debug, Clone, Copy, PartialEq, Eq, Structural)]
pub enum RingBuffer {
    Count,
    Source,
    Activation,
    Weight,
}

/// The state of the context memory.
#[derive(Debug, Clone, Copy, PartialEq, Eq, Structural)]
pub enum ContextBuffer {
    History,
    HistoryCount,
    ActiveSlots,
    ActiveScales,
    ActiveCount,
    Latent,
    Gradient,
}

/// What a step predicts and what it learns from.
#[derive(Debug, Clone, Copy, PartialEq, Eq, Structural)]
pub enum OutputBuffer {
    NeuralLogits,
    Logits,
    Probabilities,
    Errors,
    DestinationEpoch,
    DestinationList,
    DestinationCount,
    LearningSignal,
    Counters,
    ErrorFlag,
}

/// The steps handed to a kernel, and what it hands back.
#[derive(Debug, Clone, Copy, PartialEq, Eq, Structural)]
pub enum RecordBuffer {
    TrainingRecords,
    PersistentSteps,
    PersistentPointers,
}

/// What a story batch keeps for its lanes.
#[derive(Debug, Clone, Copy, PartialEq, Eq, Structural)]
pub enum BatchBuffer {
    PointerTables,
    StepBuffers,
    StepCounts,
    BaseTicks,
    DeltaPointers,
    PhaseCounters,
    ReplayCounters,
}

/// Where changed values are gathered for a download.
#[derive(Debug, Clone, Copy, PartialEq, Eq, Structural)]
pub enum GatherBuffer {
    Threshold,
    Recurrent,
    Input,
    Output,
    ContextKeys,
    ContextObservations,
    ContextEmbeddings,
}

/// What a batch sums up besides the values of its changed places.
#[derive(Debug, Clone, Copy, PartialEq, Eq, Structural)]
pub enum DeltaBuffer {
    OutputBias,
    ContextObservations,
    ContextOutput,
}

/// The parameters whose changed places are listed.
#[derive(Debug, Clone, Copy, PartialEq, Eq, Structural)]
pub enum ChangedTensor {
    Threshold,
    Recurrent,
    Input,
    Output,
    Context,
}

/// The parts of a list of changed places.
#[derive(Debug, Clone, Copy, PartialEq, Eq, Structural)]
pub enum ListPart {
    Marks,
    List,
    Count,
}

/// The two kinds of synapses.
#[derive(Debug, Clone, Copy, PartialEq, Eq, Structural)]
pub enum Side {
    Recurrent,
    Input,
}
/// A buffer of a device.
#[derive(Debug, Clone, Copy, PartialEq, Eq, Structural)]
pub enum BufferKind {
    Config,
    Learned(LearnedBuffer),
    Topology(TopologyBuffer),
    State(StateBuffer),
    Trace(Side, TraceBuffer),
    Ring(RingBuffer),
    Context(ContextBuffer),
    Output(OutputBuffer),
    Record(RecordBuffer),
    Batch(BatchBuffer),
    DeltaValues(ChangedTensor),
    DeltaList(ChangedTensor, ListPart),
    Delta(DeltaBuffer),
    Changed(ChangedTensor, ListPart),
    Gather(GatherBuffer),
}

/// What a set of buffers is used for.
#[derive(Debug, Clone, Copy, PartialEq, Eq, Structural)]
pub enum BufferUse {
    /// A lane of a story batch has its own.
    LaneOwned,
    /// A lane takes its content from the canonical model.
    LaneRefreshed,
    /// Emptied before a lane starts a story.
    LaneCleared,
    /// Emptied between two documents.
    DocumentCleared,
    /// Emptied when a model is uploaded.
    UploadCleared,
    /// Reached by a persistent kernel through its pointer table.
    PersistentTable,
    /// Reached by a batch through its table of sums.
    DeltaTable,
}

impl StateBuffer {
    /// The buffer is emptied before a lane starts a story.
    pub open spec fn cleared_for_lane(self) -> bool {
        match self {
            StateBuffer::TouchedList => false,
            StateBuffer::Active => false,
            StateBuffer::ActiveValue => false,
            StateBuffer::BlockWinnerNeuron => false,
            StateBuffer::BlockWinnerValue => false,
            _ => true,
        }
    }

    /// The buffer is emptied before a lane starts a story.
    pub fn is_cleared_for_lane(self) -> (r: bool)
        ensures
            r == self.cleared_for_lane(),
    {
        match self {
            StateBuffer::TouchedList => false,
            StateBuffer::Active => false,
            StateBuffer::ActiveValue => false,
            StateBuffer::BlockWinnerNeuron => false,
            StateBuffer::BlockWinnerValue => false,
            _ => true,
        }
    }

    /// The buffer is emptied between two documents.
    pub open spec fn cleared_between_documents(self) -> bool {
        match self {
            StateBuffer::BranchLastTick => false,
            StateBuffer::NeuronLastTick => false,
            StateBuffer::TouchedList => false,
            _ => true,
        }
    }

    /// The buffer is emptied between two documents.
    pub fn is_cleared_between_documents(self) -> (r: bool)
        ensures
            r == self.cleared_between_documents(),
    {
        match self {
            StateBuffer::BranchLastTick => false,
            StateBuffer::NeuronLastTick => false,
            StateBuffer::TouchedList => false,
            _ => true,
        }
    }
}

impl TraceBuffer {
    /// The buffer is emptied before a lane starts a story.
    pub open spec fn cleared_for_lane(self) -> bool {
        match self {
            TraceBuffer::EligibleList => false,
            TraceBuffer::NextEligibleList => false,
            _ => true,
        }
    }

    /// The buffer is emptied before a lane starts a story.
    pub fn is_cleared_for_lane(self) -> (r: bool)
        ensures
            r == self.cleared_for_lane(),
    {
        match self {
            TraceBuffer::EligibleList => false,
            TraceBuffer::NextEligibleList => false,
            _ => true,
        }
    }
}

impl BufferKind {
    /// A lane of a story batch has this buffer for itself.
    pub open spec fn lane_owned(self) -> bool {
        match self {
            BufferKind::Learned(_) => true,
            BufferKind::State(_) => true,
            BufferKind::Trace(_, _) => true,
            BufferKind::Ring(_) => true,
            BufferKind::Context(_) => true,
            BufferKind::Output(_) => true,
            BufferKind::Record(_) => true,
            BufferKind::Changed(_, _) => true,
            _ => false,
        }
    }

    /// A lane of a story batch has this buffer for itself.
    pub fn is_lane_owned(self) -> (r: bool)
        ensures
            r == self.lane_owned(),
    {
        match self {
            BufferKind::Learned(_) => true,
            BufferKind::State(_) => true,
            BufferKind::Trace(_, _) => true,
            BufferKind::Ring(_) => true,
            BufferKind::Context(_) => true,
            BufferKind::Output(_) => true,
            BufferKind::Record(_) => true,
            BufferKind::Changed(_, _) => true,
            _ => false,
        }
    }

    /// The buffer is among those of a use.
    pub open spec fn serves(self, u: BufferUse) -> bool {
        match u {
            BufferUse::LaneOwned => self.lane_owned(),
            BufferUse::LaneRefreshed => match self {
                BufferKind::Learned(_) => true,
                _ => false,
            },
            BufferUse::LaneCleared => match self {
                BufferKind::State(s) => s.cleared_for_lane(),
                BufferKind::Trace(_, t) => t.cleared_for_lane(),
                BufferKind::Ring(RingBuffer::Count) => true,
                BufferKind::Context(ContextBuffer::ActiveSlots) => false,
                BufferKind::Context(ContextBuffer::ActiveScales) => false,
                BufferKind::Context(_) => true,
                BufferKind::Output(OutputBuffer::DestinationList) => false,
                BufferKind::Output(_) => true,
                BufferKind::Changed(_, ListPart::List) => false,
                BufferKind::Changed(_, _) => true,
                _ => false,
            },
            BufferUse::DocumentCleared => match self {
                BufferKind::State(s) => s.cleared_between_documents(),
                BufferKind::Trace(_, TraceBuffer::LastTick) => false,
                BufferKind::Trace(_, t) => t.cleared_for_lane(),
                BufferKind::Ring(_) => true,
                BufferKind::Context(_) => true,
                BufferKind::Output(OutputBuffer::DestinationList) => false,
                BufferKind::Output(_) => true,
                _ => false,
            },
            BufferUse::UploadCleared => match self {
                BufferKind::DeltaValues(_) => true,
                BufferKind::DeltaList(_, ListPart::List) => false,
                BufferKind::DeltaList(_, _) => true,
                BufferKind::Delta(_) => true,
                BufferKind::Changed(_, ListPart::List) => false,
                BufferKind::Changed(_, _) => true,
                _ => false,
            },
            BufferUse::PersistentTable => match self {
                BufferKind::Config => true,
                BufferKind::Topology(_) => true,
                BufferKind::Record(RecordBuffer::PersistentSteps) => false,
                BufferKind::Record(RecordBuffer::PersistentPointers) => false,
                _ => self.lane_owned(),
            },
            BufferUse::DeltaTable => match self {
                BufferKind::DeltaValues(_) => true,
                BufferKind::DeltaList(_, _) => true,
                BufferKind::Delta(_) => true,
                _ => false,
            },
        }
    }

    /// The buffer is among those of a use.
    pub fn is_used(self, u: BufferUse) -> (r: bool)
        ensures
            r == self.serves(u),
    {
        match u {
            BufferUse::LaneOwned => self.is_lane_owned(),
            BufferUse::LaneRefreshed => match self {
                BufferKind::Learned(_) => true,
                _ => false,
            },
            BufferUse::LaneCleared => match self {
                BufferKind::State(s) => s.is_cleared_for_lane(),
                BufferKind::Trace(_, t) => t.is_cleared_for_lane(),
                BufferKind::Ring(RingBuffer::Count) => true,
                BufferKind::Context(ContextBuffer::ActiveSlots) => false,
                BufferKind::Context(ContextBuffer::ActiveScales) => false,
                BufferKind::Context(_) => true,
                BufferKind::Output(OutputBuffer::DestinationList) => false,
                BufferKind::Output(_) => true,
                BufferKind::Changed(_, ListPart::List) => false,
                BufferKind::Changed(_, _) => true,
                _ => false,
            },
            BufferUse::DocumentCleared => match self {
                BufferKind::State(s) => s.is_cleared_between_documents(),
                BufferKind::Trace(_, TraceBuffer::LastTick) => false,
                BufferKind::Trace(_, t) => t.is_cleared_for_lane(),
                BufferKind::Ring(_) => true,
                BufferKind::Context(_) => true,
                BufferKind::Output(OutputBuffer::DestinationList) => false,
                BufferKind::Output(_) => true,
                _ => false,
            },
            BufferUse::UploadCleared => match self {
                BufferKind::DeltaValues(_) => true,
                BufferKind::DeltaList(_, ListPart::List) => false,
                BufferKind::DeltaList(_, _) => true,
                BufferKind::Delta(_) => true,
                BufferKind::Changed(_, ListPart::List) => false,
                BufferKind::Changed(_, _) => true,
                _ => false,
            },
            BufferUse::PersistentTable => match self {
                BufferKind::Config => true,
                BufferKind::Topology(_) => true,
                BufferKind::Record(RecordBuffer::PersistentSteps) => false,
                BufferKind::Record(RecordBuffer::PersistentPointers) => false,
                _ => self.is_lane_owned(),
            },
            BufferUse::DeltaTable => match self {
                BufferKind::DeltaValues(_) => true,
                BufferKind::DeltaList(_, _) => true,
                BufferKind::Delta(_) => true,
                _ => false,
            },
        }
    }
}

/// The sizes of the structures that a device and its host exchange.
#[derive(Debug, Clone, Copy, PartialEq, Eq, Structural)]
pub struct ExchangeLayout {
    pub config_bytes: usize,
    pub counters_bytes: usize,
    pub training_record_bytes: usize,
    pub device_step_bytes: usize,
    pub persistent_pointers: usize,
    pub delta_pointers: usize,
}

/// What the sizes of the buffers follow from.
#[derive(Debug, Clone, Copy, PartialEq, Eq, Structural)]
pub struct BufferSizes {
    pub neurons: usize,
    pub recurrent: usize,
    pub input: usize,
    pub active: usize,
    pub block_count: usize,
    pub block_winners: usize,
    pub synapses_per_neuron: usize,
    pub classes: usize,
    pub contexts: usize,
    pub context_embeddings: usize,
    pub context_outputs: usize,
    pub embedding_dim: usize,
    pub max_order: usize,
    pub layout: ExchangeLayout,
}

impl BufferSizes {
    /// The sizes that the canonical model of a runtime asks for.
    pub open spec fn of_model(m: Model, a: Alphabet, layout: ExchangeLayout) -> BufferSizes {
        BufferSizes {
            neurons: m.config.model.neuron_count,
            recurrent: m.recurrent.weight@.len() as usize,
            input: m.input.weights@.len() as usize,
            active: m.config.model.max_active_global,
            block_count: m.config.model.block_count,
            block_winners: capped(
                m.config.model.block_count * m.config.model.max_active_per_block,
            ) as usize,
            synapses_per_neuron: m.recurrent.capacity_per_neuron,
            classes: a.output_classes,
            contexts: m.context.keys@.len() as usize,
            context_embeddings: m.context.embeddings@.len() as usize,
            context_outputs: m.context.output_weights@.len() as usize,
            embedding_dim: m.config.context.embedding_dim,
            max_order: m.config.context.max_order,
            layout,
        }
    }

    /// The sizes that the canonical model of a runtime asks for.
    pub fn for_model(m: &Model, a: &Alphabet, layout: ExchangeLayout) -> (r: BufferSizes)
        ensures
            r == BufferSizes::of_model(*m, *a, layout),
    {
        BufferSizes {
            neurons: m.neuron_count(),
            recurrent: m.recurrent.weight.len(),
            input: m.input.weights.len(),
            active: m.config.model.max_active_global,
            block_count: m.config.model.block_count,
            block_winners: capped_product(
                m.config.model.block_count,
                m.config.model.max_active_per_block,
            ),
            synapses_per_neuron: m.recurrent.capacity_per_neuron,
            classes: a.output_classes,
            contexts: m.context.keys.len(),
            context_embeddings: m.context.embeddings.len(),
            context_outputs: m.context.output_weights.len(),
            embedding_dim: m.config.context.embedding_dim,
            max_order: m.config.context.max_order,
            layout,
        }
    }

    /// The sizes that a lane of a story batch asks for: those of its context memory follow from
    /// the configuration.
    pub open spec fn of_lane(m: Model, a: Alphabet, layout: ExchangeLayout) -> BufferSizes {
        let contexts = capped(m.config.context.max_order * m.config.context.slots_per_order);
        BufferSizes {
            contexts: contexts as usize,
            context_embeddings: capped(contexts * m.config.context.embedding_dim) as usize,
            context_outputs: capped(a.output_classes * m.config.context.embedding_dim) as usize,
            ..BufferSizes::of_model(m, a, layout)
        }
    }

    /// The sizes that a lane of a story batch asks for.
    pub fn for_lane(m: &Model, a: &Alphabet, layout: ExchangeLayout) -> (r: BufferSizes)
        ensures
            r == BufferSizes::of_lane(*m, *a, layout),
    {
        let contexts: usize = capped_product(
            m.config.context.max_order,
            m.config.context.slots_per_order,
        );
        let dim: usize = m.config.context.embedding_dim;
        BufferSizes {
            contexts,
            context_embeddings: capped_product(contexts, dim),
            context_outputs: capped_product(a.output_classes, dim),
            ..BufferSizes::for_model(m, a, layout)
        }
    }

    /// How many entries the list of a tensor can have.
    pub open spec fn listed(self, t: ChangedTensor) -> int {
        match t {
            ChangedTensor::Threshold => self.neurons as int,
            ChangedTensor::Recurrent => self.recurrent as int,
            ChangedTensor::Input => self.input as int,
            ChangedTensor::Output => self.neurons as int,
            ChangedTensor::Context => self.contexts as int,
        }
    }

    fn list_length(&self, t: ChangedTensor) -> (r: usize)
        ensures
            r == self.listed(t),
    {
        match t {
            ChangedTensor::Threshold => self.neurons,
            ChangedTensor::Recurrent => self.recurrent,
            ChangedTensor::Input => self.input,
            ChangedTensor::Output => self.neurons,
            ChangedTensor::Context => self.contexts,
        }
    }
}

impl LearnedBuffer {
    /// How many elements the buffer has.
    pub open spec fn extent(self, s: BufferSizes) -> int {
        match self {
            LearnedBuffer::Threshold => s.neurons as int,
            LearnedBuffer::RecurrentWeight => s.recurrent as int,
            LearnedBuffer::InputWeight => s.input as int,
            LearnedBuffer::OutputWeight => capped(s.neurons * s.classes),
            LearnedBuffer::OutputBias => s.classes as int,
            LearnedBuffer::ContextKeys => s.contexts as int,
            LearnedBuffer::ContextEmbeddings => s.context_embeddings as int,
            LearnedBuffer::ContextObservations => s.contexts as int,
            LearnedBuffer::ContextOutputWeight => s.context_outputs as int,
        }
    }

    fn elements(self, s: &BufferSizes) -> (r: usize)
        ensures
            r == self.extent(*s),
    {
        match self {
            LearnedBuffer::Threshold => s.neurons,
            LearnedBuffer::RecurrentWeight => s.recurrent,
            LearnedBuffer::InputWeight => s.input,
            LearnedBuffer::OutputWeight => capped_product(s.neurons, s.classes),
            LearnedBuffer::OutputBias => s.classes,
            LearnedBuffer::ContextKeys => s.contexts,
            LearnedBuffer::ContextEmbeddings => s.context_embeddings,
            LearnedBuffer::ContextObservations => s.contexts,
            LearnedBuffer::ContextOutputWeight => s.context_outputs,
        }
    }

    /// How many bytes an element has.
    pub open spec fn grain(self, layout: ExchangeLayout) -> int {
        match self {
            LearnedBuffer::Threshold => 4,
            LearnedBuffer::RecurrentWeight => 4,
            LearnedBuffer::InputWeight => 4,
            LearnedBuffer::OutputWeight => 4,
            LearnedBuffer::OutputBias => 4,
            LearnedBuffer::ContextKeys => 8,
            LearnedBuffer::ContextEmbeddings => 4,
            LearnedBuffer::ContextObservations => 4,
            LearnedBuffer::ContextOutputWeight => 4,
        }
    }

    fn element_bytes(self, layout: &ExchangeLayout) -> (r: usize)
        ensures
            r == self.grain(*layout),
    {
        match self {
            LearnedBuffer::Threshold => 4,
            LearnedBuffer::RecurrentWeight => 4,
            LearnedBuffer::InputWeight => 4,
            LearnedBuffer::OutputWeight => 4,
            LearnedBuffer::OutputBias => 4,
            LearnedBuffer::ContextKeys => 8,
            LearnedBuffer::ContextEmbeddings => 4,
            LearnedBuffer::ContextObservations => 4,
            LearnedBuffer::ContextOutputWeight => 4,
        }
    }
}

impl TopologyBuffer {
    /// How many elements the buffer has.
    pub open spec fn extent(self, s: BufferSizes) -> int {
        match self {
            TopologyBuffer::Excitability => s.neurons as int,
            TopologyBuffer::NeuronType => s.neurons as int,
            TopologyBuffer::RecurrentTarget => s.recurrent as int,
            TopologyBuffer::RecurrentBranch | TopologyBuffer::RecurrentDelay => s.recurrent as int,
            TopologyBuffer::InputTarget => s.input as int,
            TopologyBuffer::InputBranch => s.input as int,
        }
    }

    fn elements(self, s: &BufferSizes) -> (r: usize)
        ensures
            r == self.extent(*s),
    {
        match self {
            TopologyBuffer::Excitability => s.neurons,
            TopologyBuffer::NeuronType => s.neurons,
            TopologyBuffer::RecurrentTarget => s.recurrent,
            TopologyBuffer::RecurrentBranch | TopologyBuffer::RecurrentDelay => s.recurrent,
            TopologyBuffer::InputTarget => s.input,
            TopologyBuffer::InputBranch => s.input,
        }
    }

    /// How many bytes an element has.
    pub open spec fn grain(self, layout: ExchangeLayout) -> int {
        match self {
            TopologyBuffer::Excitability => 4,
            TopologyBuffer::NeuronType => 1,
            TopologyBuffer::RecurrentTarget => 4,
            TopologyBuffer::RecurrentBranch | TopologyBuffer::RecurrentDelay => 1,
            TopologyBuffer::InputTarget => 4,
            TopologyBuffer::InputBranch => 1,
        }
    }

    fn element_bytes(self, layout: &ExchangeLayout) -> (r: usize)
        ensures
            r == self.grain(*layout),
    {
        match self {
            TopologyBuffer::Excitability => 4,
            TopologyBuffer::NeuronType => 1,
            TopologyBuffer::RecurrentTarget => 4,
            TopologyBuffer::RecurrentBranch | TopologyBuffer::RecurrentDelay => 1,
            TopologyBuffer::InputTarget => 4,
            TopologyBuffer::InputBranch => 1,
        }
    }
}

impl StateBuffer {
    /// How many elements the buffer has.
    pub open spec fn extent(self, s: BufferSizes) -> int {
        match self {
            StateBuffer::Membrane
            | StateBuffer::Activation
            | StateBuffer::Fatigue
            | StateBuffer::AdaptationFast
            | StateBuffer::AdaptationMedium
            | StateBuffer::AdaptationSlow
            | StateBuffer::TouchedList
            | StateBuffer::Surrogate
            | StateBuffer::CandidateActivation => s.neurons as int,
            StateBuffer::RefractoryUntil
            | StateBuffer::BranchLastTick
            | StateBuffer::NeuronLastTick
            | StateBuffer::TouchedEpoch
            | StateBuffer::SelectedEpoch => s.neurons as int,
            StateBuffer::Branches | StateBuffer::BranchDelta => capped(s.neurons * BRANCHES),
            StateBuffer::TouchedCount
            | StateBuffer::ActiveCount
            | StateBuffer::PopulationCutoff
            | StateBuffer::PopulationInhibition => 1,
            StateBuffer::Active | StateBuffer::ActiveValue => s.active as int,
            StateBuffer::BlockWinnerNeuron | StateBuffer::BlockWinnerValue => s.block_winners as int,
            StateBuffer::BlockCutoff => s.block_count as int,
        }
    }

    fn elements(self, s: &BufferSizes) -> (r: usize)
        ensures
            r == self.extent(*s),
    {
        match self {
            StateBuffer::Membrane
            | StateBuffer::Activation
            | StateBuffer::Fatigue
            | StateBuffer::AdaptationFast
            | StateBuffer::AdaptationMedium
            | StateBuffer::AdaptationSlow
            | StateBuffer::TouchedList
            | StateBuffer::Surrogate
            | StateBuffer::CandidateActivation => s.neurons,
            StateBuffer::RefractoryUntil
            | StateBuffer::BranchLastTick
            | StateBuffer::NeuronLastTick
            | StateBuffer::TouchedEpoch
            | StateBuffer::SelectedEpoch => s.neurons,
            StateBuffer::Branches | StateBuffer::BranchDelta => capped_product(s.neurons, BRANCHES),
            StateBuffer::TouchedCount
            | StateBuffer::ActiveCount
            | StateBuffer::PopulationCutoff
            | StateBuffer::PopulationInhibition => 1,
            StateBuffer::Active | StateBuffer::ActiveValue => s.active,
            StateBuffer::BlockWinnerNeuron | StateBuffer::BlockWinnerValue => s.block_winners,
            StateBuffer::BlockCutoff => s.block_count,
        }
    }

    /// How many bytes an element has.
    pub open spec fn grain(self, layout: ExchangeLayout) -> int {
        match self {
            StateBuffer::Membrane
            | StateBuffer::Activation
            | StateBuffer::Fatigue
            | StateBuffer::AdaptationFast
            | StateBuffer::AdaptationMedium
            | StateBuffer::AdaptationSlow
            | StateBuffer::TouchedList
            | StateBuffer::Surrogate
            | StateBuffer::CandidateActivation => 4,
            StateBuffer::RefractoryUntil
            | StateBuffer::BranchLastTick
            | StateBuffer::NeuronLastTick
            | StateBuffer::TouchedEpoch
            | StateBuffer::SelectedEpoch => 8,
            StateBuffer::Branches | StateBuffer::BranchDelta => 4,
            StateBuffer::TouchedCount
            | StateBuffer::ActiveCount
            | StateBuffer::PopulationCutoff
            | StateBuffer::PopulationInhibition => 4,
            StateBuffer::Active | StateBuffer::ActiveValue => 4,
            StateBuffer::BlockWinnerNeuron | StateBuffer::BlockWinnerValue => 4,
            StateBuffer::BlockCutoff => 4,
        }
    }

    fn element_bytes(self, layout: &ExchangeLayout) -> (r: usize)
        ensures
            r == self.grain(*layout),
    {
        match self {
            StateBuffer::Membrane
            | StateBuffer::Activation
            | StateBuffer::Fatigue
            | StateBuffer::AdaptationFast
            | StateBuffer::AdaptationMedium
            | StateBuffer::AdaptationSlow
            | StateBuffer::TouchedList
            | StateBuffer::Surrogate
            | StateBuffer::CandidateActivation => 4,
            StateBuffer::RefractoryUntil
            | StateBuffer::BranchLastTick
            | StateBuffer::NeuronLastTick
            | StateBuffer::TouchedEpoch
            | StateBuffer::SelectedEpoch => 8,
            StateBuffer::Branches | StateBuffer::BranchDelta => 4,
            StateBuffer::TouchedCount
            | StateBuffer::ActiveCount
            | StateBuffer::PopulationCutoff
            | StateBuffer::PopulationInhibition => 4,
            StateBuffer::Active | StateBuffer::ActiveValue => 4,
            StateBuffer::BlockWinnerNeuron | StateBuffer::BlockWinnerValue => 4,
            StateBuffer::BlockCutoff => 4,
        }
    }
}

impl RingBuffer {
    /// How many elements the buffer has.
    pub open spec fn extent(self, s: BufferSizes) -> int {
        match self {
            RingBuffer::Count => RING_BUCKETS as int,
            RingBuffer::Source | RingBuffer::Activation => capped(RING_BUCKETS * s.active),
            RingBuffer::Weight => capped(capped(RING_BUCKETS * s.active) * s.synapses_per_neuron),
        }
    }

    fn elements(self, s: &BufferSizes) -> (r: usize)
        ensures
            r == self.extent(*s),
    {
        match self {
            RingBuffer::Count => RING_BUCKETS,
            RingBuffer::Source | RingBuffer::Activation => capped_product(RING_BUCKETS, s.active),
            RingBuffer::Weight => capped_product(capped_product(RING_BUCKETS, s.active), s.synapses_per_neuron),
        }
    }

    /// How many bytes an element has.
    pub open spec fn grain(self, layout: ExchangeLayout) -> int {
        match self {
            RingBuffer::Count => 4,
            RingBuffer::Source | RingBuffer::Activation => 4,
            RingBuffer::Weight => 4,
        }
    }

    fn element_bytes(self, layout: &ExchangeLayout) -> (r: usize)
        ensures
            r == self.grain(*layout),
    {
        match self {
            RingBuffer::Count => 4,
            RingBuffer::Source | RingBuffer::Activation => 4,
            RingBuffer::Weight => 4,
        }
    }
}

impl ContextBuffer {
    /// How many elements the buffer has.
    pub open spec fn extent(self, s: BufferSizes) -> int {
        match self {
            ContextBuffer::History
            | ContextBuffer::ActiveSlots
            | ContextBuffer::ActiveScales => s.max_order as int,
            ContextBuffer::HistoryCount | ContextBuffer::ActiveCount => 1,
            ContextBuffer::Latent | ContextBuffer::Gradient => s.embedding_dim as int,
        }
    }

    fn elements(self, s: &BufferSizes) -> (r: usize)
        ensures
            r == self.extent(*s),
    {
        match self {
            ContextBuffer::History
            | ContextBuffer::ActiveSlots
            | ContextBuffer::ActiveScales => s.max_order,
            ContextBuffer::HistoryCount | ContextBuffer::ActiveCount => 1,
            ContextBuffer::Latent | ContextBuffer::Gradient => s.embedding_dim,
        }
    }

    /// How many bytes an element has.
    pub open spec fn grain(self, layout: ExchangeLayout) -> int {
        match self {
            ContextBuffer::History
            | ContextBuffer::ActiveSlots
            | ContextBuffer::ActiveScales => 4,
            ContextBuffer::HistoryCount | ContextBuffer::ActiveCount => 4,
            ContextBuffer::Latent | ContextBuffer::Gradient => 4,
        }
    }

    fn element_bytes(self, layout: &ExchangeLayout) -> (r: usize)
        ensures
            r == self.grain(*layout),
    {
        match self {
            ContextBuffer::History
            | ContextBuffer::ActiveSlots
            | ContextBuffer::ActiveScales => 4,
            ContextBuffer::HistoryCount | ContextBuffer::ActiveCount => 4,
            ContextBuffer::Latent | ContextBuffer::Gradient => 4,
        }
    }
}

impl OutputBuffer {
    /// How many elements the buffer has.
    pub open spec fn extent(self, s: BufferSizes) -> int {
        match self {
            OutputBuffer::NeuralLogits
            | OutputBuffer::Logits
            | OutputBuffer::Probabilities
            | OutputBuffer::Errors => s.classes as int,
            OutputBuffer::DestinationEpoch => s.neurons as int,
            OutputBuffer::DestinationList | OutputBuffer::LearningSignal => s.neurons as int,
            OutputBuffer::DestinationCount | OutputBuffer::ErrorFlag => 1,
            OutputBuffer::Counters => 1,
        }
    }

    fn elements(self, s: &BufferSizes) -> (r: usize)
        ensures
            r == self.extent(*s),
    {
        match self {
            OutputBuffer::NeuralLogits
            | OutputBuffer::Logits
            | OutputBuffer::Probabilities
            | OutputBuffer::Errors => s.classes,
            OutputBuffer::DestinationEpoch => s.neurons,
            OutputBuffer::DestinationList | OutputBuffer::LearningSignal => s.neurons,
            OutputBuffer::DestinationCount | OutputBuffer::ErrorFlag => 1,
            OutputBuffer::Counters => 1,
        }
    }

    /// How many bytes an element has.
    pub open spec fn grain(self, layout: ExchangeLayout) -> int {
        match self {
            OutputBuffer::NeuralLogits
            | OutputBuffer::Logits
            | OutputBuffer::Probabilities
            | OutputBuffer::Errors => 4,
            OutputBuffer::DestinationEpoch => 8,
            OutputBuffer::DestinationList | OutputBuffer::LearningSignal => 4,
            OutputBuffer::DestinationCount | OutputBuffer::ErrorFlag => 4,
            OutputBuffer::Counters => layout.counters_bytes as int,
        }
    }

    fn element_bytes(self, layout: &ExchangeLayout) -> (r: usize)
        ensures
            r == self.grain(*layout),
    {
        match self {
            OutputBuffer::NeuralLogits
            | OutputBuffer::Logits
            | OutputBuffer::Probabilities
            | OutputBuffer::Errors => 4,
            OutputBuffer::DestinationEpoch => 8,
            OutputBuffer::DestinationList | OutputBuffer::LearningSignal => 4,
            OutputBuffer::DestinationCount | OutputBuffer::ErrorFlag => 4,
            OutputBuffer::Counters => layout.counters_bytes,
        }
    }
}

impl RecordBuffer {
    /// How many elements the buffer has.
    pub open spec fn extent(self, s: BufferSizes) -> int {
        match self {
            RecordBuffer::TrainingRecords => TRAINING_STEP_BATCH_CAPACITY as int,
            RecordBuffer::PersistentSteps => TRAINING_STEP_BATCH_CAPACITY as int,
            RecordBuffer::PersistentPointers => s.layout.persistent_pointers as int,
        }
    }

    fn elements(self, s: &BufferSizes) -> (r: usize)
        ensures
            r == self.extent(*s),
    {
        match self {
            RecordBuffer::TrainingRecords => TRAINING_STEP_BATCH_CAPACITY,
            RecordBuffer::PersistentSteps => TRAINING_STEP_BATCH_CAPACITY,
            RecordBuffer::PersistentPointers => s.layout.persistent_pointers,
        }
    }

    /// How many bytes an element has.
    pub open spec fn grain(self, layout: ExchangeLayout) -> int {
        match self {
            RecordBuffer::TrainingRecords => layout.training_record_bytes as int,
            RecordBuffer::PersistentSteps => layout.device_step_bytes as int,
            RecordBuffer::PersistentPointers => 8,
        }
    }

    fn element_bytes(self, layout: &ExchangeLayout) -> (r: usize)
        ensures
            r == self.grain(*layout),
    {
        match self {
            RecordBuffer::TrainingRecords => layout.training_record_bytes,
            RecordBuffer::PersistentSteps => layout.device_step_bytes,
            RecordBuffer::PersistentPointers => 8,
        }
    }
}

impl BatchBuffer {
    /// How many elements the buffer has.
    pub open spec fn extent(self, s: BufferSizes) -> int {
        match self {
            BatchBuffer::PointerTables
            | BatchBuffer::StepBuffers
            | BatchBuffer::BaseTicks => GPU_STORY_BATCH_MAX_LANES as int,
            BatchBuffer::StepCounts => GPU_STORY_BATCH_MAX_LANES as int,
            BatchBuffer::DeltaPointers => s.layout.delta_pointers as int,
            BatchBuffer::PhaseCounters => PHASE_PROFILE_COUNTERS as int,
            BatchBuffer::ReplayCounters => REPLAY_PROFILE_COUNTERS as int,
        }
    }

    fn elements(self, s: &BufferSizes) -> (r: usize)
        ensures
            r == self.extent(*s),
    {
        match self {
            BatchBuffer::PointerTables
            | BatchBuffer::StepBuffers
            | BatchBuffer::BaseTicks => GPU_STORY_BATCH_MAX_LANES,
            BatchBuffer::StepCounts => GPU_STORY_BATCH_MAX_LANES,
            BatchBuffer::DeltaPointers => s.layout.delta_pointers,
            BatchBuffer::PhaseCounters => PHASE_PROFILE_COUNTERS,
            BatchBuffer::ReplayCounters => REPLAY_PROFILE_COUNTERS,
        }
    }

    /// How many bytes an element has.
    pub open spec fn grain(self, layout: ExchangeLayout) -> int {
        match self {
            BatchBuffer::PointerTables
            | BatchBuffer::StepBuffers
            | BatchBuffer::BaseTicks => 8,
            BatchBuffer::StepCounts => 4,
            BatchBuffer::DeltaPointers => 8,
            BatchBuffer::PhaseCounters => 8,
            BatchBuffer::ReplayCounters => 8,
        }
    }

    fn element_bytes(self, layout: &ExchangeLayout) -> (r: usize)
        ensures
            r == self.grain(*layout),
    {
        match self {
            BatchBuffer::PointerTables
            | BatchBuffer::StepBuffers
            | BatchBuffer::BaseTicks => 8,
            BatchBuffer::StepCounts => 4,
            BatchBuffer::DeltaPointers => 8,
            BatchBuffer::PhaseCounters => 8,
            BatchBuffer::ReplayCounters => 8,
        }
    }
}

impl DeltaBuffer {
    /// How many elements the buffer has.
    pub open spec fn extent(self, s: BufferSizes) -> int {
        match self {
            DeltaBuffer::OutputBias => s.classes as int,
            DeltaBuffer::ContextObservations => s.contexts as int,
            DeltaBuffer::ContextOutput => s.context_outputs as int,
        }
    }

    fn elements(self, s: &BufferSizes) -> (r: usize)
        ensures
            r == self.extent(*s),
    {
        match self {
            DeltaBuffer::OutputBias => s.classes,
            DeltaBuffer::ContextObservations => s.contexts,
            DeltaBuffer::ContextOutput => s.context_outputs,
        }
    }

    /// How many bytes an element has.
    pub open spec fn grain(self, layout: ExchangeLayout) -> int {
        match self {
            DeltaBuffer::OutputBias => 4,
            DeltaBuffer::ContextObservations => 4,
            DeltaBuffer::ContextOutput => 4,
        }
    }

    fn element_bytes(self, layout: &ExchangeLayout) -> (r: usize)
        ensures
            r == self.grain(*layout),
    {
        match self {
            DeltaBuffer::OutputBias => 4,
            DeltaBuffer::ContextObservations => 4,
            DeltaBuffer::ContextOutput => 4,
        }
    }
}

impl GatherBuffer {
    /// How many elements the buffer has.
    pub open spec fn extent(self, s: BufferSizes) -> int {
        match self {
            GatherBuffer::Threshold => s.neurons as int,
            GatherBuffer::Recurrent => s.recurrent as int,
            GatherBuffer::Input => s.input as int,
            GatherBuffer::Output => capped(s.neurons * s.classes),
            GatherBuffer::ContextKeys => s.contexts as int,
            GatherBuffer::ContextObservations => s.contexts as int,
            GatherBuffer::ContextEmbeddings => capped(s.contexts * s.embedding_dim),
        }
    }

    fn elements(self, s: &BufferSizes) -> (r: usize)
        ensures
            r == self.extent(*s),
    {
        match self {
            GatherBuffer::Threshold => s.neurons,
            GatherBuffer::Recurrent => s.recurrent,
            GatherBuffer::Input => s.input,
            GatherBuffer::Output => capped_product(s.neurons, s.classes),
            GatherBuffer::ContextKeys => s.contexts,
            GatherBuffer::ContextObservations => s.contexts,
            GatherBuffer::ContextEmbeddings => capped_product(s.contexts, s.embedding_dim),
        }
    }

    /// How many bytes an element has.
    pub open spec fn grain(self, layout: ExchangeLayout) -> int {
        match self {
            GatherBuffer::Threshold => 4,
            GatherBuffer::Recurrent => 4,
            GatherBuffer::Input => 4,
            GatherBuffer::Output => 4,
            GatherBuffer::ContextKeys => 8,
            GatherBuffer::ContextObservations => 4,
            GatherBuffer::ContextEmbeddings => 4,
        }
    }

    fn element_bytes(self, layout: &ExchangeLayout) -> (r: usize)
        ensures
            r == self.grain(*layout),
    {
        match self {
            GatherBuffer::Threshold => 4,
            GatherBuffer::Recurrent => 4,
            GatherBuffer::Input => 4,
            GatherBuffer::Output => 4,
            GatherBuffer::ContextKeys => 8,
            GatherBuffer::ContextObservations => 4,
            GatherBuffer::ContextEmbeddings => 4,
        }
    }
}

impl TraceBuffer {
    /// How many elements the buffer has, for a number of synapses.
    pub open spec fn extent(self, synapses: int) -> int {
        match self {
            TraceBuffer::EligibleCount | TraceBuffer::NextEligibleCount => 1,
            _ => synapses,
        }
    }

    fn elements(self, synapses: usize) -> (r: usize)
        ensures
            r == self.extent(synapses as int),
    {
        match self {
            TraceBuffer::EligibleCount | TraceBuffer::NextEligibleCount => 1,
            _ => synapses,
        }
    }

    /// How many bytes an element has.
    pub open spec fn grain(self) -> int {
        match self {
            TraceBuffer::LastTick => 8,
            _ => 4,
        }
    }

    fn element_bytes(self) -> (r: usize)
        ensures
            r == self.grain(),
    {
        match self {
            TraceBuffer::LastTick => 8,
            _ => 4,
        }
    }
}

impl BufferKind {
    /// How many elements the buffer has.
    pub open spec fn extent(self, s: BufferSizes) -> int {
        match self {
            BufferKind::Config => 1,
            BufferKind::Learned(b) => b.extent(s),
            BufferKind::Topology(b) => b.extent(s),
            BufferKind::State(b) => b.extent(s),
            BufferKind::Trace(Side::Recurrent, b) => b.extent(s.recurrent as int),
            BufferKind::Trace(Side::Input, b) => b.extent(s.input as int),
            BufferKind::Ring(b) => b.extent(s),
            BufferKind::Context(b) => b.extent(s),
            BufferKind::Output(b) => b.extent(s),
            BufferKind::Record(b) => b.extent(s),
            BufferKind::Batch(b) => b.extent(s),
            BufferKind::DeltaValues(ChangedTensor::Output) => capped(s.neurons * s.classes),
            BufferKind::DeltaValues(ChangedTensor::Context) => s.context_embeddings as int,
            BufferKind::DeltaValues(t) => s.listed(t),
            BufferKind::DeltaList(_, ListPart::Count) => 1,
            BufferKind::DeltaList(t, _) => s.listed(t),
            BufferKind::Delta(b) => b.extent(s),
            BufferKind::Changed(_, ListPart::Count) => 1,
            BufferKind::Changed(t, _) => s.listed(t),
            BufferKind::Gather(b) => b.extent(s),
        }
    }

    fn elements(self, s: &BufferSizes) -> (r: usize)
        ensures
            r == self.extent(*s),
    {
        match self {
            BufferKind::Config => 1,
            BufferKind::Learned(b) => b.elements(s),
            BufferKind::Topology(b) => b.elements(s),
            BufferKind::State(b) => b.elements(s),
            BufferKind::Trace(Side::Recurrent, b) => b.elements(s.recurrent),
            BufferKind::Trace(Side::Input, b) => b.elements(s.input),
            BufferKind::Ring(b) => b.elements(s),
            BufferKind::Context(b) => b.elements(s),
            BufferKind::Output(b) => b.elements(s),
            BufferKind::Record(b) => b.elements(s),
            BufferKind::Batch(b) => b.elements(s),
            BufferKind::DeltaValues(ChangedTensor::Output) => capped_product(s.neurons, s.classes),
            BufferKind::DeltaValues(ChangedTensor::Context) => s.context_embeddings,
            BufferKind::DeltaValues(t) => s.list_length(t),
            BufferKind::DeltaList(_, ListPart::Count) => 1,
            BufferKind::DeltaList(t, _) => s.list_length(t),
            BufferKind::Delta(b) => b.elements(s),
            BufferKind::Changed(_, ListPart::Count) => 1,
            BufferKind::Changed(t, _) => s.list_length(t),
            BufferKind::Gather(b) => b.elements(s),
        }
    }

    /// How many bytes an element has.
    pub open spec fn grain(self, layout: ExchangeLayout) -> int {
        match self {
            BufferKind::Config => layout.config_bytes as int,
            BufferKind::Learned(b) => b.grain(layout),
            BufferKind::Topology(b) => b.grain(layout),
            BufferKind::State(b) => b.grain(layout),
            BufferKind::Trace(_, b) => b.grain(),
            BufferKind::Ring(b) => b.grain(layout),
            BufferKind::Context(b) => b.grain(layout),
            BufferKind::Output(b) => b.grain(layout),
            BufferKind::Record(b) => b.grain(layout),
            BufferKind::Batch(b) => b.grain(layout),
            BufferKind::Delta(b) => b.grain(layout),
            BufferKind::Gather(b) => b.grain(layout),
            _ => 4,
        }
    }

    fn element_bytes(self, layout: &ExchangeLayout) -> (r: usize)
        ensures
            r == self.grain(*layout),
    {
        match self {
            BufferKind::Config => layout.config_bytes,
            BufferKind::Learned(b) => b.element_bytes(layout),
            BufferKind::Topology(b) => b.element_bytes(layout),
            BufferKind::State(b) => b.element_bytes(layout),
            BufferKind::Trace(_, b) => b.element_bytes(),
            BufferKind::Ring(b) => b.element_bytes(layout),
            BufferKind::Context(b) => b.element_bytes(layout),
            BufferKind::Output(b) => b.element_bytes(layout),
            BufferKind::Record(b) => b.element_bytes(layout),
            BufferKind::Batch(b) => b.element_bytes(layout),
            BufferKind::Delta(b) => b.element_bytes(layout),
            BufferKind::Gather(b) => b.element_bytes(layout),
            _ => 4,
        }
    }

    /// How many bytes the buffer is allocated with: never zero.
    pub open spec fn size(self, s: BufferSizes) -> int {
        allocation(self.extent(s), self.grain(s.layout))
    }

    /// How many bytes the buffer is allocated with.
    pub fn bytes(self, s: &BufferSizes) -> (r: usize)
        ensures
            r == self.size(*s),
    {
        allocation_bytes(self.elements(s), self.element_bytes(&s.layout))
    }
}

/// How many buffers a device has.
pub const BUFFER_COUNT: usize = 144;

impl LearnedBuffer {
    /// Where the buffer stands among all buffers.
    pub open spec fn rank(self) -> int {
        match self {
            LearnedBuffer::Threshold => 1,
            LearnedBuffer::RecurrentWeight => 7,
            LearnedBuffer::InputWeight => 10,
            LearnedBuffer::OutputWeight => 11,
            LearnedBuffer::OutputBias => 12,
            LearnedBuffer::ContextKeys => 13,
            LearnedBuffer::ContextEmbeddings => 14,
            LearnedBuffer::ContextObservations => 15,
            LearnedBuffer::ContextOutputWeight => 16,
        }
    }
}

impl TopologyBuffer {
    /// Where the buffer stands among all buffers.
    pub open spec fn rank(self) -> int {
        match self {
            TopologyBuffer::Excitability => 2,
            TopologyBuffer::NeuronType => 3,
            TopologyBuffer::RecurrentTarget => 4,
            TopologyBuffer::RecurrentBranch => 5,
            TopologyBuffer::RecurrentDelay => 6,
            TopologyBuffer::InputTarget => 8,
            TopologyBuffer::InputBranch => 9,
        }
    }
}

impl StateBuffer {
    /// Where the buffer stands among all buffers.
    pub open spec fn rank(self) -> int {
        match self {
            StateBuffer::Membrane => 17,
            StateBuffer::Activation => 18,
            StateBuffer::Fatigue => 19,
            StateBuffer::RefractoryUntil => 20,
            StateBuffer::Branches => 21,
            StateBuffer::BranchDelta => 22,
            StateBuffer::BranchLastTick => 23,
            StateBuffer::NeuronLastTick => 24,
            StateBuffer::AdaptationFast => 25,
            StateBuffer::AdaptationMedium => 26,
            StateBuffer::AdaptationSlow => 27,
            StateBuffer::TouchedEpoch => 28,
            StateBuffer::TouchedList => 29,
            StateBuffer::TouchedCount => 30,
            StateBuffer::SelectedEpoch => 31,
            StateBuffer::Surrogate => 32,
            StateBuffer::CandidateActivation => 33,
            StateBuffer::Active => 34,
            StateBuffer::ActiveValue => 35,
            StateBuffer::ActiveCount => 36,
            StateBuffer::BlockWinnerNeuron => 37,
            StateBuffer::BlockWinnerValue => 38,
            StateBuffer::BlockCutoff => 39,
            StateBuffer::PopulationCutoff => 40,
            StateBuffer::PopulationInhibition => 41,
        }
    }
}

impl RingBuffer {
    /// Where the buffer stands among all buffers.
    pub open spec fn rank(self) -> int {
        match self {
            RingBuffer::Count => 68,
            RingBuffer::Source => 69,
            RingBuffer::Activation => 70,
            RingBuffer::Weight => 71,
        }
    }
}

impl ContextBuffer {
    /// Where the buffer stands among all buffers.
    pub open spec fn rank(self) -> int {
        match self {
            ContextBuffer::History => 72,
            ContextBuffer::HistoryCount => 73,
            ContextBuffer::ActiveSlots => 74,
            ContextBuffer::ActiveScales => 75,
            ContextBuffer::ActiveCount => 76,
            ContextBuffer::Latent => 77,
            ContextBuffer::Gradient => 78,
        }
    }
}

impl OutputBuffer {
    /// Where the buffer stands among all buffers.
    pub open spec fn rank(self) -> int {
        match self {
            OutputBuffer::NeuralLogits => 79,
            OutputBuffer::Logits => 80,
            OutputBuffer::Probabilities => 81,
            OutputBuffer::Errors => 82,
            OutputBuffer::DestinationEpoch => 83,
            OutputBuffer::DestinationList => 84,
            OutputBuffer::DestinationCount => 85,
            OutputBuffer::LearningSignal => 86,
            OutputBuffer::Counters => 87,
            OutputBuffer::ErrorFlag => 88,
        }
    }
}

impl RecordBuffer {
    /// Where the buffer stands among all buffers.
    pub open spec fn rank(self) -> int {
        match self {
            RecordBuffer::TrainingRecords => 89,
            RecordBuffer::PersistentSteps => 90,
            RecordBuffer::PersistentPointers => 91,
        }
    }
}

impl BatchBuffer {
    /// Where the buffer stands among all buffers.
    pub open spec fn rank(self) -> int {
        match self {
            BatchBuffer::PointerTables => 92,
            BatchBuffer::StepBuffers => 93,
            BatchBuffer::StepCounts => 94,
            BatchBuffer::BaseTicks => 95,
            BatchBuffer::DeltaPointers => 96,
            BatchBuffer::PhaseCounters => 97,
            BatchBuffer::ReplayCounters => 98,
        }
    }
}

impl DeltaBuffer {
    /// Where the buffer stands among all buffers.
    pub open spec fn rank(self) -> int {
        match self {
            DeltaBuffer::OutputBias => 115,
            DeltaBuffer::ContextObservations => 120,
            DeltaBuffer::ContextOutput => 121,
        }
    }
}

impl GatherBuffer {
    /// Where the buffer stands among all buffers.
    pub open spec fn rank(self) -> int {
        match self {
            GatherBuffer::Threshold => 137,
            GatherBuffer::Recurrent => 138,
            GatherBuffer::Input => 139,
            GatherBuffer::Output => 140,
            GatherBuffer::ContextKeys => 141,
            GatherBuffer::ContextObservations => 142,
            GatherBuffer::ContextEmbeddings => 143,
        }
    }
}

impl TraceBuffer {
    /// Where the buffer stands among those of one kind of synapse.
    pub open spec fn place(self) -> int {
        match self {
            TraceBuffer::BranchSensitivity => 0,
            TraceBuffer::MembraneSensitivity => 1,
            TraceBuffer::FatigueSensitivity => 2,
            TraceBuffer::AdaptationFastSensitivity => 3,
            TraceBuffer::AdaptationMediumSensitivity => 4,
            TraceBuffer::AdaptationSlowSensitivity => 5,
            TraceBuffer::Eligibility => 6,
            TraceBuffer::LastTick => 7,
            TraceBuffer::EligibleMark => 8,
            TraceBuffer::EligibleList => 9,
            TraceBuffer::EligibleCount => 10,
            TraceBuffer::NextEligibleList => 11,
            TraceBuffer::NextEligibleCount => 12,
        }
    }
}

impl ChangedTensor {
    /// Where the parameters stand among those whose changed places are listed.
    pub open spec fn place(self) -> int {
        match self {
            ChangedTensor::Threshold => 0,
            ChangedTensor::Recurrent => 1,
            ChangedTensor::Input => 2,
            ChangedTensor::Output => 3,
            ChangedTensor::Context => 4,
        }
    }
}

impl ListPart {
    /// Where the part stands among the parts of a list.
    pub open spec fn place(self) -> int {
        match self {
            ListPart::Marks => 0,
            ListPart::List => 1,
            ListPart::Count => 2,
        }
    }
}

impl ChangedTensor {
    /// Where the sums of the parameters stand among all buffers; the list of their places follows.
    pub open spec fn delta_rank(self) -> int {
        99 + 4 * self.place() + if self == ChangedTensor::Context {
            1int
        } else {
            0
        }
    }
}

impl BufferKind {
    /// Where the buffer stands among all buffers.
    pub open spec fn rank(self) -> int {
        match self {
            BufferKind::Config => 0,
            BufferKind::Learned(b) => b.rank(),
            BufferKind::Topology(b) => b.rank(),
            BufferKind::State(b) => b.rank(),
            BufferKind::Trace(Side::Recurrent, b) => 42 + b.place(),
            BufferKind::Trace(Side::Input, b) => 55 + b.place(),
            BufferKind::Ring(b) => b.rank(),
            BufferKind::Context(b) => b.rank(),
            BufferKind::Output(b) => b.rank(),
            BufferKind::Record(b) => b.rank(),
            BufferKind::Batch(b) => b.rank(),
            BufferKind::DeltaValues(t) => t.delta_rank(),
            BufferKind::DeltaList(t, part) => t.delta_rank() + 1 + part.place(),
            BufferKind::Delta(b) => b.rank(),
            BufferKind::Changed(t, part) => 122 + 3 * t.place() + part.place(),
            BufferKind::Gather(b) => b.rank(),
        }
    }
}

/// Every buffer of a device, each at its rank.
#[verifier::rlimit(60)]
pub fn device_buffers() -> (r: Vec<BufferKind>)
    ensures
        r.len() == BUFFER_COUNT,
        forall|k: BufferKind| 0 <= #[trigger] k.rank() < BUFFER_COUNT && r@[k.rank()] == k,
        forall|n: int| 0 <= n < r.len() ==> (#[trigger] r@[n]).rank() == n,
{
    let r: Vec<BufferKind> = vec![
        BufferKind::Config,
        BufferKind::Learned(LearnedBuffer::Threshold),
        BufferKind::Topology(TopologyBuffer::Excitability),
        BufferKind::Topology(TopologyBuffer::NeuronType),
        BufferKind::Topology(TopologyBuffer::RecurrentTarget),
        BufferKind::Topology(TopologyBuffer::RecurrentBranch),
        BufferKind::Topology(TopologyBuffer::RecurrentDelay),
        BufferKind::Learned(LearnedBuffer::RecurrentWeight),
        BufferKind::Topology(TopologyBuffer::InputTarget),
        BufferKind::Topology(TopologyBuffer::InputBranch),
        BufferKind::Learned(LearnedBuffer::InputWeight),
        BufferKind::Learned(LearnedBuffer::OutputWeight),
        BufferKind::Learned(LearnedBuffer::OutputBias),
        BufferKind::Learned(LearnedBuffer::ContextKeys),
        BufferKind::Learned(LearnedBuffer::ContextEmbeddings),
        BufferKind::Learned(LearnedBuffer::ContextObservations),
        BufferKind::Learned(LearnedBuffer::ContextOutputWeight),
        BufferKind::State(StateBuffer::Membrane),
        BufferKind::State(StateBuffer::Activation),
        BufferKind::State(StateBuffer::Fatigue),
        BufferKind::State(StateBuffer::RefractoryUntil),
        BufferKind::State(StateBuffer::Branches),
        BufferKind::State(StateBuffer::BranchDelta),
        BufferKind::State(StateBuffer::BranchLastTick),
        BufferKind::State(StateBuffer::NeuronLastTick),
        BufferKind::State(StateBuffer::AdaptationFast),
        BufferKind::State(StateBuffer::AdaptationMedium),
        BufferKind::State(StateBuffer::AdaptationSlow),
        BufferKind::State(StateBuffer::TouchedEpoch),
        BufferKind::State(StateBuffer::TouchedList),
        BufferKind::State(StateBuffer::TouchedCount),
        BufferKind::State(StateBuffer::SelectedEpoch),
        BufferKind::State(StateBuffer::Surrogate),
        BufferKind::State(StateBuffer::CandidateActivation),
        BufferKind::State(StateBuffer::Active),
        BufferKind::State(StateBuffer::ActiveValue),
        BufferKind::State(StateBuffer::ActiveCount),
        BufferKind::State(StateBuffer::BlockWinnerNeuron),
        BufferKind::State(StateBuffer::BlockWinnerValue),
        BufferKind::State(StateBuffer::BlockCutoff),
        BufferKind::State(StateBuffer::PopulationCutoff),
        BufferKind::State(StateBuffer::PopulationInhibition),
        BufferKind::Trace(Side::Recurrent, TraceBuffer::BranchSensitivity),
        BufferKind::Trace(Side::Recurrent, TraceBuffer::MembraneSensitivity),
        BufferKind::Trace(Side::Recurrent, TraceBuffer::FatigueSensitivity),
        BufferKind::Trace(Side::Recurrent, TraceBuffer::AdaptationFastSensitivity),
        BufferKind::Trace(Side::Recurrent, TraceBuffer::AdaptationMediumSensitivity),
        BufferKind::Trace(Side::Recurrent, TraceBuffer::AdaptationSlowSensitivity),
        BufferKind::Trace(Side::Recurrent, TraceBuffer::Eligibility),
        BufferKind::Trace(Side::Recurrent, TraceBuffer::LastTick),
        BufferKind::Trace(Side::Recurrent, TraceBuffer::EligibleMark),
        BufferKind::Trace(Side::Recurrent, TraceBuffer::EligibleList),
        BufferKind::Trace(Side::Recurrent, TraceBuffer::EligibleCount),
        BufferKind::Trace(Side::Recurrent, TraceBuffer::NextEligibleList),
        BufferKind::Trace(Side::Recurrent, TraceBuffer::NextEligibleCount),
        BufferKind::Trace(Side::Input, TraceBuffer::BranchSensitivity),
        BufferKind::Trace(Side::Input, TraceBuffer::MembraneSensitivity),
        BufferKind::Trace(Side::Input, TraceBuffer::FatigueSensitivity),
        BufferKind::Trace(Side::Input, TraceBuffer::AdaptationFastSensitivity),
        BufferKind::Trace(Side::Input, TraceBuffer::AdaptationMediumSensitivity),
        BufferKind::Trace(Side::Input, TraceBuffer::AdaptationSlowSensitivity),
        BufferKind::Trace(Side::Input, TraceBuffer::Eligibility),
        BufferKind::Trace(Side::Input, TraceBuffer::LastTick),
        BufferKind::Trace(Side::Input, TraceBuffer::EligibleMark),
        BufferKind::Trace(Side::Input, TraceBuffer::EligibleList),
        BufferKind::Trace(Side::Input, TraceBuffer::EligibleCount),
        BufferKind::Trace(Side::Input, TraceBuffer::NextEligibleList),
        BufferKind::Trace(Side::Input, TraceBuffer::NextEligibleCount),
        BufferKind::Ring(RingBuffer::Count),
        BufferKind::Ring(RingBuffer::Source),
        BufferKind::Ring(RingBuffer::Activation),
        BufferKind::Ring(RingBuffer::Weight),
        BufferKind::Context(ContextBuffer::History),
        BufferKind::Context(ContextBuffer::HistoryCount),
        BufferKind::Context(ContextBuffer::ActiveSlots),
        BufferKind::Context(ContextBuffer::ActiveScales),
        BufferKind::Context(ContextBuffer::ActiveCount),
        BufferKind::Context(ContextBuffer::Latent),
        BufferKind::Context(ContextBuffer::Gradient),
        BufferKind::Output(OutputBuffer::NeuralLogits),
        BufferKind::Output(OutputBuffer::Logits),
        BufferKind::Output(OutputBuffer::Probabilities),
        BufferKind::Output(OutputBuffer::Errors),
        BufferKind::Output(OutputBuffer::DestinationEpoch),
        BufferKind::Output(OutputBuffer::DestinationList),
        BufferKind::Output(OutputBuffer::DestinationCount),
        BufferKind::Output(OutputBuffer::LearningSignal),
        BufferKind::Output(OutputBuffer::Counters),
        BufferKind::Output(OutputBuffer::ErrorFlag),
        BufferKind::Record(RecordBuffer::TrainingRecords),
        BufferKind::Record(RecordBuffer::PersistentSteps),
        BufferKind::Record(RecordBuffer::PersistentPointers),
        BufferKind::Batch(BatchBuffer::PointerTables),
        BufferKind::Batch(BatchBuffer::StepBuffers),
        BufferKind::Batch(BatchBuffer::StepCounts),
        BufferKind::Batch(BatchBuffer::BaseTicks),
        BufferKind::Batch(BatchBuffer::DeltaPointers),
        BufferKind::Batch(BatchBuffer::PhaseCounters),
        BufferKind::Batch(BatchBuffer::ReplayCounters),
        BufferKind::DeltaValues(ChangedTensor::Threshold),
        BufferKind::DeltaList(ChangedTensor::Threshold, ListPart::Marks),
        BufferKind::DeltaList(ChangedTensor::Threshold, ListPart::List),
        BufferKind::DeltaList(ChangedTensor::Threshold, ListPart::Count),
        BufferKind::DeltaValues(ChangedTensor::Recurrent),
        BufferKind::DeltaList(ChangedTensor::Recurrent, ListPart::Marks),
        BufferKind::DeltaList(ChangedTensor::Recurrent, ListPart::List),
        BufferKind::DeltaList(ChangedTensor::Recurrent, ListPart::Count),
        BufferKind::DeltaValues(ChangedTensor::Input),
        BufferKind::DeltaList(ChangedTensor::Input, ListPart::Marks),
        BufferKind::DeltaList(ChangedTensor::Input, ListPart::List),
        BufferKind::DeltaList(ChangedTensor::Input, ListPart::Count),
        BufferKind::DeltaValues(ChangedTensor::Output),
        BufferKind::DeltaList(ChangedTensor::Output, ListPart::Marks),
        BufferKind::DeltaList(ChangedTensor::Output, ListPart::List),
        BufferKind::DeltaList(ChangedTensor::Output, ListPart::Count),
        BufferKind::Delta(DeltaBuffer::OutputBias),
        BufferKind::DeltaValues(ChangedTensor::Context),
        BufferKind::DeltaList(ChangedTensor::Context, ListPart::Marks),
        BufferKind::DeltaList(ChangedTensor::Context, ListPart::List),
        BufferKind::DeltaList(ChangedTensor::Context, ListPart::Count),
        BufferKind::Delta(DeltaBuffer::ContextObservations),
        BufferKind::Delta(DeltaBuffer::ContextOutput),
        BufferKind::Changed(ChangedTensor::Threshold, ListPart::Marks),
        BufferKind::Changed(ChangedTensor::Threshold, ListPart::List),
        BufferKind::Changed(ChangedTensor::Threshold, ListPart::Count),
        BufferKind::Changed(ChangedTensor::Recurrent, ListPart::Marks),
        BufferKind::Changed(ChangedTensor::Recurrent, ListPart::List),
        BufferKind::Changed(ChangedTensor::Recurrent, ListPart::Count),
        BufferKind::Changed(ChangedTensor::Input, ListPart::Marks),
        BufferKind::Changed(ChangedTensor::Input, ListPart::List),
        BufferKind::Changed(ChangedTensor::Input, ListPart::Count),
        BufferKind::Changed(ChangedTensor::Output, ListPart::Marks),
        BufferKind::Changed(ChangedTensor::Output, ListPart::List),
        BufferKind::Changed(ChangedTensor::Output, ListPart::Count),
        BufferKind::Changed(ChangedTensor::Context, ListPart::Marks),
        BufferKind::Changed(ChangedTensor::Context, ListPart::List),
        BufferKind::Changed(ChangedTensor::Context, ListPart::Count),
        BufferKind::Gather(GatherBuffer::Threshold),
        BufferKind::Gather(GatherBuffer::Recurrent),
        BufferKind::Gather(GatherBuffer::Input),
        BufferKind::Gather(GatherBuffer::Output),
        BufferKind::Gather(GatherBuffer::ContextKeys),
        BufferKind::Gather(GatherBuffer::ContextObservations),
        BufferKind::Gather(GatherBuffer::ContextEmbeddings),
    ];
    assert forall|n: int| 0 <= n < r.len() implies (#[trigger] r@[n]).rank() == n by {}
    assert forall|k: BufferKind| 0 <= #[trigger] k.rank() < BUFFER_COUNT && r@[k.rank()] == k by {
        match k {
            BufferKind::Config => {},
            BufferKind::Learned(_) => {},
            BufferKind::Topology(_) => {},
            BufferKind::State(_) => {},
            BufferKind::Trace(Side::Recurrent, _) => {},
            BufferKind::Trace(Side::Input, _) => {},
            BufferKind::Ring(_) => {},
            BufferKind::Context(_) => {},
            BufferKind::Output(_) => {},
            BufferKind::Record(_) => {},
            BufferKind::Batch(_) => {},
            BufferKind::DeltaValues(_) => {},
            BufferKind::DeltaList(_, _) => {},
            BufferKind::Delta(_) => {},
            BufferKind::Changed(_, _) => {},
            BufferKind::Gather(_) => {},
        }
    }
    r
}

/// The buffers of a use, each once.
pub open spec fn lists_those_used(list: Seq<BufferKind>, u: BufferUse) -> bool {
    &&& list.no_duplicates()
    &&& forall|k: BufferKind| #[trigger] list.contains(k) <==> k.serves(u)
}

/// The buffers of a use, in the order of their ranks.
pub fn buffers_of(u: BufferUse) -> (r: Vec<BufferKind>)
    ensures
        lists_those_used(r@, u),
        forall|i: int, j: int| 0 <= i < j < r.len() ==> (#[trigger] r@[i]).rank() < (
        #[trigger] r@[j]).rank(),
{
    let all: Vec<BufferKind> = device_buffers();
    let mut r: Vec<BufferKind> = Vec::new();
    let mut i: usize = 0;
    while i < all.len()
        invariant
            i <= all.len(),
            all.len() == BUFFER_COUNT,
            forall|k: BufferKind| 0 <= #[trigger] k.rank() < BUFFER_COUNT && all@[k.rank()] == k,
            forall|n: int| 0 <= n < all.len() ==> (#[trigger] all@[n]).rank() == n,
            forall|n: int| 0 <= n < r.len() ==> (#[trigger] r@[n]).serves(u) && r@[n].rank() < i,
            forall|k: BufferKind| #[trigger] k.rank() < i && k.serves(u) ==> r@.contains(k),
            forall|m: int, n: int| 0 <= m < n < r.len() ==> (#[trigger] r@[m]).rank() < (
            #[trigger] r@[n]).rank(),
        decreases all.len() - i,
    {
        let kind: BufferKind = all[i];
        let ghost before = r@;
        if kind.is_used(u) {
            r.push(kind);
            proof {
                assert(r@.last() == kind);
                assert forall|k: BufferKind| #[trigger] k.rank() < i + 1 && k.serves(
                    u,
                ) implies r@.contains(k) by {
                    if k.rank() < i {
                        let n = choose|n: int| 0 <= n < before.len() && before[n] == k;
                        assert(r@[n] == k);
                    } else {
                        assert(all@[k.rank()] == k);
                        assert(r@[before.len() as int] == k);
                    }
                }
            }
        } else {
            assert forall|k: BufferKind| #[trigger] k.rank() < i + 1 && k.serves(
                u,
            ) implies r@.contains(k) by {
                if k.rank() == i {
                    assert(all@[k.rank()] == k);
                }
            }
        }
        i = i + 1;
    }
    proof {
        assert forall|k: BufferKind| #[trigger] r@.contains(k) <==> k.serves(u) by {
            assert(k.rank() < BUFFER_COUNT);
        }
    }
    r
}

/// Which runtime a persistent kernel of a lane takes a buffer from.
#[derive(Debug, Clone, Copy, PartialEq, Eq, Structural)]
pub enum PointerSource {
    Canonical,
    Lane,
}

/// Where the pointer table of a lane takes its pointer to a buffer from, if it has one.
pub open spec fn lane_source_of(kind: BufferKind) -> Option<PointerSource> {
    if !kind.serves(BufferUse::PersistentTable) {
        None
    } else if kind.lane_owned() {
        Some(PointerSource::Lane)
    } else {
        Some(PointerSource::Canonical)
    }
}

/// Where the pointer table of a lane takes its pointer to a buffer from, if it has one.
pub fn lane_source(kind: BufferKind) -> (r: Option<PointerSource>)
    ensures
        r == lane_source_of(kind),
{
    if !kind.is_used(BufferUse::PersistentTable) {
        None
    } else if kind.is_lane_owned() {
        Some(PointerSource::Lane)
    } else {
        Some(PointerSource::Canonical)
    }
}

/// A lane empties and refreshes only buffers of its own, and its kernels reach them there: a
/// story never sees what another story has changed.
pub proof fn law_lanes_are_isolated(kind: BufferKind)
    ensures
        kind.serves(BufferUse::LaneCleared) ==> kind.lane_owned(),
        kind.serves(BufferUse::LaneRefreshed) ==> kind.lane_owned(),
        kind.serves(BufferUse::LaneCleared) ==> lane_source_of(kind) == Some(PointerSource::Lane),
        kind.serves(BufferUse::LaneRefreshed) ==> lane_source_of(kind) == Some(PointerSource::Lane),
        kind matches BufferKind::Topology(_) ==> lane_source_of(kind) == Some(
            PointerSource::Canonical,
        ),
{
}

/// Emptying the state between two documents leaves what was learned, its shape and the lists of
/// what changed.
pub proof fn law_documents_keep_what_was_learned(kind: BufferKind)
    requires
        kind.serves(BufferUse::DocumentCleared),
    ensures
        !(kind is Learned),
        !(kind is Topology),
        !(kind is Changed),
        !(kind is Config),
        !kind.serves(BufferUse::DeltaTable),
{
}

/// The buffers of a lane are as large as those of the canonical model, so that a refresh fits.
pub proof fn law_lane_sizes_match(m: Model, a: Alphabet, layout: ExchangeLayout, kind: BufferKind)
    requires
        m.tensors_match(a),
    ensures
        kind.size(BufferSizes::of_lane(m, a, layout)) == kind.size(
            BufferSizes::of_model(m, a, layout),
        ),
{
    let c = m.config.context;
    assert(BufferSizes::of_lane(m, a, layout) == BufferSizes::of_model(m, a, layout));
}

/// The host memory that a story batch is prepared in.
#[derive(Debug, Clone, Copy, PartialEq, Eq, Structural)]
pub struct HostSizes {
    pub pointer_tables: usize,
    pub step_buffers: usize,
    pub step_counts: usize,
    pub base_ticks: usize,
    pub change_counts: usize,
}

/// The host memory that a story batch of the largest size is prepared in: five counts of changed
/// places for each lane.
pub fn host_sizes() -> (r: HostSizes)
    ensures
        r.pointer_tables == GPU_STORY_BATCH_MAX_LANES * 8,
        r.step_buffers == GPU_STORY_BATCH_MAX_LANES * 8,
        r.step_counts == GPU_STORY_BATCH_MAX_LANES * 4,
        r.base_ticks == GPU_STORY_BATCH_MAX_LANES * 8,
        r.change_counts == GPU_STORY_BATCH_MAX_LANES * 5 * 4,
{
    HostSizes {
        pointer_tables: GPU_STORY_BATCH_MAX_LANES * 8,
        step_buffers: GPU_STORY_BATCH_MAX_LANES * 8,
        step_counts: GPU_STORY_BATCH_MAX_LANES * 4,
        base_ticks: GPU_STORY_BATCH_MAX_LANES * 8,
        change_counts: GPU_STORY_BATCH_MAX_LANES * 5 * 4,
    }
}

/// The host memory of one lane.
#[derive(Debug, Clone, Copy, PartialEq, Eq, Structural)]
pub struct LaneHostSizes {
    pub pointer_table: usize,
    pub steps: usize,
    pub records: usize,
}

/// The host memory of one lane.
pub fn lane_host_sizes(layout: &ExchangeLayout) -> (r: LaneHostSizes)
    ensures
        r.pointer_table == allocation(layout.persistent_pointers as int, 8),
        r.steps == allocation(
            TRAINING_STEP_BATCH_CAPACITY as int,
            layout.device_step_bytes as int,
        ),
        r.records == allocation(
            TRAINING_STEP_BATCH_CAPACITY as int,
            layout.training_record_bytes as int,
        ),
{
    LaneHostSizes {
        pointer_table: allocation_bytes(layout.persistent_pointers, 8),
        steps: allocation_bytes(TRAINING_STEP_BATCH_CAPACITY, layout.device_step_bytes),
        records: allocation_bytes(TRAINING_STEP_BATCH_CAPACITY, layout.training_record_bytes),
    }
}

} // verus!
