//! The kernels of a step and the arguments that each of them takes.

use crate::buffers::{
    BufferKind, ChangedTensor, ContextBuffer, LearnedBuffer, ListPart, OutputBuffer, RecordBuffer,
    RingBuffer, Side, StateBuffer, TopologyBuffer, TraceBuffer,
};
use vstd::prelude::*;

verus! {

/// The kernels of a step.
#[derive(Debug, Clone, Copy, PartialEq, Eq, Structural)]
pub enum StepKernel {
    /// Opens a tick.
    StartTick,
    /// Delivers the events that arrive at a tick.
    DeliverEvents,
    /// Feeds a symbol in.
    InjectSymbol,
    /// Finds the contexts of the history.
    ContextResolve,
    /// Selects the winners of each block.
    SelectBlocks,
    /// Selects the winners of all blocks.
    SelectGlobal,
    /// Keeps the surrogate slopes.
    CacheSurrogate,
    /// Updates the traces of the recurrent synapses.
    UpdateRecurrentEligibility,
    /// Updates the traces of the input synapses.
    UpdateInputEligibility,
    /// Lets the active neurons emit.
    PostAndEmit,
    /// Predicts.
    Forward,
    /// Spreads the error over the neurons.
    LearningSignals,
    /// Learns the output weights.
    UpdateOutput,
    /// Learns the context memory.
    UpdateContext,
    /// Learns the recurrent weights.
    UpdateRecurrentWeights,
    /// Learns the input weights.
    UpdateInputWeights,
    /// Balances inhibition.
    InhibitoryHomeostasis,
    /// Moves the thresholds.
    Homeostasis,
    /// Keeps what a step gave.
    CaptureTrainingStep,
    /// Sets the clocks of neurons and synapses.
    ResetLastTicks,
}

/// The arguments that a kernel of a step takes: buffers, and values of the step.
#[derive(Debug, Clone, Copy, PartialEq, Eq, Structural)]
pub enum LaunchArgument {
    Buffer(BufferKind),
    Tick,
    LearningTrace,
    Symbol,
    ContextEnabled,
    AllocateContext,
    TargetIndex,
    SupervisedStrength,
    Strength,
    RecordIndex,
    NeuronCount,
    RecurrentCount,
    InputCount,
}

impl StepKernel {
    /// The arguments of the kernel, in their order.
    pub open spec fn takes(self) -> Seq<LaunchArgument> {
        match self {
            StepKernel::StartTick => seq![
                LaunchArgument::Buffer(BufferKind::Config),
                LaunchArgument::Tick,
                LaunchArgument::Buffer(BufferKind::State(StateBuffer::Active)),
                LaunchArgument::Buffer(BufferKind::State(StateBuffer::ActiveCount)),
                LaunchArgument::Buffer(BufferKind::State(StateBuffer::Activation)),
                LaunchArgument::Buffer(BufferKind::State(StateBuffer::TouchedEpoch)),
                LaunchArgument::Buffer(BufferKind::Output(OutputBuffer::DestinationEpoch)),
                LaunchArgument::Buffer(BufferKind::Output(OutputBuffer::Counters)),
            ],
            StepKernel::DeliverEvents => seq![
                LaunchArgument::Buffer(BufferKind::Config),
                LaunchArgument::Tick,
                LaunchArgument::Buffer(BufferKind::Topology(TopologyBuffer::RecurrentTarget)),
                LaunchArgument::Buffer(BufferKind::Topology(TopologyBuffer::RecurrentBranch)),
                LaunchArgument::Buffer(BufferKind::Topology(TopologyBuffer::RecurrentDelay)),
                LaunchArgument::Buffer(BufferKind::Ring(RingBuffer::Count)),
                LaunchArgument::Buffer(BufferKind::Ring(RingBuffer::Source)),
                LaunchArgument::Buffer(BufferKind::Ring(RingBuffer::Activation)),
                LaunchArgument::Buffer(BufferKind::Ring(RingBuffer::Weight)),
                LaunchArgument::Buffer(BufferKind::State(StateBuffer::BranchDelta)),
                LaunchArgument::Buffer(BufferKind::State(StateBuffer::TouchedEpoch)),
                LaunchArgument::LearningTrace,
                LaunchArgument::Buffer(BufferKind::Trace(Side::Recurrent, TraceBuffer::BranchSensitivity)),
                LaunchArgument::Buffer(BufferKind::Trace(Side::Recurrent, TraceBuffer::MembraneSensitivity)),
                LaunchArgument::Buffer(BufferKind::Trace(Side::Recurrent, TraceBuffer::FatigueSensitivity)),
                LaunchArgument::Buffer(BufferKind::Trace(Side::Recurrent, TraceBuffer::AdaptationFastSensitivity)),
                LaunchArgument::Buffer(BufferKind::Trace(Side::Recurrent, TraceBuffer::AdaptationMediumSensitivity)),
                LaunchArgument::Buffer(BufferKind::Trace(Side::Recurrent, TraceBuffer::AdaptationSlowSensitivity)),
                LaunchArgument::Buffer(BufferKind::Trace(Side::Recurrent, TraceBuffer::Eligibility)),
                LaunchArgument::Buffer(BufferKind::Trace(Side::Recurrent, TraceBuffer::LastTick)),
                LaunchArgument::Buffer(BufferKind::Trace(Side::Recurrent, TraceBuffer::EligibleMark)),
                LaunchArgument::Buffer(BufferKind::Trace(Side::Recurrent, TraceBuffer::EligibleList)),
                LaunchArgument::Buffer(BufferKind::Trace(Side::Recurrent, TraceBuffer::EligibleCount)),
            ],
            StepKernel::InjectSymbol => seq![
                LaunchArgument::Buffer(BufferKind::Config),
                LaunchArgument::Tick,
                LaunchArgument::Symbol,
                LaunchArgument::Buffer(BufferKind::Topology(TopologyBuffer::InputTarget)),
                LaunchArgument::Buffer(BufferKind::Topology(TopologyBuffer::InputBranch)),
                LaunchArgument::Buffer(BufferKind::Learned(LearnedBuffer::InputWeight)),
                LaunchArgument::Buffer(BufferKind::State(StateBuffer::BranchDelta)),
                LaunchArgument::Buffer(BufferKind::State(StateBuffer::TouchedEpoch)),
                LaunchArgument::LearningTrace,
                LaunchArgument::Buffer(BufferKind::Trace(Side::Input, TraceBuffer::BranchSensitivity)),
                LaunchArgument::Buffer(BufferKind::Trace(Side::Input, TraceBuffer::MembraneSensitivity)),
                LaunchArgument::Buffer(BufferKind::Trace(Side::Input, TraceBuffer::FatigueSensitivity)),
                LaunchArgument::Buffer(BufferKind::Trace(Side::Input, TraceBuffer::AdaptationFastSensitivity)),
                LaunchArgument::Buffer(BufferKind::Trace(Side::Input, TraceBuffer::AdaptationMediumSensitivity)),
                LaunchArgument::Buffer(BufferKind::Trace(Side::Input, TraceBuffer::AdaptationSlowSensitivity)),
                LaunchArgument::Buffer(BufferKind::Trace(Side::Input, TraceBuffer::Eligibility)),
                LaunchArgument::Buffer(BufferKind::Trace(Side::Input, TraceBuffer::LastTick)),
                LaunchArgument::Buffer(BufferKind::Trace(Side::Input, TraceBuffer::EligibleMark)),
                LaunchArgument::Buffer(BufferKind::Trace(Side::Input, TraceBuffer::EligibleList)),
                LaunchArgument::Buffer(BufferKind::Trace(Side::Input, TraceBuffer::EligibleCount)),
            ],
            StepKernel::ContextResolve => seq![
                LaunchArgument::Buffer(BufferKind::Config),
                LaunchArgument::Symbol,
                LaunchArgument::ContextEnabled,
                LaunchArgument::AllocateContext,
                LaunchArgument::Buffer(BufferKind::Context(ContextBuffer::History)),
                LaunchArgument::Buffer(BufferKind::Context(ContextBuffer::HistoryCount)),
                LaunchArgument::Buffer(BufferKind::Learned(LearnedBuffer::ContextKeys)),
                LaunchArgument::Buffer(BufferKind::Learned(LearnedBuffer::ContextEmbeddings)),
                LaunchArgument::Buffer(BufferKind::Learned(LearnedBuffer::ContextObservations)),
                LaunchArgument::Buffer(BufferKind::Context(ContextBuffer::ActiveSlots)),
                LaunchArgument::Buffer(BufferKind::Context(ContextBuffer::ActiveScales)),
                LaunchArgument::Buffer(BufferKind::Context(ContextBuffer::ActiveCount)),
                LaunchArgument::Buffer(BufferKind::Changed(ChangedTensor::Context, ListPart::Marks)),
                LaunchArgument::Buffer(BufferKind::Changed(ChangedTensor::Context, ListPart::List)),
                LaunchArgument::Buffer(BufferKind::Changed(ChangedTensor::Context, ListPart::Count)),
                LaunchArgument::Buffer(BufferKind::Output(OutputBuffer::Counters)),
            ],
            StepKernel::SelectBlocks => seq![
                LaunchArgument::Buffer(BufferKind::Config),
                LaunchArgument::Tick,
                LaunchArgument::Buffer(BufferKind::Learned(LearnedBuffer::Threshold)),
                LaunchArgument::Buffer(BufferKind::Topology(TopologyBuffer::Excitability)),
                LaunchArgument::Buffer(BufferKind::State(StateBuffer::Membrane)),
                LaunchArgument::Buffer(BufferKind::State(StateBuffer::Activation)),
                LaunchArgument::Buffer(BufferKind::State(StateBuffer::Fatigue)),
                LaunchArgument::Buffer(BufferKind::State(StateBuffer::RefractoryUntil)),
                LaunchArgument::Buffer(BufferKind::State(StateBuffer::Branches)),
                LaunchArgument::Buffer(BufferKind::State(StateBuffer::BranchDelta)),
                LaunchArgument::Buffer(BufferKind::State(StateBuffer::BranchLastTick)),
                LaunchArgument::Buffer(BufferKind::State(StateBuffer::NeuronLastTick)),
                LaunchArgument::Buffer(BufferKind::State(StateBuffer::AdaptationFast)),
                LaunchArgument::Buffer(BufferKind::State(StateBuffer::AdaptationMedium)),
                LaunchArgument::Buffer(BufferKind::State(StateBuffer::AdaptationSlow)),
                LaunchArgument::Buffer(BufferKind::State(StateBuffer::TouchedEpoch)),
                LaunchArgument::Buffer(BufferKind::State(StateBuffer::PopulationInhibition)),
                LaunchArgument::Buffer(BufferKind::State(StateBuffer::CandidateActivation)),
                LaunchArgument::Buffer(BufferKind::State(StateBuffer::BlockWinnerNeuron)),
                LaunchArgument::Buffer(BufferKind::State(StateBuffer::BlockWinnerValue)),
                LaunchArgument::Buffer(BufferKind::State(StateBuffer::BlockCutoff)),
                LaunchArgument::Buffer(BufferKind::Output(OutputBuffer::Counters)),
            ],
            StepKernel::SelectGlobal => seq![
                LaunchArgument::Buffer(BufferKind::Config),
                LaunchArgument::Tick,
                LaunchArgument::Buffer(BufferKind::State(StateBuffer::BlockWinnerNeuron)),
                LaunchArgument::Buffer(BufferKind::State(StateBuffer::BlockWinnerValue)),
                LaunchArgument::Buffer(BufferKind::State(StateBuffer::Active)),
                LaunchArgument::Buffer(BufferKind::State(StateBuffer::ActiveValue)),
                LaunchArgument::Buffer(BufferKind::State(StateBuffer::ActiveCount)),
                LaunchArgument::Buffer(BufferKind::State(StateBuffer::Activation)),
                LaunchArgument::Buffer(BufferKind::State(StateBuffer::SelectedEpoch)),
                LaunchArgument::Buffer(BufferKind::Output(OutputBuffer::DestinationEpoch)),
                LaunchArgument::Buffer(BufferKind::State(StateBuffer::PopulationCutoff)),
                LaunchArgument::Buffer(BufferKind::State(StateBuffer::PopulationInhibition)),
                LaunchArgument::Buffer(BufferKind::Output(OutputBuffer::Counters)),
            ],
            StepKernel::CacheSurrogate => seq![
                LaunchArgument::Buffer(BufferKind::Config),
                LaunchArgument::Tick,
                LaunchArgument::Buffer(BufferKind::Learned(LearnedBuffer::Threshold)),
                LaunchArgument::Buffer(BufferKind::State(StateBuffer::Membrane)),
                LaunchArgument::Buffer(BufferKind::State(StateBuffer::RefractoryUntil)),
                LaunchArgument::Buffer(BufferKind::State(StateBuffer::TouchedEpoch)),
                LaunchArgument::Buffer(BufferKind::State(StateBuffer::SelectedEpoch)),
                LaunchArgument::Buffer(BufferKind::State(StateBuffer::BlockCutoff)),
                LaunchArgument::Buffer(BufferKind::State(StateBuffer::PopulationCutoff)),
                LaunchArgument::Buffer(BufferKind::State(StateBuffer::Surrogate)),
            ],
            StepKernel::UpdateRecurrentEligibility => seq![
                LaunchArgument::Buffer(BufferKind::Config),
                LaunchArgument::Tick,
                LaunchArgument::Buffer(BufferKind::Topology(TopologyBuffer::RecurrentTarget)),
                LaunchArgument::Buffer(BufferKind::Topology(TopologyBuffer::RecurrentBranch)),
                LaunchArgument::Buffer(BufferKind::Topology(TopologyBuffer::Excitability)),
                LaunchArgument::Buffer(BufferKind::State(StateBuffer::Branches)),
                LaunchArgument::Buffer(BufferKind::State(StateBuffer::RefractoryUntil)),
                LaunchArgument::Buffer(BufferKind::State(StateBuffer::TouchedEpoch)),
                LaunchArgument::Buffer(BufferKind::State(StateBuffer::SelectedEpoch)),
                LaunchArgument::Buffer(BufferKind::State(StateBuffer::Surrogate)),
                LaunchArgument::Buffer(BufferKind::Trace(Side::Recurrent, TraceBuffer::BranchSensitivity)),
                LaunchArgument::Buffer(BufferKind::Trace(Side::Recurrent, TraceBuffer::MembraneSensitivity)),
                LaunchArgument::Buffer(BufferKind::Trace(Side::Recurrent, TraceBuffer::FatigueSensitivity)),
                LaunchArgument::Buffer(BufferKind::Trace(Side::Recurrent, TraceBuffer::AdaptationFastSensitivity)),
                LaunchArgument::Buffer(BufferKind::Trace(Side::Recurrent, TraceBuffer::AdaptationMediumSensitivity)),
                LaunchArgument::Buffer(BufferKind::Trace(Side::Recurrent, TraceBuffer::AdaptationSlowSensitivity)),
                LaunchArgument::Buffer(BufferKind::Trace(Side::Recurrent, TraceBuffer::Eligibility)),
                LaunchArgument::Buffer(BufferKind::Trace(Side::Recurrent, TraceBuffer::LastTick)),
                LaunchArgument::Buffer(BufferKind::Trace(Side::Recurrent, TraceBuffer::EligibleMark)),
                LaunchArgument::Buffer(BufferKind::Trace(Side::Recurrent, TraceBuffer::EligibleList)),
                LaunchArgument::Buffer(BufferKind::Trace(Side::Recurrent, TraceBuffer::EligibleCount)),
                LaunchArgument::Buffer(BufferKind::Trace(Side::Recurrent, TraceBuffer::NextEligibleList)),
                LaunchArgument::Buffer(BufferKind::Trace(Side::Recurrent, TraceBuffer::NextEligibleCount)),
                LaunchArgument::Buffer(BufferKind::Output(OutputBuffer::DestinationEpoch)),
                LaunchArgument::Buffer(BufferKind::Output(OutputBuffer::Counters)),
            ],
            StepKernel::UpdateInputEligibility => seq![
                LaunchArgument::Buffer(BufferKind::Config),
                LaunchArgument::Tick,
                LaunchArgument::Buffer(BufferKind::Topology(TopologyBuffer::InputTarget)),
                LaunchArgument::Buffer(BufferKind::Topology(TopologyBuffer::InputBranch)),
                LaunchArgument::Buffer(BufferKind::Topology(TopologyBuffer::Excitability)),
                LaunchArgument::Buffer(BufferKind::State(StateBuffer::Branches)),
                LaunchArgument::Buffer(BufferKind::State(StateBuffer::RefractoryUntil)),
                LaunchArgument::Buffer(BufferKind::State(StateBuffer::TouchedEpoch)),
                LaunchArgument::Buffer(BufferKind::State(StateBuffer::SelectedEpoch)),
                LaunchArgument::Buffer(BufferKind::State(StateBuffer::Surrogate)),
                LaunchArgument::Buffer(BufferKind::Trace(Side::Input, TraceBuffer::BranchSensitivity)),
                LaunchArgument::Buffer(BufferKind::Trace(Side::Input, TraceBuffer::MembraneSensitivity)),
                LaunchArgument::Buffer(BufferKind::Trace(Side::Input, TraceBuffer::FatigueSensitivity)),
                LaunchArgument::Buffer(BufferKind::Trace(Side::Input, TraceBuffer::AdaptationFastSensitivity)),
                LaunchArgument::Buffer(BufferKind::Trace(Side::Input, TraceBuffer::AdaptationMediumSensitivity)),
                LaunchArgument::Buffer(BufferKind::Trace(Side::Input, TraceBuffer::AdaptationSlowSensitivity)),
                LaunchArgument::Buffer(BufferKind::Trace(Side::Input, TraceBuffer::Eligibility)),
                LaunchArgument::Buffer(BufferKind::Trace(Side::Input, TraceBuffer::LastTick)),
                LaunchArgument::Buffer(BufferKind::Trace(Side::Input, TraceBuffer::EligibleMark)),
                LaunchArgument::Buffer(BufferKind::Trace(Side::Input, TraceBuffer::EligibleList)),
                LaunchArgument::Buffer(BufferKind::Trace(Side::Input, TraceBuffer::EligibleCount)),
                LaunchArgument::Buffer(BufferKind::Trace(Side::Input, TraceBuffer::NextEligibleList)),
                LaunchArgument::Buffer(BufferKind::Trace(Side::Input, TraceBuffer::NextEligibleCount)),
                LaunchArgument::Buffer(BufferKind::Output(OutputBuffer::DestinationEpoch)),
                LaunchArgument::Buffer(BufferKind::Output(OutputBuffer::Counters)),
            ],
            StepKernel::PostAndEmit => seq![
                LaunchArgument::Buffer(BufferKind::Config),
                LaunchArgument::Tick,
                LaunchArgument::Buffer(BufferKind::Learned(LearnedBuffer::Threshold)),
                LaunchArgument::Buffer(BufferKind::Learned(LearnedBuffer::RecurrentWeight)),
                LaunchArgument::Buffer(BufferKind::State(StateBuffer::Active)),
                LaunchArgument::Buffer(BufferKind::State(StateBuffer::ActiveValue)),
                LaunchArgument::Buffer(BufferKind::State(StateBuffer::ActiveCount)),
                LaunchArgument::Buffer(BufferKind::State(StateBuffer::Membrane)),
                LaunchArgument::Buffer(BufferKind::State(StateBuffer::Fatigue)),
                LaunchArgument::Buffer(BufferKind::State(StateBuffer::RefractoryUntil)),
                LaunchArgument::Buffer(BufferKind::State(StateBuffer::AdaptationFast)),
                LaunchArgument::Buffer(BufferKind::State(StateBuffer::AdaptationMedium)),
                LaunchArgument::Buffer(BufferKind::State(StateBuffer::AdaptationSlow)),
                LaunchArgument::Buffer(BufferKind::Ring(RingBuffer::Count)),
                LaunchArgument::Buffer(BufferKind::Ring(RingBuffer::Source)),
                LaunchArgument::Buffer(BufferKind::Ring(RingBuffer::Activation)),
                LaunchArgument::Buffer(BufferKind::Ring(RingBuffer::Weight)),
            ],
            StepKernel::Forward => seq![
                LaunchArgument::Buffer(BufferKind::Config),
                LaunchArgument::Buffer(BufferKind::Learned(LearnedBuffer::OutputWeight)),
                LaunchArgument::Buffer(BufferKind::Learned(LearnedBuffer::OutputBias)),
                LaunchArgument::Buffer(BufferKind::Learned(LearnedBuffer::ContextEmbeddings)),
                LaunchArgument::Buffer(BufferKind::Learned(LearnedBuffer::ContextOutputWeight)),
                LaunchArgument::Buffer(BufferKind::State(StateBuffer::Active)),
                LaunchArgument::Buffer(BufferKind::State(StateBuffer::ActiveValue)),
                LaunchArgument::Buffer(BufferKind::State(StateBuffer::ActiveCount)),
                LaunchArgument::Buffer(BufferKind::Context(ContextBuffer::ActiveSlots)),
                LaunchArgument::Buffer(BufferKind::Context(ContextBuffer::ActiveScales)),
                LaunchArgument::Buffer(BufferKind::Context(ContextBuffer::ActiveCount)),
                LaunchArgument::TargetIndex,
                LaunchArgument::Buffer(BufferKind::Output(OutputBuffer::NeuralLogits)),
                LaunchArgument::Buffer(BufferKind::Output(OutputBuffer::Logits)),
                LaunchArgument::Buffer(BufferKind::Output(OutputBuffer::Probabilities)),
                LaunchArgument::Buffer(BufferKind::Output(OutputBuffer::Errors)),
                LaunchArgument::Buffer(BufferKind::Context(ContextBuffer::Latent)),
                LaunchArgument::Buffer(BufferKind::Context(ContextBuffer::Gradient)),
            ],
            StepKernel::LearningSignals => seq![
                LaunchArgument::Buffer(BufferKind::Config),
                LaunchArgument::Tick,
                LaunchArgument::Buffer(BufferKind::Learned(LearnedBuffer::OutputWeight)),
                LaunchArgument::Buffer(BufferKind::Output(OutputBuffer::Errors)),
                LaunchArgument::Buffer(BufferKind::Output(OutputBuffer::DestinationEpoch)),
                LaunchArgument::Buffer(BufferKind::Output(OutputBuffer::LearningSignal)),
            ],
            StepKernel::UpdateOutput => seq![
                LaunchArgument::Buffer(BufferKind::Config),
                LaunchArgument::Buffer(BufferKind::Learned(LearnedBuffer::OutputWeight)),
                LaunchArgument::Buffer(BufferKind::Learned(LearnedBuffer::OutputBias)),
                LaunchArgument::Buffer(BufferKind::State(StateBuffer::Active)),
                LaunchArgument::Buffer(BufferKind::State(StateBuffer::ActiveValue)),
                LaunchArgument::Buffer(BufferKind::State(StateBuffer::ActiveCount)),
                LaunchArgument::Buffer(BufferKind::Output(OutputBuffer::Errors)),
                LaunchArgument::SupervisedStrength,
                LaunchArgument::Buffer(BufferKind::Changed(ChangedTensor::Output, ListPart::Marks)),
                LaunchArgument::Buffer(BufferKind::Changed(ChangedTensor::Output, ListPart::List)),
                LaunchArgument::Buffer(BufferKind::Changed(ChangedTensor::Output, ListPart::Count)),
                LaunchArgument::Buffer(BufferKind::Output(OutputBuffer::ErrorFlag)),
            ],
            StepKernel::UpdateContext => seq![
                LaunchArgument::Buffer(BufferKind::Config),
                LaunchArgument::Buffer(BufferKind::Learned(LearnedBuffer::ContextOutputWeight)),
                LaunchArgument::Buffer(BufferKind::Learned(LearnedBuffer::ContextEmbeddings)),
                LaunchArgument::Buffer(BufferKind::Learned(LearnedBuffer::ContextObservations)),
                LaunchArgument::Buffer(BufferKind::Context(ContextBuffer::ActiveSlots)),
                LaunchArgument::Buffer(BufferKind::Context(ContextBuffer::ActiveScales)),
                LaunchArgument::Buffer(BufferKind::Context(ContextBuffer::ActiveCount)),
                LaunchArgument::Buffer(BufferKind::Context(ContextBuffer::Latent)),
                LaunchArgument::Buffer(BufferKind::Context(ContextBuffer::Gradient)),
                LaunchArgument::Buffer(BufferKind::Output(OutputBuffer::Errors)),
                LaunchArgument::SupervisedStrength,
                LaunchArgument::Buffer(BufferKind::Changed(ChangedTensor::Context, ListPart::Marks)),
                LaunchArgument::Buffer(BufferKind::Changed(ChangedTensor::Context, ListPart::List)),
                LaunchArgument::Buffer(BufferKind::Changed(ChangedTensor::Context, ListPart::Count)),
                LaunchArgument::Buffer(BufferKind::Output(OutputBuffer::ErrorFlag)),
            ],
            StepKernel::UpdateRecurrentWeights => seq![
                LaunchArgument::Buffer(BufferKind::Config),
                LaunchArgument::Buffer(BufferKind::Topology(TopologyBuffer::RecurrentTarget)),
                LaunchArgument::Buffer(BufferKind::Topology(TopologyBuffer::NeuronType)),
                LaunchArgument::Buffer(BufferKind::Learned(LearnedBuffer::RecurrentWeight)),
                LaunchArgument::Buffer(BufferKind::Trace(Side::Recurrent, TraceBuffer::Eligibility)),
                LaunchArgument::Buffer(BufferKind::Trace(Side::Recurrent, TraceBuffer::EligibleList)),
                LaunchArgument::Buffer(BufferKind::Trace(Side::Recurrent, TraceBuffer::EligibleCount)),
                LaunchArgument::Buffer(BufferKind::Output(OutputBuffer::LearningSignal)),
                LaunchArgument::SupervisedStrength,
                LaunchArgument::Buffer(BufferKind::Changed(ChangedTensor::Recurrent, ListPart::Marks)),
                LaunchArgument::Buffer(BufferKind::Changed(ChangedTensor::Recurrent, ListPart::List)),
                LaunchArgument::Buffer(BufferKind::Changed(ChangedTensor::Recurrent, ListPart::Count)),
                LaunchArgument::Buffer(BufferKind::Output(OutputBuffer::Counters)),
                LaunchArgument::Buffer(BufferKind::Output(OutputBuffer::ErrorFlag)),
            ],
            StepKernel::UpdateInputWeights => seq![
                LaunchArgument::Buffer(BufferKind::Config),
                LaunchArgument::Buffer(BufferKind::Topology(TopologyBuffer::InputTarget)),
                LaunchArgument::Buffer(BufferKind::Learned(LearnedBuffer::InputWeight)),
                LaunchArgument::Buffer(BufferKind::Trace(Side::Input, TraceBuffer::Eligibility)),
                LaunchArgument::Buffer(BufferKind::Trace(Side::Input, TraceBuffer::EligibleList)),
                LaunchArgument::Buffer(BufferKind::Trace(Side::Input, TraceBuffer::EligibleCount)),
                LaunchArgument::Buffer(BufferKind::Output(OutputBuffer::LearningSignal)),
                LaunchArgument::SupervisedStrength,
                LaunchArgument::Buffer(BufferKind::Changed(ChangedTensor::Input, ListPart::Marks)),
                LaunchArgument::Buffer(BufferKind::Changed(ChangedTensor::Input, ListPart::List)),
                LaunchArgument::Buffer(BufferKind::Changed(ChangedTensor::Input, ListPart::Count)),
                LaunchArgument::Buffer(BufferKind::Output(OutputBuffer::Counters)),
                LaunchArgument::Buffer(BufferKind::Output(OutputBuffer::ErrorFlag)),
            ],
            StepKernel::InhibitoryHomeostasis => seq![
                LaunchArgument::Buffer(BufferKind::Config),
                LaunchArgument::Buffer(BufferKind::State(StateBuffer::Active)),
                LaunchArgument::Buffer(BufferKind::State(StateBuffer::ActiveValue)),
                LaunchArgument::Buffer(BufferKind::State(StateBuffer::ActiveCount)),
                LaunchArgument::Buffer(BufferKind::State(StateBuffer::Activation)),
                LaunchArgument::Buffer(BufferKind::Topology(TopologyBuffer::NeuronType)),
                LaunchArgument::Buffer(BufferKind::Topology(TopologyBuffer::RecurrentTarget)),
                LaunchArgument::Buffer(BufferKind::Learned(LearnedBuffer::RecurrentWeight)),
                LaunchArgument::Strength,
                LaunchArgument::Buffer(BufferKind::Changed(ChangedTensor::Recurrent, ListPart::Marks)),
                LaunchArgument::Buffer(BufferKind::Changed(ChangedTensor::Recurrent, ListPart::List)),
                LaunchArgument::Buffer(BufferKind::Changed(ChangedTensor::Recurrent, ListPart::Count)),
                LaunchArgument::Buffer(BufferKind::Output(OutputBuffer::ErrorFlag)),
            ],
            StepKernel::Homeostasis => seq![
                LaunchArgument::Buffer(BufferKind::Config),
                LaunchArgument::Tick,
                LaunchArgument::Buffer(BufferKind::State(StateBuffer::ActiveCount)),
                LaunchArgument::Buffer(BufferKind::State(StateBuffer::Activation)),
                LaunchArgument::Buffer(BufferKind::State(StateBuffer::TouchedEpoch)),
                LaunchArgument::Buffer(BufferKind::Learned(LearnedBuffer::Threshold)),
                LaunchArgument::Buffer(BufferKind::Changed(ChangedTensor::Threshold, ListPart::Marks)),
                LaunchArgument::Buffer(BufferKind::Changed(ChangedTensor::Threshold, ListPart::List)),
                LaunchArgument::Buffer(BufferKind::Changed(ChangedTensor::Threshold, ListPart::Count)),
            ],
            StepKernel::CaptureTrainingStep => seq![
                LaunchArgument::Buffer(BufferKind::Output(OutputBuffer::Probabilities)),
                LaunchArgument::Buffer(BufferKind::Output(OutputBuffer::NeuralLogits)),
                LaunchArgument::Buffer(BufferKind::State(StateBuffer::ActiveCount)),
                LaunchArgument::Buffer(BufferKind::State(StateBuffer::PopulationInhibition)),
                LaunchArgument::Buffer(BufferKind::Output(OutputBuffer::Counters)),
                LaunchArgument::Buffer(BufferKind::Output(OutputBuffer::ErrorFlag)),
                LaunchArgument::TargetIndex,
                LaunchArgument::Buffer(BufferKind::Record(RecordBuffer::TrainingRecords)),
                LaunchArgument::RecordIndex,
            ],
            StepKernel::ResetLastTicks => seq![
                LaunchArgument::Tick,
                LaunchArgument::NeuronCount,
                LaunchArgument::RecurrentCount,
                LaunchArgument::InputCount,
                LaunchArgument::Buffer(BufferKind::State(StateBuffer::BranchLastTick)),
                LaunchArgument::Buffer(BufferKind::State(StateBuffer::NeuronLastTick)),
                LaunchArgument::Buffer(BufferKind::Trace(Side::Recurrent, TraceBuffer::LastTick)),
                LaunchArgument::Buffer(BufferKind::Trace(Side::Input, TraceBuffer::LastTick)),
            ],
        }
    }

    /// The arguments of the kernel, in their order.
    #[verifier::rlimit(40)]
    pub fn arguments(self) -> (r: Vec<LaunchArgument>)
        ensures
            r@ == self.takes(),
    {
        let list: Vec<LaunchArgument> = match self {
            StepKernel::StartTick => vec![
                LaunchArgument::Buffer(BufferKind::Config),
                LaunchArgument::Tick,
                LaunchArgument::Buffer(BufferKind::State(StateBuffer::Active)),
                LaunchArgument::Buffer(BufferKind::State(StateBuffer::ActiveCount)),
                LaunchArgument::Buffer(BufferKind::State(StateBuffer::Activation)),
                LaunchArgument::Buffer(BufferKind::State(StateBuffer::TouchedEpoch)),
                LaunchArgument::Buffer(BufferKind::Output(OutputBuffer::DestinationEpoch)),
                LaunchArgument::Buffer(BufferKind::Output(OutputBuffer::Counters)),
            ],
            StepKernel::DeliverEvents => vec![
                LaunchArgument::Buffer(BufferKind::Config),
                LaunchArgument::Tick,
                LaunchArgument::Buffer(BufferKind::Topology(TopologyBuffer::RecurrentTarget)),
                LaunchArgument::Buffer(BufferKind::Topology(TopologyBuffer::RecurrentBranch)),
                LaunchArgument::Buffer(BufferKind::Topology(TopologyBuffer::RecurrentDelay)),
                LaunchArgument::Buffer(BufferKind::Ring(RingBuffer::Count)),
                LaunchArgument::Buffer(BufferKind::Ring(RingBuffer::Source)),
                LaunchArgument::Buffer(BufferKind::Ring(RingBuffer::Activation)),
                LaunchArgument::Buffer(BufferKind::Ring(RingBuffer::Weight)),
                LaunchArgument::Buffer(BufferKind::State(StateBuffer::BranchDelta)),
                LaunchArgument::Buffer(BufferKind::State(StateBuffer::TouchedEpoch)),
                LaunchArgument::LearningTrace,
                LaunchArgument::Buffer(BufferKind::Trace(Side::Recurrent, TraceBuffer::BranchSensitivity)),
                LaunchArgument::Buffer(BufferKind::Trace(Side::Recurrent, TraceBuffer::MembraneSensitivity)),
                LaunchArgument::Buffer(BufferKind::Trace(Side::Recurrent, TraceBuffer::FatigueSensitivity)),
                LaunchArgument::Buffer(BufferKind::Trace(Side::Recurrent, TraceBuffer::AdaptationFastSensitivity)),
                LaunchArgument::Buffer(BufferKind::Trace(Side::Recurrent, TraceBuffer::AdaptationMediumSensitivity)),
                LaunchArgument::Buffer(BufferKind::Trace(Side::Recurrent, TraceBuffer::AdaptationSlowSensitivity)),
                LaunchArgument::Buffer(BufferKind::Trace(Side::Recurrent, TraceBuffer::Eligibility)),
                LaunchArgument::Buffer(BufferKind::Trace(Side::Recurrent, TraceBuffer::LastTick)),
                LaunchArgument::Buffer(BufferKind::Trace(Side::Recurrent, TraceBuffer::EligibleMark)),
                LaunchArgument::Buffer(BufferKind::Trace(Side::Recurrent, TraceBuffer::EligibleList)),
                LaunchArgument::Buffer(BufferKind::Trace(Side::Recurrent, TraceBuffer::EligibleCount)),
            ],
            StepKernel::InjectSymbol => vec![
                LaunchArgument::Buffer(BufferKind::Config),
                LaunchArgument::Tick,
                LaunchArgument::Symbol,
                LaunchArgument::Buffer(BufferKind::Topology(TopologyBuffer::InputTarget)),
                LaunchArgument::Buffer(BufferKind::Topology(TopologyBuffer::InputBranch)),
                LaunchArgument::Buffer(BufferKind::Learned(LearnedBuffer::InputWeight)),
                LaunchArgument::Buffer(BufferKind::State(StateBuffer::BranchDelta)),
                LaunchArgument::Buffer(BufferKind::State(StateBuffer::TouchedEpoch)),
                LaunchArgument::LearningTrace,
                LaunchArgument::Buffer(BufferKind::Trace(Side::Input, TraceBuffer::BranchSensitivity)),
                LaunchArgument::Buffer(BufferKind::Trace(Side::Input, TraceBuffer::MembraneSensitivity)),
                LaunchArgument::Buffer(BufferKind::Trace(Side::Input, TraceBuffer::FatigueSensitivity)),
                LaunchArgument::Buffer(BufferKind::Trace(Side::Input, TraceBuffer::AdaptationFastSensitivity)),
                LaunchArgument::Buffer(BufferKind::Trace(Side::Input, TraceBuffer::AdaptationMediumSensitivity)),
                LaunchArgument::Buffer(BufferKind::Trace(Side::Input, TraceBuffer::AdaptationSlowSensitivity)),
                LaunchArgument::Buffer(BufferKind::Trace(Side::Input, TraceBuffer::Eligibility)),
                LaunchArgument::Buffer(BufferKind::Trace(Side::Input, TraceBuffer::LastTick)),
                LaunchArgument::Buffer(BufferKind::Trace(Side::Input, TraceBuffer::EligibleMark)),
                LaunchArgument::Buffer(BufferKind::Trace(Side::Input, TraceBuffer::EligibleList)),
                LaunchArgument::Buffer(BufferKind::Trace(Side::Input, TraceBuffer::EligibleCount)),
            ],
            StepKernel::ContextResolve => vec![
                LaunchArgument::Buffer(BufferKind::Config),
                LaunchArgument::Symbol,
                LaunchArgument::ContextEnabled,
                LaunchArgument::AllocateContext,
                LaunchArgument::Buffer(BufferKind::Context(ContextBuffer::History)),
                LaunchArgument::Buffer(BufferKind::Context(ContextBuffer::HistoryCount)),
                LaunchArgument::Buffer(BufferKind::Learned(LearnedBuffer::ContextKeys)),
                LaunchArgument::Buffer(BufferKind::Learned(LearnedBuffer::ContextEmbeddings)),
                LaunchArgument::Buffer(BufferKind::Learned(LearnedBuffer::ContextObservations)),
                LaunchArgument::Buffer(BufferKind::Context(ContextBuffer::ActiveSlots)),
                LaunchArgument::Buffer(BufferKind::Context(ContextBuffer::ActiveScales)),
                LaunchArgument::Buffer(BufferKind::Context(ContextBuffer::ActiveCount)),
                LaunchArgument::Buffer(BufferKind::Changed(ChangedTensor::Context, ListPart::Marks)),
                LaunchArgument::Buffer(BufferKind::Changed(ChangedTensor::Context, ListPart::List)),
                LaunchArgument::Buffer(BufferKind::Changed(ChangedTensor::Context, ListPart::Count)),
                LaunchArgument::Buffer(BufferKind::Output(OutputBuffer::Counters)),
            ],
            StepKernel::SelectBlocks => vec![
                LaunchArgument::Buffer(BufferKind::Config),
                LaunchArgument::Tick,
                LaunchArgument::Buffer(BufferKind::Learned(LearnedBuffer::Threshold)),
                LaunchArgument::Buffer(BufferKind::Topology(TopologyBuffer::Excitability)),
                LaunchArgument::Buffer(BufferKind::State(StateBuffer::Membrane)),
                LaunchArgument::Buffer(BufferKind::State(StateBuffer::Activation)),
                LaunchArgument::Buffer(BufferKind::State(StateBuffer::Fatigue)),
                LaunchArgument::Buffer(BufferKind::State(StateBuffer::RefractoryUntil)),
                LaunchArgument::Buffer(BufferKind::State(StateBuffer::Branches)),
                LaunchArgument::Buffer(BufferKind::State(StateBuffer::BranchDelta)),
                LaunchArgument::Buffer(BufferKind::State(StateBuffer::BranchLastTick)),
                LaunchArgument::Buffer(BufferKind::State(StateBuffer::NeuronLastTick)),
                LaunchArgument::Buffer(BufferKind::State(StateBuffer::AdaptationFast)),
                LaunchArgument::Buffer(BufferKind::State(StateBuffer::AdaptationMedium)),
                LaunchArgument::Buffer(BufferKind::State(StateBuffer::AdaptationSlow)),
                LaunchArgument::Buffer(BufferKind::State(StateBuffer::TouchedEpoch)),
                LaunchArgument::Buffer(BufferKind::State(StateBuffer::PopulationInhibition)),
                LaunchArgument::Buffer(BufferKind::State(StateBuffer::CandidateActivation)),
                LaunchArgument::Buffer(BufferKind::State(StateBuffer::BlockWinnerNeuron)),
                LaunchArgument::Buffer(BufferKind::State(StateBuffer::BlockWinnerValue)),
                LaunchArgument::Buffer(BufferKind::State(StateBuffer::BlockCutoff)),
                LaunchArgument::Buffer(BufferKind::Output(OutputBuffer::Counters)),
            ],
            StepKernel::SelectGlobal => vec![
                LaunchArgument::Buffer(BufferKind::Config),
                LaunchArgument::Tick,
                LaunchArgument::Buffer(BufferKind::State(StateBuffer::BlockWinnerNeuron)),
                LaunchArgument::Buffer(BufferKind::State(StateBuffer::BlockWinnerValue)),
                LaunchArgument::Buffer(BufferKind::State(StateBuffer::Active)),
                LaunchArgument::Buffer(BufferKind::State(StateBuffer::ActiveValue)),
                LaunchArgument::Buffer(BufferKind::State(StateBuffer::ActiveCount)),
                LaunchArgument::Buffer(BufferKind::State(StateBuffer::Activation)),
                LaunchArgument::Buffer(BufferKind::State(StateBuffer::SelectedEpoch)),
                LaunchArgument::Buffer(BufferKind::Output(OutputBuffer::DestinationEpoch)),
                LaunchArgument::Buffer(BufferKind::State(StateBuffer::PopulationCutoff)),
                LaunchArgument::Buffer(BufferKind::State(StateBuffer::PopulationInhibition)),
                LaunchArgument::Buffer(BufferKind::Output(OutputBuffer::Counters)),
            ],
            StepKernel::CacheSurrogate => vec![
                LaunchArgument::Buffer(BufferKind::Config),
                LaunchArgument::Tick,
                LaunchArgument::Buffer(BufferKind::Learned(LearnedBuffer::Threshold)),
                LaunchArgument::Buffer(BufferKind::State(StateBuffer::Membrane)),
                LaunchArgument::Buffer(BufferKind::State(StateBuffer::RefractoryUntil)),
                LaunchArgument::Buffer(BufferKind::State(StateBuffer::TouchedEpoch)),
                LaunchArgument::Buffer(BufferKind::State(StateBuffer::SelectedEpoch)),
                LaunchArgument::Buffer(BufferKind::State(StateBuffer::BlockCutoff)),
                LaunchArgument::Buffer(BufferKind::State(StateBuffer::PopulationCutoff)),
                LaunchArgument::Buffer(BufferKind::State(StateBuffer::Surrogate)),
            ],
            StepKernel::UpdateRecurrentEligibility => vec![
                LaunchArgument::Buffer(BufferKind::Config),
                LaunchArgument::Tick,
                LaunchArgument::Buffer(BufferKind::Topology(TopologyBuffer::RecurrentTarget)),
                LaunchArgument::Buffer(BufferKind::Topology(TopologyBuffer::RecurrentBranch)),
                LaunchArgument::Buffer(BufferKind::Topology(TopologyBuffer::Excitability)),
                LaunchArgument::Buffer(BufferKind::State(StateBuffer::Branches)),
                LaunchArgument::Buffer(BufferKind::State(StateBuffer::RefractoryUntil)),
                LaunchArgument::Buffer(BufferKind::State(StateBuffer::TouchedEpoch)),
                LaunchArgument::Buffer(BufferKind::State(StateBuffer::SelectedEpoch)),
                LaunchArgument::Buffer(BufferKind::State(StateBuffer::Surrogate)),
                LaunchArgument::Buffer(BufferKind::Trace(Side::Recurrent, TraceBuffer::BranchSensitivity)),
                LaunchArgument::Buffer(BufferKind::Trace(Side::Recurrent, TraceBuffer::MembraneSensitivity)),
                LaunchArgument::Buffer(BufferKind::Trace(Side::Recurrent, TraceBuffer::FatigueSensitivity)),
                LaunchArgument::Buffer(BufferKind::Trace(Side::Recurrent, TraceBuffer::AdaptationFastSensitivity)),
                LaunchArgument::Buffer(BufferKind::Trace(Side::Recurrent, TraceBuffer::AdaptationMediumSensitivity)),
                LaunchArgument::Buffer(BufferKind::Trace(Side::Recurrent, TraceBuffer::AdaptationSlowSensitivity)),
                LaunchArgument::Buffer(BufferKind::Trace(Side::Recurrent, TraceBuffer::Eligibility)),
                LaunchArgument::Buffer(BufferKind::Trace(Side::Recurrent, TraceBuffer::LastTick)),
                LaunchArgument::Buffer(BufferKind::Trace(Side::Recurrent, TraceBuffer::EligibleMark)),
                LaunchArgument::Buffer(BufferKind::Trace(Side::Recurrent, TraceBuffer::EligibleList)),
                LaunchArgument::Buffer(BufferKind::Trace(Side::Recurrent, TraceBuffer::EligibleCount)),
                LaunchArgument::Buffer(BufferKind::Trace(Side::Recurrent, TraceBuffer::NextEligibleList)),
                LaunchArgument::Buffer(BufferKind::Trace(Side::Recurrent, TraceBuffer::NextEligibleCount)),
                LaunchArgument::Buffer(BufferKind::Output(OutputBuffer::DestinationEpoch)),
                LaunchArgument::Buffer(BufferKind::Output(OutputBuffer::Counters)),
            ],
            StepKernel::UpdateInputEligibility => vec![
                LaunchArgument::Buffer(BufferKind::Config),
                LaunchArgument::Tick,
                LaunchArgument::Buffer(BufferKind::Topology(TopologyBuffer::InputTarget)),
                LaunchArgument::Buffer(BufferKind::Topology(TopologyBuffer::InputBranch)),
                LaunchArgument::Buffer(BufferKind::Topology(TopologyBuffer::Excitability)),
                LaunchArgument::Buffer(BufferKind::State(StateBuffer::Branches)),
                LaunchArgument::Buffer(BufferKind::State(StateBuffer::RefractoryUntil)),
                LaunchArgument::Buffer(BufferKind::State(StateBuffer::TouchedEpoch)),
                LaunchArgument::Buffer(BufferKind::State(StateBuffer::SelectedEpoch)),
                LaunchArgument::Buffer(BufferKind::State(StateBuffer::Surrogate)),
                LaunchArgument::Buffer(BufferKind::Trace(Side::Input, TraceBuffer::BranchSensitivity)),
                LaunchArgument::Buffer(BufferKind::Trace(Side::Input, TraceBuffer::MembraneSensitivity)),
                LaunchArgument::Buffer(BufferKind::Trace(Side::Input, TraceBuffer::FatigueSensitivity)),
                LaunchArgument::Buffer(BufferKind::Trace(Side::Input, TraceBuffer::AdaptationFastSensitivity)),
                LaunchArgument::Buffer(BufferKind::Trace(Side::Input, TraceBuffer::AdaptationMediumSensitivity)),
                LaunchArgument::Buffer(BufferKind::Trace(Side::Input, TraceBuffer::AdaptationSlowSensitivity)),
                LaunchArgument::Buffer(BufferKind::Trace(Side::Input, TraceBuffer::Eligibility)),
                LaunchArgument::Buffer(BufferKind::Trace(Side::Input, TraceBuffer::LastTick)),
                LaunchArgument::Buffer(BufferKind::Trace(Side::Input, TraceBuffer::EligibleMark)),
                LaunchArgument::Buffer(BufferKind::Trace(Side::Input, TraceBuffer::EligibleList)),
                LaunchArgument::Buffer(BufferKind::Trace(Side::Input, TraceBuffer::EligibleCount)),
                LaunchArgument::Buffer(BufferKind::Trace(Side::Input, TraceBuffer::NextEligibleList)),
                LaunchArgument::Buffer(BufferKind::Trace(Side::Input, TraceBuffer::NextEligibleCount)),
                LaunchArgument::Buffer(BufferKind::Output(OutputBuffer::DestinationEpoch)),
                LaunchArgument::Buffer(BufferKind::Output(OutputBuffer::Counters)),
            ],
            StepKernel::PostAndEmit => vec![
                LaunchArgument::Buffer(BufferKind::Config),
                LaunchArgument::Tick,
                LaunchArgument::Buffer(BufferKind::Learned(LearnedBuffer::Threshold)),
                LaunchArgument::Buffer(BufferKind::Learned(LearnedBuffer::RecurrentWeight)),
                LaunchArgument::Buffer(BufferKind::State(StateBuffer::Active)),
                LaunchArgument::Buffer(BufferKind::State(StateBuffer::ActiveValue)),
                LaunchArgument::Buffer(BufferKind::State(StateBuffer::ActiveCount)),
                LaunchArgument::Buffer(BufferKind::State(StateBuffer::Membrane)),
                LaunchArgument::Buffer(BufferKind::State(StateBuffer::Fatigue)),
                LaunchArgument::Buffer(BufferKind::State(StateBuffer::RefractoryUntil)),
                LaunchArgument::Buffer(BufferKind::State(StateBuffer::AdaptationFast)),
                LaunchArgument::Buffer(BufferKind::State(StateBuffer::AdaptationMedium)),
                LaunchArgument::Buffer(BufferKind::State(StateBuffer::AdaptationSlow)),
                LaunchArgument::Buffer(BufferKind::Ring(RingBuffer::Count)),
                LaunchArgument::Buffer(BufferKind::Ring(RingBuffer::Source)),
                LaunchArgument::Buffer(BufferKind::Ring(RingBuffer::Activation)),
                LaunchArgument::Buffer(BufferKind::Ring(RingBuffer::Weight)),
            ],
            StepKernel::Forward => vec![
                LaunchArgument::Buffer(BufferKind::Config),
                LaunchArgument::Buffer(BufferKind::Learned(LearnedBuffer::OutputWeight)),
                LaunchArgument::Buffer(BufferKind::Learned(LearnedBuffer::OutputBias)),
                LaunchArgument::Buffer(BufferKind::Learned(LearnedBuffer::ContextEmbeddings)),
                LaunchArgument::Buffer(BufferKind::Learned(LearnedBuffer::ContextOutputWeight)),
                LaunchArgument::Buffer(BufferKind::State(StateBuffer::Active)),
                LaunchArgument::Buffer(BufferKind::State(StateBuffer::ActiveValue)),
                LaunchArgument::Buffer(BufferKind::State(StateBuffer::ActiveCount)),
                LaunchArgument::Buffer(BufferKind::Context(ContextBuffer::ActiveSlots)),
                LaunchArgument::Buffer(BufferKind::Context(ContextBuffer::ActiveScales)),
                LaunchArgument::Buffer(BufferKind::Context(ContextBuffer::ActiveCount)),
                LaunchArgument::TargetIndex,
                LaunchArgument::Buffer(BufferKind::Output(OutputBuffer::NeuralLogits)),
                LaunchArgument::Buffer(BufferKind::Output(OutputBuffer::Logits)),
                LaunchArgument::Buffer(BufferKind::Output(OutputBuffer::Probabilities)),
                LaunchArgument::Buffer(BufferKind::Output(OutputBuffer::Errors)),
                LaunchArgument::Buffer(BufferKind::Context(ContextBuffer::Latent)),
                LaunchArgument::Buffer(BufferKind::Context(ContextBuffer::Gradient)),
            ],
            StepKernel::LearningSignals => vec![
                LaunchArgument::Buffer(BufferKind::Config),
                LaunchArgument::Tick,
                LaunchArgument::Buffer(BufferKind::Learned(LearnedBuffer::OutputWeight)),
                LaunchArgument::Buffer(BufferKind::Output(OutputBuffer::Errors)),
                LaunchArgument::Buffer(BufferKind::Output(OutputBuffer::DestinationEpoch)),
                LaunchArgument::Buffer(BufferKind::Output(OutputBuffer::LearningSignal)),
            ],
            StepKernel::UpdateOutput => vec![
                LaunchArgument::Buffer(BufferKind::Config),
                LaunchArgument::Buffer(BufferKind::Learned(LearnedBuffer::OutputWeight)),
                LaunchArgument::Buffer(BufferKind::Learned(LearnedBuffer::OutputBias)),
                LaunchArgument::Buffer(BufferKind::State(StateBuffer::Active)),
                LaunchArgument::Buffer(BufferKind::State(StateBuffer::ActiveValue)),
                LaunchArgument::Buffer(BufferKind::State(StateBuffer::ActiveCount)),
                LaunchArgument::Buffer(BufferKind::Output(OutputBuffer::Errors)),
                LaunchArgument::SupervisedStrength,
                LaunchArgument::Buffer(BufferKind::Changed(ChangedTensor::Output, ListPart::Marks)),
                LaunchArgument::Buffer(BufferKind::Changed(ChangedTensor::Output, ListPart::List)),
                LaunchArgument::Buffer(BufferKind::Changed(ChangedTensor::Output, ListPart::Count)),
                LaunchArgument::Buffer(BufferKind::Output(OutputBuffer::ErrorFlag)),
            ],
            StepKernel::UpdateContext => vec![
                LaunchArgument::Buffer(BufferKind::Config),
                LaunchArgument::Buffer(BufferKind::Learned(LearnedBuffer::ContextOutputWeight)),
                LaunchArgument::Buffer(BufferKind::Learned(LearnedBuffer::ContextEmbeddings)),
                LaunchArgument::Buffer(BufferKind::Learned(LearnedBuffer::ContextObservations)),
                LaunchArgument::Buffer(BufferKind::Context(ContextBuffer::ActiveSlots)),
                LaunchArgument::Buffer(BufferKind::Context(ContextBuffer::ActiveScales)),
                LaunchArgument::Buffer(BufferKind::Context(ContextBuffer::ActiveCount)),
                LaunchArgument::Buffer(BufferKind::Context(ContextBuffer::Latent)),
                LaunchArgument::Buffer(BufferKind::Context(ContextBuffer::Gradient)),
                LaunchArgument::Buffer(BufferKind::Output(OutputBuffer::Errors)),
                LaunchArgument::SupervisedStrength,
                LaunchArgument::Buffer(BufferKind::Changed(ChangedTensor::Context, ListPart::Marks)),
                LaunchArgument::Buffer(BufferKind::Changed(ChangedTensor::Context, ListPart::List)),
                LaunchArgument::Buffer(BufferKind::Changed(ChangedTensor::Context, ListPart::Count)),
                LaunchArgument::Buffer(BufferKind::Output(OutputBuffer::ErrorFlag)),
            ],
            StepKernel::UpdateRecurrentWeights => vec![
                LaunchArgument::Buffer(BufferKind::Config),
                LaunchArgument::Buffer(BufferKind::Topology(TopologyBuffer::RecurrentTarget)),
                LaunchArgument::Buffer(BufferKind::Topology(TopologyBuffer::NeuronType)),
                LaunchArgument::Buffer(BufferKind::Learned(LearnedBuffer::RecurrentWeight)),
                LaunchArgument::Buffer(BufferKind::Trace(Side::Recurrent, TraceBuffer::Eligibility)),
                LaunchArgument::Buffer(BufferKind::Trace(Side::Recurrent, TraceBuffer::EligibleList)),
                LaunchArgument::Buffer(BufferKind::Trace(Side::Recurrent, TraceBuffer::EligibleCount)),
                LaunchArgument::Buffer(BufferKind::Output(OutputBuffer::LearningSignal)),
                LaunchArgument::SupervisedStrength,
                LaunchArgument::Buffer(BufferKind::Changed(ChangedTensor::Recurrent, ListPart::Marks)),
                LaunchArgument::Buffer(BufferKind::Changed(ChangedTensor::Recurrent, ListPart::List)),
                LaunchArgument::Buffer(BufferKind::Changed(ChangedTensor::Recurrent, ListPart::Count)),
                LaunchArgument::Buffer(BufferKind::Output(OutputBuffer::Counters)),
                LaunchArgument::Buffer(BufferKind::Output(OutputBuffer::ErrorFlag)),
            ],
            StepKernel::UpdateInputWeights => vec![
                LaunchArgument::Buffer(BufferKind::Config),
                LaunchArgument::Buffer(BufferKind::Topology(TopologyBuffer::InputTarget)),
                LaunchArgument::Buffer(BufferKind::Learned(LearnedBuffer::InputWeight)),
                LaunchArgument::Buffer(BufferKind::Trace(Side::Input, TraceBuffer::Eligibility)),
                LaunchArgument::Buffer(BufferKind::Trace(Side::Input, TraceBuffer::EligibleList)),
                LaunchArgument::Buffer(BufferKind::Trace(Side::Input, TraceBuffer::EligibleCount)),
                LaunchArgument::Buffer(BufferKind::Output(OutputBuffer::LearningSignal)),
                LaunchArgument::SupervisedStrength,
                LaunchArgument::Buffer(BufferKind::Changed(ChangedTensor::Input, ListPart::Marks)),
                LaunchArgument::Buffer(BufferKind::Changed(ChangedTensor::Input, ListPart::List)),
                LaunchArgument::Buffer(BufferKind::Changed(ChangedTensor::Input, ListPart::Count)),
                LaunchArgument::Buffer(BufferKind::Output(OutputBuffer::Counters)),
                LaunchArgument::Buffer(BufferKind::Output(OutputBuffer::ErrorFlag)),
            ],
            StepKernel::InhibitoryHomeostasis => vec![
                LaunchArgument::Buffer(BufferKind::Config),
                LaunchArgument::Buffer(BufferKind::State(StateBuffer::Active)),
                LaunchArgument::Buffer(BufferKind::State(StateBuffer::ActiveValue)),
                LaunchArgument::Buffer(BufferKind::State(StateBuffer::ActiveCount)),
                LaunchArgument::Buffer(BufferKind::State(StateBuffer::Activation)),
                LaunchArgument::Buffer(BufferKind::Topology(TopologyBuffer::NeuronType)),
                LaunchArgument::Buffer(BufferKind::Topology(TopologyBuffer::RecurrentTarget)),
                LaunchArgument::Buffer(BufferKind::Learned(LearnedBuffer::RecurrentWeight)),
                LaunchArgument::Strength,
                LaunchArgument::Buffer(BufferKind::Changed(ChangedTensor::Recurrent, ListPart::Marks)),
                LaunchArgument::Buffer(BufferKind::Changed(ChangedTensor::Recurrent, ListPart::List)),
                LaunchArgument::Buffer(BufferKind::Changed(ChangedTensor::Recurrent, ListPart::Count)),
                LaunchArgument::Buffer(BufferKind::Output(OutputBuffer::ErrorFlag)),
            ],
            StepKernel::Homeostasis => vec![
                LaunchArgument::Buffer(BufferKind::Config),
                LaunchArgument::Tick,
                LaunchArgument::Buffer(BufferKind::State(StateBuffer::ActiveCount)),
                LaunchArgument::Buffer(BufferKind::State(StateBuffer::Activation)),
                LaunchArgument::Buffer(BufferKind::State(StateBuffer::TouchedEpoch)),
                LaunchArgument::Buffer(BufferKind::Learned(LearnedBuffer::Threshold)),
                LaunchArgument::Buffer(BufferKind::Changed(ChangedTensor::Threshold, ListPart::Marks)),
                LaunchArgument::Buffer(BufferKind::Changed(ChangedTensor::Threshold, ListPart::List)),
                LaunchArgument::Buffer(BufferKind::Changed(ChangedTensor::Threshold, ListPart::Count)),
            ],
            StepKernel::CaptureTrainingStep => vec![
                LaunchArgument::Buffer(BufferKind::Output(OutputBuffer::Probabilities)),
                LaunchArgument::Buffer(BufferKind::Output(OutputBuffer::NeuralLogits)),
                LaunchArgument::Buffer(BufferKind::State(StateBuffer::ActiveCount)),
                LaunchArgument::Buffer(BufferKind::State(StateBuffer::PopulationInhibition)),
                LaunchArgument::Buffer(BufferKind::Output(OutputBuffer::Counters)),
                LaunchArgument::Buffer(BufferKind::Output(OutputBuffer::ErrorFlag)),
                LaunchArgument::TargetIndex,
                LaunchArgument::Buffer(BufferKind::Record(RecordBuffer::TrainingRecords)),
                LaunchArgument::RecordIndex,
            ],
            StepKernel::ResetLastTicks => vec![
                LaunchArgument::Tick,
                LaunchArgument::NeuronCount,
                LaunchArgument::RecurrentCount,
                LaunchArgument::InputCount,
                LaunchArgument::Buffer(BufferKind::State(StateBuffer::BranchLastTick)),
                LaunchArgument::Buffer(BufferKind::State(StateBuffer::NeuronLastTick)),
                LaunchArgument::Buffer(BufferKind::Trace(Side::Recurrent, TraceBuffer::LastTick)),
                LaunchArgument::Buffer(BufferKind::Trace(Side::Input, TraceBuffer::LastTick)),
            ],
        };
        assert(list@ =~= self.takes());
        list
    }
}

} // verus!
