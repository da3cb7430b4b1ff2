//! The launches of a step, in their order: opening the tick, selecting, predicting, learning.

use crate::buffers::{buffers_of, lists_those_used, BufferKind, BufferUse, Side, TraceBuffer};
use crate::context::capped;
use crate::device::{
    as_u32, blocks_for, capacity_message, larger_of, launch_grid, reset_work, FORWARD_THREADS,
    GLOBAL_SELECTION_THREADS, SPARSE_LIST_WORK_ITEMS, THREADS,
};
use crate::error::{fails, LeoErrorKind, LeoResult};
use crate::model::Model;
use crate::replay::SingleStep;
use crate::runtime::{capped_add, capped_product};
use crate::step_kernels::StepKernel;
use crate::symbols::Alphabet;
use vstd::prelude::*;

verus! {

/// What a device is told to do.
#[derive(Debug, Clone, Copy, PartialEq, Eq, Structural)]
pub enum DeviceAction {
    /// Run a kernel over a grid of blocks.
    Launch { kernel: StepKernel, grid: u32, threads: u32 },
    /// Empty a buffer.
    Clear(BufferKind),
    /// Let two buffers change their names.
    Swap(BufferKind, BufferKind),
}

/// The launch of a kernel over some work: none where there is no work.
pub open spec fn covering(kernel: StepKernel, work: int) -> Seq<DeviceAction> {
    if work == 0 {
        seq![]
    } else {
        seq![
            DeviceAction::Launch {
                kernel,
                grid: blocks_for(work, THREADS as int) as u32,
                threads: THREADS,
            },
        ]
    }
}

/// The launch of a kernel with a fixed grid.
pub open spec fn exactly(kernel: StepKernel, grid: u32, threads: u32) -> Seq<DeviceAction> {
    seq![DeviceAction::Launch { kernel, grid, threads }]
}

fn cover(list: &mut Vec<DeviceAction>, kernel: StepKernel, work: usize)
    ensures
        final(list)@ == old(list)@ + covering(kernel, work as int),
{
    match launch_grid(work, THREADS) {
        Some(grid) => {
            list.push(DeviceAction::Launch { kernel, grid, threads: THREADS });
        },
        None => {},
    }
    assert(list@ =~= old(list)@ + covering(kernel, work as int));
}

fn launch_exactly(list: &mut Vec<DeviceAction>, kernel: StepKernel, grid: u32, threads: u32)
    ensures
        final(list)@ == old(list)@ + exactly(kernel, grid, threads),
{
    list.push(DeviceAction::Launch { kernel, grid, threads });
    assert(list@ =~= old(list)@ + exactly(kernel, grid, threads));
}

/// The work on a sparse list: long lists are walked in strides.
pub open spec fn sparse_work(synapses: int) -> int {
    if synapses < SPARSE_LIST_WORK_ITEMS {
        synapses
    } else {
        SPARSE_LIST_WORK_ITEMS as int
    }
}

fn sparse_items(synapses: usize) -> (r: usize)
    ensures
        r == sparse_work(synapses as int),
{
    if synapses < SPARSE_LIST_WORK_ITEMS {
        synapses
    } else {
        SPARSE_LIST_WORK_ITEMS
    }
}

/// The trace buffers of a kind of synapse that change their names after each update.
pub open spec fn trace_swaps(side: Side) -> Seq<DeviceAction> {
    seq![
        DeviceAction::Swap(
            BufferKind::Trace(side, TraceBuffer::EligibleList),
            BufferKind::Trace(side, TraceBuffer::NextEligibleList),
        ),
        DeviceAction::Swap(
            BufferKind::Trace(side, TraceBuffer::EligibleCount),
            BufferKind::Trace(side, TraceBuffer::NextEligibleCount),
        ),
    ]
}

fn swap_traces(list: &mut Vec<DeviceAction>, side: Side)
    ensures
        final(list)@ == old(list)@ + trace_swaps(side),
{
    list.push(
        DeviceAction::Swap(
            BufferKind::Trace(side, TraceBuffer::EligibleList),
            BufferKind::Trace(side, TraceBuffer::NextEligibleList),
        ),
    );
    list.push(
        DeviceAction::Swap(
            BufferKind::Trace(side, TraceBuffer::EligibleCount),
            BufferKind::Trace(side, TraceBuffer::NextEligibleCount),
        ),
    );
    assert(list@ =~= old(list)@ + trace_swaps(side));
}

/// The update of the traces of a kind of synapse: the list of the synapses that stay eligible is
/// started anew.
pub open spec fn trace_update(side: Side, kernel: StepKernel, synapses: int) -> Seq<DeviceAction> {
    seq![DeviceAction::Clear(BufferKind::Trace(side, TraceBuffer::NextEligibleCount))] + covering(
        kernel,
        sparse_work(synapses),
    )
}

fn update_traces(list: &mut Vec<DeviceAction>, side: Side, kernel: StepKernel, synapses: usize)
    ensures
        final(list)@ == old(list)@ + trace_update(side, kernel, synapses as int),
{
    list.push(DeviceAction::Clear(BufferKind::Trace(side, TraceBuffer::NextEligibleCount)));
    cover(list, kernel, sparse_items(synapses));
    assert(list@ =~= old(list)@ + trace_update(side, kernel, synapses as int));
}

/// The updates of all traces.
pub open spec fn trace_actions(m: Model) -> Seq<DeviceAction> {
    trace_update(
        Side::Recurrent,
        StepKernel::UpdateRecurrentEligibility,
        m.recurrent.weight@.len() as int,
    ) + trace_update(
        Side::Input,
        StepKernel::UpdateInputEligibility,
        m.input.weights@.len() as int,
    ) + trace_swaps(Side::Recurrent) + trace_swaps(Side::Input)
}

/// The launches that take a symbol in and select the active neurons.
pub open spec fn selection_actions(m: Model) -> Seq<DeviceAction> {
    let c = m.config.model;
    covering(
        StepKernel::StartTick,
        larger_of(c.neuron_count as int, c.max_active_global as int),
    ) + covering(
        StepKernel::DeliverEvents,
        capped(capped(c.max_active_global * c.synapses_per_neuron) * 4),
    ) + covering(StepKernel::InjectSymbol, c.input_fanout as int) + exactly(
        StepKernel::ContextResolve,
        1,
        1,
    ) + exactly(
        StepKernel::SelectBlocks,
        c.block_count as u32,
        c.neurons_per_block as u32,
    ) + exactly(StepKernel::SelectGlobal, 1, GLOBAL_SELECTION_THREADS) + covering(
        StepKernel::CacheSurrogate,
        c.neuron_count as int,
    )
}

/// The launches of a step up to its prediction. Traces are updated only where the step leaves
/// some.
pub open spec fn prefix_actions(m: Model, learning_trace: bool) -> Seq<DeviceAction> {
    selection_actions(m) + if learning_trace {
        trace_actions(m)
    } else {
        seq![]
    } + covering(StepKernel::PostAndEmit, m.config.model.max_active_global as int)
}

/// What keeps the prefix of a step from being launched.
pub open spec fn prefix_problem(m: Model) -> Option<Seq<char>> {
    if m.config.model.block_count > u32::MAX {
        Some(capacity_message("block count"@))
    } else if m.config.model.neurons_per_block > u32::MAX {
        Some(capacity_message("neurons per block"@))
    } else {
        None
    }
}

fn push_selection(list: &mut Vec<DeviceAction>, m: &Model, blocks: u32, per_block: u32)
    requires
        blocks == m.config.model.block_count,
        per_block == m.config.model.neurons_per_block,
    ensures
        final(list)@ == old(list)@ + selection_actions(*m),
{
    let c = &m.config.model;
    let opened: usize = if c.neuron_count < c.max_active_global {
        c.max_active_global
    } else {
        c.neuron_count
    };
    cover(list, StepKernel::StartTick, opened);
    cover(
        list,
        StepKernel::DeliverEvents,
        capped_product(capped_product(c.max_active_global, c.synapses_per_neuron), 4),
    );
    cover(list, StepKernel::InjectSymbol, c.input_fanout);
    launch_exactly(list, StepKernel::ContextResolve, 1, 1);
    launch_exactly(list, StepKernel::SelectBlocks, blocks, per_block);
    launch_exactly(list, StepKernel::SelectGlobal, 1, GLOBAL_SELECTION_THREADS);
    cover(list, StepKernel::CacheSurrogate, c.neuron_count);
    assert(list@ =~= old(list)@ + selection_actions(*m));
}

fn push_traces(list: &mut Vec<DeviceAction>, m: &Model)
    ensures
        final(list)@ == old(list)@ + trace_actions(*m),
{
    update_traces(
        list,
        Side::Recurrent,
        StepKernel::UpdateRecurrentEligibility,
        m.recurrent.weight.len(),
    );
    update_traces(
        list,
        Side::Input,
        StepKernel::UpdateInputEligibility,
        m.input.weights.len(),
    );
    swap_traces(list, Side::Recurrent);
    swap_traces(list, Side::Input);
    assert(list@ =~= old(list)@ + trace_actions(*m));
}

/// The launches of a step up to its prediction.
pub fn launch_step_prefix(m: &Model, learning_trace: bool) -> (r: LeoResult<Vec<DeviceAction>>)
    ensures
        match prefix_problem(*m) {
            Some(text) => fails(r, LeoErrorKind::Cuda, text),
            None => r matches Ok(list) && list@ == prefix_actions(*m, learning_trace),
        },
{
    let blocks: u32 = match as_u32("block count", m.config.model.block_count) {
        Ok(blocks) => blocks,
        Err(e) => {
            return Err(e);
        },
    };
    let per_block: u32 = match as_u32("neurons per block", m.config.model.neurons_per_block) {
        Ok(per_block) => per_block,
        Err(e) => {
            return Err(e);
        },
    };
    let mut list: Vec<DeviceAction> = Vec::new();
    push_selection(&mut list, m, blocks, per_block);
    if learning_trace {
        push_traces(&mut list, m);
    }
    cover(&mut list, StepKernel::PostAndEmit, m.config.model.max_active_global);
    assert(list@ =~= prefix_actions(*m, learning_trace));
    Ok(list)
}

/// The launches that learn how to predict from what is active.
pub open spec fn readout_actions(m: Model, a: Alphabet, context_enabled: bool) -> Seq<DeviceAction> {
    let d = m.config.context.embedding_dim;
    covering(StepKernel::LearningSignals, m.config.model.neuron_count as int) + covering(
        StepKernel::UpdateOutput,
        capped_add(
            capped(m.config.model.max_active_global * a.output_classes),
            a.output_classes as int,
        ),
    ) + if context_enabled {
        covering(
            StepKernel::UpdateContext,
            capped_add(capped(a.output_classes * d), capped(m.config.context.max_order * d)),
        )
    } else {
        seq![]
    }
}

/// The launches that learn what becomes active.
pub open spec fn synapse_actions(m: Model) -> Seq<DeviceAction> {
    covering(
        StepKernel::UpdateRecurrentWeights,
        sparse_work(m.recurrent.weight@.len() as int),
    ) + covering(StepKernel::UpdateInputWeights, sparse_work(m.input.weights@.len() as int))
        + covering(
        StepKernel::InhibitoryHomeostasis,
        capped(m.config.model.max_active_global * m.config.model.synapses_per_neuron),
    )
}

/// The launches that learn from a target.
pub open spec fn learning_actions(m: Model, a: Alphabet, context_enabled: bool) -> Seq<
    DeviceAction,
> {
    readout_actions(m, a, context_enabled) + synapse_actions(m)
}

fn push_readout(list: &mut Vec<DeviceAction>, m: &Model, a: &Alphabet, context_enabled: bool)
    ensures
        final(list)@ == old(list)@ + readout_actions(*m, *a, context_enabled),
{
    let d: usize = m.config.context.embedding_dim;
    cover(list, StepKernel::LearningSignals, m.config.model.neuron_count);
    let output_work: usize = capped_product(
        m.config.model.max_active_global,
        a.output_classes,
    ).saturating_add(a.output_classes);
    cover(list, StepKernel::UpdateOutput, output_work);
    if context_enabled {
        let context_work: usize = capped_product(a.output_classes, d).saturating_add(
            capped_product(m.config.context.max_order, d),
        );
        cover(list, StepKernel::UpdateContext, context_work);
    }
    assert(list@ =~= old(list)@ + readout_actions(*m, *a, context_enabled));
}

fn push_synapses(list: &mut Vec<DeviceAction>, m: &Model)
    ensures
        final(list)@ == old(list)@ + synapse_actions(*m),
{
    cover(list, StepKernel::UpdateRecurrentWeights, sparse_items(m.recurrent.weight.len()));
    cover(list, StepKernel::UpdateInputWeights, sparse_items(m.input.weights.len()));
    cover(
        list,
        StepKernel::InhibitoryHomeostasis,
        capped_product(m.config.model.max_active_global, m.config.model.synapses_per_neuron),
    );
    assert(list@ =~= old(list)@ + synapse_actions(*m));
}

/// The launches that learn from a target.
pub fn launch_learning(list: &mut Vec<DeviceAction>, m: &Model, a: &Alphabet, context_enabled: bool)
    ensures
        final(list)@ == old(list)@ + learning_actions(*m, *a, context_enabled),
{
    push_readout(list, m, a, context_enabled);
    push_synapses(list, m);
    assert(list@ =~= old(list)@ + learning_actions(*m, *a, context_enabled));
}

/// The launches of one step: its prefix, its prediction, learning where it learns, and the
/// thresholds where it leaves traces.
pub open spec fn step_actions(m: Model, a: Alphabet, s: SingleStep) -> Seq<DeviceAction> {
    prefix_actions(m, s.learning_trace) + exactly(StepKernel::Forward, 1, FORWARD_THREADS) + if s.learning is Some {
        learning_actions(m, a, s.note.context_enabled)
    } else {
        seq![]
    } + if s.learning_trace {
        covering(StepKernel::Homeostasis, m.config.model.neuron_count as int)
    } else {
        seq![]
    }
}

/// The launches of one step. Where `record` is given, what the step gave is kept there.
pub fn launch_step(m: &Model, a: &Alphabet, s: &SingleStep, record: Option<usize>) -> (r: LeoResult<
    Vec<DeviceAction>,
>)
    ensures
        match prefix_problem(*m) {
            Some(text) => fails(r, LeoErrorKind::Cuda, text),
            None => match record {
                None => r matches Ok(list) && list@ == step_actions(*m, *a, *s),
                Some(index) => if index > u32::MAX {
                    fails(r, LeoErrorKind::Cuda, capacity_message("training step record index"@))
                } else {
                    r matches Ok(list) && list@ == step_actions(*m, *a, *s) + exactly(
                        StepKernel::CaptureTrainingStep,
                        1,
                        1,
                    )
                },
            },
        },
{
    let mut list: Vec<DeviceAction> = match launch_step_prefix(m, s.learning_trace) {
        Ok(list) => list,
        Err(e) => {
            return Err(e);
        },
    };
    launch_exactly(&mut list, StepKernel::Forward, 1, FORWARD_THREADS);
    if s.learning.is_some() {
        launch_learning(&mut list, m, a, s.note.context_enabled);
    }
    if s.learning_trace {
        cover(&mut list, StepKernel::Homeostasis, m.config.model.neuron_count);
    }
    assert(list@ =~= step_actions(*m, *a, *s));
    match record {
        None => {},
        Some(index) => {
            match as_u32("training step record index", index) {
                Ok(_) => {},
                Err(e) => {
                    return Err(e);
                },
            }
            launch_exactly(&mut list, StepKernel::CaptureTrainingStep, 1, 1);
        },
    }
    Ok(list)
}

/// A kernel that changes what a model has learned or the traces that it learns from.
pub open spec fn is_plastic(kernel: StepKernel) -> bool {
    match kernel {
        StepKernel::UpdateRecurrentEligibility => true,
        StepKernel::UpdateInputEligibility => true,
        StepKernel::LearningSignals => true,
        StepKernel::UpdateOutput => true,
        StepKernel::UpdateContext => true,
        StepKernel::UpdateRecurrentWeights => true,
        StepKernel::UpdateInputWeights => true,
        StepKernel::InhibitoryHomeostasis => true,
        StepKernel::Homeostasis => true,
        _ => false,
    }
}

/// A step without traces launches no kernel that learns, and leaves every buffer its name.
pub proof fn law_frozen_steps_launch_no_learning(m: Model, a: Alphabet, s: SingleStep, i: int)
    requires
        !s.learning_trace,
        s.learning is None,
        0 <= i < step_actions(m, a, s).len(),
    ensures
        match step_actions(m, a, s)[i] {
            DeviceAction::Launch { kernel, .. } => !is_plastic(kernel),
            _ => false,
        },
{
}

/// The actions that empty the buffers of a use come before the launch that sets the clocks.
pub open spec fn resets(list: Seq<DeviceAction>, m: Model) -> bool {
    let work = larger_of(
        larger_of(m.config.model.neuron_count as int, m.recurrent.weight@.len() as int),
        m.input.weights@.len() as int,
    );
    exists|kinds: Seq<BufferKind>|
        #![trigger clears_of(kinds)]
        lists_those_used(kinds, BufferUse::DocumentCleared) && list == clears_of(kinds) + covering(
            StepKernel::ResetLastTicks,
            work,
        )
}

/// Emptying some buffers.
pub open spec fn clears_of(kinds: Seq<BufferKind>) -> Seq<DeviceAction> {
    Seq::new(kinds.len(), |i: int| DeviceAction::Clear(kinds[i]))
}

/// What keeps the state between two documents from being reset.
pub open spec fn reset_problem(m: Model) -> Option<Seq<char>> {
    if m.config.model.neuron_count > u32::MAX {
        Some(capacity_message("neuron count"@))
    } else if m.recurrent.weight@.len() > u32::MAX {
        Some(capacity_message("recurrent count"@))
    } else if m.input.weights@.len() > u32::MAX {
        Some(capacity_message("input count"@))
    } else {
        None
    }
}

/// Empties the state between two documents, and sets the clocks.
pub fn reset_transient_state(m: &Model) -> (r: LeoResult<Vec<DeviceAction>>)
    ensures
        match reset_problem(*m) {
            Some(text) => fails(r, LeoErrorKind::Cuda, text),
            None => r matches Ok(list) && resets(list@, *m),
        },
{
    match as_u32("neuron count", m.neuron_count()) {
        Ok(_) => {},
        Err(e) => {
            return Err(e);
        },
    }
    match as_u32("recurrent count", m.recurrent.weight.len()) {
        Ok(_) => {},
        Err(e) => {
            return Err(e);
        },
    }
    match as_u32("input count", m.input.weights.len()) {
        Ok(_) => {},
        Err(e) => {
            return Err(e);
        },
    }
    let kinds: Vec<BufferKind> = buffers_of(BufferUse::DocumentCleared);
    let mut list: Vec<DeviceAction> = Vec::new();
    let mut i: usize = 0;
    while i < kinds.len()
        invariant
            i <= kinds.len(),
            list@ == clears_of(kinds@.take(i as int)),
        decreases kinds.len() - i,
    {
        list.push(DeviceAction::Clear(kinds[i]));
        i = i + 1;
        assert(list@ =~= clears_of(kinds@.take(i as int)));
    }
    assert(kinds@.take(i as int) =~= kinds@);
    cover(&mut list, StepKernel::ResetLastTicks, reset_work(m));
    Ok(list)
}

} // verus!
