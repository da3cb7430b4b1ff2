//! How the changes of the lanes of a story batch are brought together in the packed buffers of a
//! snapshot, and how they are forgotten afterwards.

use crate::buffers::{ChangedTensor, LearnedBuffer};
use crate::snapshot::{
    counts_of, read_counts, ChangeCounts, LaneSnapshotLayout, SnapshotCursors, SnapshotPlan,
    SnapshotSpan,
};
use vstd::prelude::*;

verus! {

/// Something that is done with the buffers of a lane.
#[derive(Debug, Clone, Copy, PartialEq, Eq, Structural)]
pub enum GatherAction {
    /// The first places of the list of changed places are copied to a stretch of the packed words.
    CopyList { tensor: ChangedTensor, to: SnapshotSpan },
    /// The numbers at the changed places are gathered into a stretch of the packed values, one
    /// thread for each number.
    GatherNumbers { tensor: ChangedTensor, to: SnapshotSpan },
    /// The changed rows of the context memory are gathered: their keys, how often they were seen,
    /// and their embeddings.
    GatherRows {
        keys: SnapshotSpan,
        observations: SnapshotSpan,
        embeddings: SnapshotSpan,
        work: usize,
    },
    /// A whole tensor is copied to a stretch of the packed values.
    CopyTensor { tensor: LearnedBuffer, to: SnapshotSpan },
    /// The marks of the changed places are taken back, one thread for each.
    ClearMarks { tensor: ChangedTensor, work: usize },
    /// The count of changed places, which is zero, is written again.
    ClearCount { tensor: ChangedTensor },
}

/// An action on the buffers of a lane.
#[derive(Debug, Clone, Copy, PartialEq, Eq, Structural)]
pub struct LaneAction {
    pub lane: usize,
    pub action: GatherAction,
}

/// The stages of a snapshot, one after the other for all lanes.
#[derive(Debug, Clone, Copy, PartialEq, Eq, Structural)]
pub enum GatherStage {
    /// The lists of changed places are copied.
    Lists,
    /// The numbers at the changed places are gathered.
    Numbers,
    /// Whole tensors are copied.
    Tensors,
}

/// The parameters whose changed places are listed, in the order of their counters.
pub open spec fn tensor_at(i: int) -> ChangedTensor {
    if i == 0 {
        ChangedTensor::Threshold
    } else if i == 1 {
        ChangedTensor::Recurrent
    } else if i == 2 {
        ChangedTensor::Input
    } else if i == 3 {
        ChangedTensor::Output
    } else {
        ChangedTensor::Context
    }
}

/// The tensor that the numbers at changed places are gathered from.
pub open spec fn source_of(tensor: ChangedTensor) -> LearnedBuffer {
    match tensor {
        ChangedTensor::Threshold => LearnedBuffer::Threshold,
        ChangedTensor::Recurrent => LearnedBuffer::RecurrentWeight,
        ChangedTensor::Input => LearnedBuffer::InputWeight,
        ChangedTensor::Output => LearnedBuffer::OutputWeight,
        ChangedTensor::Context => LearnedBuffer::ContextEmbeddings,
    }
}

/// The tensor that the numbers at changed places are gathered from.
pub fn gather_source(tensor: ChangedTensor) -> (r: LearnedBuffer)
    ensures
        r == source_of(tensor),
{
    match tensor {
        ChangedTensor::Threshold => LearnedBuffer::Threshold,
        ChangedTensor::Recurrent => LearnedBuffer::RecurrentWeight,
        ChangedTensor::Input => LearnedBuffer::InputWeight,
        ChangedTensor::Output => LearnedBuffer::OutputWeight,
        ChangedTensor::Context => LearnedBuffer::ContextEmbeddings,
    }
}

/// An action, unless it has nothing to do.
pub open spec fn unless_empty(count: usize, action: GatherAction) -> Seq<GatherAction> {
    if count == 0 {
        seq![]
    } else {
        seq![action]
    }
}

/// The copy of a list of changed places.
pub open spec fn list_copy(tensor: ChangedTensor, to: SnapshotSpan) -> Seq<GatherAction> {
    unless_empty(to.len, GatherAction::CopyList { tensor, to })
}

/// The gathering of the numbers at changed places. `places` is how many there are.
pub open spec fn number_gather(tensor: ChangedTensor, places: usize, to: SnapshotSpan) -> Seq<
    GatherAction,
> {
    unless_empty(places, GatherAction::GatherNumbers { tensor, to })
}

/// The copy of a whole tensor, where it has changed.
pub open spec fn tensor_copy(tensor: LearnedBuffer, to: Option<SnapshotSpan>) -> Seq<GatherAction> {
    match to {
        Some(span) => seq![GatherAction::CopyTensor { tensor, to: span }],
        None => seq![],
    }
}

/// The larger of two counts.
pub open spec fn larger(a: usize, b: usize) -> usize {
    if a < b {
        b
    } else {
        a
    }
}

/// What a stage does with the buffers of a lane.
pub open spec fn lane_stage(l: LaneSnapshotLayout, stage: GatherStage) -> Seq<GatherAction> {
    match stage {
        GatherStage::Lists => list_copy(ChangedTensor::Threshold, l.threshold_indices) + list_copy(
            ChangedTensor::Recurrent,
            l.recurrent_indices,
        ) + list_copy(ChangedTensor::Input, l.input_indices) + list_copy(
            ChangedTensor::Output,
            l.output_indices,
        ) + list_copy(ChangedTensor::Context, l.context_indices),
        GatherStage::Numbers => number_gather(
            ChangedTensor::Threshold,
            l.threshold_values.len,
            l.threshold_values,
        ) + number_gather(
            ChangedTensor::Recurrent,
            l.recurrent_values.len,
            l.recurrent_values,
        ) + number_gather(ChangedTensor::Input, l.input_values.len, l.input_values)
            + number_gather(ChangedTensor::Output, l.output_indices.len, l.output_values)
            + unless_empty(
            l.context_indices.len,
            GatherAction::GatherRows {
                keys: l.context_keys,
                observations: l.context_observations,
                embeddings: l.context_embeddings,
                work: larger(l.context_embeddings.len, l.context_indices.len),
            },
        ),
        GatherStage::Tensors => tensor_copy(LearnedBuffer::OutputBias, l.output_bias)
            + tensor_copy(LearnedBuffer::ContextOutputWeight, l.context_output),
    }
}

/// Actions of one lane.
pub open spec fn of_lane(lane: int, actions: Seq<GatherAction>) -> Seq<LaneAction> {
    Seq::new(actions.len(), |i: int| LaneAction { lane: lane as usize, action: actions[i] })
}

/// What a stage does with the buffers of the first `upto` lanes.
pub open spec fn stage_actions(lanes: Seq<LaneSnapshotLayout>, stage: GatherStage, upto: int) -> Seq<
    LaneAction,
>
    decreases upto,
{
    if upto <= 0 {
        seq![]
    } else {
        stage_actions(lanes, stage, upto - 1) + of_lane(
            upto - 1,
            lane_stage(lanes[upto - 1], stage),
        )
    }
}

fn add_unless_empty(
    out: &mut Vec<LaneAction>,
    lane: usize,
    count: usize,
    action: GatherAction,
    Ghost(before): Ghost<Seq<LaneAction>>,
    Ghost(so_far): Ghost<Seq<GatherAction>>,
)
    requires
        old(out)@ == before + of_lane(lane as int, so_far),
    ensures
        final(out)@ == before + of_lane(lane as int, so_far + unless_empty(count, action)),
{
    if count != 0 {
        out.push(LaneAction { lane, action });
        assert(out@ =~= before + of_lane(lane as int, so_far + unless_empty(count, action)));
    } else {
        assert(so_far + unless_empty(count, action) =~= so_far);
    }
}

fn plan_lane_lists(out: &mut Vec<LaneAction>, lane: usize, l: &LaneSnapshotLayout)
    ensures
        final(out)@ == old(out)@ + of_lane(lane as int, lane_stage(*l, GatherStage::Lists)),
{
    let ghost before = out@;
    let ghost a0 = Seq::<GatherAction>::empty();
    let ghost a1 = a0 + list_copy(ChangedTensor::Threshold, l.threshold_indices);
    let ghost a2 = a1 + list_copy(ChangedTensor::Recurrent, l.recurrent_indices);
    let ghost a3 = a2 + list_copy(ChangedTensor::Input, l.input_indices);
    let ghost a4 = a3 + list_copy(ChangedTensor::Output, l.output_indices);
    let ghost a5 = a4 + list_copy(ChangedTensor::Context, l.context_indices);
    assert(out@ =~= before + of_lane(lane as int, a0));
    add_unless_empty(
        out,
        lane,
        l.threshold_indices.len,
        GatherAction::CopyList { tensor: ChangedTensor::Threshold, to: l.threshold_indices },
        Ghost(before),
        Ghost(a0),
    );
    add_unless_empty(
        out,
        lane,
        l.recurrent_indices.len,
        GatherAction::CopyList { tensor: ChangedTensor::Recurrent, to: l.recurrent_indices },
        Ghost(before),
        Ghost(a1),
    );
    add_unless_empty(
        out,
        lane,
        l.input_indices.len,
        GatherAction::CopyList { tensor: ChangedTensor::Input, to: l.input_indices },
        Ghost(before),
        Ghost(a2),
    );
    add_unless_empty(
        out,
        lane,
        l.output_indices.len,
        GatherAction::CopyList { tensor: ChangedTensor::Output, to: l.output_indices },
        Ghost(before),
        Ghost(a3),
    );
    add_unless_empty(
        out,
        lane,
        l.context_indices.len,
        GatherAction::CopyList { tensor: ChangedTensor::Context, to: l.context_indices },
        Ghost(before),
        Ghost(a4),
    );
    assert(a5 =~= lane_stage(*l, GatherStage::Lists));
}

fn plan_lane_numbers(out: &mut Vec<LaneAction>, lane: usize, l: &LaneSnapshotLayout)
    ensures
        final(out)@ == old(out)@ + of_lane(lane as int, lane_stage(*l, GatherStage::Numbers)),
{
    let work: usize = if l.context_embeddings.len < l.context_indices.len {
        l.context_indices.len
    } else {
        l.context_embeddings.len
    };
    let rows = GatherAction::GatherRows {
        keys: l.context_keys,
        observations: l.context_observations,
        embeddings: l.context_embeddings,
        work,
    };
    let ghost before = out@;
    let ghost a0 = Seq::<GatherAction>::empty();
    let ghost a1 = a0 + number_gather(
        ChangedTensor::Threshold,
        l.threshold_values.len,
        l.threshold_values,
    );
    let ghost a2 = a1 + number_gather(
        ChangedTensor::Recurrent,
        l.recurrent_values.len,
        l.recurrent_values,
    );
    let ghost a3 = a2 + number_gather(ChangedTensor::Input, l.input_values.len, l.input_values);
    let ghost a4 = a3 + number_gather(
        ChangedTensor::Output,
        l.output_indices.len,
        l.output_values,
    );
    let ghost a5 = a4 + unless_empty(l.context_indices.len, rows);
    assert(out@ =~= before + of_lane(lane as int, a0));
    add_unless_empty(
        out,
        lane,
        l.threshold_values.len,
        GatherAction::GatherNumbers { tensor: ChangedTensor::Threshold, to: l.threshold_values },
        Ghost(before),
        Ghost(a0),
    );
    add_unless_empty(
        out,
        lane,
        l.recurrent_values.len,
        GatherAction::GatherNumbers { tensor: ChangedTensor::Recurrent, to: l.recurrent_values },
        Ghost(before),
        Ghost(a1),
    );
    add_unless_empty(
        out,
        lane,
        l.input_values.len,
        GatherAction::GatherNumbers { tensor: ChangedTensor::Input, to: l.input_values },
        Ghost(before),
        Ghost(a2),
    );
    add_unless_empty(
        out,
        lane,
        l.output_indices.len,
        GatherAction::GatherNumbers { tensor: ChangedTensor::Output, to: l.output_values },
        Ghost(before),
        Ghost(a3),
    );
    add_unless_empty(out, lane, l.context_indices.len, rows, Ghost(before), Ghost(a4));
    assert(a5 =~= lane_stage(*l, GatherStage::Numbers));
}

fn plan_lane_tensors(out: &mut Vec<LaneAction>, lane: usize, l: &LaneSnapshotLayout)
    ensures
        final(out)@ == old(out)@ + of_lane(lane as int, lane_stage(*l, GatherStage::Tensors)),
{
    let ghost before = out@;
    if let Some(to) = l.output_bias {
        out.push(
            LaneAction {
                lane,
                action: GatherAction::CopyTensor { tensor: LearnedBuffer::OutputBias, to },
            },
        );
    }
    if let Some(to) = l.context_output {
        out.push(
            LaneAction {
                lane,
                action: GatherAction::CopyTensor { tensor: LearnedBuffer::ContextOutputWeight, to },
            },
        );
    }
    assert(out@ =~= before + of_lane(lane as int, lane_stage(*l, GatherStage::Tensors)));
}

/// What a stage of a snapshot does, lane by lane. Nothing is copied or launched for what did not
/// change.
pub fn plan_gathers(plan: &SnapshotPlan, stage: GatherStage) -> (r: Vec<LaneAction>)
    ensures
        r@ == stage_actions(plan.lanes@, stage, plan.lanes.len() as int),
{
    let mut out: Vec<LaneAction> = Vec::new();
    let mut lane: usize = 0;
    while lane < plan.lanes.len()
        invariant
            lane <= plan.lanes.len(),
            out@ == stage_actions(plan.lanes@, stage, lane as int),
        decreases plan.lanes.len() - lane,
    {
        match stage {
            GatherStage::Lists => {
                plan_lane_lists(&mut out, lane, &plan.lanes[lane]);
            },
            GatherStage::Numbers => {
                plan_lane_numbers(&mut out, lane, &plan.lanes[lane]);
            },
            GatherStage::Tensors => {
                plan_lane_tensors(&mut out, lane, &plan.lanes[lane]);
            },
        }
        lane = lane + 1;
    }
    out
}

/// A packed buffer.
#[derive(Debug, Clone, Copy, PartialEq, Eq, Structural)]
pub enum PackedBuffer {
    Words,
    Keys,
    Values,
}

/// What is brought back of a packed buffer.
#[derive(Debug, Clone, Copy, PartialEq, Eq, Structural)]
pub struct PackedDownload {
    pub buffer: PackedBuffer,
    pub elements: usize,
}

/// A download, unless there is nothing to bring back.
pub open spec fn download_of(buffer: PackedBuffer, elements: usize) -> Seq<PackedDownload> {
    if elements == 0 {
        seq![]
    } else {
        seq![PackedDownload { buffer, elements }]
    }
}

/// What is brought back of a snapshot: at most one download for each packed buffer.
pub fn plan_downloads(totals: &SnapshotCursors) -> (r: Vec<PackedDownload>)
    ensures
        r@ == download_of(PackedBuffer::Values, totals.values) + download_of(
            PackedBuffer::Words,
            totals.words,
        ) + download_of(PackedBuffer::Keys, totals.keys),
{
    let mut out: Vec<PackedDownload> = Vec::new();
    if totals.values != 0 {
        out.push(PackedDownload { buffer: PackedBuffer::Values, elements: totals.values });
    }
    if totals.words != 0 {
        out.push(PackedDownload { buffer: PackedBuffer::Words, elements: totals.words });
    }
    if totals.keys != 0 {
        out.push(PackedDownload { buffer: PackedBuffer::Keys, elements: totals.keys });
    }
    assert(out@ =~= download_of(PackedBuffer::Values, totals.values) + download_of(
        PackedBuffer::Words,
        totals.words,
    ) + download_of(PackedBuffer::Keys, totals.keys));
    out
}

/// How the changes of a tensor are forgotten.
pub open spec fn forgetting(tensor: ChangedTensor, work: usize) -> GatherAction {
    if work == 0 {
        GatherAction::ClearCount { tensor }
    } else {
        GatherAction::ClearMarks { tensor, work }
    }
}

fn forget(tensor: ChangedTensor, work: usize) -> (r: GatherAction)
    ensures
        r == forgetting(tensor, work),
{
    if work == 0 {
        GatherAction::ClearCount { tensor }
    } else {
        GatherAction::ClearMarks { tensor, work }
    }
}

/// How many places of a tensor a lane changed.
pub open spec fn count_at(n: ChangeCounts, i: int) -> usize {
    if i == 0 {
        n.threshold
    } else if i == 1 {
        n.recurrent
    } else if i == 2 {
        n.input
    } else if i == 3 {
        n.output
    } else {
        n.context
    }
}

/// How the changes of the first `lanes` lanes are forgotten: those of every tensor, whatever the
/// snapshot took along.
pub open spec fn forgotten(counts: Seq<u32>, lanes: int) -> Seq<LaneAction> {
    Seq::new(
        (lanes * 5) as nat,
        |k: int|
            LaneAction {
                lane: (k / 5) as usize,
                action: forgetting(tensor_at(k % 5), count_at(counts_of(counts, k / 5), k % 5)),
            },
    )
}

/// How the changes of all lanes are forgotten after a snapshot.
pub fn plan_forgetting(counts: &Vec<u32>, lanes: usize) -> (r: Vec<LaneAction>)
    requires
        lanes * 5 <= counts.len(),
    ensures
        r@ == forgotten(counts@, lanes as int),
{
    let mut out: Vec<LaneAction> = Vec::new();
    let mut lane: usize = 0;
    while lane < lanes
        invariant
            lane <= lanes,
            lanes * 5 <= counts.len(),
            out@ == forgotten(counts@, lane as int),
        decreases lanes - lane,
    {
        let n: ChangeCounts = read_counts(counts, lane);
        out.push(LaneAction { lane, action: forget(ChangedTensor::Threshold, n.threshold) });
        out.push(LaneAction { lane, action: forget(ChangedTensor::Recurrent, n.recurrent) });
        out.push(LaneAction { lane, action: forget(ChangedTensor::Input, n.input) });
        out.push(LaneAction { lane, action: forget(ChangedTensor::Output, n.output) });
        out.push(LaneAction { lane, action: forget(ChangedTensor::Context, n.context) });
        lane = lane + 1;
        assert(out@ =~= forgotten(counts@, lane as int));
    }
    out
}

} // verus!
