//! How a packed update of the parameters reaches a device: what is uploaded, what is scattered to
//! the canonical buffers and to every lane, and what is known afterwards.

use crate::buffers::{BufferKind, ChangedTensor, GatherBuffer, LearnedBuffer, ListPart};
use crate::context::capped;
use crate::device::{as_u32, capacity_message};
use crate::error::{fails, LeoError, LeoErrorKind, LeoResult};
use crate::records::DeviceState;
use crate::runtime::{capped_product, ChangeTracker};
use vstd::prelude::*;

verus! {

/// The lengths of the lists of a packed update.
#[derive(Debug, Clone, Copy, PartialEq, Eq, Structural)]
pub struct PackedShape {
    pub threshold_indices: usize,
    pub threshold_values: usize,
    pub recurrent_indices: usize,
    pub recurrent_values: usize,
    pub input_indices: usize,
    pub input_values: usize,
    pub output_neurons: usize,
    pub output_values: usize,
    pub context_slots: usize,
    pub context_keys: usize,
    pub context_observations: usize,
    pub context_embeddings: usize,
    pub output_bias: Option<usize>,
    pub context_output: Option<usize>,
}

/// The sizes of the model that an update is for.
#[derive(Debug, Clone, Copy, PartialEq, Eq, Structural)]
pub struct PackedSizes {
    pub output_classes: usize,
    pub embedding_dim: usize,
    pub context_outputs: usize,
}

/// Whose buffers are written.
#[derive(Debug, Clone, Copy, PartialEq, Eq, Structural)]
pub enum ScatterTarget {
    Canonical,
    Lane(usize),
}

/// One action of a packed update.
#[derive(Debug, Clone, Copy, PartialEq, Eq, Structural)]
pub enum ScatterAction {
    /// A list is copied from the host to a canonical buffer.
    Upload { to: BufferKind, elements: usize },
    /// The uploaded numbers are written to their places in a tensor, one thread for each.
    Numbers { target: ScatterTarget, tensor: ChangedTensor, count: u32 },
    /// The uploaded output weights are written to the columns of their neurons.
    Outputs { target: ScatterTarget, count: u32, work: usize },
    /// The uploaded rows of the context memory are written to their slots.
    Rows { target: ScatterTarget, embedding_dim: u32, count: u32, work: usize },
    /// A whole canonical tensor is copied to a lane.
    CopyToLane { lane: usize, tensor: LearnedBuffer },
}

/// The buffers that are written, one after the other: the canonical ones, then those of each lane.
pub open spec fn target_at(i: int) -> ScatterTarget {
    if i == 0 {
        ScatterTarget::Canonical
    } else {
        ScatterTarget::Lane((i - 1) as usize)
    }
}

/// The buffer that the numbers of a tensor are uploaded to.
pub open spec fn values_of(tensor: ChangedTensor) -> GatherBuffer {
    match tensor {
        ChangedTensor::Threshold => GatherBuffer::Threshold,
        ChangedTensor::Recurrent => GatherBuffer::Recurrent,
        ChangedTensor::Input => GatherBuffer::Input,
        ChangedTensor::Output => GatherBuffer::Output,
        ChangedTensor::Context => GatherBuffer::ContextEmbeddings,
    }
}

/// What the number of changed places is called in its error.
pub open spec fn count_name(tensor: ChangedTensor) -> Seq<char> {
    match tensor {
        ChangedTensor::Threshold => "threshold count"@,
        ChangedTensor::Recurrent => "recurrent count"@,
        _ => "input count"@,
    }
}

/// The upload of a list.
pub open spec fn upload(to: BufferKind, elements: usize) -> ScatterAction {
    ScatterAction::Upload { to, elements }
}

/// A part of an update: what is done, and why it ends there.
pub type Part = (Seq<ScatterAction>, Option<Seq<char>>);

/// A part with nothing to do.
pub open spec fn nothing() -> Part {
    (seq![], None)
}

/// The part of a tensor whose changed numbers are scattered.
pub open spec fn numbers_part(
    tensor: ChangedTensor,
    indices: usize,
    values: usize,
    lanes: usize,
) -> Part {
    let uploads = seq![
        upload(BufferKind::Changed(tensor, ListPart::List), indices),
        upload(BufferKind::Gather(values_of(tensor)), values),
    ];
    if indices == 0 {
        nothing()
    } else if indices > u32::MAX {
        (uploads, Some(capacity_message(count_name(tensor))))
    } else {
        (
            uploads + Seq::new(
                (lanes + 1) as nat,
                |i: int|
                    ScatterAction::Numbers { target: target_at(i), tensor, count: indices as u32 },
            ),
            None,
        )
    }
}

/// The part of the output weights.
pub open spec fn outputs_part(p: PackedShape, s: PackedSizes, lanes: usize) -> Part {
    let expected = capped(p.output_neurons * s.output_classes) as usize;
    let uploads = seq![
        upload(BufferKind::Changed(ChangedTensor::Output, ListPart::List), p.output_neurons),
        upload(BufferKind::Gather(GatherBuffer::Output), p.output_values),
    ];
    if p.output_neurons == 0 {
        nothing()
    } else if p.output_values != expected {
        (seq![], Some("packed output value count does not match changed output rows"@))
    } else if p.output_neurons > u32::MAX {
        (uploads, Some(capacity_message("output neuron count"@)))
    } else {
        (
            uploads + Seq::new(
                (lanes + 1) as nat,
                |i: int|
                    ScatterAction::Outputs {
                        target: target_at(i),
                        count: p.output_neurons as u32,
                        work: expected,
                    },
            ),
            None,
        )
    }
}

/// The part of the context memory.
pub open spec fn rows_part(p: PackedShape, s: PackedSizes, lanes: usize) -> Part {
    let uploads = seq![
        upload(BufferKind::Changed(ChangedTensor::Context, ListPart::List), p.context_slots),
        upload(BufferKind::Gather(GatherBuffer::ContextKeys), p.context_keys),
        upload(BufferKind::Gather(GatherBuffer::ContextObservations), p.context_observations),
        upload(BufferKind::Gather(GatherBuffer::ContextEmbeddings), p.context_embeddings),
    ];
    if p.context_slots == 0 {
        nothing()
    } else if p.context_keys != p.context_slots || p.context_observations != p.context_slots
        || p.context_embeddings != capped(p.context_slots * s.embedding_dim) {
        (seq![], Some("packed context rows have invalid dimensions"@))
    } else if s.embedding_dim > u32::MAX {
        (uploads, Some(capacity_message("context embedding dim"@)))
    } else if p.context_slots > u32::MAX {
        (uploads, Some(capacity_message("context slot count"@)))
    } else {
        (
            uploads + Seq::new(
                (lanes + 1) as nat,
                |i: int|
                    ScatterAction::Rows {
                        target: target_at(i),
                        embedding_dim: s.embedding_dim as u32,
                        count: p.context_slots as u32,
                        work: if p.context_embeddings < p.context_slots {
                            p.context_slots
                        } else {
                            p.context_embeddings
                        },
                    },
            ),
            None,
        )
    }
}

/// The part of a tensor that comes along whole.
pub open spec fn whole_part(
    tensor: LearnedBuffer,
    values: Option<usize>,
    size: usize,
    problem: Seq<char>,
    lanes: usize,
) -> Part {
    match values {
        None => nothing(),
        Some(n) => if n != size {
            (seq![], Some(problem))
        } else {
            (
                seq![upload(BufferKind::Learned(tensor), n)] + Seq::new(
                    lanes as nat,
                    |i: int| ScatterAction::CopyToLane { lane: i as usize, tensor },
                ),
                None,
            )
        },
    }
}

/// The number of parts of an update.
pub const PART_COUNT: usize = 7;

/// The parts of an update, in order.
pub open spec fn part_at(p: PackedShape, s: PackedSizes, lanes: usize, part: int) -> Part {
    if part == 0 {
        numbers_part(ChangedTensor::Threshold, p.threshold_indices, p.threshold_values, lanes)
    } else if part == 1 {
        numbers_part(ChangedTensor::Recurrent, p.recurrent_indices, p.recurrent_values, lanes)
    } else if part == 2 {
        numbers_part(ChangedTensor::Input, p.input_indices, p.input_values, lanes)
    } else if part == 3 {
        outputs_part(p, s, lanes)
    } else if part == 4 {
        rows_part(p, s, lanes)
    } else if part == 5 {
        whole_part(
            LearnedBuffer::OutputBias,
            p.output_bias,
            s.output_classes,
            "packed output bias has invalid dimensions"@,
            lanes,
        )
    } else {
        whole_part(
            LearnedBuffer::ContextOutputWeight,
            p.context_output,
            s.context_outputs,
            "packed context output weights have invalid dimensions"@,
            lanes,
        )
    }
}

/// The first `upto` parts, as far as none of them ends the update.
pub open spec fn parts_upto(p: PackedShape, s: PackedSizes, lanes: usize, upto: int) -> Part
    decreases upto,
{
    if upto <= 0 {
        nothing()
    } else {
        let (actions, problem) = parts_upto(p, s, lanes, upto - 1);
        if problem is Some {
            (actions, problem)
        } else {
            let (more, problem) = part_at(p, s, lanes, upto - 1);
            (actions + more, problem)
        }
    }
}

/// The result of a part that ends with a problem, or goes on.
pub open spec fn ends_with(r: LeoResult<()>, problem: Option<Seq<char>>) -> bool {
    match problem {
        Some(text) => fails(r, LeoErrorKind::Cuda, text),
        None => r is Ok,
    }
}

fn target_of(i: usize) -> (r: ScatterTarget)
    ensures
        r == target_at(i as int),
{
    if i == 0 {
        ScatterTarget::Canonical
    } else {
        ScatterTarget::Lane(i - 1)
    }
}

fn plan_numbers(
    out: &mut Vec<ScatterAction>,
    tensor: ChangedTensor,
    indices: usize,
    values: usize,
    lanes: usize,
) -> (r: LeoResult<()>)
    requires
        lanes < usize::MAX,
        tensor is Threshold || tensor is Recurrent || tensor is Input,
    ensures
        final(out)@ == old(out)@ + numbers_part(tensor, indices, values, lanes).0,
        ends_with(r, numbers_part(tensor, indices, values, lanes).1),
{
    let ghost before = out@;
    if indices == 0 {
        assert(out@ =~= before + Seq::<ScatterAction>::empty());
        return Ok(());
    }
    let (held, name): (GatherBuffer, &str) = match tensor {
        ChangedTensor::Threshold => (GatherBuffer::Threshold, "threshold count"),
        ChangedTensor::Recurrent => (GatherBuffer::Recurrent, "recurrent count"),
        _ => (GatherBuffer::Input, "input count"),
    };
    out.push(
        ScatterAction::Upload {
            to: BufferKind::Changed(tensor, ListPart::List),
            elements: indices,
        },
    );
    out.push(ScatterAction::Upload { to: BufferKind::Gather(held), elements: values });
    let ghost uploads = seq![
        upload(BufferKind::Changed(tensor, ListPart::List), indices),
        upload(BufferKind::Gather(values_of(tensor)), values),
    ];
    assert(out@ =~= before + uploads);
    let count: u32 = match as_u32(name, indices) {
        Ok(count) => count,
        Err(e) => {
            return Err(e);
        },
    };
    let ghost fan = Seq::new(
        (lanes + 1) as nat,
        |i: int| ScatterAction::Numbers { target: target_at(i), tensor, count },
    );
    let mut i: usize = 0;
    while i < lanes + 1
        invariant
            lanes < usize::MAX,
            i <= lanes + 1,
            fan == Seq::new(
                (lanes + 1) as nat,
                |i: int| ScatterAction::Numbers { target: target_at(i), tensor, count },
            ),
            out@ == before + uploads + fan.take(i as int),
        decreases lanes + 1 - i,
    {
        out.push(ScatterAction::Numbers { target: target_of(i), tensor, count });
        i = i + 1;
        assert(out@ =~= before + uploads + fan.take(i as int));
    }
    assert(fan.take(i as int) =~= fan);
    assert(out@ =~= before + (uploads + fan));
    Ok(())
}

fn plan_outputs(out: &mut Vec<ScatterAction>, p: &PackedShape, s: &PackedSizes, lanes: usize) -> (r:
    LeoResult<()>)
    requires
        lanes < usize::MAX,
    ensures
        final(out)@ == old(out)@ + outputs_part(*p, *s, lanes).0,
        ends_with(r, outputs_part(*p, *s, lanes).1),
{
    let ghost before = out@;
    assert(before =~= before + Seq::<ScatterAction>::empty());
    if p.output_neurons == 0 {
        return Ok(());
    }
    let work: usize = capped_product(p.output_neurons, s.output_classes);
    if p.output_values != work {
        return Err(
            LeoError::cuda(
                "packed output value count does not match changed output rows".to_owned(),
            ),
        );
    }
    out.push(
        ScatterAction::Upload {
            to: BufferKind::Changed(ChangedTensor::Output, ListPart::List),
            elements: p.output_neurons,
        },
    );
    out.push(
        ScatterAction::Upload {
            to: BufferKind::Gather(GatherBuffer::Output),
            elements: p.output_values,
        },
    );
    let ghost uploads = seq![
        upload(BufferKind::Changed(ChangedTensor::Output, ListPart::List), p.output_neurons),
        upload(BufferKind::Gather(GatherBuffer::Output), p.output_values),
    ];
    assert(out@ =~= before + uploads);
    let count: u32 = match as_u32("output neuron count", p.output_neurons) {
        Ok(count) => count,
        Err(e) => {
            return Err(e);
        },
    };
    let ghost fan = Seq::new(
        (lanes + 1) as nat,
        |i: int| ScatterAction::Outputs { target: target_at(i), count, work },
    );
    let mut i: usize = 0;
    while i < lanes + 1
        invariant
            lanes < usize::MAX,
            i <= lanes + 1,
            fan == Seq::new(
                (lanes + 1) as nat,
                |i: int| ScatterAction::Outputs { target: target_at(i), count, work },
            ),
            out@ == before + uploads + fan.take(i as int),
        decreases lanes + 1 - i,
    {
        out.push(ScatterAction::Outputs { target: target_of(i), count, work });
        i = i + 1;
        assert(out@ =~= before + uploads + fan.take(i as int));
    }
    assert(fan.take(i as int) =~= fan);
    assert(out@ =~= before + (uploads + fan));
    Ok(())
}

fn plan_rows(out: &mut Vec<ScatterAction>, p: &PackedShape, s: &PackedSizes, lanes: usize) -> (r:
    LeoResult<()>)
    requires
        lanes < usize::MAX,
    ensures
        final(out)@ == old(out)@ + rows_part(*p, *s, lanes).0,
        ends_with(r, rows_part(*p, *s, lanes).1),
{
    let ghost before = out@;
    assert(before =~= before + Seq::<ScatterAction>::empty());
    if p.context_slots == 0 {
        return Ok(());
    }
    if p.context_keys != p.context_slots || p.context_observations != p.context_slots
        || p.context_embeddings != capped_product(p.context_slots, s.embedding_dim) {
        return Err(LeoError::cuda("packed context rows have invalid dimensions".to_owned()));
    }
    out.push(
        ScatterAction::Upload {
            to: BufferKind::Changed(ChangedTensor::Context, ListPart::List),
            elements: p.context_slots,
        },
    );
    out.push(
        ScatterAction::Upload {
            to: BufferKind::Gather(GatherBuffer::ContextKeys),
            elements: p.context_keys,
        },
    );
    out.push(
        ScatterAction::Upload {
            to: BufferKind::Gather(GatherBuffer::ContextObservations),
            elements: p.context_observations,
        },
    );
    out.push(
        ScatterAction::Upload {
            to: BufferKind::Gather(GatherBuffer::ContextEmbeddings),
            elements: p.context_embeddings,
        },
    );
    let ghost uploads = seq![
        upload(BufferKind::Changed(ChangedTensor::Context, ListPart::List), p.context_slots),
        upload(BufferKind::Gather(GatherBuffer::ContextKeys), p.context_keys),
        upload(BufferKind::Gather(GatherBuffer::ContextObservations), p.context_observations),
        upload(BufferKind::Gather(GatherBuffer::ContextEmbeddings), p.context_embeddings),
    ];
    assert(out@ =~= before + uploads);
    let embedding_dim: u32 = match as_u32("context embedding dim", s.embedding_dim) {
        Ok(dim) => dim,
        Err(e) => {
            return Err(e);
        },
    };
    let count: u32 = match as_u32("context slot count", p.context_slots) {
        Ok(count) => count,
        Err(e) => {
            return Err(e);
        },
    };
    let work: usize = if p.context_embeddings < p.context_slots {
        p.context_slots
    } else {
        p.context_embeddings
    };
    let ghost fan = Seq::new(
        (lanes + 1) as nat,
        |i: int| ScatterAction::Rows { target: target_at(i), embedding_dim, count, work },
    );
    let mut i: usize = 0;
    while i < lanes + 1
        invariant
            lanes < usize::MAX,
            i <= lanes + 1,
            fan == Seq::new(
                (lanes + 1) as nat,
                |i: int| ScatterAction::Rows { target: target_at(i), embedding_dim, count, work },
            ),
            out@ == before + uploads + fan.take(i as int),
        decreases lanes + 1 - i,
    {
        out.push(ScatterAction::Rows { target: target_of(i), embedding_dim, count, work });
        i = i + 1;
        assert(out@ =~= before + uploads + fan.take(i as int));
    }
    assert(fan.take(i as int) =~= fan);
    assert(out@ =~= before + (uploads + fan));
    Ok(())
}

fn plan_whole(
    out: &mut Vec<ScatterAction>,
    tensor: LearnedBuffer,
    values: Option<usize>,
    size: usize,
    problem: &str,
    lanes: usize,
) -> (r: LeoResult<()>)
    ensures
        final(out)@ == old(out)@ + whole_part(tensor, values, size, problem@, lanes).0,
        ends_with(r, whole_part(tensor, values, size, problem@, lanes).1),
{
    let ghost before = out@;
    assert(before =~= before + Seq::<ScatterAction>::empty());
    let n: usize = match values {
        Some(n) => n,
        None => {
            return Ok(());
        },
    };
    if n != size {
        return Err(LeoError::cuda(problem.to_owned()));
    }
    out.push(ScatterAction::Upload { to: BufferKind::Learned(tensor), elements: n });
    let ghost first = seq![upload(BufferKind::Learned(tensor), n)];
    let ghost fan = Seq::new(
        lanes as nat,
        |i: int| ScatterAction::CopyToLane { lane: i as usize, tensor },
    );
    assert(out@ =~= before + first + fan.take(0));
    let mut i: usize = 0;
    while i < lanes
        invariant
            i <= lanes,
            fan == Seq::new(
                lanes as nat,
                |i: int| ScatterAction::CopyToLane { lane: i as usize, tensor },
            ),
            out@ == before + first + fan.take(i as int),
        decreases lanes - i,
    {
        out.push(ScatterAction::CopyToLane { lane: i, tensor });
        i = i + 1;
        assert(out@ =~= before + first + fan.take(i as int));
    }
    assert(fan.take(i as int) =~= fan);
    assert(out@ =~= before + (first + fan));
    Ok(())
}

fn plan_part(
    out: &mut Vec<ScatterAction>,
    p: &PackedShape,
    s: &PackedSizes,
    lanes: usize,
    part: usize,
) -> (r: LeoResult<()>)
    requires
        lanes < usize::MAX,
    ensures
        final(out)@ == old(out)@ + part_at(*p, *s, lanes, part as int).0,
        ends_with(r, part_at(*p, *s, lanes, part as int).1),
{
    if part == 0 {
        plan_numbers(
            out,
            ChangedTensor::Threshold,
            p.threshold_indices,
            p.threshold_values,
            lanes,
        )
    } else if part == 1 {
        plan_numbers(
            out,
            ChangedTensor::Recurrent,
            p.recurrent_indices,
            p.recurrent_values,
            lanes,
        )
    } else if part == 2 {
        plan_numbers(out, ChangedTensor::Input, p.input_indices, p.input_values, lanes)
    } else if part == 3 {
        plan_outputs(out, p, s, lanes)
    } else if part == 4 {
        plan_rows(out, p, s, lanes)
    } else if part == 5 {
        plan_whole(
            out,
            LearnedBuffer::OutputBias,
            p.output_bias,
            s.output_classes,
            "packed output bias has invalid dimensions",
            lanes,
        )
    } else {
        plan_whole(
            out,
            LearnedBuffer::ContextOutputWeight,
            p.context_output,
            s.context_outputs,
            "packed context output weights have invalid dimensions",
            lanes,
        )
    }
}

/// What a packed update does to the canonical buffers and to those of every lane, in order. Nothing
/// is uploaded or launched for what did not change. An update whose lists do not match is broken
/// off where that shows: what comes before has been done.
pub fn plan_scatters(p: &PackedShape, s: &PackedSizes, lanes: usize) -> (r: (
    Vec<ScatterAction>,
    LeoResult<()>,
))
    requires
        lanes < usize::MAX,
    ensures
        r.0@ == parts_upto(*p, *s, lanes, PART_COUNT as int).0,
        ends_with(r.1, parts_upto(*p, *s, lanes, PART_COUNT as int).1),
{
    let mut out: Vec<ScatterAction> = Vec::new();
    let mut part: usize = 0;
    while part < PART_COUNT
        invariant
            lanes < usize::MAX,
            part <= PART_COUNT,
            out@ == parts_upto(*p, *s, lanes, part as int).0,
            parts_upto(*p, *s, lanes, part as int).1 is None,
        decreases PART_COUNT - part,
    {
        if let Err(e) = plan_part(&mut out, p, s, lanes, part) {
            proof {
                lemma_broken_off(*p, *s, lanes, part + 1, PART_COUNT as int);
            }
            return (out, Err(e));
        }
        part = part + 1;
    }
    (out, Ok(()))
}

/// An update that is broken off goes no further.
proof fn lemma_broken_off(p: PackedShape, s: PackedSizes, lanes: usize, at: int, upto: int)
    requires
        0 <= at <= upto,
        parts_upto(p, s, lanes, at).1 is Some,
    ensures
        parts_upto(p, s, lanes, upto) == parts_upto(p, s, lanes, at),
    decreases upto,
{
    if at < upto {
        lemma_broken_off(p, s, lanes, at, upto - 1);
    }
}

/// What the host knows of a device and its lanes.
#[derive(Debug)]
pub struct DeviceMirror {
    /// The revision of the parameters that each lane holds.
    pub lane_revisions: Vec<u64>,
    /// The model of the host was changed and is to be uploaded.
    pub model_dirty: bool,
    pub tracker: ChangeTracker,
    pub state: DeviceState,
}

/// Takes in that a packed update has been done: the device and all its lanes hold its revision. A
/// replica stops tracking its changes; after a commit of the host's own merge tracking goes on.
pub fn finish_update(mirror: &mut DeviceMirror, revision: u64, clear_tracking: bool)
    ensures
        final(mirror).lane_revisions@ == Seq::new(
            old(mirror).lane_revisions@.len(),
            |i: int| revision,
        ),
        !final(mirror).model_dirty,
        final(mirror).tracker == (ChangeTracker {
            enabled: old(mirror).tracker.enabled && !clear_tracking,
            ..old(mirror).tracker
        }),
        final(mirror).state == (DeviceState {
            output_bias_dirty: false,
            context_output_dirty: false,
            ..old(mirror).state
        }),
{
    let count: usize = mirror.lane_revisions.len();
    let mut revisions: Vec<u64> = Vec::new();
    let mut i: usize = 0;
    while i < count
        invariant
            i <= count,
            revisions@ =~= Seq::new(i as nat, |k: int| revision),
        decreases count - i,
    {
        revisions.push(revision);
        i = i + 1;
    }
    mirror.lane_revisions = revisions;
    mirror.model_dirty = false;
    if clear_tracking {
        mirror.tracker.enabled = false;
    }
    mirror.state.output_bias_dirty = false;
    mirror.state.context_output_dirty = false;
}

/// The action writes the parameters of `target`. Lists are uploaded to be scattered, whole tensors to
/// their canonical buffer.
pub open spec fn writes(action: ScatterAction, target: ScatterTarget) -> bool {
    match action {
        ScatterAction::Upload { to: BufferKind::Learned(_), .. } => target
            == ScatterTarget::Canonical,
        ScatterAction::Upload { .. } => false,
        ScatterAction::Numbers { target: written, .. } => written == target,
        ScatterAction::Outputs { target: written, .. } => written == target,
        ScatterAction::Rows { target: written, .. } => written == target,
        ScatterAction::CopyToLane { lane, .. } => ScatterTarget::Lane(lane) == target,
    }
}

/// The place in a part at which the parameters of a target are written.
pub open spec fn writing_place(part: int, i: int) -> int {
    if part < 4 {
        i + 2
    } else if part == 4 {
        i + 4
    } else {
        i
    }
}

/// Every part of an update that has something to do writes the canonical parameters and those of
/// each lane, each of them once.
pub proof fn law_updates_reach_every_lane(
    p: PackedShape,
    s: PackedSizes,
    lanes: usize,
    part: int,
    i: int,
    k: int,
)
    requires
        0 <= part < PART_COUNT,
        part_at(p, s, lanes, part).0.len() > 0,
        part_at(p, s, lanes, part).1 is None,
        0 <= i <= lanes,
        0 <= k < part_at(p, s, lanes, part).0.len(),
    ensures
        0 <= writing_place(part, i) < part_at(p, s, lanes, part).0.len(),
        writes(part_at(p, s, lanes, part).0[k], target_at(i)) <==> k == writing_place(part, i),
{
}

} // verus!
