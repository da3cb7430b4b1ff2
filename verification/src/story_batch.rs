//! A batch of stories on one device: every lane takes one story with recurrent state and
//! parameters of its own, and only when all are done is one mean merged.

use crate::backend::{DeviceStoryBatchDeltaReport, GPU_STORY_BATCH_MAX_LANES};
use crate::context::capped;
use crate::cuda_plan::CudaExecutionPlan;
use crate::device::{DeviceLimits, SHARED_BATCH_THREADS};
use crate::error::{fails, LeoError, LeoErrorKind, LeoResult};
use crate::metrics::{capped_sum, StepMetrics, TrainingStatistics, WideScalar};
use crate::parallel::{takes_any_pair, MergeMetrics, SparseModelDelta, StatisticsDelta};
use crate::records::{
    kept_metrics, reading_result, records_read, some_notes, takes_any_count, takes_any_loss,
    to_some_notes, DeviceState, RecordShape, StepRecord,
};
use crate::replay::sampled;
use crate::runtime::{capped_product, ParameterChanges};
use crate::scalar::Scalar;
use crate::steps::{
    all_sound, chunk_end, chunk_end_of, context_learns, first_problem, learned_count, notes_of,
    prepare_chunk, step_problem, PreparedChunk, StepNote, StepSetting,
};
use crate::symbols::Alphabet;
use crate::text::{decimal, with_number, with_numbers};
use crate::wavefront::{WavefrontLaunchKind, WavefrontStep};
use vstd::prelude::*;

verus! {

/// Refuses a batch that the lanes cannot take.
pub fn admit_story_batch(lanes: usize, stories: usize) -> (r: LeoResult<()>)
    ensures
        stories == 0 ==> fails(
            r,
            LeoErrorKind::Cuda,
            "GPU shared story batch cannot be empty"@,
        ),
        stories > 0 && lanes != stories ==> fails(
            r,
            LeoErrorKind::Cuda,
            "GPU shared story batch lane count "@ + decimal(lanes as nat)
                + " does not match story count "@ + decimal(stories as nat) + ""@,
        ),
        stories > 0 && lanes == stories && lanes > GPU_STORY_BATCH_MAX_LANES ==> fails(
            r,
            LeoErrorKind::Cuda,
            "GPU shared story batch supports at most 128 lanes; got "@ + decimal(lanes as nat)
                + ""@,
        ),
        stories > 0 && lanes == stories && lanes <= GPU_STORY_BATCH_MAX_LANES ==> r is Ok,
{
    if stories == 0 {
        return Err(LeoError::cuda("GPU shared story batch cannot be empty".to_owned()));
    }
    if lanes != stories {
        return Err(
            LeoError::cuda(
                with_numbers(
                    "GPU shared story batch lane count ",
                    lanes as u64,
                    " does not match story count ",
                    stories as u64,
                    "",
                ),
            ),
        );
    }
    if lanes > GPU_STORY_BATCH_MAX_LANES {
        return Err(
            LeoError::cuda(
                with_number(
                    "GPU shared story batch supports at most 128 lanes; got ",
                    lanes as u64,
                    "",
                ),
            ),
        );
    }
    Ok(())
}

/// The steps of a story: the opening marker predicts the first byte, every byte the next one,
/// and the last byte the closing marker.
pub open spec fn steps_of_story(a: Alphabet, story: Seq<u8>) -> Seq<(u32, Option<u32>)> {
    if story.len() == 0 {
        seq![]
    } else {
        Seq::new(
            (story.len() + 1) as nat,
            |i: int|
                (
                    if i == 0 {
                        a.begin_document
                    } else {
                        story[i - 1] as u32
                    },
                    if i == story.len() {
                        Some(a.end_document)
                    } else {
                        Some(story[i] as u32)
                    },
                ),
        )
    }
}

/// The steps of a story.
pub fn story_steps(a: &Alphabet, story: &Vec<u8>) -> (r: Vec<(u32, Option<u32>)>)
    ensures
        r@ == steps_of_story(*a, story@),
{
    let mut steps: Vec<(u32, Option<u32>)> = Vec::new();
    if story.len() == 0 {
        assert(steps@ =~= steps_of_story(*a, story@));
        return steps;
    }
    steps.push((a.begin_document, Some(story[0] as u32)));
    let mut i: usize = 1;
    while i < story.len()
        invariant
            1 <= i <= story.len(),
            steps.len() == i,
            forall|k: int| 0 <= k < i ==> #[trigger] steps@[k] == steps_of_story(*a, story@)[k],
        decreases story.len() - i,
    {
        steps.push((story[i - 1] as u32, Some(story[i] as u32)));
        i = i + 1;
    }
    steps.push((story[story.len() - 1] as u32, Some(a.end_document)));
    assert(steps@ =~= steps_of_story(*a, story@));
    steps
}

/// Every step of a story predicts the symbol that the next step feeds, and the last one the
/// end of the document.
pub proof fn law_story_steps_form_a_chain(a: Alphabet, story: Seq<u8>, i: int)
    requires
        0 <= i < story.len(),
    ensures
        steps_of_story(a, story).len() == story.len() + 1,
        steps_of_story(a, story)[0].0 == a.begin_document,
        steps_of_story(a, story)[i].1 == Some(steps_of_story(a, story)[i + 1].0),
        steps_of_story(a, story)[story.len() as int].1 == Some(a.end_document),
{
}

/// Every step of every story can be taken.
pub proof fn law_story_steps_are_sound(a: Alphabet, story: Seq<u8>)
    requires
        a.wf(),
    ensures
        all_sound(a, steps_of_story(a, story), 0, steps_of_story(a, story).len() as int),
{
    let steps = steps_of_story(a, story);
    assert forall|j: int| 0 <= j < steps.len() implies step_problem(a, #[trigger] steps[j]) is None by {
        if j > 0 {
            assert(a.accepts(story[j - 1] as u32));
        }
        if j < story.len() {
            let next = story[j] as u32;
            assert(a.accepts(next));
            assert(a.class(next) is Some);
        }
    }
}

/// What the host keeps of one lane.
#[derive(Debug, Clone, Copy, PartialEq, Eq, Structural)]
pub struct BatchLane {
    /// The first step of the lane's story that is not launched yet.
    pub offset: usize,
    pub learned_steps: u64,
    pub context_learning: bool,
    /// The lane's clock, counters and eligibility lists.
    pub state: DeviceState,
}

impl BatchLane {
    /// A lane at the start of a story.
    pub open spec fn fresh() -> BatchLane {
        BatchLane {
            offset: 0,
            learned_steps: 0,
            context_learning: false,
            state: DeviceState {
                current_tick: 0,
                parameter_revision: 0,
                statistics: TrainingStatistics::empty(),
                output_bias_dirty: false,
                context_output_dirty: false,
                document_activity: false,
                lists_swapped: false,
            },
        }
    }

    fn start() -> (r: BatchLane)
        ensures
            r == BatchLane::fresh(),
    {
        BatchLane {
            offset: 0,
            learned_steps: 0,
            context_learning: false,
            state: DeviceState {
                current_tick: 0,
                parameter_revision: 0,
                statistics: TrainingStatistics::default(),
                output_bias_dirty: false,
                context_output_dirty: false,
                document_activity: false,
                lists_swapped: false,
            },
        }
    }

    /// The lane after a chunk of its story was prepared.
    pub open spec fn after_prepare(self, end: int, learned: u64, context: bool) -> BatchLane {
        BatchLane {
            offset: end as usize,
            learned_steps: capped_sum(self.learned_steps, learned),
            context_learning: self.context_learning || context,
            ..self
        }
    }
}

/// Whether a lane holds the canonical parameters. A lane that took no part in the last batch,
/// or whose batch failed, is repaired first.
pub fn lane_needs_repair(lane_revision: u64, canonical_revision: u64) -> (r: bool)
    ensures
        r == (lane_revision != canonical_revision),
{
    lane_revision != canonical_revision
}

/// The revision of a lane while its batch is running: no canonical revision is as large, so a
/// failed batch forces a repair.
pub const LANE_REVISION_IN_FLIGHT: u64 = 0xffff_ffff_ffff_ffff;

/// A lane whose batch did not finish is repaired before the next one, unless the revisions
/// have run out.
pub proof fn law_failed_batches_force_a_repair(canonical_revision: u64)
    requires
        canonical_revision < u64::MAX,
    ensures
        LANE_REVISION_IN_FLIGHT != canonical_revision,
{
}

/// What a batch counts of its launches and transfers.
#[derive(Debug, Clone, Copy, PartialEq, Eq, Structural)]
pub struct BatchTelemetry {
    pub fused_launches: u64,
    pub direct_phase_launches: u64,
    pub h2d_bytes: u64,
    pub d2h_bytes: u64,
    /// How many wavefronts have been launched, for the phase profile.
    pub phase_sequence: u64,
    pub phase_geometry_skips: u64,
    pub sampled_grid_max: u32,
    pub skipped_grid_max: u32,
}

/// The larger of two grids.
pub open spec fn wider(a: u32, b: u32) -> u32 {
    if a < b {
        b
    } else {
        a
    }
}

impl BatchTelemetry {
    /// Nothing counted yet.
    pub open spec fn none() -> BatchTelemetry {
        BatchTelemetry {
            fused_launches: 0,
            direct_phase_launches: 0,
            h2d_bytes: 0,
            d2h_bytes: 0,
            phase_sequence: 0,
            phase_geometry_skips: 0,
            sampled_grid_max: 0,
            skipped_grid_max: 0,
        }
    }

    /// The counters after a wavefront of this kind.
    pub open spec fn with_wavefront(self, kind: WavefrontLaunchKind) -> BatchTelemetry {
        match kind {
            WavefrontLaunchKind::Fused {
                phase_profile_sampled,
                phase_profile_geometry_skipped,
                grid_blocks,
            } => BatchTelemetry {
                fused_launches: capped_sum(self.fused_launches, 1),
                sampled_grid_max: if phase_profile_sampled {
                    wider(self.sampled_grid_max, grid_blocks)
                } else {
                    self.sampled_grid_max
                },
                phase_geometry_skips: if phase_profile_geometry_skipped {
                    capped_sum(self.phase_geometry_skips, 1)
                } else {
                    self.phase_geometry_skips
                },
                skipped_grid_max: if phase_profile_geometry_skipped {
                    wider(self.skipped_grid_max, grid_blocks)
                } else {
                    self.skipped_grid_max
                },
                ..self
            },
            WavefrontLaunchKind::Direct { phase_launches } => BatchTelemetry {
                direct_phase_launches: capped_sum(self.direct_phase_launches, phase_launches),
                ..self
            },
        }
    }

    /// Counts a wavefront.
    pub fn record_wavefront(&mut self, kind: WavefrontLaunchKind)
        ensures
            *final(self) == old(self).with_wavefront(kind),
    {
        match kind {
            WavefrontLaunchKind::Fused {
                phase_profile_sampled,
                phase_profile_geometry_skipped,
                grid_blocks,
            } => {
                self.fused_launches = self.fused_launches.saturating_add(1);
                if phase_profile_sampled && self.sampled_grid_max < grid_blocks {
                    self.sampled_grid_max = grid_blocks;
                }
                if phase_profile_geometry_skipped {
                    self.phase_geometry_skips = self.phase_geometry_skips.saturating_add(1);
                    if self.skipped_grid_max < grid_blocks {
                        self.skipped_grid_max = grid_blocks;
                    }
                }
            },
            WavefrontLaunchKind::Direct { phase_launches } => {
                self.direct_phase_launches = self.direct_phase_launches.saturating_add(
                    phase_launches,
                );
            },
        }
    }

    /// Counts a launch that takes many steps at once.
    pub fn record_persistent(&mut self)
        ensures
            *final(self) == (BatchTelemetry {
                fused_launches: capped_sum(old(self).fused_launches, 1),
                ..*old(self)
            }),
    {
        self.fused_launches = self.fused_launches.saturating_add(1);
    }

    /// Counts the bytes of a chunk.
    pub fn record_transfers(&mut self, h2d_bytes: u64, d2h_bytes: u64)
        ensures
            *final(self) == (BatchTelemetry {
                h2d_bytes: capped_sum(old(self).h2d_bytes, h2d_bytes),
                d2h_bytes: capped_sum(old(self).d2h_bytes, d2h_bytes),
                ..*old(self)
            }),
    {
        self.h2d_bytes = self.h2d_bytes.saturating_add(h2d_bytes);
        self.d2h_bytes = self.d2h_bytes.saturating_add(d2h_bytes);
    }
}

/// The stories of a batch as steps.
pub open spec fn all_steps(a: Alphabet, stories: Seq<Vec<u8>>) -> Seq<Seq<(u32, Option<u32>)>> {
    Seq::new(stories.len(), |i: int| steps_of_story(a, stories[i]@))
}

/// A list of lists as mathematical values.
pub open spec fn step_views(v: Seq<Vec<(u32, Option<u32>)>>) -> Seq<Seq<(u32, Option<u32>)>> {
    Seq::new(v.len(), |i: int| v[i]@)
}

/// The number of steps of all stories, held at the largest value.
pub open spec fn work_units_of(steps: Seq<Seq<(u32, Option<u32>)>>) -> u64
    decreases steps.len(),
{
    if steps.len() == 0 {
        0
    } else {
        capped_sum(work_units_of(steps.drop_last()), steps.last().len() as u64)
    }
}

/// A batch of stories while it runs.
#[derive(Debug)]
pub struct StoryBatch {
    pub setting: StepSetting,
    pub steps: Vec<Vec<(u32, Option<u32>)>>,
    pub lanes: Vec<BatchLane>,
    pub metrics: Vec<Vec<StepMetrics>>,
    pub telemetry: BatchTelemetry,
}

/// A chunk of every lane, ready to be launched.
#[derive(Debug, Clone)]
pub struct BatchChunk {
    /// What each lane launches; nothing for a lane whose story is done.
    pub lanes: Vec<PreparedChunk>,
    pub step_counts: Vec<u32>,
    pub base_ticks: Vec<u64>,
    /// The largest number of steps of a lane.
    pub max_steps: usize,
    /// The bytes that go to the device.
    pub h2d_bytes: u64,
}

impl StoryBatch {
    /// One lane and one list of metrics for each story, no lane beyond its story, and no metrics of
    /// a step that was not launched.
    pub open spec fn wf(self) -> bool {
        &&& self.lanes.len() == self.steps.len()
        &&& self.metrics.len() == self.steps.len()
        &&& forall|i: int|
            0 <= i < self.lanes.len() ==> (#[trigger] self.lanes@[i]).offset
                <= self.steps@[i].len()
        &&& forall|i: int|
            0 <= i < self.metrics.len() ==> (#[trigger] self.metrics@[i]).len()
                <= self.lanes@[i].offset
    }

    /// The metrics of every step that was launched have been read.
    pub open spec fn all_read(self) -> bool {
        forall|i: int|
            0 <= i < self.metrics.len() ==> (#[trigger] self.metrics@[i]).len()
                == self.lanes@[i].offset
    }

    /// Every story is launched to its end.
    pub open spec fn done(self) -> bool {
        forall|i: int|
            0 <= i < self.lanes.len() ==> (#[trigger] self.lanes@[i]).offset
                == self.steps@[i].len()
    }

    /// Opens a batch: one lane for each story.
    pub fn open(a: &Alphabet, setting: StepSetting, stories: &Vec<Vec<u8>>) -> (r: StoryBatch)
        ensures
            r.wf(),
            r.all_read(),
            r.setting == setting,
            step_views(r.steps@) == all_steps(*a, stories@),
            forall|i: int|
                0 <= i < r.lanes.len() ==> #[trigger] r.lanes@[i] == BatchLane::fresh(),
            forall|i: int| 0 <= i < r.metrics.len() ==> (#[trigger] r.metrics@[i]).len() == 0,
            r.telemetry == BatchTelemetry::none(),
    {
        let mut steps: Vec<Vec<(u32, Option<u32>)>> = Vec::new();
        let mut lanes: Vec<BatchLane> = Vec::new();
        let mut metrics: Vec<Vec<StepMetrics>> = Vec::new();
        let mut i: usize = 0;
        while i < stories.len()
            invariant
                i <= stories.len(),
                steps.len() == i,
                lanes.len() == i,
                metrics.len() == i,
                forall|k: int|
                    0 <= k < i ==> (#[trigger] steps@[k])@ == steps_of_story(*a, stories@[k]@),
                forall|k: int| 0 <= k < i ==> #[trigger] lanes@[k] == BatchLane::fresh(),
                forall|k: int| 0 <= k < i ==> (#[trigger] metrics@[k]).len() == 0,
            decreases stories.len() - i,
        {
            steps.push(story_steps(a, &stories[i]));
            lanes.push(BatchLane::start());
            metrics.push(Vec::new());
            i = i + 1;
        }
        assert(step_views(steps@) =~= all_steps(*a, stories@));
        StoryBatch {
            setting,
            steps,
            lanes,
            metrics,
            telemetry: BatchTelemetry {
                fused_launches: 0,
                direct_phase_launches: 0,
                h2d_bytes: 0,
                d2h_bytes: 0,
                phase_sequence: 0,
                phase_geometry_skips: 0,
                sampled_grid_max: 0,
                skipped_grid_max: 0,
            },
        }
    }

    /// How much work the batch is.
    pub fn work_units(&self) -> (r: u64)
        ensures
            r == work_units_of(step_views(self.steps@)),
    {
        let ghost views = step_views(self.steps@);
        let mut total: u64 = 0;
        let mut i: usize = 0;
        assert(views.take(0) =~= Seq::<Seq<(u32, Option<u32>)>>::empty());
        while i < self.steps.len()
            invariant
                i <= self.steps.len(),
                views == step_views(self.steps@),
                total == work_units_of(views.take(i as int)),
            decreases self.steps.len() - i,
        {
            total = total.saturating_add(self.steps[i].len() as u64);
            assert(views.take(i + 1).drop_last() =~= views.take(i as int));
            i = i + 1;
        }
        assert(views.take(self.steps.len() as int) =~= views);
        total
    }

    /// Whether every story is launched to its end.
    pub fn is_done(&self) -> (r: bool)
        requires
            self.wf(),
        ensures
            r == self.done(),
    {
        let mut i: usize = 0;
        while i < self.lanes.len()
            invariant
                self.wf(),
                i <= self.lanes.len(),
                forall|k: int|
                    0 <= k < i ==> (#[trigger] self.lanes@[k]).offset == self.steps@[k].len(),
            decreases self.lanes.len() - i,
        {
            if self.lanes[i].offset < self.steps[i].len() {
                assert(self.lanes@[i as int].offset != self.steps@[i as int].len());
                return false;
            }
            i = i + 1;
        }
        true
    }
}

/// The largest number of steps that a lane launches.
pub open spec fn most_steps(counts: Seq<u32>) -> int
    decreases counts.len(),
{
    if counts.len() == 0 {
        0
    } else if most_steps(counts.drop_last()) < counts.last() {
        counts.last() as int
    } else {
        most_steps(counts.drop_last())
    }
}

/// The bytes of the steps of the first lanes, held at the largest value.
pub open spec fn step_bytes(counts: Seq<u32>) -> u64
    decreases counts.len(),
{
    if counts.len() == 0 {
        0
    } else {
        capped_sum(step_bytes(counts.drop_last()), (counts.last() * 16) as u64)
    }
}

/// The bytes that a chunk sends: its steps, and for each lane two pointers, a count and a
/// tick.
pub open spec fn chunk_bytes(counts: Seq<u32>, lanes: nat) -> u64 {
    capped_sum(
        capped_sum(
            capped_sum(
                capped_sum(step_bytes(counts), (lanes * 8) as u64),
                (lanes * 8) as u64,
            ),
            (lanes * 4) as u64,
        ),
        (lanes * 8) as u64,
    )
}

impl StoryBatch {
    /// Where the next chunk of a lane ends.
    pub open spec fn lane_end(self, lane: int) -> int {
        chunk_end_of(self.lanes@[lane].offset as int, self.steps@[lane].len() as int)
    }

    /// The steps that the next chunk of a lane holds can be taken.
    pub open spec fn lane_sound(self, a: Alphabet, lane: int) -> bool {
        all_sound(
            a,
            self.steps@[lane]@,
            self.lanes@[lane].offset as int,
            self.lane_end(lane),
        )
    }

    /// The prepared chunk is that of a lane.
    pub open spec fn lane_prepared(self, a: Alphabet, lane: int, chunk: PreparedChunk) -> bool {
        chunk.holds(
            a,
            self.setting,
            self.lanes@[lane].state.current_tick,
            self.steps@[lane]@,
            self.lanes@[lane].offset as int,
            self.lane_end(lane),
        )
    }

    /// The chunk holds what every lane launches next.
    pub open spec fn chunk_holds(self, a: Alphabet, chunk: BatchChunk) -> bool {
        &&& chunk.lanes.len() == self.lanes.len()
        &&& chunk.step_counts.len() == self.lanes.len()
        &&& chunk.base_ticks.len() == self.lanes.len()
        &&& forall|l: int|
            0 <= l < chunk.lanes.len() ==> self.lane_prepared(a, l, #[trigger] chunk.lanes@[l])
        &&& forall|l: int|
            0 <= l < chunk.lanes.len() ==> #[trigger] chunk.step_counts@[l] == self.lane_end(l)
                - self.lanes@[l].offset
        &&& forall|l: int|
            0 <= l < chunk.lanes.len() ==> #[trigger] chunk.base_ticks@[l]
                == self.lanes@[l].state.current_tick
        &&& chunk.max_steps == most_steps(chunk.step_counts@)
        &&& chunk.h2d_bytes == chunk_bytes(chunk.step_counts@, self.lanes@.len())
    }

    /// Some lane has a step that cannot be taken; the lanes before it are sound.
    pub open spec fn lane_refused(self, a: Alphabet, lane: int, e: LeoError) -> bool {
        &&& 0 <= lane < self.lanes.len()
        &&& forall|l: int| 0 <= l < lane ==> #[trigger] self.lane_sound(a, l)
        &&& step_refused(
            a,
            self.steps@[lane]@,
            self.lanes@[lane].offset as int,
            self.lane_end(lane),
            e,
        )
    }

    /// Some lane has a step that cannot be taken, and the error says which comes first.
    pub open spec fn refused(self, a: Alphabet, e: LeoError) -> bool {
        exists|lane: int| #[trigger] self.lane_refused(a, lane, e)
    }

    /// Prepares the next chunk of every lane.
    fn prepare(&self, a: &Alphabet) -> (r: LeoResult<BatchChunk>)
        requires
            self.wf(),
            self.lanes.len() <= GPU_STORY_BATCH_MAX_LANES,
        ensures
            match r {
                Ok(chunk) => {
                    &&& self.chunk_holds(*a, chunk)
                    &&& forall|l: int| 0 <= l < self.lanes.len() ==> #[trigger] self.lane_sound(*a, l)
                },
                Err(e) => self.refused(*a, e),
            },
    {
        let mut lanes: Vec<PreparedChunk> = Vec::new();
        let mut step_counts: Vec<u32> = Vec::new();
        let mut base_ticks: Vec<u64> = Vec::new();
        let mut max_steps: usize = 0;
        let mut h2d_bytes: u64 = 0;
        let mut l: usize = 0;
        while l < self.lanes.len()
            invariant
                self.wf(),
                l <= self.lanes.len(),
                lanes.len() == l,
                step_counts.len() == l,
                base_ticks.len() == l,
                forall|k: int|
                    0 <= k < l ==> self.lane_prepared(*a, k, #[trigger] lanes@[k]),
                forall|k: int| 0 <= k < l ==> #[trigger] self.lane_sound(*a, k),
                forall|k: int|
                    0 <= k < l ==> #[trigger] step_counts@[k] == self.lane_end(k)
                        - self.lanes@[k].offset,
                forall|k: int|
                    0 <= k < l ==> #[trigger] base_ticks@[k] == self.lanes@[k].state.current_tick,
                max_steps == most_steps(step_counts@),
                h2d_bytes == step_bytes(step_counts@),
            decreases self.lanes.len() - l,
        {
            let start: usize = self.lanes[l].offset;
            assert(self.lanes@[l as int].offset <= self.steps@[l as int].len());
            let end: usize = chunk_end(start, self.steps[l].len());
            let base_tick: u64 = self.lanes[l].state.current_tick;
            let chunk: PreparedChunk = match prepare_chunk(
                a,
                &self.setting,
                base_tick,
                &self.steps[l],
                start,
                end,
            ) {
                Ok(chunk) => chunk,
                Err(e) => {
                    proof {
                        let at = choose|at: int| #[trigger]
                            first_problem(
                                *a,
                                self.steps@[l as int]@,
                                start as int,
                                end as int,
                                at,
                            ) && e.says(
                                LeoErrorKind::Cuda,
                                step_problem(*a, self.steps@[l as int]@[at])->0,
                            );
                        assert(step_refused(
                            *a,
                            self.steps@[l as int]@,
                            start as int,
                            end as int,
                            e,
                        ));
                        assert(self.lane_refused(*a, l as int, e));
                        assert(self.refused(*a, e));
                    }
                    return Err(e);
                },
            };
            let count: u32 = (end - start) as u32;
            let ghost earlier = step_counts@;
            let ghost earlier_lanes = lanes@;
            assert(self.lane_prepared(*a, l as int, chunk));
            assert(self.lane_sound(*a, l as int));
            if max_steps < count as usize {
                max_steps = count as usize;
            }
            h2d_bytes = h2d_bytes.saturating_add(count as u64 * 16);
            lanes.push(chunk);
            step_counts.push(count);
            base_ticks.push(base_tick);
            proof {
                assert(step_counts@.drop_last() =~= earlier);
                assert forall|k: int| 0 <= k < l + 1 implies self.lane_prepared(
                    *a,
                    k,
                    #[trigger] lanes@[k],
                ) by {
                    if k < l {
                        assert(lanes@[k] == earlier_lanes[k]);
                    }
                }
            }
            l = l + 1;
        }
        let tables: u64 = self.lanes.len() as u64;
        let h2d_bytes: u64 = h2d_bytes.saturating_add(tables * 8).saturating_add(
            tables * 8,
        ).saturating_add(tables * 4).saturating_add(tables * 8);
        Ok(BatchChunk { lanes, step_counts, base_ticks, max_steps, h2d_bytes })
    }

    /// The lanes after a chunk was prepared.
    pub open spec fn lanes_after(self, chunk: BatchChunk) -> Seq<BatchLane> {
        Seq::new(
            self.lanes@.len(),
            |l: int|
                self.lanes@[l].after_prepare(
                    self.lane_end(l),
                    chunk.lanes@[l].learned_steps,
                    chunk.lanes@[l].context_learning,
                ),
        )
    }

    /// The next chunk of every lane; none where every story is done. An error leaves the batch
    /// as it is.
    pub fn open_chunk(&mut self, a: &Alphabet) -> (r: LeoResult<Option<BatchChunk>>)
        requires
            old(self).wf(),
            old(self).lanes.len() <= GPU_STORY_BATCH_MAX_LANES,
        ensures
            final(self).wf(),
            match r {
                Ok(None) => old(self).done() && *final(self) == *old(self),
                Ok(Some(chunk)) => {
                    &&& !old(self).done()
                    &&& old(self).chunk_holds(*a, chunk)
                    &&& final(self).lanes@ == old(self).lanes_after(chunk)
                    &&& *final(self) == (StoryBatch { lanes: final(self).lanes, ..*old(self) })
                    &&& old(self).all_read() ==> forall|l: int|
                        0 <= l < chunk.lanes.len() ==> final(self).metrics@[l].len() + (
                        #[trigger] chunk.lanes@[l]).notes.len() == final(self).lanes@[l].offset
                },
                Err(e) => {
                    &&& *final(self) == *old(self)
                    &&& old(self).refused(*a, e)
                },
            },
    {
        if self.is_done() {
            return Ok(None);
        }
        let chunk: BatchChunk = match self.prepare(a) {
            Ok(chunk) => chunk,
            Err(e) => {
                return Err(e);
            },
        };
        let ghost before = *self;
        let mut l: usize = 0;
        while l < self.lanes.len()
            invariant
                before == *old(self),
                before.wf(),
                before.chunk_holds(*a, chunk),
                l <= self.lanes.len(),
                self.lanes.len() == before.lanes.len(),
                *self == (StoryBatch { lanes: self.lanes, ..before }),
                forall|k: int|
                    0 <= k < self.lanes.len() ==> #[trigger] self.lanes@[k] == (if k < l {
                        before.lanes_after(chunk)[k]
                    } else {
                        before.lanes@[k]
                    }),
            decreases self.lanes.len() - l,
        {
            let lane: BatchLane = self.lanes[l];
            assert(lane == before.lanes@[l as int]);
            let end: usize = chunk_end(lane.offset, self.steps[l].len());
            self.lanes.set(
                l,
                BatchLane {
                    offset: end,
                    learned_steps: lane.learned_steps.saturating_add(chunk.lanes[l].learned_steps),
                    context_learning: lane.context_learning || chunk.lanes[l].context_learning,
                    state: lane.state,
                },
            );
            l = l + 1;
        }
        assert(self.lanes@ =~= before.lanes_after(chunk));
        Ok(Some(chunk))
    }
}

/// The first step between two places that cannot be taken is what the error says.
pub open spec fn step_refused(
    a: Alphabet,
    steps: Seq<(u32, Option<u32>)>,
    start: int,
    end: int,
    e: LeoError,
) -> bool {
    exists|at: int| #[trigger]
        first_problem(a, steps, start, end, at) && e.says(
            LeoErrorKind::Cuda,
            step_problem(a, steps[at])->0,
        )
}

/// Lanes that are launched together.
#[derive(Debug, Clone, Copy, PartialEq, Eq, Structural)]
pub struct LaneGroup {
    pub start: usize,
    pub count: usize,
}

/// Lanes in groups of `size`, the last one with what is left.
pub open spec fn groups_from(start: int, lanes: int, size: int) -> Seq<LaneGroup>
    decreases lanes - start,
{
    if start >= lanes || size <= 0 {
        seq![]
    } else {
        let count = if lanes - start < size {
            lanes - start
        } else {
            size
        };
        seq![LaneGroup { start: start as usize, count: count as usize }] + groups_from(
            start + count,
            lanes,
            size,
        )
    }
}

/// The lanes in groups of the size that the plan asks for.
pub fn lane_groups(lanes: usize, physical_lane_chunk: usize) -> (r: Vec<LaneGroup>)
    ensures
        r@ == groups_from(
            0,
            lanes as int,
            if physical_lane_chunk < 1 {
                1
            } else {
                physical_lane_chunk as int
            },
        ),
{
    let size: usize = if physical_lane_chunk < 1 {
        1
    } else {
        physical_lane_chunk
    };
    let mut groups: Vec<LaneGroup> = Vec::new();
    let mut start: usize = 0;
    let ghost all = groups_from(0, lanes as int, size as int);
    assert(all =~= groups@ + groups_from(0, lanes as int, size as int));
    while start < lanes
        invariant
            start <= lanes,
            1 <= size,
            all == groups@ + groups_from(start as int, lanes as int, size as int),
        decreases lanes - start,
    {
        let count: usize = if lanes - start < size {
            lanes - start
        } else {
            size
        };
        let ghost earlier = groups@;
        groups.push(LaneGroup { start, count });
        proof {
            let rest = groups_from(start + count, lanes as int, size as int);
            assert(groups@ + rest =~= earlier + groups_from(
                start as int,
                lanes as int,
                size as int,
            ));
        }
        start = start + count;
    }
    assert(groups@ =~= all);
    groups
}

/// Every lane is in exactly one group.
pub proof fn law_groups_partition_the_lanes(start: int, lanes: int, size: int, lane: int)
    requires
        0 <= start <= lane < lanes,
        lanes <= usize::MAX,
        1 <= size,
    ensures
        exists|g: int|
            0 <= g < groups_from(start, lanes, size).len() && (#[trigger] groups_from(
                start,
                lanes,
                size,
            )[g]).start <= lane < groups_from(start, lanes, size)[g].start + groups_from(
                start,
                lanes,
                size,
            )[g].count,
        forall|g: int, h: int|
            0 <= g < h < groups_from(start, lanes, size).len() ==> (#[trigger] groups_from(
                start,
                lanes,
                size,
            )[g]).start + groups_from(start, lanes, size)[g].count <= (#[trigger] groups_from(
                start,
                lanes,
                size,
            )[h]).start,
        forall|g: int|
            0 <= g < groups_from(start, lanes, size).len() ==> start <= (#[trigger] groups_from(
                start,
                lanes,
                size,
            )[g]).start,
    decreases lanes - start,
{
    let all = groups_from(start, lanes, size);
    let count = if lanes - start < size {
        lanes - start
    } else {
        size
    };
    let rest = groups_from(start + count, lanes, size);
    assert(all =~= seq![LaneGroup { start: start as usize, count: count as usize }] + rest);
    if start + count < lanes {
        let inner = if lane < start + count {
            start + count
        } else {
            lane
        };
        law_groups_partition_the_lanes(start + count, lanes, size, inner);
        assert forall|g: int, h: int| 0 <= g < h < all.len() implies (#[trigger] all[g]).start
            + all[g].count <= (#[trigger] all[h]).start by {
            assert(all[h] == rest[h - 1]);
            if g > 0 {
                assert(all[g] == rest[g - 1]);
            }
        }
        assert forall|g: int| 0 <= g < all.len() implies start <= (#[trigger] all[g]).start by {
            if g > 0 {
                assert(all[g] == rest[g - 1]);
            }
        }
        if lane < start + count {
            assert(all[0].start <= lane < all[0].start + all[0].count);
        } else {
            let g = choose|g: int|
                0 <= g < rest.len() && (#[trigger] rest[g]).start <= lane < rest[g].start
                    + rest[g].count;
            assert(all[g + 1] == rest[g]);
        }
    } else {
        assert(rest.len() == 0);
        assert(all[0].start <= lane < all[0].start + all[0].count);
    }
}

/// The largest number of steps of a group's lanes.
pub fn group_max_steps(counts: &Vec<u32>, group: &LaneGroup) -> (r: usize)
    requires
        group.start + group.count <= counts.len(),
    ensures
        r == most_steps(counts@.subrange(group.start as int, group.start + group.count)),
{
    let ghost part = counts@.subrange(group.start as int, group.start + group.count);
    let mut most: usize = 0;
    let mut i: usize = 0;
    assert(part.take(0) =~= Seq::<u32>::empty());
    while i < group.count
        invariant
            group.start + group.count <= counts.len(),
            part == counts@.subrange(group.start as int, group.start + group.count),
            i <= group.count,
            most == most_steps(part.take(i as int)),
        decreases group.count - i,
    {
        let count: u32 = counts[group.start + i];
        proof {
            assert(part.take(i + 1).drop_last() =~= part.take(i as int));
            assert(part.take(i + 1).last() == count);
        }
        if most < count as usize {
            most = count as usize;
        }
        i = i + 1;
    }
    assert(part.take(group.count as int) =~= part);
    most
}

/// Whether the lanes of a batch take many steps in one launch.
pub open spec fn persistent_shared(
    enabled: bool,
    learning_trace: bool,
    full_step_metrics: bool,
    phase_stride: Option<u64>,
    limits: DeviceLimits,
    plan: CudaExecutionPlan,
) -> bool {
    &&& enabled
    &&& learning_trace
    &&& !full_step_metrics
    &&& phase_stride is None
    &&& limits.cooperative_launch
    &&& limits.shared_persistent_blocks_256 > 0 || limits.shared_grouped_blocks_256 > 0
    &&& plan.fused_wavefront_blocks > 0
    &&& plan.fused_wavefront_threads == SHARED_BATCH_THREADS
}

/// Whether the lanes of a batch take many steps in one launch.
pub fn uses_persistent_shared(
    enabled: bool,
    learning_trace: bool,
    full_step_metrics: bool,
    phase_stride: Option<u64>,
    limits: &DeviceLimits,
    plan: &CudaExecutionPlan,
) -> (r: bool)
    ensures
        r == persistent_shared(
            enabled,
            learning_trace,
            full_step_metrics,
            phase_stride,
            *limits,
            *plan,
        ),
{
    enabled && learning_trace && !full_step_metrics && phase_stride.is_none()
        && limits.cooperative_launch && (limits.shared_persistent_blocks_256 > 0
        || limits.shared_grouped_blocks_256 > 0) && plan.fused_wavefront_blocks > 0
        && plan.fused_wavefront_threads == SHARED_BATCH_THREADS
}

/// One step of a group of lanes.
pub open spec fn wave_of(
    step: int,
    group: LaneGroup,
    sequence: u64,
    stride: Option<u64>,
    model_blocks: u32,
    learning_trace: bool,
) -> WavefrontStep {
    WavefrontStep {
        lane_start: group.start,
        lane_count: group.count,
        step_index: step as usize,
        model_blocks,
        learning_trace,
        phase_profile: sampled(stride, sequence),
    }
}

/// The wavefronts of a chunk: step after step, and within a step group after group, numbered
/// from `sequence` on.
pub open spec fn waves_of(
    groups: Seq<LaneGroup>,
    steps: int,
    sequence: u64,
    stride: Option<u64>,
    model_blocks: u32,
    learning_trace: bool,
) -> Seq<WavefrontStep>
    decreases steps,
{
    if steps <= 0 {
        seq![]
    } else {
        let before = waves_of(groups, steps - 1, sequence, stride, model_blocks, learning_trace);
        before + Seq::new(
            groups.len(),
            |g: int|
                wave_of(
                    steps - 1,
                    groups[g],
                    capped_sum(sequence, (before.len() + g) as u64),
                    stride,
                    model_blocks,
                    learning_trace,
                ),
        )
    }
}

impl StoryBatch {
    /// Lists the wavefronts of a chunk whose lanes take one step at a time.
    pub fn schedule_wavefronts(
        &mut self,
        groups: &Vec<LaneGroup>,
        max_steps: usize,
        stride: Option<u64>,
        model_blocks: u32,
    ) -> (r: Vec<WavefrontStep>)
        requires
            stride != Some(0u64),
        ensures
            r@ == waves_of(
                groups@,
                max_steps as int,
                old(self).telemetry.phase_sequence,
                stride,
                model_blocks,
                !old(self).setting.frozen,
            ),
            *final(self) == (StoryBatch {
                telemetry: BatchTelemetry {
                    phase_sequence: capped_sum(
                        old(self).telemetry.phase_sequence,
                        r@.len() as u64,
                    ),
                    ..old(self).telemetry
                },
                ..*old(self)
            }),
    {
        let learning_trace: bool = !self.setting.frozen;
        let first: u64 = self.telemetry.phase_sequence;
        let mut out: Vec<WavefrontStep> = Vec::new();
        let mut step: usize = 0;
        while step < max_steps
            invariant
                stride != Some(0u64),
                step <= max_steps,
                out@ == waves_of(
                    groups@,
                    step as int,
                    first,
                    stride,
                    model_blocks,
                    learning_trace,
                ),
                *self == *old(self),
            decreases max_steps - step,
        {
            let ghost earlier = out@;
            let ghost row = Seq::new(
                groups@.len(),
                |g: int|
                    wave_of(
                        step as int,
                        groups@[g],
                        capped_sum(first, (earlier.len() + g) as u64),
                        stride,
                        model_blocks,
                        learning_trace,
                    ),
            );
            let mut g: usize = 0;
            while g < groups.len()
                invariant
                    stride != Some(0u64),
                    g <= groups.len(),
                    row == Seq::new(
                        groups@.len(),
                        |g: int|
                            wave_of(
                                step as int,
                                groups@[g],
                                capped_sum(first, (earlier.len() + g) as u64),
                                stride,
                                model_blocks,
                                learning_trace,
                            ),
                    ),
                    out@ == earlier + row.take(g as int),
                    *self == *old(self),
                decreases groups.len() - g,
            {
                let sequence: u64 = first.saturating_add(out.len() as u64);
                let phase_profile: bool = crate::replay::is_sampled(stride, sequence);
                let group: LaneGroup = groups[g];
                assert(out.len() == earlier.len() + g);
                out.push(
                    WavefrontStep {
                        lane_start: group.start,
                        lane_count: group.count,
                        step_index: step,
                        model_blocks,
                        learning_trace,
                        phase_profile,
                    },
                );
                assert(row.take(g + 1) =~= row.take(g as int).push(row[g as int]));
                assert(out@ =~= earlier + row.take(g + 1));
                g = g + 1;
            }
            assert(row.take(groups.len() as int) =~= row);
            step = step + 1;
            assert(out@ =~= waves_of(
                groups@,
                step as int,
                first,
                stride,
                model_blocks,
                learning_trace,
            ));
        }
        self.telemetry.phase_sequence = first.saturating_add(out.len() as u64);
        out
    }

    /// Counts the wavefronts of a chunk that was launched.
    pub fn record_wavefront(&mut self, kind: WavefrontLaunchKind)
        ensures
            *final(self) == (StoryBatch {
                telemetry: old(self).telemetry.with_wavefront(kind),
                ..*old(self)
            }),
    {
        self.telemetry.record_wavefront(kind);
    }
}

/// The state of a lane after a refused step, which the lane itself does not count.
pub open spec fn uncounted(before: DeviceState, after: DeviceState) -> DeviceState {
    DeviceState {
        statistics: TrainingStatistics {
            numerical_rejections: before.statistics.numerical_rejections,
            ..after.statistics
        },
        ..after
    }
}

/// Reading the records of steps that all have notes gives metrics of each.
proof fn lemma_every_record_kept<
    S: Fn(Scalar, Scalar) -> Scalar,
    Q: Fn(Scalar, u32) -> Scalar,
    A: Fn(WideScalar, Scalar) -> WideScalar,
>(
    s: S,
    q: Q,
    raise: A,
    a: Alphabet,
    shape: RecordShape,
    notes: Seq<Option<StepNote>>,
    records: Seq<StepRecord>,
    learning_trace: bool,
    head: Seq<char>,
    before: DeviceState,
    after: DeviceState,
    r: LeoResult<Vec<StepMetrics>>,
)
    requires
        reading_result(
            s,
            q,
            raise,
            a,
            shape,
            notes,
            records,
            learning_trace,
            head,
            before,
            after,
            r,
        ),
        forall|i: int| 0 <= i < notes.len() ==> #[trigger] notes[i] is Some,
    ensures
        r matches Ok(list) ==> list@.len() == notes.len(),
{
    if r is Ok {
        let (states, metrics) = choose|states: Seq<DeviceState>, metrics: Seq<Option<StepMetrics>>|
            {
                &&& #[trigger] records_read(
                    s,
                    q,
                    raise,
                    a,
                    shape,
                    notes,
                    records,
                    learning_trace,
                    states,
                    metrics,
                )
                &&& states[0] == before
                &&& r matches Ok(list) && {
                    &&& metrics.len() == notes.len()
                    &&& after == states.last()
                    &&& list@ == kept_metrics(metrics)
                }
            };
        assert forall|i: int| 0 <= i < metrics.len() implies #[trigger] metrics[i] is Some by {
            assert(notes[i] is Some);
        }
        lemma_all_kept(metrics);
    }
}

/// Metrics that are all there are all kept.
proof fn lemma_all_kept(metrics: Seq<Option<StepMetrics>>)
    requires
        forall|i: int| 0 <= i < metrics.len() ==> #[trigger] metrics[i] is Some,
    ensures
        kept_metrics(metrics).len() == metrics.len(),
    decreases metrics.len(),
{
    if metrics.len() > 0 {
        assert forall|i: int| 0 <= i < metrics.len() - 1 implies #[trigger] metrics.drop_last()[i]
            is Some by {
            assert(metrics[i] is Some);
        }
        lemma_all_kept(metrics.drop_last());
    }
}

/// What the error of a refused step starts with.
pub open spec fn refusal_head(persistent: bool, lane: nat) -> Seq<char> {
    if persistent {
        "CUDA persistent shared story-batch learning update rejected a non-finite value (lane "@
            + decimal(lane) + ", code "@
    } else {
        "CUDA shared story-batch learning update rejected a non-finite value (lane "@ + decimal(
            lane,
        ) + ", code "@
    }
}

impl StoryBatch {
    /// A lane's records were read, after its clock and its eligibility lists moved on.
    pub open spec fn lane_read<
        S: Fn(Scalar, Scalar) -> Scalar,
        Q: Fn(Scalar, u32) -> Scalar,
        A: Fn(WideScalar, Scalar) -> WideScalar,
    >(
        self,
        subtract: S,
        divide: Q,
        raise: A,
        a: Alphabet,
        shape: RecordShape,
        lane: int,
        notes: Seq<StepNote>,
        records: Seq<StepRecord>,
        persistent: bool,
        after: DeviceState,
        list: LeoResult<Vec<StepMetrics>>,
    ) -> bool {
        reading_result(
            subtract,
            divide,
            raise,
            a,
            shape,
            some_notes(notes),
            records,
            !self.setting.frozen,
            refusal_head(persistent, lane as nat),
            self.lanes@[lane].state.after_launch(
                notes.len() as usize,
                if self.setting.frozen {
                    0
                } else {
                    notes.len() as usize
                },
                0,
                false,
            ),
            after,
            list,
        )
    }

    /// Takes in the records of one lane, which are those of the steps that were launched and not
    /// read. A refused step is counted in the statistics of the canonical model, and there alone,
    /// and ends the batch.
    pub fn close_lane<
        S: Fn(Scalar, Scalar) -> Scalar,
        Q: Fn(Scalar, u32) -> Scalar,
        A: Fn(WideScalar, Scalar) -> WideScalar,
    >(
        &mut self,
        lane: usize,
        notes: &Vec<StepNote>,
        records: &Vec<StepRecord>,
        persistent: bool,
        canonical: &mut TrainingStatistics,
        alphabet: &Alphabet,
        shape: &RecordShape,
        subtract: &S,
        divide: &Q,
        raise: &A,
    ) -> (r: LeoResult<()>)
        requires
            takes_any_pair(*subtract),
            takes_any_count(*divide),
            takes_any_loss(*raise),
            old(self).wf(),
            lane < old(self).lanes.len(),
            old(self).metrics@[lane as int].len() + notes.len() == old(self).lanes@[lane as int].offset,
            notes.len() == records.len(),
            forall|k: int|
                0 <= k < records.len() && records@[k].code() == 0
                    ==> #[trigger] records@[k].readable(*alphabet),
        ensures
            final(self).wf(),
            final(self).setting == old(self).setting,
            final(self).steps == old(self).steps,
            final(self).telemetry == old(self).telemetry,
            final(self).lanes.len() == old(self).lanes.len(),
            final(self).metrics.len() == old(self).metrics.len(),
            forall|l: int|
                0 <= l < old(self).lanes.len() && l != lane ==> #[trigger] final(self).lanes@[l]
                    == old(self).lanes@[l],
            forall|l: int|
                0 <= l < old(self).metrics.len() && l != lane ==> #[trigger] final(self).metrics@[l]
                    == old(self).metrics@[l],
            notes.len() == 0 ==> r is Ok && *final(self) == *old(self) && *final(canonical) == *old(
                canonical,
            ),
            r is Ok ==> final(self).metrics@[lane as int].len() == final(self).lanes@[lane as int].offset,
            notes.len() > 0 ==> exists|state: DeviceState, list: LeoResult<Vec<StepMetrics>>|
                {
                    &&& #[trigger] old(self).lane_read(
                        *subtract,
                        *divide,
                        *raise,
                        *alphabet,
                        *shape,
                        lane as int,
                        notes@,
                        records@,
                        persistent,
                        state,
                        list,
                    )
                    &&& final(self).lanes@[lane as int] == (BatchLane {
                        state: if list is Ok {
                            state
                        } else {
                            uncounted(old(self).lanes@[lane as int].state, state)
                        },
                        ..old(self).lanes@[lane as int]
                    })
                    &&& match list {
                        Ok(more) => {
                            &&& r is Ok
                            &&& *final(canonical) == *old(canonical)
                            &&& final(self).metrics@[lane as int]@ == old(self).metrics@[lane as int]@
                                + more@
                        },
                        Err(e) => {
                            &&& r == Err::<(), LeoError>(e)
                            &&& *final(canonical) == (TrainingStatistics {
                                numerical_rejections: capped_sum(
                                    old(canonical).numerical_rejections,
                                    1,
                                ),
                                ..*old(canonical)
                            })
                            &&& final(self).metrics@[lane as int] == old(self).metrics@[lane as int]
                        },
                    }
                },
    {
        if notes.len() == 0 {
            return Ok(());
        }
        let learning_trace: bool = !self.setting.frozen;
        let trace_steps: usize = if learning_trace {
            notes.len()
        } else {
            0
        };
        let mut entry: BatchLane = self.lanes[lane];
        entry.state.record_launch(notes.len(), trace_steps, 0, false);
        let ghost state_before = entry.state;
        let some: Vec<Option<StepNote>> = to_some_notes(notes);
        let head: String = if persistent {
            with_number(
                "CUDA persistent shared story-batch learning update rejected a non-finite value (lane ",
                lane as u64,
                ", code ",
            )
        } else {
            with_number(
                "CUDA shared story-batch learning update rejected a non-finite value (lane ",
                lane as u64,
                ", code ",
            )
        };
        let result: LeoResult<Vec<StepMetrics>> = entry.state.read_records(
            alphabet,
            shape,
            &some,
            records,
            learning_trace,
            head.as_str(),
            subtract,
            divide,
            raise,
        );
        let ghost outcome = result;
        let ghost state = entry.state;
        assert(old(self).lane_read(
            *subtract,
            *divide,
            *raise,
            *alphabet,
            *shape,
            lane as int,
            notes@,
            records@,
            persistent,
            state,
            outcome,
        ));
        match result {
            Ok(list) => {
                proof {
                    lemma_every_record_kept(
                        *subtract,
                        *divide,
                        *raise,
                        *alphabet,
                        *shape,
                        some@,
                        records@,
                        learning_trace,
                        head@,
                        state_before,
                        state,
                        outcome,
                    );
                }
                self.lanes.set(lane, entry);
                let mut more: Vec<StepMetrics> = list;
                self.metrics[lane].append(&mut more);
                assert(outcome matches Ok(found) && self.metrics@[lane as int]@ == old(self).metrics@[lane as int]@ + found@);
                Ok(())
            },
            Err(e) => {
                entry.state.statistics.numerical_rejections =
                    self.lanes[lane].state.statistics.numerical_rejections;
                self.lanes.set(lane, entry);
                canonical.record_rejection();
                Err(e)
            },
        }
    }
}

/// The bytes that the records of a chunk bring back.
pub fn record_bytes(count: usize, persistent: bool) -> (r: u64)
    ensures
        r == capped(
            count * (if persistent {
                12int
            } else {
                60int
            }),
        ),
{
    let size: usize = if persistent {
        12
    } else {
        60
    };
    capped_product(count, size) as u64
}

/// Counters as what they moved by since they were empty.
pub open spec fn as_delta(s: TrainingStatistics) -> StatisticsDelta {
    StatisticsDelta {
        processed_bytes: s.processed_bytes,
        processed_stories: s.processed_stories,
        training_loss_sum: s.training_loss_sum,
        training_targets: s.training_targets,
        active_neurons_sum: s.active_neurons_sum,
        active_neurons_peak: s.active_neurons_peak,
        synaptic_events: s.synaptic_events,
        numerical_rejections: s.numerical_rejections,
        persistent_ticks: s.persistent_ticks,
    }
}

fn to_delta(s: &TrainingStatistics) -> (r: StatisticsDelta)
    ensures
        r == as_delta(*s),
{
    StatisticsDelta {
        processed_bytes: s.processed_bytes,
        processed_stories: s.processed_stories,
        training_loss_sum: s.training_loss_sum,
        training_targets: s.training_targets,
        active_neurons_sum: s.active_neurons_sum,
        active_neurons_peak: s.active_neurons_peak,
        synaptic_events: s.synaptic_events,
        numerical_rejections: s.numerical_rejections,
        persistent_ticks: s.persistent_ticks,
    }
}

/// What the lanes of a finished batch hand to the merge.
#[derive(Debug, Clone)]
pub struct BatchOutcome {
    pub statistics: Vec<StatisticsDelta>,
    pub learned_steps: Vec<u64>,
    /// For each lane, whether its output bias has changed.
    pub output_bias_dirty: Vec<bool>,
    /// For each lane, whether its context projection has changed.
    pub context_output_dirty: Vec<bool>,
    pub any_output_bias_dirty: bool,
    pub any_context_output_dirty: bool,
}

/// Some flag is set.
pub open spec fn any_set(flags: Seq<bool>) -> bool {
    exists|i: int| 0 <= i < flags.len() && #[trigger] flags[i]
}

impl StoryBatch {
    /// The counters of a lane whose story is done: a learning batch counts a story that has
    /// steps.
    pub open spec fn lane_statistics(self, lane: int) -> StatisticsDelta {
        let s = self.lanes@[lane].state.statistics;
        if !self.setting.frozen && self.steps@[lane].len() > 0 {
            StatisticsDelta {
                processed_stories: capped_sum(s.processed_stories, 1),
                ..as_delta(s)
            }
        } else {
            as_delta(s)
        }
    }

    /// The outcome is that of the lanes.
    pub open spec fn outcome_holds(self, o: BatchOutcome) -> bool {
        let n = self.lanes.len();
        &&& o.statistics.len() == n
        &&& o.learned_steps.len() == n
        &&& o.output_bias_dirty.len() == n
        &&& o.context_output_dirty.len() == n
        &&& forall|l: int| 0 <= l < n ==> #[trigger] o.statistics@[l] == self.lane_statistics(l)
        &&& forall|l: int|
            0 <= l < n ==> #[trigger] o.learned_steps@[l] == self.lanes@[l].learned_steps
        &&& forall|l: int|
            0 <= l < n ==> #[trigger] o.output_bias_dirty@[l] == (self.lanes@[l].learned_steps
                > 0)
        &&& forall|l: int|
            0 <= l < n ==> #[trigger] o.context_output_dirty@[l] == self.lanes@[l].context_learning
        &&& o.any_output_bias_dirty == any_set(o.output_bias_dirty@)
        &&& o.any_context_output_dirty == any_set(o.context_output_dirty@)
    }

    /// What the lanes hand to the merge.
    pub fn outcome(&self) -> (r: BatchOutcome)
        requires
            self.wf(),
        ensures
            self.outcome_holds(r),
    {
        let mut o = BatchOutcome {
            statistics: Vec::new(),
            learned_steps: Vec::new(),
            output_bias_dirty: Vec::new(),
            context_output_dirty: Vec::new(),
            any_output_bias_dirty: false,
            any_context_output_dirty: false,
        };
        let mut l: usize = 0;
        while l < self.lanes.len()
            invariant
                self.wf(),
                l <= self.lanes.len(),
                o.statistics.len() == l,
                o.learned_steps.len() == l,
                o.output_bias_dirty.len() == l,
                o.context_output_dirty.len() == l,
                forall|k: int|
                    0 <= k < l ==> #[trigger] o.statistics@[k] == self.lane_statistics(k),
                forall|k: int|
                    0 <= k < l ==> #[trigger] o.learned_steps@[k] == self.lanes@[k].learned_steps,
                forall|k: int|
                    0 <= k < l ==> #[trigger] o.output_bias_dirty@[k] == (
                    self.lanes@[k].learned_steps > 0),
                forall|k: int|
                    0 <= k < l ==> #[trigger] o.context_output_dirty@[k]
                        == self.lanes@[k].context_learning,
                o.any_output_bias_dirty == any_set(o.output_bias_dirty@),
                o.any_context_output_dirty == any_set(o.context_output_dirty@),
            decreases self.lanes.len() - l,
        {
            let lane: BatchLane = self.lanes[l];
            let mut statistics: StatisticsDelta = to_delta(&lane.state.statistics);
            if !self.setting.frozen && self.steps[l].len() > 0 {
                statistics.processed_stories = statistics.processed_stories.saturating_add(1);
            }
            let dirty: bool = lane.learned_steps > 0;
            proof {
                lemma_push_flag(o.output_bias_dirty@, dirty);
                lemma_push_flag(o.context_output_dirty@, lane.context_learning);
            }
            o.statistics.push(statistics);
            o.learned_steps.push(lane.learned_steps);
            o.output_bias_dirty.push(dirty);
            o.context_output_dirty.push(lane.context_learning);
            o.any_output_bias_dirty = o.any_output_bias_dirty || dirty;
            o.any_context_output_dirty = o.any_context_output_dirty || lane.context_learning;
            l = l + 1;
        }
        o
    }
}

proof fn lemma_push_flag(flags: Seq<bool>, flag: bool)
    ensures
        any_set(flags.push(flag)) == (any_set(flags) || flag),
{
    let all = flags.push(flag);
    if any_set(flags) {
        let i = choose|i: int| 0 <= i < flags.len() && #[trigger] flags[i];
        assert(all[i]);
    }
    if flag {
        assert(all[flags.len() as int]);
    }
    if any_set(all) {
        let i = choose|i: int| 0 <= i < all.len() && #[trigger] all[i];
        if i < flags.len() {
            assert(flags[i]);
        }
    }
}

/// Only learned steps make a lane's parameters dirty.
pub proof fn law_frozen_lanes_stay_clean(
    a: Alphabet,
    s: StepSetting,
    base_tick: u64,
    steps: Seq<(u32, Option<u32>)>,
    start: int,
    end: int,
)
    requires
        !s.learns,
        start <= end,
    ensures
        learned_count(notes_of(a, s, base_tick, steps, start, end)) == 0,
        !context_learns(notes_of(a, s, base_tick, steps, start, end)),
{
    let notes = notes_of(a, s, base_tick, steps, start, end);
    lemma_none_learned(notes);
    if context_learns(notes) {
        let i = choose|i: int|
            0 <= i < notes.len() && crate::steps::learns_context(#[trigger] notes[i]);
        assert(!notes[i].learned);
    }
}

proof fn lemma_none_learned(notes: Seq<StepNote>)
    requires
        forall|i: int| 0 <= i < notes.len() ==> !(#[trigger] notes[i]).learned,
    ensures
        learned_count(notes) == 0,
    decreases notes.len(),
{
    if notes.len() > 0 {
        lemma_none_learned(notes.drop_last());
    }
}

/// How the changes of a batch reach the canonical model.
#[derive(Debug, Clone, Copy, PartialEq, Eq, Structural)]
pub enum MergePath {
    /// The changes of every story are handed out; nothing is merged here.
    Retain,
    /// The device merges the fixed tensors, the host the context entries.
    Device,
    /// The host merges everything.
    Host,
}

/// How the changes of a batch reach the canonical model.
pub fn merge_path(retain_story_deltas: bool, device_merge_enabled: bool) -> (r: MergePath)
    ensures
        r == if retain_story_deltas {
            MergePath::Retain
        } else if device_merge_enabled {
            MergePath::Device
        } else {
            MergePath::Host
        },
{
    if retain_story_deltas {
        MergePath::Retain
    } else if device_merge_enabled {
        MergePath::Device
    } else {
        MergePath::Host
    }
}

/// How many parameters the device has merged.
pub open spec fn device_updates(
    threshold: int,
    recurrent: int,
    input: int,
    output_neurons: int,
    bias_dirty: bool,
    context_dirty: bool,
    classes: int,
    context_outputs: int,
) -> int {
    capped(
        capped(
            capped(
                capped(capped(threshold + recurrent) + input) + capped(output_neurons * classes),
            ) + if bias_dirty {
                classes
            } else {
                0
            },
        ) + if context_dirty {
            context_outputs
        } else {
            0
        },
    )
}

/// How many parameters the device has merged.
pub fn count_device_updates(changes: &ParameterChanges, classes: usize, context_outputs: usize) -> (r:
    usize)
    ensures
        r == device_updates(
            changes.threshold.len() as int,
            changes.recurrent_weight.len() as int,
            changes.input_weight.len() as int,
            changes.output_neurons.len() as int,
            changes.output_bias_dirty,
            changes.context_output_dirty,
            classes as int,
            context_outputs as int,
        ),
{
    changes.threshold.len().saturating_add(changes.recurrent_weight.len()).saturating_add(
        changes.input_weight.len(),
    ).saturating_add(capped_product(changes.output_neurons.len(), classes)).saturating_add(
        if changes.output_bias_dirty {
            classes
        } else {
            0
        },
    ).saturating_add(
        if changes.context_output_dirty {
            context_outputs
        } else {
            0
        },
    )
}

/// The changes that are scattered to the lanes: the fixed tensors as the device merged them,
/// the context slots as the host did, and what either made dirty.
pub fn combine_parameter_changes(fixed: ParameterChanges, context: ParameterChanges) -> (r:
    ParameterChanges)
    ensures
        r == (ParameterChanges {
            context_slots: context.context_slots,
            output_bias_dirty: fixed.output_bias_dirty || context.output_bias_dirty,
            context_output_dirty: fixed.context_output_dirty || context.context_output_dirty,
            ..fixed
        }),
{
    ParameterChanges {
        threshold: fixed.threshold,
        recurrent_weight: fixed.recurrent_weight,
        input_weight: fixed.input_weight,
        output_neurons: fixed.output_neurons,
        context_slots: context.context_slots,
        output_bias_dirty: fixed.output_bias_dirty || context.output_bias_dirty,
        context_output_dirty: fixed.context_output_dirty || context.context_output_dirty,
    }
}

/// What a finished batch says of its merge: how many lanes took part, how many fixed parameters
/// were updated and how many context keys were merged. Where the changes are handed out nothing was
/// merged here; where the device merged the fixed tensors, its updates come on top of what the host
/// merged.
pub open spec fn reported_merge(
    path: MergePath,
    lanes: usize,
    merged: MergeMetrics,
    device_updates: usize,
) -> MergeMetrics {
    match path {
        MergePath::Retain => MergeMetrics {
            workers: lanes,
            fixed_parameter_updates: 0,
            context_keys: 0,
        },
        MergePath::Device => MergeMetrics {
            workers: lanes,
            fixed_parameter_updates: capped(
                device_updates + merged.fixed_parameter_updates,
            ) as usize,
            context_keys: merged.context_keys,
        },
        MergePath::Host => MergeMetrics { workers: lanes, ..merged },
    }
}

/// The report of a finished batch. `merged` is what the merge on the host did, `device_updates` the
/// number of parameters that the device merged; `deltas` and `changes` hold one entry for each
/// story, and are handed out where they are retained.
pub fn batch_report(
    batch: StoryBatch,
    path: MergePath,
    merged: MergeMetrics,
    device_updates: usize,
    deltas: Vec<SparseModelDelta>,
    changes: Vec<ParameterChanges>,
) -> (r: DeviceStoryBatchDeltaReport)
    requires
        batch.wf(),
        batch.done(),
        batch.all_read(),
        path == MergePath::Retain ==> deltas.len() == batch.lanes.len() && changes.len()
            == batch.lanes.len(),
    ensures
        r.story_metrics == batch.metrics,
        r.story_metrics.len() == batch.steps.len(),
        forall|l: int|
            0 <= l < batch.steps.len() ==> (#[trigger] r.story_metrics@[l]).len()
                == batch.steps@[l].len(),
        r.merge == reported_merge(path, batch.lanes.len(), merged, device_updates),
        r.merge.workers == batch.steps.len(),
        path == MergePath::Retain ==> r.story_deltas == deltas && r.story_changes == changes,
        path != MergePath::Retain ==> r.story_deltas.len() == 0 && r.story_changes.len() == 0,
{
    let workers: usize = batch.lanes.len();
    assert forall|l: int| 0 <= l < batch.steps.len() implies (#[trigger] batch.metrics@[l]).len()
        == batch.steps@[l].len() by {
        assert(batch.lanes@[l].offset == batch.steps@[l].len());
    }
    match path {
        MergePath::Retain => DeviceStoryBatchDeltaReport {
            story_metrics: batch.metrics,
            merge: MergeMetrics { workers, fixed_parameter_updates: 0, context_keys: 0 },
            story_deltas: deltas,
            story_changes: changes,
        },
        MergePath::Device => DeviceStoryBatchDeltaReport {
            story_metrics: batch.metrics,
            merge: MergeMetrics {
                workers,
                fixed_parameter_updates: device_updates.saturating_add(
                    merged.fixed_parameter_updates,
                ),
                context_keys: merged.context_keys,
            },
            story_deltas: Vec::new(),
            story_changes: Vec::new(),
        },
        MergePath::Host => DeviceStoryBatchDeltaReport {
            story_metrics: batch.metrics,
            merge: MergeMetrics {
                workers,
                fixed_parameter_updates: merged.fixed_parameter_updates,
                context_keys: merged.context_keys,
            },
            story_deltas: Vec::new(),
            story_changes: Vec::new(),
        },
    }
}

/// The report of a batch holds metrics for every step of every story: one more than the story has
/// bytes, and none for an empty one. It counts every story as a worker, and hands out a delta and a
/// list of changes for each story, or none at all.
pub proof fn law_reports_cover_the_stories(
    a: Alphabet,
    stories: Seq<Vec<u8>>,
    batch: StoryBatch,
    path: MergePath,
    merged: MergeMetrics,
    device_updates: usize,
    r: DeviceStoryBatchDeltaReport,
)
    requires
        batch.wf(),
        batch.done(),
        batch.all_read(),
        step_views(batch.steps@) == all_steps(a, stories),
        r.story_metrics == batch.metrics,
        r.merge == reported_merge(path, batch.lanes.len(), merged, device_updates),
        path == MergePath::Retain ==> r.story_deltas.len() == batch.lanes.len()
            && r.story_changes.len() == batch.lanes.len(),
        path != MergePath::Retain ==> r.story_deltas.len() == 0 && r.story_changes.len() == 0,
    ensures
        r.story_metrics.len() == stories.len(),
        r.merge.workers == stories.len(),
        forall|i: int|
            0 <= i < stories.len() ==> (#[trigger] r.story_metrics@[i]).len() == (
            if stories[i].len() == 0 {
                0
            } else {
                stories[i].len() + 1
            }),
        r.story_deltas.len() == r.story_changes.len(),
        r.story_deltas.len() == if path == MergePath::Retain {
            stories.len()
        } else {
            0
        },
{
    assert(step_views(batch.steps@).len() == batch.steps@.len());
    assert(all_steps(a, stories).len() == stories.len());
    assert forall|i: int| 0 <= i < stories.len() implies (#[trigger] r.story_metrics@[i]).len() == (
    if stories[i].len() == 0 {
        0
    } else {
        stories[i].len() + 1
    }) by {
        assert(step_views(batch.steps@)[i] == all_steps(a, stories)[i]);
        assert(batch.lanes@[i].offset == batch.steps@[i].len());
    }
}

/// A batch that keeps opening chunks gets to the end of every story: each chunk moves at least
/// one lane on and none back.
pub proof fn law_chunks_finish_the_batch(before: StoryBatch, a: Alphabet, chunk: BatchChunk, after: StoryBatch)
    requires
        before.wf(),
        !before.done(),
        before.chunk_holds(a, chunk),
        after.lanes@ == before.lanes_after(chunk),
        after.steps == before.steps,
    ensures
        forall|l: int|
            0 <= l < before.lanes.len() ==> before.lanes@[l].offset <= (
            #[trigger] after.lanes@[l]).offset <= before.steps@[l].len(),
        exists|l: int|
            0 <= l < before.lanes.len() && before.lanes@[l].offset < (
            #[trigger] after.lanes@[l]).offset,
{
    assert forall|l: int| 0 <= l < before.lanes.len() implies before.lanes@[l].offset <= (
    #[trigger] after.lanes@[l]).offset <= before.steps@[l].len() by {
        assert(before.lanes@[l].offset <= before.steps@[l].len());
    }
    let l = choose|l: int|
        0 <= l < before.lanes.len() && (#[trigger] before.lanes@[l]).offset
            != before.steps@[l].len();
    assert(before.lanes@[l].offset <= before.steps@[l].len());
    assert(before.lanes@[l].offset < after.lanes@[l].offset);
}

} // verus!
