//! Batches of steps on a device: which kernel takes a chunk, and what its records change.

use crate::device::{as_u32, capacity_message, DeviceLimits, PERSISTENT_THREADS};
use crate::error::{fails, LeoError, LeoErrorKind, LeoResult};
use crate::metrics::{capped_sum, StepMetrics, WideScalar};
use crate::options::CudaReplayProfileOptions;
use crate::parallel::takes_any_pair;
use crate::records::{
    reading_result, some_notes, takes_any_count, takes_any_loss, to_some_notes, DeviceState,
    RecordShape, StepRecord,
};
use crate::scalar::Scalar;
use crate::steps::{
    advance_problem, advance_step_of, all_sound, check_step, chunk_end, chunk_end_of, context_learns,
    device_steps_of, first_advance_problem, first_problem, learned_count, note_of, note_step,
    notes_of, prepare_advance, prepare_chunk, prepare_timeline, step_problem, supervision_of,
    DeviceStep, PreparedTimeline, StepNote, StepSetting, Supervision,
};
use crate::symbols::Alphabet;
use vstd::prelude::*;

verus! {

/// The kernels that replay steps.
#[derive(Debug, Clone, Copy, PartialEq, Eq, Structural)]
pub enum ReplayKernel {
    AdvancePersistent,
    AdvanceCooperative,
    AdvanceCooperativeProfiled,
    TrainPersistent,
    TrainCooperative,
    TrainCooperativeFast,
    TrainCooperativeProfiled,
}

impl ReplayKernel {
    /// The name of the kernel.
    pub open spec fn name_of(self) -> Seq<char> {
        match self {
            ReplayKernel::AdvancePersistent => "leo_advance_frozen_persistent"@,
            ReplayKernel::AdvanceCooperative => "leo_advance_frozen_cooperative"@,
            ReplayKernel::AdvanceCooperativeProfiled => "leo_advance_frozen_cooperative_profiled"@,
            ReplayKernel::TrainPersistent => "leo_train_persistent"@,
            ReplayKernel::TrainCooperative => "leo_train_cooperative"@,
            ReplayKernel::TrainCooperativeFast => "leo_train_cooperative_fast"@,
            ReplayKernel::TrainCooperativeProfiled => "leo_train_cooperative_profiled"@,
        }
    }

    /// The name of the kernel.
    pub fn name(self) -> (r: &'static str)
        ensures
            r@ == self.name_of(),
    {
        match self {
            ReplayKernel::AdvancePersistent => "leo_advance_frozen_persistent",
            ReplayKernel::AdvanceCooperative => "leo_advance_frozen_cooperative",
            ReplayKernel::AdvanceCooperativeProfiled => "leo_advance_frozen_cooperative_profiled",
            ReplayKernel::TrainPersistent => "leo_train_persistent",
            ReplayKernel::TrainCooperative => "leo_train_cooperative",
            ReplayKernel::TrainCooperativeFast => "leo_train_cooperative_fast",
            ReplayKernel::TrainCooperativeProfiled => "leo_train_cooperative_profiled",
        }
    }

    /// The kernel writes the short records.
    pub open spec fn is_fast(self) -> bool {
        self == ReplayKernel::TrainCooperativeFast
    }
}

/// How replay is executed.
#[derive(Debug, Clone, Copy, PartialEq, Eq, Structural)]
pub struct ReplayOptions {
    pub replay_cooperative_enabled: bool,
    pub full_step_metrics: bool,
    pub replay_grid_override: Option<u32>,
    pub frozen_grid_override: Option<u32>,
    pub profile: CudaReplayProfileOptions,
}

/// The launch of a replay kernel.
#[derive(Debug, Clone, Copy, PartialEq, Eq, Structural)]
pub struct ReplayLaunch {
    pub kernel: ReplayKernel,
    pub grid_blocks: u32,
    pub threads: u32,
    /// The launch needs a cooperative grid.
    pub cooperative: bool,
    pub profile_requested: bool,
    pub profile_sampled: bool,
}

/// The smaller of two numbers.
pub open spec fn lesser(a: u32, b: u32) -> u32 {
    if a <= b {
        a
    } else {
        b
    }
}

/// The number, but not zero.
pub open spec fn nonzero(a: u32) -> u32 {
    if a == 0 {
        1
    } else {
        a
    }
}

/// The blocks of a replay launch: what was asked for or what the device holds, but no more
/// than the device holds or the model has, and at least one.
pub open spec fn replay_blocks(asked: Option<u32>, capacity: u32, model_blocks: u32) -> u32 {
    let wanted = match asked {
        Some(n) => n,
        None => capacity,
    };
    nonzero(lesser(lesser(wanted, nonzero(capacity)), model_blocks))
}

fn choose_blocks(asked: Option<u32>, capacity: u32, model_blocks: u32) -> (r: u32)
    ensures
        r == replay_blocks(asked, capacity, model_blocks),
{
    let wanted: u32 = match asked {
        Some(n) => n,
        None => capacity,
    };
    let held: u32 = if capacity == 0 {
        1
    } else {
        capacity
    };
    let first: u32 = if wanted <= held {
        wanted
    } else {
        held
    };
    let second: u32 = if first <= model_blocks {
        first
    } else {
        model_blocks
    };
    if second == 0 {
        1
    } else {
        second
    }
}

/// The launch with this sequence number is sampled.
pub open spec fn sampled(stride: Option<u64>, sequence: u64) -> bool {
    match stride {
        Some(every) => sequence % every == 0,
        None => false,
    }
}

/// Whether the launch with this sequence number is sampled.
pub fn is_sampled(stride: Option<u64>, sequence: u64) -> (r: bool)
    requires
        stride != Some(0u64),
    ensures
        r == sampled(stride, sequence),
{
    match stride {
        Some(every) => sequence % every == 0,
        None => false,
    }
}

/// How a device takes a batch of training steps.
#[derive(Debug, Clone, Copy, PartialEq, Eq, Structural)]
pub enum TrainingPath {
    /// A persistent kernel takes many steps in one launch.
    Persistent,
    /// Every step is launched by itself, on devices that cannot hold a grid together.
    StepByStep,
}

/// How a device takes a batch of training steps: by a persistent kernel wherever it can hold one.
pub fn training_path(limits: &DeviceLimits) -> (r: TrainingPath)
    ensures
        r == if limits.persistent_grid_blocks > 0 {
            TrainingPath::Persistent
        } else {
            TrainingPath::StepByStep
        },
{
    if limits.persistent_grid_blocks > 0 {
        TrainingPath::Persistent
    } else {
        TrainingPath::StepByStep
    }
}

impl ReplayOptions {
    /// Short records are asked for: a learning run that wants no full metrics.
    pub open spec fn wants_fast(self, learning_trace: bool) -> bool {
        learning_trace && !self.full_step_metrics
    }

    /// The blocks that the device holds of the kernel that is asked for.
    pub open spec fn capacity(self, limits: DeviceLimits, learning_trace: bool) -> u32 {
        if self.wants_fast(learning_trace) {
            limits.replay_fast_grid_blocks
        } else {
            limits.replay_grid_blocks
        }
    }

    /// Replay runs on a cooperative grid.
    pub open spec fn cooperative(self, limits: DeviceLimits, learning_trace: bool) -> bool {
        self.replay_cooperative_enabled && limits.cooperative_launch && self.capacity(
            limits,
            learning_trace,
        ) > 0
    }

    /// Whether replay runs on a cooperative grid.
    pub fn is_cooperative(&self, limits: &DeviceLimits, learning_trace: bool) -> (r: bool)
        ensures
            r == self.cooperative(*limits, learning_trace),
    {
        let capacity: u32 = if learning_trace && !self.full_step_metrics {
            limits.replay_fast_grid_blocks
        } else {
            limits.replay_grid_blocks
        };
        self.replay_cooperative_enabled && limits.cooperative_launch && capacity > 0
    }

    /// The launch that trains a chunk.
    pub open spec fn training_launch_of(
        self,
        limits: DeviceLimits,
        learning_trace: bool,
        model_blocks: u32,
        sequence: u64,
    ) -> ReplayLaunch {
        let blocks = replay_blocks(
            self.replay_grid_override,
            self.capacity(limits, learning_trace),
            model_blocks,
        );
        let cooperative = self.cooperative(limits, learning_trace);
        let requested = sampled(self.profile.target_stride, sequence);
        let profiled = requested && cooperative && limits.replay_profile_grid_blocks >= blocks;
        ReplayLaunch {
            kernel: if profiled {
                ReplayKernel::TrainCooperativeProfiled
            } else if !cooperative {
                ReplayKernel::TrainPersistent
            } else if self.wants_fast(learning_trace) {
                ReplayKernel::TrainCooperativeFast
            } else {
                ReplayKernel::TrainCooperative
            },
            grid_blocks: if cooperative {
                blocks
            } else {
                nonzero(limits.persistent_grid_blocks)
            },
            threads: PERSISTENT_THREADS,
            cooperative: true,
            profile_requested: requested,
            profile_sampled: profiled,
        }
    }

    /// Plans the launch that trains a chunk.
    pub fn training_launch(
        &self,
        limits: &DeviceLimits,
        learning_trace: bool,
        model_blocks: u32,
        sequence: u64,
    ) -> (r: ReplayLaunch)
        requires
            self.profile.target_stride != Some(0u64),
        ensures
            r == self.training_launch_of(*limits, learning_trace, model_blocks, sequence),
    {
        let fast: bool = learning_trace && !self.full_step_metrics;
        let capacity: u32 = if fast {
            limits.replay_fast_grid_blocks
        } else {
            limits.replay_grid_blocks
        };
        let blocks: u32 = choose_blocks(self.replay_grid_override, capacity, model_blocks);
        let cooperative: bool = self.is_cooperative(limits, learning_trace);
        let requested: bool = is_sampled(self.profile.target_stride, sequence);
        let profiled: bool = requested && cooperative && limits.replay_profile_grid_blocks
            >= blocks;
        ReplayLaunch {
            kernel: if profiled {
                ReplayKernel::TrainCooperativeProfiled
            } else if !cooperative {
                ReplayKernel::TrainPersistent
            } else if fast {
                ReplayKernel::TrainCooperativeFast
            } else {
                ReplayKernel::TrainCooperative
            },
            grid_blocks: if cooperative {
                blocks
            } else if limits.persistent_grid_blocks == 0 {
                1
            } else {
                limits.persistent_grid_blocks
            },
            threads: PERSISTENT_THREADS,
            cooperative: true,
            profile_requested: requested,
            profile_sampled: profiled,
        }
    }

    /// The launch that replays a chunk of a timeline.
    pub open spec fn streaming_launch_of(
        self,
        limits: DeviceLimits,
        learning_trace: bool,
        model_blocks: u32,
    ) -> ReplayLaunch {
        ReplayLaunch {
            kernel: if self.wants_fast(learning_trace) {
                ReplayKernel::TrainCooperativeFast
            } else {
                ReplayKernel::TrainCooperative
            },
            grid_blocks: replay_blocks(
                self.replay_grid_override,
                self.capacity(limits, learning_trace),
                model_blocks,
            ),
            threads: PERSISTENT_THREADS,
            cooperative: true,
            profile_requested: false,
            profile_sampled: false,
        }
    }

    /// Plans the launch that replays a chunk of a timeline.
    pub fn streaming_launch(
        &self,
        limits: &DeviceLimits,
        learning_trace: bool,
        model_blocks: u32,
    ) -> (r: ReplayLaunch)
        ensures
            r == self.streaming_launch_of(*limits, learning_trace, model_blocks),
    {
        let fast: bool = learning_trace && !self.full_step_metrics;
        let capacity: u32 = if fast {
            limits.replay_fast_grid_blocks
        } else {
            limits.replay_grid_blocks
        };
        ReplayLaunch {
            kernel: if fast {
                ReplayKernel::TrainCooperativeFast
            } else {
                ReplayKernel::TrainCooperative
            },
            grid_blocks: choose_blocks(self.replay_grid_override, capacity, model_blocks),
            threads: PERSISTENT_THREADS,
            cooperative: true,
            profile_requested: false,
            profile_sampled: false,
        }
    }

    /// The launch that advances the state over a chunk.
    pub open spec fn frozen_launch_of(
        self,
        limits: DeviceLimits,
        model_blocks: u32,
        sequence: u64,
    ) -> ReplayLaunch {
        let blocks = replay_blocks(
            self.frozen_grid_override,
            limits.frozen_grid_blocks,
            model_blocks,
        );
        let wide = limits.cooperative_launch && blocks > 1;
        let requested = sampled(self.profile.prefix_stride, sequence);
        let profiled = requested && wide && limits.frozen_profile_grid_blocks >= blocks;
        ReplayLaunch {
            kernel: if profiled {
                ReplayKernel::AdvanceCooperativeProfiled
            } else if wide {
                ReplayKernel::AdvanceCooperative
            } else {
                ReplayKernel::AdvancePersistent
            },
            grid_blocks: if wide {
                blocks
            } else {
                1
            },
            threads: PERSISTENT_THREADS,
            cooperative: wide,
            profile_requested: requested,
            profile_sampled: profiled,
        }
    }

    /// Plans the launch that advances the state over a chunk.
    pub fn frozen_launch(&self, limits: &DeviceLimits, model_blocks: u32, sequence: u64) -> (r:
        ReplayLaunch)
        requires
            self.profile.prefix_stride != Some(0u64),
        ensures
            r == self.frozen_launch_of(*limits, model_blocks, sequence),
    {
        let blocks: u32 = choose_blocks(
            self.frozen_grid_override,
            limits.frozen_grid_blocks,
            model_blocks,
        );
        let wide: bool = limits.cooperative_launch && blocks > 1;
        let requested: bool = is_sampled(self.profile.prefix_stride, sequence);
        let profiled: bool = requested && wide && limits.frozen_profile_grid_blocks >= blocks;
        ReplayLaunch {
            kernel: if profiled {
                ReplayKernel::AdvanceCooperativeProfiled
            } else if wide {
                ReplayKernel::AdvanceCooperative
            } else {
                ReplayKernel::AdvancePersistent
            },
            grid_blocks: if wide {
                blocks
            } else {
                1
            },
            threads: PERSISTENT_THREADS,
            cooperative: wide,
            profile_requested: requested,
            profile_sampled: profiled,
        }
    }
}

/// A replay launch never has more blocks than the model, and never none; short records come
/// only from learning runs that asked for no full metrics.
pub proof fn law_replay_launches_fit(
    o: ReplayOptions,
    limits: DeviceLimits,
    learning_trace: bool,
    model_blocks: u32,
    sequence: u64,
)
    requires
        0 < model_blocks,
    ensures
        1 <= o.streaming_launch_of(limits, learning_trace, model_blocks).grid_blocks
            <= model_blocks,
        1 <= o.frozen_launch_of(limits, model_blocks, sequence).grid_blocks <= model_blocks,
        1 <= o.training_launch_of(limits, learning_trace, model_blocks, sequence).grid_blocks,
        o.cooperative(limits, learning_trace) ==> o.training_launch_of(
            limits,
            learning_trace,
            model_blocks,
            sequence,
        ).grid_blocks <= model_blocks,
        o.training_launch_of(limits, learning_trace, model_blocks, sequence).kernel.is_fast()
            ==> learning_trace && !o.full_step_metrics,
        o.frozen_launch_of(limits, model_blocks, sequence).profile_sampled
            ==> o.frozen_launch_of(limits, model_blocks, sequence).grid_blocks
            <= limits.frozen_profile_grid_blocks,
        o.training_launch_of(limits, learning_trace, model_blocks, sequence).profile_sampled
            ==> o.training_launch_of(limits, learning_trace, model_blocks, sequence).grid_blocks
            <= limits.replay_profile_grid_blocks,
{
}

/// How a batch of steps is replayed.
#[derive(Debug, Clone, Copy, PartialEq, Eq, Structural)]
pub enum ReplayMode {
    /// Every step is trained.
    Training,
    /// Steps with a target are trained, the others only advance the state.
    Streaming,
    /// Every step only advances the state.
    Frozen,
}

impl ReplayMode {
    /// What the error of a refused step starts with.
    pub open spec fn refusal(self) -> Seq<char> {
        match self {
            ReplayMode::Training =>
                "CUDA persistent learning update rejected a non-finite value (code "@,
            _ => "CUDA streaming replay rejected a non-finite value (code "@,
        }
    }

    /// What the number of the model's blocks is called in its error.
    pub open spec fn block_count_name(self) -> Seq<char> {
        match self {
            ReplayMode::Training => "replay training model block count"@,
            ReplayMode::Streaming => "streaming replay model block count"@,
            ReplayMode::Frozen => "frozen replay model block count"@,
        }
    }

    /// The number of the model's blocks as a device holds it.
    pub fn model_blocks(self, block_count: usize) -> (r: LeoResult<u32>)
        ensures
            block_count <= u32::MAX ==> r == Ok::<u32, LeoError>(block_count as u32),
            block_count > u32::MAX ==> fails(
                r,
                LeoErrorKind::Cuda,
                capacity_message(self.block_count_name()),
            ),
    {
        match self {
            ReplayMode::Training => as_u32("replay training model block count", block_count),
            ReplayMode::Streaming => as_u32("streaming replay model block count", block_count),
            ReplayMode::Frozen => as_u32("frozen replay model block count", block_count),
        }
    }
}

/// A chunk that is ready to be launched.
#[derive(Debug, Clone)]
pub struct ReplayChunk {
    pub start: usize,
    pub end: usize,
    pub base_tick: u64,
    pub device_steps: Vec<DeviceStep>,
    /// The note of each step whose record is read.
    pub notes: Vec<Option<StepNote>>,
    pub trace_steps: usize,
    pub learned_steps: u64,
    pub context_learning: bool,
}

impl ReplayChunk {
    /// The chunk holds the steps between its two places.
    pub open spec fn holds(
        self,
        mode: ReplayMode,
        a: Alphabet,
        s: StepSetting,
        steps: Seq<(u32, Option<u32>)>,
    ) -> bool {
        let start = self.start as int;
        let end = self.end as int;
        &&& start <= end <= steps.len()
        &&& match mode {
            ReplayMode::Training => {
                let notes = notes_of(a, s, self.base_tick, steps, start, end);
                &&& self.notes@ == some_notes(notes)
                &&& self.device_steps@ == device_steps_of(a, notes)
                &&& self.learned_steps == learned_count(notes)
                &&& self.context_learning == context_learns(notes)
                &&& self.trace_steps == if s.frozen {
                    0
                } else {
                    end - start
                }
            },
            ReplayMode::Streaming => (PreparedTimeline {
                device_steps: self.device_steps,
                notes: self.notes,
                trace_steps: self.trace_steps,
                learned_steps: self.learned_steps,
                context_learning: self.context_learning,
            }).holds(a, s, self.base_tick, steps, start, end),
            ReplayMode::Frozen => {
                &&& self.device_steps@ == Seq::new(
                    (end - start) as nat,
                    |i: int| advance_step_of(steps[start + i]),
                )
                &&& self.notes@ == Seq::new((end - start) as nat, |i: int| None::<StepNote>)
                &&& self.trace_steps == 0
                &&& self.learned_steps == 0
                &&& !self.context_learning
            },
        }
    }
}

/// No notes at all.
fn no_notes(count: usize) -> (r: Vec<Option<StepNote>>)
    ensures
        r@ == Seq::new(count as nat, |i: int| None::<StepNote>),
{
    let mut out: Vec<Option<StepNote>> = Vec::new();
    let mut i: usize = 0;
    while i < count
        invariant
            i <= count,
            out.len() == i,
            forall|k: int| 0 <= k < i ==> #[trigger] out@[k] is None,
        decreases count - i,
    {
        out.push(None);
        i = i + 1;
    }
    assert(out@ =~= Seq::new(count as nat, |i: int| None::<StepNote>));
    out
}

/// The first step of a chunk that cannot be replayed, with its message.
pub open spec fn replay_problem(
    mode: ReplayMode,
    a: Alphabet,
    steps: Seq<(u32, Option<u32>)>,
    start: int,
    end: int,
    at: int,
    text: Seq<char>,
) -> bool {
    match mode {
        ReplayMode::Frozen => first_advance_problem(a, steps, start, end, at) && advance_problem(
            a,
            steps[at],
        ) == Some(text),
        _ => first_problem(a, steps, start, end, at) && step_problem(a, steps[at]) == Some(text),
    }
}

/// Some step of a chunk cannot be replayed, and the error says which comes first.
pub open spec fn replay_refused(
    mode: ReplayMode,
    a: Alphabet,
    steps: Seq<(u32, Option<u32>)>,
    start: int,
    end: int,
    e: LeoError,
) -> bool {
    exists|at: int| #[trigger]
        replay_problem(mode, a, steps, start, end, at, e.text()) && e.about() == LeoErrorKind::Cuda
}

/// Every step of a chunk can be replayed.
pub open spec fn replayable(
    mode: ReplayMode,
    a: Alphabet,
    steps: Seq<(u32, Option<u32>)>,
    start: int,
    end: int,
) -> bool {
    match mode {
        ReplayMode::Frozen => forall|j: int|
            start <= j < end ==> advance_problem(a, #[trigger] steps[j]) is None,
        _ => all_sound(a, steps, start, end),
    }
}

/// A batch of steps that is replayed chunk by chunk.
#[derive(Debug, Clone)]
pub struct ReplayRun {
    pub mode: ReplayMode,
    pub setting: StepSetting,
    /// The first step that is not replayed yet.
    pub at: usize,
    /// The metrics of the steps that are replayed.
    pub metrics: Vec<StepMetrics>,
}

impl ReplayRun {
    /// A run that has replayed nothing yet.
    pub fn new(mode: ReplayMode, setting: StepSetting) -> (r: ReplayRun)
        ensures
            r.mode == mode,
            r.setting == setting,
            r.at == 0,
            r.metrics@ == Seq::<StepMetrics>::empty(),
    {
        ReplayRun { mode, setting, at: 0, metrics: Vec::new() }
    }

    /// The next chunk of the run; none where every step is replayed.
    pub fn open_chunk(
        &self,
        alphabet: &Alphabet,
        steps: &Vec<(u32, Option<u32>)>,
        state: &DeviceState,
    ) -> (r: LeoResult<Option<ReplayChunk>>)
        requires
            self.at <= steps.len(),
        ensures
            ({
                let start = self.at as int;
                let end = chunk_end_of(start, steps.len() as int);
                match r {
                    Ok(None) => self.at == steps.len(),
                    Ok(Some(chunk)) => {
                        &&& self.at < steps.len()
                        &&& chunk.start == start
                        &&& chunk.end == end
                        &&& chunk.base_tick == state.current_tick
                        &&& replayable(self.mode, *alphabet, steps@, start, end)
                        &&& chunk.holds(self.mode, *alphabet, self.setting, steps@)
                    },
                    Err(e) => self.at < steps.len() && replay_refused(
                        self.mode,
                        *alphabet,
                        steps@,
                        start,
                        end,
                        e,
                    ),
                }
            }),
    {
        if self.at == steps.len() {
            return Ok(None);
        }
        let start: usize = self.at;
        let end: usize = chunk_end(start, steps.len());
        let base_tick: u64 = state.current_tick;
        match self.mode {
            ReplayMode::Training => match prepare_chunk(
                alphabet,
                &self.setting,
                base_tick,
                steps,
                start,
                end,
            ) {
                Ok(chunk) => {
                    let notes: Vec<Option<StepNote>> = to_some_notes(&chunk.notes);
                    let trace_steps: usize = if self.setting.frozen {
                        0
                    } else {
                        end - start
                    };
                    Ok(
                        Some(
                            ReplayChunk {
                                start,
                                end,
                                base_tick,
                                device_steps: chunk.device_steps,
                                notes,
                                trace_steps,
                                learned_steps: chunk.learned_steps,
                                context_learning: chunk.context_learning,
                            },
                        ),
                    )
                },
                Err(e) => {
                    proof {
                        let at = choose|at: int| #[trigger]
                            first_problem(*alphabet, steps@, start as int, end as int, at)
                                && e.says(
                                LeoErrorKind::Cuda,
                                step_problem(*alphabet, steps@[at])->0,
                            );
                        assert(replay_problem(
                            self.mode,
                            *alphabet,
                            steps@,
                            start as int,
                            end as int,
                            at,
                            e.text(),
                        ));
                    }
                    Err(e)
                },
            },
            ReplayMode::Streaming => match prepare_timeline(
                alphabet,
                &self.setting,
                base_tick,
                steps,
                start,
                end,
            ) {
                Ok(line) => Ok(
                    Some(
                        ReplayChunk {
                            start,
                            end,
                            base_tick,
                            device_steps: line.device_steps,
                            notes: line.notes,
                            trace_steps: line.trace_steps,
                            learned_steps: line.learned_steps,
                            context_learning: line.context_learning,
                        },
                    ),
                ),
                Err(e) => {
                    proof {
                        let at = choose|at: int| #[trigger]
                            first_problem(*alphabet, steps@, start as int, end as int, at)
                                && e.says(
                                LeoErrorKind::Cuda,
                                step_problem(*alphabet, steps@[at])->0,
                            );
                        assert(replay_problem(
                            self.mode,
                            *alphabet,
                            steps@,
                            start as int,
                            end as int,
                            at,
                            e.text(),
                        ));
                    }
                    Err(e)
                },
            },
            ReplayMode::Frozen => match prepare_advance(alphabet, steps, start, end) {
                Ok(device_steps) => {
                    let notes: Vec<Option<StepNote>> = no_notes(end - start);
                    Ok(
                        Some(
                            ReplayChunk {
                                start,
                                end,
                                base_tick,
                                device_steps,
                                notes,
                                trace_steps: 0,
                                learned_steps: 0,
                                context_learning: false,
                            },
                        ),
                    )
                },
                Err(e) => {
                    proof {
                        let at = choose|at: int| #[trigger]
                            first_advance_problem(*alphabet, steps@, start as int, end as int, at)
                                && e.says(
                                LeoErrorKind::Cuda,
                                advance_problem(*alphabet, steps@[at])->0,
                            );
                        assert(replay_problem(
                            self.mode,
                            *alphabet,
                            steps@,
                            start as int,
                            end as int,
                            at,
                            e.text(),
                        ));
                    }
                    Err(e)
                },
            },
        }
    }

    /// The records of a chunk were read after its launch was taken in.
    pub open spec fn chunk_read<
        S: Fn(Scalar, Scalar) -> Scalar,
        Q: Fn(Scalar, u32) -> Scalar,
        A: Fn(WideScalar, Scalar) -> WideScalar,
    >(
        self,
        subtract: S,
        divide: Q,
        raise: A,
        chunk: ReplayChunk,
        before: DeviceState,
        after: DeviceState,
        a: Alphabet,
        shape: RecordShape,
        records: Seq<StepRecord>,
        list: LeoResult<Vec<StepMetrics>>,
    ) -> bool {
        reading_result(
            subtract,
            divide,
            raise,
            a,
            shape,
            chunk.notes@,
            records,
            !self.setting.frozen,
            self.mode.refusal(),
            before.after_launch(
                (chunk.end - chunk.start) as usize,
                chunk.trace_steps,
                chunk.learned_steps,
                chunk.context_learning,
            ),
            after,
            list,
        )
    }

    /// Takes in what a launch of the chunk left: the clock, the revision and the records. An
    /// error leaves the run at its chunk.
    pub fn close_chunk<
        S: Fn(Scalar, Scalar) -> Scalar,
        Q: Fn(Scalar, u32) -> Scalar,
        A: Fn(WideScalar, Scalar) -> WideScalar,
    >(
        &mut self,
        chunk: &ReplayChunk,
        state: &mut DeviceState,
        alphabet: &Alphabet,
        shape: &RecordShape,
        records: &Vec<StepRecord>,
        subtract: &S,
        divide: &Q,
        raise: &A,
    ) -> (r: LeoResult<()>)
        requires
            takes_any_pair(*subtract),
            takes_any_count(*divide),
            takes_any_loss(*raise),
            chunk.start <= chunk.end,
            chunk.notes.len() == records.len(),
            forall|k: int|
                0 <= k < records.len() && chunk.notes@[k] is Some && records@[k].code() == 0
                    ==> #[trigger] records@[k].readable(*alphabet),
        ensures
            final(self).mode == old(self).mode,
            final(self).setting == old(self).setting,
            exists|list: LeoResult<Vec<StepMetrics>>|
                {
                    &&& #[trigger] old(self).chunk_read(
                        *subtract,
                        *divide,
                        *raise,
                        *chunk,
                        *old(state),
                        *final(state),
                        *alphabet,
                        *shape,
                        records@,
                        list,
                    )
                    &&& match list {
                        Ok(more) => {
                            &&& r is Ok
                            &&& final(self).at == chunk.end
                            &&& final(self).metrics@ == old(self).metrics@ + more@
                        },
                        Err(e) => {
                            &&& r == Err::<(), LeoError>(e)
                            &&& final(self).at == old(self).at
                            &&& final(self).metrics@ == old(self).metrics@
                        },
                    }
                },
    {
        state.record_launch(
            chunk.end - chunk.start,
            chunk.trace_steps,
            chunk.learned_steps,
            chunk.context_learning,
        );
        let head: &str = match self.mode {
            ReplayMode::Training =>
                "CUDA persistent learning update rejected a non-finite value (code ",
            _ => "CUDA streaming replay rejected a non-finite value (code ",
        };
        let learning_trace: bool = !self.setting.frozen;
        let result: LeoResult<Vec<StepMetrics>> = state.read_records(
            alphabet,
            shape,
            &chunk.notes,
            records,
            learning_trace,
            head,
            subtract,
            divide,
            raise,
        );
        let ghost outcome = result;
        match result {
            Ok(list) => {
                let mut more: Vec<StepMetrics> = list;
                self.metrics.append(&mut more);
                self.at = chunk.end;
                assert(old(self).chunk_read(
                    *subtract,
                    *divide,
                    *raise,
                    *chunk,
                    *old(state),
                    *state,
                    *alphabet,
                    *shape,
                    records@,
                    outcome,
                ));
                Ok(())
            },
            Err(e) => {
                assert(old(self).chunk_read(
                    *subtract,
                    *divide,
                    *raise,
                    *chunk,
                    *old(state),
                    *state,
                    *alphabet,
                    *shape,
                    records@,
                    outcome,
                ));
                Err(e)
            },
        }
    }
}

/// One step that is launched on its own.
#[derive(Debug, Clone, Copy, PartialEq, Eq, Structural)]
pub struct SingleStep {
    pub note: StepNote,
    pub target_index: i32,
    pub learning_trace: bool,
    /// Contexts that are not in the memory yet are given a slot.
    pub allocate_context: bool,
    /// The weight of the target, where the step learns.
    pub learning: Option<Supervision>,
}

impl SingleStep {
    /// The step that is taken at `tick`.
    pub open spec fn of(
        a: Alphabet,
        s: StepSetting,
        tick: u64,
        step: (u32, Option<u32>),
    ) -> SingleStep {
        let note = note_of(a, s, tick, step);
        SingleStep {
            note,
            target_index: crate::steps::device_step_of(a, note).target_index,
            learning_trace: !s.frozen,
            allocate_context: !s.frozen && note.context_enabled,
            learning: if note.learned {
                Some(supervision_of(a, note.target_index))
            } else {
                None
            },
        }
    }

    /// Checks and classifies one step.
    pub fn plan(
        alphabet: &Alphabet,
        setting: &StepSetting,
        tick: u64,
        symbol: u32,
        target: Option<u32>,
    ) -> (r: LeoResult<SingleStep>)
        ensures
            match step_problem(*alphabet, (symbol, target)) {
                Some(text) => fails(r, LeoErrorKind::Cuda, text),
                None => r == Ok::<SingleStep, LeoError>(
                    SingleStep::of(*alphabet, *setting, tick, (symbol, target)),
                ),
            },
    {
        match check_step(alphabet, symbol, target) {
            Err(e) => Err(e),
            Ok(target_index) => {
                let (note, device_step) = note_step(
                    alphabet,
                    setting,
                    tick,
                    symbol,
                    target,
                    target_index,
                );
                Ok(
                    SingleStep {
                        note,
                        target_index: device_step.target_index,
                        learning_trace: !setting.frozen,
                        allocate_context: !setting.frozen && note.context_enabled,
                        learning: if note.learned {
                            Some(device_step.supervision)
                        } else {
                            None
                        },
                    },
                )
            },
        }
    }

    /// Takes in that the step was launched.
    pub fn launched(&self, state: &mut DeviceState)
        ensures
            *final(state) == old(state).after_launch(
                1,
                if self.learning_trace {
                    1
                } else {
                    0
                },
                if self.learning is Some {
                    1
                } else {
                    0
                },
                self.note.context_enabled,
            ),
    {
        state.record_launch(
            1,
            if self.learning_trace {
                1
            } else {
                0
            },
            if self.learning.is_some() {
                1
            } else {
                0
            },
            self.note.context_enabled,
        );
    }
}

/// A frozen run never changes a parameter, whatever its chunks hold.
pub proof fn law_frozen_chunks_learn_nothing(
    chunk: ReplayChunk,
    a: Alphabet,
    s: StepSetting,
    steps: Seq<(u32, Option<u32>)>,
    state: DeviceState,
)
    requires
        chunk.holds(ReplayMode::Frozen, a, s, steps),
    ensures
        ({
            let after = state.after_launch(
                (chunk.end - chunk.start) as usize,
                chunk.trace_steps,
                chunk.learned_steps,
                chunk.context_learning,
            );
            &&& after.parameter_revision == state.parameter_revision
            &&& after.statistics == state.statistics
            &&& after.output_bias_dirty == state.output_bias_dirty
            &&& after.context_output_dirty == state.context_output_dirty
            &&& after.lists_swapped == state.lists_swapped
            &&& after.current_tick == capped_sum(
                state.current_tick,
                (chunk.end - chunk.start) as u64,
            )
        }),
{
}

} // verus!
