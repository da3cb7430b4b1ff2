//! One wavefront of a story batch: which kernels take a step of some lanes, over which grids
//! and with which arguments.

use crate::context::capped;
use crate::cuda_plan::CudaExecutionPlan;
use crate::device::{
    as_u32, capacity_message, device_pointer_offset, DeviceLimits, SHARED_BATCH_THREADS, THREADS,
};
use crate::error::{fails, LeoError, LeoErrorKind, LeoResult};
use crate::replay::{lesser, nonzero};
use crate::runtime::capped_product;
use vstd::prelude::*;

verus! {

/// The kernels of a wavefront.
#[derive(Debug, Clone, Copy, PartialEq, Eq, Structural)]
pub enum WavefrontKernel {
    Pre,
    SelectBlocks,
    PostSelect,
    CacheSurrogate,
    PostCore,
    LearningSignals,
    PostDeltas,
    Homeostasis,
    Capture,
    Fused,
    FusedProfiled,
    Persistent,
    PersistentGrouped,
}

/// The arguments that a kernel of a wavefront takes.
#[derive(Debug, Clone, Copy, PartialEq, Eq, Structural)]
pub enum WavefrontArgument {
    PointerTables,
    StepBuffers,
    StepCounts,
    BaseTicks,
    LaneCount,
    StepIndex,
    MaxStepCount,
    BlockCount,
    Learning,
    Strength,
    BatchScale,
    DeltaPointers,
    PhaseCounters,
    BlocksPerLane,
}

impl WavefrontKernel {
    /// The arguments of the kernel, in their order.
    pub open spec fn takes(self) -> Seq<WavefrontArgument> {
        let p = WavefrontArgument::PointerTables;
        let b = WavefrontArgument::StepBuffers;
        let c = WavefrontArgument::StepCounts;
        let t = WavefrontArgument::BaseTicks;
        let n = WavefrontArgument::LaneCount;
        let i = WavefrontArgument::StepIndex;
        let l = WavefrontArgument::Learning;
        let s = WavefrontArgument::Strength;
        let w = WavefrontArgument::BatchScale;
        let d = WavefrontArgument::DeltaPointers;
        let m = WavefrontArgument::BlockCount;
        match self {
            WavefrontKernel::Pre => seq![p, b, c, t, n, i, l],
            WavefrontKernel::SelectBlocks => seq![p, c, t, n, i, m],
            WavefrontKernel::PostSelect => seq![p, c, t, n, i],
            WavefrontKernel::CacheSurrogate => seq![p, c, t, n, i],
            WavefrontKernel::PostCore => seq![p, b, c, t, n, i, l],
            WavefrontKernel::LearningSignals => seq![p, b, c, t, n, i, s],
            WavefrontKernel::PostDeltas => seq![p, b, c, n, i, l, s, w, d],
            WavefrontKernel::Homeostasis => seq![p, c, t, n, i, l, w, d],
            WavefrontKernel::Capture => seq![p, b, c, n, i],
            WavefrontKernel::Fused => seq![p, b, c, t, n, i, m, l, s, w, d],
            WavefrontKernel::FusedProfiled => seq![p, b, c, t, n, i, m, l, s, w, d].push(
                WavefrontArgument::PhaseCounters,
            ),
            WavefrontKernel::Persistent => seq![
                p,
                b,
                c,
                t,
                n,
                WavefrontArgument::MaxStepCount,
                m,
                l,
                s,
                w,
                d,
            ],
            WavefrontKernel::PersistentGrouped => seq![
                p,
                b,
                c,
                t,
                n,
                WavefrontArgument::MaxStepCount,
                m,
                l,
                s,
                w,
                d,
            ].push(WavefrontArgument::BlocksPerLane),
        }
    }

    /// The arguments of the kernel, in their order.
    pub fn arguments(self) -> (r: Vec<WavefrontArgument>)
        ensures
            r@ == self.takes(),
    {
        let p = WavefrontArgument::PointerTables;
        let b = WavefrontArgument::StepBuffers;
        let c = WavefrontArgument::StepCounts;
        let t = WavefrontArgument::BaseTicks;
        let n = WavefrontArgument::LaneCount;
        let i = WavefrontArgument::StepIndex;
        let l = WavefrontArgument::Learning;
        let s = WavefrontArgument::Strength;
        let w = WavefrontArgument::BatchScale;
        let d = WavefrontArgument::DeltaPointers;
        let m = WavefrontArgument::BlockCount;
        let list: Vec<WavefrontArgument> = match self {
            WavefrontKernel::Pre => vec![p, b, c, t, n, i, l],
            WavefrontKernel::SelectBlocks => vec![p, c, t, n, i, m],
            WavefrontKernel::PostSelect => vec![p, c, t, n, i],
            WavefrontKernel::CacheSurrogate => vec![p, c, t, n, i],
            WavefrontKernel::PostCore => vec![p, b, c, t, n, i, l],
            WavefrontKernel::LearningSignals => vec![p, b, c, t, n, i, s],
            WavefrontKernel::PostDeltas => vec![p, b, c, n, i, l, s, w, d],
            WavefrontKernel::Homeostasis => vec![p, c, t, n, i, l, w, d],
            WavefrontKernel::Capture => vec![p, b, c, n, i],
            WavefrontKernel::Fused => vec![p, b, c, t, n, i, m, l, s, w, d],
            WavefrontKernel::FusedProfiled => vec![
                p,
                b,
                c,
                t,
                n,
                i,
                m,
                l,
                s,
                w,
                d,
                WavefrontArgument::PhaseCounters,
            ],
            WavefrontKernel::Persistent => vec![
                p,
                b,
                c,
                t,
                n,
                WavefrontArgument::MaxStepCount,
                m,
                l,
                s,
                w,
                d,
            ],
            WavefrontKernel::PersistentGrouped => vec![
                p,
                b,
                c,
                t,
                n,
                WavefrontArgument::MaxStepCount,
                m,
                l,
                s,
                w,
                d,
                WavefrontArgument::BlocksPerLane,
            ],
        };
        assert(list@ =~= self.takes());
        list
    }
}

/// One launch of a wavefront.
#[derive(Debug, Clone, Copy, PartialEq, Eq, Structural)]
pub struct WavefrontLaunch {
    pub kernel: WavefrontKernel,
    pub grid: u32,
    pub threads: u32,
    pub cooperative: bool,
}

/// The device memory that a story batch keeps for its lanes: one pointer table, one step
/// buffer, one step count and one tick for each lane.
#[derive(Debug, Clone, Copy, PartialEq, Eq, Structural)]
pub struct BatchPointers {
    pub pointer_tables: u64,
    pub step_buffers: u64,
    pub step_counts: u64,
    pub base_ticks: u64,
}

impl BatchPointers {
    /// A pointer moved by a number of lanes can be held.
    pub open spec fn reaches(pointer: u64, lanes: int, size: int) -> bool {
        pointer + capped(lanes * size) <= u64::MAX
    }

    /// Every pointer can be moved by a number of lanes.
    pub open spec fn movable(self, lanes: int) -> bool {
        &&& Self::reaches(self.pointer_tables, lanes, 8)
        &&& Self::reaches(self.step_buffers, lanes, 8)
        &&& Self::reaches(self.step_counts, lanes, 4)
        &&& Self::reaches(self.base_ticks, lanes, 8)
    }

    /// The pointers of the lanes from `lanes` on.
    pub open spec fn moved(self, lanes: int) -> BatchPointers {
        BatchPointers {
            pointer_tables: (self.pointer_tables + capped(lanes * 8)) as u64,
            step_buffers: (self.step_buffers + capped(lanes * 8)) as u64,
            step_counts: (self.step_counts + capped(lanes * 4)) as u64,
            base_ticks: (self.base_ticks + capped(lanes * 8)) as u64,
        }
    }

    /// The pointers of the lanes from `lane_start` on.
    pub fn from_lane(&self, lane_start: usize) -> (r: LeoResult<BatchPointers>)
        ensures
            self.movable(lane_start as int) ==> r == Ok::<BatchPointers, LeoError>(
                self.moved(lane_start as int),
            ),
            !self.movable(lane_start as int) ==> fails(
                r,
                LeoErrorKind::Cuda,
                "CUDA device pointer offset overflow"@,
            ),
    {
        let wide: usize = capped_product(lane_start, 8);
        let narrow: usize = capped_product(lane_start, 4);
        let pointer_tables: u64 = match device_pointer_offset(self.pointer_tables, wide) {
            Ok(p) => p,
            Err(e) => {
                return Err(e);
            },
        };
        let step_buffers: u64 = match device_pointer_offset(self.step_buffers, wide) {
            Ok(p) => p,
            Err(e) => {
                return Err(e);
            },
        };
        let step_counts: u64 = match device_pointer_offset(self.step_counts, narrow) {
            Ok(p) => p,
            Err(e) => {
                return Err(e);
            },
        };
        let base_ticks: u64 = match device_pointer_offset(self.base_ticks, wide) {
            Ok(p) => p,
            Err(e) => {
                return Err(e);
            },
        };
        Ok(BatchPointers { pointer_tables, step_buffers, step_counts, base_ticks })
    }
}

/// The blocks that have work: one for each block of each lane.
pub open spec fn useful_blocks(lanes: u32, model_blocks: u32) -> int {
    let work = lanes * nonzero(model_blocks);
    if work < 1 {
        1
    } else {
        work
    }
}

/// How a wavefront was launched.
#[derive(Debug, Clone, Copy, PartialEq, Eq, Structural)]
pub enum WavefrontLaunchKind {
    Fused { phase_profile_sampled: bool, phase_profile_geometry_skipped: bool, grid_blocks: u32 },
    Direct { phase_launches: u64 },
}

/// The launches of one wavefront.
#[derive(Debug)]
pub struct WavefrontPlan {
    pub pointers: BatchPointers,
    pub lane_count: u32,
    pub step: u32,
    pub launches: Vec<WavefrontLaunch>,
    /// What ends the step once the launches are made.
    pub outcome: LeoResult<()>,
    pub kind: WavefrontLaunchKind,
}

/// The fused kernel takes the wavefront: the device has cooperative launches and the plan asks
/// for blocks of the size whose reductions keep their order.
pub open spec fn is_fused(limits: DeviceLimits, plan: CudaExecutionPlan) -> bool {
    limits.cooperative_launch && plan.fused_wavefront_blocks > 0 && plan.fused_wavefront_threads
        == SHARED_BATCH_THREADS
}

/// The blocks of the fused kernel.
pub open spec fn fused_grid(
    limits: DeviceLimits,
    plan: CudaExecutionPlan,
    lanes: u32,
    model_blocks: u32,
) -> u32 {
    nonzero(
        lesser(
            lesser(plan.fused_wavefront_blocks, limits.fused_blocks_256),
            useful_blocks(lanes, model_blocks) as u32,
        ),
    )
}

/// The first launch of a step whose kernels are launched by themselves.
pub open spec fn first_launch(lanes: u32) -> WavefrontLaunch {
    WavefrontLaunch {
        kernel: WavefrontKernel::Pre,
        grid: lanes,
        threads: THREADS,
        cooperative: false,
    }
}

/// The launches that take a wavefront phase by phase.
pub open spec fn direct_launches(
    lanes: u32,
    model_blocks: u32,
    learning_trace: bool,
) -> Seq<WavefrontLaunch> {
    let first = seq![
        first_launch(lanes),
        WavefrontLaunch {
            kernel: WavefrontKernel::SelectBlocks,
            grid: (lanes * model_blocks) as u32,
            threads: THREADS,
            cooperative: false,
        },
        WavefrontLaunch {
            kernel: WavefrontKernel::PostSelect,
            grid: lanes,
            threads: SHARED_BATCH_THREADS,
            cooperative: false,
        },
        WavefrontLaunch {
            kernel: WavefrontKernel::CacheSurrogate,
            grid: lanes,
            threads: THREADS,
            cooperative: false,
        },
        WavefrontLaunch {
            kernel: WavefrontKernel::PostCore,
            grid: lanes,
            threads: SHARED_BATCH_THREADS,
            cooperative: false,
        },
        WavefrontLaunch {
            kernel: WavefrontKernel::LearningSignals,
            grid: lanes,
            threads: THREADS,
            cooperative: false,
        },
        WavefrontLaunch {
            kernel: WavefrontKernel::PostDeltas,
            grid: lanes,
            threads: SHARED_BATCH_THREADS,
            cooperative: false,
        },
    ];
    let second = if learning_trace {
        first.push(
            WavefrontLaunch {
                kernel: WavefrontKernel::Homeostasis,
                grid: lanes,
                threads: THREADS,
                cooperative: false,
            },
        )
    } else {
        first
    };
    second.push(
        WavefrontLaunch {
            kernel: WavefrontKernel::Capture,
            grid: lanes,
            threads: 32,
            cooperative: false,
        },
    )
}

/// A step of some lanes that is to be launched.
#[derive(Debug, Clone, Copy, PartialEq, Eq, Structural)]
pub struct WavefrontStep {
    pub lane_start: usize,
    pub lane_count: usize,
    pub step_index: usize,
    pub model_blocks: u32,
    pub learning_trace: bool,
    pub phase_profile: bool,
}

/// Why a wavefront cannot be launched.
pub open spec fn wavefront_problem(
    limits: DeviceLimits,
    plan: CudaExecutionPlan,
    pointers: BatchPointers,
    w: WavefrontStep,
) -> Option<Seq<char>> {
    let fused = is_fused(limits, plan);
    if w.lane_count > u32::MAX {
        Some(capacity_message("GPU physical lane chunk"@))
    } else if !pointers.movable(w.lane_start as int) {
        Some("CUDA device pointer offset overflow"@)
    } else if w.step_index > u32::MAX {
        Some(capacity_message("GPU shared wavefront step"@))
    } else if fused && w.lane_count * nonzero(w.model_blocks) > u32::MAX {
        Some("GPU fused wavefront grid overflow"@)
    } else {
        None
    }
}

/// The plan is that of the wavefront.
pub open spec fn wavefront_planned(
    limits: DeviceLimits,
    plan: CudaExecutionPlan,
    pointers: BatchPointers,
    w: WavefrontStep,
    r: WavefrontPlan,
) -> bool {
    let lanes = w.lane_count as u32;
    &&& r.pointers == pointers.moved(w.lane_start as int)
    &&& r.lane_count == lanes
    &&& r.step == w.step_index
    &&& if is_fused(limits, plan) {
        let grid = fused_grid(limits, plan, lanes, w.model_blocks);
        let profiled = w.phase_profile && limits.fused_profile_blocks_256 >= grid;
        &&& r.kind == (WavefrontLaunchKind::Fused {
            phase_profile_sampled: profiled,
            phase_profile_geometry_skipped: w.phase_profile && !profiled,
            grid_blocks: grid,
        })
        &&& r.launches@ == seq![
            WavefrontLaunch {
                kernel: if profiled {
                    WavefrontKernel::FusedProfiled
                } else {
                    WavefrontKernel::Fused
                },
                grid,
                threads: SHARED_BATCH_THREADS,
                cooperative: true,
            },
        ]
        &&& r.outcome is Ok
    } else if w.lane_count * w.model_blocks > u32::MAX {
        &&& r.kind == (WavefrontLaunchKind::Direct { phase_launches: 1 })
        &&& r.launches@ == seq![first_launch(lanes)]
        &&& fails(r.outcome, LeoErrorKind::Cuda, "GPU shared select grid overflow"@)
    } else {
        &&& r.outcome is Ok
        &&& r.kind == (WavefrontLaunchKind::Direct {
            phase_launches: if w.learning_trace {
                9
            } else {
                8
            },
        })
        &&& r.launches@ == direct_launches(lanes, w.model_blocks, w.learning_trace)
    }
}

fn smallest(a: u32, b: u32) -> (r: u32)
    ensures
        r == lesser(a, b),
{
    if a <= b {
        a
    } else {
        b
    }
}

fn positive_or_one(a: u32) -> (r: u32)
    ensures
        r == nonzero(a),
{
    if a == 0 {
        1
    } else {
        a
    }
}

fn plain_launch(kernel: WavefrontKernel, grid: u32, threads: u32) -> (r: WavefrontLaunch)
    ensures
        r == (WavefrontLaunch { kernel, grid, threads, cooperative: false }),
{
    WavefrontLaunch { kernel, grid, threads, cooperative: false }
}

/// Plans the launches of one wavefront. A profiled launch is made only where the profiled
/// kernel holds the very grid of an ordinary one.
pub fn plan_wavefront(
    limits: &DeviceLimits,
    plan: &CudaExecutionPlan,
    pointers: &BatchPointers,
    w: &WavefrontStep,
) -> (r: LeoResult<WavefrontPlan>)
    ensures
        match wavefront_problem(*limits, *plan, *pointers, *w) {
            Some(text) => fails(r, LeoErrorKind::Cuda, text),
            None => r matches Ok(planned) && wavefront_planned(
                *limits,
                *plan,
                *pointers,
                *w,
                planned,
            ),
        },
{
    let lanes: u32 = match as_u32("GPU physical lane chunk", w.lane_count) {
        Ok(n) => n,
        Err(e) => {
            return Err(e);
        },
    };
    let moved: BatchPointers = match pointers.from_lane(w.lane_start) {
        Ok(p) => p,
        Err(e) => {
            return Err(e);
        },
    };
    let step: u32 = match as_u32("GPU shared wavefront step", w.step_index) {
        Ok(n) => n,
        Err(e) => {
            return Err(e);
        },
    };
    assert(0 <= lanes * w.model_blocks) by (nonlinear_arith);
    if limits.cooperative_launch && plan.fused_wavefront_blocks > 0 && plan.fused_wavefront_threads
        == SHARED_BATCH_THREADS {
        let work: u32 = match lanes.checked_mul(positive_or_one(w.model_blocks)) {
            Some(work) => work,
            None => {
                return Err(LeoError::cuda("GPU fused wavefront grid overflow".to_owned()));
            },
        };
        let useful: u32 = positive_or_one(work);
        assert(useful == useful_blocks(lanes, w.model_blocks)) by {
            assert(0 <= lanes * nonzero(w.model_blocks)) by (nonlinear_arith);
        }
        let grid: u32 = positive_or_one(
            smallest(smallest(plan.fused_wavefront_blocks, limits.fused_blocks_256), useful),
        );
        let profiled: bool = w.phase_profile && limits.fused_profile_blocks_256 >= grid;
        let mut launches: Vec<WavefrontLaunch> = Vec::new();
        launches.push(
            WavefrontLaunch {
                kernel: if profiled {
                    WavefrontKernel::FusedProfiled
                } else {
                    WavefrontKernel::Fused
                },
                grid,
                threads: SHARED_BATCH_THREADS,
                cooperative: true,
            },
        );
        return Ok(
            WavefrontPlan {
                pointers: moved,
                lane_count: lanes,
                step,
                launches,
                outcome: Ok(()),
                kind: WavefrontLaunchKind::Fused {
                    phase_profile_sampled: profiled,
                    phase_profile_geometry_skipped: w.phase_profile && !profiled,
                    grid_blocks: grid,
                },
            },
        );
    }
    let mut launches: Vec<WavefrontLaunch> = Vec::new();
    launches.push(plain_launch(WavefrontKernel::Pre, lanes, THREADS));
    let select: u32 = match lanes.checked_mul(w.model_blocks) {
        Some(grid) => grid,
        None => {
            assert(launches@ =~= seq![first_launch(lanes)]);
            return Ok(
                WavefrontPlan {
                    pointers: moved,
                    lane_count: lanes,
                    step,
                    launches,
                    outcome: Err(LeoError::cuda("GPU shared select grid overflow".to_owned())),
                    kind: WavefrontLaunchKind::Direct { phase_launches: 1 },
                },
            );
        },
    };
    launches.push(plain_launch(WavefrontKernel::SelectBlocks, select, THREADS));
    launches.push(plain_launch(WavefrontKernel::PostSelect, lanes, SHARED_BATCH_THREADS));
    launches.push(plain_launch(WavefrontKernel::CacheSurrogate, lanes, THREADS));
    launches.push(plain_launch(WavefrontKernel::PostCore, lanes, SHARED_BATCH_THREADS));
    launches.push(plain_launch(WavefrontKernel::LearningSignals, lanes, THREADS));
    launches.push(plain_launch(WavefrontKernel::PostDeltas, lanes, SHARED_BATCH_THREADS));
    if w.learning_trace {
        launches.push(plain_launch(WavefrontKernel::Homeostasis, lanes, THREADS));
    }
    launches.push(plain_launch(WavefrontKernel::Capture, lanes, 32));
    assert(launches@ =~= direct_launches(lanes, w.model_blocks, w.learning_trace));
    Ok(
        WavefrontPlan {
            pointers: moved,
            lane_count: lanes,
            step,
            launches,
            outcome: Ok(()),
            kind: WavefrontLaunchKind::Direct {
                phase_launches: if w.learning_trace {
                    9
                } else {
                    8
                },
            },
        },
    )
}

/// The number of phase launches that a plan reports is the number that it makes.
pub proof fn law_direct_plan_counts_its_launches(
    limits: DeviceLimits,
    plan: CudaExecutionPlan,
    pointers: BatchPointers,
    w: WavefrontStep,
    r: WavefrontPlan,
)
    requires
        wavefront_planned(limits, plan, pointers, w, r),
    ensures
        match r.kind {
            WavefrontLaunchKind::Direct { phase_launches } => r.launches@.len() == phase_launches,
            WavefrontLaunchKind::Fused { .. } => r.launches@.len() == 1,
        },
{
}

/// A fused grid never leaves the device's capacity, nor has it blocks without work, and a
/// sampled launch has the very grid that it would have had without the profile.
pub proof fn law_fused_grid_fits(
    limits: DeviceLimits,
    plan: CudaExecutionPlan,
    lanes: u32,
    model_blocks: u32,
)
    requires
        0 < limits.fused_blocks_256,
        lanes * nonzero(model_blocks) <= u32::MAX,
    ensures
        1 <= fused_grid(limits, plan, lanes, model_blocks) <= limits.fused_blocks_256,
        fused_grid(limits, plan, lanes, model_blocks) <= useful_blocks(lanes, model_blocks),
{
    assert(0 <= lanes * nonzero(model_blocks)) by (nonlinear_arith);
}

/// The launch that takes many steps of some lanes at once.
#[derive(Debug, Clone, Copy, PartialEq, Eq, Structural)]
pub struct PersistentWavefrontLaunch {
    pub grid_blocks: u32,
    pub blocks_per_lane: u32,
    pub grouped: bool,
}

/// A stretch of steps of some lanes that is to be launched.
#[derive(Debug, Clone, Copy, PartialEq, Eq, Structural)]
pub struct PersistentStretch {
    pub lane_start: usize,
    pub lane_count: usize,
    pub max_step_count: usize,
    pub model_blocks: u32,
    /// Every lane may get several blocks of its own.
    pub grouping: bool,
}

/// The launch of a persistent wavefront.
#[derive(Debug, Clone, Copy, PartialEq, Eq, Structural)]
pub struct PersistentPlan {
    pub pointers: BatchPointers,
    pub lane_count: u32,
    pub max_step_count: u32,
    pub kernel: WavefrontKernel,
    pub launch: PersistentWavefrontLaunch,
}

/// Why a persistent wavefront cannot be launched.
pub open spec fn persistent_problem(pointers: BatchPointers, s: PersistentStretch) -> Option<
    Seq<char>,
> {
    if s.lane_count > u32::MAX {
        Some(capacity_message("GPU persistent physical lane chunk"@))
    } else if !pointers.movable(s.lane_start as int) {
        Some("CUDA device pointer offset overflow"@)
    } else if s.lane_count * nonzero(s.model_blocks) > u32::MAX {
        Some("GPU persistent shared wavefront grid overflow"@)
    } else if s.max_step_count > u32::MAX {
        Some(capacity_message("GPU persistent shared step count"@))
    } else {
        None
    }
}

/// The blocks that the plan gives a persistent wavefront.
pub open spec fn planned_blocks(plan: CudaExecutionPlan, lanes: u32, model_blocks: u32) -> u32 {
    nonzero(lesser(plan.fused_wavefront_blocks, useful_blocks(lanes, model_blocks) as u32))
}

/// How many blocks of its own each lane gets.
pub open spec fn blocks_per_lane(
    limits: DeviceLimits,
    plan: CudaExecutionPlan,
    lanes: u32,
    model_blocks: u32,
    grouping: bool,
) -> int {
    if grouping && lanes > 0 {
        lesser(planned_blocks(plan, lanes, model_blocks), limits.shared_grouped_blocks_256) as int
            / lanes as int
    } else {
        0
    }
}

/// The launch of a persistent wavefront: lanes with blocks of their own where the device holds
/// one for each, one grid for all of them otherwise.
pub open spec fn persistent_plan_of(
    limits: DeviceLimits,
    plan: CudaExecutionPlan,
    pointers: BatchPointers,
    s: PersistentStretch,
) -> PersistentPlan {
    let lanes = s.lane_count as u32;
    let each = blocks_per_lane(limits, plan, lanes, s.model_blocks, s.grouping);
    PersistentPlan {
        pointers: pointers.moved(s.lane_start as int),
        lane_count: lanes,
        max_step_count: s.max_step_count as u32,
        kernel: if each > 0 {
            WavefrontKernel::PersistentGrouped
        } else {
            WavefrontKernel::Persistent
        },
        launch: if each > 0 {
            PersistentWavefrontLaunch {
                grid_blocks: (lanes * each) as u32,
                blocks_per_lane: each as u32,
                grouped: true,
            }
        } else {
            PersistentWavefrontLaunch {
                grid_blocks: nonzero(
                    lesser(
                        planned_blocks(plan, lanes, s.model_blocks),
                        limits.shared_persistent_blocks_256,
                    ),
                ),
                blocks_per_lane: 1,
                grouped: false,
            }
        },
    }
}

/// Plans the launch of a persistent wavefront.
pub fn plan_persistent_wavefront(
    limits: &DeviceLimits,
    plan: &CudaExecutionPlan,
    pointers: &BatchPointers,
    s: &PersistentStretch,
) -> (r: LeoResult<PersistentPlan>)
    ensures
        match persistent_problem(*pointers, *s) {
            Some(text) => fails(r, LeoErrorKind::Cuda, text),
            None => r == Ok::<PersistentPlan, LeoError>(
                persistent_plan_of(*limits, *plan, *pointers, *s),
            ),
        },
{
    let lanes: u32 = match as_u32("GPU persistent physical lane chunk", s.lane_count) {
        Ok(n) => n,
        Err(e) => {
            return Err(e);
        },
    };
    let moved: BatchPointers = match pointers.from_lane(s.lane_start) {
        Ok(p) => p,
        Err(e) => {
            return Err(e);
        },
    };
    assert(0 <= lanes * nonzero(s.model_blocks)) by (nonlinear_arith);
    let work: u32 = match lanes.checked_mul(positive_or_one(s.model_blocks)) {
        Some(work) => work,
        None => {
            return Err(
                LeoError::cuda("GPU persistent shared wavefront grid overflow".to_owned()),
            );
        },
    };
    let useful: u32 = positive_or_one(work);
    assert(useful == useful_blocks(lanes, s.model_blocks));
    let planned: u32 = positive_or_one(smallest(plan.fused_wavefront_blocks, useful));
    let budget: u32 = smallest(planned, limits.shared_grouped_blocks_256);
    let each: u32 = if s.grouping && lanes > 0 {
        budget / lanes
    } else {
        0
    };
    let max_step_count: u32 = match as_u32("GPU persistent shared step count", s.max_step_count) {
        Ok(n) => n,
        Err(e) => {
            return Err(e);
        },
    };
    if each > 0 {
        assert(lanes * each <= budget) by (nonlinear_arith)
            requires
                each == budget / lanes,
                lanes > 0,
        ;
        let grid_blocks: u32 = lanes * each;
        return Ok(
            PersistentPlan {
                pointers: moved,
                lane_count: lanes,
                max_step_count,
                kernel: WavefrontKernel::PersistentGrouped,
                launch: PersistentWavefrontLaunch {
                    grid_blocks,
                    blocks_per_lane: each,
                    grouped: true,
                },
            },
        );
    }
    Ok(
        PersistentPlan {
            pointers: moved,
            lane_count: lanes,
            max_step_count,
            kernel: WavefrontKernel::Persistent,
            launch: PersistentWavefrontLaunch {
                grid_blocks: positive_or_one(
                    smallest(planned, limits.shared_persistent_blocks_256),
                ),
                blocks_per_lane: 1,
                grouped: false,
            },
        },
    )
}

/// A grouped grid gives every lane the same number of blocks and stays within what the device
/// holds at once.
pub proof fn law_grouped_grid_is_fair(
    limits: DeviceLimits,
    plan: CudaExecutionPlan,
    pointers: BatchPointers,
    s: PersistentStretch,
)
    requires
        persistent_problem(pointers, s) is None,
        persistent_plan_of(limits, plan, pointers, s).launch.grouped,
    ensures
        ({
            let r = persistent_plan_of(limits, plan, pointers, s);
            &&& r.launch.grid_blocks == r.lane_count * r.launch.blocks_per_lane
            &&& 1 <= r.launch.blocks_per_lane
            &&& r.launch.grid_blocks <= limits.shared_grouped_blocks_256
        }),
{
    let lanes = s.lane_count as u32;
    let budget = lesser(
        planned_blocks(plan, lanes, s.model_blocks),
        limits.shared_grouped_blocks_256,
    ) as int;
    let each = blocks_per_lane(limits, plan, lanes, s.model_blocks, s.grouping);
    assert(0 <= lanes * each <= budget) by (nonlinear_arith)
        requires
            each == budget / lanes as int,
            lanes > 0,
            0 <= budget,
    ;
}

} // verus!
