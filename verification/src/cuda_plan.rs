//! The search for the launch geometry that trains a batch of stories fastest.
//!
//! A plan changes how work is laid out on the device, never what is computed: the number
//! of logical lanes and the block size of the fused kernel stay as they are.

use crate::arithmetic::Numerics;
use crate::metrics::WideScalar;
use crate::sorting::{ranked, sort_ranked, Ranked};
use crate::text::same_text;
use vstd::prelude::*;

verus! {

/// The version of stored profiles.
pub const PROFILE_SCHEMA: u32 = 3;

/// How often each candidate is measured.
pub const OBSERVATIONS_PER_CANDIDATE: u32 = 2;

/// How often a tuned plan is still measured: once in this many batches.
pub const PROFILE_SAMPLE_INTERVAL: u64 = 128;

/// The block size of the fused kernel.
pub const FUSED_WAVEFRONT_THREADS: u32 = 256;

/// A launch geometry.
#[derive(Debug, Clone, Copy, PartialEq, Eq, Structural)]
pub struct CudaExecutionPlan {
    pub physical_lane_chunk: usize,
    pub sparse_apply_blocks: u32,
    pub sparse_apply_threads: u32,
    pub fused_wavefront_blocks: u32,
    pub fused_wavefront_threads: u32,
}

/// What the device allows.
#[derive(Debug, Clone, Copy)]
pub struct CudaTuningLimits {
    pub multiprocessors: u32,
    pub max_threads_per_sm: u32,
    pub max_lanes: usize,
    pub fused_blocks_128: u32,
    pub fused_blocks_256: u32,
    pub fused_blocks_512: u32,
}

impl CudaTuningLimits {
    /// How many fused blocks of a size can be resident; none of a size that is not built.
    pub open spec fn fused_limit(self, threads: u32) -> u32 {
        if threads == 128 {
            self.fused_blocks_128
        } else if threads == 256 {
            self.fused_blocks_256
        } else if threads == 512 {
            self.fused_blocks_512
        } else {
            0
        }
    }

    /// How many fused blocks of a size can be resident.
    pub fn max_fused_blocks(self, threads: u32) -> (r: u32)
        ensures
            r == self.fused_limit(threads),
    {
        if threads == 128 {
            self.fused_blocks_128
        } else if threads == 256 {
            self.fused_blocks_256
        } else if threads == 512 {
            self.fused_blocks_512
        } else {
            0
        }
    }
}

/// The lane chunks that are tried.
pub open spec fn lane_candidate(i: int) -> int {
    if i == 0 {
        8
    } else if i == 1 {
        16
    } else if i == 2 {
        32
    } else if i == 3 {
        64
    } else if i == 4 {
        96
    } else {
        128
    }
}

/// The block sizes that are tried for the sparse kernels.
pub open spec fn thread_candidate(i: int) -> int {
    if i == 0 {
        128
    } else if i == 1 {
        256
    } else {
        512
    }
}

/// How many blocks per multiprocessor are tried for the sparse kernels.
pub open spec fn block_multiplier(i: int) -> int {
    if i == 0 {
        1
    } else if i == 1 {
        2
    } else {
        4
    }
}

/// The smaller of two numbers.
pub open spec fn least(a: int, b: int) -> int {
    if a < b {
        a
    } else {
        b
    }
}

/// The larger of two numbers.
pub open spec fn most(a: int, b: int) -> int {
    if a < b {
        b
    } else {
        a
    }
}

/// A number confined to a range.
pub open spec fn within(x: int, lo: int, hi: int) -> int {
    most(lo, least(x, hi))
}

/// The product of two 32-bit counts, held at the largest value.
pub open spec fn capped32(a: int) -> int {
    least(a, u32::MAX as int)
}

/// Two lanes for each multiprocessor, between 16 and 128, but no more than there are.
pub open spec fn lane_chunk(multiprocessors: u32, max_lanes: usize) -> int {
    least(
        within(least(multiprocessors * 2, usize::MAX as int), 16, 128),
        most(max_lanes as int, 1),
    )
}

/// The block size that is tried and nearest to a number, the smaller of two as near.
pub open spec fn nearest_threads(value: u32) -> u32 {
    if value <= 192 {
        128
    } else if value <= 384 {
        256
    } else {
        512
    }
}

/// The lane chunk to start with.
pub fn heuristic_lane_chunk(multiprocessors: u32, max_lanes: usize) -> (r: usize)
    ensures
        r == lane_chunk(multiprocessors, max_lanes),
        1 <= r,
        r <= max_lanes || r == 1,
{
    let doubled: usize = match (multiprocessors as usize).checked_mul(2) {
        Some(product) => product,
        None => usize::MAX,
    };
    let target: usize = if doubled < 16 {
        16
    } else if doubled > 128 {
        128
    } else {
        doubled
    };
    let lanes: usize = if max_lanes < 1 {
        1
    } else {
        max_lanes
    };
    if target < lanes {
        target
    } else {
        lanes
    }
}

/// The block size that is tried and nearest to a number.
pub fn nearest_thread_candidate(value: u32) -> (r: u32)
    ensures
        r == nearest_threads(value),
{
    if value <= 192 {
        128
    } else if value <= 384 {
        256
    } else {
        512
    }
}

/// The distance of two numbers.
pub open spec fn distance(a: int, b: int) -> int {
    if a < b {
        b - a
    } else {
        a - b
    }
}

/// No block size that is tried is nearer, and of those as near it is the smallest.
pub proof fn law_nearest_is_nearest(value: u32, i: int)
    requires
        0 <= i < 3,
    ensures
        distance(nearest_threads(value) as int, value as int) <= distance(
            thread_candidate(i),
            value as int,
        ),
        distance(nearest_threads(value) as int, value as int) == distance(
            thread_candidate(i),
            value as int,
        ) ==> nearest_threads(value) <= thread_candidate(i),
{
}

/// The plan to start with.
pub open spec fn starting_plan(limits: CudaTuningLimits, lanes: usize) -> CudaExecutionPlan {
    CudaExecutionPlan {
        physical_lane_chunk: lane_chunk(limits.multiprocessors, lanes) as usize,
        sparse_apply_blocks: most(capped32(limits.multiprocessors * 2), 1) as u32,
        sparse_apply_threads: 256,
        fused_wavefront_blocks: limits.fused_blocks_256,
        fused_wavefront_threads: FUSED_WAVEFRONT_THREADS,
    }
}

/// A plan confined to what the device and the batch allow.
pub open spec fn sanitized(
    plan: CudaExecutionPlan,
    limits: CudaTuningLimits,
    lanes: usize,
) -> CudaExecutionPlan {
    CudaExecutionPlan {
        physical_lane_chunk: within(
            plan.physical_lane_chunk as int,
            1,
            most(lanes as int, 1),
        ) as usize,
        sparse_apply_blocks: most(plan.sparse_apply_blocks as int, 1) as u32,
        sparse_apply_threads: nearest_threads(
            least(
                plan.sparse_apply_threads as int,
                most(limits.max_threads_per_sm as int, 32),
            ) as u32,
        ),
        fused_wavefront_blocks: if limits.fused_blocks_256 == 0 {
            0
        } else {
            within(plan.fused_wavefront_blocks as int, 1, limits.fused_blocks_256 as int) as u32
        },
        fused_wavefront_threads: FUSED_WAVEFRONT_THREADS,
    }
}

fn capped_times(a: u32, b: u32) -> (r: u32)
    ensures
        r == capped32(a * b),
{
    match a.checked_mul(b) {
        Some(product) => product,
        None => u32::MAX,
    }
}

fn at_least_one(a: u32) -> (r: u32)
    ensures
        r == most(a as int, 1),
{
    if a < 1 {
        1
    } else {
        a
    }
}

/// The plan to start with.
pub fn heuristic_plan(limits: CudaTuningLimits, logical_lanes: usize) -> (r: CudaExecutionPlan)
    ensures
        r == starting_plan(limits, logical_lanes),
{
    CudaExecutionPlan {
        physical_lane_chunk: heuristic_lane_chunk(limits.multiprocessors, logical_lanes),
        sparse_apply_blocks: at_least_one(capped_times(limits.multiprocessors, 2)),
        sparse_apply_threads: 256,
        fused_wavefront_blocks: limits.max_fused_blocks(FUSED_WAVEFRONT_THREADS),
        fused_wavefront_threads: FUSED_WAVEFRONT_THREADS,
    }
}

/// Confines a plan to what the device and the batch allow.
pub fn sanitize_plan(
    plan: CudaExecutionPlan,
    limits: CudaTuningLimits,
    logical_lanes: usize,
) -> (r: CudaExecutionPlan)
    ensures
        r == sanitized(plan, limits, logical_lanes),
{
    let lanes: usize = if logical_lanes < 1 {
        1
    } else {
        logical_lanes
    };
    let chunk: usize = if plan.physical_lane_chunk < 1 {
        1
    } else if plan.physical_lane_chunk > lanes {
        lanes
    } else {
        plan.physical_lane_chunk
    };
    let most_threads: u32 = if limits.max_threads_per_sm < 32 {
        32
    } else {
        limits.max_threads_per_sm
    };
    let threads: u32 = if plan.sparse_apply_threads < most_threads {
        plan.sparse_apply_threads
    } else {
        most_threads
    };
    let max_fused: u32 = limits.max_fused_blocks(FUSED_WAVEFRONT_THREADS);
    let fused: u32 = if max_fused == 0 {
        0
    } else if plan.fused_wavefront_blocks < 1 {
        1
    } else if plan.fused_wavefront_blocks > max_fused {
        max_fused
    } else {
        plan.fused_wavefront_blocks
    };
    CudaExecutionPlan {
        physical_lane_chunk: chunk,
        sparse_apply_blocks: at_least_one(plan.sparse_apply_blocks),
        sparse_apply_threads: nearest_thread_candidate(threads),
        fused_wavefront_blocks: fused,
        fused_wavefront_threads: FUSED_WAVEFRONT_THREADS,
    }
}

/// A sanitized plan fits the batch and the device, and keeps the fused block size.
pub proof fn law_sanitized_plan_fits(
    plan: CudaExecutionPlan,
    limits: CudaTuningLimits,
    lanes: usize,
)
    ensures
        ({
            let s = sanitized(plan, limits, lanes);
            &&& 1 <= s.physical_lane_chunk <= most(lanes as int, 1)
            &&& 1 <= s.sparse_apply_blocks
            &&& s.sparse_apply_threads == 128 || s.sparse_apply_threads == 256
                || s.sparse_apply_threads == 512
            &&& s.fused_wavefront_blocks <= limits.fused_blocks_256
            &&& s.fused_wavefront_threads == 256
        }),
{
}

/// Sanitizing a plan twice is sanitizing it once.
pub proof fn law_sanitizing_is_idempotent(
    plan: CudaExecutionPlan,
    limits: CudaTuningLimits,
    lanes: usize,
)
    ensures
        sanitized(sanitized(plan, limits, lanes), limits, lanes) == sanitized(plan, limits, lanes),
{
}

/// A list with each plan once, where it first occurs.
pub open spec fn unique(s: Seq<CudaExecutionPlan>) -> Seq<CudaExecutionPlan>
    decreases s.len(),
{
    if s.len() == 0 {
        s
    } else {
        let before = unique(s.drop_last());
        if before.contains(s.last()) {
            before
        } else {
            before.push(s.last())
        }
    }
}

/// Puts a plan on the list unless it is there.
pub fn push_unique(plans: &mut Vec<CudaExecutionPlan>, plan: CudaExecutionPlan)
    ensures
        final(plans)@ == (if old(plans)@.contains(plan) {
            old(plans)@
        } else {
            old(plans)@.push(plan)
        }),
{
    let mut i: usize = 0;
    while i < plans.len()
        invariant
            i <= plans.len(),
            *plans == *old(plans),
            forall|k: int| 0 <= k < i ==> #[trigger] plans[k] != plan,
        decreases plans.len() - i,
    {
        if plans[i] == plan {
            assert(plans@[i as int] == plan);
            return;
        }
        i = i + 1;
    }
    plans.push(plan);
}

/// No plan is twice on a unique list, it holds the same plans, and starts with the same one.
pub proof fn law_unique_list(s: Seq<CudaExecutionPlan>)
    ensures
        unique(s).len() <= s.len(),
        0 < s.len() ==> 0 < unique(s).len() && unique(s)[0] == s[0],
        unique(s).no_duplicates(),
        forall|p: CudaExecutionPlan| #[trigger] unique(s).contains(p) <==> s.contains(p),
    decreases s.len(),
{
    if s.len() > 0 {
        let before = unique(s.drop_last());
        law_unique_list(s.drop_last());
        assert forall|p: CudaExecutionPlan| #[trigger] unique(s).contains(p) <==> s.contains(
            p,
        ) by {
            assert(before.contains(p) <==> s.drop_last().contains(p));
            if s.contains(p) && p != s.last() {
                let k = choose|k: int| 0 <= k < s.len() && s[k] == p;
                assert(s.drop_last()[k] == p);
            }
            if s.drop_last().contains(p) {
                let k = choose|k: int| 0 <= k < s.len() - 1 && s.drop_last()[k] == p;
                assert(s[k] == p);
            }
            assert(s[s.len() - 1] == s.last());
            if before.contains(p) && unique(s) != before {
                let k = choose|k: int| 0 <= k < before.len() && before[k] == p;
                assert(unique(s)[k] == p);
            }
            if unique(s).contains(p) && unique(s) != before && p != s.last() {
                let k = choose|k: int| 0 <= k < unique(s).len() && unique(s)[k] == p;
                assert(before[k] == p);
            }
            if unique(s) != before {
                assert(unique(s)[unique(s).len() - 1] == s.last());
            }
        }
    }
}

/// How many variations are drawn up before repetitions are left out.
pub open spec fn variation_count(limits: CudaTuningLimits) -> int {
    if limits.fused_blocks_256 > 0 {
        24
    } else {
        21
    }
}

/// The `i`-th variation of a plan: the plan itself, then one dimension changed at a time,
/// then eight mixtures.
pub open spec fn variation(
    limits: CudaTuningLimits,
    lanes: usize,
    baseline: CudaExecutionPlan,
    i: int,
) -> CudaExecutionPlan {
    let mixtures = variation_count(limits) - 8;
    let fused = limits.fused_blocks_256;
    if i == 0 {
        baseline
    } else if i < 7 {
        CudaExecutionPlan {
            physical_lane_chunk: most(least(lane_candidate(i - 1), lanes as int), 1) as usize,
            ..baseline
        }
    } else if i < 10 {
        CudaExecutionPlan { sparse_apply_threads: thread_candidate(i - 7) as u32, ..baseline }
    } else if i < 13 {
        CudaExecutionPlan {
            sparse_apply_blocks: most(
                capped32(limits.multiprocessors * block_multiplier(i - 10)),
                1,
            ) as u32,
            ..baseline
        }
    } else if i < mixtures {
        let divisor = if i == 13 {
            4int
        } else if i == 14 {
            2
        } else {
            1
        };
        CudaExecutionPlan {
            fused_wavefront_threads: FUSED_WAVEFRONT_THREADS,
            fused_wavefront_blocks: most((fused + divisor - 1) / divisor, 1) as u32,
            ..baseline
        }
    } else {
        let j = i - mixtures;
        CudaExecutionPlan {
            physical_lane_chunk: most(least(lane_candidate(j % 6), lanes as int), 1) as usize,
            sparse_apply_blocks: most(
                capped32(limits.multiprocessors * block_multiplier((j + 2) % 3)),
                1,
            ) as u32,
            sparse_apply_threads: thread_candidate(j % 3) as u32,
            fused_wavefront_blocks: if j % 2 == 1 && fused > 1 {
                most((fused + 1) / 2, 1) as u32
            } else {
                fused
            },
            fused_wavefront_threads: FUSED_WAVEFRONT_THREADS,
        }
    }
}

/// All variations of a plan.
pub open spec fn variations(
    limits: CudaTuningLimits,
    lanes: usize,
    baseline: CudaExecutionPlan,
) -> Seq<CudaExecutionPlan> {
    Seq::new(
        variation_count(limits) as nat,
        |i: int| variation(limits, lanes, baseline, i),
    )
}

/// The plans to be measured: the variations, confined to what is allowed, each once.
pub open spec fn candidate_plans(
    limits: CudaTuningLimits,
    lanes: usize,
    baseline: CudaExecutionPlan,
) -> Seq<CudaExecutionPlan> {
    let drawn = unique(variations(limits, lanes, baseline));
    unique(Seq::new(drawn.len(), |i: int| sanitized(drawn[i], limits, lanes)))
}

fn pick_lane(i: usize, lanes: usize) -> (r: usize)
    ensures
        r == most(least(lane_candidate(i as int), lanes as int), 1),
{
    let candidate: usize = if i == 0 {
        8
    } else if i == 1 {
        16
    } else if i == 2 {
        32
    } else if i == 3 {
        64
    } else if i == 4 {
        96
    } else {
        128
    };
    let confined: usize = if candidate < lanes {
        candidate
    } else {
        lanes
    };
    if confined < 1 {
        1
    } else {
        confined
    }
}

fn pick_threads(i: usize) -> (r: u32)
    ensures
        r == thread_candidate(i as int),
{
    if i == 0 {
        128
    } else if i == 1 {
        256
    } else {
        512
    }
}

fn pick_multiplier(i: usize) -> (r: u32)
    ensures
        r == block_multiplier(i as int),
{
    if i == 0 {
        1
    } else if i == 1 {
        2
    } else {
        4
    }
}

fn draw_variation(
    limits: CudaTuningLimits,
    lanes: usize,
    baseline: CudaExecutionPlan,
    i: usize,
    mixtures: usize,
) -> (r: CudaExecutionPlan)
    requires
        limits.fused_blocks_256 <= u32::MAX - 3,
        mixtures == variation_count(limits) - 8,
        i < variation_count(limits),
    ensures
        r == variation(limits, lanes, baseline, i as int),
{
    let fused: u32 = limits.max_fused_blocks(FUSED_WAVEFRONT_THREADS);
    let mut plan = baseline;
    if i == 0 {
    } else if i < 7 {
        plan.physical_lane_chunk = pick_lane(i - 1, lanes);
    } else if i < 10 {
        plan.sparse_apply_threads = pick_threads(i - 7);
    } else if i < 13 {
        plan.sparse_apply_blocks = at_least_one(
            capped_times(limits.multiprocessors, pick_multiplier(i - 10)),
        );
    } else if i < mixtures {
        let divisor: u32 = if i == 13 {
            4
        } else if i == 14 {
            2
        } else {
            1
        };
        plan.fused_wavefront_threads = FUSED_WAVEFRONT_THREADS;
        plan.fused_wavefront_blocks = at_least_one((fused + (divisor - 1)) / divisor);
    } else {
        let j: usize = i - mixtures;
        plan = CudaExecutionPlan {
            physical_lane_chunk: pick_lane(j % 6, lanes),
            sparse_apply_blocks: at_least_one(
                capped_times(limits.multiprocessors, pick_multiplier((j + 2) % 3)),
            ),
            sparse_apply_threads: pick_threads(j % 3),
            fused_wavefront_blocks: fused,
            fused_wavefront_threads: FUSED_WAVEFRONT_THREADS,
        };
        if j % 2 == 1 && fused > 1 {
            plan.fused_wavefront_blocks = at_least_one((fused + 1) / 2);
        }
    }
    plan
}

/// The plans to be measured.
pub fn build_candidates(
    limits: CudaTuningLimits,
    logical_lanes: usize,
    baseline: CudaExecutionPlan,
) -> (r: Vec<CudaExecutionPlan>)
    requires
        limits.fused_blocks_256 <= u32::MAX - 3,
    ensures
        r@ == candidate_plans(limits, logical_lanes, baseline),
{
    let count: usize = if limits.max_fused_blocks(FUSED_WAVEFRONT_THREADS) > 0 {
        24
    } else {
        21
    };
    let ghost all = variations(limits, logical_lanes, baseline);
    let mut drawn: Vec<CudaExecutionPlan> = Vec::new();
    let mut i: usize = 0;
    assert(all.take(0) =~= Seq::<CudaExecutionPlan>::empty());
    while i < count
        invariant
            i <= count,
            count == variation_count(limits),
            limits.fused_blocks_256 <= u32::MAX - 3,
            all == variations(limits, logical_lanes, baseline),
            drawn@ == unique(all.take(i as int)),
        decreases count - i,
    {
        let plan = draw_variation(limits, logical_lanes, baseline, i, count - 8);
        push_unique(&mut drawn, plan);
        proof {
            assert(all.take(i + 1).drop_last() =~= all.take(i as int));
            assert(all.take(i + 1).last() == plan);
        }
        i = i + 1;
    }
    assert(all.take(count as int) =~= all);
    let ghost confined = Seq::new(
        drawn@.len(),
        |i: int| sanitized(drawn@[i], limits, logical_lanes),
    );
    let mut out: Vec<CudaExecutionPlan> = Vec::new();
    let mut k: usize = 0;
    assert(confined.take(0) =~= Seq::<CudaExecutionPlan>::empty());
    while k < drawn.len()
        invariant
            k <= drawn.len(),
            confined == Seq::new(
                drawn@.len(),
                |i: int| sanitized(drawn@[i], limits, logical_lanes),
            ),
            out@ == unique(confined.take(k as int)),
        decreases drawn.len() - k,
    {
        let plan = sanitize_plan(drawn[k], limits, logical_lanes);
        push_unique(&mut out, plan);
        proof {
            assert(confined.take(k + 1).drop_last() =~= confined.take(k as int));
            assert(confined.take(k + 1).last() == plan);
        }
        k = k + 1;
    }
    assert(confined.take(drawn.len() as int) =~= confined);
    out
}

/// Every plan that is measured fits batch and device, none is measured twice, and the first is the
/// baseline as far as it is allowed. There are at most twenty-four, and sanitizing leaves each as
/// it is.
pub proof fn law_candidates_fit(
    limits: CudaTuningLimits,
    lanes: usize,
    baseline: CudaExecutionPlan,
)
    ensures
        0 < candidate_plans(limits, lanes, baseline).len() <= 24,
        candidate_plans(limits, lanes, baseline)[0] == sanitized(baseline, limits, lanes),
        candidate_plans(limits, lanes, baseline).no_duplicates(),
        forall|i: int|
            0 <= i < candidate_plans(limits, lanes, baseline).len() ==> {
                let p = #[trigger] candidate_plans(limits, lanes, baseline)[i];
                &&& 1 <= p.physical_lane_chunk <= most(lanes as int, 1)
                &&& p.fused_wavefront_threads == 256
                &&& p.fused_wavefront_blocks <= limits.fused_blocks_256
                &&& sanitized(p, limits, lanes) == p
            },
{
    let all = variations(limits, lanes, baseline);
    let drawn = unique(all);
    let confined = Seq::new(drawn.len(), |i: int| sanitized(drawn[i], limits, lanes));
    law_unique_list(all);
    law_unique_list(confined);
    assert(all[0] == baseline);
    assert(all.contains(baseline));
    assert(drawn.contains(baseline));
    let b = choose|b: int| 0 <= b < drawn.len() && drawn[b] == baseline;
    assert(confined[b] == sanitized(baseline, limits, lanes));
    assert(confined.contains(confined[b]));
    let plans = candidate_plans(limits, lanes, baseline);
    assert(plans.contains(confined[b]));
    assert forall|i: int| 0 <= i < plans.len() implies {
        let p = #[trigger] plans[i];
        &&& 1 <= p.physical_lane_chunk <= most(lanes as int, 1)
        &&& p.fused_wavefront_threads == 256
        &&& p.fused_wavefront_blocks <= limits.fused_blocks_256
        &&& sanitized(p, limits, lanes) == p
    } by {
        assert(plans.contains(plans[i]));
        assert(confined.contains(plans[i]));
        let k = choose|k: int| 0 <= k < confined.len() && confined[k] == plans[i];
        law_sanitized_plan_fits(drawn[k], limits, lanes);
        law_sanitizing_is_idempotent(drawn[k], limits, lanes);
    }
}

/// What has been measured of a plan.
#[derive(Debug, Clone, Copy, PartialEq, Eq, Structural)]
pub struct PlanScore {
    pub plan: CudaExecutionPlan,
    /// The work of all measurements.
    pub work: WideScalar,
    /// The time of all measurements.
    pub seconds: WideScalar,
    /// Work per second over all measurements.
    pub throughput: WideScalar,
    pub observations: u32,
}

impl Ranked for PlanScore {
    open spec fn leq(self, other: Self) -> bool {
        let a = self.plan;
        let b = other.plan;
        if a.physical_lane_chunk != b.physical_lane_chunk {
            a.physical_lane_chunk < b.physical_lane_chunk
        } else if a.sparse_apply_blocks != b.sparse_apply_blocks {
            a.sparse_apply_blocks < b.sparse_apply_blocks
        } else if a.sparse_apply_threads != b.sparse_apply_threads {
            a.sparse_apply_threads < b.sparse_apply_threads
        } else if a.fused_wavefront_blocks != b.fused_wavefront_blocks {
            a.fused_wavefront_blocks < b.fused_wavefront_blocks
        } else if a.fused_wavefront_threads != b.fused_wavefront_threads {
            a.fused_wavefront_threads < b.fused_wavefront_threads
        } else if self.observations != other.observations {
            self.observations < other.observations
        } else if self.work.bits != other.work.bits {
            self.work.bits < other.work.bits
        } else if self.seconds.bits != other.seconds.bits {
            self.seconds.bits < other.seconds.bits
        } else {
            self.throughput.bits <= other.throughput.bits
        }
    }

    proof fn order_is_total() {
    }

    fn comes_before(&self, other: &Self) -> (r: bool) {
        let a = self.plan;
        let b = other.plan;
        if a.physical_lane_chunk != b.physical_lane_chunk {
            a.physical_lane_chunk < b.physical_lane_chunk
        } else if a.sparse_apply_blocks != b.sparse_apply_blocks {
            a.sparse_apply_blocks < b.sparse_apply_blocks
        } else if a.sparse_apply_threads != b.sparse_apply_threads {
            a.sparse_apply_threads < b.sparse_apply_threads
        } else if a.fused_wavefront_blocks != b.fused_wavefront_blocks {
            a.fused_wavefront_blocks < b.fused_wavefront_blocks
        } else if a.fused_wavefront_threads != b.fused_wavefront_threads {
            a.fused_wavefront_threads < b.fused_wavefront_threads
        } else if self.observations != other.observations {
            self.observations < other.observations
        } else if self.work.bits != other.work.bits {
            self.work.bits < other.work.bits
        } else if self.seconds.bits != other.seconds.bits {
            self.seconds.bits < other.seconds.bits
        } else {
            self.throughput.bits <= other.throughput.bits
        }
    }
}

/// The fastest of the first `upto` scores, the last of several as fast.
pub open spec fn fastest(scores: Seq<PlanScore>, upto: int) -> PlanScore
    decreases upto,
{
    if upto <= 1 {
        scores[0]
    } else {
        let best = fastest(scores, upto - 1);
        if best.throughput.above(scores[upto - 1].throughput) {
            best
        } else {
            scores[upto - 1]
        }
    }
}

/// Where a plan's score stands; the length of the list where it has none.
pub open spec fn score_place(scores: Seq<PlanScore>, plan: CudaExecutionPlan) -> int
    decreases scores.len(),
{
    if scores.len() == 0 {
        0
    } else if scores[0].plan == plan {
        0
    } else {
        1 + score_place(scores.skip(1), plan)
    }
}

/// Work per second, and none where no time has passed.
pub open spec fn rate_of<T: Numerics>(ops: T, work: WideScalar, seconds: WideScalar) -> WideScalar {
    if !seconds.nan() && seconds.rank() <= 0 {
        WideScalar { bits: 0 }
    } else {
        ops.wide_quotient(work, seconds)
    }
}

/// Work per second, and none where no time has passed.
fn work_rate<T: Numerics>(ops: &T, work: WideScalar, seconds: WideScalar) -> (r: WideScalar)
    requires
        ops.ready(),
    ensures
        r == rate_of(*ops, work, seconds),
{
    let zero: WideScalar = WideScalar { bits: 0 };
    if seconds.is_nil() || zero.gt(seconds) {
        zero
    } else {
        ops.wide_divide(work, seconds)
    }
}

/// The score of a plan after one more measurement: its work and its time are added up, and the
/// throughput is their quotient.
pub open spec fn score_after<T: Numerics>(
    ops: T,
    scores: Seq<PlanScore>,
    plan: CudaExecutionPlan,
    work_units: u64,
    elapsed: WideScalar,
) -> PlanScore {
    let at = score_place(scores, plan);
    let none = WideScalar { bits: 0 };
    let work = ops.wide_total(
        if at < scores.len() {
            scores[at].work
        } else {
            none
        },
        ops.wide_number(work_units),
    );
    let seconds = ops.wide_total(
        if at < scores.len() {
            scores[at].seconds
        } else {
            none
        },
        elapsed,
    );
    PlanScore {
        plan,
        work,
        seconds,
        throughput: rate_of(ops, work, seconds),
        observations: if at < scores.len() {
            least(scores[at].observations + 1, u32::MAX as int) as u32
        } else {
            1
        },
    }
}

/// The scores after one more measurement of a plan.
pub open spec fn scored<T: Numerics>(
    ops: T,
    scores: Seq<PlanScore>,
    plan: CudaExecutionPlan,
    work_units: u64,
    elapsed: WideScalar,
) -> Seq<PlanScore> {
    let at = score_place(scores, plan);
    let score = score_after(ops, scores, plan, work_units, elapsed);
    if at < scores.len() {
        scores.update(at, score)
    } else {
        scores.push(score)
    }
}

/// A score's place is where the plan first stands.
proof fn lemma_score_place(scores: Seq<PlanScore>, plan: CudaExecutionPlan, at: int)
    requires
        0 <= at <= scores.len(),
        forall|k: int| 0 <= k < at ==> (#[trigger] scores[k]).plan != plan,
        at < scores.len() ==> scores[at].plan == plan,
    ensures
        score_place(scores, plan) == at,
    decreases scores.len(),
{
    if scores.len() > 0 && at > 0 {
        assert(scores[0].plan != plan);
        let rest = scores.skip(1);
        assert forall|k: int| 0 <= k < at - 1 implies (#[trigger] rest[k]).plan != plan by {
            assert(scores[k + 1].plan != plan);
        }
        lemma_score_place(rest, plan, at - 1);
    }
}

/// A profile that was stored when tuning had finished.
#[derive(Debug)]
pub struct CudaProfile {
    pub schema: u32,
    pub key: String,
    pub logical_lanes: usize,
    pub plan: CudaExecutionPlan,
    pub measured_work_per_second: WideScalar,
}

/// What a measurement led to.
#[derive(Debug, Clone, Copy, PartialEq, Eq, Structural)]
pub enum Observation {
    /// Nothing was done, so nothing was measured.
    Ignored,
    /// The plan is tuned already.
    AlreadyTuned,
    /// The candidate is to be measured again.
    Measuring,
    /// The next candidate is to be measured.
    NextCandidate,
    /// The fastest plan is found, and its work per second is to be stored.
    Tuned(WideScalar),
}

/// The search for the fastest plan.
#[derive(Debug)]
pub struct CudaExecutionTuner {
    pub key: String,
    pub limits: CudaTuningLimits,
    /// The number of lanes that is being tuned for; zero before the first batch.
    pub active_logical_lanes: usize,
    pub plan: CudaExecutionPlan,
    pub candidates: Vec<CudaExecutionPlan>,
    pub candidate_index: usize,
    pub scores: Vec<PlanScore>,
    pub tuning_complete: bool,
    pub batch_sequence: u64,
}

impl CudaExecutionTuner {
    /// The plan that is measured in the `i`-th place: the starting plan first, then the candidates
    /// after the first.
    pub open spec fn trial(self, i: int) -> CudaExecutionPlan {
        if i == 0 {
            starting_plan(self.limits, self.active_logical_lanes)
        } else {
            self.candidates[i]
        }
    }

    /// The candidates are those of the lanes.
    pub open spec fn drawn_up(self) -> bool {
        self.candidates@ == candidate_plans(
            self.limits,
            self.active_logical_lanes,
            starting_plan(self.limits, self.active_logical_lanes),
        )
    }

    /// The search is going on: the plans before the one at hand have been measured often enough,
    /// the one at hand not yet, and none after it.
    pub open spec fn searching(self) -> bool {
        &&& self.drawn_up()
        &&& self.plan == self.trial(self.candidate_index as int)
        &&& self.candidate_index <= self.scores.len() <= self.candidate_index + 1
        &&& forall|k: int|
            0 <= k < self.scores.len() ==> (#[trigger] self.scores@[k]).plan == self.trial(k)
                && self.scores@[k].observations == if k < self.candidate_index {
                OBSERVATIONS_PER_CANDIDATE
            } else {
                1
            }
    }

    /// The search came to its end: every plan has been measured often enough, and the fastest is
    /// kept.
    pub open spec fn searched(self) -> bool {
        &&& self.drawn_up()
        &&& self.scores.len() == self.candidates.len()
        &&& forall|k: int|
            0 <= k < self.scores.len() ==> (#[trigger] self.scores@[k]).plan == self.trial(k)
                && self.scores@[k].observations == OBSERVATIONS_PER_CANDIDATE
        &&& self.plan == fastest(ranked(self.scores@), self.scores.len() as int).plan
    }

    /// The plan was stored by an earlier search.
    pub open spec fn recalled(self) -> bool {
        self.candidates@ == seq![self.plan] && self.scores.len() == 0
    }

    /// The search has a candidate at hand, and its plan fits the lanes.
    pub open spec fn wf(self) -> bool {
        &&& self.limits.fused_blocks_256 <= u32::MAX - 3
        &&& self.active_logical_lanes > 0 ==> {
            &&& self.candidate_index < self.candidates.len()
            &&& 1 <= self.plan.physical_lane_chunk <= self.active_logical_lanes
            &&& self.plan.fused_wavefront_threads == 256
            &&& if self.tuning_complete {
                self.searched() || self.recalled()
            } else {
                self.searching()
            }
            &&& forall|i: int|
                0 <= i < self.candidates.len() ==> {
                    &&& 1 <= (#[trigger] self.candidates[i]).physical_lane_chunk
                    &&& self.candidates[i].physical_lane_chunk <= self.active_logical_lanes
                    &&& self.candidates[i].fused_wavefront_threads == 256
                }
            &&& forall|i: int|
                0 <= i < self.scores.len() ==> {
                    &&& 1 <= (#[trigger] self.scores[i]).plan.physical_lane_chunk
                    &&& self.scores[i].plan.physical_lane_chunk <= self.active_logical_lanes
                    &&& self.scores[i].plan.fused_wavefront_threads == 256
                }
        }
    }

    /// The lanes that are tuned for when a batch has `lanes`.
    pub open spec fn lanes_for(self, lanes: usize) -> usize {
        within(lanes as int, 1, most(self.limits.max_lanes as int, 1)) as usize
    }

    /// Whether a stored profile is one of this search for a number of lanes.
    pub open spec fn fits(self, profile: CudaProfile, lanes: usize) -> bool {
        profile.schema == PROFILE_SCHEMA && profile.key@ == self.key@ && profile.logical_lanes
            == lanes
    }

    /// `after` is this search turned to a number of lanes.
    pub open spec fn turned(
        self,
        after: CudaExecutionTuner,
        lanes: usize,
        profile: Option<CudaProfile>,
    ) -> bool {
        let l = self.lanes_for(lanes);
        if self.active_logical_lanes == l {
            after == self
        } else {
            &&& after.key == self.key
            &&& after.limits == self.limits
            &&& after.batch_sequence == self.batch_sequence
            &&& after.active_logical_lanes == l
            &&& after.candidate_index == 0
            &&& after.scores@.len() == 0
            &&& match profile {
                Some(p) if self.fits(p, l) => {
                    &&& after.plan == sanitized(p.plan, self.limits, l)
                    &&& after.candidates@ == seq![after.plan]
                    &&& after.tuning_complete
                },
                _ => {
                    &&& after.plan == starting_plan(self.limits, l)
                    &&& after.candidates@ == candidate_plans(self.limits, l, after.plan)
                    &&& !after.tuning_complete
                },
            }
        }
    }

    /// A search that has not seen a batch.
    pub fn new(key: String, limits: CudaTuningLimits) -> (r: Self)
        requires
            limits.fused_blocks_256 <= u32::MAX - 3,
        ensures
            r.wf(),
            r.key == key,
            r.limits == limits,
            r.active_logical_lanes == 0,
            r.plan == starting_plan(limits, most(limits.max_lanes as int, 1) as usize),
            r.candidates@.len() == 0,
            r.candidate_index == 0,
            r.scores@.len() == 0,
            !r.tuning_complete,
            r.batch_sequence == 0,
    {
        let lanes: usize = if limits.max_lanes < 1 {
            1
        } else {
            limits.max_lanes
        };
        let plan = heuristic_plan(limits, lanes);
        CudaExecutionTuner {
            key,
            limits,
            active_logical_lanes: 0,
            plan,
            candidates: Vec::new(),
            candidate_index: 0,
            scores: Vec::new(),
            tuning_complete: false,
            batch_sequence: 0,
        }
    }

    /// The lanes that are tuned for when a batch has `lanes`.
    pub fn tuned_lanes(&self, lanes: usize) -> (r: usize)
        ensures
            r == self.lanes_for(lanes),
    {
        let largest: usize = if self.limits.max_lanes < 1 {
            1
        } else {
            self.limits.max_lanes
        };
        if lanes < 1 {
            1
        } else if lanes > largest {
            largest
        } else {
            lanes
        }
    }

    /// Whether a stored profile is one of this search for a number of lanes.
    pub fn accepts_profile(&self, profile: &CudaProfile, lanes: usize) -> (r: bool)
        ensures
            r == self.fits(*profile, lanes),
    {
        profile.schema == PROFILE_SCHEMA && same_text(profile.key.as_str(), self.key.as_str())
            && profile.logical_lanes == lanes
    }

    /// Turns the search to a number of lanes. `profile` is what was stored for them.
    pub fn activate(&mut self, logical_lanes: usize, profile: Option<CudaProfile>)
        requires
            old(self).wf(),
        ensures
            final(self).wf(),
            old(self).turned(*final(self), logical_lanes, profile),
            final(self).active_logical_lanes == old(self).lanes_for(logical_lanes),
    {
        let lanes: usize = self.tuned_lanes(logical_lanes);
        if self.active_logical_lanes == lanes {
            return;
        }
        let plan = heuristic_plan(self.limits, lanes);
        let candidates = build_candidates(self.limits, lanes, plan);
        proof {
            law_candidates_fit(self.limits, lanes, plan);
        }
        let mut stored: Option<CudaExecutionPlan> = None;
        if let Some(p) = profile {
            if self.accepts_profile(&p, lanes) {
                stored = Some(sanitize_plan(p.plan, self.limits, lanes));
            }
        }
        self.active_logical_lanes = lanes;
        self.candidate_index = 0;
        self.scores = Vec::new();
        match stored {
            Some(known) => {
                self.plan = known;
                self.candidates = vec![known];
                self.tuning_complete = true;
                assert(self.candidates@ =~= seq![known]);
            },
            None => {
                self.plan = plan;
                self.candidates = candidates;
                self.tuning_complete = false;
            },
        }
    }

    /// The plan for a batch.
    pub fn plan_for(&mut self, logical_lanes: usize, profile: Option<CudaProfile>) -> (r:
        CudaExecutionPlan)
        requires
            old(self).wf(),
        ensures
            final(self).wf(),
            old(self).turned(*final(self), logical_lanes, profile),
            r == final(self).plan,
            1 <= r.physical_lane_chunk <= old(self).lanes_for(logical_lanes),
            r.fused_wavefront_threads == 256,
    {
        self.activate(logical_lanes, profile);
        self.plan
    }

    /// Whether the next batch is to be measured: always while tuning, then now and again.
    pub fn should_profile_batch(&mut self) -> (r: bool)
        requires
            old(self).wf(),
        ensures
            final(self).wf(),
            *final(self) == (CudaExecutionTuner {
                batch_sequence: crate::metrics::capped_sum(old(self).batch_sequence, 1),
                ..*old(self)
            }),
            r == (!old(self).tuning_complete || final(self).batch_sequence % 128 == 0),
    {
        self.batch_sequence = self.batch_sequence.saturating_add(1);
        !self.tuning_complete || self.batch_sequence % PROFILE_SAMPLE_INTERVAL == 0
    }

    /// What an activated search that is not tuned does with one measurement of its plan.
    pub open spec fn measured<T: Numerics>(
        self,
        ops: T,
        after: CudaExecutionTuner,
        work_units: u64,
        elapsed: WideScalar,
        r: Observation,
    ) -> bool {
        let scores = scored(ops, self.scores@, self.plan, work_units, elapsed);
        let score = score_after(ops, self.scores@, self.plan, work_units, elapsed);
        &&& after.key == self.key
        &&& after.limits == self.limits
        &&& after.batch_sequence == self.batch_sequence
        &&& after.active_logical_lanes == self.active_logical_lanes
        &&& after.candidates == self.candidates
        &&& after.scores@ == scores
        &&& if score.observations < OBSERVATIONS_PER_CANDIDATE {
            &&& after.plan == self.plan
            &&& after.candidate_index == self.candidate_index
            &&& !after.tuning_complete
            &&& r == Observation::Measuring
        } else if self.candidate_index + 1 < self.candidates.len() {
            &&& after.candidate_index == self.candidate_index + 1
            &&& after.plan == self.candidates[self.candidate_index + 1]
            &&& !after.tuning_complete
            &&& r == Observation::NextCandidate
        } else {
            let best = fastest(ranked(scores), scores.len() as int);
            &&& after.candidate_index == self.candidate_index
            &&& after.plan == best.plan
            &&& after.tuning_complete
            &&& r == Observation::Tuned(best.throughput)
        }
    }

    /// Takes one measurement in: the work of a batch, and the seconds that it took.
    pub fn observe_batch<T: Numerics>(
        &mut self,
        logical_lanes: usize,
        work_units: u64,
        elapsed: WideScalar,
        profile: Option<CudaProfile>,
        ops: &T,
    ) -> (r: Observation)
        requires
            ops.ready(),
            old(self).wf(),
        ensures
            final(self).wf(),
            logical_lanes == 0 || work_units == 0 || elapsed.nil() ==> r == Observation::Ignored
                && *final(self) == *old(self),
            !(logical_lanes == 0 || work_units == 0 || elapsed.nil()) ==> exists|
                mid: CudaExecutionTuner,
            | #[trigger]
                old(self).turned(mid, logical_lanes, profile) && if mid.tuning_complete {
                    r == Observation::AlreadyTuned && *final(self) == mid
                } else {
                    mid.measured(*ops, *final(self), work_units, elapsed, r)
                },
    {
        if logical_lanes == 0 || work_units == 0 || elapsed.is_nil() {
            return Observation::Ignored;
        }
        self.activate(logical_lanes, profile);
        let ghost mid = *self;
        assert(old(self).turned(mid, logical_lanes, profile));
        if self.tuning_complete {
            return Observation::AlreadyTuned;
        }
        let mut at: usize = 0;
        while at < self.scores.len() && self.scores[at].plan != self.plan
            invariant
                at <= self.scores.len(),
                *self == mid,
                forall|k: int| 0 <= k < at ==> (#[trigger] self.scores[k]).plan != self.plan,
            ensures
                at <= self.scores.len(),
                *self == mid,
                forall|k: int| 0 <= k < at ==> (#[trigger] self.scores[k]).plan != self.plan,
                at < self.scores.len() ==> self.scores[at as int].plan == self.plan,
            decreases self.scores.len() - at,
        {
            at = at + 1;
        }
        proof {
            lemma_score_place(self.scores@, self.plan, at as int);
            lemma_trials_distinct(mid);
            let here = mid.candidate_index as int;
            if at < here {
                assert(self.scores@[at as int].plan == mid.trial(at as int));
                assert(mid.trial(at as int) != mid.trial(here));
            } else if at > here {
                assert(self.scores@[here].plan == mid.trial(here));
            }
            assert(at == here);
        }
        let observations: u32 = if at < self.scores.len() {
            self.scores[at].observations.saturating_add(1)
        } else {
            1
        };
        let none: WideScalar = WideScalar { bits: 0 };
        let (earlier_work, earlier_seconds): (WideScalar, WideScalar) = if at < self.scores.len() {
            (self.scores[at].work, self.scores[at].seconds)
        } else {
            (none, none)
        };
        let work: WideScalar = ops.wide_add(earlier_work, ops.wide_count(work_units));
        let seconds: WideScalar = ops.wide_add(earlier_seconds, elapsed);
        let throughput: WideScalar = work_rate(ops, work, seconds);
        let score = PlanScore { plan: self.plan, work, seconds, throughput, observations };
        if at < self.scores.len() {
            self.scores.set(at, score);
        } else {
            self.scores.push(score);
        }
        assert(self.scores@ == scored(*ops, mid.scores@, mid.plan, work_units, elapsed));
        if observations < OBSERVATIONS_PER_CANDIDATE {
            return Observation::Measuring;
        }
        if self.candidate_index + 1 < self.candidates.len() {
            self.candidate_index = self.candidate_index + 1;
            self.plan = self.candidates[self.candidate_index];
            return Observation::NextCandidate;
        }
        let best = pick_fastest(&self.scores);
        proof {
            crate::sorting::lemma_ranked(self.scores@);
            lemma_fastest_is_listed(ranked(self.scores@), self.scores.len() as int);
            assert(ranked(self.scores@).contains(best));
            assert(self.scores@.contains(best));
            let k = choose|k: int| 0 <= k < self.scores.len() && self.scores@[k] == best;
            assert(self.scores[k].plan == best.plan);
        }
        self.plan = best.plan;
        self.tuning_complete = true;
        Observation::Tuned(best.throughput)
    }
}

/// No plan is measured in two places.
proof fn lemma_trials_distinct(t: CudaExecutionTuner)
    requires
        t.drawn_up(),
    ensures
        forall|i: int, j: int|
            0 <= i < j < t.candidates.len() ==> #[trigger] t.trial(i) != #[trigger] t.trial(j),
{
    let lanes = t.active_logical_lanes;
    let start = starting_plan(t.limits, lanes);
    law_candidates_fit(t.limits, lanes, start);
    assert forall|i: int, j: int| 0 <= i < j < t.candidates.len() implies #[trigger] t.trial(i)
        != #[trigger] t.trial(j) by {
        assert(t.candidates@[i] != t.candidates@[j]);
        if i == 0 {
            assert(sanitized(t.candidates@[j], t.limits, lanes) == t.candidates@[j]);
        }
    }
}

/// A place in the list, or the one after it.
proof fn lemma_score_place_fits(scores: Seq<PlanScore>, plan: CudaExecutionPlan)
    ensures
        0 <= score_place(scores, plan) <= scores.len(),
    decreases scores.len(),
{
    if scores.len() > 0 {
        lemma_score_place_fits(scores.skip(1), plan);
    }
}

/// Every score's throughput is the quotient of its work and its time.
pub open spec fn rated<T: Numerics>(ops: T, scores: Seq<PlanScore>) -> bool {
    forall|k: int|
        0 <= k < scores.len() ==> (#[trigger] scores[k]).throughput == rate_of(
            ops,
            scores[k].work,
            scores[k].seconds,
        )
}

/// A measurement leaves every score's throughput the quotient of its work and its time.
pub proof fn law_scores_are_rates<T: Numerics>(
    ops: T,
    t: CudaExecutionTuner,
    after: CudaExecutionTuner,
    work_units: u64,
    elapsed: WideScalar,
    r: Observation,
)
    requires
        rated(ops, t.scores@),
        t.measured(ops, after, work_units, elapsed, r),
    ensures
        rated(ops, after.scores@),
{
    lemma_score_place_fits(t.scores@, t.plan);
}

/// A search that came to its end keeps a plan that was measured, and none that was measured is
/// faster, where every measurement is a number. What was measured are the candidates, where the
/// starting plan is allowed.
pub proof fn law_the_kept_plan_is_unbeaten(t: CudaExecutionTuner)
    requires
        t.wf(),
        0 < t.active_logical_lanes,
        t.tuning_complete,
        !t.recalled(),
        forall|k: int| 0 <= k < t.scores.len() ==> !(#[trigger] t.scores@[k]).throughput.nan(),
    ensures
        t.scores.len() == t.candidates.len(),
        forall|i: int| 0 <= i < t.scores.len() ==> (#[trigger] t.scores@[i]).plan == t.trial(i),
        exists|b: int|
            0 <= b < t.scores.len() && (#[trigger] t.scores@[b]).plan == t.plan && forall|i: int|
                0 <= i < t.scores.len() ==> !(#[trigger] t.scores@[i]).throughput.above(
                    t.scores@[b].throughput,
                ),
        ({
            let start = starting_plan(t.limits, t.active_logical_lanes);
            sanitized(start, t.limits, t.active_logical_lanes) == start ==> {
                &&& forall|i: int|
                    0 <= i < t.candidates.len() ==> t.trial(i) == #[trigger] t.candidates@[i]
                &&& t.candidates@.contains(t.plan)
            }
        }),
{
    let n = t.scores.len() as int;
    let list = ranked(t.scores@);
    let lanes = t.active_logical_lanes;
    let start = starting_plan(t.limits, lanes);
    law_candidates_fit(t.limits, lanes, start);
    crate::sorting::lemma_ranked(t.scores@);
    lemma_fastest_is_listed(list, n);
    let best = fastest(list, n);
    assert(t.scores@.contains(best));
    let b = choose|b: int| 0 <= b < n && t.scores@[b] == best;
    assert forall|k: int| 0 <= k < list.len() implies !(#[trigger] list[k]).throughput.nan() by {
        assert(list.contains(list[k]));
        assert(t.scores@.contains(list[k]));
    }
    assert forall|i: int| 0 <= i < n implies !(#[trigger] t.scores@[i]).throughput.above(
        t.scores@[b].throughput,
    ) by {
        assert(t.scores@.contains(t.scores@[i]));
        assert(list.contains(t.scores@[i]));
        let k = choose|k: int| 0 <= k < list.len() && list[k] == t.scores@[i];
        law_tuned_plan_is_fastest(list, n, k);
    }
    assert(t.scores@[b].plan == t.plan);
    if sanitized(start, t.limits, lanes) == start {
        assert(t.trial(b) == t.candidates@[b]);
    }
}

/// A search that came to its end stays as it is while batches have as many lanes.
pub proof fn law_the_kept_plan_stays(
    t: CudaExecutionTuner,
    lanes: usize,
    profile: Option<CudaProfile>,
    after: CudaExecutionTuner,
)
    requires
        t.turned(after, lanes, profile),
        t.lanes_for(lanes) == t.active_logical_lanes,
    ensures
        after == t,
{
}

/// The fastest score is one of the scores.
proof fn lemma_fastest_is_listed(scores: Seq<PlanScore>, upto: int)
    requires
        1 <= upto <= scores.len(),
    ensures
        scores.contains(fastest(scores, upto)),
    decreases upto,
{
    if upto > 1 {
        lemma_fastest_is_listed(scores, upto - 1);
        assert(scores.contains(scores[upto - 1]));
    } else {
        assert(scores.contains(scores[0]));
    }
}

/// The fastest plan; of several as fast the last in the order of the plans.
fn pick_fastest(scores: &Vec<PlanScore>) -> (r: PlanScore)
    requires
        0 < scores.len(),
    ensures
        r == fastest(ranked(scores@), scores.len() as int),
{
    proof {
        crate::sorting::lemma_ranked(scores@);
    }
    let listed = sort_ranked(scores);
    let mut best = listed[0];
    let mut i: usize = 1;
    while i < listed.len()
        invariant
            1 <= i <= listed.len(),
            best == fastest(listed@, i as int),
        decreases listed.len() - i,
    {
        if !best.throughput.gt(listed[i].throughput) {
            best = listed[i];
        }
        i = i + 1;
    }
    best
}

/// Where every measurement is a number, none is faster than the fastest.
pub proof fn law_tuned_plan_is_fastest(scores: Seq<PlanScore>, upto: int, i: int)
    requires
        1 <= upto <= scores.len(),
        0 <= i < upto,
        forall|k: int| 0 <= k < scores.len() ==> !(#[trigger] scores[k]).throughput.nan(),
    ensures
        !fastest(scores, upto).throughput.nan(),
        !scores[i].throughput.above(fastest(scores, upto).throughput),
    decreases upto,
{
    if upto > 1 {
        law_tuned_plan_is_fastest(
            scores,
            upto - 1,
            if i < upto - 1 {
                i
            } else {
                0
            },
        );
        assert(!scores[upto - 1].throughput.nan());
    }
}

} // verus!
