//! What is measured of batches on a GPU, and where it is kept.

use crate::arithmetic::Numerics;
use crate::metrics::{capped_sum, WideScalar};
use crate::scalar::Scalar;
use crate::text::{decimal, with_number};
use vstd::prelude::*;
use vstd::string::StringExecFns;

verus! {

/// What was measured of one batch.
#[derive(Debug, Clone, Copy, PartialEq, Eq, Structural)]
pub struct CudaBatchTelemetry {
    pub h2d_ms: Scalar,
    pub compute_ms: Scalar,
    pub d2h_ms: Scalar,
    pub host_wait_ms: Scalar,
    pub h2d_bytes: u64,
    pub d2h_bytes: u64,
    pub theoretical_occupancy: Scalar,
    pub fused_launches: u64,
    pub direct_phase_launches: u64,
    pub graph_launches: u64,
}

/// A phase of a batch that the host can see.
#[derive(Debug, Clone, Copy, PartialEq, Eq, Structural)]
pub enum BatchPhase {
    HostToDevice,
    Compute,
    DeviceToHost,
    HostWait,
}

impl BatchPhase {
    /// The place of the phase in the order in which phases are compared.
    pub open spec fn place(self) -> int {
        match self {
            BatchPhase::HostToDevice => 0,
            BatchPhase::Compute => 1,
            BatchPhase::DeviceToHost => 2,
            BatchPhase::HostWait => 3,
        }
    }

    /// The name of the phase.
    pub fn name(self) -> (r: &'static str)
        ensures
            r@ == match self {
                BatchPhase::HostToDevice => "h2d"@,
                BatchPhase::Compute => "compute"@,
                BatchPhase::DeviceToHost => "d2h"@,
                BatchPhase::HostWait => "host_wait"@,
            },
    {
        match self {
            BatchPhase::HostToDevice => "h2d",
            BatchPhase::Compute => "compute",
            BatchPhase::DeviceToHost => "d2h",
            BatchPhase::HostWait => "host_wait",
        }
    }
}

impl CudaBatchTelemetry {
    /// How long a phase took.
    pub open spec fn time(self, phase: BatchPhase) -> Scalar {
        match phase {
            BatchPhase::HostToDevice => self.h2d_ms,
            BatchPhase::Compute => self.compute_ms,
            BatchPhase::DeviceToHost => self.d2h_ms,
            BatchPhase::HostWait => self.host_wait_ms,
        }
    }

    /// The phase that took longest; of phases that took equally long, the last.
    pub fn dominant_host_visible_bottleneck(&self) -> (r: BatchPhase)
        ensures
            forall|other: BatchPhase|
                #![trigger self.time(other)]
                self.time(other).total_rank() < self.time(r).total_rank() || (self.time(
                    other,
                ).total_rank() == self.time(r).total_rank() && other.place() <= r.place()),
    {
        let mut phase: BatchPhase = BatchPhase::HostToDevice;
        let mut longest: Scalar = self.h2d_ms;
        if longest.total_order() <= self.compute_ms.total_order() {
            phase = BatchPhase::Compute;
            longest = self.compute_ms;
        }
        if longest.total_order() <= self.d2h_ms.total_order() {
            phase = BatchPhase::DeviceToHost;
            longest = self.d2h_ms;
        }
        if longest.total_order() <= self.host_wait_ms.total_order() {
            phase = BatchPhase::HostWait;
        }
        phase
    }
}

/// The rate of a transfer; zero where nothing was moved or no time passed. `rate` divides bytes
/// by milliseconds.
pub fn gib_per_second<F: Fn((u64, Scalar)) -> WideScalar>(
    bytes: u64,
    milliseconds: Scalar,
    rate: &F,
) -> (r: WideScalar)
    requires
        rate.requires(((bytes, milliseconds),)),
    ensures
        if bytes == 0 || milliseconds.at_most(Scalar { bits: 0 }) {
            r == (WideScalar { bits: 0 })
        } else {
            rate.ensures(((bytes, milliseconds),), r)
        },
{
    if bytes == 0 || milliseconds.le(Scalar::zero()) {
        WideScalar { bits: 0 }
    } else {
        rate((bytes, milliseconds))
    }
}

/// What was measured of several batches.
#[derive(Debug, Clone, Copy, PartialEq, Eq, Structural)]
pub struct TelemetryAggregate {
    pub samples: u32,
    pub h2d_ms: WideScalar,
    pub compute_ms: WideScalar,
    pub d2h_ms: WideScalar,
    pub host_wait_ms: WideScalar,
    pub h2d_bytes: u64,
    pub d2h_bytes: u64,
    pub occupancy_sum: WideScalar,
    pub fused_launches: u64,
    pub direct_phase_launches: u64,
    pub graph_launches: u64,
}

impl TelemetryAggregate {
    /// Nothing was measured.
    pub open spec fn empty() -> Self {
        let nothing = WideScalar { bits: 0 };
        TelemetryAggregate {
            samples: 0,
            h2d_ms: nothing,
            compute_ms: nothing,
            d2h_ms: nothing,
            host_wait_ms: nothing,
            h2d_bytes: 0,
            d2h_bytes: 0,
            occupancy_sum: nothing,
            fused_launches: 0,
            direct_phase_launches: 0,
            graph_launches: 0,
        }
    }

    /// The totals with one more batch.
    pub open spec fn with<T: Numerics>(self, ops: T, sample: CudaBatchTelemetry) -> Self {
        TelemetryAggregate {
            samples: if self.samples == u32::MAX {
                u32::MAX
            } else {
                (self.samples + 1) as u32
            },
            h2d_ms: ops.wide_sum(self.h2d_ms, sample.h2d_ms),
            compute_ms: ops.wide_sum(self.compute_ms, sample.compute_ms),
            d2h_ms: ops.wide_sum(self.d2h_ms, sample.d2h_ms),
            host_wait_ms: ops.wide_sum(self.host_wait_ms, sample.host_wait_ms),
            h2d_bytes: capped_sum(self.h2d_bytes, sample.h2d_bytes),
            d2h_bytes: capped_sum(self.d2h_bytes, sample.d2h_bytes),
            occupancy_sum: ops.wide_sum(self.occupancy_sum, sample.theoretical_occupancy),
            fused_launches: capped_sum(self.fused_launches, sample.fused_launches),
            direct_phase_launches: capped_sum(
                self.direct_phase_launches,
                sample.direct_phase_launches,
            ),
            graph_launches: capped_sum(self.graph_launches, sample.graph_launches),
        }
    }

    /// Totals of no batch.
    pub fn new() -> (r: Self)
        ensures
            r == Self::empty(),
    {
        let nothing: WideScalar = WideScalar { bits: 0 };
        TelemetryAggregate {
            samples: 0,
            h2d_ms: nothing,
            compute_ms: nothing,
            d2h_ms: nothing,
            host_wait_ms: nothing,
            h2d_bytes: 0,
            d2h_bytes: 0,
            occupancy_sum: nothing,
            fused_launches: 0,
            direct_phase_launches: 0,
            graph_launches: 0,
        }
    }

    /// Adds a batch to the totals.
    pub fn add<T: Numerics>(&mut self, ops: &T, sample: &CudaBatchTelemetry)
        requires
            ops.ready(),
        ensures
            *final(self) == old(self).with(*ops, *sample),
    {
        self.samples = self.samples.saturating_add(1);
        self.h2d_ms = ops.wide_plus(self.h2d_ms, sample.h2d_ms);
        self.compute_ms = ops.wide_plus(self.compute_ms, sample.compute_ms);
        self.d2h_ms = ops.wide_plus(self.d2h_ms, sample.d2h_ms);
        self.host_wait_ms = ops.wide_plus(self.host_wait_ms, sample.host_wait_ms);
        self.h2d_bytes = self.h2d_bytes.saturating_add(sample.h2d_bytes);
        self.d2h_bytes = self.d2h_bytes.saturating_add(sample.d2h_bytes);
        self.occupancy_sum = ops.wide_plus(self.occupancy_sum, sample.theoretical_occupancy);
        self.fused_launches = self.fused_launches.saturating_add(sample.fused_launches);
        self.direct_phase_launches =
            self.direct_phase_launches.saturating_add(sample.direct_phase_launches);
        self.graph_launches = self.graph_launches.saturating_add(sample.graph_launches);
    }

    /// The mean occupancy. `over` divides a sum by a count.
    pub fn mean_occupancy<F: Fn((WideScalar, u32)) -> WideScalar>(&self, over: &F) -> (r:
        WideScalar)
        requires
            over.requires(((self.occupancy_sum, self.divisor()),)),
        ensures
            over.ensures(((self.occupancy_sum, self.divisor()),), r),
    {
        let count: u32 = if self.samples == 0 {
            1
        } else {
            self.samples
        };
        over((self.occupancy_sum, count))
    }

    /// The number of batches, one at least.
    pub open spec fn divisor(self) -> u32 {
        if self.samples == 0 {
            1
        } else {
            self.samples
        }
    }
}

/// The sum of the counters from the second one up to `upto`, held at the largest number.
pub open spec fn cycles_upto(counters: Seq<u64>, upto: int) -> u64
    decreases upto,
{
    if upto <= 1 {
        0
    } else {
        capped_sum(cycles_upto(counters, upto - 1), counters[upto - 1])
    }
}

/// What a kernel counted of its phases.
#[derive(Debug, Clone, Copy, PartialEq, Eq, Structural)]
pub struct ProfileSummary {
    /// How often the kernel was sampled.
    pub samples: u64,
    /// The cycles of all phases.
    pub total_cycles: u64,
}

/// Sums up the counters of a kernel: the first counts the samples, the others the cycles of the
/// phases.
pub fn summarize_profile(counters: &Vec<u64>, count: usize) -> (r: ProfileSummary)
    requires
        1 <= count <= counters.len(),
    ensures
        r.samples == counters[0],
        r.total_cycles == cycles_upto(counters@, count as int),
{
    let mut total: u64 = 0;
    let mut i: usize = 1;
    while i < count
        invariant
            1 <= i <= count <= counters.len(),
            total == cycles_upto(counters@, i as int),
        decreases count - i,
    {
        total = total.saturating_add(counters[i]);
        i = i + 1;
    }
    ProfileSummary { samples: counters[0], total_cycles: total }
}

impl ProfileSummary {
    /// The share of a phase in all cycles, in percent; zero where there are none. `percent`
    /// divides the two.
    pub fn share<F: Fn((u64, u64)) -> WideScalar>(&self, cycles: u64, percent: &F) -> (r: WideScalar)
        requires
            percent.requires(((cycles, self.total_cycles),)),
        ensures
            if self.total_cycles == 0 {
                r == (WideScalar { bits: 0 })
            } else {
                percent.ensures(((cycles, self.total_cycles),), r)
            },
    {
        if self.total_cycles == 0 {
            WideScalar { bits: 0 }
        } else {
            percent((cycles, self.total_cycles))
        }
    }

    /// The cycles of one sample; zero where there is none. `ratio` divides the two.
    pub fn cycles_per_sample<F: Fn((u64, u64)) -> WideScalar>(&self, ratio: &F) -> (r: WideScalar)
        requires
            ratio.requires(((self.total_cycles, self.samples),)),
        ensures
            if self.samples == 0 {
                r == (WideScalar { bits: 0 })
            } else {
                ratio.ensures(((self.total_cycles, self.samples),), r)
            },
    {
        if self.samples == 0 {
            WideScalar { bits: 0 }
        } else {
            ratio((self.total_cycles, self.samples))
        }
    }
}

/// Why there is no profile of the phases.
pub open spec fn skip_text(geometry_skipped_samples: u64, fused_launches: u64) -> Seq<char> {
    if geometry_skipped_samples > 0 {
        "profiled_kernel_cannot_match_production_grid"@
    } else if fused_launches == 0 {
        "no_fused_wavefront_launches"@
    } else {
        "no_sampled_fused_wavefront_launches"@
    }
}

/// Why there is no profile of the phases: `None` where there is one.
pub fn skip_reason(samples: u64, geometry_skipped_samples: u64, fused_launches: u64) -> (r: Option<
    &'static str,
>)
    ensures
        samples != 0 ==> r is None,
        samples == 0 ==> (r matches Some(text) && text@ == skip_text(
            geometry_skipped_samples,
            fused_launches,
        )),
{
    if samples != 0 {
        None
    } else if geometry_skipped_samples > 0 {
        Some("profiled_kernel_cannot_match_production_grid")
    } else if fused_launches == 0 {
        Some("no_fused_wavefront_launches")
    } else {
        Some("no_sampled_fused_wavefront_launches")
    }
}

/// The occupancy that a plan promises; zero where it launches no cooperative blocks. `occupancy`
/// computes it from the blocks, the threads of a block, the multiprocessors and the threads of
/// each.
pub fn estimated_fused_occupancy<F: Fn((u32, u32, u32, u32)) -> Scalar>(
    cooperative: bool,
    blocks: u32,
    threads: u32,
    multiprocessors: u32,
    threads_per_sm: u32,
    occupancy: &F,
) -> (r: Scalar)
    requires
        occupancy.requires(((blocks, threads, multiprocessors, threads_per_sm),)),
    ensures
        if !cooperative || blocks == 0 || multiprocessors == 0 || threads_per_sm == 0 {
            r == (Scalar { bits: 0 })
        } else {
            occupancy.ensures(((blocks, threads, multiprocessors, threads_per_sm),), r)
        },
{
    if !cooperative || blocks == 0 || multiprocessors == 0 || threads_per_sm == 0 {
        Scalar::zero()
    } else {
        occupancy((blocks, threads, multiprocessors, threads_per_sm))
    }
}

/// The name of the file that keeps the plan for a number of lanes.
pub fn profile_file(key: &str, lanes: usize) -> (r: String)
    ensures
        r@ == key@ + "-lanes"@ + decimal(lanes as nat) + ".toml"@,
{
    let mut name: String = key.to_owned();
    let tail: String = with_number("-lanes", lanes as u64, ".toml");
    name.append(tail.as_str());
    assert(name@ =~= key@ + "-lanes"@ + decimal(lanes as nat) + ".toml"@);
    name
}

/// The directory below which compiled kernels and plans are kept.
#[derive(Debug, Clone, Copy, PartialEq, Eq, Structural)]
pub enum CacheBase {
    /// The one that is set for this library.
    Own,
    /// The one that is set for all caches.
    Shared,
    /// The one in the home directory.
    Home,
    /// None: nothing is kept.
    Nowhere,
}

/// Chooses the directory below which things are kept: the first that is set and not empty.
pub fn cache_base(own: bool, shared: bool, home: bool) -> (r: CacheBase)
    ensures
        r == (if own {
            CacheBase::Own
        } else if shared {
            CacheBase::Shared
        } else if home {
            CacheBase::Home
        } else {
            CacheBase::Nowhere
        }),
{
    if own {
        CacheBase::Own
    } else if shared {
        CacheBase::Shared
    } else if home {
        CacheBase::Home
    } else {
        CacheBase::Nowhere
    }
}

} // verus!
