//! Counters of a training run.

use vstd::prelude::*;

verus! {

/// The bits of double-precision infinity.
pub const WIDE_INFINITY_BITS: u64 = 0x7ff0_0000_0000_0000;

/// The sign bit of a double-precision number.
pub const WIDE_SIGN_BIT: u64 = 0x8000_0000_0000_0000;

/// A double-precision number, held as its bit pattern.
#[derive(Debug, Clone, Copy, PartialEq, Eq, Structural)]
pub struct WideScalar {
    pub bits: u64,
}

impl WideScalar {
    /// A number that is neither infinite nor NaN.
    pub open spec fn finite(self) -> bool {
        self.bits < WIDE_INFINITY_BITS || WIDE_SIGN_BIT <= self.bits < WIDE_SIGN_BIT
            + WIDE_INFINITY_BITS
    }

    /// Whether the number is neither infinite nor NaN.
    pub fn is_finite(self) -> (r: bool)
        ensures
            r == self.finite(),
    {
        self.bits < WIDE_INFINITY_BITS || (self.bits >= WIDE_SIGN_BIT && self.bits - WIDE_SIGN_BIT
            < WIDE_INFINITY_BITS)
    }
}

impl WideScalar {
    /// Not a number.
    pub open spec fn nan(self) -> bool {
        WIDE_INFINITY_BITS < self.bits < WIDE_SIGN_BIT || WIDE_SIGN_BIT + WIDE_INFINITY_BITS
            < self.bits
    }

    /// An integer that orders the numbers as their values do; both zeros have rank zero.
    pub open spec fn rank(self) -> int {
        if self.bits < WIDE_SIGN_BIT {
            self.bits as int
        } else {
            WIDE_SIGN_BIT - self.bits
        }
    }

    /// `self > other` on the values; false where one is NaN.
    pub open spec fn above(self, other: WideScalar) -> bool {
        !self.nan() && !other.nan() && self.rank() > other.rank()
    }

    /// The number is zero, with either sign.
    pub open spec fn nil(self) -> bool {
        self.rank() == 0
    }

    /// Whether the number is zero.
    pub fn is_nil(self) -> (r: bool)
        ensures
            r == self.nil(),
    {
        self.bits == 0 || self.bits == WIDE_SIGN_BIT
    }

    fn is_nan(self) -> (r: bool)
        ensures
            r == self.nan(),
    {
        (WIDE_INFINITY_BITS < self.bits && self.bits < WIDE_SIGN_BIT) || (self.bits
            >= WIDE_SIGN_BIT && self.bits - WIDE_SIGN_BIT > WIDE_INFINITY_BITS)
    }

    fn rank_value(self) -> (r: i128)
        ensures
            r == self.rank(),
    {
        if self.bits < WIDE_SIGN_BIT {
            self.bits as i128
        } else {
            0x8000_0000_0000_0000i128 - self.bits as i128
        }
    }

    /// `self > other` on the values.
    pub fn gt(self, other: WideScalar) -> (r: bool)
        ensures
            r == self.above(other),
    {
        !self.is_nan() && !other.is_nan() && self.rank_value() > other.rank_value()
    }
}

/// What a model has been trained on, and how active it was.
#[derive(Debug, Clone, Copy, PartialEq, Eq, Structural)]
pub struct TrainingStatistics {
    pub processed_bytes: u64,
    pub processed_stories: u64,
    pub training_loss_sum: WideScalar,
    pub training_targets: u64,
    pub active_neurons_sum: u64,
    pub active_neurons_peak: u64,
    pub synaptic_events: u64,
    pub numerical_rejections: u64,
    /// Number of non-frozen runtime steps represented by the persistent activity totals.
    pub persistent_ticks: u64,
}

/// The sum of two counters, held at the largest value.
pub open spec fn capped_sum(a: u64, b: u64) -> u64 {
    if a + b > u64::MAX {
        u64::MAX
    } else {
        (a + b) as u64
    }
}

/// The difference of two counters, held at zero.
pub open spec fn floored_difference(a: u64, b: u64) -> u64 {
    if a < b {
        0
    } else {
        (a - b) as u64
    }
}

/// The larger of two counters.
pub open spec fn larger(a: u64, b: u64) -> u64 {
    if a < b {
        b
    } else {
        a
    }
}

impl Default for TrainingStatistics {
    fn default() -> (r: Self)
        ensures
            r == TrainingStatistics::empty(),
    {
        TrainingStatistics {
            processed_bytes: 0,
            processed_stories: 0,
            training_loss_sum: WideScalar { bits: 0 },
            training_targets: 0,
            active_neurons_sum: 0,
            active_neurons_peak: 0,
            synaptic_events: 0,
            numerical_rejections: 0,
            persistent_ticks: 0,
        }
    }
}

impl TrainingStatistics {
    /// No training at all.
    pub open spec fn empty() -> Self {
        TrainingStatistics {
            processed_bytes: 0,
            processed_stories: 0,
            training_loss_sum: WideScalar { bits: 0 },
            training_targets: 0,
            active_neurons_sum: 0,
            active_neurons_peak: 0,
            synaptic_events: 0,
            numerical_rejections: 0,
            persistent_ticks: 0,
        }
    }

    /// The totals after one more learning step: a byte counts as processed, a target
    /// brings the new loss sum, and the activity enters sum and peak.
    pub open spec fn after_step(
        self,
        symbol: u32,
        loss_sum: Option<WideScalar>,
        active_neurons: usize,
        emitted_events: usize,
    ) -> Self {
        TrainingStatistics {
            processed_bytes: if symbol < 256 {
                capped_sum(self.processed_bytes, 1)
            } else {
                self.processed_bytes
            },
            training_loss_sum: match loss_sum {
                Some(sum) => sum,
                None => self.training_loss_sum,
            },
            training_targets: if loss_sum is Some {
                capped_sum(self.training_targets, 1)
            } else {
                self.training_targets
            },
            active_neurons_sum: capped_sum(self.active_neurons_sum, active_neurons as u64),
            active_neurons_peak: larger(self.active_neurons_peak, active_neurons as u64),
            synaptic_events: capped_sum(self.synaptic_events, emitted_events as u64),
            persistent_ticks: capped_sum(self.persistent_ticks, 1),
            ..self
        }
    }

    /// Records one learning step. `loss_sum` is the loss sum with the step's loss added,
    /// where the step had a target.
    pub fn record_step(
        &mut self,
        symbol: u32,
        loss_sum: Option<WideScalar>,
        active_neurons: usize,
        emitted_events: usize,
    )
        ensures
            *final(self) == old(self).after_step(symbol, loss_sum, active_neurons, emitted_events),
    {
        if symbol < 256 {
            self.processed_bytes = self.processed_bytes.saturating_add(1);
        }
        if let Some(sum) = loss_sum {
            self.training_loss_sum = sum;
            self.training_targets = self.training_targets.saturating_add(1);
        }
        let active: u64 = active_neurons as u64;
        self.active_neurons_sum = self.active_neurons_sum.saturating_add(active);
        if self.active_neurons_peak < active {
            self.active_neurons_peak = active;
        }
        self.synaptic_events = self.synaptic_events.saturating_add(emitted_events as u64);
        self.persistent_ticks = self.persistent_ticks.saturating_add(1);
    }

    /// Records one finished document.
    pub fn record_story(&mut self)
        ensures
            *final(self) == (TrainingStatistics {
                processed_stories: capped_sum(old(self).processed_stories, 1),
                ..*old(self)
            }),
    {
        self.processed_stories = self.processed_stories.saturating_add(1);
    }

    /// Records one update that was refused because a number was not finite.
    pub fn record_rejection(&mut self)
        ensures
            *final(self) == (TrainingStatistics {
                numerical_rejections: capped_sum(old(self).numerical_rejections, 1),
                ..*old(self)
            }),
    {
        self.numerical_rejections = self.numerical_rejections.saturating_add(1);
    }
}

impl TrainingStatistics {
    /// The mean loss of the targets; zero where there were none. `over` divides a sum by a count.
    pub fn mean_training_loss<F: Fn((WideScalar, u64)) -> WideScalar>(&self, over: &F) -> (r:
        WideScalar)
        requires
            over.requires(((self.training_loss_sum, self.training_targets),)),
        ensures
            self.training_targets == 0 ==> r == (WideScalar { bits: 0 }),
            self.training_targets != 0 ==> over.ensures(
                ((self.training_loss_sum, self.training_targets),),
                r,
            ),
    {
        if self.training_targets == 0 {
            WideScalar { bits: 0 }
        } else {
            over((self.training_loss_sum, self.training_targets))
        }
    }

    /// The mean loss in bits. `over` divides a sum by a count, `in_bits` turns natural units into
    /// bits.
    pub fn bits_per_byte<
        F: Fn((WideScalar, u64)) -> WideScalar,
        G: Fn(WideScalar) -> WideScalar,
    >(&self, over: &F, in_bits: &G) -> (r: WideScalar)
        requires
            over.requires(((self.training_loss_sum, self.training_targets),)),
            forall|x: WideScalar| #[trigger] in_bits.requires((x,)),
        ensures
            self.training_targets == 0 ==> in_bits.ensures((WideScalar { bits: 0 },), r),
            self.training_targets != 0 ==> exists|mean: WideScalar|
                over.ensures(((self.training_loss_sum, self.training_targets),), mean)
                    && #[trigger] in_bits.ensures((mean,), r),
    {
        let mean: WideScalar = self.mean_training_loss(over);
        in_bits(mean)
    }

    /// The mean number of active neurons of a learning step; zero where there was none. `ratio`
    /// divides two counts.
    pub fn mean_active_neurons_per_tick<F: Fn((u64, u64)) -> WideScalar>(&self, ratio: &F) -> (r:
        WideScalar)
        requires
            ratio.requires(((self.active_neurons_sum, self.persistent_ticks),)),
        ensures
            self.persistent_ticks == 0 ==> r == (WideScalar { bits: 0 }),
            self.persistent_ticks != 0 ==> ratio.ensures(
                ((self.active_neurons_sum, self.persistent_ticks),),
                r,
            ),
    {
        if self.persistent_ticks == 0 {
            WideScalar { bits: 0 }
        } else {
            ratio((self.active_neurons_sum, self.persistent_ticks))
        }
    }
}

/// What one step of the runtime did.
#[derive(Debug, Clone, Copy)]
pub struct StepMetrics {
    pub loss: Option<crate::scalar::Scalar>,
    pub predicted_symbol: u32,
    pub active_neurons: usize,
    pub emitted_events: usize,
    /// Neurons with positive activation before block-local and global competition.
    pub suprathreshold_neurons: usize,
    /// Candidates remaining after the block-local safety cap and before the global safety cap.
    pub block_selected_neurons: usize,
    /// Candidates removed by the global safety cap on this tick.
    pub global_cap_clipped_neurons: usize,
    /// Smoothed runtime-only activation cutoff retained for observability only.
    pub population_inhibition: crate::scalar::Scalar,
    /// Number of learned temporal-context rows used for this prediction.
    pub context_cells: usize,
    /// Number of fixed-capacity context slots probed while resolving those rows.
    pub context_probes: usize,
    /// Whether latent temporal context was applied on this step.
    pub context_applied: bool,
    /// Reduction in target loss contributed by temporal context over neural output alone.
    pub context_loss_gain: crate::scalar::Scalar,
    /// Actual multiply-add count for neural output and latent context projection.
    pub output_madds: usize,
    pub eligible_recurrent_synapses: usize,
    pub eligible_input_synapses: usize,
    pub mean_abs_eligibility: crate::scalar::Scalar,
}

impl StepMetrics {
    /// A step of which nothing is known.
    pub open spec fn blank() -> Self {
        let zero = crate::scalar::Scalar { bits: 0 };
        StepMetrics {
            loss: None,
            predicted_symbol: 0,
            active_neurons: 0,
            emitted_events: 0,
            suprathreshold_neurons: 0,
            block_selected_neurons: 0,
            global_cap_clipped_neurons: 0,
            population_inhibition: zero,
            context_cells: 0,
            context_probes: 0,
            context_applied: false,
            context_loss_gain: zero,
            output_madds: 0,
            eligible_recurrent_synapses: 0,
            eligible_input_synapses: 0,
            mean_abs_eligibility: zero,
        }
    }
}

impl Default for StepMetrics {
    fn default() -> (r: Self)
        ensures
            r == StepMetrics::blank(),
    {
        StepMetrics {
            loss: None,
            predicted_symbol: 0,
            active_neurons: 0,
            emitted_events: 0,
            suprathreshold_neurons: 0,
            block_selected_neurons: 0,
            global_cap_clipped_neurons: 0,
            population_inhibition: crate::scalar::Scalar::zero(),
            context_cells: 0,
            context_probes: 0,
            context_applied: false,
            context_loss_gain: crate::scalar::Scalar::zero(),
            output_madds: 0,
            eligible_recurrent_synapses: 0,
            eligible_input_synapses: 0,
            mean_abs_eligibility: crate::scalar::Scalar::zero(),
        }
    }
}

/// A step never lowers a counter.
pub proof fn law_step_never_lowers_counters(
    s: TrainingStatistics,
    symbol: u32,
    loss_sum: Option<WideScalar>,
    active: usize,
    events: usize,
)
    ensures
        ({
            let t = s.after_step(symbol, loss_sum, active, events);
            &&& s.processed_bytes <= t.processed_bytes
            &&& s.training_targets <= t.training_targets
            &&& s.active_neurons_sum <= t.active_neurons_sum
            &&& s.active_neurons_peak <= t.active_neurons_peak
            &&& active as u64 <= t.active_neurons_peak
            &&& s.synaptic_events <= t.synaptic_events
            &&& s.persistent_ticks <= t.persistent_ticks
            &&& s.processed_stories == t.processed_stories
            &&& s.numerical_rejections == t.numerical_rejections
        }),
{
}

} // verus!
