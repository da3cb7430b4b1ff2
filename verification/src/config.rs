//! The configuration of a model and its training, and the rules it must keep.

use crate::arithmetic::Numerics;
use crate::error::{fails, LeoError, LeoErrorKind, LeoResult};
use crate::scalar::{Scalar, ONE_BITS, SIXTEEN_BITS};
use crate::symbols::Alphabet;
use crate::text::{trim, trimmed};
use vstd::prelude::*;
use vstd::string::StringExecFns;

verus! {

/// Shape and seed of the network.
#[derive(Debug, Clone)]
pub struct ModelConfig {
    pub name: String,
    pub seed: u64,
    pub neuron_count: usize,
    pub block_count: usize,
    pub neurons_per_block: usize,
    pub branches_per_neuron: usize,
    pub excitatory_fraction: Scalar,
    pub synapses_per_neuron: usize,
    pub input_fanout: usize,
    pub max_active_per_block: usize,
    pub max_active_global: usize,
}

/// Decay and gain of the neuron state.
#[derive(Debug, Clone, Copy)]
pub struct DynamicsConfig {
    pub branch_decay: Scalar,
    pub membrane_decay: Scalar,
    pub fatigue_decay: Scalar,
    pub fatigue_gain: Scalar,
    pub refractory_ticks: u64,
    pub target_activity: Scalar,
    pub threshold_homeostasis_rate: Scalar,
    pub population_inhibition_rate: Scalar,
    pub population_inhibition_max: Scalar,
    pub adaptation_fast_decay: Scalar,
    pub adaptation_medium_decay: Scalar,
    pub adaptation_slow_decay: Scalar,
    pub adaptation_fast_gain: Scalar,
    pub adaptation_medium_gain: Scalar,
    pub adaptation_slow_gain: Scalar,
    pub membrane_reset_fraction: Scalar,
}

/// Rates and bounds of learning.
#[derive(Debug, Clone, Copy)]
pub struct LearningConfig {
    pub output_learning_rate: Scalar,
    pub recurrent_learning_rate: Scalar,
    pub inhibitory_learning_rate: Scalar,
    pub eligibility_decay: Scalar,
    pub eligibility_epsilon: Scalar,
    pub surrogate_width: Scalar,
    pub surrogate_gain: Scalar,
    pub max_update: Scalar,
    pub weight_min: Scalar,
    pub weight_max: Scalar,
    pub provisional_strength: Scalar,
    pub training_strength: Scalar,
    pub verified_strength: Scalar,
    pub end_document_weight: Scalar,
}

/// Size and rates of the temporal context memory.
#[derive(Debug, Clone, Copy)]
pub struct ContextConfig {
    pub max_order: usize,
    pub embedding_dim: usize,
    pub slots_per_order: usize,
    pub probe_limit: usize,
    pub learning_rate: Scalar,
    pub confidence_observations: u32,
    pub dropout_rate: Scalar,
}

/// Limits of replay.
#[derive(Debug, Clone, Copy)]
pub struct ReplayConfig {
    pub fraction: Scalar,
    pub segment_bytes: usize,
    pub teaching_replays: usize,
    pub max_verified_replays: usize,
}

/// Limits of a training run.
#[derive(Debug, Clone, Copy)]
pub struct TrainingConfig {
    pub max_dataset_passes: usize,
    pub validate_every_bytes: u64,
    pub checkpoint_every_bytes: u64,
    pub early_stop_checks: usize,
    pub minimum_relative_improvement: Scalar,
}

/// The whole configuration.
#[derive(Debug, Clone)]
pub struct Config {
    pub model: ModelConfig,
    pub dynamics: DynamicsConfig,
    pub learning: LearningConfig,
    pub context: ContextConfig,
    pub replay: ReplayConfig,
    pub training: TrainingConfig,
}

impl DynamicsConfig {
    /// The decays of fast, medium and slow adaptation.
    pub fn adaptation_decays(&self) -> (r: [Scalar; 3])
        ensures
            r@ == seq![
                self.adaptation_fast_decay,
                self.adaptation_medium_decay,
                self.adaptation_slow_decay,
            ],
    {
        let r = [
            self.adaptation_fast_decay,
            self.adaptation_medium_decay,
            self.adaptation_slow_decay,
        ];
        assert(r@ =~= seq![
            self.adaptation_fast_decay,
            self.adaptation_medium_decay,
            self.adaptation_slow_decay,
        ]);
        r
    }

    /// The gains of fast, medium and slow adaptation.
    pub fn adaptation_gains(&self) -> (r: [Scalar; 3])
        ensures
            r@ == seq![
                self.adaptation_fast_gain,
                self.adaptation_medium_gain,
                self.adaptation_slow_gain,
            ],
    {
        let r = [self.adaptation_fast_gain, self.adaptation_medium_gain, self.adaptation_slow_gain];
        assert(r@ =~= seq![
            self.adaptation_fast_gain,
            self.adaptation_medium_gain,
            self.adaptation_slow_gain,
        ]);
        r
    }
}

/// Finite and strictly between 0 and 1.
pub open spec fn in_open_unit(x: Scalar) -> bool {
    x.finite() && 0 < x.rank() < ONE_BITS
}

/// Finite and in `[0, 1)`.
pub open spec fn in_half_open_unit(x: Scalar) -> bool {
    x.finite() && 0 <= x.rank() < ONE_BITS
}

/// Finite and in `(0, 1]`.
pub open spec fn in_upper_unit(x: Scalar) -> bool {
    x.finite() && 0 < x.rank() <= ONE_BITS
}

/// Finite and above zero.
pub open spec fn is_positive(x: Scalar) -> bool {
    x.finite() && 0 < x.rank()
}

fn open_unit(x: Scalar) -> (r: bool)
    ensures
        r == in_open_unit(x),
{
    x.is_finite() && Scalar::zero().lt(x) && x.lt(Scalar::one())
}

fn half_open_unit(x: Scalar) -> (r: bool)
    ensures
        r == in_half_open_unit(x),
{
    x.is_finite() && Scalar::zero().le(x) && x.lt(Scalar::one())
}

fn upper_unit(x: Scalar) -> (r: bool)
    ensures
        r == in_upper_unit(x),
{
    x.is_finite() && Scalar::zero().lt(x) && x.le(Scalar::one())
}

fn positive(x: Scalar) -> (r: bool)
    ensures
        r == is_positive(x),
{
    x.is_finite() && Scalar::zero().lt(x)
}

/// The text of an optional message.
pub open spec fn message_of(m: Option<String>) -> Option<Seq<char>> {
    match m {
        Some(s) => Some(s@),
        None => None,
    }
}

/// The message for a decay that is not finite or not in its range.
pub open spec fn decay_message(name: Seq<char>) -> Seq<char> {
    name + " must be finite and strictly between 0 and 1"@
}

/// The message for a rate or gain that is not finite or not positive.
pub open spec fn positive_message(name: Seq<char>) -> Seq<char> {
    name + " must be finite and positive"@
}

/// The message for a strength that is not finite or not in its range.
pub open spec fn strength_message(name: Seq<char>) -> Seq<char> {
    name + " must be finite and in (0, 1]"@
}

impl Config {
    /// The first rule on the network's shape that is broken, by its message.
    pub open spec fn shape_violation(self) -> Option<Seq<char>> {
        let m = self.model;

        if trimmed(m.name@).len() == 0 {
            Some("model.name must not be empty"@)
        } else if m.neuron_count == 0 || m.block_count == 0 || m.neurons_per_block == 0 {
            Some("model dimensions must be positive"@)
        } else if m.block_count * m.neurons_per_block != m.neuron_count {
            Some("block_count * neurons_per_block must equal neuron_count without overflow"@)
        } else if m.branches_per_neuron != 4 {
            Some("Leo requires exactly four dendritic branches per neuron"@)
        } else if !in_open_unit(m.excitatory_fraction) {
            Some("excitatory_fraction must be finite and strictly between 0 and 1"@)
        } else if m.synapses_per_neuron == 0 || m.input_fanout == 0 {
            Some("synapses_per_neuron and input_fanout must be positive"@)
        } else if m.synapses_per_neuron > m.neuron_count {
            Some("synapses_per_neuron cannot exceed neuron_count"@)
        } else if m.input_fanout > m.neuron_count {
            Some("input_fanout cannot exceed neuron_count"@)
        } else if m.max_active_per_block == 0 || m.max_active_per_block > m.neurons_per_block {
            Some("max_active_per_block must be in 1..=neurons_per_block"@)
        } else if m.max_active_global == 0 || m.max_active_global > m.neuron_count {
            Some("max_active_global must be in 1..=neuron_count"@)
        } else if self.dynamics.refractory_ticks == 0 {
            Some("refractory_ticks must be positive in the integrated architecture"@)
        } else {
            None
        }
    }

    /// The first rule on decays, rates and gains that is broken, by its message.
    pub open spec fn rate_violation(self) -> Option<Seq<char>> {
        if !in_open_unit(self.dynamics.branch_decay) {
            Some(decay_message("branch_decay"@))
        } else if !in_open_unit(self.dynamics.membrane_decay) {
            Some(decay_message("membrane_decay"@))
        } else if !in_open_unit(self.dynamics.fatigue_decay) {
            Some(decay_message("fatigue_decay"@))
        } else if !in_open_unit(self.dynamics.adaptation_fast_decay) {
            Some(decay_message("adaptation_fast_decay"@))
        } else if !in_open_unit(self.dynamics.adaptation_medium_decay) {
            Some(decay_message("adaptation_medium_decay"@))
        } else if !in_open_unit(self.dynamics.adaptation_slow_decay) {
            Some(decay_message("adaptation_slow_decay"@))
        } else if !in_open_unit(self.learning.eligibility_decay) {
            Some(decay_message("eligibility_decay"@))
        } else if !is_positive(self.dynamics.fatigue_gain) {
            Some(positive_message("fatigue_gain"@))
        } else if !is_positive(self.dynamics.adaptation_fast_gain) {
            Some(positive_message("adaptation_fast_gain"@))
        } else if !is_positive(self.dynamics.adaptation_medium_gain) {
            Some(positive_message("adaptation_medium_gain"@))
        } else if !is_positive(self.dynamics.adaptation_slow_gain) {
            Some(positive_message("adaptation_slow_gain"@))
        } else if !is_positive(self.dynamics.threshold_homeostasis_rate) {
            Some(positive_message("threshold_homeostasis_rate"@))
        } else if !is_positive(self.dynamics.population_inhibition_rate) {
            Some(positive_message("population_inhibition_rate"@))
        } else if !is_positive(self.learning.output_learning_rate) {
            Some(positive_message("output_learning_rate"@))
        } else if !is_positive(self.learning.recurrent_learning_rate) {
            Some(positive_message("recurrent_learning_rate"@))
        } else if !is_positive(self.learning.inhibitory_learning_rate) {
            Some(positive_message("inhibitory_learning_rate"@))
        } else if !is_positive(self.learning.eligibility_epsilon) {
            Some(positive_message("eligibility_epsilon"@))
        } else if !is_positive(self.learning.surrogate_width) {
            Some(positive_message("surrogate_width"@))
        } else if !is_positive(self.learning.surrogate_gain) {
            Some(positive_message("surrogate_gain"@))
        } else if !is_positive(self.learning.max_update) {
            Some(positive_message("max_update"@))
        } else {
            None
        }
    }

    /// The first rule on activity, weights and strengths that is broken, by its message.
    /// `target_active` is the number of neurons that the target activity asks for.
    pub open spec fn learning_violation(self, target_active: usize) -> Option<Seq<char>> {
        let d = self.dynamics;
        let l = self.learning;
        let zero = Scalar { bits: 0 };
        if !in_upper_unit(d.target_activity) {
            Some("target_activity must be finite and in (0, 1]"@)
        } else if !is_positive(d.population_inhibition_max) {
            Some("population_inhibition_max must be finite and positive"@)
        } else if !in_upper_unit(d.membrane_reset_fraction) {
            Some("membrane_reset_fraction must be finite and in (0, 1]"@)
        } else if target_active > self.model.max_active_global {
            Some("target_activity requires more neurons than max_active_global permits"@)
        } else if zero.at_most(l.weight_min) || l.weight_max.at_most(zero) || l.weight_max.at_most(l.weight_min) {
            Some("weight_min must be negative and weight_max must be positive"@)
        } else if !(l.end_document_weight.finite() && ONE_BITS <= l.end_document_weight.rank() <= SIXTEEN_BITS) {
            Some("end_document_weight must be finite and in [1, 16]"@)
        } else if !in_upper_unit(l.provisional_strength) {
            Some(strength_message("provisional_strength"@))
        } else if !in_upper_unit(l.training_strength) {
            Some(strength_message("training_strength"@))
        } else if !in_upper_unit(l.verified_strength) {
            Some(strength_message("verified_strength"@))
        } else {
            None
        }
    }

    /// The first rule on the context memory that is broken, by its message.
    pub open spec fn context_violation(self, output_classes: usize) -> Option<Seq<char>> {
        let c = self.context;
        if c.max_order == 0 || c.embedding_dim == 0 || c.slots_per_order == 0 || c.probe_limit == 0 || c.confidence_observations == 0 {
            Some("all context-memory dimensions must be positive"@)
        } else if c.embedding_dim > 256 {
            Some("context.embedding_dim cannot exceed 256"@)
        } else if c.max_order > 16 {
            Some("context.max_order cannot exceed 16"@)
        } else if c.probe_limit > c.slots_per_order {
            Some("context.probe_limit cannot exceed slots_per_order"@)
        } else if !in_half_open_unit(c.dropout_rate) {
            Some("context.dropout_rate must be finite and in [0, 1)"@)
        } else if !is_positive(c.learning_rate) {
            Some("context.learning_rate must be finite and positive"@)
        } else if c.max_order * c.slots_per_order > usize::MAX {
            Some("context slot count overflow"@)
        } else if c.max_order * c.slots_per_order * c.embedding_dim > usize::MAX {
            Some("context embedding size overflow"@)
        } else if c.embedding_dim * output_classes > usize::MAX {
            Some("context output projection size overflow"@)
        } else {
            None
        }
    }

    /// The first rule on replay and training limits that is broken, by its message.
    pub open spec fn limit_violation(self) -> Option<Seq<char>> {
        if !in_upper_unit(self.replay.fraction) {
            Some("replay.fraction must be finite and in the interval (0, 1]"@)
        } else if self.replay.segment_bytes == 0 || self.replay.teaching_replays == 0 || self.replay.max_verified_replays == 0 {
            Some("all replay limits must be positive"@)
        } else if self.training.max_dataset_passes == 0 || self.training.validate_every_bytes == 0 || self.training.checkpoint_every_bytes == 0 || self.training.early_stop_checks == 0 {
            Some("all training limits must be positive"@)
        } else if !(self.training.minimum_relative_improvement.finite() && 0 <= self.training.minimum_relative_improvement.rank()) {
            Some("minimum_relative_improvement must be finite and nonnegative"@)
        } else {
            None
        }
    }

    /// The first rule that is broken, by its message.
    pub open spec fn violation(
        self,
        output_classes: usize,
        target_active: usize,
    ) -> Option<Seq<char>> {
        if self.shape_violation() is Some {
            self.shape_violation()
        } else if self.rate_violation() is Some {
            self.rate_violation()
        } else if self.learning_violation(target_active) is Some {
            self.learning_violation(target_active)
        } else if self.context_violation(output_classes) is Some {
            self.context_violation(output_classes)
        } else {
            self.limit_violation()
        }
    }

    /// The first broken rule on the network's shape.
    pub fn shape_problem(&self) -> (r: Option<String>)
        ensures
            message_of(r) == self.shape_violation(),
    {
        let m = &self.model;
        if trim(self.model.name.as_str()).is_empty() {
            return Some("model.name must not be empty".to_owned());
        }
        if m.neuron_count == 0 || m.block_count == 0 || m.neurons_per_block == 0 {
            return Some("model dimensions must be positive".to_owned());
        }
        match m.block_count.checked_mul(m.neurons_per_block) {
            Some(product) => {
                if product != m.neuron_count {
                    return Some(
                        "block_count * neurons_per_block must equal neuron_count without overflow".to_owned(),
                    );
                }
            },
            None => {
                return Some(
                    "block_count * neurons_per_block must equal neuron_count without overflow".to_owned(),
                );
            },
        }
        if m.branches_per_neuron != 4 {
            return Some("Leo requires exactly four dendritic branches per neuron".to_owned());
        }
        if !open_unit(m.excitatory_fraction) {
            return Some("excitatory_fraction must be finite and strictly between 0 and 1".to_owned());
        }
        if m.synapses_per_neuron == 0 || m.input_fanout == 0 {
            return Some("synapses_per_neuron and input_fanout must be positive".to_owned());
        }
        if m.synapses_per_neuron > m.neuron_count {
            return Some("synapses_per_neuron cannot exceed neuron_count".to_owned());
        }
        if m.input_fanout > m.neuron_count {
            return Some("input_fanout cannot exceed neuron_count".to_owned());
        }
        if m.max_active_per_block == 0 || m.max_active_per_block > m.neurons_per_block {
            return Some("max_active_per_block must be in 1..=neurons_per_block".to_owned());
        }
        if m.max_active_global == 0 || m.max_active_global > m.neuron_count {
            return Some("max_active_global must be in 1..=neuron_count".to_owned());
        }
        if self.dynamics.refractory_ticks == 0 {
            return Some("refractory_ticks must be positive in the integrated architecture".to_owned());
        }
        None
    }

    /// The first broken rule on decays, rates and gains.
    pub fn rate_problem(&self) -> (r: Option<String>)
        ensures
            message_of(r) == self.rate_violation(),
    {
        if !open_unit(self.dynamics.branch_decay) {
            return Some(named("branch_decay", " must be finite and strictly between 0 and 1"));
        }
        if !open_unit(self.dynamics.membrane_decay) {
            return Some(named("membrane_decay", " must be finite and strictly between 0 and 1"));
        }
        if !open_unit(self.dynamics.fatigue_decay) {
            return Some(named("fatigue_decay", " must be finite and strictly between 0 and 1"));
        }
        if !open_unit(self.dynamics.adaptation_fast_decay) {
            return Some(named("adaptation_fast_decay", " must be finite and strictly between 0 and 1"));
        }
        if !open_unit(self.dynamics.adaptation_medium_decay) {
            return Some(named("adaptation_medium_decay", " must be finite and strictly between 0 and 1"));
        }
        if !open_unit(self.dynamics.adaptation_slow_decay) {
            return Some(named("adaptation_slow_decay", " must be finite and strictly between 0 and 1"));
        }
        if !open_unit(self.learning.eligibility_decay) {
            return Some(named("eligibility_decay", " must be finite and strictly between 0 and 1"));
        }
        if !positive(self.dynamics.fatigue_gain) {
            return Some(named("fatigue_gain", " must be finite and positive"));
        }
        if !positive(self.dynamics.adaptation_fast_gain) {
            return Some(named("adaptation_fast_gain", " must be finite and positive"));
        }
        if !positive(self.dynamics.adaptation_medium_gain) {
            return Some(named("adaptation_medium_gain", " must be finite and positive"));
        }
        if !positive(self.dynamics.adaptation_slow_gain) {
            return Some(named("adaptation_slow_gain", " must be finite and positive"));
        }
        if !positive(self.dynamics.threshold_homeostasis_rate) {
            return Some(named("threshold_homeostasis_rate", " must be finite and positive"));
        }
        if !positive(self.dynamics.population_inhibition_rate) {
            return Some(named("population_inhibition_rate", " must be finite and positive"));
        }
        if !positive(self.learning.output_learning_rate) {
            return Some(named("output_learning_rate", " must be finite and positive"));
        }
        if !positive(self.learning.recurrent_learning_rate) {
            return Some(named("recurrent_learning_rate", " must be finite and positive"));
        }
        if !positive(self.learning.inhibitory_learning_rate) {
            return Some(named("inhibitory_learning_rate", " must be finite and positive"));
        }
        if !positive(self.learning.eligibility_epsilon) {
            return Some(named("eligibility_epsilon", " must be finite and positive"));
        }
        if !positive(self.learning.surrogate_width) {
            return Some(named("surrogate_width", " must be finite and positive"));
        }
        if !positive(self.learning.surrogate_gain) {
            return Some(named("surrogate_gain", " must be finite and positive"));
        }
        if !positive(self.learning.max_update) {
            return Some(named("max_update", " must be finite and positive"));
        }
        None
    }

    /// The first broken rule on activity, weights and strengths.
    pub fn learning_problem(&self, target_active: usize) -> (r: Option<String>)
        ensures
            message_of(r) == self.learning_violation(target_active),
    {
        let d = self.dynamics;
        let l = self.learning;
        let zero = Scalar::zero();
        let sixteen = Scalar { bits: SIXTEEN_BITS };
        if !upper_unit(d.target_activity) {
            return Some("target_activity must be finite and in (0, 1]".to_owned());
        }
        if !positive(d.population_inhibition_max) {
            return Some("population_inhibition_max must be finite and positive".to_owned());
        }
        if !upper_unit(d.membrane_reset_fraction) {
            return Some("membrane_reset_fraction must be finite and in (0, 1]".to_owned());
        }
        if target_active > self.model.max_active_global {
            return Some("target_activity requires more neurons than max_active_global permits".to_owned());
        }
        if zero.le(l.weight_min) || l.weight_max.le(zero) || l.weight_max.le(l.weight_min) {
            return Some("weight_min must be negative and weight_max must be positive".to_owned());
        }
        if !(l.end_document_weight.is_finite() && Scalar::one().le(l.end_document_weight) && l.end_document_weight.le(sixteen)) {
            return Some("end_document_weight must be finite and in [1, 16]".to_owned());
        }
        if !upper_unit(l.provisional_strength) {
            return Some(named("provisional_strength", " must be finite and in (0, 1]"));
        }
        if !upper_unit(l.training_strength) {
            return Some(named("training_strength", " must be finite and in (0, 1]"));
        }
        if !upper_unit(l.verified_strength) {
            return Some(named("verified_strength", " must be finite and in (0, 1]"));
        }
        None
    }

    /// The first broken rule on the context memory.
    pub fn context_problem(&self, output_classes: usize) -> (r: Option<String>)
        ensures
            message_of(r) == self.context_violation(output_classes),
    {
        let c = self.context;
        if c.max_order == 0 || c.embedding_dim == 0 || c.slots_per_order == 0 || c.probe_limit == 0 || c.confidence_observations == 0 {
            return Some("all context-memory dimensions must be positive".to_owned());
        }
        if c.embedding_dim > 256 {
            return Some("context.embedding_dim cannot exceed 256".to_owned());
        }
        if c.max_order > 16 {
            return Some("context.max_order cannot exceed 16".to_owned());
        }
        if c.probe_limit > c.slots_per_order {
            return Some("context.probe_limit cannot exceed slots_per_order".to_owned());
        }
        if !half_open_unit(c.dropout_rate) {
            return Some("context.dropout_rate must be finite and in [0, 1)".to_owned());
        }
        if !positive(c.learning_rate) {
            return Some("context.learning_rate must be finite and positive".to_owned());
        }
        if c.max_order.checked_mul(c.slots_per_order).is_none() {
            return Some("context slot count overflow".to_owned());
        }
        let slots: usize = c.max_order * c.slots_per_order;
        if slots.checked_mul(c.embedding_dim).is_none() {
            return Some("context embedding size overflow".to_owned());
        }
        if c.embedding_dim.checked_mul(output_classes).is_none() {
            return Some("context output projection size overflow".to_owned());
        }
        None
    }

    /// The first broken rule on replay and training limits.
    pub fn limit_problem(&self) -> (r: Option<String>)
        ensures
            message_of(r) == self.limit_violation(),
    {
        if !upper_unit(self.replay.fraction) {
            return Some("replay.fraction must be finite and in the interval (0, 1]".to_owned());
        }
        if self.replay.segment_bytes == 0 || self.replay.teaching_replays == 0 || self.replay.max_verified_replays == 0 {
            return Some("all replay limits must be positive".to_owned());
        }
        if self.training.max_dataset_passes == 0 || self.training.validate_every_bytes == 0 || self.training.checkpoint_every_bytes == 0 || self.training.early_stop_checks == 0 {
            return Some("all training limits must be positive".to_owned());
        }
        if !(self.training.minimum_relative_improvement.is_finite() && Scalar::zero().le(self.training.minimum_relative_improvement)) {
            return Some("minimum_relative_improvement must be finite and nonnegative".to_owned());
        }
        None
    }


    /// The number of neurons that the target activity asks for.
    pub open spec fn target_active<T: Numerics>(self, ops: T) -> usize {
        ops.ceiling(
            ops.product(self.dynamics.target_activity, ops.number(self.model.neuron_count as u64)),
        )
    }

    /// Checks every rule, in order.
    pub fn validate<T: Numerics>(&self, alphabet: &Alphabet, ops: &T) -> (r: LeoResult<()>)
        requires
            ops.ready(),
        ensures
            match self.violation(alphabet.output_classes, self.target_active(*ops)) {
                Some(text) => fails(r, LeoErrorKind::Configuration, text),
                None => r is Ok,
            },
    {
        if let Some(message) = self.shape_problem() {
            return Err(LeoError::configuration(message));
        }
        if let Some(message) = self.rate_problem() {
            return Err(LeoError::configuration(message));
        }
        let neurons: Scalar = ops.of_count(self.model.neuron_count as u64);
        let target_active: usize = ops.up(ops.times(self.dynamics.target_activity, neurons));
        if let Some(message) = self.learning_problem(target_active) {
            return Err(LeoError::configuration(message));
        }
        if let Some(message) = self.context_problem(alphabet.output_classes) {
            return Err(LeoError::configuration(message));
        }
        if let Some(message) = self.limit_problem() {
            return Err(LeoError::configuration(message));
        }
        Ok(())
    }
}

fn named(name: &str, rule: &str) -> (r: String)
    ensures
        r@ == name@ + rule@,
{
    let mut out = name.to_owned();
    out.append(rule);
    out
}

impl Default for Config {
    fn default() -> (r: Self)
        ensures
            r.model.name@ == "Leo"@,
            r.model.seed == 1337,
            r.model.neuron_count == 32_768,
            r.model.block_count == 128,
            r.model.neurons_per_block == 256,
            r.model.branches_per_neuron == 4,
            r.model.excitatory_fraction.bits == 0x3f4c_cccd,
            r.model.synapses_per_neuron == 48,
            r.model.input_fanout == 128,
            r.model.max_active_per_block == 8,
            r.model.max_active_global == 1_024,
            r.dynamics == (DynamicsConfig {
                    branch_decay: Scalar { bits: 0x3f59_999a },
                    membrane_decay: Scalar { bits: 0x3f66_6666 },
                    fatigue_decay: Scalar { bits: 0x3f78_51ec },
                    fatigue_gain: Scalar { bits: 0x3ca3_d70a },
                    refractory_ticks: 1,
                    target_activity: Scalar { bits: 0x3ca3_d70a },
                    threshold_homeostasis_rate: Scalar { bits: 0x38d1_b717 },
                    population_inhibition_rate: Scalar { bits: 0x3d4c_cccd },
                    population_inhibition_max: Scalar { bits: 0x4000_0000 },
                    adaptation_fast_decay: Scalar { bits: 0x3f73_3333 },
                    adaptation_medium_decay: Scalar { bits: 0x3f7d_70a4 },
                    adaptation_slow_decay: Scalar { bits: 0x3f7f_be77 },
                    adaptation_fast_gain: Scalar { bits: 0x3ba3_d70a },
                    adaptation_medium_gain: Scalar { bits: 0x3a83_126f },
                    adaptation_slow_gain: Scalar { bits: 0x3951_b717 },
                    membrane_reset_fraction: Scalar { bits: 0x3dcc_cccd },
                }),
            r.learning == (LearningConfig {
                    output_learning_rate: Scalar { bits: 0x3a83_126f },
                    recurrent_learning_rate: Scalar { bits: 0x3951_b717 },
                    inhibitory_learning_rate: Scalar { bits: 0x37a7_c5ac },
                    eligibility_decay: Scalar { bits: 0x3f73_3333 },
                    eligibility_epsilon: Scalar { bits: 0x3727_c5ac },
                    surrogate_width: Scalar { bits: 0x3e80_0000 },
                    surrogate_gain: Scalar { bits: 0x3dcc_cccd },
                    max_update: Scalar { bits: 0x3c23_d70a },
                    weight_min: Scalar { bits: 0xbf80_0000 },
                    weight_max: Scalar { bits: 0x3f80_0000 },
                    provisional_strength: Scalar { bits: 0x3e4c_cccd },
                    training_strength: Scalar { bits: 0x3f80_0000 },
                    verified_strength: Scalar { bits: 0x3f80_0000 },
                    end_document_weight: Scalar { bits: 0x4080_0000 },
                }),
            r.context == (ContextConfig {
                    max_order: 8,
                    embedding_dim: 32,
                    slots_per_order: 8192,
                    probe_limit: 4,
                    learning_rate: Scalar { bits: 0x3d4c_cccd },
                    confidence_observations: 4,
                    dropout_rate: Scalar { bits: 0x3f00_0000 },
                }),
            r.replay == (ReplayConfig {
                    fraction: Scalar { bits: 0x3e99_999a },
                    segment_bytes: 64,
                    teaching_replays: 1,
                    max_verified_replays: 4,
                }),
            r.training == (TrainingConfig {
                    max_dataset_passes: 3,
                    validate_every_bytes: 25_000_000,
                    checkpoint_every_bytes: 50_000_000,
                    early_stop_checks: 3,
                    minimum_relative_improvement: Scalar { bits: 0x3ba3_d70a },
                }),
    {
        Config {
            model: ModelConfig {
                name: "Leo".to_owned(),
                seed: 1337,
                neuron_count: 32_768,
                block_count: 128,
                neurons_per_block: 256,
                branches_per_neuron: 4,
                excitatory_fraction: Scalar { bits: 0x3f4c_cccd },
                synapses_per_neuron: 48,
                input_fanout: 128,
                max_active_per_block: 8,
                max_active_global: 1_024,
            },
            dynamics: DynamicsConfig {
                    branch_decay: Scalar { bits: 0x3f59_999a },
                    membrane_decay: Scalar { bits: 0x3f66_6666 },
                    fatigue_decay: Scalar { bits: 0x3f78_51ec },
                    fatigue_gain: Scalar { bits: 0x3ca3_d70a },
                    refractory_ticks: 1,
                    target_activity: Scalar { bits: 0x3ca3_d70a },
                    threshold_homeostasis_rate: Scalar { bits: 0x38d1_b717 },
                    population_inhibition_rate: Scalar { bits: 0x3d4c_cccd },
                    population_inhibition_max: Scalar { bits: 0x4000_0000 },
                    adaptation_fast_decay: Scalar { bits: 0x3f73_3333 },
                    adaptation_medium_decay: Scalar { bits: 0x3f7d_70a4 },
                    adaptation_slow_decay: Scalar { bits: 0x3f7f_be77 },
                    adaptation_fast_gain: Scalar { bits: 0x3ba3_d70a },
                    adaptation_medium_gain: Scalar { bits: 0x3a83_126f },
                    adaptation_slow_gain: Scalar { bits: 0x3951_b717 },
                    membrane_reset_fraction: Scalar { bits: 0x3dcc_cccd },
                },
            learning: LearningConfig {
                    output_learning_rate: Scalar { bits: 0x3a83_126f },
                    recurrent_learning_rate: Scalar { bits: 0x3951_b717 },
                    inhibitory_learning_rate: Scalar { bits: 0x37a7_c5ac },
                    eligibility_decay: Scalar { bits: 0x3f73_3333 },
                    eligibility_epsilon: Scalar { bits: 0x3727_c5ac },
                    surrogate_width: Scalar { bits: 0x3e80_0000 },
                    surrogate_gain: Scalar { bits: 0x3dcc_cccd },
                    max_update: Scalar { bits: 0x3c23_d70a },
                    weight_min: Scalar { bits: 0xbf80_0000 },
                    weight_max: Scalar { bits: 0x3f80_0000 },
                    provisional_strength: Scalar { bits: 0x3e4c_cccd },
                    training_strength: Scalar { bits: 0x3f80_0000 },
                    verified_strength: Scalar { bits: 0x3f80_0000 },
                    end_document_weight: Scalar { bits: 0x4080_0000 },
                },
            context: ContextConfig {
                    max_order: 8,
                    embedding_dim: 32,
                    slots_per_order: 8192,
                    probe_limit: 4,
                    learning_rate: Scalar { bits: 0x3d4c_cccd },
                    confidence_observations: 4,
                    dropout_rate: Scalar { bits: 0x3f00_0000 },
                },
            replay: ReplayConfig {
                    fraction: Scalar { bits: 0x3e99_999a },
                    segment_bytes: 64,
                    teaching_replays: 1,
                    max_verified_replays: 4,
                },
            training: TrainingConfig {
                    max_dataset_passes: 3,
                    validate_every_bytes: 25_000_000,
                    checkpoint_every_bytes: 50_000_000,
                    early_stop_checks: 3,
                    minimum_relative_improvement: Scalar { bits: 0x3ba3_d70a },
                },
        }
    }
}

/// A configuration that keeps every rule has array sizes that fit: neurons, context
/// slots, context embeddings and the context's output projection.
pub proof fn law_valid_sizes_fit(c: Config, output_classes: usize, target_active: usize)
    requires
        c.violation(output_classes, target_active) is None,
    ensures
        c.model.block_count * c.model.neurons_per_block == c.model.neuron_count,
        0 < c.context.max_order * c.context.slots_per_order <= usize::MAX,
        c.context.max_order * c.context.slots_per_order * c.context.embedding_dim <= usize::MAX,
        c.context.embedding_dim * output_classes <= usize::MAX,
        1 <= c.context.probe_limit <= c.context.slots_per_order,
        c.model.max_active_per_block <= c.model.neurons_per_block,
{
    assert(0 < c.context.max_order * c.context.slots_per_order) by (nonlinear_arith)
        requires
            c.context.max_order > 0,
            c.context.slots_per_order > 0,
    ;
}

} // verus!
