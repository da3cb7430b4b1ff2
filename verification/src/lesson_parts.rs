//! The parts of a lesson: telling the neurons, and learning readout, context and synapses.

use crate::arithmetic::Numerics;
use crate::context_learning::{
    context_gradient, context_pass, latent_gradient, projection_proposal, update_projection,
    update_rows, ContextLesson,
};
use crate::error::{fails, LeoError, LeoErrorKind, LeoResult};
use crate::learning::nought;
use crate::marks::{accumulated, unmarked};
use crate::metrics::{capped_sum, TrainingStatistics};
use crate::model::{ContextProjection, InputProjection, Model, OutputProjection, SynapseArrays};
use crate::plasticity::{
    apply_inhibitory_homeostasis, bias_proposal, count_up, ends_of, errors_of, inhibitory_proposal,
    inhibitory_slots, input_proposal, list_ends, output_proposal, pass_ends, pass_of, passed,
    prediction_errors, quiet, quieted, readout_places, recurrent_proposal, signals, spread_errors,
    stops_at, unlisted, update_input_synapses, update_output_bias, update_output_weights,
    update_recurrent_synapses, Bounds,
};
use crate::runtime::{transposed, ChangeTracker, Numbers, Runtime};
use crate::scalar::Scalar;
use vstd::prelude::*;

verus! {

impl Runtime {
    /// The bounds of learning leave room for zero, and events can name the synapses.
    pub open spec fn bounds_hold(self) -> bool {
        let c = self.model.config;
        &&& self.model.recurrent.weight.len() <= u32::MAX
        &&& nought().at_most(c.learning.max_update)
        &&& c.learning.weight_min.at_most(nought())
        &&& nought().at_most(c.learning.weight_max)
        &&& nought().at_most(c.dynamics.population_inhibition_max)
    }

    /// The bounds of a weight.
    pub open spec fn weight_bounds(self) -> Bounds {
        let l = self.model.config.learning;
        Bounds { update: l.max_update, low: l.weight_min, high: l.weight_max }
    }

    /// The bounds of an input weight.
    pub open spec fn input_bounds(self) -> Bounds {
        let l = self.model.config.learning;
        Bounds { update: l.max_update, low: nought(), high: l.weight_max }
    }

    fn bounds_of_weights(&self) -> (r: Bounds)
        ensures
            r == self.weight_bounds(),
    {
        Bounds {
            update: self.model.config.learning.max_update,
            low: self.model.config.learning.weight_min,
            high: self.model.config.learning.weight_max,
        }
    }

    fn bounds_of_inputs(&self) -> (r: Bounds)
        ensures
            r == self.input_bounds(),
    {
        Bounds {
            update: self.model.config.learning.max_update,
            low: Scalar::zero(),
            high: self.model.config.learning.weight_max,
        }
    }
}

/// The neurons that are told of the errors: those that eligible synapses reach, and the active
/// ones, each once.
pub open spec fn told_neurons(b: Runtime) -> (Seq<usize>, Seq<bool>) {
    let recurrent = ends_of(
        b.recurrent_traces.eligible.list@,
        b.model.recurrent.target_neuron@,
    );
    let input = ends_of(b.input_traces.eligible.list@, b.model.input.targets@);
    let (l0, m0) = accumulated(
        Seq::empty(),
        unmarked(b.size()),
        recurrent,
        recurrent.len() as int,
    );
    let (l1, m1) = accumulated(l0, m0, input, input.len() as int);
    accumulated(l1, m1, b.active@, b.active@.len() as int)
}

/// What telling does: the errors of the prediction are kept, last step's signals are taken back,
/// and where credit is consolidated the neurons are told of the errors.
#[verifier::opaque]
pub open spec fn told<T: Numerics>(ops: T, b: Runtime, class: int, scale: Scalar, a: Runtime) -> bool {
    let errors = errors_of(ops, b.numbers.probabilities@, class);
    let before = quieted(
        b.numbers.signal@,
        b.numbers.destinations.list@,
        b.numbers.destinations.list@.len() as int,
    );
    let (list, mark) = if nought().below(scale) {
        told_neurons(b)
    } else {
        (Seq::empty(), unmarked(b.size()))
    };
    &&& a.numbers.errors@ == errors
    &&& a.numbers.destinations.list@ == list
    &&& a.numbers.destinations.mark@ == mark
    &&& a.numbers.signal@ == signals(
        ops,
        before,
        b.output_weights_by_neuron@,
        errors,
        list,
        list.len() as int,
    )
    &&& a == (Runtime {
        numbers: Numbers {
            errors: a.numbers.errors,
            destinations: a.numbers.destinations,
            signal: a.numbers.signal,
            ..b.numbers
        },
        ..b
    })
}

/// What learning the readout does: the output weights of the active neurons and the biases move
/// against the errors. `bad` is the first bias that is not finite afterwards.
#[verifier::opaque]
pub open spec fn readout_learned<T: Numerics>(
    ops: T,
    b: Runtime,
    rate: Scalar,
    bad: Option<usize>,
    a: Runtime,
) -> bool {
    let classes = b.alphabet.output_classes as int;
    let bias_rule = bias_proposal(ops, rate, b.numbers.errors@, b.weight_bounds().update);
    let start = unlisted(b.model.output.bias@);
    &&& unlisted(a.model.output.weights@) == passed(
        output_proposal(
            ops,
            rate,
            b.numbers.errors@,
            b.state.activation@,
            b.weight_bounds(),
        ),
        readout_places(b.active@, b.size(), classes),
        unlisted(b.model.output.weights@),
        false,
        b.active@.len() * classes,
    )
    &&& a.output_weights_by_neuron@ == transposed(a.model.output.weights@, b.size(), classes)
    &&& match bad {
        None => pass_ends(
            bias_rule,
            count_up(classes),
            start,
            false,
            unlisted(a.model.output.bias@),
            true,
        ),
        Some(class) => stops_at(bias_rule, count_up(classes), start, false, class as int)
            && unlisted(a.model.output.bias@) == passed(
            bias_rule,
            count_up(classes),
            start,
            false,
            class + 1,
        ),
    }
    &&& if b.tracker.enabled {
        (a.tracker.output_neurons.list@, a.tracker.output_neurons.mark@) == accumulated(
            b.tracker.output_neurons.list@,
            b.tracker.output_neurons.mark@,
            b.active@,
            b.active@.len() as int,
        )
    } else {
        a.tracker.output_neurons == b.tracker.output_neurons
    }
    &&& a == (Runtime {
        model: Model {
            output: OutputProjection {
                weights: a.model.output.weights,
                bias: a.model.output.bias,
                ..b.model.output
            },
            ..b.model
        },
        output_weights_by_neuron: a.output_weights_by_neuron,
        tracker: ChangeTracker {
            output_neurons: a.tracker.output_neurons,
            output_bias_dirty: b.tracker.output_bias_dirty || b.tracker.enabled,
            ..b.tracker
        },
        ..b
    })
}

/// What learning the context does: first the shared projection moves, then the rows of the active
/// contexts, by the gradient that the projection had before.
#[verifier::opaque]
pub open spec fn context_learned<T: Numerics>(
    ops: T,
    b: Runtime,
    strength: Scalar,
    a: Runtime,
    r: LeoResult<()>,
) -> bool {
    let rate = ops.product(b.model.config.context.learning_rate.opposite(), strength);
    let rule = projection_proposal(
        ops,
        rate,
        b.numbers.errors@,
        b.numbers.latent@,
        b.weight_bounds(),
    );
    let places = count_up(b.model.context.output_weights@.len() as int);
    let start = unlisted(b.model.context.output_weights@);
    let after = unlisted(a.model.context.output_weights@);
    let lesson = ContextLesson {
        ops,
        rate,
        slots: b.context_slots@,
        scales: b.numbers.context_scales@,
        gradient: latent_gradient(
            ops,
            b.model.context.output_weights@,
            b.numbers.errors@,
            b.model.config.context.embedding_dim as int,
            b.numbers.errors@.len() as int,
        ),
        bounds: b.weight_bounds(),
        enabled: b.tracker.enabled,
    };
    let rows = context_pass(b.model, b.tracker.context_slots);
    let rows_after = context_pass(a.model, a.tracker.context_slots);
    if b.context_slots@.len() == 0 {
        r is Ok && a == b
    } else {
        &&& a == (Runtime {
            model: Model {
                context: ContextProjection {
                    embeddings: a.model.context.embeddings,
                    observations: a.model.context.observations,
                    output_weights: a.model.context.output_weights,
                    ..b.model.context
                },
                ..b.model
            },
            tracker: ChangeTracker {
                context_slots: a.tracker.context_slots,
                context_output_dirty: b.tracker.context_output_dirty || b.tracker.enabled,
                ..b.tracker
            },
            ..b
        })
        &&& match r {
            Ok(_) => pass_ends(rule, places, start, false, after, true) && lesson.ends(
                rows,
                rows_after,
                true,
            ),
            Err(_) => {
                ||| {
                    &&& pass_ends(rule, places, start, false, after, false)
                    &&& rows_after == rows
                    &&& fails(
                        r,
                        LeoErrorKind::Numerical,
                        "non-finite context output update rejected"@,
                    )
                }
                ||| {
                    &&& pass_ends(rule, places, start, false, after, true)
                    &&& lesson.ends(rows, rows_after, false)
                    &&& fails(
                        r,
                        LeoErrorKind::Internal,
                        "non-finite context embedding update rejected"@,
                    )
                }
            },
        }
    }
}

/// What learning the recurrent weights does. A change that is not finite is counted.
#[verifier::opaque]
pub open spec fn recurrent_learned<T: Numerics>(
    ops: T,
    b: Runtime,
    strength: Scalar,
    a: Runtime,
    whole: bool,
) -> bool {
    let l = b.model.config.learning;
    let rate = ops.product(l.recurrent_learning_rate.opposite(), strength);
    &&& pass_ends(
        recurrent_proposal(
            ops,
            rate,
            b.model,
            b.numbers.signal@,
            b.recurrent_traces.eligibility@,
            b.weight_bounds(),
        ),
        b.recurrent_traces.eligible.list@,
        pass_of(b.model.recurrent.weight@, b.tracker.recurrent_weight),
        b.tracker.enabled,
        pass_of(a.model.recurrent.weight@, a.tracker.recurrent_weight),
        whole,
    )
    &&& a == (Runtime {
        model: Model {
            recurrent: SynapseArrays { weight: a.model.recurrent.weight, ..b.model.recurrent },
            statistics: if whole {
                b.model.statistics
            } else {
                TrainingStatistics {
                    numerical_rejections: capped_sum(b.model.statistics.numerical_rejections, 1),
                    ..b.model.statistics
                }
            },
            ..b.model
        },
        tracker: ChangeTracker { recurrent_weight: a.tracker.recurrent_weight, ..b.tracker },
        ..b
    })
}

/// What learning the input weights does.
#[verifier::opaque]
pub open spec fn input_learned<T: Numerics>(
    ops: T,
    b: Runtime,
    strength: Scalar,
    a: Runtime,
    whole: bool,
) -> bool {
    let l = b.model.config.learning;
    let rate = ops.product(l.recurrent_learning_rate.opposite(), strength);
    &&& pass_ends(
        input_proposal(
            ops,
            rate,
            b.model.input.targets@,
            b.numbers.signal@,
            b.input_traces.eligibility@,
            b.input_bounds(),
        ),
        b.input_traces.eligible.list@,
        pass_of(b.model.input.weights@, b.tracker.input_weight),
        b.tracker.enabled,
        pass_of(a.model.input.weights@, a.tracker.input_weight),
        whole,
    )
    &&& a == (Runtime {
        model: Model {
            input: InputProjection { weights: a.model.input.weights, ..b.model.input },
            ..b.model
        },
        tracker: ChangeTracker { input_weight: a.tracker.input_weight, ..b.tracker },
        ..b
    })
}

/// What balancing inhibition does.
#[verifier::opaque]
pub open spec fn balanced<T: Numerics>(
    ops: T,
    b: Runtime,
    strength: Scalar,
    a: Runtime,
    whole: bool,
) -> bool {
    &&& pass_ends(
        inhibitory_proposal(
            ops,
            b.model,
            b.state.activation@,
            b.model.config.dynamics.target_activity,
            b.model.config.learning.inhibitory_learning_rate,
            strength,
            b.model.config.learning.max_update,
            b.model.config.learning.weight_min,
        ),
        inhibitory_slots(b.model, b.active@, b.active@.len() as int),
        pass_of(b.model.recurrent.weight@, b.tracker.recurrent_weight),
        b.tracker.enabled,
        pass_of(a.model.recurrent.weight@, a.tracker.recurrent_weight),
        whole,
    )
    &&& a == (Runtime {
        model: Model {
            recurrent: SynapseArrays { weight: a.model.recurrent.weight, ..b.model.recurrent },
            ..b.model
        },
        tracker: ChangeTracker { recurrent_weight: a.tracker.recurrent_weight, ..b.tracker },
        ..b
    })
}

/// What no part of a lesson changes.
pub open spec fn same_frame(b: Runtime, a: Runtime) -> bool {
    &&& a.model.config == b.model.config
    &&& a.alphabet == b.alphabet
    &&& a.recurrent_traces == b.recurrent_traces
    &&& a.input_traces == b.input_traces
    &&& a.context_applied == b.context_applied
    &&& a.context_slots == b.context_slots
    &&& a.numbers.context_scales == b.numbers.context_scales
    &&& a.numbers.plasticity_phase == b.numbers.plasticity_phase
    &&& a.output_cache_dirty == b.output_cache_dirty
}

impl Runtime {
    /// The runtime can learn.
    #[verifier::opaque]
    pub open spec fn steady(self) -> bool {
        &&& self.wf()
        &&& self.bounds_hold()
        &&& !self.output_cache_dirty
        &&& self.numbers.context_scales.len() == self.context_slots.len()
    }

    /// Tells the neurons of the errors of the prediction.
    pub fn tell<T: Numerics>(&mut self, ops: &T, class: usize, scale: Scalar)
        requires
            ops.ready(),
            old(self).steady(),
            class < old(self).alphabet.output_classes,
        ensures
            final(self).steady(),
            told(*ops, *old(self), class as int, scale, *final(self)),
            same_frame(*old(self), *final(self)),
    {
        reveal(told);
        reveal(Runtime::steady);
        self.numbers.errors = prediction_errors(ops, &self.numbers.probabilities, class);
        quiet(&mut self.numbers.signal, &self.numbers.destinations.list);
        self.numbers.destinations.clear();
        if Scalar::zero().lt(scale) {
            let recurrent: Vec<usize> = list_ends(
                &self.recurrent_traces.eligible.list,
                &self.model.recurrent.target_neuron,
            );
            let input: Vec<usize> = list_ends(
                &self.input_traces.eligible.list,
                &self.model.input.targets,
            );
            self.numbers.destinations.add_all(&recurrent);
            self.numbers.destinations.add_all(&input);
            self.numbers.destinations.add_all(&self.active);
            spread_errors(
                ops,
                &mut self.numbers.signal,
                &self.output_weights_by_neuron,
                &self.numbers.errors,
                &self.numbers.destinations.list,
            );
        }
    }

    /// Learns the readout. Gives the first bias that is not finite afterwards.
    pub fn learn_readout<T: Numerics>(&mut self, ops: &T, rate: Scalar) -> (bad: Option<usize>)
        requires
            ops.ready(),
            old(self).steady(),
        ensures
            final(self).steady(),
            readout_learned(*ops, *old(self), rate, bad, *final(self)),
            same_frame(*old(self), *final(self)),
    {
        reveal(readout_learned);
        reveal(Runtime::steady);
        let b: Bounds = self.bounds_of_weights();
        update_output_weights(
            ops,
            &mut self.model.output.weights,
            &mut self.output_weights_by_neuron,
            &self.active,
            &self.state.activation,
            &self.numbers.errors,
            rate,
            &b,
        );
        if self.tracker.enabled {
            self.tracker.output_neurons.add_all(&self.active);
            self.tracker.output_bias_dirty = true;
        }
        update_output_bias(
            ops,
            &mut self.model.output.bias,
            &self.numbers.errors,
            rate,
            b.update,
        )
    }

    /// Learns the context memory from the errors of the prediction.
    pub fn update_context_projection<T: Numerics>(&mut self, ops: &T, strength: Scalar) -> (r:
        LeoResult<()>)
        requires
            ops.ready(),
            old(self).steady(),
        ensures
            final(self).steady(),
            context_learned(*ops, *old(self), strength, *final(self), r),
            same_frame(*old(self), *final(self)),
    {
        reveal(context_learned);
        reveal(Runtime::steady);
        if self.context_slots.len() == 0 {
            return Ok(());
        }
        let b: Bounds = self.bounds_of_weights();
        let rate: Scalar = ops.times(self.model.config.context.learning_rate.negated(), strength);
        let gradient: Vec<Scalar> = context_gradient(
            ops,
            &self.model.context.output_weights,
            &self.numbers.errors,
            self.model.config.context.embedding_dim,
        );
        if self.tracker.enabled {
            self.tracker.context_output_dirty = true;
        }
        let projected: bool = update_projection(
            ops,
            &mut self.model.context.output_weights,
            &self.numbers.errors,
            &self.numbers.latent,
            rate,
            &b,
        );
        if !projected {
            return Err(
                LeoError::numerical("non-finite context output update rejected".to_owned()),
            );
        }
        let enabled: bool = self.tracker.enabled;
        let rows: bool = update_rows(
            ops,
            &mut self.model,
            &mut self.tracker.context_slots,
            enabled,
            &self.context_slots,
            &self.numbers.context_scales,
            &gradient,
            rate,
            &b,
        );
        if !rows {
            return Err(
                LeoError::internal("non-finite context embedding update rejected".to_owned()),
            );
        }
        Ok(())
    }

    /// Learns the recurrent weights.
    pub fn learn_recurrent<T: Numerics>(&mut self, ops: &T, strength: Scalar) -> (whole: bool)
        requires
            ops.ready(),
            old(self).steady(),
        ensures
            final(self).steady(),
            recurrent_learned(*ops, *old(self), strength, *final(self), whole),
            same_frame(*old(self), *final(self)),
    {
        reveal(recurrent_learned);
        reveal(Runtime::steady);
        let b: Bounds = self.bounds_of_weights();
        let rate: Scalar = ops.times(
            self.model.config.learning.recurrent_learning_rate.negated(),
            strength,
        );
        let enabled: bool = self.tracker.enabled;
        let whole: bool = update_recurrent_synapses(
            ops,
            &mut self.model,
            &mut self.tracker.recurrent_weight,
            enabled,
            &self.recurrent_traces.eligible.list,
            &self.numbers.signal,
            &self.recurrent_traces.eligibility,
            rate,
            &b,
        );
        if !whole {
            self.model.statistics.numerical_rejections =
                self.model.statistics.numerical_rejections.saturating_add(1);
        }
        whole
    }

    /// Learns the input weights.
    pub fn learn_inputs<T: Numerics>(&mut self, ops: &T, strength: Scalar) -> (whole: bool)
        requires
            ops.ready(),
            old(self).steady(),
        ensures
            final(self).steady(),
            input_learned(*ops, *old(self), strength, *final(self), whole),
            same_frame(*old(self), *final(self)),
    {
        reveal(input_learned);
        reveal(Runtime::steady);
        let b: Bounds = self.bounds_of_inputs();
        let rate: Scalar = ops.times(
            self.model.config.learning.recurrent_learning_rate.negated(),
            strength,
        );
        let enabled: bool = self.tracker.enabled;
        update_input_synapses(
            ops,
            &mut self.model.input.weights,
            &self.model.input.targets,
            &mut self.tracker.input_weight,
            enabled,
            &self.input_traces.eligible.list,
            &self.numbers.signal,
            &self.input_traces.eligibility,
            rate,
            &b,
        )
    }

    /// Balances the inhibition.
    pub fn balance<T: Numerics>(&mut self, ops: &T, strength: Scalar) -> (whole: bool)
        requires
            ops.ready(),
            old(self).steady(),
        ensures
            final(self).steady(),
            balanced(*ops, *old(self), strength, *final(self), whole),
            same_frame(*old(self), *final(self)),
    {
        reveal(balanced);
        reveal(Runtime::steady);
        let enabled: bool = self.tracker.enabled;
        apply_inhibitory_homeostasis(
            ops,
            &mut self.model,
            &mut self.tracker.recurrent_weight,
            enabled,
            &self.active,
            &self.state.activation,
            strength,
        )
    }
}

} // verus!
