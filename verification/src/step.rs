//! One step of a runtime: a symbol is taken in, the next one is predicted, and the runtime learns
//! from what came.

use crate::arithmetic::Numerics;
use crate::dynamics::{active_share, share};
use crate::error::{fails, LeoError, LeoErrorKind, LeoResult};
use crate::learning::{nought, unit};
use crate::lesson::{lesson_taken, no_eligibility, EligibilitySum, Lesson};
use crate::metrics::{StepMetrics, WideScalar};
use crate::model::{Model, NeuronParameters};
use crate::permission::Permission;
use crate::plasticity::{pass_of, passed, threshold_proposal, update_homeostasis};
use crate::prediction::{loss_of, probability_loss};
use crate::runtime::{
    argmax_probability, copy_list, is_argmax, opened, output_madds, prediction_madds, ChangeTracker,
    OpenedStep, Runtime,
};
use crate::scalar::Scalar;
use crate::selection::Selection;
use crate::stages::{competed, followed_all, predicted, received, rested, sent};
use crate::text::decimal;
use vstd::prelude::*;

verus! {

/// What balancing the thresholds does: those of the touched neurons rise with the activity of the
/// neuron and of the population.
#[verifier::opaque]
pub open spec fn thresholds_moved<T: Numerics>(ops: T, b: Runtime, a: Runtime) -> bool {
    let d = b.model.config.dynamics;
    let population_error = ops.difference(
        share(ops, b.active@.len() as int, b.size()),
        d.target_activity,
    );
    &&& pass_of(a.model.neurons.threshold@, a.tracker.threshold) == passed(
        threshold_proposal(
            ops,
            b.state.activation@,
            d.target_activity,
            d.threshold_homeostasis_rate,
            population_error,
        ),
        b.touched.list@,
        pass_of(b.model.neurons.threshold@, b.tracker.threshold),
        b.tracker.enabled,
        b.touched.list@.len() as int,
    )
    &&& a == (Runtime {
        model: Model {
            neurons: NeuronParameters { threshold: a.model.neurons.threshold, ..b.model.neurons },
            ..b.model
        },
        tracker: ChangeTracker { threshold: a.tracker.threshold, ..b.tracker },
        ..b
    })
}

/// What closing a step does.
#[verifier::opaque]
pub open spec fn step_closed<T: Numerics>(
    ops: T,
    b: Runtime,
    symbol: u32,
    permission: Permission,
    learned: bool,
    loss: Option<Scalar>,
    count: usize,
    a: Runtime,
) -> bool {
    let sum = match loss {
        Some(value) => Some(ops.wide_sum(b.model.statistics.training_loss_sum, value)),
        None => None,
    };
    a == (Runtime {
        model: Model {
            parameter_revision: if learned {
                crate::metrics::capped_sum(b.model.parameter_revision, 1)
            } else {
                b.model.parameter_revision
            },
            statistics: if permission == Permission::Frozen {
                b.model.statistics
            } else {
                b.model.statistics.after_step(symbol, sum, b.active.len(), count)
            },
            ..b.model
        },
        current_tick: crate::metrics::capped_sum(b.current_tick, 1),
        persistent_document_activity: b.persistent_document_activity || permission
            != Permission::Frozen,
        ..b
    })
}

/// The way of a step up to its prediction: the runtime after each stage.
pub struct StageTrace {
    pub step: OpenedStep,
    pub opened: Runtime,
    pub received: Runtime,
    pub selection: Selection,
    pub competed: Runtime,
    pub followed: Runtime,
    pub rested: Runtime,
    pub sent: Runtime,
    pub events: usize,
    pub predicted: Runtime,
    pub neural_loss: Option<Scalar>,
}

/// The way of a step: the runtime after each of its stages.
pub struct StepTrace {
    pub stages: StageTrace,
    pub learned: Runtime,
    pub lesson: LeoResult<EligibilitySum>,
    pub balanced: Runtime,
}

/// The loss of the class that came.
pub open spec fn step_loss<T: Numerics>(ops: T, r: Runtime, class: Option<usize>) -> Option<Scalar> {
    match class {
        Some(c) => Some(loss_of(ops, r.numbers.probabilities@[c as int])),
        None => None,
    }
}

/// The weight of a class.
pub open spec fn class_weight(r: Runtime, class: usize) -> Scalar {
    if class == r.alphabet.end_document_class {
        r.model.config.learning.end_document_weight
    } else {
        unit()
    }
}

/// The mean of the eligibilities that a lesson used.
pub open spec fn mean_eligibility<T: Numerics>(ops: T, e: EligibilitySum) -> Scalar {
    if e.count == 0 {
        nought()
    } else {
        ops.wide_mean(e.sum, e.count)
    }
}

impl StageTrace {
    /// The stages up to the prediction.
    #[verifier::opaque]
    pub open spec fn leads_on<T: Numerics>(
        self,
        ops: T,
        b: Runtime,
        symbol: u32,
        target: Option<u32>,
        permission: Permission,
    ) -> bool {
        &&& opened(b, symbol, target, permission, self.step, self.opened)
        &&& received(ops, self.opened, self.step, b.touched.list@, self.received)
        &&& competed(ops, self.received, self.selection, self.competed)
        &&& if permission == Permission::Frozen {
            self.followed == self.competed
        } else {
            followed_all(ops, self.competed, self.followed)
        }
        &&& rested(ops, self.followed, self.rested)
        &&& sent(ops, self.rested, self.events, self.sent)
        &&& predicted(ops, self.sent, self.step.target_class, self.neural_loss, self.predicted)
        &&& self.predicted.steady()
    }

    /// The lesson of the step, where it has one.
    #[verifier::opaque]
    pub open spec fn teaches<T: Numerics>(
        self,
        ops: T,
        learned: Runtime,
        lesson: LeoResult<EligibilitySum>,
    ) -> bool {
        if self.step.learns {
            lesson_taken(
                ops,
                self.predicted,
                Lesson {
                    class: self.step.target_class->0,
                    strength: self.step.strength,
                    weight: class_weight(self.predicted, self.step.target_class->0),
                },
                learned,
                lesson,
            )
        } else {
            learned == self.predicted && lesson == Ok::<EligibilitySum, LeoError>(
                no_eligibility(),
            )
        }
    }
}

impl StepTrace {
    /// What is measured of the step. `best` is the likeliest class.
    pub open spec fn measured<T: Numerics>(self, ops: T, best: int, a: Runtime) -> StepMetrics {
        let loss = step_loss(ops, self.stages.predicted, self.stages.step.target_class);
        let active = a.active@.len() as int;
        let cells = a.context_slots@.len() as int;
        StepMetrics {
            loss,
            predicted_symbol: a.alphabet.symbol_of[best],
            active_neurons: active as usize,
            emitted_events: self.stages.events,
            suprathreshold_neurons: self.stages.selection.suprathreshold_neurons,
            block_selected_neurons: self.stages.selection.block_selected_neurons,
            global_cap_clipped_neurons: self.stages.selection.global_cap_clipped_neurons,
            population_inhibition: a.numbers.population_inhibition,
            context_cells: cells as usize,
            context_probes: a.context_probes,
            context_applied: a.context_applied,
            context_loss_gain: match (self.stages.neural_loss, loss) {
                (Some(neural), Some(combined)) => ops.difference(neural, combined),
                _ => nought(),
            },
            output_madds: prediction_madds(
                active,
                cells,
                a.model.config.context.embedding_dim as int,
                a.alphabet.output_classes as int,
            ) as usize,
            eligible_recurrent_synapses: a.recurrent_traces.eligible.list@.len() as usize,
            eligible_input_synapses: a.input_traces.eligible.list@.len() as usize,
            mean_abs_eligibility: match self.lesson {
                Ok(e) => mean_eligibility(ops, e),
                Err(_) => nought(),
            },
        }
    }

    /// The whole step, and what comes of it. A lesson that meets a number that is not finite ends
    /// the step.
    #[verifier::opaque]
    pub open spec fn explains<T: Numerics>(
        self,
        ops: T,
        b: Runtime,
        symbol: u32,
        target: Option<u32>,
        permission: Permission,
        a: Runtime,
        r: LeoResult<StepMetrics>,
    ) -> bool {
        &&& self.stages.leads_on(ops, b, symbol, target, permission)
        &&& self.stages.teaches(ops, self.learned, self.lesson)
        &&& match self.lesson {
            Err(e) => a == self.learned && r == Err::<StepMetrics, LeoError>(e),
            Ok(_) => {
                &&& if permission == Permission::Frozen {
                    self.balanced == self.learned
                } else {
                    thresholds_moved(ops, self.learned, self.balanced)
                }
                &&& step_closed(
                    ops,
                    self.balanced,
                    symbol,
                    permission,
                    self.stages.step.learns,
                    step_loss(ops, self.stages.predicted, self.stages.step.target_class),
                    self.stages.events,
                    a,
                )
                &&& r matches Ok(metrics) && metrics_fit(ops, self, a, metrics)
            },
        }
    }
}

/// The metrics are those of the step, for the likeliest class.
pub open spec fn metrics_fit<T: Numerics>(ops: T, t: StepTrace, a: Runtime, m: StepMetrics) -> bool {
    exists|best: int|
        #[trigger] is_argmax(a.numbers.probabilities@, best) && m == t.measured(ops, best, a)
}

/// A step was taken.
pub open spec fn step_taken<T: Numerics>(
    ops: T,
    b: Runtime,
    symbol: u32,
    target: Option<u32>,
    permission: Permission,
    a: Runtime,
    r: LeoResult<StepMetrics>,
) -> bool {
    exists|t: StepTrace| #[trigger] t.explains(ops, b, symbol, target, permission, a, r)
}

/// What the stages of a step hand on.
pub struct StageOutcome {
    pub step: OpenedStep,
    pub selection: Selection,
    pub events: usize,
    pub neural_loss: Option<Scalar>,
}

/// The symbols of a step are known.
pub open spec fn step_accepted(r: Runtime, symbol: u32, target: Option<u32>) -> bool {
    r.alphabet.accepts(symbol) && (target matches Some(t) ==> r.alphabet.class(t) is Some)
}

/// What is wrong with the symbols of a step.
pub open spec fn symbol_problem(r: Runtime, symbol: u32, target: Option<u32>) -> Seq<char> {
    if !r.alphabet.accepts(symbol) {
        "invalid input symbol: "@ + decimal(symbol as nat) + ""@
    } else {
        "invalid output target: "@ + decimal(target->0 as nat) + ""@
    }
}

impl Runtime {
    /// The runtime can take a step.
    #[verifier::opaque]
    pub open spec fn can_step(self) -> bool {
        &&& self.wf()
        &&& self.bounds_hold()
        &&& self.alphabet.wf()
        &&& 0 < self.alphabet.output_classes
    }

    /// Takes a step as far as its prediction.
    fn run_stages<T: Numerics>(
        &mut self,
        ops: &T,
        symbol: u32,
        target: Option<u32>,
        permission: Permission,
    ) -> (r: LeoResult<(StageOutcome, Ghost<StageTrace>)>)
        requires
            ops.ready(),
            old(self).can_step(),
        ensures
            !step_accepted(*old(self), symbol, target) ==> *final(self) == *old(self) && fails(
                r,
                LeoErrorKind::Internal,
                symbol_problem(*old(self), symbol, target),
            ),
            step_accepted(*old(self), symbol, target) ==> r is Ok,
            r matches Ok(done) ==> {
                let t = done.1@;
                &&& final(self).steady()
                &&& final(self).alphabet == old(self).alphabet
                &&& t.leads_on(*ops, *old(self), symbol, target, permission)
                &&& t.predicted == *final(self)
                &&& t.step == done.0.step
                &&& t.selection == done.0.selection
                &&& t.events == done.0.events
                &&& t.neural_loss == done.0.neural_loss
                &&& done.0.step.learns ==> done.0.step.target_class is Some
                &&& done.0.step.target_class matches Some(class) ==> class
                    < final(self).alphabet.output_classes
            },
    {
        reveal(Runtime::can_step);
        let last_touched: Vec<usize> = copy_list(&self.touched.list);
        let ghost b = *self;
        let step: OpenedStep = match self.open_step(symbol, target, permission) {
            Ok(step) => step,
            Err(e) => {
                return Err(e);
            },
        };
        let ghost s_opened = *self;
        self.receive(ops, &step, &last_touched);
        let ghost s_received = *self;
        let selection: Selection = self.compete(ops);
        let ghost s_competed = *self;
        if !permission.is_frozen() {
            self.follow_neurons(ops);
        }
        let ghost s_followed = *self;
        self.rest(ops);
        let ghost s_rested = *self;
        let events: usize = self.send(ops);
        let ghost s_sent = *self;
        let neural_loss: Option<Scalar> = self.predict(ops, step.target_class);
        let ghost trace = StageTrace {
            step,
            opened: s_opened,
            received: s_received,
            selection,
            competed: s_competed,
            followed: s_followed,
            rested: s_rested,
            sent: s_sent,
            events,
            predicted: *self,
            neural_loss,
        };
        proof {
            assert(last_touched@ == b.touched.list@);
            assert(self.steady()) by {
                reveal(Runtime::steady);
            }
            assert(trace.leads_on(*ops, b, symbol, target, permission)) by {
                reveal(StageTrace::leads_on);
            }
        }
        Ok((StageOutcome { step, selection, events, neural_loss }, Ghost(trace)))
    }

    /// Learns from the class that came, where the step learns.
    fn take_lesson<T: Numerics>(&mut self, ops: &T, step: &OpenedStep) -> (r: LeoResult<
        EligibilitySum,
    >)
        requires
            ops.ready(),
            old(self).steady(),
            step.learns ==> step.target_class is Some,
            step.target_class matches Some(class) ==> class < old(self).alphabet.output_classes,
        ensures
            final(self).steady(),
            final(self).alphabet == old(self).alphabet,
            if step.learns {
                lesson_taken(
                    *ops,
                    *old(self),
                    Lesson {
                        class: step.target_class->0,
                        strength: step.strength,
                        weight: class_weight(*old(self), step.target_class->0),
                    },
                    *final(self),
                    r,
                )
            } else {
                *final(self) == *old(self) && r == Ok::<EligibilitySum, LeoError>(
                    no_eligibility(),
                )
            },
    {
        if step.learns {
            if let Some(class) = step.target_class {
                let weight: Scalar = if class == self.alphabet.end_document_class {
                    self.model.config.learning.end_document_weight
                } else {
                    Scalar::one()
                };
                return self.apply_learning(
                    ops,
                    &Lesson { class, strength: step.strength, weight },
                );
            }
        }
        Ok(EligibilitySum { sum: WideScalar { bits: 0 }, count: 0 })
    }

    /// Moves the thresholds of the touched neurons.
    fn move_thresholds<T: Numerics>(&mut self, ops: &T)
        requires
            ops.ready(),
            old(self).steady(),
        ensures
            final(self).steady(),
            thresholds_moved(*ops, *old(self), *final(self)),
            final(self).alphabet == old(self).alphabet,
    {
        reveal(thresholds_moved);
        reveal(Runtime::steady);
        let target: Scalar = self.model.config.dynamics.target_activity;
        let rate: Scalar = self.model.config.dynamics.threshold_homeostasis_rate;
        let activity: Scalar = active_share(
            ops,
            self.active.len(),
            self.model.config.model.neuron_count,
        );
        let population_error: Scalar = ops.minus(activity, target);
        let enabled: bool = self.tracker.enabled;
        update_homeostasis(
            ops,
            &mut self.model.neurons.threshold,
            &mut self.tracker.threshold,
            enabled,
            &self.touched.list,
            &self.state.activation,
            target,
            rate,
            population_error,
        );
    }
}

/// A trace explains a step.
proof fn lemma_step_taken<T: Numerics>(
    ops: T,
    b: Runtime,
    symbol: u32,
    target: Option<u32>,
    permission: Permission,
    t: StepTrace,
    a: Runtime,
    r: LeoResult<StepMetrics>,
)
    requires
        t.stages.leads_on(ops, b, symbol, target, permission),
        t.stages.teaches(ops, t.learned, t.lesson),
        t.lesson is Err ==> a == t.learned && r == Err::<StepMetrics, LeoError>(t.lesson->Err_0),
        t.lesson is Ok ==> {
            &&& if permission == Permission::Frozen {
                t.balanced == t.learned
            } else {
                thresholds_moved(ops, t.learned, t.balanced)
            }
            &&& step_closed(
                ops,
                t.balanced,
                symbol,
                permission,
                t.stages.step.learns,
                step_loss(ops, t.stages.predicted, t.stages.step.target_class),
                t.stages.events,
                a,
            )
            &&& r matches Ok(metrics) && metrics_fit(ops, t, a, metrics)
        },
    ensures
        step_taken(ops, b, symbol, target, permission, a, r),
{
    assert(t.explains(ops, b, symbol, target, permission, a, r)) by {
        reveal(StepTrace::explains);
    }
}

/// A steady runtime with the alphabet of one that can take a step can take one too.
proof fn lemma_goes_on(b: Runtime, a: Runtime)
    requires
        b.can_step(),
        a.steady(),
        a.alphabet == b.alphabet,
    ensures
        a.can_step(),
        a.alphabet.wf(),
        0 < a.alphabet.output_classes,
{
    reveal(Runtime::can_step);
    reveal(Runtime::steady);
}

impl Runtime {
    /// The loss of a class under the prediction.
    fn class_loss<T: Numerics>(&self, ops: &T, class: Option<usize>) -> (r: Option<Scalar>)
        requires
            ops.ready(),
            self.steady(),
            class matches Some(c) ==> c < self.alphabet.output_classes,
        ensures
            r == step_loss(*ops, *self, class),
    {
        reveal(Runtime::steady);
        match class {
            Some(c) => Some(probability_loss(ops, self.numbers.probabilities[c])),
            None => None,
        }
    }

    /// Closes a step.
    fn finish_step<T: Numerics>(
        &mut self,
        ops: &T,
        symbol: u32,
        permission: Permission,
        learned: bool,
        loss: Option<Scalar>,
        count: usize,
    )
        requires
            ops.ready(),
            old(self).steady(),
        ensures
            final(self).steady(),
            step_closed(
                *ops,
                *old(self),
                symbol,
                permission,
                learned,
                loss,
                count,
                *final(self),
            ),
            final(self).alphabet == old(self).alphabet,
            final(self).numbers == old(self).numbers,
    {
        reveal(step_closed);
        reveal(Runtime::steady);
        let sum: Option<WideScalar> = match loss {
            Some(value) => Some(ops.wide_plus(self.model.statistics.training_loss_sum, value)),
            None => None,
        };
        self.close_step(symbol, permission, learned, sum, count);
    }

    /// Measures a step.
    fn measure<T: Numerics>(
        &self,
        ops: &T,
        outcome: &StageOutcome,
        loss: Option<Scalar>,
        used: &EligibilitySum,
        Ghost(t): Ghost<StepTrace>,
    ) -> (m: StepMetrics)
        requires
            ops.ready(),
            self.steady(),
            self.alphabet.wf(),
            0 < self.alphabet.output_classes,
            t.stages.selection == outcome.selection,
            t.stages.events == outcome.events,
            t.stages.neural_loss == outcome.neural_loss,
            t.lesson == Ok::<EligibilitySum, LeoError>(*used),
            loss == step_loss(*ops, t.stages.predicted, t.stages.step.target_class),
        ensures
            metrics_fit(*ops, t, *self, m),
    {
        reveal(Runtime::steady);
        let best: usize = argmax_probability(&self.numbers.probabilities);
        let gain: Scalar = match (outcome.neural_loss, loss) {
            (Some(neural), Some(combined)) => ops.minus(neural, combined),
            _ => Scalar::zero(),
        };
        let mean: Scalar = if used.count == 0 {
            Scalar::zero()
        } else {
            ops.wide_over(used.sum, used.count)
        };
        let m: StepMetrics = StepMetrics {
            loss,
            predicted_symbol: self.alphabet.symbol_of[best],
            active_neurons: self.active.len(),
            emitted_events: outcome.events,
            suprathreshold_neurons: outcome.selection.suprathreshold_neurons,
            block_selected_neurons: outcome.selection.block_selected_neurons,
            global_cap_clipped_neurons: outcome.selection.global_cap_clipped_neurons,
            population_inhibition: self.numbers.population_inhibition,
            context_cells: self.context_slots.len(),
            context_probes: self.context_probes,
            context_applied: self.context_applied,
            context_loss_gain: gain,
            output_madds: output_madds(
                self.active.len(),
                self.context_slots.len(),
                self.model.config.context.embedding_dim,
                self.alphabet.output_classes,
            ),
            eligible_recurrent_synapses: self.recurrent_traces.eligible.list.len(),
            eligible_input_synapses: self.input_traces.eligible.list.len(),
            mean_abs_eligibility: mean,
        };
        assert(is_argmax(self.numbers.probabilities@, best as int));
        assert(m == t.measured(*ops, best as int, *self));
        m
    }

    /// Takes a step: a symbol is taken in, the next one is predicted, and where a target and the
    /// permission allow it, the runtime learns.
    pub fn step<T: Numerics>(
        &mut self,
        ops: &T,
        symbol: u32,
        target: Option<u32>,
        permission: Permission,
    ) -> (r: LeoResult<StepMetrics>)
        requires
            ops.ready(),
            old(self).can_step(),
        ensures
            step_accepted(*old(self), symbol, target) ==> final(self).can_step(),
            !step_accepted(*old(self), symbol, target) ==> *final(self) == *old(self) && fails(
                r,
                LeoErrorKind::Internal,
                symbol_problem(*old(self), symbol, target),
            ),
            step_accepted(*old(self), symbol, target) ==> step_taken(
                *ops,
                *old(self),
                symbol,
                target,
                permission,
                *final(self),
                r,
            ),
    {
        let ghost b = *self;
        let (outcome, Ghost(stages)) = match self.run_stages(ops, symbol, target, permission) {
            Ok(done) => done,
            Err(e) => {
                return Err(e);
            },
        };
        let loss: Option<Scalar> = self.class_loss(ops, outcome.step.target_class);
        let lesson: LeoResult<EligibilitySum> = self.take_lesson(ops, &outcome.step);
        let ghost s_lesson = lesson;
        let ghost s_learned = *self;
        proof {
            lemma_goes_on(b, s_learned);
            assert(stages.teaches(*ops, s_learned, s_lesson)) by {
                reveal(StageTrace::teaches);
            }
        }
        let used: EligibilitySum = match lesson {
            Ok(used) => used,
            Err(e) => {
                let r: LeoResult<StepMetrics> = Err(e);
                proof {
                    let t = StepTrace {
                        stages,
                        learned: s_learned,
                        lesson: s_lesson,
                        balanced: s_learned,
                    };
                    lemma_step_taken(*ops, b, symbol, target, permission, t, *self, r);
                }
                return r;
            },
        };
        if !permission.is_frozen() {
            self.move_thresholds(ops);
        }
        let ghost s_balanced = *self;
        let ghost t = StepTrace {
            stages,
            learned: s_learned,
            lesson: s_lesson,
            balanced: s_balanced,
        };
        self.finish_step(
            ops,
            symbol,
            permission,
            outcome.step.learns,
            loss,
            outcome.events,
        );
        let metrics: StepMetrics = self.measure(ops, &outcome, loss, &used, Ghost(t));
        let r: LeoResult<StepMetrics> = Ok(metrics);
        proof {
            lemma_step_taken(*ops, b, symbol, target, permission, t, *self, r);
            lemma_goes_on(b, *self);
        }
        r
    }
}

} // verus!
