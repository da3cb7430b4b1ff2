//! The executor on the CPU.

use crate::arithmetic::Numerics;
use crate::backend::{
    broke_off, mismatch, ran, ran_all, run_steps, BackendCapabilities, BackendKind,
    BackendRuntime, DeviceStoryBatchDeltaReport, DeviceStoryBatchReport, RuntimeBackend,
    StepExecutor,
};
use crate::error::{fails, LeoError, LeoErrorKind, LeoResult};
use crate::metrics::{capped_sum, StepMetrics, TrainingStatistics};
use crate::model::Model;
use crate::permission::Permission;
use crate::runtime::{ParameterChanges, Runtime};
use crate::scalar::Scalar;
use crate::step::{step_accepted, step_taken, symbol_problem};
use crate::symbols::Alphabet;
use crate::text::with_word;
use vstd::prelude::*;

verus! {

/// The reference executor: a runtime with its arithmetic.
pub struct CpuExecutor<'a, T: Numerics> {
    pub runtime: Runtime,
    pub ops: &'a T,
}

/// A model that the runtime can take once it passed validation: its neurons and synapses can be
/// counted, and the bounds of its weights are numbers.
pub open spec fn countable(m: Model) -> bool {
    &&& m.config.model.neuron_count * 4 <= usize::MAX
    &&& m.recurrent.weight.len() <= u32::MAX
    &&& !m.config.learning.weight_min.nan()
    &&& !m.config.learning.weight_max.nan()
}

/// The runtime is at the beginning of a document; only the document was forgotten.
pub open spec fn rested_from(b: Runtime, a: Runtime) -> bool {
    &&& a.at_rest()
    &&& a.model == b.model
    &&& a.alphabet == b.alphabet
    &&& a.current_tick == b.current_tick
    &&& a.tracker == b.tracker
    &&& a.output_cache_dirty == b.output_cache_dirty
    &&& a.output_weights_by_neuron == b.output_weights_by_neuron
    &&& a.ring@.len() == b.ring@.len()
    &&& a.numbers.probabilities == b.numbers.probabilities
    &&& a.numbers.errors == b.numbers.errors
    &&& a.numbers.signal == b.numbers.signal
    &&& a.numbers.destinations == b.numbers.destinations
}

/// The model after a document: one that was learned from counts as a story.
pub open spec fn after_document(b: Runtime) -> Model {
    Model {
        statistics: TrainingStatistics {
            processed_stories: if b.persistent_document_activity {
                capped_sum(b.model.statistics.processed_stories, 1)
            } else {
                b.model.statistics.processed_stories
            },
            ..b.model.statistics
        },
        ..b.model
    }
}

/// A new runtime that passed validation can take steps.
pub proof fn law_new_runtimes_can_step(r: Runtime, target_active: usize)
    requires
        r.wf(),
        r.model.config.violation(r.alphabet.output_classes, target_active) is None,
        countable(r.model),
        r.alphabet.wf(),
    ensures
        r.can_step(),
{
    reveal(Runtime::can_step);
    assert(r.alphabet.accepts(0));
    assert(r.alphabet.class(0) is Some);
}

impl<'a, T: Numerics> CpuExecutor<'a, T> {
    /// An executor for a model that passes validation.
    pub fn new(model: Model, alphabet: Alphabet, ops: &'a T) -> (r: LeoResult<Self>)
        requires
            ops.ready(),
            alphabet.wf(),
            countable(model),
        ensures
            match model.config.violation(
                alphabet.output_classes,
                model.config.target_active(*ops),
            ) {
                Some(text) => fails(r, LeoErrorKind::Configuration, text),
                None => match model.violation(alphabet) {
                    Some(text) => fails(r, LeoErrorKind::Internal, text),
                    None => r is Ok,
                },
            },
            r matches Ok(made) ==> {
                &&& made.sound()
                &&& made.runtime.is_fresh()
                &&& made.runtime.model == model
                &&& made.runtime.alphabet == alphabet
                &&& made.ops == ops
            },
    {
        match Runtime::new(model, alphabet, ops) {
            Ok(runtime) => {
                proof {
                    law_new_runtimes_can_step(runtime, runtime.model.config.target_active(*ops));
                }
                Ok(CpuExecutor { runtime, ops })
            },
            Err(error) => Err(error),
        }
    }
}

impl<'a, T: Numerics> StepExecutor for CpuExecutor<'a, T> {
    open spec fn sound(&self) -> bool {
        self.ops.ready() && self.runtime.can_step()
    }

    open spec fn takes(
        self,
        symbol: u32,
        target: Option<u32>,
        permission: Permission,
        after: Self,
        r: LeoResult<StepMetrics>,
    ) -> bool {
        &&& after.ops == self.ops
        &&& if step_accepted(self.runtime, symbol, target) {
            step_taken(*self.ops, self.runtime, symbol, target, permission, after.runtime, r)
        } else {
            after.runtime == self.runtime && fails(
                r,
                LeoErrorKind::Internal,
                symbol_problem(self.runtime, symbol, target),
            )
        }
    }

    fn step(&mut self, symbol: u32, target: Option<u32>, permission: Permission) -> (r: LeoResult<
        StepMetrics,
    >) {
        self.runtime.step(self.ops, symbol, target, permission)
    }
}

impl<'a, T: Numerics> RuntimeBackend for CpuExecutor<'a, T> {
    open spec fn kind(&self) -> BackendKind {
        BackendKind::Cpu
    }

    open spec fn abilities(&self) -> BackendCapabilities {
        BackendCapabilities {
            available: true,
            training: true,
            evaluation: true,
            generation: true,
            device_resident_model: false,
            batched_documents: false,
        }
    }

    open spec fn held(&self) -> Model {
        self.runtime.model
    }

    open spec fn guesses(&self) -> Seq<Scalar> {
        self.runtime.numbers.probabilities@
    }

    open spec fn firing(&self) -> Seq<usize> {
        self.runtime.active@
    }

    open spec fn level(&self, neuron: usize) -> Scalar {
        if neuron < self.runtime.state.activation.len() {
            self.runtime.state.activation[neuron as int]
        } else {
            Scalar { bits: 0 }
        }
    }

    open spec fn admits(&self, model: Model) -> bool {
        countable(model)
    }

    open spec fn forks(&self, model: Model, r: LeoResult<Self>) -> bool {
        exists|alphabet: Alphabet| #[trigger]
            alphabet.same_as(self.runtime.alphabet) && match model.config.violation(
                alphabet.output_classes,
                model.config.target_active(*self.ops),
            ) {
                Some(text) => fails(r, LeoErrorKind::Configuration, text),
                None => match model.violation(alphabet) {
                    Some(text) => fails(r, LeoErrorKind::Internal, text),
                    None => r matches Ok(made) && made.runtime.is_fresh() && made.runtime.model
                        == model && made.runtime.alphabet == alphabet && made.ops == self.ops,
                },
            }
    }

    open spec fn can_hold(&self, model: Model) -> bool {
        (Runtime { model, output_cache_dirty: true, ..self.runtime }).can_step()
    }

    open spec fn synchronizes(
        &self,
        canonical: Model,
        changes: ParameterChanges,
        after: Self,
        r: LeoResult<()>,
    ) -> bool {
        &&& r is Ok
        &&& after.ops == self.ops
        &&& after.runtime == (Runtime {
            model: canonical,
            output_cache_dirty: true,
            ..self.runtime
        })
    }

    open spec fn pulls(&self, after: Self, r: LeoResult<()>) -> bool {
        r is Ok && after == *self
    }

    open spec fn lends(&self, shown: Model, edited: Model, after: Self) -> bool {
        &&& shown == self.runtime.model
        &&& after.ops == self.ops
        &&& after.runtime == (Runtime { model: edited, output_cache_dirty: true, ..self.runtime })
    }

    open spec fn withholds(&self, error: LeoError, after: Self) -> bool {
        false
    }

    open spec fn commits(&self, changes: ParameterChanges, after: Self, r: LeoResult<()>) -> bool {
        r is Ok && after == *self
    }

    open spec fn tracks(&self, after: Self) -> bool {
        &&& after.ops == self.ops
        &&& after.runtime.tracker.enabled
        &&& self.runtime.tracker.enabled ==> after.runtime.tracker == self.runtime.tracker
        &&& !self.runtime.tracker.enabled ==> self.runtime.tracker.started(after.runtime.tracker)
        &&& after.runtime == (Runtime { tracker: after.runtime.tracker, ..self.runtime })
    }

    open spec fn reports(&self, after: Self, r: LeoResult<ParameterChanges>) -> bool {
        let tracker = self.runtime.tracker;
        &&& after == *self
        &&& r matches Ok(changes) && {
            &&& changes.threshold@ == tracker.threshold.list@
            &&& changes.recurrent_weight@ == tracker.recurrent_weight.list@
            &&& changes.input_weight@ == tracker.input_weight.list@
            &&& changes.output_neurons@ == tracker.output_neurons.list@
            &&& changes.context_slots@ == tracker.context_slots.list@
            &&& changes.output_bias_dirty == tracker.output_bias_dirty
            &&& changes.context_output_dirty == tracker.context_output_dirty
        }
    }

    open spec fn begins(&self, after: Self, r: LeoResult<()>) -> bool {
        r is Ok && after.ops == self.ops && rested_from(self.runtime, after.runtime)
    }

    open spec fn finishes(&self, after: Self, r: LeoResult<()>) -> bool {
        r is Ok && after.ops == self.ops && rested_from(
            Runtime { model: after_document(self.runtime), ..self.runtime },
            after.runtime,
        )
    }

    open spec fn forgets(&self, after: Self, r: LeoResult<()>) -> bool {
        r is Ok && after.ops == self.ops && rested_from(self.runtime, after.runtime)
    }

    open spec fn drills(
        &self,
        steps: Seq<(u32, Option<u32>)>,
        permission: Permission,
        after: Self,
        r: LeoResult<Vec<StepMetrics>>,
    ) -> bool {
        match r {
            Ok(metrics) => ran(
                *self,
                steps,
                permission,
                steps.len() as int,
                after,
                metrics@,
            ),
            Err(error) => broke_off(*self, steps, permission, after, error),
        }
    }

    open spec fn advances(
        &self,
        steps: Seq<(u32, Option<u32>)>,
        after: Self,
        r: LeoResult<()>,
    ) -> bool {
        match r {
            Ok(_) => ran_all(*self, steps, Permission::Frozen, after),
            Err(error) => broke_off(*self, steps, Permission::Frozen, after, error),
        }
    }

    open spec fn trains(
        &self,
        stories: Seq<Vec<u8>>,
        permission: Permission,
        after: Self,
        r: LeoResult<Option<DeviceStoryBatchReport>>,
    ) -> bool {
        after == *self && r == Ok::<Option<DeviceStoryBatchReport>, LeoError>(None)
    }

    open spec fn trains_apart(
        &self,
        stories: Seq<Vec<u8>>,
        permission: Permission,
        after: Self,
        r: LeoResult<Option<DeviceStoryBatchDeltaReport>>,
    ) -> bool {
        after == *self && r == Ok::<Option<DeviceStoryBatchDeltaReport>, LeoError>(None)
    }

    fn backend_kind(&self) -> (r: BackendKind) {
        BackendKind::Cpu
    }

    fn capabilities(&self) -> (r: BackendCapabilities) {
        BackendCapabilities::cpu()
    }

    fn fork(&self, model: Model) -> (r: LeoResult<Self>) {
        let alphabet: Alphabet = self.runtime.alphabet.copied();
        proof {
            reveal(Runtime::can_step);
            assert(alphabet.same_as(self.runtime.alphabet));
        }
        CpuExecutor::new(model, alphabet, self.ops)
    }

    fn model(&self) -> (r: &Model) {
        self.runtime.model()
    }

    fn synchronize_sparse_model(&mut self, canonical: Model, changes: &ParameterChanges) -> (r:
        LeoResult<()>) {
        self.runtime.model = canonical;
        self.runtime.output_cache_dirty = true;
        Ok(())
    }

    fn synchronize_model(&mut self) -> (r: LeoResult<()>) {
        Ok(())
    }

    fn model_mut(&mut self) -> (r: LeoResult<&mut Model>) {
        Ok(self.runtime.model_mut())
    }

    fn commit_sparse_host_model(&mut self, changes: &ParameterChanges) -> (r: LeoResult<()>) {
        Ok(())
    }

    fn enable_parameter_tracking(&mut self) {
        reveal(Runtime::can_step);
        self.runtime.enable_parameter_tracking();
    }

    fn parameter_changes(&mut self) -> (r: LeoResult<ParameterChanges>) {
        Ok(self.runtime.parameter_changes())
    }

    fn probabilities(&self) -> (r: &Vec<Scalar>) {
        self.runtime.probabilities()
    }

    fn active_neurons(&self) -> (r: &Vec<usize>) {
        self.runtime.active_neurons()
    }

    fn activation(&self, neuron: usize) -> (r: Scalar) {
        self.runtime.activation(neuron)
    }

    fn begin_document(&mut self) -> (r: LeoResult<()>) {
        reveal(Runtime::can_step);
        self.runtime.begin_document();
        Ok(())
    }

    fn finish_document(&mut self) -> (r: LeoResult<()>) {
        reveal(Runtime::can_step);
        self.runtime.finish_document();
        Ok(())
    }

    fn reset_transient_state(&mut self) -> (r: LeoResult<()>) {
        reveal(Runtime::can_step);
        self.runtime.reset_transient_state();
        Ok(())
    }

    fn training_step_batch(
        &mut self,
        steps: &Vec<(u32, Option<u32>)>,
        permission: Permission,
    ) -> (r: LeoResult<Vec<StepMetrics>>) {
        run_steps(self, steps, permission)
    }

    fn advance_frozen_batch(&mut self, steps: &Vec<(u32, Option<u32>)>) -> (r: LeoResult<()>) {
        match run_steps(self, steps, Permission::Frozen) {
            Ok(metrics) => {
                assert(ran(
                    *old(self),
                    steps@,
                    Permission::Frozen,
                    steps.len() as int,
                    *self,
                    metrics@,
                ));
                Ok(())
            },
            Err(error) => Err(error),
        }
    }

    fn training_story_batch(&mut self, stories: &Vec<Vec<u8>>, permission: Permission) -> (r:
        LeoResult<Option<DeviceStoryBatchReport>>) {
        Ok(None)
    }

    fn training_story_batch_deltas(&mut self, stories: &Vec<Vec<u8>>, permission: Permission) -> (r:
        LeoResult<Option<DeviceStoryBatchDeltaReport>>) {
        Ok(None)
    }
}

impl<'a, T: Numerics> BackendRuntime<CpuExecutor<'a, T>> {
    /// A runtime for a request that the CPU serves. A request for the GPU is never served by the
    /// CPU: `gpu_problem` says why there is no executor on the GPU.
    pub fn new(
        model: Model,
        requested: BackendKind,
        alphabet: Alphabet,
        ops: &'a T,
        gpu_problem: &LeoError,
    ) -> (r: LeoResult<Self>)
        requires
            ops.ready(),
            alphabet.wf(),
            countable(model),
        ensures
            requested == BackendKind::Gpu ==> fails(
                r,
                LeoErrorKind::Backend,
                "GPU backend requested, but CUDA initialization failed: "@ + gpu_problem.text()
                    + ""@,
            ),
            requested != BackendKind::Gpu ==> match model.config.violation(
                alphabet.output_classes,
                model.config.target_active(*ops),
            ) {
                Some(text) => fails(r, LeoErrorKind::Configuration, text),
                None => match model.violation(alphabet) {
                    Some(text) => fails(r, LeoErrorKind::Internal, text),
                    None => r is Ok,
                },
            },
            r matches Ok(runtime) ==> {
                &&& runtime.asked() == requested
                &&& runtime.used() == BackendKind::Cpu
                &&& runtime.executor().sound()
                &&& runtime.executor().runtime.is_fresh()
                &&& runtime.executor().runtime.model == model
                &&& runtime.executor().runtime.alphabet == alphabet
                &&& runtime.executor().ops == ops
            },
    {
        if requested == BackendKind::Gpu {
            return Err(
                LeoError::backend(
                    with_word(
                        "GPU backend requested, but CUDA initialization failed: ",
                        gpu_problem.message(),
                        "",
                    ),
                ),
            );
        }
        match CpuExecutor::new(model, alphabet, ops) {
            Ok(executor) => {
                assert(mismatch(requested, executor.kind()) is None);
                BackendRuntime::from_backend(requested, executor)
            },
            Err(error) => Err(error),
        }
    }
}

} // verus!
