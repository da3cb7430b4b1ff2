//! Training step by step, on devices that cannot hold a grid together: every step is launched by
//! itself, and the records of a chunk are read at once.

use crate::error::{fails, LeoError, LeoErrorKind, LeoResult};
use crate::metrics::{StepMetrics, WideScalar};
use crate::parallel::takes_any_pair;
use crate::records::{
    reading_result, some_notes, takes_any_count, takes_any_loss, to_some_notes, DeviceState,
    RecordShape, StepRecord,
};
use crate::replay::SingleStep;
use crate::scalar::Scalar;
use crate::steps::{chunk_end, chunk_end_of, step_problem, StepNote, StepSetting};
use crate::symbols::Alphabet;
use vstd::prelude::*;

verus! {

/// What the error of a refused step starts with.
pub open spec fn refusal() -> Seq<char> {
    "CUDA learning update rejected a non-finite value (code "@
}

/// What is done next.
#[derive(Debug, Clone, Copy, PartialEq, Eq, Structural)]
pub enum FallbackAction {
    /// The step is launched, and its record is left at a place of the chunk.
    Launch { step: SingleStep, record: usize },
    /// The records of the chunk are read: as many as steps were launched.
    Read { count: usize },
    /// Every step is taken.
    Done,
}

/// A batch of steps that is taken step by step.
#[derive(Debug)]
pub struct FallbackRun {
    pub setting: StepSetting,
    /// The first step of the chunk.
    pub start: usize,
    /// The notes of the chunk's steps that were launched.
    pub notes: Vec<StepNote>,
    /// The metrics of the steps whose records were read.
    pub metrics: Vec<StepMetrics>,
}

impl FallbackRun {
    /// The first step that is not launched yet.
    pub open spec fn at(self) -> int {
        self.start + self.notes.len()
    }

    /// The run stands inside its chunk.
    pub open spec fn wf(self, steps: Seq<(u32, Option<u32>)>) -> bool {
        self.start <= steps.len() && self.at() <= chunk_end_of(
            self.start as int,
            steps.len() as int,
        )
    }

    /// A run that has taken nothing yet.
    pub fn new(setting: StepSetting) -> (r: FallbackRun)
        ensures
            r.setting == setting,
            r.start == 0,
            r.notes@ == Seq::<StepNote>::empty(),
            r.metrics@ == Seq::<StepMetrics>::empty(),
    {
        FallbackRun { setting, start: 0, notes: Vec::new(), metrics: Vec::new() }
    }

    /// What is done next. A step that cannot be taken is refused when it is its turn: the steps
    /// before it have been launched.
    pub fn next(
        &self,
        alphabet: &Alphabet,
        steps: &Vec<(u32, Option<u32>)>,
        state: &DeviceState,
    ) -> (r: LeoResult<FallbackAction>)
        requires
            self.wf(steps@),
        ensures
            if self.at() < chunk_end_of(self.start as int, steps.len() as int) {
                match step_problem(*alphabet, steps@[self.at()]) {
                    Some(text) => fails(r, LeoErrorKind::Cuda, text),
                    None => r == Ok::<FallbackAction, LeoError>(
                        FallbackAction::Launch {
                            step: SingleStep::of(
                                *alphabet,
                                self.setting,
                                state.current_tick,
                                steps@[self.at()],
                            ),
                            record: self.notes.len(),
                        },
                    ),
                }
            } else if self.notes.len() > 0 {
                r == Ok::<FallbackAction, LeoError>(
                    FallbackAction::Read { count: self.notes.len() },
                )
            } else {
                self.start == steps.len() && r == Ok::<FallbackAction, LeoError>(
                    FallbackAction::Done,
                )
            },
    {
        let end: usize = chunk_end(self.start, steps.len());
        let record: usize = self.notes.len();
        if record < end - self.start {
            let (symbol, target) = steps[self.start + record];
            return match SingleStep::plan(
                alphabet,
                &self.setting,
                state.current_tick,
                symbol,
                target,
            ) {
                Ok(step) => Ok(FallbackAction::Launch { step, record }),
                Err(e) => Err(e),
            };
        }
        if record > 0 {
            Ok(FallbackAction::Read { count: record })
        } else {
            Ok(FallbackAction::Done)
        }
    }

    /// Takes in that a step was launched.
    pub fn launched(
        &mut self,
        step: &SingleStep,
        steps: &Vec<(u32, Option<u32>)>,
        state: &mut DeviceState,
    )
        requires
            old(self).wf(steps@),
            old(self).at() < chunk_end_of(old(self).start as int, steps.len() as int),
        ensures
            final(self).wf(steps@),
            final(self).notes@ == old(self).notes@.push(step.note),
            *final(self) == (FallbackRun { notes: final(self).notes, ..*old(self) }),
            *final(state) == old(state).after_launch(
                1,
                if step.learning_trace {
                    1
                } else {
                    0
                },
                if step.learning is Some {
                    1
                } else {
                    0
                },
                step.note.context_enabled,
            ),
    {
        step.launched(state);
        self.notes.push(step.note);
    }

    /// The records of the chunk were read.
    pub open spec fn chunk_read<
        S: Fn(Scalar, Scalar) -> Scalar,
        Q: Fn(Scalar, u32) -> Scalar,
        A: Fn(WideScalar, Scalar) -> WideScalar,
    >(
        self,
        subtract: S,
        divide: Q,
        raise: A,
        before: DeviceState,
        after: DeviceState,
        a: Alphabet,
        shape: RecordShape,
        records: Seq<StepRecord>,
        list: LeoResult<Vec<StepMetrics>>,
    ) -> bool {
        reading_result(
            subtract,
            divide,
            raise,
            a,
            shape,
            some_notes(self.notes@),
            records,
            !self.setting.frozen,
            refusal(),
            before,
            after,
            list,
        )
    }

    /// Takes in the records of a chunk. A record with an error code is counted and ends the run.
    pub fn read<
        S: Fn(Scalar, Scalar) -> Scalar,
        Q: Fn(Scalar, u32) -> Scalar,
        A: Fn(WideScalar, Scalar) -> WideScalar,
    >(
        &mut self,
        steps: &Vec<(u32, Option<u32>)>,
        state: &mut DeviceState,
        alphabet: &Alphabet,
        shape: &RecordShape,
        records: &Vec<StepRecord>,
        subtract: &S,
        divide: &Q,
        raise: &A,
    ) -> (r: LeoResult<()>)
        requires
            takes_any_pair(*subtract),
            takes_any_count(*divide),
            takes_any_loss(*raise),
            old(self).wf(steps@),
            old(self).notes.len() == records.len(),
            forall|k: int|
                0 <= k < records.len() && records@[k].code() == 0
                    ==> #[trigger] records@[k].readable(*alphabet),
        ensures
            final(self).wf(steps@),
            final(self).setting == old(self).setting,
            exists|list: LeoResult<Vec<StepMetrics>>|
                {
                    &&& #[trigger] old(self).chunk_read(
                        *subtract,
                        *divide,
                        *raise,
                        *old(state),
                        *final(state),
                        *alphabet,
                        *shape,
                        records@,
                        list,
                    )
                    &&& match list {
                        Ok(more) => {
                            &&& r is Ok
                            &&& final(self).start == old(self).at()
                            &&& final(self).notes@ == Seq::<StepNote>::empty()
                            &&& final(self).metrics@ == old(self).metrics@ + more@
                        },
                        Err(e) => r == Err::<(), LeoError>(e) && *final(self) == *old(self),
                    }
                },
    {
        let notes: Vec<Option<StepNote>> = to_some_notes(&self.notes);
        let learning_trace: bool = !self.setting.frozen;
        let result: LeoResult<Vec<StepMetrics>> = state.read_records(
            alphabet,
            shape,
            &notes,
            records,
            learning_trace,
            "CUDA learning update rejected a non-finite value (code ",
            subtract,
            divide,
            raise,
        );
        let ghost outcome = result;
        assert(old(self).chunk_read(
            *subtract,
            *divide,
            *raise,
            *old(state),
            *state,
            *alphabet,
            *shape,
            records@,
            outcome,
        ));
        match result {
            Ok(list) => {
                let mut more: Vec<StepMetrics> = list;
                self.metrics.append(&mut more);
                assert(self.at() <= steps.len());
                self.start = self.start + self.notes.len();
                self.notes = Vec::new();
                Ok(())
            },
            Err(e) => Err(e),
        }
    }
}

/// A run that has come to its end has launched every step.
pub proof fn law_finished_runs_took_every_step(
    run: FallbackRun,
    steps: Seq<(u32, Option<u32>)>,
)
    requires
        run.wf(steps),
        run.notes.len() == 0,
        run.at() == chunk_end_of(run.start as int, steps.len() as int),
    ensures
        run.start == steps.len(),
{
}

} // verus!
