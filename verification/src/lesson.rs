//! What a step learns from its target.

use crate::arithmetic::Numerics;
use crate::error::{fails, LeoError, LeoErrorKind, LeoResult};
use crate::learning::nought;
use crate::lesson_parts::{
    balanced, context_learned, input_learned, readout_learned, recurrent_learned, same_frame, told,
};
use crate::metrics::{capped_sum, WideScalar};
use crate::plasticity::{eligibility_total, sum_eligibility};
use crate::runtime::{Numbers, Runtime};
use crate::scalar::Scalar;
use crate::text::{decimal, with_number};
use vstd::prelude::*;

verus! {

/// The eligibilities that a lesson has used: their sum without signs, and how many there were.
#[derive(Debug, Clone, Copy, PartialEq, Eq, Structural)]
pub struct EligibilitySum {
    pub sum: WideScalar,
    pub count: u64,
}

/// No eligibility was used.
pub open spec fn no_eligibility() -> EligibilitySum {
    EligibilitySum { sum: WideScalar { bits: 0 }, count: 0 }
}

/// The eligibilities of all eligible synapses.
pub open spec fn eligibility_used<T: Numerics>(ops: T, b: Runtime) -> EligibilitySum {
    let recurrent = b.recurrent_traces.eligible.list@;
    let input = b.input_traces.eligible.list@;
    EligibilitySum {
        sum: eligibility_total(
            ops,
            eligibility_total(
                ops,
                WideScalar { bits: 0 },
                b.recurrent_traces.eligibility@,
                recurrent,
                recurrent.len() as int,
            ),
            b.input_traces.eligibility@,
            input,
            input.len() as int,
        ),
        count: capped_sum(recurrent.len() as u64, input.len() as u64),
    }
}

/// How the learning of the synapses went.
pub struct SynapseParts {
    pub recurrent: Runtime,
    pub recurrent_whole: bool,
    pub input: Runtime,
    pub input_whole: bool,
}

/// The way of a lesson: the runtime after each of its parts, and how the part ended.
pub struct LessonTrace {
    pub told: Runtime,
    pub readout: Runtime,
    pub bad_bias: Option<usize>,
    pub context: Runtime,
    pub context_result: LeoResult<()>,
    pub synapses: SynapseParts,
    pub balanced: Runtime,
    pub balanced_whole: bool,
}

/// A lesson: the class that came, how strongly the step learns from it, and the weight of the
/// class.
#[derive(Debug, Clone, Copy, PartialEq, Eq, Structural)]
pub struct Lesson {
    pub class: usize,
    pub strength: Scalar,
    pub weight: Scalar,
}

impl Lesson {
    /// How strongly the lesson moves what it moves.
    pub open spec fn supervised<T: Numerics>(self, ops: T) -> Scalar {
        ops.product(self.strength, self.weight)
    }

    /// How much of the credit is consolidated, and the phase after the lesson.
    pub open spec fn schedule<T: Numerics>(self, ops: T, b: Runtime) -> (Scalar, usize) {
        ops.consolidation(
            b.numbers.plasticity_phase,
            self.class == b.alphabet.end_document_class,
        )
    }

    /// The lesson starts: the neurons are told, and the readout learns.
    #[verifier::opaque]
    pub open spec fn starts<T: Numerics>(
        self,
        ops: T,
        b: Runtime,
        middle: Runtime,
        bad_bias: Option<usize>,
        a: Runtime,
    ) -> bool {
        &&& told(ops, b, self.class as int, self.schedule(ops, b).0, middle)
        &&& readout_learned(
            ops,
            middle,
            ops.product(
                b.model.config.learning.output_learning_rate.opposite(),
                self.supervised(ops),
            ),
            bad_bias,
            a,
        )
    }

    /// The context learns, where it was used.
    #[verifier::opaque]
    pub open spec fn contextual<T: Numerics>(
        self,
        ops: T,
        b: Runtime,
        a: Runtime,
        r: LeoResult<()>,
    ) -> bool {
        if b.context_applied {
            context_learned(ops, b, self.supervised(ops), a, r)
        } else {
            a == b && r is Ok
        }
    }

    /// The synapses learn, where credit is consolidated: first the recurrent ones, then those of
    /// the input.
    #[verifier::opaque]
    pub open spec fn synaptic<T: Numerics>(
        self,
        ops: T,
        scale: Scalar,
        b: Runtime,
        parts: SynapseParts,
        a: Runtime,
    ) -> bool {
        let consolidated = ops.product(self.supervised(ops), scale);
        if nought().below(scale) {
            &&& recurrent_learned(ops, b, consolidated, parts.recurrent, parts.recurrent_whole)
            &&& if parts.recurrent_whole {
                &&& input_learned(
                    ops,
                    parts.recurrent,
                    consolidated,
                    parts.input,
                    parts.input_whole,
                )
                &&& a == parts.input
            } else {
                a == parts.recurrent
            }
        } else {
            parts.recurrent_whole && parts.input_whole && a == b
        }
    }

    /// What the learning of the synapses gives.
    pub open spec fn synapses_end<T: Numerics>(
        self,
        ops: T,
        b: Runtime,
        parts: SynapseParts,
        r: LeoResult<EligibilitySum>,
    ) -> bool {
        if !parts.recurrent_whole {
            fails(r, LeoErrorKind::Numerical, "non-finite recurrent update rejected"@)
        } else if !parts.input_whole {
            fails(r, LeoErrorKind::Numerical, "non-finite input update rejected"@)
        } else {
            r == Ok::<EligibilitySum, LeoError>(
                if nought().below(self.schedule(ops, b).0) {
                    eligibility_used(ops, b)
                } else {
                    no_eligibility()
                },
            )
        }
    }

    /// The end of a lesson: inhibition is balanced, and the schedule moves on.
    #[verifier::opaque]
    pub open spec fn closes<T: Numerics>(
        self,
        ops: T,
        b: Runtime,
        phase: usize,
        middle: Runtime,
        whole: bool,
        a: Runtime,
    ) -> bool {
        &&& balanced(ops, b, self.strength, middle, whole)
        &&& a == if whole {
            Runtime {
                numbers: Numbers { plasticity_phase: phase, ..middle.numbers },
                ..middle
            }
        } else {
            middle
        }
    }
}

impl LessonTrace {
    /// The whole lesson, and what comes of it: the first part that meets a number that is not
    /// finite ends it.
    #[verifier::opaque]
    pub open spec fn explains<T: Numerics>(
        self,
        ops: T,
        b: Runtime,
        l: Lesson,
        a: Runtime,
        r: LeoResult<EligibilitySum>,
    ) -> bool {
        let (scale, phase) = l.schedule(ops, b);
        let learned = if self.synapses.recurrent_whole {
            self.synapses.input
        } else {
            self.synapses.recurrent
        };
        &&& l.starts(ops, b, self.told, self.bad_bias, self.readout)
        &&& match self.bad_bias {
            Some(class) => a == self.readout && fails(
                r,
                LeoErrorKind::Numerical,
                "output bias "@ + decimal(class as nat) + " became non-finite"@,
            ),
            None => {
                &&& l.contextual(ops, self.readout, self.context, self.context_result)
                &&& match self.context_result {
                    Err(e) => a == self.context && r == Err::<EligibilitySum, LeoError>(e),
                    Ok(_) => {
                        &&& l.synaptic(ops, scale, self.context, self.synapses, learned)
                        &&& if self.synapses.recurrent_whole && self.synapses.input_whole {
                            &&& l.closes(
                                ops,
                                learned,
                                phase,
                                self.balanced,
                                self.balanced_whole,
                                a,
                            )
                            &&& if self.balanced_whole {
                                l.synapses_end(ops, b, self.synapses, r)
                            } else {
                                fails(
                                    r,
                                    LeoErrorKind::Numerical,
                                    "non-finite inhibitory update rejected"@,
                                )
                            }
                        } else {
                            a == learned && l.synapses_end(ops, b, self.synapses, r)
                        }
                    },
                }
            },
        }
    }
}

/// A lesson was taken.
pub open spec fn lesson_taken<T: Numerics>(
    ops: T,
    b: Runtime,
    l: Lesson,
    a: Runtime,
    r: LeoResult<EligibilitySum>,
) -> bool {
    exists|t: LessonTrace| #[trigger] t.explains(ops, b, l, a, r)
}

/// A trace explains a lesson.
proof fn lemma_taken<T: Numerics>(
    ops: T,
    b: Runtime,
    l: Lesson,
    t: LessonTrace,
    a: Runtime,
    r: LeoResult<EligibilitySum>,
)
    requires
        l.starts(ops, b, t.told, t.bad_bias, t.readout),
        t.bad_bias matches Some(class) ==> a == t.readout && fails(
            r,
            LeoErrorKind::Numerical,
            "output bias "@ + decimal(class as nat) + " became non-finite"@,
        ),
        t.bad_bias is None ==> l.contextual(ops, t.readout, t.context, t.context_result),
        t.bad_bias is None && t.context_result is Err ==> a == t.context && r == Err::<
            EligibilitySum,
            LeoError,
        >(t.context_result->Err_0),
        t.bad_bias is None && t.context_result is Ok ==> {
            let learned = if t.synapses.recurrent_whole {
                t.synapses.input
            } else {
                t.synapses.recurrent
            };
            let (scale, phase) = l.schedule(ops, b);
            &&& l.synaptic(ops, scale, t.context, t.synapses, learned)
            &&& if t.synapses.recurrent_whole && t.synapses.input_whole {
                &&& l.closes(ops, learned, phase, t.balanced, t.balanced_whole, a)
                &&& if t.balanced_whole {
                    l.synapses_end(ops, b, t.synapses, r)
                } else {
                    fails(r, LeoErrorKind::Numerical, "non-finite inhibitory update rejected"@)
                }
            } else {
                a == learned && l.synapses_end(ops, b, t.synapses, r)
            }
        },
    ensures
        lesson_taken(ops, b, l, a, r),
{
    assert(t.explains(ops, b, l, a, r)) by {
        reveal(LessonTrace::explains);
    }
}

impl Runtime {
    fn use_eligibility<T: Numerics>(&self, ops: &T) -> (r: EligibilitySum)
        requires
            ops.ready(),
            self.steady(),
        ensures
            r == eligibility_used(*ops, *self),
    {
        reveal(Runtime::steady);
        let first: WideScalar = sum_eligibility(
            ops,
            WideScalar { bits: 0 },
            &self.recurrent_traces.eligibility,
            &self.recurrent_traces.eligible.list,
        );
        EligibilitySum {
            sum: sum_eligibility(
                ops,
                first,
                &self.input_traces.eligibility,
                &self.input_traces.eligible.list,
            ),
            count: (self.recurrent_traces.eligible.list.len() as u64).saturating_add(
                self.input_traces.eligible.list.len() as u64,
            ),
        }
    }

    /// Learns the readout, after the neurons were told of the errors.
    fn start_lesson<T: Numerics>(
        &mut self,
        ops: &T,
        l: &Lesson,
        scale: Scalar,
        supervised: Scalar,
    ) -> (r: (Option<usize>, Ghost<Runtime>))
        requires
            ops.ready(),
            old(self).steady(),
            l.class < old(self).alphabet.output_classes,
            supervised == l.supervised(*ops),
            scale == l.schedule(*ops, *old(self)).0,
        ensures
            final(self).steady(),
            same_frame(*old(self), *final(self)),
            l.starts(*ops, *old(self), r.1@, r.0, *final(self)),
    {
        self.tell(ops, l.class, scale);
        let ghost middle = *self;
        let rate: Scalar = ops.times(
            self.model.config.learning.output_learning_rate.negated(),
            supervised,
        );
        let bad: Option<usize> = self.learn_readout(ops, rate);
        reveal(Lesson::starts);
        (bad, Ghost(middle))
    }

    /// Learns the context, where it was used.
    fn learn_used_context<T: Numerics>(&mut self, ops: &T, l: &Lesson, supervised: Scalar) -> (r:
        LeoResult<()>)
        requires
            ops.ready(),
            old(self).steady(),
            supervised == l.supervised(*ops),
        ensures
            final(self).steady(),
            same_frame(*old(self), *final(self)),
            l.contextual(*ops, *old(self), *final(self), r),
    {
        reveal(Lesson::contextual);
        if self.context_applied {
            self.update_context_projection(ops, supervised)
        } else {
            Ok(())
        }
    }

    /// Learns the recurrent and the input weights where credit is consolidated.
    fn learn_synapses<T: Numerics>(
        &mut self,
        ops: &T,
        l: &Lesson,
        scale: Scalar,
        supervised: Scalar,
        Ghost(b): Ghost<Runtime>,
    ) -> (r: (LeoResult<EligibilitySum>, Ghost<SynapseParts>))
        requires
            ops.ready(),
            old(self).steady(),
            same_frame(b, *old(self)),
            supervised == l.supervised(*ops),
            scale == l.schedule(*ops, b).0,
        ensures
            final(self).steady(),
            same_frame(*old(self), *final(self)),
            l.synaptic(*ops, scale, *old(self), r.1@, *final(self)),
            l.synapses_end(*ops, b, r.1@, r.0),
            *final(self) == if r.1@.recurrent_whole {
                r.1@.input
            } else {
                r.1@.recurrent
            },
            r.0 is Ok <==> r.1@.recurrent_whole && r.1@.input_whole,
    {
        reveal(Lesson::synaptic);
        let ghost start = *self;
        if !Scalar::zero().lt(scale) {
            return (
                Ok(EligibilitySum { sum: WideScalar { bits: 0 }, count: 0 }),
                Ghost(
                    SynapseParts {
                        recurrent: start,
                        recurrent_whole: true,
                        input: start,
                        input_whole: true,
                    },
                ),
            );
        }
        let consolidated: Scalar = ops.times(supervised, scale);
        let recurrent: bool = self.learn_recurrent(ops, consolidated);
        let ghost middle = *self;
        if !recurrent {
            return (
                Err(LeoError::numerical("non-finite recurrent update rejected".to_owned())),
                Ghost(
                    SynapseParts {
                        recurrent: middle,
                        recurrent_whole: false,
                        input: middle,
                        input_whole: true,
                    },
                ),
            );
        }
        let input: bool = self.learn_inputs(ops, consolidated);
        let ghost parts = SynapseParts {
            recurrent: middle,
            recurrent_whole: true,
            input: *self,
            input_whole: input,
        };
        if !input {
            return (
                Err(LeoError::numerical("non-finite input update rejected".to_owned())),
                Ghost(parts),
            );
        }
        (Ok(self.use_eligibility(ops)), Ghost(parts))
    }

    /// Balances the inhibition and moves the schedule on.
    fn close_lesson<T: Numerics>(&mut self, ops: &T, l: &Lesson, phase: usize) -> (r: (
        bool,
        Ghost<Runtime>,
    ))
        requires
            ops.ready(),
            old(self).steady(),
        ensures
            final(self).steady(),
            final(self).alphabet == old(self).alphabet,
            l.closes(*ops, *old(self), phase, r.1@, r.0, *final(self)),
    {
        let whole: bool = self.balance(ops, l.strength);
        let ghost middle = *self;
        if whole {
            self.numbers.plasticity_phase = phase;
            assert(self.steady()) by {
                reveal(Runtime::steady);
            }
        }
        reveal(Lesson::closes);
        (whole, Ghost(middle))
    }

    /// Learns from the class that came. Readout and context learn on every target; credit for
    /// recurrent and input weights is consolidated by the schedule; inhibition is balanced on
    /// every step.
    pub fn apply_learning<T: Numerics>(&mut self, ops: &T, l: &Lesson) -> (r: LeoResult<
        EligibilitySum,
    >)
        requires
            ops.ready(),
            old(self).steady(),
            l.class < old(self).alphabet.output_classes,
        ensures
            final(self).steady(),
            final(self).alphabet == old(self).alphabet,
            lesson_taken(*ops, *old(self), *l, *final(self), r),
    {
        let ghost b = *self;
        let supervised: Scalar = ops.times(l.strength, l.weight);
        let (scale, phase) = ops.consolidate(
            self.numbers.plasticity_phase,
            l.class == self.alphabet.end_document_class,
        );
        let (bad, Ghost(s_told)) = self.start_lesson(ops, l, scale, supervised);
        let ghost s_readout = *self;
        let ghost idle = SynapseParts {
            recurrent: s_readout,
            recurrent_whole: true,
            input: s_readout,
            input_whole: true,
        };
        if let Some(class) = bad {
            let r: LeoResult<EligibilitySum> = Err(
                LeoError::numerical(
                    with_number("output bias ", class as u64, " became non-finite"),
                ),
            );
            proof {
                let trace = LessonTrace {
                    told: s_told,
                    readout: s_readout,
                    bad_bias: bad,
                    context: s_readout,
                    context_result: Ok(()),
                    synapses: idle,
                    balanced: s_readout,
                    balanced_whole: true,
                };
                lemma_taken(*ops, b, *l, trace, *self, r);
            }
            return r;
        }
        let learned: LeoResult<()> = self.learn_used_context(ops, l, supervised);
        let ghost s_context = *self;
        let ghost s_learned = learned;
        if let Err(e) = learned {
            let r: LeoResult<EligibilitySum> = Err(e);
            proof {
                let trace = LessonTrace {
                    told: s_told,
                    readout: s_readout,
                    bad_bias: bad,
                    context: s_context,
                    context_result: s_learned,
                    synapses: idle,
                    balanced: s_readout,
                    balanced_whole: true,
                };
                lemma_taken(*ops, b, *l, trace, *self, r);
            }
            return r;
        }
        let (synapses, Ghost(parts)) = self.learn_synapses(ops, l, scale, supervised, Ghost(b));
        if synapses.is_err() {
            proof {
                let trace = LessonTrace {
                    told: s_told,
                    readout: s_readout,
                    bad_bias: bad,
                    context: s_context,
                    context_result: s_learned,
                    synapses: parts,
                    balanced: s_readout,
                    balanced_whole: true,
                };
                lemma_taken(*ops, b, *l, trace, *self, synapses);
            }
            return synapses;
        }
        let (calm, Ghost(s_balanced)) = self.close_lesson(ops, l, phase);
        let r: LeoResult<EligibilitySum> = if calm {
            synapses
        } else {
            Err(LeoError::numerical("non-finite inhibitory update rejected".to_owned()))
        };
        proof {
            let trace = LessonTrace {
                told: s_told,
                readout: s_readout,
                bad_bias: bad,
                context: s_context,
                context_result: s_learned,
                synapses: parts,
                balanced: s_balanced,
                balanced_whole: calm,
            };
            lemma_taken(*ops, b, *l, trace, *self, r);
        }
        r
    }
}

} // verus!
