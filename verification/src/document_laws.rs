//! What holds of the steps of a whole document.

use crate::arithmetic::Numerics;
use crate::context::table_of;
use crate::delta_laws::{keys_at_home, law_the_noted_delta_is_whole, reported};
use crate::error::LeoResult;
use crate::key_laws::law_steps_keep_keys_at_home;
use crate::metrics::StepMetrics;
use crate::model::Model;
use crate::parallel::{one_answer, row_views, ConfigFingerprint, SparseModelDelta};
use crate::permission::Permission;
use crate::row_laws::{
    law_rows_start_noted, law_settled_steps_note_their_rows, rows_noted, rows_settled,
};
use crate::runtime::{ParameterChanges, Runtime};
use crate::scalar::Scalar;
use crate::step::step_taken;
use crate::step_laws::law_steps_keep_the_routes;
use crate::tracking_laws::{
    cancels, law_steps_note_their_changes, law_tracking_starts_complete, notes_all,
};
use vstd::prelude::*;

verus! {

/// The `i`-th step of a document leads from one runtime to the next, and leaves no row without a
/// note.
pub open spec fn leads_to_the_next<T: Numerics>(
    ops: T,
    list: Seq<Runtime>,
    steps: Seq<(u32, Option<u32>)>,
    permission: Permission,
    results: Seq<LeoResult<StepMetrics>>,
    i: int,
) -> bool {
    &&& list[i].can_step()
    &&& step_taken(ops, list[i], steps[i].0, steps[i].1, permission, list[i + 1], results[i])
    &&& rows_settled(list[i], steps[i].0, steps[i].1, permission, results[i])
}

/// The runtimes that the steps of a document pass through.
pub open spec fn course_of_a_document<T: Numerics>(
    ops: T,
    list: Seq<Runtime>,
    steps: Seq<(u32, Option<u32>)>,
    permission: Permission,
    results: Seq<LeoResult<StepMetrics>>,
) -> bool {
    &&& list.len() == steps.len() + 1
    &&& results.len() == steps.len()
    &&& forall|i: int|
        0 <= i < steps.len() ==> #[trigger] leads_to_the_next(
            ops,
            list,
            steps,
            permission,
            results,
            i,
        )
}

/// A runtime has noted everything in which it differs from a base model.
spec fn wholly_noted(base: Model, r: Runtime) -> bool {
    &&& notes_all(base, r)
    &&& rows_noted(base, r)
    &&& keys_at_home(table_of(r.model))
    &&& r.model.config == base.config
    &&& r.model.neurons.excitability == base.neurons.excitability
}

/// Every runtime of a document has noted everything in which it differs from the first one.
proof fn lemma_course_is_noted<T: Numerics>(
    ops: T,
    list: Seq<Runtime>,
    steps: Seq<(u32, Option<u32>)>,
    permission: Permission,
    results: Seq<LeoResult<StepMetrics>>,
    upto: int,
)
    requires
        course_of_a_document(ops, list, steps, permission, results),
        list[0].wf(),
        list[0].tracker.enabled,
        keys_at_home(table_of(list[0].model)),
        0 <= upto <= steps.len(),
    ensures
        wholly_noted(list[0].model, list[upto]),
        list[upto].alphabet == list[0].alphabet,
    decreases upto,
{
    let base = list[0].model;
    if upto == 0 {
        law_tracking_starts_complete(list[0]);
        law_rows_start_noted(list[0]);
    } else {
        let i = upto - 1;
        lemma_course_is_noted(ops, list, steps, permission, results, i);
        assert(leads_to_the_next(ops, list, steps, permission, results, i));
        let b = list[i];
        let a = list[i + 1];
        let (symbol, target) = steps[i];
        law_steps_note_their_changes(ops, base, b, symbol, target, permission, a, results[i]);
        law_settled_steps_note_their_rows(ops, base, b, symbol, target, permission, a, results[i]);
        law_steps_keep_keys_at_home(ops, b, symbol, target, permission, a, results[i]);
        law_steps_keep_the_routes(ops, b, symbol, target, permission, a, results[i]);
    }
}

/// A runtime that tracks its changes while it learns from a document has noted, when the document
/// is finished, everything in which its model differs from the one it began with: the delta of what
/// it noted is the whole delta of the two models.
pub proof fn law_a_document_is_wholly_noted<T: Numerics, F: Fn(Scalar, Scalar) -> Scalar>(
    ops: T,
    f: F,
    list: Seq<Runtime>,
    steps: Seq<(u32, Option<u32>)>,
    permission: Permission,
    results: Seq<LeoResult<StepMetrics>>,
    finished: Runtime,
    fingerprint: ConfigFingerprint,
    changes: ParameterChanges,
    full: SparseModelDelta,
    noted_delta: SparseModelDelta,
)
    requires
        one_answer(f),
        cancels(f),
        course_of_a_document(ops, list, steps, permission, results),
        list[0].wf(),
        list[0].tracker.enabled,
        list[0].model.numbers_finite(),
        keys_at_home(table_of(list[0].model)),
        finished.wf(),
        finished.alphabet == list.last().alphabet,
        finished.tracker == list.last().tracker,
        finished.model == (Model { statistics: finished.model.statistics, ..list.last().model }),
        finished.model.numbers_finite(),
        reported(finished, changes),
        full.header(ops, list[0].model, finished.model, fingerprint),
        full.full(f, list[0].model, finished.model),
        noted_delta.header(ops, list[0].model, finished.model, fingerprint),
        noted_delta.selected(
            f,
            list[0].model,
            finished.model,
            changes,
            list[0].alphabet.output_classes as int,
        ),
    ensures
        noted_delta.config_fingerprint == full.config_fingerprint,
        noted_delta.base_revision == full.base_revision,
        noted_delta.revision_increment == full.revision_increment,
        noted_delta.statistics == full.statistics,
        noted_delta.threshold@ == full.threshold@,
        noted_delta.excitability@ == full.excitability@,
        noted_delta.recurrent_weight@ == full.recurrent_weight@,
        noted_delta.input_weight@ == full.input_weight@,
        noted_delta.output_weight@ == full.output_weight@,
        noted_delta.output_bias@ == full.output_bias@,
        noted_delta.context_output_weight@ == full.context_output_weight@,
        row_views(noted_delta.context@) == row_views(full.context@),
{
    let base = list[0].model;
    lemma_course_is_noted(ops, list, steps, permission, results, steps.len() as int);
    assert(wholly_noted(base, list.last()));
    assert(table_of(finished.model) == table_of(list.last().model));
    law_the_noted_delta_is_whole(f, base, finished, changes, full, noted_delta);
}

} // verus!
