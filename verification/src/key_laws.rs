//! The fingerprints of a context memory stand where they are looked for.

use crate::arithmetic::Numerics;
use crate::assembly::{is_new, DrawnParts};
use crate::config::Config;
use crate::context::{
    fingerprint, law_history_is_bounded, lemma_table_holds, lemma_victim_exists, table_of,
    ContextTable,
};
use crate::delta_laws::keys_at_home;
use crate::error::LeoResult;
use crate::learning::nought;
use crate::lesson::{lesson_taken, EligibilitySum, Lesson, LessonTrace};
use crate::lesson_parts::{
    balanced, context_learned, input_learned, readout_learned, recurrent_learned, told,
};
use crate::metrics::StepMetrics;
use crate::model::{lemma_probe_in_partition, Model};
use crate::permission::Permission;
use crate::runtime::{opened, OpenedStep, Runtime};
use crate::step::{
    class_weight, step_closed, step_taken, thresholds_moved, StageTrace, StepTrace,
};
use crate::row_laws::lemma_stages_rows;
use crate::symbols::Alphabet;
use vstd::prelude::*;

verus! {

/// A slot of a partition is a slot of the table.
pub proof fn lemma_slot_in_table(t: ContextTable, order: int, slot: int)
    requires
        0 < t.slots_per_order,
        t.keys.len() == t.max_order * t.slots_per_order,
        t.in_partition(order, slot),
    ensures
        0 <= slot < t.keys.len(),
{
    assert(0 <= (order - 1) * t.slots_per_order && (order - 1) * t.slots_per_order
        + t.slots_per_order <= t.max_order * t.slots_per_order) by (nonlinear_arith)
        requires
            1 <= order <= t.max_order,
            0 < t.slots_per_order,
    ;
}

/// A new model has no fingerprints, so all of them are at home.
pub proof fn law_new_models_keep_keys_at_home(
    m: Model,
    config: Config,
    alphabet: Alphabet,
    parts: DrawnParts,
)
    requires
        m.context_ready(),
        is_new(m, config, alphabet, parts),
    ensures
        keys_at_home(table_of(m)),
{
    let t = table_of(m);
    assert forall|order: int, slot: int| #[trigger] t.in_partition(order, slot) implies t.keys[slot]
        == 0 by {
        lemma_slot_in_table(t, order, slot);
    }
}

/// Resolving a fingerprint leaves every fingerprint at home.
pub proof fn lemma_resolution_keeps_keys(t: ContextTable, order: int, key: u64, allocate: bool)
    requires
        t.wf(),
        1 <= order <= t.max_order,
        keys_at_home(t),
    ensures
        t.resolve(order, key, allocate).0.wf(),
        t.resolve(order, key, allocate).0.max_order == t.max_order,
        keys_at_home(t.resolve(order, key, allocate).0),
{
    reveal(ContextTable::resolve);
    let after = t.resolve(order, key, allocate).0;
    if !t.holds(order, key) && allocate {
        lemma_victim_exists(t, order, key);
        let o = choose|o: int| #[trigger] t.victim(order, key, o);
        let given = t.slot_at(order, key, o);
        lemma_probe_in_partition(order, key, t.slots_per_order, o);
        assert(t.in_partition(order, given));
        lemma_slot_in_table(t, order, given);
        assert forall|p: int, slot: int|
            #![trigger after.in_partition(p, slot)]
            after.in_partition(p, slot) && after.keys[slot] != 0 implies exists|q: int|
            0 <= q < after.probe_limit && #[trigger] after.slot_at(p, after.keys[slot], q)
                == slot by {
            assert(t.in_partition(p, slot));
            lemma_slot_in_table(t, p, slot);
            if slot == given {
                lemma_one_order(t, p, order, slot);
                assert(after.slot_at(p, after.keys[slot], o) == slot);
            } else {
                let q = choose|q: int|
                    0 <= q < t.probe_limit && #[trigger] t.slot_at(p, t.keys[slot], q) == slot;
                assert(after.slot_at(p, after.keys[slot], q) == slot);
            }
        }
        assert forall|p: int, a: int, b: int|
            #![trigger after.in_partition(p, a), after.in_partition(p, b)]
            after.in_partition(p, a) && after.in_partition(p, b) && a != b && after.keys[a]
                != 0 implies after.keys[a] != after.keys[b] by {
            assert(t.in_partition(p, a) && t.in_partition(p, b));
            lemma_slot_in_table(t, p, a);
            lemma_slot_in_table(t, p, b);
            if a == given || b == given {
                let other = if a == given {
                    b
                } else {
                    a
                };
                lemma_one_order(t, p, order, given);
                if t.keys[other] == key && key != 0 {
                    let q = choose|q: int|
                        0 <= q < t.probe_limit && #[trigger] t.slot_at(p, t.keys[other], q)
                            == other;
                    assert(t.slot_at(order, key, q) == other);
                    lemma_table_holds(t, order, key, q);
                }
            }
        }
    }
}

/// A slot belongs to one order only.
proof fn lemma_one_order(t: ContextTable, p: int, q: int, slot: int)
    requires
        0 < t.slots_per_order,
        t.in_partition(p, slot),
        t.in_partition(q, slot),
    ensures
        p == q,
{
    if p < q {
        assert((p - 1) * t.slots_per_order + t.slots_per_order <= (q - 1) * t.slots_per_order)
            by (nonlinear_arith)
            requires
                p < q,
                0 < t.slots_per_order,
        ;
    } else if q < p {
        assert((q - 1) * t.slots_per_order + t.slots_per_order <= (p - 1) * t.slots_per_order)
            by (nonlinear_arith)
            requires
                q < p,
                0 < t.slots_per_order,
        ;
    }
}

/// Activating contexts leaves every fingerprint at home.
proof fn lemma_activation_keeps_keys(
    t: ContextTable,
    history: Seq<u32>,
    allocate: bool,
    upto: int,
)
    requires
        t.wf(),
        upto <= t.max_order,
        keys_at_home(t),
    ensures
        t.activate(history, allocate, upto).0.wf(),
        t.activate(history, allocate, upto).0.max_order == t.max_order,
        keys_at_home(t.activate(history, allocate, upto).0),
    decreases upto,
{
    if upto > 0 {
        lemma_activation_keeps_keys(t, history, allocate, upto - 1);
        let middle = t.activate(history, allocate, upto - 1).0;
        lemma_resolution_keeps_keys(middle, upto, fingerprint(history, upto), allocate);
    }
}

/// The fingerprints and the sizes of the context memory are those of before.
spec fn keys_stay(b: Runtime, a: Runtime) -> bool {
    a.model.config == b.model.config && a.model.context.keys == b.model.context.keys
}

/// Memories with the same fingerprints and sizes have them at home together.
proof fn lemma_keys_stay(b: Runtime, a: Runtime)
    requires
        keys_stay(b, a),
        keys_at_home(table_of(b.model)),
    ensures
        keys_at_home(table_of(a.model)),
{
    let s = table_of(b.model);
    let t = table_of(a.model);
    assert forall|order: int, slot: int|
        #![trigger t.in_partition(order, slot)]
        t.in_partition(order, slot) && t.keys[slot] != 0 implies exists|o: int|
        0 <= o < t.probe_limit && #[trigger] t.slot_at(order, t.keys[slot], o) == slot by {
        assert(s.in_partition(order, slot));
        let o = choose|o: int|
            0 <= o < s.probe_limit && #[trigger] s.slot_at(order, s.keys[slot], o) == slot;
        assert(t.slot_at(order, t.keys[slot], o) == slot);
    }
    assert forall|order: int, x: int, y: int|
        #![trigger t.in_partition(order, x), t.in_partition(order, y)]
        t.in_partition(order, x) && t.in_partition(order, y) && x != y && t.keys[x]
            != 0 implies t.keys[x] != t.keys[y] by {
        assert(s.in_partition(order, x) && s.in_partition(order, y));
    }
}

/// Opening a step leaves every fingerprint at home.
proof fn lemma_opening_keeps_keys(
    b: Runtime,
    symbol: u32,
    target: Option<u32>,
    permission: Permission,
    step: OpenedStep,
    a: Runtime,
)
    requires
        b.wf(),
        opened(b, symbol, target, permission, step, a),
        keys_at_home(table_of(b.model)),
    ensures
        keys_at_home(table_of(a.model)),
{
    reveal(opened);
    let t = table_of(b.model);
    if b.context_kept(symbol, permission) {
        law_history_is_bounded(b.history@, t.max_order, symbol);
        lemma_activation_keeps_keys(
            t,
            a.history@,
            permission != Permission::Frozen,
            a.history@.len() as int,
        );
    }
}

/// A lesson changes no fingerprint.
proof fn lemma_lesson_keeps_keys<T: Numerics>(
    ops: T,
    b: Runtime,
    l: Lesson,
    a: Runtime,
    r: LeoResult<EligibilitySum>,
)
    requires
        lesson_taken(ops, b, l, a, r),
    ensures
        keys_stay(b, a),
{
    let t = choose|t: LessonTrace| #[trigger] t.explains(ops, b, l, a, r);
    reveal(LessonTrace::explains);
    let (scale, phase) = l.schedule(ops, b);
    assert(keys_stay(b, t.told) && keys_stay(t.told, t.readout)) by {
        reveal(Lesson::starts);
        reveal(told);
        reveal(readout_learned);
    }
    if t.bad_bias is None {
        assert(keys_stay(t.readout, t.context)) by {
            reveal(Lesson::contextual);
            reveal(context_learned);
        }
        if t.context_result is Ok {
            let learned = if t.synapses.recurrent_whole {
                t.synapses.input
            } else {
                t.synapses.recurrent
            };
            assert(keys_stay(t.context, learned)) by {
                reveal(Lesson::synaptic);
                if nought().below(scale) {
                    assert(keys_stay(t.context, t.synapses.recurrent)) by {
                        reveal(recurrent_learned);
                    }
                    if t.synapses.recurrent_whole {
                        assert(keys_stay(t.synapses.recurrent, t.synapses.input)) by {
                            reveal(input_learned);
                        }
                    }
                }
            }
            if t.synapses.recurrent_whole && t.synapses.input_whole {
                assert(keys_stay(learned, a)) by {
                    reveal(Lesson::closes);
                    reveal(balanced);
                }
            }
        }
    }
}

/// A step leaves every fingerprint of the context memory at home.
pub proof fn law_steps_keep_keys_at_home<T: Numerics>(
    ops: T,
    b: Runtime,
    symbol: u32,
    target: Option<u32>,
    permission: Permission,
    a: Runtime,
    r: LeoResult<StepMetrics>,
)
    requires
        b.can_step(),
        step_taken(ops, b, symbol, target, permission, a, r),
        keys_at_home(table_of(b.model)),
    ensures
        keys_at_home(table_of(a.model)),
{
    let t = choose|t: StepTrace| #[trigger] t.explains(ops, b, symbol, target, permission, a, r);
    let s = t.stages;
    reveal(StepTrace::explains);
    assert(b.wf()) by {
        reveal(Runtime::can_step);
    }
    assert(opened(b, symbol, target, permission, s.step, s.opened)) by {
        reveal(StageTrace::leads_on);
    }
    lemma_opening_keeps_keys(b, symbol, target, permission, s.step, s.opened);
    lemma_stages_rows(ops, b, symbol, target, permission, s);
    assert(keys_stay(s.predicted, t.learned)) by {
        reveal(StageTrace::teaches);
        if s.step.learns {
            lemma_lesson_keeps_keys(
                ops,
                s.predicted,
                Lesson {
                    class: s.step.target_class->0,
                    strength: s.step.strength,
                    weight: class_weight(s.predicted, s.step.target_class->0),
                },
                t.learned,
                t.lesson,
            );
        }
    }
    if t.lesson is Ok {
        assert(keys_stay(t.learned, t.balanced)) by {
            reveal(thresholds_moved);
        }
        assert(keys_stay(t.balanced, a)) by {
            reveal(step_closed);
        }
    }
    lemma_keys_stay(s.predicted, a);
}

} // verus!
