//! The host model as a mirror of the device: changed values are written back, the changes are
//! accumulated.

use crate::marks::{accumulated, MarkList};
use crate::model::{lemma_row_fits, Model};
use crate::parallel::{all_inside, list_output_places, output_places};
use crate::records::DeviceState;
use crate::runtime::{ChangeTracker, ParameterChanges};
use crate::scalar::Scalar;
use crate::snapshot::TrackedModelValues;
use vstd::prelude::*;

verus! {

/// A list with the first `upto` values written at their places, one after the other.
pub open spec fn scattered<T>(base: Seq<T>, places: Seq<usize>, values: Seq<T>, upto: int) -> Seq<T>
    decreases upto,
{
    if upto <= 0 {
        base
    } else {
        scattered(base, places, values, upto - 1).update(places[upto - 1] as int, values[upto - 1])
    }
}

proof fn lemma_scattered_len<T>(base: Seq<T>, places: Seq<usize>, values: Seq<T>, upto: int)
    requires
        upto <= places.len(),
        all_inside(places, base.len() as int, base.len() as int),
    ensures
        scattered(base, places, values, upto).len() == base.len(),
    decreases upto,
{
    if upto > 0 {
        lemma_scattered_len(base, places, values, upto - 1);
        assert(places[upto - 1] < base.len());
    }
}

/// Writes values at their places.
pub fn scatter<T: Copy>(target: &mut Vec<T>, places: &Vec<usize>, values: &Vec<T>)
    requires
        places.len() == values.len(),
        all_inside(places@, old(target).len() as int, old(target).len() as int),
    ensures
        final(target)@ == scattered(old(target)@, places@, values@, places.len() as int),
        final(target).len() == old(target).len(),
{
    let mut i: usize = 0;
    while i < places.len()
        invariant
            i <= places.len(),
            places.len() == values.len(),
            target.len() == old(target).len(),
            all_inside(places@, old(target).len() as int, old(target).len() as int),
            target@ == scattered(old(target)@, places@, values@, i as int),
        decreases places.len() - i,
    {
        let place: usize = places[i];
        assert(places@[i as int] < target.len());
        target.set(place, values[i]);
        i = i + 1;
    }
}

/// What is written at different places is found there again, and every other place is as it
/// was.
pub proof fn law_scattered_values_are_found<T>(
    base: Seq<T>,
    places: Seq<usize>,
    values: Seq<T>,
    upto: int,
    k: int,
    other: int,
)
    requires
        places.no_duplicates(),
        0 <= k < upto <= places.len(),
        places.len() == values.len(),
        all_inside(places, base.len() as int, base.len() as int),
        0 <= other < base.len(),
        !places.contains(other as usize),
        base.len() <= usize::MAX,
    ensures
        scattered(base, places, values, upto)[places[k] as int] == values[k],
        scattered(base, places, values, upto)[other] == base[other],
    decreases upto,
{
    lemma_scattered_len(base, places, values, upto - 1);
    assert(places[upto - 1] < base.len());
    assert(places[k] < base.len());
    if places[upto - 1] == other {
        assert(places.contains(other as usize));
    }
    if k < upto - 1 {
        law_scattered_values_are_found(base, places, values, upto - 1, k, other);
        assert(places[k] != places[upto - 1]);
    } else {
        lemma_others_stay(base, places, values, upto - 1, other);
    }
}

proof fn lemma_others_stay<T>(
    base: Seq<T>,
    places: Seq<usize>,
    values: Seq<T>,
    upto: int,
    other: int,
)
    requires
        0 <= upto <= places.len(),
        all_inside(places, base.len() as int, base.len() as int),
        0 <= other < base.len(),
        base.len() <= usize::MAX,
        !places.contains(other as usize),
    ensures
        scattered(base, places, values, upto)[other] == base[other],
    decreases upto,
{
    if upto > 0 {
        lemma_others_stay(base, places, values, upto - 1, other);
        lemma_scattered_len(base, places, values, upto - 1);
        if places[upto - 1] == other {
            assert(places.contains(other as usize));
        }
    }
}

/// The places of the embeddings of some slots, slot by slot.
pub open spec fn row_places(slots: Seq<usize>, dim: int) -> Seq<usize>
    decreases slots.len(),
{
    if slots.len() == 0 {
        seq![]
    } else {
        row_places(slots.drop_last(), dim) + Seq::new(
            dim as nat,
            |i: int| (slots.last() * dim + i) as usize,
        )
    }
}

/// The places of the embeddings of some slots.
fn list_row_places(slots: &Vec<usize>, dim: usize, rows: usize) -> (r: Vec<usize>)
    requires
        rows * dim <= usize::MAX,
        all_inside(slots@, rows as int, rows as int),
    ensures
        r@ == row_places(slots@, dim as int),
        all_inside(r@, rows * dim, rows * dim),
        r.len() == slots.len() * dim,
{
    let mut list: Vec<usize> = Vec::new();
    let mut at: usize = 0;
    assert(slots@.take(0) =~= Seq::<usize>::empty());
    assert(0 * dim == 0) by (nonlinear_arith);
    while at < slots.len()
        invariant
            rows * dim <= usize::MAX,
            all_inside(slots@, rows as int, rows as int),
            at <= slots.len(),
            list@ == row_places(slots@.take(at as int), dim as int),
            all_inside(list@, rows * dim, rows * dim),
            list.len() == at * dim,
        decreases slots.len() - at,
    {
        let slot: usize = slots[at];
        assert(slots@[at as int] < rows);
        let ghost earlier = list@;
        let ghost row = Seq::new(dim as nat, |i: int| (slot * dim + i) as usize);
        proof {
            lemma_row_fits(slot as int, rows as int, dim as int);
        }
        let mut i: usize = 0;
        while i < dim
            invariant
                i <= dim,
                0 <= slot * dim,
                slot * dim + dim <= rows * dim <= usize::MAX,
                row == Seq::new(dim as nat, |i: int| (slot * dim + i) as usize),
                list@ == earlier + row.take(i as int),
                all_inside(list@, rows * dim, rows * dim),
            decreases dim - i,
        {
            list.push(slot * dim + i);
            assert(row.take(i + 1) =~= row.take(i as int).push(row[i as int]));
            assert(list@ =~= earlier + row.take(i + 1));
            i = i + 1;
        }
        proof {
            assert(row.take(dim as int) =~= row);
            let upto = slots@.take(at + 1);
            assert(upto.drop_last() =~= slots@.take(at as int));
            assert(upto.last() == slot);
            assert((at + 1) * dim == at * dim + dim) by (nonlinear_arith);
        }
        at = at + 1;
    }
    assert(slots@.take(slots.len() as int) =~= slots@);
    list
}

/// The lengths and places of a download match the model.
pub open spec fn download_matches(
    m: Model,
    c: ParameterChanges,
    v: TrackedModelValues,
    classes: int,
) -> bool {
    let neurons = m.config.model.neuron_count as int;
    let dim = m.config.context.embedding_dim as int;
    let slots = m.context.keys.len() as int;
    &&& m.context_ready()
    &&& m.output.weights.len() == classes * neurons
    &&& all_inside(
        c.threshold@,
        m.neurons.threshold.len() as int,
        m.neurons.threshold.len() as int,
    )
    &&& all_inside(
        c.recurrent_weight@,
        m.recurrent.weight.len() as int,
        m.recurrent.weight.len() as int,
    )
    &&& all_inside(c.input_weight@, m.input.weights.len() as int, m.input.weights.len() as int)
    &&& all_inside(c.output_neurons@, neurons, neurons)
    &&& all_inside(c.context_slots@, slots, slots)
    &&& v.threshold.len() == c.threshold.len()
    &&& v.recurrent_weight.len() == c.recurrent_weight.len()
    &&& v.input_weight.len() == c.input_weight.len()
    &&& v.output_weight_by_neuron.len() == output_places(c.output_neurons@, neurons, classes).len()
    &&& v.context_keys.len() == c.context_slots.len()
    &&& v.context_observations.len() == c.context_slots.len()
    &&& v.context_embeddings.len() == c.context_slots.len() * dim
    &&& c.output_bias_dirty ==> v.output_bias is Some
    &&& c.context_output_dirty ==> v.context_output_weight is Some
}

/// The numbers of a list that may be missing.
pub open spec fn list_or(v: Option<Vec<Scalar>>, held: Seq<Scalar>, dirty: bool) -> Seq<Scalar> {
    match v {
        Some(list) => if dirty {
            list@
        } else {
            held
        },
        None => held,
    }
}

/// `after` is `before` with what the device changed.
pub open spec fn downloaded(
    before: Model,
    c: ParameterChanges,
    v: TrackedModelValues,
    classes: int,
    after: Model,
) -> bool {
    let neurons = before.config.model.neuron_count as int;
    let dim = before.config.context.embedding_dim as int;
    let outputs = output_places(c.output_neurons@, neurons, classes);
    let rows = row_places(c.context_slots@, dim);
    &&& after.config == before.config
    &&& after.generation == before.generation
    &&& after.parameter_revision == before.parameter_revision
    &&& after.statistics == before.statistics
    &&& after.neurons.excitability == before.neurons.excitability
    &&& after.neurons.neuron_type == before.neurons.neuron_type
    &&& after.recurrent.capacity_per_neuron == before.recurrent.capacity_per_neuron
    &&& after.recurrent.target_neuron == before.recurrent.target_neuron
    &&& after.recurrent.target_branch == before.recurrent.target_branch
    &&& after.recurrent.delay == before.recurrent.delay
    &&& after.input.fanout == before.input.fanout
    &&& after.input.targets == before.input.targets
    &&& after.input.branches == before.input.branches
    &&& after.neurons.threshold@ == scattered(
        before.neurons.threshold@,
        c.threshold@,
        v.threshold@,
        c.threshold.len() as int,
    )
    &&& after.recurrent.weight@ == scattered(
        before.recurrent.weight@,
        c.recurrent_weight@,
        v.recurrent_weight@,
        c.recurrent_weight.len() as int,
    )
    &&& after.input.weights@ == scattered(
        before.input.weights@,
        c.input_weight@,
        v.input_weight@,
        c.input_weight.len() as int,
    )
    &&& after.output.weights@ == scattered(
        before.output.weights@,
        outputs,
        v.output_weight_by_neuron@,
        outputs.len() as int,
    )
    &&& after.output.bias@ == list_or(v.output_bias, before.output.bias@, c.output_bias_dirty)
    &&& after.context.keys@ == scattered(
        before.context.keys@,
        c.context_slots@,
        v.context_keys@,
        c.context_slots.len() as int,
    )
    &&& after.context.observations@ == scattered(
        before.context.observations@,
        c.context_slots@,
        v.context_observations@,
        c.context_slots.len() as int,
    )
    &&& after.context.embeddings@ == scattered(
        before.context.embeddings@,
        rows,
        v.context_embeddings@,
        rows.len() as int,
    )
    &&& after.context.output_weights@ == list_or(
        v.context_output_weight,
        before.context.output_weights@,
        c.context_output_dirty,
    )
}

/// The changes of a download are entered, where changes are tracked.
pub open spec fn changes_entered(
    before: ChangeTracker,
    c: ParameterChanges,
    after: ChangeTracker,
) -> bool {
    if !before.enabled {
        after == before
    } else {
        &&& after.enabled
        &&& list_entered(before.threshold, c.threshold@, after.threshold)
        &&& list_entered(before.recurrent_weight, c.recurrent_weight@, after.recurrent_weight)
        &&& list_entered(before.input_weight, c.input_weight@, after.input_weight)
        &&& list_entered(before.output_neurons, c.output_neurons@, after.output_neurons)
        &&& list_entered(before.context_slots, c.context_slots@, after.context_slots)
        &&& after.output_bias_dirty == (before.output_bias_dirty || c.output_bias_dirty)
        &&& after.context_output_dirty == (before.context_output_dirty || c.context_output_dirty)
    }
}

/// Indices are entered into a list, each unless it is there.
pub open spec fn list_entered(before: MarkList, indices: Seq<usize>, after: MarkList) -> bool {
    (after.list@, after.mark@) == accumulated(
        before.list@,
        before.mark@,
        indices,
        indices.len() as int,
    )
}

/// The changes lie inside the tracked model.
pub open spec fn changes_inside(t: ChangeTracker, c: ParameterChanges) -> bool {
    t.enabled ==> {
        &&& all_inside(c.threshold@, t.threshold.capacity(), t.threshold.capacity())
        &&& all_inside(
            c.recurrent_weight@,
            t.recurrent_weight.capacity(),
            t.recurrent_weight.capacity(),
        )
        &&& all_inside(c.input_weight@, t.input_weight.capacity(), t.input_weight.capacity())
        &&& all_inside(c.output_neurons@, t.output_neurons.capacity(), t.output_neurons.capacity())
        &&& all_inside(c.context_slots@, t.context_slots.capacity(), t.context_slots.capacity())
    }
}

/// Enters changes, where changes are tracked.
pub fn accumulate_parameter_changes(tracker: &mut ChangeTracker, changes: &ParameterChanges)
    requires
        old(tracker).threshold.wf(),
        old(tracker).recurrent_weight.wf(),
        old(tracker).input_weight.wf(),
        old(tracker).output_neurons.wf(),
        old(tracker).context_slots.wf(),
        changes_inside(*old(tracker), *changes),
    ensures
        changes_entered(*old(tracker), *changes, *final(tracker)),
        final(tracker).threshold.wf(),
        final(tracker).recurrent_weight.wf(),
        final(tracker).input_weight.wf(),
        final(tracker).output_neurons.wf(),
        final(tracker).context_slots.wf(),
{
    if !tracker.enabled {
        return;
    }
    tracker.threshold.add_all(&changes.threshold);
    tracker.recurrent_weight.add_all(&changes.recurrent_weight);
    tracker.input_weight.add_all(&changes.input_weight);
    tracker.output_neurons.add_all(&changes.output_neurons);
    tracker.context_slots.add_all(&changes.context_slots);
    tracker.output_bias_dirty = tracker.output_bias_dirty || changes.output_bias_dirty;
    tracker.context_output_dirty = tracker.context_output_dirty || changes.context_output_dirty;
}

/// Starts tracking anew: nothing is tracked yet.
pub fn restart_tracking(tracker: &mut ChangeTracker, state: &mut DeviceState, m: &Model)
    ensures
        final(tracker).enabled,
        final(tracker).wf(*m),
        final(tracker).threshold.list@.len() == 0,
        final(tracker).recurrent_weight.list@.len() == 0,
        final(tracker).input_weight.list@.len() == 0,
        final(tracker).output_neurons.list@.len() == 0,
        final(tracker).context_slots.list@.len() == 0,
        !final(tracker).output_bias_dirty,
        !final(tracker).context_output_dirty,
        *final(state) == (DeviceState {
            output_bias_dirty: false,
            context_output_dirty: false,
            ..*old(state)
        }),
{
    *tracker = ChangeTracker {
        enabled: true,
        threshold: MarkList::new(m.config.model.neuron_count),
        recurrent_weight: MarkList::new(m.recurrent.weight.len()),
        input_weight: MarkList::new(m.input.weights.len()),
        output_neurons: MarkList::new(m.config.model.neuron_count),
        context_slots: MarkList::new(m.context.keys.len()),
        output_bias_dirty: false,
        context_output_dirty: false,
    };
    state.output_bias_dirty = false;
    state.context_output_dirty = false;
}

/// Writes what a device changed into the host model and enters the changes. The output bias
/// and the context projection come along whole, where they changed since the last time.
pub fn sync_changed_model_to_host(
    m: &mut Model,
    changes: &ParameterChanges,
    values: TrackedModelValues,
    output_classes: usize,
    tracker: &mut ChangeTracker,
    state: &mut DeviceState,
)
    requires
        download_matches(*old(m), *changes, values, output_classes as int),
        changes.output_bias_dirty == old(state).output_bias_dirty,
        changes.context_output_dirty == old(state).context_output_dirty,
        old(tracker).wf(*old(m)),
        old(m).neurons.threshold.len() == old(m).config.model.neuron_count,
    ensures
        downloaded(*old(m), *changes, values, output_classes as int, *final(m)),
        changes_entered(*old(tracker), *changes, *final(tracker)),
        *final(state) == (DeviceState {
            output_bias_dirty: false,
            context_output_dirty: false,
            ..*old(state)
        }),
{
    let ghost before = *m;
    let ghost neurons = m.config.model.neuron_count as int;
    let ghost dim = m.config.context.embedding_dim as int;
    accumulate_parameter_changes(tracker, changes);
    let places: Vec<usize> = match list_output_places(
        &changes.output_neurons,
        m.neuron_count(),
        output_classes,
    ) {
        Ok(places) => places,
        Err(_) => Vec::new(),
    };
    assert(places@ == output_places(changes.output_neurons@, neurons, output_classes as int));
    let rows: Vec<usize> = list_row_places(
        &changes.context_slots,
        m.config.context.embedding_dim,
        m.context.keys.len(),
    );
    scatter(&mut m.neurons.threshold, &changes.threshold, &values.threshold);
    scatter(&mut m.recurrent.weight, &changes.recurrent_weight, &values.recurrent_weight);
    scatter(&mut m.input.weights, &changes.input_weight, &values.input_weight);
    scatter(&mut m.output.weights, &places, &values.output_weight_by_neuron);
    scatter(&mut m.context.keys, &changes.context_slots, &values.context_keys);
    scatter(&mut m.context.observations, &changes.context_slots, &values.context_observations);
    scatter(&mut m.context.embeddings, &rows, &values.context_embeddings);
    if changes.output_bias_dirty {
        if let Some(bias) = values.output_bias {
            m.output.bias = bias;
        }
    }
    if changes.context_output_dirty {
        if let Some(weights) = values.context_output_weight {
            m.context.output_weights = weights;
        }
    }
    state.output_bias_dirty = false;
    state.context_output_dirty = false;
}

} // verus!
