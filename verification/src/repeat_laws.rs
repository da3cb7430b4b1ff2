//! Steps can be repeated: what a step does follows from what the runtime holds.

use crate::arithmetic::Numerics;
use crate::config::{Config, ModelConfig};
use crate::context::as_ints;
use crate::context_learning::{
    context_pass, latent_gradient, projection_proposal, ContextLesson, ContextPass,
};
use crate::dynamics::{carried, delivered, injected, settled, NeuronView};
use crate::error::LeoResult;
use crate::learning::nought;
use crate::lesson::{eligibility_used, lesson_taken, EligibilitySum, Lesson, LessonTrace};
use crate::lesson_parts::{
    balanced, context_learned, input_learned, readout_learned, recurrent_learned, told,
    told_neurons,
};
use crate::marks::MarkList;
use crate::metrics::StepMetrics;
use crate::model::Model;
use crate::permission::Permission;
use crate::plasticity::{
    bias_proposal, count_up, inhibitory_proposal, inhibitory_slots, input_proposal, pass_ends,
    pass_of, passed, recurrent_proposal, sound_at, stops_at, unlisted, Bounds, WeightPass,
};
use crate::prediction::{context_scales_of, raw_scales};
use crate::runtime::{
    emitted, fed, is_argmax, opened, transposed, ChangeTracker, Numbers, OpenedStep, Runtime,
    TraceArrays,
};
use crate::scalar::Scalar;
use crate::selection::Selection;
use crate::stages::{
    competed, followed_all, population_cutoff_of, predicted, received, rested, sent, slopes,
};
use crate::step::{
    class_weight, metrics_fit, step_closed, step_loss, step_taken, thresholds_moved, StageTrace,
    StepTrace,
};
use crate::traces::{destination_of, followed, tick_view, walked, TickView, TraceView};
use vstd::prelude::*;

verus! {

/// The two configurations say the same.
pub open spec fn same_config(x: Config, y: Config) -> bool {
    &&& x.model.name@ == y.model.name@
    &&& x == (Config { model: ModelConfig { name: x.model.name, ..y.model }, ..y })
}

/// The two models hold the same.
pub open spec fn same_model(x: Model, y: Model) -> bool {
    &&& same_config(x.config, y.config)
    &&& x.generation == y.generation
    &&& x.parameter_revision == y.parameter_revision
    &&& x.statistics == y.statistics
    &&& x.neurons.threshold@ == y.neurons.threshold@
    &&& x.neurons.excitability@ == y.neurons.excitability@
    &&& x.neurons.neuron_type@ == y.neurons.neuron_type@
    &&& x.recurrent.capacity_per_neuron == y.recurrent.capacity_per_neuron
    &&& x.recurrent.target_neuron@ == y.recurrent.target_neuron@
    &&& x.recurrent.target_branch@ == y.recurrent.target_branch@
    &&& x.recurrent.delay@ == y.recurrent.delay@
    &&& x.recurrent.weight@ == y.recurrent.weight@
    &&& x.input.fanout == y.input.fanout
    &&& x.input.targets@ == y.input.targets@
    &&& x.input.branches@ == y.input.branches@
    &&& x.input.weights@ == y.input.weights@
    &&& x.output.weights@ == y.output.weights@
    &&& x.output.bias@ == y.output.bias@
    &&& x.context.keys@ == y.context.keys@
    &&& x.context.embeddings@ == y.context.embeddings@
    &&& x.context.observations@ == y.context.observations@
    &&& x.context.output_weights@ == y.context.output_weights@
}

/// The two lists hold the same indices in the same order.
pub open spec fn same_marks(x: MarkList, y: MarkList) -> bool {
    x.list@ == y.list@ && x.mark@ == y.mark@
}

/// The two kinds of synapse have the same traces.
pub open spec fn same_traces(x: TraceArrays, y: TraceArrays) -> bool {
    x@ == y@ && same_marks(x.eligible, y.eligible)
}

/// The two records hold the same changes.
pub open spec fn same_record(x: ChangeTracker, y: ChangeTracker) -> bool {
    &&& x.enabled == y.enabled
    &&& same_marks(x.threshold, y.threshold)
    &&& same_marks(x.recurrent_weight, y.recurrent_weight)
    &&& same_marks(x.input_weight, y.input_weight)
    &&& same_marks(x.output_neurons, y.output_neurons)
    &&& same_marks(x.context_slots, y.context_slots)
    &&& x.output_bias_dirty == y.output_bias_dirty
    &&& x.context_output_dirty == y.context_output_dirty
}

/// The two runtimes compute with the same numbers.
pub open spec fn same_numbers(x: Numbers, y: Numbers) -> bool {
    &&& x.population_inhibition == y.population_inhibition
    &&& x.surrogate@ == y.surrogate@
    &&& x.context_scales@ == y.context_scales@
    &&& x.latent@ == y.latent@
    &&& x.probabilities@ == y.probabilities@
    &&& x.errors@ == y.errors@
    &&& x.signal@ == y.signal@
    &&& same_marks(x.destinations, y.destinations)
    &&& x.plasticity_phase == y.plasticity_phase
}

/// The two runtimes hold the same. The neuron-major copy of the output weights is left out: it
/// follows from the model.
#[verifier::opaque]
pub open spec fn alike(x: Runtime, y: Runtime) -> bool {
    &&& same_model(x.model, y.model)
    &&& x.alphabet.same_as(y.alphabet)
    &&& x.state@ == y.state@
    &&& same_traces(x.recurrent_traces, y.recurrent_traces)
    &&& same_traces(x.input_traces, y.input_traces)
    &&& x.ring@ == y.ring@
    &&& x.current_tick == y.current_tick
    &&& same_marks(x.touched, y.touched)
    &&& x.active@ == y.active@
    &&& x.previous_active@ == y.previous_active@
    &&& x.selected@ == y.selected@
    &&& x.history@ == y.history@
    &&& x.context_slots@ == y.context_slots@
    &&& x.context_probes == y.context_probes
    &&& x.context_applied == y.context_applied
    &&& same_record(x.tracker, y.tracker)
    &&& x.persistent_document_activity == y.persistent_document_activity
    &&& x.learning_trace_enabled == y.learning_trace_enabled
    &&& same_numbers(x.numbers, y.numbers)
}

/// The two runtimes hold the same, and so do their neuron-major output weights.
spec fn twins(x: Runtime, y: Runtime) -> bool {
    alike(x, y) && x.output_weights_by_neuron@ == y.output_weights_by_neuron@
}

/// The two openings of a step hand the same on.
spec fn same_opening(x: OpenedStep, y: OpenedStep) -> bool {
    &&& x.target_class == y.target_class
    &&& x.due@ == y.due@
    &&& x.first_input == y.first_input
    &&& x.context_enabled == y.context_enabled
    &&& x.strength == y.strength
    &&& x.learns == y.learns
}

/// The two competitions end in the same way.
spec fn same_outcome(x: Selection, y: Selection) -> bool {
    &&& x.active@ == y.active@
    &&& x.block_cutoff@ == y.block_cutoff@
    &&& x.cutoff_neuron == y.cutoff_neuron
    &&& x.suprathreshold_neurons == y.suprathreshold_neurons
    &&& x.block_selected_neurons == y.block_selected_neurons
    &&& x.global_cap_clipped_neurons == y.global_cap_clipped_neurons
}

/// The two results are the same: both give the same value, or both fail with an error of the
/// same kind and message.
pub open spec fn same_result<T>(r: LeoResult<T>, s: LeoResult<T>) -> bool {
    match (r, s) {
        (Ok(x), Ok(y)) => x == y,
        (Err(e), Err(f)) => e.about() == f.about() && e.text() == f.text(),
        _ => false,
    }
}

/// The marks follow from the list.
proof fn lemma_marks_follow(x: MarkList, y: MarkList)
    requires
        x.wf(),
        y.wf(),
        x.capacity() == y.capacity(),
        x.list@ == y.list@,
    ensures
        same_marks(x, y),
{
    assert forall|i: int| 0 <= i < x.mark@.len() implies x.mark@[i] == y.mark@[i] by {
        assert(x.mark@[(i as usize) as int] <==> x.list@.contains(i as usize));
        assert(y.mark@[(i as usize) as int] <==> y.list@.contains(i as usize));
    }
    assert(x.mark@ =~= y.mark@);
}

proof fn lemma_fed(x: Model, y: Model, symbol: u32, upto: int)
    requires
        same_model(x, y),
    ensures
        fed(x, symbol, upto) == fed(y, symbol, upto),
    decreases upto,
{
    if upto > 0 {
        lemma_fed(x, y, symbol, upto - 1);
    }
}

proof fn lemma_injected<T: Numerics>(
    ops: T,
    branches: Seq<Scalar>,
    x: Model,
    y: Model,
    first: int,
    upto: int,
)
    requires
        same_model(x, y),
    ensures
        injected(ops, branches, x, first, upto) == injected(ops, branches, y, first, upto),
    decreases upto,
{
    if upto > 0 {
        lemma_injected(ops, branches, x, y, first, upto - 1);
    }
}

proof fn lemma_scales<T: Numerics>(ops: T, x: Model, y: Model, slots: Seq<usize>)
    requires
        same_model(x, y),
    ensures
        context_scales_of(ops, x, slots) == context_scales_of(ops, y, slots),
{
    assert(raw_scales(ops, x, slots) =~= raw_scales(ops, y, slots));
}

proof fn lemma_slopes<T: Numerics>(
    ops: T,
    x: Model,
    y: Model,
    v: NeuronView,
    tick: u64,
    selected: Seq<bool>,
    block_cutoff: Seq<Scalar>,
    population_cutoff: Scalar,
    surrogate: Seq<Scalar>,
    list: Seq<usize>,
    upto: int,
)
    requires
        same_model(x, y),
    ensures
        slopes(
            ops,
            x,
            v,
            tick,
            selected,
            block_cutoff,
            population_cutoff,
            surrogate,
            list,
            upto,
        ) == slopes(
            ops,
            y,
            v,
            tick,
            selected,
            block_cutoff,
            population_cutoff,
            surrogate,
            list,
            upto,
        ),
    decreases upto,
{
    if upto > 0 {
        lemma_slopes(
            ops,
            x,
            y,
            v,
            tick,
            selected,
            block_cutoff,
            population_cutoff,
            surrogate,
            list,
            upto - 1,
        );
    }
}

proof fn lemma_walked<T: Numerics>(
    ops: T,
    x: Config,
    y: Config,
    v: TickView,
    targets: Seq<u32>,
    branches: Seq<u8>,
    t: TraceView,
    list: Seq<usize>,
    place: int,
)
    requires
        same_config(x, y),
    ensures
        walked(ops, x, v, targets, branches, t, list, place) == walked(
            ops,
            y,
            v,
            targets,
            branches,
            t,
            list,
            place,
        ),
    decreases list.len() - place,
{
    if 0 <= place && place < list.len() {
        let slot = list[place] as int;
        let to = destination_of(ops, v, targets[slot] as int, branches[slot]);
        let after = followed(ops, x, v.tick, t, slot, to);
        assert(after == followed(ops, y, v.tick, t, slot, to));
        lemma_walked(ops, x, y, v, targets, branches, after, list, place + 1);
        lemma_walked(
            ops,
            x,
            y,
            v,
            targets,
            branches,
            after,
            list.update(place, list.last()).drop_last(),
            place,
        );
    }
}

proof fn lemma_emitted(
    buckets: Seq<Seq<crate::delay_ring::Event>>,
    x: Runtime,
    y: Runtime,
    values: Seq<Scalar>,
    upto: int,
)
    requires
        alike(x, y),
    ensures
        emitted(buckets, x, values, upto) == emitted(buckets, y, values, upto),
    decreases upto,
{
    if upto > 0 {
        lemma_emitted(buckets, x, y, values, upto - 1);
        reveal(alike);
        assert(x.state.activation@ == x.state@.activation);
        assert(y.state.activation@ == y.state@.activation);
    }
}

proof fn lemma_carried<T: Numerics>(
    ops: T,
    x: Model,
    y: Model,
    activation: Seq<Scalar>,
    active: Seq<usize>,
)
    requires
        same_model(x, y),
    ensures
        carried(ops, x, activation, active) == carried(ops, y, activation, active),
{
    assert(carried(ops, x, activation, active) =~= carried(ops, y, activation, active));
}

proof fn lemma_opened(
    b: Runtime,
    c: Runtime,
    symbol: u32,
    target: Option<u32>,
    permission: Permission,
    s: OpenedStep,
    t: OpenedStep,
    x: Runtime,
    y: Runtime,
)
    requires
        alike(b, c),
        opened(b, symbol, target, permission, s, x),
        opened(c, symbol, target, permission, t, y),
    ensures
        alike(x, y),
        same_opening(s, t),
{
    reveal(alike);
    reveal(opened);
    lemma_fed(b.model, c.model, symbol, b.model.input.fanout as int);
    assert(x.active@ =~= y.active@);
    assert(x.context_slots@ =~= y.context_slots@) by {
        if b.context_kept(symbol, permission) {
            assert(as_ints(x.context_slots@) == as_ints(y.context_slots@));
            assert(x.context_slots@.len() == as_ints(x.context_slots@).len());
            assert(y.context_slots@.len() == as_ints(y.context_slots@).len());
            assert forall|i: int| 0 <= i < x.context_slots@.len() implies x.context_slots@[i]
                == y.context_slots@[i] by {
                assert(as_ints(x.context_slots@)[i] == as_ints(y.context_slots@)[i]);
            }
        }
    }
    assert(x.state@ =~= y.state@);
    assert(same_model(x.model, y.model));
    assert(same_traces(x.recurrent_traces, y.recurrent_traces));
    assert(same_traces(x.input_traces, y.input_traces));
}

proof fn lemma_received<T: Numerics>(
    ops: T,
    b: Runtime,
    c: Runtime,
    s: OpenedStep,
    t: OpenedStep,
    last_touched: Seq<usize>,
    x: Runtime,
    y: Runtime,
)
    requires
        twins(b, c),
        same_opening(s, t),
        received(ops, b, s, last_touched, x),
        received(ops, c, t, last_touched, y),
    ensures
        twins(x, y),
{
    reveal(alike);
    reveal(received);
    let d = b.model.config.dynamics;
    let v = settled(
        ops,
        d,
        b.current_tick,
        b.state@,
        b.touched.list@,
        b.touched.list@.len() as int,
    );
    let arrived = delivered(ops, v.branches, b.size(), s.due@, s.due@.len() as int);
    lemma_injected(
        ops,
        arrived,
        b.model,
        c.model,
        s.first_input as int,
        b.model.input.fanout as int,
    );
    lemma_scales(ops, b.model, c.model, b.context_slots@);
    assert(same_numbers(x.numbers, y.numbers));
}

proof fn lemma_competed<T: Numerics>(
    ops: T,
    b: Runtime,
    c: Runtime,
    s: Selection,
    t: Selection,
    x: Runtime,
    y: Runtime,
)
    requires
        twins(b, c),
        competed(ops, b, s, x),
        competed(ops, c, t, y),
    ensures
        twins(x, y),
        same_outcome(s, t),
{
    reveal(alike);
    reveal(competed);
    let list = b.touched.list@;
    let tick = b.current_tick;
    assert(b.state.refractory_until@ == b.state@.refractory_until);
    assert(c.state.refractory_until@ == c.state@.refractory_until);
    assert(b.state.activation@ == b.state@.activation);
    assert(c.state.activation@ == c.state@.activation);
    assert(b.shape() == c.shape());
    assert(s.block_cutoff@ =~= t.block_cutoff@);
    assert(same_outcome(s, t));
    assert(x.state@ == y.state@);
    let membrane = x.state@.membrane;
    lemma_slopes(
        ops,
        b.model,
        c.model,
        x.state@,
        tick,
        x.selected@,
        s.block_cutoff@,
        population_cutoff_of(ops, b.model, membrane, s.cutoff_neuron),
        b.numbers.surrogate@,
        list,
        list.len() as int,
    );
    assert(same_numbers(x.numbers, y.numbers));
}

proof fn lemma_followed<T: Numerics>(ops: T, b: Runtime, c: Runtime, x: Runtime, y: Runtime)
    requires
        twins(b, c),
        followed_all(ops, b, x),
        followed_all(ops, c, y),
        x.recurrent_traces.eligible.wf(),
        y.recurrent_traces.eligible.wf(),
        x.recurrent_traces.eligible.capacity() == y.recurrent_traces.eligible.capacity(),
        x.input_traces.eligible.wf(),
        y.input_traces.eligible.wf(),
        x.input_traces.eligible.capacity() == y.input_traces.eligible.capacity(),
    ensures
        twins(x, y),
{
    reveal(alike);
    reveal(followed_all);
    assert(b.state.refractory_until@ == b.state@.refractory_until);
    assert(c.state.refractory_until@ == c.state@.refractory_until);
    assert(b.state.branches@ == b.state@.branches);
    assert(c.state.branches@ == c.state@.branches);
    let m = b.model;
    let v = tick_view(
        b.current_tick,
        b.touched,
        b.selected@,
        b.state,
        m.neurons.excitability@,
        b.numbers.surrogate@,
    );
    lemma_walked(
        ops,
        m.config,
        c.model.config,
        v,
        m.recurrent.target_neuron@,
        m.recurrent.target_branch@,
        b.recurrent_traces@,
        b.recurrent_traces.eligible.list@,
        0,
    );
    lemma_walked(
        ops,
        m.config,
        c.model.config,
        v,
        m.input.targets@,
        m.input.branches@,
        b.input_traces@,
        b.input_traces.eligible.list@,
        0,
    );
    lemma_marks_follow(x.recurrent_traces.eligible, y.recurrent_traces.eligible);
    lemma_marks_follow(x.input_traces.eligible, y.input_traces.eligible);
}

proof fn lemma_rested<T: Numerics>(ops: T, b: Runtime, c: Runtime, x: Runtime, y: Runtime)
    requires
        twins(b, c),
        rested(ops, b, x),
        rested(ops, c, y),
    ensures
        twins(x, y),
{
    reveal(alike);
    reveal(rested);
}

proof fn lemma_sent<T: Numerics>(
    ops: T,
    b: Runtime,
    c: Runtime,
    n: usize,
    k: usize,
    x: Runtime,
    y: Runtime,
)
    requires
        twins(b, c),
        sent(ops, b, n, x),
        sent(ops, c, k, y),
    ensures
        twins(x, y),
        n == k,
{
    reveal(alike);
    reveal(sent);
    assert(b.state.activation@ == b.state@.activation);
    assert(c.state.activation@ == c.state@.activation);
    lemma_carried(ops, b.model, c.model, b.state.activation@, b.active@);
    let values = carried(ops, b.model, b.state.activation@, b.active@);
    lemma_emitted(b.ring@, b, c, values, values.len() as int);
}

proof fn lemma_predicted<T: Numerics>(
    ops: T,
    b: Runtime,
    c: Runtime,
    target: Option<usize>,
    n: Option<Scalar>,
    k: Option<Scalar>,
    x: Runtime,
    y: Runtime,
)
    requires
        twins(b, c),
        predicted(ops, b, target, n, x),
        predicted(ops, c, target, k, y),
    ensures
        twins(x, y),
        n == k,
{
    reveal(alike);
    reveal(predicted);
    assert(b.state.activation@ == b.state@.activation);
    assert(c.state.activation@ == c.state@.activation);
    assert(same_numbers(x.numbers, y.numbers));
}

/// A pass ends in one way only.
proof fn lemma_pass_ends_once(
    propose: spec_fn(Seq<Scalar>, int) -> Scalar,
    places: Seq<usize>,
    p: WeightPass,
    enabled: bool,
    x: WeightPass,
    whole: bool,
    y: WeightPass,
    other: bool,
)
    requires
        pass_ends(propose, places, p, enabled, x, whole),
        pass_ends(propose, places, p, enabled, y, other),
    ensures
        x == y,
        whole == other,
{
    if !whole {
        let i = choose|i: int|
            #[trigger] stops_at(propose, places, p, enabled, i) && x == passed(
                propose,
                places,
                p,
                enabled,
                i,
            );
        assert(!sound_at(propose, places, p, enabled, i));
        if !other {
            let j = choose|j: int|
                #[trigger] stops_at(propose, places, p, enabled, j) && y == passed(
                    propose,
                    places,
                    p,
                    enabled,
                    j,
                );
            lemma_stops_once(propose, places, p, enabled, i, j);
        }
    } else if !other {
        let j = choose|j: int|
            #[trigger] stops_at(propose, places, p, enabled, j) && y == passed(
                propose,
                places,
                p,
                enabled,
                j,
            );
        assert(!sound_at(propose, places, p, enabled, j));
    }
}

/// A pass stops at one place only.
proof fn lemma_stops_once(
    propose: spec_fn(Seq<Scalar>, int) -> Scalar,
    places: Seq<usize>,
    p: WeightPass,
    enabled: bool,
    i: int,
    j: int,
)
    requires
        stops_at(propose, places, p, enabled, i),
        stops_at(propose, places, p, enabled, j),
    ensures
        i == j,
{
    if i < j {
        assert(sound_at(propose, places, p, enabled, i));
    } else if j < i {
        assert(sound_at(propose, places, p, enabled, j));
    }
}

/// The learning of contexts ends in one way only.
proof fn lemma_context_ends_once<T: Numerics>(
    lesson: ContextLesson<T>,
    p: ContextPass,
    x: ContextPass,
    whole: bool,
    y: ContextPass,
    other: bool,
)
    requires
        lesson.ends(p, x, whole),
        lesson.ends(p, y, other),
    ensures
        x == y,
        whole == other,
{
    if !whole {
        let i = choose|i: int| #[trigger] lesson.stopped(p, i, x);
        lemma_unsound(lesson, p, i, x);
        if other {
            assert(lesson.sound(p, i));
        } else {
            let j = choose|j: int| #[trigger] lesson.stopped(p, j, y);
            lemma_unsound(lesson, p, j, y);
            if i < j {
                assert(lesson.sound(p, i));
            } else if j < i {
                assert(lesson.sound(p, j));
            } else {
                lemma_pass_ends_once(
                    lesson.proposal(i),
                    lesson.row(i),
                    unlisted(lesson.learned(p, i).embeddings),
                    false,
                    unlisted(x.embeddings),
                    false,
                    unlisted(y.embeddings),
                    false,
                );
                assert(unlisted(x.embeddings).weights == unlisted(y.embeddings).weights);
            }
        }
    } else if !other {
        let j = choose|j: int| #[trigger] lesson.stopped(p, j, y);
        lemma_unsound(lesson, p, j, y);
        assert(lesson.sound(p, j));
    }
}

/// The row in which the learning stops is not sound.
proof fn lemma_unsound<T: Numerics>(
    lesson: ContextLesson<T>,
    p: ContextPass,
    k: int,
    after: ContextPass,
)
    requires
        lesson.stopped(p, k, after),
    ensures
        !lesson.sound(p, k),
{
    let start = unlisted(lesson.learned(p, k).embeddings);
    let end = unlisted(after.embeddings);
    let i = choose|i: int|
        #[trigger] stops_at(lesson.proposal(k), lesson.row(k), start, false, i) && end == passed(
            lesson.proposal(k),
            lesson.row(k),
            start,
            false,
            i,
        );
    assert(!sound_at(lesson.proposal(k), lesson.row(k), start, false, i));
    assert(lesson.row(k).len() == lesson.gradient.len());
}

proof fn lemma_told<T: Numerics>(
    ops: T,
    b: Runtime,
    c: Runtime,
    class: int,
    scale: Scalar,
    x: Runtime,
    y: Runtime,
)
    requires
        twins(b, c),
        told(ops, b, class, scale, x),
        told(ops, c, class, scale, y),
    ensures
        twins(x, y),
{
    reveal(alike);
    reveal(told);
    assert(told_neurons(b) == told_neurons(c));
    assert(same_numbers(x.numbers, y.numbers));
}

proof fn lemma_readout<T: Numerics>(
    ops: T,
    b: Runtime,
    c: Runtime,
    rate: Scalar,
    n: Option<usize>,
    k: Option<usize>,
    x: Runtime,
    y: Runtime,
)
    requires
        twins(b, c),
        readout_learned(ops, b, rate, n, x),
        readout_learned(ops, c, rate, k, y),
    ensures
        twins(x, y),
        n == k,
{
    reveal(alike);
    reveal(readout_learned);
    let classes = b.alphabet.output_classes as int;
    let rule = bias_proposal(ops, rate, b.numbers.errors@, b.weight_bounds().update);
    let start = unlisted(b.model.output.bias@);
    assert(b.weight_bounds() == c.weight_bounds());
    assert(b.state.activation@ == b.state@.activation);
    assert(c.state.activation@ == c.state@.activation);
    assert(unlisted(x.model.output.weights@).weights == unlisted(y.model.output.weights@).weights);
    match (n, k) {
        (None, None) => {
            assert(unlisted(x.model.output.bias@).weights == unlisted(
                y.model.output.bias@,
            ).weights);
        },
        (Some(i), Some(j)) => {
            lemma_stops_once(rule, count_up(classes), start, false, i as int, j as int);
            assert(unlisted(x.model.output.bias@).weights == unlisted(
                y.model.output.bias@,
            ).weights);
        },
        (None, Some(j)) => {
            assert(!sound_at(rule, count_up(classes), start, false, j as int));
        },
        (Some(i), None) => {
            assert(!sound_at(rule, count_up(classes), start, false, i as int));
        },
    }
}

proof fn lemma_context<T: Numerics>(
    ops: T,
    b: Runtime,
    c: Runtime,
    strength: Scalar,
    x: Runtime,
    r: LeoResult<()>,
    y: Runtime,
    s: LeoResult<()>,
)
    requires
        twins(b, c),
        context_learned(ops, b, strength, x, r),
        context_learned(ops, c, strength, y, s),
    ensures
        twins(x, y),
        same_result(r, s),
{
    reveal(alike);
    reveal(context_learned);
    if b.context_slots@.len() > 0 {
        let rate = ops.product(b.model.config.context.learning_rate.opposite(), strength);
        assert(b.weight_bounds() == c.weight_bounds());
        let rule = projection_proposal(
            ops,
            rate,
            b.numbers.errors@,
            b.numbers.latent@,
            b.weight_bounds(),
        );
        let places = count_up(b.model.context.output_weights@.len() as int);
        let start = unlisted(b.model.context.output_weights@);
        let lesson = ContextLesson {
            ops,
            rate,
            slots: b.context_slots@,
            scales: b.numbers.context_scales@,
            gradient: latent_gradient(
                ops,
                b.model.context.output_weights@,
                b.numbers.errors@,
                b.model.config.context.embedding_dim as int,
                b.numbers.errors@.len() as int,
            ),
            bounds: b.weight_bounds(),
            enabled: b.tracker.enabled,
        };
        let rows = context_pass(b.model, b.tracker.context_slots);
        let one = unlisted(x.model.context.output_weights@);
        let two = unlisted(y.model.context.output_weights@);
        let rows_one = context_pass(x.model, x.tracker.context_slots);
        let rows_two = context_pass(y.model, y.tracker.context_slots);
        assert(rows == context_pass(c.model, c.tracker.context_slots));
        let first = pass_ends(rule, places, start, false, one, true);
        let second = pass_ends(rule, places, start, false, two, true);
        lemma_pass_ends_once(rule, places, start, false, one, first, two, second);
        assert(one.weights == two.weights);
        if first {
            let whole = r is Ok;
            let other = s is Ok;
            if !whole && !lesson.ends(rows, rows_one, false) {
                lemma_pass_ends_once(rule, places, start, false, one, true, one, false);
            }
            if !other && !lesson.ends(rows, rows_two, false) {
                lemma_pass_ends_once(rule, places, start, false, two, true, two, false);
            }
            lemma_context_ends_once(lesson, rows, rows_one, whole, rows_two, other);
            if !whole {
                if pass_ends(rule, places, start, false, one, false) {
                    lemma_pass_ends_once(rule, places, start, false, one, true, one, false);
                }
                if pass_ends(rule, places, start, false, two, false) {
                    lemma_pass_ends_once(rule, places, start, false, two, true, two, false);
                }
            }
        }
        assert(rows_one == rows_two);
    }
}

/// The two recurrent networks propose the same.
proof fn lemma_recurrent_proposals<T: Numerics>(
    ops: T,
    rate: Scalar,
    x: Model,
    y: Model,
    signal: Seq<Scalar>,
    eligibility: Seq<Scalar>,
    b: Bounds,
)
    requires
        same_model(x, y),
    ensures
        recurrent_proposal(ops, rate, x, signal, eligibility, b) == recurrent_proposal(
            ops,
            rate,
            y,
            signal,
            eligibility,
            b,
        ),
{
    assert(recurrent_proposal(ops, rate, x, signal, eligibility, b) =~= recurrent_proposal(
        ops,
        rate,
        y,
        signal,
        eligibility,
        b,
    ));
}

proof fn lemma_recurrent<T: Numerics>(
    ops: T,
    b: Runtime,
    c: Runtime,
    strength: Scalar,
    x: Runtime,
    whole: bool,
    y: Runtime,
    other: bool,
)
    requires
        twins(b, c),
        recurrent_learned(ops, b, strength, x, whole),
        recurrent_learned(ops, c, strength, y, other),
    ensures
        twins(x, y),
        whole == other,
{
    reveal(alike);
    reveal(recurrent_learned);
    let rate = ops.product(
        b.model.config.learning.recurrent_learning_rate.opposite(),
        strength,
    );
    assert(b.weight_bounds() == c.weight_bounds());
    assert(b.recurrent_traces.eligibility@ == b.recurrent_traces@.eligibility);
    assert(c.recurrent_traces.eligibility@ == c.recurrent_traces@.eligibility);
    let signal = b.numbers.signal@;
    let eligibility = b.recurrent_traces.eligibility@;
    lemma_recurrent_proposals(
        ops,
        rate,
        b.model,
        c.model,
        signal,
        eligibility,
        b.weight_bounds(),
    );
    let one = pass_of(x.model.recurrent.weight@, x.tracker.recurrent_weight);
    let two = pass_of(y.model.recurrent.weight@, y.tracker.recurrent_weight);
    lemma_pass_ends_once(
        recurrent_proposal(ops, rate, b.model, signal, eligibility, b.weight_bounds()),
        b.recurrent_traces.eligible.list@,
        pass_of(b.model.recurrent.weight@, b.tracker.recurrent_weight),
        b.tracker.enabled,
        one,
        whole,
        two,
        other,
    );
    assert(one.weights == two.weights && one.list == two.list && one.mark == two.mark);
}

proof fn lemma_input<T: Numerics>(
    ops: T,
    b: Runtime,
    c: Runtime,
    strength: Scalar,
    x: Runtime,
    whole: bool,
    y: Runtime,
    other: bool,
)
    requires
        twins(b, c),
        input_learned(ops, b, strength, x, whole),
        input_learned(ops, c, strength, y, other),
    ensures
        twins(x, y),
        whole == other,
{
    reveal(alike);
    reveal(input_learned);
    let rate = ops.product(
        b.model.config.learning.recurrent_learning_rate.opposite(),
        strength,
    );
    assert(b.input_bounds() == c.input_bounds());
    assert(b.input_traces.eligibility@ == b.input_traces@.eligibility);
    assert(c.input_traces.eligibility@ == c.input_traces@.eligibility);
    let one = pass_of(x.model.input.weights@, x.tracker.input_weight);
    let two = pass_of(y.model.input.weights@, y.tracker.input_weight);
    lemma_pass_ends_once(
        input_proposal(
            ops,
            rate,
            b.model.input.targets@,
            b.numbers.signal@,
            b.input_traces.eligibility@,
            b.input_bounds(),
        ),
        b.input_traces.eligible.list@,
        pass_of(b.model.input.weights@, b.tracker.input_weight),
        b.tracker.enabled,
        one,
        whole,
        two,
        other,
    );
    assert(one.weights == two.weights && one.list == two.list && one.mark == two.mark);
}

proof fn lemma_inhibitory_slots(x: Model, y: Model, active: Seq<usize>, upto: int)
    requires
        same_model(x, y),
    ensures
        inhibitory_slots(x, active, upto) == inhibitory_slots(y, active, upto),
    decreases upto,
{
    if upto > 0 {
        lemma_inhibitory_slots(x, y, active, upto - 1);
        assert(inhibitory_slots(x, active, upto) =~= inhibitory_slots(y, active, upto));
    }
}

proof fn lemma_balanced<T: Numerics>(
    ops: T,
    b: Runtime,
    c: Runtime,
    strength: Scalar,
    x: Runtime,
    whole: bool,
    y: Runtime,
    other: bool,
)
    requires
        twins(b, c),
        balanced(ops, b, strength, x, whole),
        balanced(ops, c, strength, y, other),
    ensures
        twins(x, y),
        whole == other,
{
    reveal(alike);
    reveal(balanced);
    assert(b.state.activation@ == b.state@.activation);
    assert(c.state.activation@ == c.state@.activation);
    let rule = inhibitory_proposal(
        ops,
        b.model,
        b.state.activation@,
        b.model.config.dynamics.target_activity,
        b.model.config.learning.inhibitory_learning_rate,
        strength,
        b.model.config.learning.max_update,
        b.model.config.learning.weight_min,
    );
    assert(rule =~= inhibitory_proposal(
        ops,
        c.model,
        c.state.activation@,
        c.model.config.dynamics.target_activity,
        c.model.config.learning.inhibitory_learning_rate,
        strength,
        c.model.config.learning.max_update,
        c.model.config.learning.weight_min,
    ));
    lemma_inhibitory_slots(b.model, c.model, b.active@, b.active@.len() as int);
    let one = pass_of(x.model.recurrent.weight@, x.tracker.recurrent_weight);
    let two = pass_of(y.model.recurrent.weight@, y.tracker.recurrent_weight);
    lemma_pass_ends_once(
        rule,
        inhibitory_slots(b.model, b.active@, b.active@.len() as int),
        pass_of(b.model.recurrent.weight@, b.tracker.recurrent_weight),
        b.tracker.enabled,
        one,
        whole,
        two,
        other,
    );
    assert(one.weights == two.weights && one.list == two.list && one.mark == two.mark);
}

proof fn lemma_started<T: Numerics>(
    ops: T,
    b: Runtime,
    c: Runtime,
    l: Lesson,
    t: LessonTrace,
    u: LessonTrace,
)
    requires
        twins(b, c),
        l.starts(ops, b, t.told, t.bad_bias, t.readout),
        l.starts(ops, c, u.told, u.bad_bias, u.readout),
    ensures
        l.schedule(ops, b) == l.schedule(ops, c),
        twins(t.readout, u.readout),
        t.bad_bias == u.bad_bias,
{
    reveal(Lesson::starts);
    assert(l.schedule(ops, b) == l.schedule(ops, c) && b.model.config.learning
        == c.model.config.learning) by {
        reveal(alike);
    }
    lemma_told(ops, b, c, l.class as int, l.schedule(ops, b).0, t.told, u.told);
    lemma_readout(
        ops,
        t.told,
        u.told,
        ops.product(
            b.model.config.learning.output_learning_rate.opposite(),
            l.supervised(ops),
        ),
        t.bad_bias,
        u.bad_bias,
        t.readout,
        u.readout,
    );
}

proof fn lemma_contextual<T: Numerics>(
    ops: T,
    l: Lesson,
    b: Runtime,
    c: Runtime,
    x: Runtime,
    r: LeoResult<()>,
    y: Runtime,
    s: LeoResult<()>,
)
    requires
        twins(b, c),
        l.contextual(ops, b, x, r),
        l.contextual(ops, c, y, s),
    ensures
        twins(x, y),
        same_result(r, s),
{
    reveal(Lesson::contextual);
    assert(b.context_applied == c.context_applied) by {
        reveal(alike);
    }
    if b.context_applied {
        lemma_context(ops, b, c, l.supervised(ops), x, r, y, s);
    }
}

/// The runtime after the learning of the synapses.
spec fn synapses_learned(t: LessonTrace) -> Runtime {
    if t.synapses.recurrent_whole {
        t.synapses.input
    } else {
        t.synapses.recurrent
    }
}

proof fn lemma_synaptic<T: Numerics>(
    ops: T,
    l: Lesson,
    scale: Scalar,
    b: Runtime,
    c: Runtime,
    t: LessonTrace,
    u: LessonTrace,
)
    requires
        twins(b, c),
        l.synaptic(ops, scale, b, t.synapses, synapses_learned(t)),
        l.synaptic(ops, scale, c, u.synapses, synapses_learned(u)),
    ensures
        twins(synapses_learned(t), synapses_learned(u)),
        t.synapses.recurrent_whole == u.synapses.recurrent_whole,
        t.synapses.recurrent_whole ==> t.synapses.input_whole == u.synapses.input_whole,
{
    reveal(Lesson::synaptic);
    let consolidated = ops.product(l.supervised(ops), scale);
    if nought().below(scale) {
        lemma_recurrent(
            ops,
            b,
            c,
            consolidated,
            t.synapses.recurrent,
            t.synapses.recurrent_whole,
            u.synapses.recurrent,
            u.synapses.recurrent_whole,
        );
        if t.synapses.recurrent_whole {
            lemma_input(
                ops,
                t.synapses.recurrent,
                u.synapses.recurrent,
                consolidated,
                t.synapses.input,
                t.synapses.input_whole,
                u.synapses.input,
                u.synapses.input_whole,
            );
        }
    }
}

proof fn lemma_closed<T: Numerics>(
    ops: T,
    l: Lesson,
    b: Runtime,
    c: Runtime,
    phase: usize,
    t: LessonTrace,
    x: Runtime,
    u: LessonTrace,
    y: Runtime,
)
    requires
        twins(b, c),
        l.closes(ops, b, phase, t.balanced, t.balanced_whole, x),
        l.closes(ops, c, phase, u.balanced, u.balanced_whole, y),
    ensures
        twins(x, y),
        t.balanced_whole == u.balanced_whole,
{
    assert(twins(t.balanced, u.balanced) && t.balanced_whole == u.balanced_whole) by {
        reveal(Lesson::closes);
        lemma_balanced(
            ops,
            b,
            c,
            l.strength,
            t.balanced,
            t.balanced_whole,
            u.balanced,
            u.balanced_whole,
        );
    }
    reveal(Lesson::closes);
    reveal(alike);
}

/// A lesson gives the same each time.
proof fn lemma_lesson<T: Numerics>(
    ops: T,
    b: Runtime,
    c: Runtime,
    l: Lesson,
    x: Runtime,
    r: LeoResult<EligibilitySum>,
    y: Runtime,
    s: LeoResult<EligibilitySum>,
)
    requires
        twins(b, c),
        lesson_taken(ops, b, l, x, r),
        lesson_taken(ops, c, l, y, s),
    ensures
        twins(x, y),
        same_result(r, s),
{
    let t = choose|t: LessonTrace| #[trigger] t.explains(ops, b, l, x, r);
    let u = choose|u: LessonTrace| #[trigger] u.explains(ops, c, l, y, s);
    reveal(LessonTrace::explains);
    let (scale, phase) = l.schedule(ops, b);
    lemma_started(ops, b, c, l, t, u);
    if t.bad_bias is None {
        lemma_contextual(
            ops,
            l,
            t.readout,
            u.readout,
            t.context,
            t.context_result,
            u.context,
            u.context_result,
        );
        if t.context_result is Ok {
            lemma_synaptic(ops, l, scale, t.context, u.context, t, u);
            if t.synapses.recurrent_whole && t.synapses.input_whole {
                lemma_closed(
                    ops,
                    l,
                    synapses_learned(t),
                    synapses_learned(u),
                    phase,
                    t,
                    x,
                    u,
                    y,
                );
                assert(eligibility_used(ops, b) == eligibility_used(ops, c)) by {
                    reveal(alike);
                    assert(b.recurrent_traces.eligibility@ == b.recurrent_traces@.eligibility);
                    assert(c.recurrent_traces.eligibility@ == c.recurrent_traces@.eligibility);
                    assert(b.input_traces.eligibility@ == b.input_traces@.eligibility);
                    assert(c.input_traces.eligibility@ == c.input_traces@.eligibility);
                }
            }
        }
    }
}

/// The lists of eligible synapses are sound, and cover the synapses.
spec fn traces_fit(r: Runtime) -> bool {
    &&& r.recurrent_traces.eligible.wf()
    &&& r.recurrent_traces.eligible.capacity() == r.model.recurrent.weight@.len()
    &&& r.input_traces.eligible.wf()
    &&& r.input_traces.eligible.capacity() == r.model.input.weights@.len()
}

/// What a prediction rests on does not change from the opening of a step on.
proof fn lemma_stages_leave<T: Numerics>(
    ops: T,
    b: Runtime,
    symbol: u32,
    target: Option<u32>,
    permission: Permission,
    t: StageTrace,
)
    requires
        t.leads_on(ops, b, symbol, target, permission),
    ensures
        t.followed.model == t.opened.model,
        t.opened.output_weights_by_neuron@ == transposed(
            t.opened.model.output.weights@,
            t.opened.size(),
            t.opened.alphabet.output_classes as int,
        ),
        traces_fit(t.followed),
{
    reveal(StageTrace::leads_on);
    let m = t.predicted.model;
    assert(traces_fit(t.predicted) && t.predicted.output_weights_by_neuron@ == transposed(
        m.output.weights@,
        t.predicted.size(),
        t.predicted.alphabet.output_classes as int,
    )) by {
        reveal(Runtime::steady);
    }
    assert(t.received.model == t.opened.model && t.received.alphabet == t.opened.alphabet
        && t.received.output_weights_by_neuron == t.opened.output_weights_by_neuron) by {
        reveal(received);
    }
    assert(t.competed.model == t.received.model && t.competed.alphabet == t.received.alphabet
        && t.competed.output_weights_by_neuron == t.received.output_weights_by_neuron) by {
        reveal(competed);
    }
    assert(t.followed.model == t.competed.model && t.followed.alphabet == t.competed.alphabet
        && t.followed.output_weights_by_neuron == t.competed.output_weights_by_neuron) by {
        reveal(followed_all);
    }
    assert(t.rested.model == t.followed.model && t.rested.alphabet == t.followed.alphabet
        && t.rested.output_weights_by_neuron == t.followed.output_weights_by_neuron
        && t.rested.recurrent_traces == t.followed.recurrent_traces && t.rested.input_traces
        == t.followed.input_traces) by {
        reveal(rested);
    }
    assert(t.sent.model == t.rested.model && t.sent.alphabet == t.rested.alphabet
        && t.sent.output_weights_by_neuron == t.rested.output_weights_by_neuron
        && t.sent.recurrent_traces == t.rested.recurrent_traces && t.sent.input_traces
        == t.rested.input_traces) by {
        reveal(sent);
    }
    assert(t.predicted.model == t.sent.model && t.predicted.alphabet == t.sent.alphabet
        && t.predicted.output_weights_by_neuron == t.sent.output_weights_by_neuron
        && t.predicted.recurrent_traces == t.sent.recurrent_traces && t.predicted.input_traces
        == t.sent.input_traces) by {
        reveal(predicted);
    }
}

/// The stages of a step give the same each time.
proof fn lemma_stages<T: Numerics>(
    ops: T,
    b: Runtime,
    c: Runtime,
    symbol: u32,
    target: Option<u32>,
    permission: Permission,
    t: StageTrace,
    u: StageTrace,
)
    requires
        alike(b, c),
        t.leads_on(ops, b, symbol, target, permission),
        u.leads_on(ops, c, symbol, target, permission),
    ensures
        twins(t.predicted, u.predicted),
        same_opening(t.step, u.step),
        same_outcome(t.selection, u.selection),
        t.events == u.events,
        t.neural_loss == u.neural_loss,
{
    lemma_stages_leave(ops, b, symbol, target, permission, t);
    lemma_stages_leave(ops, c, symbol, target, permission, u);
    reveal(StageTrace::leads_on);
    assert(b.touched.list@ == c.touched.list@) by {
        reveal(alike);
    }
    lemma_opened(b, c, symbol, target, permission, t.step, u.step, t.opened, u.opened);
    assert(t.opened.output_weights_by_neuron@ == u.opened.output_weights_by_neuron@) by {
        reveal(alike);
    }
    lemma_received(
        ops,
        t.opened,
        u.opened,
        t.step,
        u.step,
        b.touched.list@,
        t.received,
        u.received,
    );
    lemma_competed(
        ops,
        t.received,
        u.received,
        t.selection,
        u.selection,
        t.competed,
        u.competed,
    );
    if permission != Permission::Frozen {
        assert(same_model(t.followed.model, u.followed.model)) by {
            reveal(alike);
        }
        lemma_followed(ops, t.competed, u.competed, t.followed, u.followed);
    }
    lemma_rested(ops, t.followed, u.followed, t.rested, u.rested);
    lemma_sent(ops, t.rested, u.rested, t.events, u.events, t.sent, u.sent);
    lemma_predicted(
        ops,
        t.sent,
        u.sent,
        t.step.target_class,
        t.neural_loss,
        u.neural_loss,
        t.predicted,
        u.predicted,
    );
}

proof fn lemma_thresholds<T: Numerics>(ops: T, b: Runtime, c: Runtime, x: Runtime, y: Runtime)
    requires
        twins(b, c),
        thresholds_moved(ops, b, x),
        thresholds_moved(ops, c, y),
    ensures
        twins(x, y),
{
    reveal(alike);
    reveal(thresholds_moved);
    assert(b.state.activation@ == b.state@.activation);
    assert(c.state.activation@ == c.state@.activation);
    let one = pass_of(x.model.neurons.threshold@, x.tracker.threshold);
    let two = pass_of(y.model.neurons.threshold@, y.tracker.threshold);
    assert(one == two);
    assert(one.weights == two.weights && one.list == two.list && one.mark == two.mark);
}

proof fn lemma_step_closed<T: Numerics>(
    ops: T,
    b: Runtime,
    c: Runtime,
    symbol: u32,
    permission: Permission,
    learned: bool,
    loss: Option<Scalar>,
    count: usize,
    x: Runtime,
    y: Runtime,
)
    requires
        twins(b, c),
        step_closed(ops, b, symbol, permission, learned, loss, count, x),
        step_closed(ops, c, symbol, permission, learned, loss, count, y),
    ensures
        alike(x, y),
{
    reveal(alike);
    reveal(step_closed);
}

/// Steps can be repeated: two runtimes that hold the same, given the same symbol, target and
/// permission, hold the same after the step, and the steps give the same metrics or fail with the
/// same error.
pub proof fn law_steps_are_repeatable<T: Numerics>(
    ops: T,
    b: Runtime,
    c: Runtime,
    symbol: u32,
    target: Option<u32>,
    permission: Permission,
    x: Runtime,
    r: LeoResult<StepMetrics>,
    y: Runtime,
    s: LeoResult<StepMetrics>,
)
    requires
        alike(b, c),
        step_taken(ops, b, symbol, target, permission, x, r),
        step_taken(ops, c, symbol, target, permission, y, s),
    ensures
        alike(x, y),
        same_result(r, s),
{
    let t = choose|t: StepTrace| #[trigger] t.explains(ops, b, symbol, target, permission, x, r);
    let u = choose|u: StepTrace| #[trigger] u.explains(ops, c, symbol, target, permission, y, s);
    let p = t.stages;
    let q = u.stages;
    assert(p.leads_on(ops, b, symbol, target, permission) && q.leads_on(
        ops,
        c,
        symbol,
        target,
        permission,
    ) && p.teaches(ops, t.learned, t.lesson) && q.teaches(ops, u.learned, u.lesson)) by {
        reveal(StepTrace::explains);
    }
    lemma_stages(ops, b, c, symbol, target, permission, p, q);
    lemma_taught(ops, p, q, t.learned, t.lesson, u.learned, u.lesson);
    lemma_ended(ops, b, c, symbol, target, permission, t, x, r, u, y, s);
}

/// Stages that went the same way teach the same.
proof fn lemma_taught<T: Numerics>(
    ops: T,
    p: StageTrace,
    q: StageTrace,
    x: Runtime,
    r: LeoResult<EligibilitySum>,
    y: Runtime,
    s: LeoResult<EligibilitySum>,
)
    requires
        twins(p.predicted, q.predicted),
        same_opening(p.step, q.step),
        p.teaches(ops, x, r),
        q.teaches(ops, y, s),
    ensures
        twins(x, y),
        same_result(r, s),
{
    reveal(StageTrace::teaches);
    if p.step.learns {
        assert(class_weight(p.predicted, p.step.target_class->0) == class_weight(
            q.predicted,
            q.step.target_class->0,
        )) by {
            reveal(alike);
        }
        lemma_lesson(
            ops,
            p.predicted,
            q.predicted,
            Lesson {
                class: p.step.target_class->0,
                strength: p.step.strength,
                weight: class_weight(p.predicted, p.step.target_class->0),
            },
            x,
            r,
            y,
            s,
        );
    }
}

/// Steps whose lessons went the same way end the same.
proof fn lemma_ended<T: Numerics>(
    ops: T,
    b: Runtime,
    c: Runtime,
    symbol: u32,
    target: Option<u32>,
    permission: Permission,
    t: StepTrace,
    x: Runtime,
    r: LeoResult<StepMetrics>,
    u: StepTrace,
    y: Runtime,
    s: LeoResult<StepMetrics>,
)
    requires
        t.explains(ops, b, symbol, target, permission, x, r),
        u.explains(ops, c, symbol, target, permission, y, s),
        twins(t.stages.predicted, u.stages.predicted),
        same_opening(t.stages.step, u.stages.step),
        same_outcome(t.stages.selection, u.stages.selection),
        t.stages.events == u.stages.events,
        t.stages.neural_loss == u.stages.neural_loss,
        twins(t.learned, u.learned),
        same_result(t.lesson, u.lesson),
    ensures
        alike(x, y),
        same_result(r, s),
{
    reveal(StepTrace::explains);
    let p = t.stages;
    let q = u.stages;
    if t.lesson is Ok {
        if permission != Permission::Frozen {
            lemma_thresholds(ops, t.learned, u.learned, t.balanced, u.balanced);
        }
        let class = p.step.target_class;
        assert(step_loss(ops, p.predicted, class) == step_loss(ops, q.predicted, class)) by {
            reveal(alike);
        }
        lemma_step_closed(
            ops,
            t.balanced,
            u.balanced,
            symbol,
            permission,
            p.step.learns,
            step_loss(ops, p.predicted, class),
            p.events,
            x,
            y,
        );
        lemma_metrics(ops, t, u, x, r->Ok_0, y, s->Ok_0);
    }
}

/// Steps that went the same way have the same metrics.
proof fn lemma_metrics<T: Numerics>(
    ops: T,
    t: StepTrace,
    u: StepTrace,
    x: Runtime,
    m: StepMetrics,
    y: Runtime,
    n: StepMetrics,
)
    requires
        alike(x, y),
        twins(t.stages.predicted, u.stages.predicted),
        same_opening(t.stages.step, u.stages.step),
        same_outcome(t.stages.selection, u.stages.selection),
        t.stages.events == u.stages.events,
        t.stages.neural_loss == u.stages.neural_loss,
        same_result(t.lesson, u.lesson),
        metrics_fit(ops, t, x, m),
        metrics_fit(ops, u, y, n),
    ensures
        m == n,
{
    assert(x.numbers.probabilities@ == y.numbers.probabilities@ && x.numbers.population_inhibition
        == y.numbers.population_inhibition && x.active@ == y.active@ && x.context_slots@
        == y.context_slots@ && x.context_probes == y.context_probes && x.context_applied
        == y.context_applied && x.alphabet.symbol_of@ == y.alphabet.symbol_of@
        && x.alphabet.output_classes == y.alphabet.output_classes && x.model.config.context
        == y.model.config.context && x.recurrent_traces.eligible.list@
        == y.recurrent_traces.eligible.list@ && x.input_traces.eligible.list@
        == y.input_traces.eligible.list@ && t.stages.predicted.numbers.probabilities@
        == u.stages.predicted.numbers.probabilities@) by {
        reveal(alike);
    }
    let i = choose|i: int|
        #[trigger] is_argmax(x.numbers.probabilities@, i) && m == t.measured(ops, i, x);
    let j = choose|j: int|
        #[trigger] is_argmax(y.numbers.probabilities@, j) && n == u.measured(ops, j, y);
    let values = x.numbers.probabilities@;
    assert(values[i].total_rank() <= values[j].total_rank() && values[j].total_rank()
        <= values[i].total_rank());
    assert(i == j);
}

} // verus!
