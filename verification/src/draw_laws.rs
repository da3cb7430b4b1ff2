//! A new model follows from its configuration and from what is drawn for it.

use crate::assembly::{is_new, shape_of, DrawnParts};
use crate::config::Config;
use crate::error::LeoResult;
use crate::initialize::{
    ending_at, law_finished_inputs, law_finished_network, reaches, synapse_ok, InputBuilder,
    RecurrentBuilder,
};
use crate::learning::nought;
use crate::model::{Model, SynapseArrays};
use crate::repeat_laws::{same_config, same_model};
use crate::scalar::Scalar;
use crate::symbols::Alphabet;
use vstd::prelude::*;

verus! {

/// One answer to a builder.
pub enum Answer {
    Number(usize),
    Weight(Scalar),
}

/// The two lists of synapses hold the same.
pub open spec fn same_synapses(x: SynapseArrays, y: SynapseArrays) -> bool {
    &&& x.capacity_per_neuron == y.capacity_per_neuron
    &&& x.target_neuron@ == y.target_neuron@
    &&& x.target_branch@ == y.target_branch@
    &&& x.delay@ == y.delay@
    &&& x.weight@ == y.weight@
}

/// The two builders stand at the same place and have built the same.
pub open spec fn same_recurrent(x: RecurrentBuilder, y: RecurrentBuilder) -> bool {
    &&& x.shape == y.shape
    &&& x.neuron_type@ == y.neuron_type@
    &&& x.source == y.source
    &&& x.local_slot == y.local_slot
    &&& x.draws == y.draws
    &&& x.stage == y.stage
    &&& x.used@ == y.used@
    &&& same_synapses(x.synapses, y.synapses)
}

/// The two builders stand at the same place and have built the same.
pub open spec fn same_input(x: InputBuilder, y: InputBuilder) -> bool {
    &&& x.symbol_count == y.symbol_count
    &&& x.fanout == y.fanout
    &&& x.neuron_count == y.neuron_count
    &&& x.symbol == y.symbol
    &&& x.index == y.index
    &&& x.chosen == y.chosen
    &&& x.used@ == y.used@
    &&& x.targets@ == y.targets@
    &&& x.branches@ == y.branches@
    &&& x.weights@ == y.weights@
}

/// One builder comes of another by an answer.
pub open spec fn recurrent_answered(
    b: RecurrentBuilder,
    a: RecurrentBuilder,
    answer: Answer,
) -> bool {
    match answer {
        Answer::Number(draw) => b.answers(draw) && exists|r: LeoResult<()>|
            #[trigger] b.drew(a, draw, r),
        Answer::Weight(weight) => b.stage is ForWeight && b.weighed(a, weight),
    }
}

/// One builder comes of another by an answer.
pub open spec fn input_answered(b: InputBuilder, a: InputBuilder, answer: Answer) -> bool {
    match answer {
        Answer::Number(draw) => b.chosen is None && a == (InputBuilder {
            chosen: if b.used@.contains(draw) {
                None
            } else {
                Some(draw)
            },
            ..b
        }),
        Answer::Weight(weight) => b.chosen is Some && b.weighed(a, weight),
    }
}

/// Each builder of a list comes of the one before it by the answer at its place.
pub open spec fn recurrent_course(list: Seq<RecurrentBuilder>, answers: Seq<Answer>) -> bool {
    &&& list.len() == answers.len() + 1
    &&& forall|i: int|
        0 <= i < answers.len() ==> #[trigger] recurrent_answered(list[i], list[i + 1], answers[i])
}

/// Each builder of a list comes of the one before it by the answer at its place.
pub open spec fn input_course(list: Seq<InputBuilder>, answers: Seq<Answer>) -> bool {
    &&& list.len() == answers.len() + 1
    &&& forall|i: int|
        0 <= i < answers.len() ==> #[trigger] input_answered(list[i], list[i + 1], answers[i])
}

/// The same answer leads builders that hold the same to builders that hold the same.
proof fn lemma_recurrent_answer(
    x: RecurrentBuilder,
    y: RecurrentBuilder,
    x2: RecurrentBuilder,
    y2: RecurrentBuilder,
    answer: Answer,
)
    requires
        same_recurrent(x, y),
        recurrent_answered(x, x2, answer),
        recurrent_answered(y, y2, answer),
    ensures
        same_recurrent(x2, y2),
{
}

/// Two builders of recurrent synapses that start alike and are given the same numbers have
/// built the same at every moment.
pub proof fn law_draws_decide_the_recurrent_synapses(
    x: Seq<RecurrentBuilder>,
    y: Seq<RecurrentBuilder>,
    answers: Seq<Answer>,
    upto: int,
)
    requires
        recurrent_course(x, answers),
        recurrent_course(y, answers),
        same_recurrent(x[0], y[0]),
        0 <= upto <= answers.len(),
    ensures
        same_recurrent(x[upto], y[upto]),
    decreases upto,
{
    if upto > 0 {
        law_draws_decide_the_recurrent_synapses(x, y, answers, upto - 1);
        assert(recurrent_answered(x[upto - 1], x[upto - 1 + 1], answers[upto - 1]));
        assert(recurrent_answered(y[upto - 1], y[upto - 1 + 1], answers[upto - 1]));
        lemma_recurrent_answer(x[upto - 1], y[upto - 1], x[upto], y[upto], answers[upto - 1]);
    }
}

/// Two builders of input synapses that start alike and are given the same numbers have built
/// the same at every moment.
pub proof fn law_draws_decide_the_input_synapses(
    x: Seq<InputBuilder>,
    y: Seq<InputBuilder>,
    answers: Seq<Answer>,
    upto: int,
)
    requires
        input_course(x, answers),
        input_course(y, answers),
        same_input(x[0], y[0]),
        0 <= upto <= answers.len(),
    ensures
        same_input(x[upto], y[upto]),
    decreases upto,
{
    if upto > 0 {
        law_draws_decide_the_input_synapses(x, y, answers, upto - 1);
        assert(input_answered(x[upto - 1], x[upto - 1 + 1], answers[upto - 1]));
        assert(input_answered(y[upto - 1], y[upto - 1 + 1], answers[upto - 1]));
    }
}

/// The rules of a new model. An excitatory neuron has weights that are not negative and ends on no
/// inhibitory branch; an inhibitory one has weights that are not positive and ends on inhibitory
/// branches alone. No two synapses of a neuron end at the same place, and one that ends on its own
/// neuron brings delayed evidence. No symbol reaches a neuron twice. Nothing is learned yet.
pub proof fn law_new_models_keep_the_rules(
    m: Model,
    config: Config,
    alphabet: Alphabet,
    parts: DrawnParts,
)
    requires
        parts.complete(config, alphabet),
        is_new(m, config, alphabet, parts),
    ensures
        m.recurrent.weight.len() == config.model.neuron_count * config.model.synapses_per_neuron,
        forall|i: int|
            0 <= i < m.recurrent.weight.len() ==> #[trigger] synapse_ok(
                shape_of(config),
                m.neurons.neuron_type@,
                m.recurrent,
                i,
                i / config.model.synapses_per_neuron as int,
            ),
        forall|s: int, x: int, y: int|
            0 <= s < config.model.neuron_count && 0 <= x < y < config.model.synapses_per_neuron
                ==> #[trigger] ending_at(m.recurrent, s * config.model.synapses_per_neuron + x)
                != #[trigger] ending_at(m.recurrent, s * config.model.synapses_per_neuron + y),
        forall|s: int, x: int, y: int|
            0 <= s < alphabet.input.len() && 0 <= x < y < config.model.input_fanout
                ==> #[trigger] reaches(m.input.targets@, config.model.input_fanout as int, s, x)
                != #[trigger] reaches(m.input.targets@, config.model.input_fanout as int, s, y),
        forall|i: int| 0 <= i < m.output.bias.len() ==> #[trigger] m.output.bias[i] == nought(),
        forall|i: int| 0 <= i < m.context.keys.len() ==> #[trigger] m.context.keys[i] == 0,
        forall|i: int|
            0 <= i < m.context.observations.len() ==> #[trigger] m.context.observations[i] == 0,
        forall|i: int|
            0 <= i < m.context.embeddings.len() ==> #[trigger] m.context.embeddings[i] == nought(),
{
    law_finished_network(parts.recurrent);
    law_finished_inputs(parts.input);
}

/// What was drawn for two models is the same.
pub open spec fn same_parts(x: DrawnParts, y: DrawnParts) -> bool {
    &&& x.recurrent.neuron_type@ == y.recurrent.neuron_type@
    &&& same_synapses(x.recurrent.synapses, y.recurrent.synapses)
    &&& x.input.targets@ == y.input.targets@
    &&& x.input.branches@ == y.input.branches@
    &&& x.input.weights@ == y.input.weights@
    &&& x.threshold@ == y.threshold@
    &&& x.output_weights@ == y.output_weights@
    &&& x.context_output_weights@ == y.context_output_weights@
}

/// Two new models with the same configuration, for which the same was drawn, hold the same.
pub proof fn law_equal_draws_give_equal_models(
    m: Model,
    n: Model,
    config: Config,
    other: Config,
    alphabet: Alphabet,
    parts: DrawnParts,
    others: DrawnParts,
)
    requires
        same_config(config, other),
        same_parts(parts, others),
        is_new(m, config, alphabet, parts),
        is_new(n, other, alphabet, others),
    ensures
        same_model(m, n),
{
}

} // verus!
