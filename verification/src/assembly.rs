//! Putting a new model together from what its builders drew.

use crate::arithmetic::Numerics;
use crate::config::Config;
use crate::error::{fails, LeoError, LeoErrorKind, LeoResult};
use crate::initialize::{
    law_finished_network, synapse_ok, DrawRequest, InputBuilder, NetworkShape, RecurrentBuilder,
};
use crate::learning::unit;
use crate::metrics::TrainingStatistics;
use crate::model::{
    all_finite, ContextProjection, InputProjection, Model, NeuronParameters, OutputProjection,
};
use crate::prediction::{blank, blank_list};
use crate::scalar::Scalar;
use crate::symbols::Alphabet;
use vstd::prelude::*;

verus! {

/// How many numbers the arrays of a new model hold.
#[derive(Debug, Clone, Copy, PartialEq, Eq, Structural)]
pub struct ModelSizes {
    pub synapses: usize,
    pub output_weights: usize,
    pub context_slots: usize,
    pub context_embeddings: usize,
    pub context_output_weights: usize,
}

/// Which array of a new model would be too large, by its message.
pub open spec fn array_overflow(c: Config, alphabet: Alphabet) -> Option<Seq<char>> {
    if c.model.neuron_count * c.model.synapses_per_neuron > usize::MAX {
        Some("synapse array size overflow"@)
    } else if alphabet.output_classes * c.model.neuron_count > usize::MAX {
        Some("output array size overflow"@)
    } else {
        None
    }
}

impl ModelSizes {
    /// The sizes are those of a configuration.
    pub open spec fn fit(self, c: Config, alphabet: Alphabet) -> bool {
        &&& self.synapses == c.model.neuron_count * c.model.synapses_per_neuron
        &&& self.output_weights == alphabet.output_classes * c.model.neuron_count
        &&& self.context_slots == c.context.max_order * c.context.slots_per_order
        &&& self.context_embeddings == c.context.max_order * c.context.slots_per_order
            * c.context.embedding_dim
        &&& self.context_output_weights == alphabet.output_classes * c.context.embedding_dim
    }

    /// The sizes of a new model, where its configuration is sound and its arrays can be counted.
    pub fn plan<T: Numerics>(config: &Config, alphabet: &Alphabet, ops: &T) -> (r: LeoResult<Self>)
        requires
            ops.ready(),
        ensures
            match config.violation(alphabet.output_classes, config.target_active(*ops)) {
                Some(text) => fails(r, LeoErrorKind::Configuration, text),
                None => match array_overflow(*config, *alphabet) {
                    Some(text) => fails(r, LeoErrorKind::Internal, text),
                    None => r matches Ok(sizes) && sizes.fit(*config, *alphabet),
                },
            },
    {
        if let Err(error) = config.validate(alphabet, ops) {
            return Err(error);
        }
        let m = &config.model;
        let c = &config.context;
        let synapses: usize = match m.neuron_count.checked_mul(m.synapses_per_neuron) {
            Some(count) => count,
            None => {
                return Err(LeoError::internal("synapse array size overflow".to_owned()));
            },
        };
        let output_weights: usize = match alphabet.output_classes.checked_mul(m.neuron_count) {
            Some(count) => count,
            None => {
                return Err(LeoError::internal("output array size overflow".to_owned()));
            },
        };
        proof {
            crate::config::law_valid_sizes_fit(
                *config,
                alphabet.output_classes,
                config.target_active(*ops),
            );
            assert(alphabet.output_classes * c.embedding_dim == c.embedding_dim
                * alphabet.output_classes) by (nonlinear_arith);
            assert(0 <= c.max_order * c.slots_per_order * c.embedding_dim) by (nonlinear_arith);
            assert(0 <= c.embedding_dim * alphabet.output_classes) by (nonlinear_arith);
        }
        let context_slots: usize = c.max_order * c.slots_per_order;
        Ok(
            ModelSizes {
                synapses,
                output_weights,
                context_slots,
                context_embeddings: context_slots * c.embedding_dim,
                context_output_weights: alphabet.output_classes * c.embedding_dim,
            },
        )
    }
}

/// The shape of the network that a configuration asks for.
pub open spec fn shape_of(c: Config) -> NetworkShape {
    NetworkShape {
        neuron_count: c.model.neuron_count,
        block_count: c.model.block_count,
        neurons_per_block: c.model.neurons_per_block,
        synapses_per_neuron: c.model.synapses_per_neuron,
    }
}

/// What was drawn for a new model.
#[derive(Debug)]
pub struct DrawnParts {
    /// The finished recurrent synapses and the types of the neurons.
    pub recurrent: RecurrentBuilder,
    /// The finished input synapses.
    pub input: InputBuilder,
    pub threshold: Vec<Scalar>,
    pub output_weights: Vec<Scalar>,
    pub context_output_weights: Vec<Scalar>,
}

impl DrawnParts {
    /// Everything that a configuration asks for was drawn.
    pub open spec fn complete(self, c: Config, alphabet: Alphabet) -> bool {
        &&& self.recurrent.wf()
        &&& self.recurrent.wanted() == DrawRequest::Nothing
        &&& self.recurrent.shape == shape_of(c)
        &&& self.input.wf()
        &&& self.input.symbol == self.input.symbol_count
        &&& self.input.symbol_count == alphabet.input.len()
        &&& self.input.fanout == c.model.input_fanout
        &&& self.input.neuron_count == c.model.neuron_count
        &&& self.threshold.len() == c.model.neuron_count
        &&& self.output_weights.len() == alphabet.output_classes * c.model.neuron_count
        &&& self.context_output_weights.len() == alphabet.output_classes * c.context.embedding_dim
    }

    /// Every number that was drawn is finite, and the weights of synapses keep their bounds.
    pub open spec fn in_bounds(self, c: Config) -> bool {
        &&& all_finite(self.threshold@)
        &&& all_finite(self.output_weights@)
        &&& all_finite(self.context_output_weights@)
        &&& all_finite(self.recurrent.synapses.weight@)
        &&& all_finite(self.input.weights@)
        &&& forall|i: int|
            0 <= i < self.recurrent.neuron_type.len() ==> (#[trigger] self.recurrent.neuron_type[i])
                <= 1
        &&& forall|i: int|
            0 <= i < self.recurrent.synapses.weight.len() ==> !(
            #[trigger] self.recurrent.synapses.weight[i]).below(c.learning.weight_min)
                && !c.learning.weight_max.below(self.recurrent.synapses.weight[i])
        &&& forall|i: int|
            0 <= i < self.input.weights.len() ==> !c.learning.weight_max.below(
                #[trigger] self.input.weights[i],
            )
    }
}

/// A model is as new: what was drawn, and nothing learned.
pub open spec fn is_new(m: Model, config: Config, alphabet: Alphabet, parts: DrawnParts) -> bool {
    let slots = config.context.max_order * config.context.slots_per_order;
    &&& m.config == config
    &&& m.generation == 0
    &&& m.parameter_revision == 0
    &&& m.neurons.threshold == parts.threshold
    &&& m.neurons.excitability@ == Seq::new(config.model.neuron_count as nat, |i: int| unit())
    &&& m.neurons.neuron_type == parts.recurrent.neuron_type
    &&& m.recurrent == parts.recurrent.synapses
    &&& m.input == (InputProjection {
        fanout: config.model.input_fanout,
        targets: parts.input.targets,
        branches: parts.input.branches,
        weights: parts.input.weights,
    })
    &&& m.output.weights == parts.output_weights
    &&& m.output.bias@ == blank(alphabet.output_classes as int)
    &&& m.context.keys@ == Seq::new(slots as nat, |i: int| 0u64)
    &&& m.context.observations@ == Seq::new(slots as nat, |i: int| 0u32)
    &&& m.context.embeddings@ == blank(slots * config.context.embedding_dim)
    &&& m.context.output_weights == parts.context_output_weights
    &&& m.statistics == TrainingStatistics::empty()
}

fn ones(n: usize) -> (r: Vec<Scalar>)
    ensures
        r@ == Seq::new(n as nat, |i: int| unit()),
{
    let mut r: Vec<Scalar> = Vec::new();
    while r.len() < n
        invariant
            r.len() <= n,
            r@ == Seq::new(r.len() as nat, |i: int| unit()),
        decreases n - r.len(),
    {
        r.push(Scalar::one());
        assert(r@ =~= Seq::new(r.len() as nat, |i: int| unit()));
    }
    r
}

fn no_keys(n: usize) -> (r: Vec<u64>)
    ensures
        r@ == Seq::new(n as nat, |i: int| 0u64),
{
    let mut r: Vec<u64> = Vec::new();
    while r.len() < n
        invariant
            r.len() <= n,
            r@ == Seq::new(r.len() as nat, |i: int| 0u64),
        decreases n - r.len(),
    {
        r.push(0);
        assert(r@ =~= Seq::new(r.len() as nat, |i: int| 0u64));
    }
    r
}

fn no_observations(n: usize) -> (r: Vec<u32>)
    ensures
        r@ == Seq::new(n as nat, |i: int| 0u32),
{
    let mut r: Vec<u32> = Vec::new();
    while r.len() < n
        invariant
            r.len() <= n,
            r@ == Seq::new(r.len() as nat, |i: int| 0u32),
        decreases n - r.len(),
    {
        r.push(0);
        assert(r@ =~= Seq::new(r.len() as nat, |i: int| 0u32));
    }
    r
}

impl Model {
    /// A new model from what was drawn for it.
    pub fn initialize<T: Numerics>(
        config: Config,
        alphabet: &Alphabet,
        ops: &T,
        parts: DrawnParts,
    ) -> (r: LeoResult<Self>)
        requires
            ops.ready(),
            config.violation(alphabet.output_classes, config.target_active(*ops)) is None
                && array_overflow(
                config,
                *alphabet,
            ) is None ==> parts.complete(config, *alphabet),
        ensures
            match config.violation(alphabet.output_classes, config.target_active(*ops)) {
                Some(text) => fails(r, LeoErrorKind::Configuration, text),
                None => match array_overflow(config, *alphabet) {
                    Some(text) => fails(r, LeoErrorKind::Internal, text),
                    None => r matches Ok(m) && is_new(m, config, *alphabet, parts),
                },
            },
    {
        let sizes: ModelSizes = match ModelSizes::plan(&config, alphabet, ops) {
            Ok(sizes) => sizes,
            Err(error) => {
                return Err(error);
            },
        };
        let neurons: usize = config.model.neuron_count;
        let fanout: usize = config.model.input_fanout;
        Ok(
            Model {
                config,
                generation: 0,
                parameter_revision: 0,
                neurons: NeuronParameters {
                    threshold: parts.threshold,
                    excitability: ones(neurons),
                    neuron_type: parts.recurrent.neuron_type,
                },
                recurrent: parts.recurrent.synapses,
                input: InputProjection {
                    fanout,
                    targets: parts.input.targets,
                    branches: parts.input.branches,
                    weights: parts.input.weights,
                },
                output: OutputProjection {
                    weights: parts.output_weights,
                    bias: blank_list(alphabet.output_classes),
                },
                context: ContextProjection {
                    keys: no_keys(sizes.context_slots),
                    embeddings: blank_list(sizes.context_embeddings),
                    observations: no_observations(sizes.context_slots),
                    output_weights: parts.context_output_weights,
                },
                statistics: TrainingStatistics::default(),
            },
        )
    }
}

/// From `from` on no recurrent synapse of a new model is wrong.
proof fn lemma_new_synapses(
    m: Model,
    config: Config,
    alphabet: Alphabet,
    parts: DrawnParts,
    from: int,
)
    requires
        0 <= from,
        is_new(m, config, alphabet, parts),
        parts.complete(config, alphabet),
        parts.in_bounds(config),
    ensures
        m.synapse_violation_from(from) is None,
    decreases parts.recurrent.built() - from,
{
    if from < parts.recurrent.built() {
        law_finished_network(parts.recurrent);
        assert(synapse_ok(
            parts.recurrent.shape,
            parts.recurrent.neuron_type@,
            parts.recurrent.synapses,
            from,
            from / config.model.synapses_per_neuron as int,
        ));
        assert(!parts.recurrent.synapses.weight[from].below(config.learning.weight_min));
        lemma_new_synapses(m, config, alphabet, parts, from + 1);
    }
}

/// From `from` on no input synapse of a new model is wrong.
proof fn lemma_new_inputs(
    m: Model,
    config: Config,
    alphabet: Alphabet,
    parts: DrawnParts,
    from: int,
)
    requires
        0 <= from,
        is_new(m, config, alphabet, parts),
        parts.complete(config, alphabet),
        parts.in_bounds(config),
    ensures
        m.input_violation_from(from) is None,
    decreases parts.input.targets.len() - from,
{
    if from < parts.input.targets.len() {
        assert(parts.input.targets[from] < parts.input.neuron_count);
        assert(!config.learning.weight_max.below(parts.input.weights[from]));
        lemma_new_inputs(m, config, alphabet, parts, from + 1);
    }
}

/// A new model passes validation where what was drawn for it keeps the bounds of its
/// configuration.
pub proof fn law_new_models_are_valid(
    m: Model,
    config: Config,
    alphabet: Alphabet,
    target_active: usize,
    parts: DrawnParts,
)
    requires
        config.violation(alphabet.output_classes, target_active) is None,
        array_overflow(config, alphabet) is None,
        parts.complete(config, alphabet),
        parts.in_bounds(config),
        is_new(m, config, alphabet, parts),
    ensures
        m.violation(alphabet) is None,
{
    crate::config::law_valid_sizes_fit(config, alphabet.output_classes, target_active);
    law_finished_network(parts.recurrent);
    crate::initialize::law_finished_inputs(parts.input);
    assert(alphabet.output_classes * config.context.embedding_dim == config.context.embedding_dim
        * alphabet.output_classes) by (nonlinear_arith);
    assert(0 <= config.context.max_order * config.context.slots_per_order
        * config.context.embedding_dim) by (nonlinear_arith);
    assert(alphabet.input.len() * config.model.input_fanout <= usize::MAX);
    assert(m.size_violation(alphabet) is None);
    assert(m.tensors_match(alphabet));
    assert(m.numbers_finite());
    lemma_new_synapses(m, config, alphabet, parts, 0);
    lemma_new_inputs(m, config, alphabet, parts, 0);
}

} // verus!
