//! The rules of a configuration and of a model.

use leo_core::arithmetic::{Numerics, Operations};
use leo_core::assembly::{DrawnParts, ModelSizes};
use leo_core::config::Config;
use leo_core::error::LeoErrorKind;
use leo_core::initialize::{
    mark_inhibitory, DrawRequest, InputBuilder, NetworkShape, RecurrentBuilder,
};
use leo_core::metrics::WideScalar;
use leo_core::model::Model;
use leo_core::scalar::Scalar;
use leo_core::symbols::Alphabet;

const BEGIN_DOCUMENT: u32 = 256;
const END_DOCUMENT: u32 = 257;

fn s(value: f32) -> Scalar {
    Scalar { bits: value.to_bits() }
}

fn f(value: Scalar) -> f32 {
    f32::from_bits(value.bits)
}

fn wide(value: f64) -> WideScalar {
    WideScalar { bits: value.to_bits() }
}

fn g(value: WideScalar) -> f64 {
    f64::from_bits(value.bits)
}

fn single() -> impl Numerics {
    Operations {
        plus: |(a, b): (Scalar, Scalar)| s(f(a) + f(b)),
        minus: |(a, b): (Scalar, Scalar)| s(f(a) - f(b)),
        times: |(a, b): (Scalar, Scalar)| s(f(a) * f(b)),
        over: |(a, b): (Scalar, Scalar)| s(f(a) / f(b)),
        raised: |(a, n): (Scalar, u32)| s(f(a).powi(n as i32)),
        exp: |a: Scalar| s(f(a).exp()),
        ln: |a: Scalar| s(f(a).ln()),
        of_count: |n: u64| s(n as f32),
        wide_plus: |(sum, a): (WideScalar, Scalar)| wide(g(sum) + f(a) as f64),
        wide_over: |(sum, n): (WideScalar, u64)| s((g(sum) / n as f64) as f32),
        up: |a: Scalar| f(a).ceil() as usize,
        wide_add: |(a, b): (WideScalar, WideScalar)| wide(g(a) + g(b)),
        wide_minus: |(a, b): (WideScalar, WideScalar)| wide(g(a) - g(b)),
        wide_divide: |(a, b): (WideScalar, WideScalar)| wide(g(a) / g(b)),
        wide_count: |n: u64| wide(n as f64),
        consolidate: |(phase, _ends): (usize, bool)| (Scalar::one(), phase),
    }
}

fn alphabet() -> Alphabet {
    let mut input: Vec<bool> = vec![true; 258];
    input[END_DOCUMENT as usize] = false;
    let mut class_of: Vec<Option<usize>> = Vec::new();
    let mut symbol_of: Vec<u32> = Vec::new();
    for symbol in 0..258u32 {
        if symbol == BEGIN_DOCUMENT {
            class_of.push(None);
        } else {
            class_of.push(Some(symbol_of.len()));
            symbol_of.push(symbol);
        }
    }
    Alphabet {
        input,
        class_of,
        symbol_of,
        output_classes: 257,
        begin_document: BEGIN_DOCUMENT,
        end_document: END_DOCUMENT,
        end_document_class: 256,
    }
}

struct Generator(u64);

impl Generator {
    fn next(&mut self) -> u64 {
        self.0 = self.0.wrapping_add(0x9e37_79b9_7f4a_7c15);
        let mut z = self.0;
        z = (z ^ (z >> 30)).wrapping_mul(0xbf58_476d_1ce4_e5b9);
        z = (z ^ (z >> 27)).wrapping_mul(0x94d0_49bb_1331_11eb);
        z ^ (z >> 31)
    }

    fn below(&mut self, bound: usize) -> usize {
        (self.next() % bound as u64) as usize
    }

    fn between(&mut self, low: f32, high: f32) -> f32 {
        low + (high - low) * ((self.next() >> 40) as f32 / 16_777_216.0)
    }

    fn list(&mut self, count: usize, low: f32, high: f32) -> Vec<Scalar> {
        (0..count).map(|_| s(self.between(low, high))).collect()
    }
}

fn drawn_parts(config: &Config, alphabet: &Alphabet) -> DrawnParts {
    let sizes = ModelSizes::plan(config, alphabet, &single()).unwrap();
    let mut random = Generator(config.model.seed);
    let neurons = config.model.neuron_count;
    let mut neuron_type = vec![0u8; neurons];
    let mut ids: Vec<usize> = (0..neurons).collect();
    for place in (1..neurons).rev() {
        ids.swap(place, random.below(place + 1));
    }
    let inhibitory = ((1.0 - f(config.model.excitatory_fraction)) * neurons as f32).round();
    mark_inhibitory(&mut neuron_type, &ids, inhibitory as usize);
    let threshold = random.list(neurons, 0.45, 0.55);
    let shape = NetworkShape {
        neuron_count: neurons,
        block_count: config.model.block_count,
        neurons_per_block: config.model.neurons_per_block,
        synapses_per_neuron: config.model.synapses_per_neuron,
    };
    let mut recurrent = RecurrentBuilder::new(shape, neuron_type);
    loop {
        match recurrent.request() {
            DrawRequest::Nothing => break,
            DrawRequest::Neighbour => recurrent.supply(random.below(3)).unwrap(),
            DrawRequest::WithinBlock(size) => recurrent.supply(random.below(size)).unwrap(),
            DrawRequest::Anywhere(count) => recurrent.supply(random.below(count)).unwrap(),
            DrawRequest::Branch => recurrent.supply(random.below(3)).unwrap(),
            DrawRequest::Delay => recurrent.supply(random.below(100)).unwrap(),
            DrawRequest::Weight(false) => recurrent.supply_weight(s(random.between(0.01, 0.08))),
            DrawRequest::Weight(true) => recurrent.supply_weight(s(random.between(-0.08, -0.01))),
        }
    }
    let mut input =
        InputBuilder::new(alphabet.symbol_count(), config.model.input_fanout, neurons).unwrap();
    loop {
        match input.request() {
            DrawRequest::Nothing => break,
            DrawRequest::Weight(_) => input.supply_weight(s(random.between(0.05, 0.20))),
            _ => input.supply(random.below(neurons)),
        }
    }
    DrawnParts {
        recurrent,
        input,
        threshold,
        output_weights: random.list(sizes.output_weights, -0.005, 0.005),
        context_output_weights: random.list(sizes.context_output_weights, -0.005, 0.005),
    }
}

fn new_model(config: Config) -> Model {
    let alphabet = alphabet();
    let parts = drawn_parts(&config, &alphabet);
    Model::initialize(config, &alphabet, &single(), parts).unwrap()
}

fn integrated_config() -> Config {
    let mut config = Config::default();
    config.model.name = "integrated-runtime-test".into();
    config.model.neuron_count = 8;
    config.model.block_count = 1;
    config.model.neurons_per_block = 8;
    config.model.synapses_per_neuron = 1;
    config.model.input_fanout = 1;
    config.model.max_active_per_block = 8;
    config.model.max_active_global = 8;
    config.dynamics.fatigue_gain = s(1.0e-6);
    config.dynamics.refractory_ticks = 1;
    config.dynamics.target_activity = s(0.5);
    config.dynamics.threshold_homeostasis_rate = s(1.0e-8);
    config.learning.output_learning_rate = s(1.0e-8);
    config.learning.recurrent_learning_rate = s(0.1);
    config.learning.inhibitory_learning_rate = s(1.0e-8);
    config.learning.eligibility_epsilon = s(1.0e-7);
    config.learning.surrogate_width = s(0.25);
    config.learning.surrogate_gain = s(0.1);
    config.learning.max_update = s(0.1);
    config.context.max_order = 3;
    config.context.slots_per_order = 1024;
    config.context.learning_rate = s(0.1);
    config.context.confidence_observations = 1;
    config.context.dropout_rate = s(0.0);
    config.validate(&alphabet(), &single()).unwrap();
    config
}

fn problem(change: fn(&mut Config)) -> String {
    let mut config = integrated_config();
    change(&mut config);
    let error = config.validate(&alphabet(), &single()).unwrap_err();
    assert_eq!(error.kind(), LeoErrorKind::Configuration);
    error.message().to_owned()
}

#[test]
fn the_default_configuration_is_valid() {
    let config = Config::default();
    config.validate(&alphabet(), &single()).unwrap();
    assert_eq!(config.model.name, "Leo");
    assert_eq!(config.model.neuron_count, 32_768);
    assert_eq!(f(config.model.excitatory_fraction), 0.80);
    assert_eq!(f(config.dynamics.branch_decay), 0.85);
    assert_eq!(f(config.dynamics.adaptation_slow_gain), 0.0002);
    assert_eq!(f(config.learning.inhibitory_learning_rate), 0.00002);
    assert_eq!(f(config.learning.weight_min), -1.0);
    assert_eq!(f(config.learning.eligibility_epsilon), 1.0e-5);
    assert_eq!(f(config.context.dropout_rate), 0.5);
    assert_eq!(f(config.replay.fraction), 0.30);
    assert_eq!(f(config.training.minimum_relative_improvement), 0.005);
}

#[test]
fn broken_shapes_are_named() {
    assert_eq!(problem(|c| c.model.name = "  ".into()), "model.name must not be empty");
    assert_eq!(problem(|c| c.model.block_count = 0), "model dimensions must be positive");
    assert_eq!(
        problem(|c| c.model.block_count = 3),
        "block_count * neurons_per_block must equal neuron_count without overflow"
    );
    assert_eq!(
        problem(|c| c.model.block_count = usize::MAX),
        "block_count * neurons_per_block must equal neuron_count without overflow"
    );
    assert_eq!(
        problem(|c| c.model.branches_per_neuron = 3),
        "Leo requires exactly four dendritic branches per neuron"
    );
    assert_eq!(
        problem(|c| c.model.excitatory_fraction = s(1.0)),
        "excitatory_fraction must be finite and strictly between 0 and 1"
    );
    assert_eq!(
        problem(|c| c.model.synapses_per_neuron = 0),
        "synapses_per_neuron and input_fanout must be positive"
    );
    assert_eq!(
        problem(|c| c.model.synapses_per_neuron = 9),
        "synapses_per_neuron cannot exceed neuron_count"
    );
    assert_eq!(
        problem(|c| c.model.input_fanout = 9),
        "input_fanout cannot exceed neuron_count"
    );
    assert_eq!(
        problem(|c| c.model.max_active_per_block = 9),
        "max_active_per_block must be in 1..=neurons_per_block"
    );
    assert_eq!(
        problem(|c| c.model.max_active_global = 0),
        "max_active_global must be in 1..=neuron_count"
    );
    assert_eq!(
        problem(|c| c.dynamics.refractory_ticks = 0),
        "refractory_ticks must be positive in the integrated architecture"
    );
}

#[test]
fn broken_rates_are_named() {
    assert_eq!(
        problem(|c| c.dynamics.membrane_decay = s(f32::NAN)),
        "membrane_decay must be finite and strictly between 0 and 1"
    );
    assert_eq!(
        problem(|c| c.learning.eligibility_decay = s(1.0)),
        "eligibility_decay must be finite and strictly between 0 and 1"
    );
    assert_eq!(
        problem(|c| c.learning.max_update = s(-0.1)),
        "max_update must be finite and positive"
    );
    assert_eq!(
        problem(|c| c.dynamics.fatigue_gain = s(f32::INFINITY)),
        "fatigue_gain must be finite and positive"
    );
    assert_eq!(
        problem(|c| c.learning.training_strength = s(1.5)),
        "training_strength must be finite and in (0, 1]"
    );
    assert_eq!(
        problem(|c| c.learning.weight_min = s(0.0)),
        "weight_min must be negative and weight_max must be positive"
    );
    assert_eq!(
        problem(|c| c.learning.end_document_weight = s(0.5)),
        "end_document_weight must be finite and in [1, 16]"
    );
    assert_eq!(
        problem(|c| c.model.max_active_global = 3),
        "target_activity requires more neurons than max_active_global permits"
    );
}

#[test]
fn broken_memories_and_limits_are_named() {
    assert_eq!(
        problem(|c| c.context.probe_limit = 0),
        "all context-memory dimensions must be positive"
    );
    assert_eq!(
        problem(|c| c.context.embedding_dim = 257),
        "context.embedding_dim cannot exceed 256"
    );
    assert_eq!(problem(|c| c.context.max_order = 17), "context.max_order cannot exceed 16");
    assert_eq!(
        problem(|c| c.context.probe_limit = 1025),
        "context.probe_limit cannot exceed slots_per_order"
    );
    assert_eq!(
        problem(|c| c.context.slots_per_order = usize::MAX),
        "context slot count overflow"
    );
    assert_eq!(
        problem(|c| c.replay.fraction = s(0.0)),
        "replay.fraction must be finite and in the interval (0, 1]"
    );
    assert_eq!(problem(|c| c.replay.segment_bytes = 0), "all replay limits must be positive");
    assert_eq!(
        problem(|c| c.training.early_stop_checks = 0),
        "all training limits must be positive"
    );
    assert_eq!(
        problem(|c| c.training.minimum_relative_improvement = s(-1.0)),
        "minimum_relative_improvement must be finite and nonnegative"
    );
}

fn model_problem(change: fn(&mut Model)) -> String {
    let mut model = new_model(integrated_config());
    change(&mut model);
    let error = model.validate(&alphabet(), &single()).unwrap_err();
    assert_eq!(error.kind(), LeoErrorKind::Internal);
    error.message().to_owned()
}

#[test]
fn new_models_pass_validation() {
    let model = new_model(integrated_config());
    model.validate(&alphabet(), &single()).unwrap();
    assert_eq!(model.parameter_revision, 0);
    assert_eq!(model.statistics.processed_bytes, 0);
    assert!(model.context.keys.iter().all(|key| *key == 0));
    assert!(model.neurons.excitability.iter().all(|gain| f(*gain) == 1.0));
    assert_eq!(model.output.bias.len(), 257);
}

#[test]
fn broken_models_are_named() {
    assert_eq!(
        model_problem(|m| {
            m.output.bias.pop();
        }),
        "model tensor dimensions are incompatible"
    );
    assert_eq!(
        model_problem(|m| m.output.weights[3] = s(f32::NAN)),
        "model contains NaN or infinite values"
    );
    assert_eq!(
        model_problem(|m| m.context.observations[2] = 1),
        "empty context slots cannot contain observations"
    );
    assert_eq!(
        model_problem(|m| m.neurons.neuron_type[1] = 2),
        "neuron types must be excitatory or inhibitory"
    );
    assert_eq!(
        model_problem(|m| m.recurrent.target_neuron[0] = 8),
        "recurrent slot 0 targets neuron 8 outside the model"
    );
    assert_eq!(
        model_problem(|m| m.recurrent.delay[5] = 3),
        "recurrent slot 5 has invalid branch or delay"
    );
    assert_eq!(
        model_problem(|m| m.recurrent.weight[2] = s(1.5)),
        "recurrent slot 2 has invalid weight"
    );
    assert_eq!(
        model_problem(|m| m.input.weights[7] = s(-0.1)),
        "input projection slot 7 has invalid state"
    );
}

#[test]
fn sizes_that_cannot_be_counted_are_refused() {
    let mut config = integrated_config();
    config.model.neuron_count = 1 << 40;
    config.model.block_count = 1 << 20;
    config.model.neurons_per_block = 1 << 20;
    config.model.synapses_per_neuron = 1 << 30;
    config.model.max_active_global = 1 << 40;
    let error = ModelSizes::plan(&config, &alphabet(), &single()).unwrap_err();
    assert_eq!(error.message(), "synapse array size overflow");
    let sizes = ModelSizes::plan(&integrated_config(), &alphabet(), &single()).unwrap();
    assert_eq!(sizes.synapses, 8);
    assert_eq!(sizes.output_weights, 257 * 8);
    assert_eq!(sizes.context_slots, 3 * 1024);
    assert_eq!(sizes.context_embeddings, 3 * 1024 * 32);
    assert_eq!(sizes.context_output_weights, 257 * 32);
}

#[test]
fn builders_never_repeat_an_ending() {
    let mut config = integrated_config();
    config.model.neuron_count = 16;
    config.model.block_count = 2;
    config.model.max_active_global = 16;
    config.model.synapses_per_neuron = 6;
    config.model.input_fanout = 5;
    let model = new_model(config);
    for source in 0..16 {
        let slots: Vec<usize> = model.synapse_slot_range(source).collect();
        for (place, a) in slots.iter().enumerate() {
            for b in &slots[place + 1..] {
                assert!(
                    model.recurrent.target_neuron[*a] != model.recurrent.target_neuron[*b]
                        || model.recurrent.target_branch[*a] != model.recurrent.target_branch[*b]
                );
            }
        }
    }
    for symbol in 0..258 {
        let mut reached = model.input.targets[symbol * 5..symbol * 5 + 5].to_vec();
        reached.sort();
        reached.dedup();
        assert_eq!(reached.len(), 5);
    }
}

#[test]
fn copied_alphabets_are_the_same() {
    let original = alphabet();
    let copy = original.copied();
    assert_eq!(copy.symbol_count(), 258);
    assert_eq!(copy.output_symbol_to_index(END_DOCUMENT), Some(256));
    assert_eq!(copy.output_index_to_symbol(256), Some(END_DOCUMENT));
    assert_eq!(copy.output_symbol_to_index(BEGIN_DOCUMENT), None);
    assert!(copy.is_input_symbol(BEGIN_DOCUMENT));
    assert!(!copy.is_input_symbol(END_DOCUMENT));
    assert!(!copy.is_input_symbol(999));
}

#[test]
fn the_arithmetic_is_the_machine_s() {
    let ops = single();
    assert_eq!(f(ops.plus(s(0.1), s(0.2))), 0.1f32 + 0.2f32);
    assert_eq!(f(ops.raised(s(0.5), 4)), 0.0625);
    assert_eq!(f(ops.wide_over(wide(3.0), 2)), 1.5);
}

#[test]
fn the_ends_of_an_open_interval_are_refused() {
    let message = |name: &str| format!("{name} must be finite and strictly between 0 and 1");
    for end in [0.0f32, -0.0, 1.0] {
        let name = |change: &dyn Fn(&mut Config)| {
            let mut config = integrated_config();
            change(&mut config);
            config.validate(&alphabet(), &single()).unwrap_err().message().to_owned()
        };
        let value = s(end);
        assert_eq!(
            name(&|c| c.model.excitatory_fraction = value),
            message("excitatory_fraction")
        );
        assert_eq!(name(&|c| c.dynamics.branch_decay = value), message("branch_decay"));
        assert_eq!(name(&|c| c.dynamics.membrane_decay = value), message("membrane_decay"));
        assert_eq!(name(&|c| c.learning.eligibility_decay = value), message("eligibility_decay"));
    }
    let mut config = integrated_config();
    config.context.dropout_rate = s(0.0);
    assert!(config.validate(&alphabet(), &single()).is_ok());
    config.dynamics.branch_decay = s(1.0e-6);
    assert!(config.validate(&alphabet(), &single()).is_ok());
}

#[test]
fn equal_draws_give_equal_models() {
    let first = new_model(integrated_config());
    let second = new_model(integrated_config());
    assert_eq!(format!("{first:?}"), format!("{second:?}"));
    let mut other = integrated_config();
    other.model.seed = first.config.model.seed + 1;
    assert_ne!(first.recurrent.weight, new_model(other).recurrent.weight);
}

#[test]
fn the_target_activity_must_fit() {
    let mut config = integrated_config();
    let neurons = config.model.neuron_count;
    config.model.max_active_global = 1;
    config.dynamics.target_activity = s(1.0 / neurons as f32);
    config.validate(&alphabet(), &single()).unwrap();
    config.dynamics.target_activity = s(1.5 / neurons as f32);
    let error = config.validate(&alphabet(), &single()).unwrap_err();
    assert_eq!(error.kind(), LeoErrorKind::Configuration);
}
