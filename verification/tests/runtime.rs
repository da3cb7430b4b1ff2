//! The runtime on the CPU, with the arithmetic of `f32`.

use leo_core::arithmetic::{Numerics, Operations};
use leo_core::assembly::{DrawnParts, ModelSizes};
use leo_core::config::Config;
use leo_core::initialize::{
    mark_inhibitory, DrawRequest, InputBuilder, NetworkShape, RecurrentBuilder,
};
use leo_core::metrics::WideScalar;
use leo_core::context::context_survives_dropout;
use leo_core::model::{Model, BRANCH_EXCITATORY, BRANCH_INHIBITORY};
use leo_core::permission::Permission;
use leo_core::runtime::Runtime;
use leo_core::scalar::Scalar;
use leo_core::symbols::Alphabet;

const BEGIN_DOCUMENT: u32 = 256;
const END_DOCUMENT: u32 = 257;

fn s(value: f32) -> Scalar {
    Scalar { bits: value.to_bits() }
}

fn f(value: Scalar) -> f32 {
    f32::from_bits(value.bits)
}

fn wide(value: f64) -> WideScalar {
    WideScalar { bits: value.to_bits() }
}

fn g(value: WideScalar) -> f64 {
    f64::from_bits(value.bits)
}

fn single() -> impl Numerics {
    Operations {
        plus: |(a, b): (Scalar, Scalar)| s(f(a) + f(b)),
        minus: |(a, b): (Scalar, Scalar)| s(f(a) - f(b)),
        times: |(a, b): (Scalar, Scalar)| s(f(a) * f(b)),
        over: |(a, b): (Scalar, Scalar)| s(f(a) / f(b)),
        raised: |(a, n): (Scalar, u32)| s(f(a).powi(n as i32)),
        exp: |a: Scalar| s(f(a).exp()),
        ln: |a: Scalar| s(f(a).ln()),
        of_count: |n: u64| s(n as f32),
        wide_plus: |(sum, a): (WideScalar, Scalar)| wide(g(sum) + f(a) as f64),
        wide_over: |(sum, n): (WideScalar, u64)| s((g(sum) / n as f64) as f32),
        up: |a: Scalar| f(a).ceil() as usize,
        wide_add: |(a, b): (WideScalar, WideScalar)| wide(g(a) + g(b)),
        wide_minus: |(a, b): (WideScalar, WideScalar)| wide(g(a) - g(b)),
        wide_divide: |(a, b): (WideScalar, WideScalar)| wide(g(a) / g(b)),
        wide_count: |n: u64| wide(n as f64),
        consolidate: |(phase, _ends): (usize, bool)| (Scalar::one(), phase),
    }
}

fn alphabet() -> Alphabet {
    let mut input: Vec<bool> = vec![true; 258];
    input[END_DOCUMENT as usize] = false;
    let mut class_of: Vec<Option<usize>> = Vec::new();
    let mut symbol_of: Vec<u32> = Vec::new();
    for symbol in 0..258u32 {
        if symbol == BEGIN_DOCUMENT {
            class_of.push(None);
        } else {
            class_of.push(Some(symbol_of.len()));
            symbol_of.push(symbol);
        }
    }
    Alphabet {
        input,
        class_of,
        symbol_of,
        output_classes: 257,
        begin_document: BEGIN_DOCUMENT,
        end_document: END_DOCUMENT,
        end_document_class: 256,
    }
}

struct Generator(u64);

impl Generator {
    fn next(&mut self) -> u64 {
        self.0 = self.0.wrapping_add(0x9e37_79b9_7f4a_7c15);
        let mut z = self.0;
        z = (z ^ (z >> 30)).wrapping_mul(0xbf58_476d_1ce4_e5b9);
        z = (z ^ (z >> 27)).wrapping_mul(0x94d0_49bb_1331_11eb);
        z ^ (z >> 31)
    }

    fn below(&mut self, bound: usize) -> usize {
        (self.next() % bound as u64) as usize
    }

    fn between(&mut self, low: f32, high: f32) -> f32 {
        low + (high - low) * ((self.next() >> 40) as f32 / 16_777_216.0)
    }

    fn list(&mut self, count: usize, low: f32, high: f32) -> Vec<Scalar> {
        (0..count).map(|_| s(self.between(low, high))).collect()
    }
}

fn drawn_parts(config: &Config, alphabet: &Alphabet) -> DrawnParts {
    let sizes = ModelSizes::plan(config, alphabet, &single()).unwrap();
    let mut random = Generator(config.model.seed);
    let neurons = config.model.neuron_count;
    let mut neuron_type = vec![0u8; neurons];
    let mut ids: Vec<usize> = (0..neurons).collect();
    for place in (1..neurons).rev() {
        ids.swap(place, random.below(place + 1));
    }
    let inhibitory = ((1.0 - f(config.model.excitatory_fraction)) * neurons as f32).round();
    mark_inhibitory(&mut neuron_type, &ids, inhibitory as usize);
    let threshold = random.list(neurons, 0.45, 0.55);
    let shape = NetworkShape {
        neuron_count: neurons,
        block_count: config.model.block_count,
        neurons_per_block: config.model.neurons_per_block,
        synapses_per_neuron: config.model.synapses_per_neuron,
    };
    let mut recurrent = RecurrentBuilder::new(shape, neuron_type);
    loop {
        match recurrent.request() {
            DrawRequest::Nothing => break,
            DrawRequest::Neighbour => recurrent.supply(random.below(3)).unwrap(),
            DrawRequest::WithinBlock(size) => recurrent.supply(random.below(size)).unwrap(),
            DrawRequest::Anywhere(count) => recurrent.supply(random.below(count)).unwrap(),
            DrawRequest::Branch => recurrent.supply(random.below(3)).unwrap(),
            DrawRequest::Delay => recurrent.supply(random.below(100)).unwrap(),
            DrawRequest::Weight(false) => recurrent.supply_weight(s(random.between(0.01, 0.08))),
            DrawRequest::Weight(true) => recurrent.supply_weight(s(random.between(-0.08, -0.01))),
        }
    }
    let mut input =
        InputBuilder::new(alphabet.symbol_count(), config.model.input_fanout, neurons).unwrap();
    loop {
        match input.request() {
            DrawRequest::Nothing => break,
            DrawRequest::Weight(_) => input.supply_weight(s(random.between(0.05, 0.20))),
            _ => input.supply(random.below(neurons)),
        }
    }
    DrawnParts {
        recurrent,
        input,
        threshold,
        output_weights: random.list(sizes.output_weights, -0.005, 0.005),
        context_output_weights: random.list(sizes.context_output_weights, -0.005, 0.005),
    }
}

fn new_model(config: Config) -> Model {
    let alphabet = alphabet();
    let parts = drawn_parts(&config, &alphabet);
    Model::initialize(config, &alphabet, &single(), parts).unwrap()
}

fn integrated_config() -> Config {
    let mut config = Config::default();
    config.model.name = "integrated-runtime-test".into();
    config.model.neuron_count = 8;
    config.model.block_count = 1;
    config.model.neurons_per_block = 8;
    config.model.synapses_per_neuron = 1;
    config.model.input_fanout = 1;
    config.model.max_active_per_block = 8;
    config.model.max_active_global = 8;
    config.dynamics.fatigue_gain = s(1.0e-6);
    config.dynamics.refractory_ticks = 1;
    config.dynamics.target_activity = s(0.5);
    config.dynamics.threshold_homeostasis_rate = s(1.0e-8);
    config.learning.output_learning_rate = s(1.0e-8);
    config.learning.recurrent_learning_rate = s(0.1);
    config.learning.inhibitory_learning_rate = s(1.0e-8);
    config.learning.eligibility_epsilon = s(1.0e-7);
    config.learning.surrogate_width = s(0.25);
    config.learning.surrogate_gain = s(0.1);
    config.learning.max_update = s(0.1);
    config.context.max_order = 3;
    config.context.slots_per_order = 1024;
    config.context.learning_rate = s(0.1);
    config.context.confidence_observations = 1;
    config.context.dropout_rate = s(0.0);
    config.validate(&alphabet(), &single()).unwrap();
    config
}

fn runtime_of(model: Model) -> Runtime {
    Runtime::new(model, alphabet(), &single()).unwrap()
}

fn class(symbol: u8) -> usize {
    alphabet().output_symbol_to_index(symbol as u32).unwrap()
}

fn causal_model(delay: u8) -> Model {
    let mut model = new_model(integrated_config());
    model.neurons.threshold.fill(s(0.1));
    model.neurons.excitability.fill(s(1.0));
    model.recurrent.weight.fill(s(0.0));
    model.neurons.neuron_type[0] = 0;
    for slot in model.synapse_slot_range(0) {
        model.recurrent.target_branch[slot] = BRANCH_EXCITATORY;
    }
    model.input.weights.fill(s(0.0));
    model.input.branches.fill(BRANCH_EXCITATORY);
    model.output.weights.fill(s(0.0));
    model.output.bias.fill(s(0.0));

    model.recurrent.target_neuron[0] = 1;
    model.recurrent.target_branch[0] = BRANCH_EXCITATORY;
    model.recurrent.delay[0] = delay;
    model.recurrent.weight[0] = s(0.5);

    let input_slot = b'A' as usize * model.input.fanout;
    model.input.targets[input_slot] = 0;
    model.input.weights[input_slot] = s(1.0);
    let quiet_slot = b'B' as usize * model.input.fanout;
    model.input.targets[quiet_slot] = 7;
    model.input.weights[quiet_slot] = s(0.0);

    let wrong = class(b'Z');
    let neuron_count = model.neuron_count();
    model.output.weights[wrong * neuron_count + 1] = s(1.0);
    model
}

#[test]
fn frozen_execution_is_read_only() {
    let ops = single();
    let model = causal_model(2);
    let original_weight = model.recurrent.weight[0];
    let mut runtime = runtime_of(model);
    runtime.begin_document();
    for symbol in *b"ABBA" {
        runtime.step(&ops, symbol as u32, None, Permission::Frozen).unwrap();
    }
    assert_eq!(runtime.model().recurrent.weight[0], original_weight);
    assert!(runtime.recurrent_traces.eligible.list.is_empty());
    assert!(runtime.input_traces.eligible.list.is_empty());
}

#[test]
fn recurrent_credit_arrives_on_the_configured_delay() {
    let ops = single();
    for delay in [1u8, 2, 4, 8] {
        let mut runtime = runtime_of(causal_model(delay));
        runtime.begin_document();
        let initial_weight = runtime.model().recurrent.weight[0];
        runtime.step(&ops, b'A' as u32, Some(b'Y' as u32), Permission::Training).unwrap();
        assert_eq!(runtime.model().recurrent.weight[0], initial_weight);

        for _ in 1..delay {
            runtime.step(&ops, b'B' as u32, Some(b'Y' as u32), Permission::Training).unwrap();
            assert_eq!(runtime.model().recurrent.weight[0], initial_weight);
        }
        runtime.step(&ops, b'B' as u32, Some(b'Y' as u32), Permission::Training).unwrap();
        assert_ne!(runtime.model().recurrent.weight[0], initial_weight);
    }
}

#[test]
fn input_trace_survives_refractory_tick_and_receives_later_error() {
    let ops = single();
    let mut model = causal_model(1);
    let input_slot = b'A' as usize * model.input.fanout;
    model.input.weights[input_slot] = s(0.5);
    let wrong = class(b'Z');
    let neuron_count = model.neuron_count();
    model.output.weights.fill(s(0.0));
    model.output.weights[wrong * neuron_count] = s(1.0);
    let mut runtime = runtime_of(model);
    runtime.begin_document();
    runtime.step(&ops, b'A' as u32, None, Permission::Training).unwrap();
    let before = f(runtime.model().input.weights[input_slot]);
    runtime.step(&ops, b'B' as u32, Some(b'Y' as u32), Permission::Training).unwrap();
    assert!(f(runtime.input_traces.eligibility[input_slot]) > 0.0);
    assert!(f(runtime.model().input.weights[input_slot]) < before);
}

#[test]
fn context_embedding_gradient_uses_the_exact_forward_scale() {
    let ops = single();
    let mut config = integrated_config();
    config.context.embedding_dim = 1;
    config.context.learning_rate = s(0.1);
    config.learning.max_update = s(1.0);
    config.validate(&alphabet(), &single()).unwrap();
    let mut model = new_model(config);
    model.context.embeddings.fill(s(0.0));
    model.context.output_weights.fill(s(0.0));
    model.context.keys[0] = 1;
    model.context.keys[1] = 2;
    let output = class(b'X');
    model.context.output_weights[output] = s(1.0);
    let mut runtime = runtime_of(model);
    runtime.context_slots.extend([0, 1]);
    runtime.numbers.context_scales.extend([s(0.25), s(0.75)]);
    runtime.numbers.errors.fill(s(0.0));
    runtime.numbers.errors[output] = s(1.0);
    runtime.update_context_projection(&ops, s(1.0)).unwrap();

    let first = f(runtime.model().context.embeddings[0]);
    let second = f(runtime.model().context.embeddings[1]);
    assert!((first + 0.025).abs() < 1.0e-6);
    assert!((second + 0.075).abs() < 1.0e-6);
}

#[test]
fn activity_target_does_not_force_winners_without_evidence() {
    let ops = single();
    let mut model = new_model(integrated_config());
    model.recurrent.weight.fill(s(0.0));
    model.input.weights.fill(s(0.0));
    model.neurons.threshold.fill(s(0.5));
    let mut runtime = runtime_of(model);
    runtime.begin_document();
    let metrics = runtime.step(&ops, b'A' as u32, None, Permission::Frozen).unwrap();
    assert_eq!(metrics.active_neurons, 0);
    assert_eq!(metrics.suprathreshold_neurons, 0);
}

fn recurrent_memory_model() -> Model {
    let mut config = integrated_config();
    config.model.neuron_count = 64;
    config.model.block_count = 1;
    config.model.neurons_per_block = 64;
    config.model.synapses_per_neuron = 1;
    config.model.input_fanout = 1;
    config.model.max_active_per_block = 64;
    config.model.max_active_global = 64;
    config.dynamics.target_activity = s(0.01);
    config.dynamics.membrane_reset_fraction = s(1.0);
    config.dynamics.fatigue_gain = s(1.0e-6);
    config.dynamics.adaptation_fast_gain = s(1.0e-8);
    config.dynamics.adaptation_medium_gain = s(1.0e-8);
    config.dynamics.adaptation_slow_gain = s(1.0e-8);
    config.context.max_order = 8;
    config.context.embedding_dim = 8;
    config.context.slots_per_order = 64;
    config.context.probe_limit = 4;
    config.validate(&alphabet(), &single()).unwrap();
    let mut model = new_model(config);
    model.neurons.threshold.fill(s(0.9));
    // Gain above one preserves a unit recurrent pulse across long hand-wired chains.
    model.neurons.excitability.fill(s(2.0));
    model.recurrent.weight.fill(s(0.0));
    model.input.weights.fill(s(0.0));
    model.output.weights.fill(s(0.0));
    model.output.bias.fill(s(0.0));
    model.context.embeddings.fill(s(0.0));
    model.context.output_weights.fill(s(0.0));
    model
}

fn configure_chain(model: &mut Model, source: usize, links: usize, delay: u8) -> usize {
    for offset in 0..links {
        let neuron = source + offset;
        let slot = model.synapse_slot_range(neuron).start;
        model.neurons.neuron_type[neuron] = 0;
        model.recurrent.target_neuron[slot] = (neuron + 1) as u32;
        model.recurrent.target_branch[slot] = BRANCH_EXCITATORY;
        model.recurrent.delay[slot] = delay;
        model.recurrent.weight[slot] = s(1.0);
    }
    let endpoint = source + links;
    model.neurons.neuron_type[endpoint] = 0;
    let endpoint_slot = model.synapse_slot_range(endpoint).start;
    model.recurrent.target_branch[endpoint_slot] = BRANCH_EXCITATORY;
    model.recurrent.delay[endpoint_slot] = 1;
    model.recurrent.weight[endpoint_slot] = s(0.0);
    endpoint
}

fn feed_two_chains(model: &mut Model) {
    let input_a = b'A' as usize * model.input.fanout;
    let input_b = b'B' as usize * model.input.fanout;
    model.input.targets[input_a] = 0;
    model.input.targets[input_b] = 32;
    model.input.branches[input_a] = BRANCH_EXCITATORY;
    model.input.branches[input_b] = BRANCH_EXCITATORY;
    model.input.weights[input_a] = s(1.0);
    model.input.weights[input_b] = s(1.0);
}

fn predict_after<T: Numerics>(runtime: &mut Runtime, ops: &T, prefix: u8, distance: usize) -> u32 {
    runtime.begin_document();
    runtime.step(ops, prefix as u32, None, Permission::Frozen).unwrap();
    let mut predicted = 0u32;
    for _ in 0..distance {
        predicted =
            runtime.step(ops, b'.' as u32, None, Permission::Frozen).unwrap().predicted_symbol;
    }
    predicted
}

#[test]
fn recurrent_only_state_preserves_branch_information_beyond_context_order() {
    let ops = single();
    for distance in [16usize, 32, 64, 128] {
        let mut model = recurrent_memory_model();
        let links = distance / 8;
        let endpoint_a = configure_chain(&mut model, 0, links, 8);
        let endpoint_b = configure_chain(&mut model, 32, links, 8);
        feed_two_chains(&mut model);
        let neuron_count = model.neuron_count();
        model.output.weights[class(b'X') * neuron_count + endpoint_a] = s(1.0);
        model.output.weights[class(b'Y') * neuron_count + endpoint_b] = s(1.0);
        model.validate(&alphabet(), &single()).unwrap();

        let mut runtime = runtime_of(model);
        assert_eq!(
            predict_after(&mut runtime, &ops, b'A', distance),
            b'X' as u32,
            "distance {distance}"
        );
        assert_eq!(
            predict_after(&mut runtime, &ops, b'B', distance),
            b'Y' as u32,
            "distance {distance}"
        );
    }
}

#[test]
fn recurrent_only_readout_learns_delayed_branches_beyond_frequency() {
    let ops = single();
    for distance in [16usize, 32, 64, 128] {
        let mut model = recurrent_memory_model();
        model.config.learning.output_learning_rate = s(0.05);
        model.config.learning.max_update = s(0.05);
        let links = distance / 8;
        configure_chain(&mut model, 0, links, 8);
        configure_chain(&mut model, 32, links, 8);
        feed_two_chains(&mut model);
        model.validate(&alphabet(), &single()).unwrap();
        let mut runtime = runtime_of(model);

        for _ in 0..64 {
            for (prefix, target) in [(b'A', b'X'), (b'B', b'Y')] {
                runtime.begin_document();
                runtime.step(&ops, prefix as u32, None, Permission::Frozen).unwrap();
                for _ in 0..distance - 1 {
                    runtime.step(&ops, b'.' as u32, None, Permission::Frozen).unwrap();
                }
                runtime
                    .step(&ops, b'.' as u32, Some(target as u32), Permission::Training)
                    .unwrap();
                runtime.finish_document();
            }
        }

        for (prefix, expected) in [(b'A', b'X'), (b'B', b'Y')] {
            let predicted = predict_after(&mut runtime, &ops, prefix, distance);
            assert_eq!(predicted, expected as u32, "distance {distance}");
        }
    }
}

#[test]
fn recurrent_only_ring_maintains_a_period_longer_than_context_order() {
    let ops = single();
    let mut model = recurrent_memory_model();
    let period = 16usize;
    let neuron_count = model.neuron_count();
    for neuron in 0..period {
        let slot = model.synapse_slot_range(neuron).start;
        model.neurons.neuron_type[neuron] = 0;
        model.recurrent.target_neuron[slot] = ((neuron + 1) % period) as u32;
        model.recurrent.target_branch[slot] = BRANCH_EXCITATORY;
        model.recurrent.delay[slot] = 1;
        model.recurrent.weight[slot] = s(1.0);
        let output = class(b'A' + neuron as u8);
        model.output.weights[output * neuron_count + neuron] = s(1.0);
    }
    let input = b'!' as usize * model.input.fanout;
    model.input.targets[input] = 0;
    model.input.branches[input] = BRANCH_EXCITATORY;
    model.input.weights[input] = s(1.0);
    model.validate(&alphabet(), &single()).unwrap();
    let mut runtime = runtime_of(model);
    runtime.begin_document();
    let mut predictions = Vec::new();
    predictions
        .push(runtime.step(&ops, b'!' as u32, None, Permission::Frozen).unwrap().predicted_symbol);
    for _ in 1..period * 2 {
        predictions.push(
            runtime.step(&ops, b'.' as u32, None, Permission::Frozen).unwrap().predicted_symbol,
        );
    }
    assert_eq!(&predictions[..period], &predictions[period..period * 2]);
    assert!(predictions[..period].windows(2).all(|pair| pair[0] != pair[1]));
}

#[test]
fn context_fingerprints_separate_colliding_buckets() {
    let mut config = integrated_config();
    config.context.max_order = 1;
    config.context.slots_per_order = 4;
    config.context.probe_limit = 4;
    config.validate(&alphabet(), &single()).unwrap();
    let model = new_model(config);
    let mut runtime = runtime_of(model);

    let first = runtime.resolve_context_slot(1, 1, true).unwrap();
    let second = runtime.resolve_context_slot(1, 5, true).unwrap();

    assert_ne!(first, second);
    assert_eq!(runtime.model().context.keys[first], 1);
    assert_eq!(runtime.model().context.keys[second], 5);
}

#[test]
fn temporal_context_learns_branching_prefixes_with_fixed_topology() {
    let ops = single();
    let mut config = integrated_config();
    config.learning.output_learning_rate = s(1.0e-8);
    config.context.learning_rate = s(0.5);
    config.learning.max_update = s(0.1);
    config.validate(&alphabet(), &single()).unwrap();

    let mut model = new_model(config);
    model.recurrent.weight.fill(s(0.0));
    model.input.weights.fill(s(0.0));
    model.output.weights.fill(s(0.0));
    model.output.bias.fill(s(0.0));
    model.neurons.threshold.fill(s(2.0));
    let fixed_synapses = model.recurrent.weight.len();
    let mut runtime = runtime_of(model);

    let stories: [&[u8]; 2] = [b"ABX", b"CBY"];
    for _ in 0..128 {
        for story in stories {
            runtime.begin_document();
            runtime
                .step(&ops, BEGIN_DOCUMENT, Some(story[0] as u32), Permission::Training)
                .unwrap();
            runtime
                .step(&ops, story[0] as u32, Some(story[1] as u32), Permission::Training)
                .unwrap();
            runtime
                .step(&ops, story[1] as u32, Some(story[2] as u32), Permission::Training)
                .unwrap();
            runtime
                .step(&ops, story[2] as u32, Some(END_DOCUMENT), Permission::Training)
                .unwrap();
            runtime.finish_document();
        }
    }

    let predict = |runtime: &mut Runtime, prefix: &[u8]| {
        runtime.begin_document();
        runtime.step(&ops, BEGIN_DOCUMENT, None, Permission::Frozen).unwrap();
        let mut prediction = END_DOCUMENT;
        for byte in prefix {
            prediction =
                runtime.step(&ops, *byte as u32, None, Permission::Frozen).unwrap().predicted_symbol;
        }
        prediction
    };

    assert_eq!(predict(&mut runtime, b"AB"), b'X' as u32);
    assert_eq!(predict(&mut runtime, b"CB"), b'Y' as u32);
    assert_eq!(runtime.model().recurrent.weight.len(), fixed_synapses);
    assert_eq!(runtime.model().statistics.processed_stories, 256);
}

#[test]
fn context_dropout_is_deterministic_and_exposes_neural_steps() {
    let first = (0..1024)
        .filter(|tick| context_survives_dropout(1337, *tick, b'A' as u32, s(0.5)))
        .count();
    let second = (0..1024)
        .filter(|tick| context_survives_dropout(1337, *tick, b'A' as u32, s(0.5)))
        .count();
    assert_eq!(first, second);
    assert!((400..=624).contains(&first));
    assert!((0..32).all(|tick| context_survives_dropout(1337, tick, b'A' as u32, s(0.0))));
}

#[test]
fn end_document_target_receives_extra_bounded_weight() {
    let ops = single();
    let mut config = integrated_config();
    config.learning.output_learning_rate = s(0.01);
    config.learning.end_document_weight = s(4.0);
    config.learning.max_update = s(0.02);
    config.context.dropout_rate = s(0.0);
    let mut model = new_model(config);
    model.recurrent.weight.fill(s(0.0));
    model.input.weights.fill(s(0.0));
    model.output.weights.fill(s(0.0));
    model.output.bias.fill(s(0.0));
    model.neurons.threshold.fill(s(2.0));
    let mut runtime = runtime_of(model);
    runtime.begin_document();
    runtime.step(&ops, BEGIN_DOCUMENT, Some(END_DOCUMENT), Permission::Training).unwrap();
    let end_index = alphabet().end_document_class;
    assert!(f(runtime.model().output.bias[end_index]) >= 0.019);
    assert!(f(runtime.model().output.bias[end_index]) <= 0.02 + f32::EPSILON);
}

#[test]
fn initialization_enforces_excitatory_and_inhibitory_routes() {
    let model = new_model(integrated_config());
    for source in 0..model.neuron_count() {
        for slot in model.synapse_slot_range(source) {
            if model.neurons.neuron_type[source] == 0 {
                assert!(f(model.recurrent.weight[slot]) >= 0.0);
                assert_ne!(model.recurrent.target_branch[slot], BRANCH_INHIBITORY);
            } else {
                assert!(f(model.recurrent.weight[slot]) <= 0.0);
                assert_eq!(model.recurrent.target_branch[slot], BRANCH_INHIBITORY);
            }
        }
    }
}

#[test]
fn adaptation_and_reset_are_part_of_every_runtime() {
    let ops = single();
    let mut model = new_model(integrated_config());
    model.recurrent.weight.fill(s(0.0));
    model.input.weights.fill(s(0.0));
    model.neurons.threshold.fill(s(0.1));
    let slot = b'A' as usize * model.input.fanout;
    model.input.targets[slot] = 0;
    model.input.branches[slot] = BRANCH_EXCITATORY;
    model.input.weights[slot] = s(1.0);
    let mut runtime = runtime_of(model);
    runtime.begin_document();
    let metrics = runtime.step(&ops, b'A' as u32, None, Permission::Frozen).unwrap();
    assert!(metrics.active_neurons > 0);
    assert!(f(runtime.state.membrane[0]) < 1.0);
    assert!(runtime.state.adaptation_fast.iter().any(|state| f(*state) > 0.0));
}

#[test]
fn steps_can_be_repeated() {
    let ops = single();
    let model = new_model(integrated_config());
    let mut first = runtime_of(model.clone());
    let mut second = runtime_of(model);
    first.begin_document();
    second.begin_document();
    for (symbol, target) in [(b'A', b'B'), (b'B', b'A'), (b'A', b'B'), (b'B', b'C')] {
        let one = first
            .step(&ops, symbol as u32, Some(target as u32), Permission::Training)
            .unwrap();
        let two = second
            .step(&ops, symbol as u32, Some(target as u32), Permission::Training)
            .unwrap();
        assert_eq!(format!("{one:?}"), format!("{two:?}"));
    }
    assert_eq!(first.model().recurrent.weight, second.model().recurrent.weight);
    assert_eq!(first.model().input.weights, second.model().input.weights);
    assert_eq!(first.model().output.weights, second.model().output.weights);
    assert_eq!(first.model().neurons.threshold, second.model().neurons.threshold);
    assert_eq!(first.model().context.embeddings, second.model().context.embeddings);
    assert_eq!(first.model().statistics, second.model().statistics);
}

#[test]
fn learning_steps_note_the_rows_of_their_contexts() {
    let ops = single();
    let mut config = integrated_config();
    config.context.dropout_rate = s(0.0);
    let model = new_model(config);
    let before = model.clone();
    let mut runtime = runtime_of(model);
    runtime.enable_parameter_tracking();
    runtime.begin_document();
    runtime.step(&ops, b'A' as u32, Some(b'B' as u32), Permission::Training).unwrap();
    runtime.step(&ops, b'B' as u32, Some(b'A' as u32), Permission::Training).unwrap();
    let changed: Vec<usize> = (0..before.context.keys.len())
        .filter(|slot| runtime.model().context.keys[*slot] != before.context.keys[*slot])
        .collect();
    assert!(!changed.is_empty());
    for slot in &changed {
        assert!(runtime.tracker.context_slots.list.contains(slot));
    }
    let noted = runtime.tracker.context_slots.list.len();
    runtime.step(&ops, b'C' as u32, None, Permission::Training).unwrap();
    assert_eq!(runtime.tracker.context_slots.list.len(), noted);
}

#[test]
fn unknown_symbols_leave_the_runtime_alone() {
    let ops = single();
    let mut runtime = runtime_of(causal_model(1));
    runtime.begin_document();
    let error = runtime.step(&ops, END_DOCUMENT, None, Permission::Training).unwrap_err();
    assert_eq!(error.message(), "invalid input symbol: 257");
    let error = runtime
        .step(&ops, b'A' as u32, Some(BEGIN_DOCUMENT), Permission::Training)
        .unwrap_err();
    assert_eq!(error.message(), "invalid output target: 256");
    assert_eq!(runtime.current_tick, 0);
    assert_eq!(runtime.model().statistics.processed_bytes, 0);
}

#[test]
fn steps_keep_the_routes_and_move_the_clock() {
    let ops = single();
    let mut runtime = runtime_of(new_model(integrated_config()));
    let wiring = runtime.model().recurrent.target_neuron.clone();
    runtime.begin_document();
    for round in 0..40u32 {
        let symbol = b'A' as u32 + round % 3;
        runtime.step(&ops, symbol, Some(b'A' as u32 + (round + 1) % 3), Permission::Training).unwrap();
    }
    assert_eq!(runtime.current_tick, 40);
    assert_eq!(runtime.model().statistics.processed_bytes, 40);
    assert_eq!(runtime.model().statistics.persistent_ticks, 40);
    assert_eq!(runtime.model().parameter_revision, 40);
    assert_eq!(runtime.model().recurrent.target_neuron, wiring);
    runtime.model().validate(&alphabet(), &single()).unwrap();
}

#[test]
fn probabilities_sum_to_one_and_follow_the_bias() {
    let ops = single();
    let mut model = new_model(integrated_config());
    model.output.weights.fill(s(0.0));
    model.input.weights.fill(s(0.0));
    model.output.bias[class(b'Q')] = s(1.0);
    let mut runtime = runtime_of(model);
    runtime.begin_document();
    let metrics =
        runtime.step(&ops, b'A' as u32, Some(b'Q' as u32), Permission::Frozen).unwrap();
    assert_eq!(metrics.predicted_symbol, b'Q' as u32);
    let total: f32 = runtime.probabilities().iter().map(|p| f(*p)).sum();
    assert!((total - 1.0).abs() < 1.0e-5);
    let expected = -(1.0f32.exp() / (1.0f32.exp() + 256.0)).ln();
    assert!((f(metrics.loss.unwrap()) - expected).abs() < 1.0e-5);
}

#[test]
fn a_finished_document_counts_only_where_it_was_learned_from() {
    let ops = single();
    let mut runtime = runtime_of(new_model(integrated_config()));
    runtime.begin_document();
    runtime.step(&ops, b'A' as u32, None, Permission::Frozen).unwrap();
    runtime.finish_document();
    assert_eq!(runtime.model().statistics.processed_stories, 0);
    runtime.begin_document();
    runtime.step(&ops, b'A' as u32, None, Permission::Training).unwrap();
    runtime.finish_document();
    assert_eq!(runtime.model().statistics.processed_stories, 1);
}

#[test]
fn tracking_starts_with_nothing_noted() {
    let ops = single();
    let mut runtime = runtime_of(new_model(integrated_config()));
    assert!(!runtime.tracker.enabled);
    runtime.enable_parameter_tracking();
    assert!(runtime.tracker.enabled);
    let changes = runtime.parameter_changes();
    assert!(changes.threshold.is_empty() && changes.recurrent_weight.is_empty());
    assert!(changes.input_weight.is_empty() && changes.output_neurons.is_empty());
    assert!(changes.context_slots.is_empty());
    assert!(!changes.output_bias_dirty && !changes.context_output_dirty);
    runtime.begin_document();
    runtime.step(&ops, b'A' as u32, Some(b'B' as u32), Permission::Training).unwrap();
    let noted = runtime.parameter_changes();
    assert!(noted.output_bias_dirty && !noted.context_slots.is_empty());
    runtime.enable_parameter_tracking();
    assert_eq!(format!("{:?}", runtime.parameter_changes()), format!("{noted:?}"));
}

#[test]
fn new_runtimes_are_fresh() {
    let runtime = runtime_of(new_model(integrated_config()));
    assert_eq!(runtime.current_tick, 0);
    assert!(runtime.active.is_empty() && runtime.history.is_empty());
    assert!(runtime.probabilities().iter().all(|p| f(*p) == 0.0));
    assert!(!runtime.context_applied && !runtime.tracker.enabled);
}

#[test]
fn looking_up_a_context_counts_its_probes() {
    let mut runtime = runtime_of(new_model(integrated_config()));
    let limit = runtime.model().config.context.probe_limit;
    assert_eq!(runtime.resolve_context_slot(1, 7, false), None);
    assert_eq!(runtime.context_probes, limit);
    let slot = runtime.resolve_context_slot(1, 7, true).unwrap();
    assert_eq!(runtime.resolve_context_slot(1, 7, false), Some(slot));
    assert_eq!(runtime.context_probes, 2 * limit + 1);
    assert_eq!(runtime.model().context.observations[slot], 0);
}

#[test]
fn metrics_of_a_step_hang_together() {
    let ops = single();
    let model = new_model(integrated_config());
    let fanout = model.config.model.synapses_per_neuron;
    let cap = model.config.model.max_active_global;
    let orders = model.config.context.max_order;
    let mut runtime = runtime_of(model);
    runtime.begin_document();
    let text = b"ABRACADABRA";
    for place in 0..text.len() {
        let target = text.get(place + 1).map(|symbol| *symbol as u32);
        let permission =
            if place % 3 == 2 { Permission::Frozen } else { Permission::Training };
        let m = runtime.step(&ops, text[place] as u32, target, permission).unwrap();
        assert_eq!(m.active_neurons, runtime.active_neurons().len());
        assert_eq!(m.active_neurons + m.global_cap_clipped_neurons, m.block_selected_neurons);
        assert!(m.active_neurons <= cap);
        assert!(m.block_selected_neurons <= m.suprathreshold_neurons);
        assert_eq!(m.emitted_events, m.active_neurons * fanout);
        assert_eq!(m.loss.is_some(), target.is_some());
        assert!(m.context_cells <= orders);
        assert!(m.context_applied || (m.context_cells == 0 && m.context_probes == 0));
    }
}

#[test]
fn fingerprints_stay_where_they_are_found() {
    let ops = single();
    let mut config = integrated_config();
    config.context.dropout_rate = s(0.0);
    config.context.slots_per_order = 4;
    config.context.probe_limit = 3;
    let mut runtime = runtime_of(new_model(config));
    let slots = runtime.model().config.context.slots_per_order;
    runtime.begin_document();
    for symbol in b"THE QUICK BROWN FOX JUMPS" {
        runtime.step(&ops, *symbol as u32, Some(b'.' as u32), Permission::Training).unwrap();
    }
    let keys = runtime.model().context.keys.clone();
    assert!(keys.iter().filter(|key| **key != 0).count() > slots);
    for (slot, key) in keys.iter().enumerate() {
        if *key != 0 {
            let order = slot / slots + 1;
            assert_eq!(runtime.resolve_context_slot(order, *key, false), Some(slot));
        }
    }
}
