//! Merging what workers learned.

use leo_core::arithmetic::{Numerics, Operations};
use leo_core::assembly::{DrawnParts, ModelSizes};
use leo_core::config::Config;
use leo_core::error::LeoResult;
use leo_core::initialize::{
    mark_inhibitory, DrawRequest, InputBuilder, NetworkShape, RecurrentBuilder,
};
use leo_core::metrics::WideScalar;
use leo_core::model::Model;
use leo_core::parallel::{ConfigFingerprint, MergeMetrics, SparseModelDelta};
use leo_core::permission::Permission;
use leo_core::reduction::apply_mean_deltas;
use leo_core::runtime::Runtime;
use leo_core::scalar::Scalar;
use leo_core::symbols::Alphabet;

const BEGIN_DOCUMENT: u32 = 256;
const END_DOCUMENT: u32 = 257;

fn s(value: f32) -> Scalar {
    Scalar { bits: value.to_bits() }
}

fn f(value: Scalar) -> f32 {
    f32::from_bits(value.bits)
}

fn wide(value: f64) -> WideScalar {
    WideScalar { bits: value.to_bits() }
}

fn g(value: WideScalar) -> f64 {
    f64::from_bits(value.bits)
}

fn single() -> impl Numerics {
    Operations {
        plus: |(a, b): (Scalar, Scalar)| s(f(a) + f(b)),
        minus: |(a, b): (Scalar, Scalar)| s(f(a) - f(b)),
        times: |(a, b): (Scalar, Scalar)| s(f(a) * f(b)),
        over: |(a, b): (Scalar, Scalar)| s(f(a) / f(b)),
        raised: |(a, n): (Scalar, u32)| s(f(a).powi(n as i32)),
        exp: |a: Scalar| s(f(a).exp()),
        ln: |a: Scalar| s(f(a).ln()),
        of_count: |n: u64| s(n as f32),
        wide_plus: |(sum, a): (WideScalar, Scalar)| wide(g(sum) + f(a) as f64),
        wide_over: |(sum, n): (WideScalar, u64)| s((g(sum) / n as f64) as f32),
        up: |a: Scalar| f(a).ceil() as usize,
        wide_add: |(a, b): (WideScalar, WideScalar)| wide(g(a) + g(b)),
        wide_minus: |(a, b): (WideScalar, WideScalar)| wide(g(a) - g(b)),
        wide_divide: |(a, b): (WideScalar, WideScalar)| wide(g(a) / g(b)),
        wide_count: |n: u64| wide(n as f64),
        consolidate: |(phase, _ends): (usize, bool)| (Scalar::one(), phase),
    }
}

fn alphabet() -> Alphabet {
    let mut input: Vec<bool> = vec![true; 258];
    input[END_DOCUMENT as usize] = false;
    let mut class_of: Vec<Option<usize>> = Vec::new();
    let mut symbol_of: Vec<u32> = Vec::new();
    for symbol in 0..258u32 {
        if symbol == BEGIN_DOCUMENT {
            class_of.push(None);
        } else {
            class_of.push(Some(symbol_of.len()));
            symbol_of.push(symbol);
        }
    }
    Alphabet {
        input,
        class_of,
        symbol_of,
        output_classes: 257,
        begin_document: BEGIN_DOCUMENT,
        end_document: END_DOCUMENT,
        end_document_class: 256,
    }
}

struct Generator(u64);

impl Generator {
    fn next(&mut self) -> u64 {
        self.0 = self.0.wrapping_add(0x9e37_79b9_7f4a_7c15);
        let mut z = self.0;
        z = (z ^ (z >> 30)).wrapping_mul(0xbf58_476d_1ce4_e5b9);
        z = (z ^ (z >> 27)).wrapping_mul(0x94d0_49bb_1331_11eb);
        z ^ (z >> 31)
    }

    fn below(&mut self, bound: usize) -> usize {
        (self.next() % bound as u64) as usize
    }

    fn between(&mut self, low: f32, high: f32) -> f32 {
        low + (high - low) * ((self.next() >> 40) as f32 / 16_777_216.0)
    }

    fn list(&mut self, count: usize, low: f32, high: f32) -> Vec<Scalar> {
        (0..count).map(|_| s(self.between(low, high))).collect()
    }
}

fn drawn_parts(config: &Config, alphabet: &Alphabet) -> DrawnParts {
    let sizes = ModelSizes::plan(config, alphabet, &single()).unwrap();
    let mut random = Generator(config.model.seed);
    let neurons = config.model.neuron_count;
    let mut neuron_type = vec![0u8; neurons];
    let mut ids: Vec<usize> = (0..neurons).collect();
    for place in (1..neurons).rev() {
        ids.swap(place, random.below(place + 1));
    }
    let inhibitory = ((1.0 - f(config.model.excitatory_fraction)) * neurons as f32).round();
    mark_inhibitory(&mut neuron_type, &ids, inhibitory as usize);
    let threshold = random.list(neurons, 0.45, 0.55);
    let shape = NetworkShape {
        neuron_count: neurons,
        block_count: config.model.block_count,
        neurons_per_block: config.model.neurons_per_block,
        synapses_per_neuron: config.model.synapses_per_neuron,
    };
    let mut recurrent = RecurrentBuilder::new(shape, neuron_type);
    loop {
        match recurrent.request() {
            DrawRequest::Nothing => break,
            DrawRequest::Neighbour => recurrent.supply(random.below(3)).unwrap(),
            DrawRequest::WithinBlock(size) => recurrent.supply(random.below(size)).unwrap(),
            DrawRequest::Anywhere(count) => recurrent.supply(random.below(count)).unwrap(),
            DrawRequest::Branch => recurrent.supply(random.below(3)).unwrap(),
            DrawRequest::Delay => recurrent.supply(random.below(100)).unwrap(),
            DrawRequest::Weight(false) => recurrent.supply_weight(s(random.between(0.01, 0.08))),
            DrawRequest::Weight(true) => recurrent.supply_weight(s(random.between(-0.08, -0.01))),
        }
    }
    let mut input =
        InputBuilder::new(alphabet.symbol_count(), config.model.input_fanout, neurons).unwrap();
    loop {
        match input.request() {
            DrawRequest::Nothing => break,
            DrawRequest::Weight(_) => input.supply_weight(s(random.between(0.05, 0.20))),
            _ => input.supply(random.below(neurons)),
        }
    }
    DrawnParts {
        recurrent,
        input,
        threshold,
        output_weights: random.list(sizes.output_weights, -0.005, 0.005),
        context_output_weights: random.list(sizes.context_output_weights, -0.005, 0.005),
    }
}

fn new_model(config: Config) -> Model {
    let alphabet = alphabet();
    let parts = drawn_parts(&config, &alphabet);
    Model::initialize(config, &alphabet, &single(), parts).unwrap()
}

const PRINT: ConfigFingerprint = ConfigFingerprint { high: 1, low: 2 };

fn model() -> Model {
    let mut config = Config::default();
    config.model.neuron_count = 16;
    config.model.block_count = 2;
    config.model.neurons_per_block = 8;
    config.model.synapses_per_neuron = 3;
    config.model.input_fanout = 2;
    config.model.max_active_per_block = 4;
    config.model.max_active_global = 8;
    config.context.max_order = 2;
    config.context.embedding_dim = 4;
    config.context.slots_per_order = 16;
    config.context.probe_limit = 4;
    config.context.dropout_rate = s(0.0);
    new_model(config)
}

fn between(base: &Model, trained: &Model) -> LeoResult<SparseModelDelta> {
    SparseModelDelta::between(base, trained, PRINT, PRINT, &single(), &|after, before| {
        s(f(after) - f(before))
    })
}

fn merge(master: &mut Model, deltas: &Vec<SparseModelDelta>) -> LeoResult<MergeMetrics> {
    let mean = |base: Scalar, moves: Vec<Scalar>, workers: usize| {
        let total: f64 = moves.iter().map(|m| f(*m) as f64).sum();
        s(f(base) + (total / workers as f64) as f32)
    };
    apply_mean_deltas(master, deltas, PRINT, &alphabet(), &single(), &mean)
}

#[test]
fn fixed_parameters_merge_as_a_synchronous_mean_delta() {
    let base = model();
    let mut first = base.clone();
    let mut second = base.clone();
    first.output.bias[0] = s(f(first.output.bias[0]) + 0.2);
    second.output.bias[0] = s(f(second.output.bias[0]) + 0.4);
    first.statistics.processed_stories += 1;
    second.statistics.processed_stories += 1;
    let deltas = vec![between(&base, &first).unwrap(), between(&base, &second).unwrap()];
    let mut master = base.clone();
    let metrics = merge(&mut master, &deltas).unwrap();
    assert!((f(master.output.bias[0]) - (f(base.output.bias[0]) + 0.3)).abs() < 1.0e-6);
    assert_eq!(master.statistics.processed_stories, 2);
    assert_eq!(metrics.workers, 2);
}

#[test]
fn tracked_delta_matches_full_delta_for_one_worker_story() {
    let ops = single();
    let base = model();
    let mut runtime = Runtime::new(base.clone(), alphabet(), &ops).unwrap();
    runtime.enable_parameter_tracking();
    runtime.begin_document();
    runtime.step(&ops, BEGIN_DOCUMENT, Some(b'A' as u32), Permission::Training).unwrap();
    runtime.step(&ops, b'A' as u32, Some(END_DOCUMENT), Permission::Training).unwrap();
    runtime.finish_document();

    let full = between(&base, runtime.model()).unwrap();
    let noted = SparseModelDelta::between_tracked(
        &base,
        runtime.model(),
        &runtime.parameter_changes(),
        PRINT,
        PRINT,
        alphabet().output_classes,
        &ops,
        &|after, before| s(f(after) - f(before)),
    )
    .unwrap();
    assert_eq!(format!("{noted:?}"), format!("{full:?}"));
    assert!(!full.output_bias.is_empty());
}

#[test]
fn stale_worker_deltas_are_rejected() {
    let base = model();
    let mut trained = base.clone();
    trained.output.bias[0] = s(f(trained.output.bias[0]) + 0.1);
    let delta = between(&base, &trained).unwrap();
    let mut advanced_master = base;
    advanced_master.parameter_revision += 1;
    let error = merge(&mut advanced_master, &vec![delta]).unwrap_err();
    assert!(error.message().contains("current canonical revision"));
}

#[test]
fn context_entries_merge_by_fingerprint_not_collision_slot() {
    let base = model();
    let slots = base.config.context.slots_per_order;
    let first_key = 1u64;
    let second_key = first_key + slots as u64;
    let mut first = base.clone();
    let mut second = base.clone();
    let first_slot = first.resolve_context_slot(1, first_key, true).unwrap().0.unwrap();
    let second_slot = second.resolve_context_slot(1, second_key, true).unwrap().0.unwrap();
    let dim = base.config.context.embedding_dim;
    first.context.embeddings[first_slot * dim] = s(0.4);
    second.context.embeddings[second_slot * dim] = s(-0.2);
    first.context.observations[first_slot] = 1;
    second.context.observations[second_slot] = 1;
    let deltas = vec![between(&base, &first).unwrap(), between(&base, &second).unwrap()];
    let mut master = base;
    merge(&mut master, &deltas).unwrap();
    let keys = &master.context.keys[..slots];
    assert!(keys.contains(&first_key));
    assert!(keys.contains(&second_key));
}

#[test]
fn empty_batches_and_foreign_configurations_are_refused() {
    let mut master = model();
    let error = merge(&mut master, &Vec::new()).unwrap_err();
    assert_eq!(error.message(), "cannot merge an empty worker batch");
    let mut delta = between(&master, &master).unwrap();
    delta.config_fingerprint = ConfigFingerprint { high: 7, low: 7 };
    let error = merge(&mut master, &vec![delta]).unwrap_err();
    assert_eq!(error.message(), "worker delta configuration does not match the canonical model");
}

#[test]
fn a_model_does_not_differ_from_itself() {
    let base = model();
    let delta = between(&base, &base).unwrap();
    assert!(delta.threshold.is_empty() && delta.excitability.is_empty());
    assert!(delta.recurrent_weight.is_empty() && delta.input_weight.is_empty());
    assert!(delta.output_weight.is_empty() && delta.output_bias.is_empty());
    assert!(delta.context_output_weight.is_empty() && delta.context.is_empty());
    assert_eq!(delta.revision_increment, 0);
}

#[test]
fn every_difference_is_listed_in_order() {
    let base = model();
    let mut trained = base.clone();
    for place in [5usize, 2, 9] {
        trained.input.weights[place] = s(f(base.input.weights[place]) + 0.5);
    }
    let delta = between(&base, &trained).unwrap();
    let places: Vec<u64> = delta.input_weight.iter().map(|entry| entry.index as u64).collect();
    assert_eq!(places, vec![2, 5, 9]);
    assert!(delta.input_weight.iter().all(|entry| (f(entry.delta) - 0.5).abs() < 1.0e-6));
}

#[test]
fn loss_sums_are_merged_by_addition() {
    let mut base = model();
    base.statistics.training_loss_sum = wide(10.0);
    let mut first = base.clone();
    let mut second = base.clone();
    first.statistics.training_loss_sum = wide(12.5);
    second.statistics.training_loss_sum = wide(10.25);
    let deltas = vec![between(&base, &first).unwrap(), between(&base, &second).unwrap()];
    assert_eq!(g(deltas[0].statistics.training_loss_sum), 2.5);
    assert_eq!(g(deltas[1].statistics.training_loss_sum), 0.25);
    let mut master = base;
    merge(&mut master, &deltas).unwrap();
    assert_eq!(g(master.statistics.training_loss_sum), 12.75);
}

#[test]
fn merged_keys_stay_at_home() {
    let base = model();
    let slots = base.config.context.slots_per_order;
    let limit = base.config.context.probe_limit;
    let mut deltas = Vec::new();
    for step in 0..3u64 {
        let mut worker = base.clone();
        let key = 5 + step * slots as u64;
        let slot = worker.resolve_context_slot(1, key, true).unwrap().0.unwrap();
        worker.context.observations[slot] = 1;
        deltas.push(between(&base, &worker).unwrap());
    }
    let mut master = base;
    merge(&mut master, &deltas).unwrap();
    let held: Vec<(usize, u64)> = (0..slots)
        .map(|slot| (slot, master.context.keys[slot]))
        .filter(|(_, key)| *key != 0)
        .collect();
    assert_eq!(held.len(), 3);
    for (slot, key) in &held {
        let home = *key as usize & (slots - 1);
        assert!((0..limit).any(|probe| (home + probe) & (slots - 1) == *slot));
        assert_eq!(held.iter().filter(|(_, other)| other == key).count(), 1);
    }
}
