//! The backend boundary and the executor on the CPU.

use leo_core::arithmetic::{Numerics, Operations};
use leo_core::assembly::{DrawnParts, ModelSizes};
use leo_core::backend::{
    executor_for, run_story_batch_cuda, BackendCapabilities, BackendKind, BackendRuntime,
    DeviceModelLayout, RuntimeBackend, StepExecutor, StoryBatchAdmission,
};
use leo_core::config::Config;
use leo_core::error::{LeoError, LeoErrorKind, LeoResult};
use leo_core::executor::CpuExecutor;
use leo_core::initialize::{
    mark_inhibitory, DrawRequest, InputBuilder, NetworkShape, RecurrentBuilder,
};
use leo_core::metrics::WideScalar;
use leo_core::model::Model;
use leo_core::permission::Permission;
use leo_core::runtime::{ParameterChanges, Runtime};
use leo_core::scalar::Scalar;
use leo_core::symbols::Alphabet;
use std::str::FromStr;

const BEGIN_DOCUMENT: u32 = 256;
const END_DOCUMENT: u32 = 257;

fn s(value: f32) -> Scalar {
    Scalar { bits: value.to_bits() }
}

fn f(value: Scalar) -> f32 {
    f32::from_bits(value.bits)
}

fn wide(value: f64) -> WideScalar {
    WideScalar { bits: value.to_bits() }
}

fn g(value: WideScalar) -> f64 {
    f64::from_bits(value.bits)
}

fn single() -> impl Numerics {
    Operations {
        plus: |(a, b): (Scalar, Scalar)| s(f(a) + f(b)),
        minus: |(a, b): (Scalar, Scalar)| s(f(a) - f(b)),
        times: |(a, b): (Scalar, Scalar)| s(f(a) * f(b)),
        over: |(a, b): (Scalar, Scalar)| s(f(a) / f(b)),
        raised: |(a, n): (Scalar, u32)| s(f(a).powi(n as i32)),
        exp: |a: Scalar| s(f(a).exp()),
        ln: |a: Scalar| s(f(a).ln()),
        of_count: |n: u64| s(n as f32),
        wide_plus: |(sum, a): (WideScalar, Scalar)| wide(g(sum) + f(a) as f64),
        wide_over: |(sum, n): (WideScalar, u64)| s((g(sum) / n as f64) as f32),
        up: |a: Scalar| f(a).ceil() as usize,
        wide_add: |(a, b): (WideScalar, WideScalar)| wide(g(a) + g(b)),
        wide_minus: |(a, b): (WideScalar, WideScalar)| wide(g(a) - g(b)),
        wide_divide: |(a, b): (WideScalar, WideScalar)| wide(g(a) / g(b)),
        wide_count: |n: u64| wide(n as f64),
        consolidate: |(phase, _ends): (usize, bool)| (Scalar::one(), phase),
    }
}

fn alphabet() -> Alphabet {
    let mut input: Vec<bool> = vec![true; 258];
    input[END_DOCUMENT as usize] = false;
    let mut class_of: Vec<Option<usize>> = Vec::new();
    let mut symbol_of: Vec<u32> = Vec::new();
    for symbol in 0..258u32 {
        if symbol == BEGIN_DOCUMENT {
            class_of.push(None);
        } else {
            class_of.push(Some(symbol_of.len()));
            symbol_of.push(symbol);
        }
    }
    Alphabet {
        input,
        class_of,
        symbol_of,
        output_classes: 257,
        begin_document: BEGIN_DOCUMENT,
        end_document: END_DOCUMENT,
        end_document_class: 256,
    }
}

struct Generator(u64);

impl Generator {
    fn next(&mut self) -> u64 {
        self.0 = self.0.wrapping_add(0x9e37_79b9_7f4a_7c15);
        let mut z = self.0;
        z = (z ^ (z >> 30)).wrapping_mul(0xbf58_476d_1ce4_e5b9);
        z = (z ^ (z >> 27)).wrapping_mul(0x94d0_49bb_1331_11eb);
        z ^ (z >> 31)
    }

    fn below(&mut self, bound: usize) -> usize {
        (self.next() % bound as u64) as usize
    }

    fn between(&mut self, low: f32, high: f32) -> f32 {
        low + (high - low) * ((self.next() >> 40) as f32 / 16_777_216.0)
    }

    fn list(&mut self, count: usize, low: f32, high: f32) -> Vec<Scalar> {
        (0..count).map(|_| s(self.between(low, high))).collect()
    }
}

fn drawn_parts(config: &Config, alphabet: &Alphabet) -> DrawnParts {
    let sizes = ModelSizes::plan(config, alphabet, &single()).unwrap();
    let mut random = Generator(config.model.seed);
    let neurons = config.model.neuron_count;
    let mut neuron_type = vec![0u8; neurons];
    let mut ids: Vec<usize> = (0..neurons).collect();
    for place in (1..neurons).rev() {
        ids.swap(place, random.below(place + 1));
    }
    let inhibitory = ((1.0 - f(config.model.excitatory_fraction)) * neurons as f32).round();
    mark_inhibitory(&mut neuron_type, &ids, inhibitory as usize);
    let threshold = random.list(neurons, 0.45, 0.55);
    let shape = NetworkShape {
        neuron_count: neurons,
        block_count: config.model.block_count,
        neurons_per_block: config.model.neurons_per_block,
        synapses_per_neuron: config.model.synapses_per_neuron,
    };
    let mut recurrent = RecurrentBuilder::new(shape, neuron_type);
    loop {
        match recurrent.request() {
            DrawRequest::Nothing => break,
            DrawRequest::Neighbour => recurrent.supply(random.below(3)).unwrap(),
            DrawRequest::WithinBlock(size) => recurrent.supply(random.below(size)).unwrap(),
            DrawRequest::Anywhere(count) => recurrent.supply(random.below(count)).unwrap(),
            DrawRequest::Branch => recurrent.supply(random.below(3)).unwrap(),
            DrawRequest::Delay => recurrent.supply(random.below(100)).unwrap(),
            DrawRequest::Weight(false) => recurrent.supply_weight(s(random.between(0.01, 0.08))),
            DrawRequest::Weight(true) => recurrent.supply_weight(s(random.between(-0.08, -0.01))),
        }
    }
    let mut input =
        InputBuilder::new(alphabet.symbol_count(), config.model.input_fanout, neurons).unwrap();
    loop {
        match input.request() {
            DrawRequest::Nothing => break,
            DrawRequest::Weight(_) => input.supply_weight(s(random.between(0.05, 0.20))),
            _ => input.supply(random.below(neurons)),
        }
    }
    DrawnParts {
        recurrent,
        input,
        threshold,
        output_weights: random.list(sizes.output_weights, -0.005, 0.005),
        context_output_weights: random.list(sizes.context_output_weights, -0.005, 0.005),
    }
}

fn new_model(config: Config) -> Model {
    let alphabet = alphabet();
    let parts = drawn_parts(&config, &alphabet);
    Model::initialize(config, &alphabet, &single(), parts).unwrap()
}

fn tiny_model() -> Model {
    let mut config = Config::default();
    config.model.neuron_count = 32;
    config.model.block_count = 4;
    config.model.neurons_per_block = 8;
    config.model.branches_per_neuron = 4;
    config.model.synapses_per_neuron = 4;
    config.model.input_fanout = 4;
    config.model.max_active_per_block = 2;
    config.model.max_active_global = 8;
    config.context.max_order = 2;
    config.context.slots_per_order = 16;
    config.context.probe_limit = 2;
    config.context.embedding_dim = 4;
    new_model(config)
}

fn select<'a, T: Numerics>(
    model: Model,
    requested: BackendKind,
    ops: &'a T,
) -> LeoResult<BackendRuntime<CpuExecutor<'a, T>>> {
    let no_device = LeoError::cuda("CUDA driver reported no GPU devices".to_owned());
    BackendRuntime::new(model, requested, alphabet(), ops, &no_device)
}

#[test]
fn backend_names_parse_without_aliases() {
    assert_eq!(BackendKind::from_str("auto").unwrap(), BackendKind::Auto);
    assert_eq!(BackendKind::from_str("cpu").unwrap(), BackendKind::Cpu);
    assert_eq!(BackendKind::from_str("gpu").unwrap(), BackendKind::Gpu);
    assert!(BackendKind::from_str("cuda").is_err());
}

#[test]
fn backend_names_ignore_case_and_white_space() {
    assert_eq!(BackendKind::parse("  GPU\n").unwrap(), BackendKind::Gpu);
    assert_eq!(BackendKind::Gpu.as_str(), "gpu");
    let error = BackendKind::parse("Cuda").unwrap_err();
    assert_eq!(error.message(), "invalid backend 'Cuda'; expected auto, cpu, or gpu");
    assert_eq!(error.kind(), LeoErrorKind::Configuration);
}

#[test]
fn auto_resolves_to_cpu_in_the_reference_build() {
    let ops = single();
    let runtime = select(tiny_model(), BackendKind::Auto, &ops).unwrap();
    assert_eq!(runtime.requested_backend(), BackendKind::Auto);
    assert_eq!(runtime.resolved_backend(), BackendKind::Cpu);
    assert_eq!(executor_for(BackendKind::Auto), BackendKind::Cpu);
}

#[test]
fn gpu_selection_never_silently_uses_cpu() {
    let ops = single();
    match select(tiny_model(), BackendKind::Gpu, &ops) {
        Ok(runtime) => assert_eq!(runtime.resolved_backend(), BackendKind::Gpu),
        Err(error) => {
            assert!(error.message().contains("CUDA") || error.message().contains("GPU backend"));
        }
    }
    assert_eq!(executor_for(BackendKind::Gpu), BackendKind::Gpu);
}

#[test]
fn executors_of_another_backend_are_refused() {
    let ops = single();
    let model = tiny_model();
    let executor = CpuExecutor::new(model, alphabet(), &ops).unwrap();
    let error = match BackendRuntime::from_backend(BackendKind::Gpu, executor) {
        Ok(_) => panic!("a CPU executor served a GPU request"),
        Err(error) => error,
    };
    assert_eq!(error.message(), "requested backend gpu does not match runtime backend cpu");
    assert_eq!(error.kind(), LeoErrorKind::Backend);
}

#[test]
fn device_layout_covers_fixed_width_model_buffers() {
    let model = tiny_model();
    let layout = DeviceModelLayout::for_model(&model);
    assert_eq!(layout.buffers.len(), 16);
    assert!(layout.total_bytes > 0);
    assert_eq!(layout.total_bytes, layout.read_only_bytes + layout.read_write_bytes);
    assert!(layout.buffers.iter().any(|buffer| buffer.name == "context.keys"));
}

#[test]
fn backend_fork_preserves_the_selected_executor() {
    let ops = single();
    let model = tiny_model();
    let runtime = select(model.clone(), BackendKind::Cpu, &ops).unwrap();
    let fork = runtime.fork(model).unwrap();
    assert_eq!(fork.resolved_backend(), BackendKind::Cpu);
    assert_eq!(fork.capabilities(), BackendCapabilities::cpu());
}

#[test]
fn cpu_wrapper_preserves_step_semantics() {
    let ops = single();
    let model = tiny_model();
    let mut direct = Runtime::new(model.clone(), alphabet(), &ops).unwrap();
    let mut selected = select(model, BackendKind::Cpu, &ops).unwrap();
    direct.begin_document();
    selected.begin_document().unwrap();
    let direct_metrics =
        direct.step(&ops, BEGIN_DOCUMENT, Some(b'A' as u32), Permission::Frozen).unwrap();
    let selected_metrics =
        selected.step(BEGIN_DOCUMENT, Some(b'A' as u32), Permission::Frozen).unwrap();
    assert_eq!(direct_metrics.predicted_symbol, selected_metrics.predicted_symbol);
    assert_eq!(direct.probabilities(), selected.probabilities());
}

#[test]
fn a_batch_of_steps_ends_with_the_first_that_fails() {
    let ops = single();
    let mut runtime = select(tiny_model(), BackendKind::Cpu, &ops).unwrap();
    runtime.begin_document().unwrap();
    let steps = vec![
        (BEGIN_DOCUMENT, Some(b'A' as u32)),
        (b'A' as u32, Some(END_DOCUMENT)),
    ];
    assert_eq!(runtime.training_step_batch(&steps, Permission::Training).unwrap().len(), 2);
    runtime.finish_document().unwrap();
    assert_eq!(runtime.model().statistics.processed_stories, 1);
    runtime.begin_document().unwrap();
    let broken = vec![(b'A' as u32, None), (END_DOCUMENT, None), (b'B' as u32, None)];
    assert!(runtime.training_step_batch(&broken, Permission::Frozen).is_err());
    assert_eq!(runtime.model().statistics.persistent_ticks, 2);
    runtime.reset_transient_state().unwrap();
    assert!(runtime.active_neurons().is_empty());
    assert_eq!(f(runtime.activation(0)), 0.0);
    runtime.advance_frozen_batch(&vec![(b'A' as u32, None)]).unwrap();
}

#[test]
fn tracked_changes_are_reported_and_models_replaced() {
    let ops = single();
    let model = tiny_model();
    let mut runtime = select(model.clone(), BackendKind::Cpu, &ops).unwrap();
    runtime.enable_parameter_tracking();
    runtime.begin_document().unwrap();
    runtime.step(BEGIN_DOCUMENT, Some(b'A' as u32), Permission::Training).unwrap();
    let changes = runtime.parameter_changes().unwrap();
    assert!(changes.output_bias_dirty);
    assert!(runtime.model().parameter_revision == 1);
    runtime.synchronize_sparse_model(model, &ParameterChanges::default()).unwrap();
    assert!(runtime.model().parameter_revision == 0);
    runtime.synchronize_model().unwrap();
    runtime.commit_sparse_host_model(&changes).unwrap();
    let stories: Vec<Vec<u8>> = vec![vec![b'A'], vec![b'B']];
    assert!(runtime.training_story_batch(&stories, Permission::Training).unwrap().is_none());
    assert!(runtime.training_story_batch_deltas(&stories, Permission::Training).unwrap().is_none());
}

#[test]
fn story_batches_are_admitted_by_their_size() {
    assert!(matches!(run_story_batch_cuda(0, true, 0), StoryBatchAdmission::NotTaken));
    assert!(matches!(run_story_batch_cuda(1, false, 0), StoryBatchAdmission::NotTaken));
    assert!(matches!(run_story_batch_cuda(1, true, 0), StoryBatchAdmission::Run(1)));
    assert!(matches!(run_story_batch_cuda(5, false, 3), StoryBatchAdmission::Run(2)));
    match run_story_batch_cuda(129, false, 0) {
        StoryBatchAdmission::Refused(error) => assert_eq!(
            error.message(),
            "GPU-native story batching supports at most 128 stories per batch; got 129"
        ),
        _ => panic!("too many stories were taken"),
    }
}

#[test]
fn forks_ask_for_the_backend_that_serves() {
    let ops = single();
    let model = tiny_model();
    let runtime = select(model.clone(), BackendKind::Auto, &ops).unwrap();
    assert_eq!(runtime.requested_backend(), BackendKind::Auto);
    let fork = runtime.fork(model).unwrap();
    assert_eq!(fork.requested_backend(), BackendKind::Cpu);
    assert_eq!(fork.resolved_backend(), BackendKind::Cpu);
}

#[test]
fn batches_of_steps_go_through_the_trait() {
    let ops = single();
    let model = tiny_model();
    let mut one = CpuExecutor::new(model.clone(), alphabet(), &ops).unwrap();
    let mut other = CpuExecutor::new(model, alphabet(), &ops).unwrap();
    RuntimeBackend::begin_document(&mut one).unwrap();
    RuntimeBackend::begin_document(&mut other).unwrap();
    let steps = vec![(BEGIN_DOCUMENT, Some(b'A' as u32)), (b'A' as u32, Some(END_DOCUMENT))];
    let list = RuntimeBackend::training_step_batch(&mut one, &steps, Permission::Training).unwrap();
    for (place, (symbol, wanted)) in steps.iter().enumerate() {
        let single = StepExecutor::step(&mut other, *symbol, *wanted, Permission::Training).unwrap();
        assert_eq!(format!("{:?}", list[place]), format!("{single:?}"));
    }
    RuntimeBackend::advance_frozen_batch(&mut one, &vec![(b'A' as u32, None)]).unwrap();
    assert_eq!(RuntimeBackend::model(&one).statistics.persistent_ticks, 2);
}

fn unopened<'a, T: Numerics>(_ops: &'a T, text: &str) -> LeoResult<CpuExecutor<'a, T>> {
    Err(LeoError::cuda(text.to_owned()))
}

#[test]
fn gpu_requests_are_served_by_what_was_opened() {
    let ops = single();
    let error = match BackendRuntime::new_gpu(unopened(&ops, "no driver")) {
        Ok(_) => panic!("nothing was opened"),
        Err(error) => error,
    };
    assert_eq!(
        error.message(),
        "GPU backend requested, but CUDA initialization failed: no driver"
    );
    let error = match BackendRuntime::new_gpu_on_device(unopened(&ops, "no device"), 3) {
        Ok(_) => panic!("nothing was opened"),
        Err(error) => error,
    };
    assert_eq!(
        error.message(),
        "GPU backend requested on CUDA device 3, but initialization failed: no device"
    );
    let model = tiny_model();
    let wrong = CpuExecutor::new(model, alphabet(), &ops);
    let error = match BackendRuntime::new_gpu_on_device(wrong, 0) {
        Ok(_) => panic!("a CPU executor served a GPU request"),
        Err(error) => error,
    };
    assert_eq!(error.message(), "requested backend gpu does not match runtime backend cpu");
}

#[test]
fn lent_models_can_be_changed() {
    let ops = single();
    let mut runtime = select(tiny_model(), BackendKind::Cpu, &ops).unwrap();
    let before = runtime.model().parameter_revision;
    {
        let model = runtime.model_mut().unwrap();
        model.output.bias[3] = s(0.5);
        model.parameter_revision += 1;
    }
    assert_eq!(f(runtime.model().output.bias[3]), 0.5);
    assert_eq!(runtime.model().parameter_revision, before + 1);
}
