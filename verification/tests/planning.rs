//! Planning of the work on a GPU.

use leo_core::arithmetic::{Numerics, Operations};
use leo_core::assembly::{DrawnParts, ModelSizes};
use leo_core::buffers::{
    buffers_of, device_buffers, host_sizes, BufferKind, BufferSizes, BufferUse, ExchangeLayout,
    LearnedBuffer, BUFFER_COUNT,
};
use leo_core::config::Config;
use leo_core::cuda_plan::CudaExecutionPlan;
use leo_core::device::{
    allocation_bytes, as_u32, check_cooperative_launch, check_transfer, clearing_of,
    cooperative_grid_capacity, device_sub_buffer, grown_capacity, launch_grid,
    select_device, validate_gpu_shape, Clearing, CudaConfig, DeviceBuffer, DeviceLimits,
    DeviceQuery, Transfer,
};
use leo_core::initialize::{
    mark_inhibitory, DrawRequest, InputBuilder, NetworkShape, RecurrentBuilder,
};
use leo_core::kernel_cache::{kept_kernels_usable, kernel_source, LaunchRecording, RecordingAction};
use leo_core::launch::{launch_step, reset_transient_state, DeviceAction};
use leo_core::metrics::{TrainingStatistics, WideScalar};
use leo_core::model::Model;
use leo_core::options::{
    cuda_phase_profile_sample_stride, env_flag, env_positive_u32_opt, env_positive_u64, env_switch,
    requested_device, CudaDebugOptions, CudaReplayProfileOptions,
};
use leo_core::permission::Permission;
use leo_core::records::DeviceState;
use leo_core::replay::{
    is_sampled, training_path, ReplayMode, ReplayOptions, ReplayRun, SingleStep, TrainingPath,
};
use leo_core::runtime::ParameterChanges;
use leo_core::scalar::Scalar;
use leo_core::snapshot::{plan_snapshot, SnapshotKind, SnapshotShape};
use leo_core::step_kernels::StepKernel;
use leo_core::steps::{chunk_end, prepare_chunk, split_runs, StepSetting, Supervision};
use leo_core::story_batch::{
    admit_story_batch, combine_parameter_changes, count_device_updates, lane_groups,
    lane_needs_repair, merge_path, story_steps, uses_persistent_shared, MergePath, StoryBatch,
    LANE_REVISION_IN_FLIGHT,
};
use leo_core::symbols::Alphabet;
use leo_core::telemetry::{
    cache_base, gib_per_second, profile_file, skip_reason, summarize_profile, BatchPhase,
    CacheBase, CudaBatchTelemetry, TelemetryAggregate,
};
use leo_core::wavefront::{
    plan_persistent_wavefront, plan_wavefront, BatchPointers, PersistentStretch, WavefrontKernel,
    WavefrontLaunchKind, WavefrontStep,
};

const BEGIN_DOCUMENT: u32 = 256;
const END_DOCUMENT: u32 = 257;

fn s(value: f32) -> Scalar {
    Scalar { bits: value.to_bits() }
}

fn f(value: Scalar) -> f32 {
    f32::from_bits(value.bits)
}

fn wide(value: f64) -> WideScalar {
    WideScalar { bits: value.to_bits() }
}

fn g(value: WideScalar) -> f64 {
    f64::from_bits(value.bits)
}

fn single() -> impl Numerics {
    Operations {
        plus: |(a, b): (Scalar, Scalar)| s(f(a) + f(b)),
        minus: |(a, b): (Scalar, Scalar)| s(f(a) - f(b)),
        times: |(a, b): (Scalar, Scalar)| s(f(a) * f(b)),
        over: |(a, b): (Scalar, Scalar)| s(f(a) / f(b)),
        raised: |(a, n): (Scalar, u32)| s(f(a).powi(n as i32)),
        exp: |a: Scalar| s(f(a).exp()),
        ln: |a: Scalar| s(f(a).ln()),
        of_count: |n: u64| s(n as f32),
        wide_plus: |(sum, a): (WideScalar, Scalar)| wide(g(sum) + f(a) as f64),
        wide_over: |(sum, n): (WideScalar, u64)| s((g(sum) / n as f64) as f32),
        up: |a: Scalar| f(a).ceil() as usize,
        wide_add: |(a, b): (WideScalar, WideScalar)| wide(g(a) + g(b)),
        wide_minus: |(a, b): (WideScalar, WideScalar)| wide(g(a) - g(b)),
        wide_divide: |(a, b): (WideScalar, WideScalar)| wide(g(a) / g(b)),
        wide_count: |n: u64| wide(n as f64),
        consolidate: |(phase, _ends): (usize, bool)| (Scalar::one(), phase),
    }
}

fn alphabet() -> Alphabet {
    let mut input: Vec<bool> = vec![true; 258];
    input[END_DOCUMENT as usize] = false;
    let mut class_of: Vec<Option<usize>> = Vec::new();
    let mut symbol_of: Vec<u32> = Vec::new();
    for symbol in 0..258u32 {
        if symbol == BEGIN_DOCUMENT {
            class_of.push(None);
        } else {
            class_of.push(Some(symbol_of.len()));
            symbol_of.push(symbol);
        }
    }
    Alphabet {
        input,
        class_of,
        symbol_of,
        output_classes: 257,
        begin_document: BEGIN_DOCUMENT,
        end_document: END_DOCUMENT,
        end_document_class: 256,
    }
}

struct Generator(u64);

impl Generator {
    fn next(&mut self) -> u64 {
        self.0 = self.0.wrapping_add(0x9e37_79b9_7f4a_7c15);
        let mut z = self.0;
        z = (z ^ (z >> 30)).wrapping_mul(0xbf58_476d_1ce4_e5b9);
        z = (z ^ (z >> 27)).wrapping_mul(0x94d0_49bb_1331_11eb);
        z ^ (z >> 31)
    }

    fn below(&mut self, bound: usize) -> usize {
        (self.next() % bound as u64) as usize
    }

    fn between(&mut self, low: f32, high: f32) -> f32 {
        low + (high - low) * ((self.next() >> 40) as f32 / 16_777_216.0)
    }

    fn list(&mut self, count: usize, low: f32, high: f32) -> Vec<Scalar> {
        (0..count).map(|_| s(self.between(low, high))).collect()
    }
}

fn drawn_parts(config: &Config, alphabet: &Alphabet) -> DrawnParts {
    let sizes = ModelSizes::plan(config, alphabet, &single()).unwrap();
    let mut random = Generator(config.model.seed);
    let neurons = config.model.neuron_count;
    let mut neuron_type = vec![0u8; neurons];
    let mut ids: Vec<usize> = (0..neurons).collect();
    for place in (1..neurons).rev() {
        ids.swap(place, random.below(place + 1));
    }
    let inhibitory = ((1.0 - f(config.model.excitatory_fraction)) * neurons as f32).round();
    mark_inhibitory(&mut neuron_type, &ids, inhibitory as usize);
    let threshold = random.list(neurons, 0.45, 0.55);
    let shape = NetworkShape {
        neuron_count: neurons,
        block_count: config.model.block_count,
        neurons_per_block: config.model.neurons_per_block,
        synapses_per_neuron: config.model.synapses_per_neuron,
    };
    let mut recurrent = RecurrentBuilder::new(shape, neuron_type);
    loop {
        match recurrent.request() {
            DrawRequest::Nothing => break,
            DrawRequest::Neighbour => recurrent.supply(random.below(3)).unwrap(),
            DrawRequest::WithinBlock(size) => recurrent.supply(random.below(size)).unwrap(),
            DrawRequest::Anywhere(count) => recurrent.supply(random.below(count)).unwrap(),
            DrawRequest::Branch => recurrent.supply(random.below(3)).unwrap(),
            DrawRequest::Delay => recurrent.supply(random.below(100)).unwrap(),
            DrawRequest::Weight(false) => recurrent.supply_weight(s(random.between(0.01, 0.08))),
            DrawRequest::Weight(true) => recurrent.supply_weight(s(random.between(-0.08, -0.01))),
        }
    }
    let mut input =
        InputBuilder::new(alphabet.symbol_count(), config.model.input_fanout, neurons).unwrap();
    loop {
        match input.request() {
            DrawRequest::Nothing => break,
            DrawRequest::Weight(_) => input.supply_weight(s(random.between(0.05, 0.20))),
            _ => input.supply(random.below(neurons)),
        }
    }
    DrawnParts {
        recurrent,
        input,
        threshold,
        output_weights: random.list(sizes.output_weights, -0.005, 0.005),
        context_output_weights: random.list(sizes.context_output_weights, -0.005, 0.005),
    }
}

fn new_model(config: Config) -> Model {
    let alphabet = alphabet();
    let parts = drawn_parts(&config, &alphabet);
    Model::initialize(config, &alphabet, &single(), parts).unwrap()
}

fn small_config() -> Config {
    let mut config = Config::default();
    config.model.neuron_count = 16;
    config.model.block_count = 2;
    config.model.neurons_per_block = 8;
    config.model.synapses_per_neuron = 3;
    config.model.input_fanout = 2;
    config.model.max_active_per_block = 4;
    config.model.max_active_global = 8;
    config.context.max_order = 2;
    config.context.embedding_dim = 4;
    config.context.slots_per_order = 16;
    config.context.probe_limit = 4;
    config.context.dropout_rate = s(0.0);
    config
}

fn limits() -> DeviceLimits {
    DeviceLimits::from_query(&DeviceQuery {
        cooperative_launch: 1,
        multiprocessor_count: 10,
        max_threads_per_sm: 1024,
        fused_128: 8,
        fused_256: 4,
        fused_512: 2,
        shared_persistent_256: 3,
        shared_grouped_256: 0,
        fused_profile_256: 4,
        frozen: 2,
        frozen_profile: 1,
        replay: 2,
        replay_fast: 3,
        replay_profile: 1,
        persistent: 1,
    })
}

#[test]
fn devices_are_counted_and_chosen() {
    assert_eq!(select_device(4, 3).unwrap(), 3);
    assert_eq!(
        select_device(4, 4).unwrap_err().message(),
        "CUDA device 4 is outside available CUDA devices 0..3"
    );
    assert_eq!(as_u32("x", 7).unwrap(), 7);
    assert!(as_u32("x", 1 << 33).is_err());
}

#[test]
fn shapes_that_the_kernels_cannot_take_are_refused() {
    let mut model = new_model(small_config());
    validate_gpu_shape(&model).unwrap();
    model.config.model.max_active_per_block = 65;
    assert_eq!(
        validate_gpu_shape(&model).unwrap_err().message(),
        "GPU executor supports max_active_per_block <= 64; got 65"
    );
    model.config.model.max_active_per_block = 64;
    model.config.model.block_count = 17;
    assert_eq!(
        validate_gpu_shape(&model).unwrap_err().message(),
        "GPU executor requires block_count * max_active_per_block <= 1024; got 1088"
    );
    model.config.model.block_count = 2;
    model.config.model.max_active_per_block = 4;
    model.recurrent.delay[0] = 3;
    assert_eq!(
        validate_gpu_shape(&model).unwrap_err().message(),
        "GPU executor requires recurrent delays to be one of 1, 2, 4, or 8"
    );
}

#[test]
fn the_device_configuration_mirrors_the_model() {
    let model = new_model(small_config());
    let config = CudaConfig::from_model(&model).unwrap();
    assert_eq!(config.neuron_count, 16);
    assert_eq!(config.synapses_per_neuron, 3);
}

#[test]
fn grids_follow_the_device() {
    assert_eq!(cooperative_grid_capacity(true, 10, 4), 40);
    assert_eq!(cooperative_grid_capacity(false, 10, 4), 0);
    let limits = limits();
    assert_eq!(limits.fused_blocks_256, 40);
    assert_eq!(limits.replay_fast_grid_blocks, 30);
    assert_eq!(launch_grid(0, 256), None);
    assert_eq!(launch_grid(257, 256), Some(2));
    assert!(check_cooperative_launch(0, 256).is_err());
    assert!(check_cooperative_launch(2, 256).is_ok());
}

#[test]
fn buffers_are_cut_grown_and_cleared() {
    let buffer = DeviceBuffer { pointer: 1000, bytes: 64 };
    let part = device_sub_buffer(buffer, 4, 8, 4).unwrap();
    assert_eq!((part.pointer, part.bytes), (1016, 32));
    assert_eq!(
        device_sub_buffer(buffer, 12, 8, 4).unwrap_err().message(),
        "CUDA snapshot device sub-buffer exceeds allocated capacity"
    );
    assert!(allocation_bytes(0, 4) > 0);
    assert_eq!(allocation_bytes(10, 4), 40);
    assert_eq!(grown_capacity(10, 4, 40), None);
    assert!(grown_capacity(11, 4, 40).unwrap() >= 44);
    assert!(matches!(clearing_of(buffer), Clearing::Words(16)));
    assert!(matches!(clearing_of(DeviceBuffer { pointer: 1, bytes: 3 }), Clearing::Bytes(3)));
    assert_eq!(check_transfer(Transfer::Upload, 4, 4, 16).unwrap(), 16);
    assert_eq!(
        check_transfer(Transfer::Download, 5, 4, 16).unwrap_err().message(),
        "CUDA download of 20 bytes exceeds buffer capacity 16"
    );
}

#[test]
fn every_buffer_is_listed_once() {
    let all = device_buffers();
    assert_eq!(all.len(), BUFFER_COUNT);
    for (place, kind) in all.iter().enumerate() {
        assert!(!all[place + 1..].contains(kind));
    }
    assert_eq!(buffers_of(BufferUse::LaneRefreshed).len(), 9);
    assert_eq!(buffers_of(BufferUse::UploadCleared).len(), 28);
    assert_eq!(buffers_of(BufferUse::LaneCleared).len(), 67);
    assert_eq!(buffers_of(BufferUse::DeltaTable).len(), 23);
    let model = new_model(small_config());
    let layout = ExchangeLayout {
        config_bytes: 100,
        counters_bytes: 64,
        training_record_bytes: 80,
        device_step_bytes: 16,
        persistent_pointers: 90,
        delta_pointers: 23,
    };
    let sizes = BufferSizes::for_model(&model, &alphabet(), layout);
    assert_eq!(BufferKind::Learned(LearnedBuffer::Threshold).bytes(&sizes), 64);
    assert_eq!(BufferKind::Learned(LearnedBuffer::RecurrentWeight).bytes(&sizes), 16 * 3 * 4);
    assert!(format!("{:?}", host_sizes()).len() > 2);
}

#[test]
fn stories_become_chains_of_steps() {
    let steps = story_steps(&alphabet(), &b"AB".to_vec());
    assert_eq!(
        steps,
        vec![(BEGIN_DOCUMENT, Some(65)), (65, Some(66)), (66, Some(END_DOCUMENT))]
    );
    assert!(story_steps(&alphabet(), &Vec::new()).is_empty());
    assert!(admit_story_batch(2, 2).is_ok());
    assert_eq!(
        admit_story_batch(2, 3).unwrap_err().message(),
        "GPU shared story batch lane count 2 does not match story count 3"
    );
    assert_eq!(
        admit_story_batch(0, 0).unwrap_err().message(),
        "GPU shared story batch cannot be empty"
    );
    assert_eq!(
        admit_story_batch(129, 129).unwrap_err().message(),
        "GPU shared story batch supports at most 128 lanes; got 129"
    );
}

#[test]
fn steps_are_checked_and_noted() {
    let setting = StepSetting::of(&small_config(), Permission::Training);
    let steps = vec![
        (BEGIN_DOCUMENT, Some(65)),
        (65, None),
        (66, Some(END_DOCUMENT)),
    ];
    let chunk = prepare_chunk(&alphabet(), &setting, 0, &steps, 0, 3).unwrap();
    assert_eq!(chunk.learned_steps, 2);
    assert!(chunk.context_learning);
    assert_eq!(chunk.device_steps[0].target_index, 65);
    assert_eq!(chunk.device_steps[1].target_index, -1);
    assert_eq!(chunk.device_steps[2].target_index, 256);
    assert!(matches!(chunk.device_steps[2].supervision, Supervision::EndDocument));
    let broken = vec![(END_DOCUMENT, None)];
    assert!(prepare_chunk(&alphabet(), &setting, 0, &broken, 0, 1).is_err());
    assert_eq!(chunk_end(0, 5000), 4096);
    assert_eq!(chunk_end(4096, 5000), 5000);
    let runs = split_runs(&steps);
    let bounds: Vec<(usize, usize, bool)> =
        runs.iter().map(|run| (run.start, run.end, run.supervised)).collect();
    assert_eq!(bounds, vec![(0, 1, true), (1, 2, false), (2, 3, true)]);
}

#[test]
fn batches_run_chunk_by_chunk_to_their_end() {
    let setting = StepSetting::of(&small_config(), Permission::Training);
    let stories = vec![b"AB".to_vec(), vec![b'x'; 5000]];
    let mut batch = StoryBatch::open(&alphabet(), setting, &stories);
    assert_eq!(batch.work_units(), 3 + 5001);
    let first = batch.open_chunk(&alphabet()).unwrap().unwrap();
    assert_eq!(first.step_counts, vec![3, 4096]);
    assert_eq!(first.max_steps, 4096);
    assert!(!batch.is_done());
    let second = batch.open_chunk(&alphabet()).unwrap().unwrap();
    assert_eq!(second.step_counts, vec![0, 905]);
    assert!(batch.is_done());
    assert!(batch.open_chunk(&alphabet()).unwrap().is_none());
    let groups = lane_groups(5, 2);
    let bounds: Vec<(usize, usize)> = groups.iter().map(|g| (g.start, g.count)).collect();
    assert_eq!(bounds, vec![(0, 2), (2, 2), (4, 1)]);
}

#[test]
fn changes_of_a_batch_are_merged() {
    assert!(matches!(merge_path(true, true), MergePath::Retain));
    assert!(matches!(merge_path(false, true), MergePath::Device));
    assert!(matches!(merge_path(false, false), MergePath::Host));
    assert!(lane_needs_repair(LANE_REVISION_IN_FLIGHT, 4));
    assert!(!lane_needs_repair(4, 4));
    let mut fixed = ParameterChanges::default();
    fixed.threshold = vec![1, 2];
    fixed.output_neurons = vec![3];
    fixed.output_bias_dirty = true;
    assert_eq!(count_device_updates(&fixed, 257, 1028), 2 + 257 + 257);
    let mut context = ParameterChanges::default();
    context.context_slots = vec![9];
    context.context_output_dirty = true;
    let both = combine_parameter_changes(fixed, context);
    assert_eq!(both.threshold, vec![1, 2]);
    assert_eq!(both.context_slots, vec![9]);
    assert!(both.output_bias_dirty && both.context_output_dirty);
}

#[test]
fn snapshots_lay_their_lanes_side_by_side() {
    let shape = SnapshotShape { output_classes: 257, embedding_dim: 4, context_outputs: 1028 };
    let counts = vec![2, 1, 0, 1, 3, 0, 4, 0, 0, 0];
    let plan = plan_snapshot(
        SnapshotKind::Full,
        2,
        &counts,
        &vec![true, false],
        &vec![false, false],
        &shape,
    );
    assert_eq!(plan.lanes[0].recurrent_indices.offset, 2);
    assert_eq!(plan.lanes[0].context_keys.len, 3);
    assert_eq!(plan.lanes[0].output_values.len, 257);
    assert_eq!(plan.lanes[0].output_bias.unwrap().len, 257);
    assert!(plan.lanes[1].output_bias.is_none());
    assert_eq!(plan.lanes[1].recurrent_indices.offset, 2 + 1 + 0 + 1 + 3 + 3);
    assert_eq!(plan.totals.keys, 3);
    assert_eq!(plan.totals.words, 10 + 4);
    assert_eq!(plan.totals.values, 2 + 1 + 257 + 12 + 257 + 4);
}

#[test]
fn wavefronts_fit_the_device() {
    let plan = CudaExecutionPlan {
        physical_lane_chunk: 8,
        sparse_apply_blocks: 20,
        sparse_apply_threads: 256,
        fused_wavefront_blocks: 100,
        fused_wavefront_threads: 256,
    };
    let pointers =
        BatchPointers { pointer_tables: 1000, step_buffers: 2000, step_counts: 3000, base_ticks: 4000 };
    let wave = WavefrontStep {
        lane_start: 2,
        lane_count: 3,
        step_index: 7,
        model_blocks: 4,
        learning_trace: true,
        phase_profile: false,
    };
    let planned = plan_wavefront(&limits(), &plan, &pointers, &wave).unwrap();
    assert_eq!(planned.lane_count, 3);
    assert_eq!(planned.pointers.pointer_tables, 1016);
    assert_eq!(planned.pointers.step_counts, 3008);
    match planned.kind {
        WavefrontLaunchKind::Fused { grid_blocks, .. } => assert!(grid_blocks <= 40),
        WavefrontLaunchKind::Direct { .. } => panic!("a cooperative device takes the fused kernel"),
    }
    let mut single_blocks = plan;
    single_blocks.fused_wavefront_blocks = 0;
    let direct = plan_wavefront(&limits(), &single_blocks, &pointers, &wave).unwrap();
    assert!(matches!(direct.launches[0].kernel, WavefrontKernel::Pre));
    match direct.kind {
        WavefrontLaunchKind::Direct { phase_launches } => {
            assert_eq!(phase_launches as usize, direct.launches.len())
        }
        WavefrontLaunchKind::Fused { .. } => panic!("no fused blocks were planned"),
    }
    assert!(direct.outcome.is_ok());
    let wide_wave = WavefrontStep { model_blocks: u32::MAX, ..wave };
    let broken = plan_wavefront(&limits(), &single_blocks, &pointers, &wide_wave).unwrap();
    assert_eq!(broken.launches.len(), 1);
    assert!(matches!(broken.launches[0].kernel, WavefrontKernel::Pre));
    assert_eq!(broken.outcome.unwrap_err().message(), "GPU shared select grid overflow");
    let stretch = PersistentStretch {
        lane_start: 0,
        lane_count: 3,
        max_step_count: 9,
        model_blocks: 4,
        grouping: false,
    };
    let persistent = plan_persistent_wavefront(&limits(), &plan, &pointers, &stretch).unwrap();
    assert!(persistent.launch.grid_blocks >= 1 && persistent.launch.grid_blocks <= 30);
    assert!(!persistent.launch.grouped);
}

fn fresh_state() -> DeviceState {
    DeviceState {
        current_tick: 5,
        parameter_revision: 0,
        statistics: TrainingStatistics::default(),
        output_bias_dirty: false,
        context_output_dirty: false,
        document_activity: false,
        lists_swapped: false,
    }
}

#[test]
fn replay_chooses_its_kernels() {
    let options = ReplayOptions {
        replay_cooperative_enabled: true,
        full_step_metrics: false,
        replay_grid_override: None,
        frozen_grid_override: None,
        profile: CudaReplayProfileOptions { target_stride: Some(4), prefix_stride: None },
    };
    assert!(options.is_cooperative(&limits(), true));
    let launch = options.training_launch(&limits(), true, 2, 1);
    assert_eq!(launch.grid_blocks, 2);
    assert_eq!(launch.kernel.name(), "leo_train_cooperative_fast");
    assert!(options.training_launch(&limits(), true, 2, 8).profile_requested);
    assert!(is_sampled(Some(4), 8));
    assert!(!is_sampled(Some(4), 9));
    assert!(!is_sampled(None, 8));
    let setting = StepSetting::of(&small_config(), Permission::Training);
    let run = ReplayRun::new(ReplayMode::Training, setting);
    let steps = vec![(BEGIN_DOCUMENT, Some(65)), (65, Some(END_DOCUMENT))];
    let chunk = run.open_chunk(&alphabet(), &steps, &fresh_state()).unwrap().unwrap();
    assert_eq!((chunk.start, chunk.end, chunk.base_tick), (0, 2, 5));
    let nothing: Vec<(u32, Option<u32>)> = Vec::new();
    assert!(run.open_chunk(&alphabet(), &nothing, &fresh_state()).unwrap().is_none());
}

#[test]
fn frozen_steps_launch_no_learning() {
    let model = new_model(small_config());
    let kernels = |permission: Permission| -> Vec<StepKernel> {
        let setting = StepSetting::of(&model.config, permission);
        let step = SingleStep::plan(&alphabet(), &setting, 0, 65, Some(66)).unwrap();
        launch_step(&model, &alphabet(), &step, None)
            .unwrap()
            .iter()
            .filter_map(|action| match action {
                DeviceAction::Launch { kernel, .. } => Some(*kernel),
                _ => None,
            })
            .collect()
    };
    assert!(!kernels(Permission::Frozen).contains(&StepKernel::Homeostasis));
    assert!(kernels(Permission::Training).contains(&StepKernel::Homeostasis));
    assert!(kernels(Permission::Training).len() > kernels(Permission::Frozen).len());
    let reset = reset_transient_state(&model).unwrap();
    let cleared = buffers_of(BufferUse::DocumentCleared).len();
    assert_eq!(reset.len(), cleared + 1);
    let setting = StepSetting::of(&model.config, Permission::Training);
    assert!(SingleStep::plan(&alphabet(), &setting, 0, END_DOCUMENT, None).is_err());
}

#[test]
fn recordings_are_kept_for_their_grid() {
    let mut recording = LaunchRecording::new();
    let (action, grid, destroy) = recording.open(0, 16, true);
    assert!(matches!(action, RecordingAction::Record));
    assert_eq!(grid, (1, 32));
    assert!(!destroy);
    assert!(matches!(recording.close(grid, false, true), RecordingAction::Direct));
    let (action, grid, destroy) = recording.open(1, 32, true);
    assert!(matches!(action, RecordingAction::Record));
    assert!(!destroy);
    assert!(matches!(recording.close(grid, true, true), RecordingAction::Replay));
    let (action, _, destroy) = recording.open(1, 32, true);
    assert!(matches!(action, RecordingAction::Replay));
    assert!(!destroy);
    let (action, _, destroy) = recording.open(3, 32, true);
    assert!(matches!(action, RecordingAction::Record));
    assert!(destroy);
    assert!(matches!(recording.close((3, 32), true, false), RecordingAction::Direct));
    let (action, _, destroy) = recording.open(3, 32, false);
    assert!(matches!(action, RecordingAction::Record));
    assert!(destroy);
}

#[test]
fn kept_kernels_need_their_digest() {
    assert_eq!(StepKernel::DeliverEvents.entry_name(), "leo_deliver_events");
    assert!(kernel_source("a", "b").contains('a'));
    assert!(kept_kernels_usable(&vec![1], "d", "d"));
    assert!(!kept_kernels_usable(&vec![1], "d", "e"));
    assert!(!kept_kernels_usable(&Vec::new(), "d", "d"));
}

#[test]
fn switches_read_the_environment() {
    assert!(env_flag(Some(" YES ")));
    assert!(!env_flag(None));
    assert!(!env_flag(Some("0")));
    assert!(env_switch(None));
    assert!(!env_switch(Some("off")));
    assert_eq!(env_positive_u64(Some("12"), 3), 12);
    assert_eq!(env_positive_u64(Some("0"), 3), 3);
    assert_eq!(env_positive_u64(Some("x"), 3), 3);
    assert_eq!(env_positive_u32_opt(Some("7")), Some(7));
    assert_eq!(env_positive_u32_opt(Some("4294967296")), None);
    assert_eq!(requested_device(Some("3")), 3);
    assert_eq!(requested_device(None), 0);
    let debug = CudaDebugOptions::from_env(Some("1"), None, None, None, None, None, None);
    assert!(debug.summary && debug.memory && !debug.chunks);
    assert!(!debug.reports_chunks());
    let profile = CudaReplayProfileOptions::from_env(None, Some("5"), Some("on"), None);
    assert_eq!((profile.target_stride, profile.prefix_stride), (Some(5), None));
    assert_eq!(cuda_phase_profile_sample_stride(Some("true"), None), Some(64));
    assert_eq!(cuda_phase_profile_sample_stride(None, Some("3")), None);
}

fn sample(h2d: f32, compute: f32, d2h: f32, wait: f32) -> CudaBatchTelemetry {
    CudaBatchTelemetry {
        h2d_ms: s(h2d),
        compute_ms: s(compute),
        d2h_ms: s(d2h),
        host_wait_ms: s(wait),
        h2d_bytes: 10,
        d2h_bytes: u64::MAX,
        theoretical_occupancy: s(0.5),
        fused_launches: 1,
        direct_phase_launches: 2,
        graph_launches: 3,
    }
}

#[test]
fn telemetry_names_the_bottleneck_and_adds_up() {
    let ops = single();
    let longest = |t: CudaBatchTelemetry| t.dominant_host_visible_bottleneck();
    assert_eq!(longest(sample(1.0, 3.0, 2.0, 0.0)), BatchPhase::Compute);
    assert_eq!(longest(sample(3.0, 3.0, 2.0, 0.0)), BatchPhase::Compute);
    assert_eq!(longest(sample(0.0, 0.0, 0.0, 0.0)), BatchPhase::HostWait);
    assert_eq!(longest(sample(9.0, 3.0, 2.0, 0.0)).name(), "h2d");
    let mut totals = TelemetryAggregate::new();
    totals.add(&ops, &sample(1.0, 3.0, 2.0, 0.0));
    totals.add(&ops, &sample(1.0, 3.0, 2.0, 0.0));
    assert_eq!(totals.samples, 2);
    assert_eq!(totals.d2h_bytes, u64::MAX);
    assert_eq!(f64::from_bits(totals.compute_ms.bits), 6.0);
    let mean = totals
        .mean_occupancy(&|(sum, n): (WideScalar, u32)| wide(f64::from_bits(sum.bits) / n as f64));
    assert_eq!(f64::from_bits(mean.bits), 0.5);
    let rate = |(bytes, ms): (u64, Scalar)| wide(bytes as f64 / f(ms) as f64);
    assert_eq!(gib_per_second(0, s(1.0), &rate).bits, 0);
    assert_eq!(gib_per_second(8, s(0.0), &rate).bits, 0);
    assert_eq!(f64::from_bits(gib_per_second(8, s(2.0), &rate).bits), 4.0);
}

#[test]
fn profiles_are_summed_up_and_filed() {
    let summary = summarize_profile(&vec![3, 10, 20, 99], 3);
    assert_eq!((summary.samples, summary.total_cycles), (3, 30));
    assert_eq!(summarize_profile(&vec![1, u64::MAX, 5], 3).total_cycles, u64::MAX);
    assert_eq!(skip_reason(1, 1, 1), None);
    assert_eq!(skip_reason(0, 1, 1), Some("profiled_kernel_cannot_match_production_grid"));
    assert_eq!(skip_reason(0, 0, 0), Some("no_fused_wavefront_launches"));
    assert_eq!(skip_reason(0, 0, 1), Some("no_sampled_fused_wavefront_launches"));
    assert_eq!(profile_file("key", 64), "key-lanes64.toml");
    assert_eq!(cache_base(true, true, true), CacheBase::Own);
    assert_eq!(cache_base(false, true, true), CacheBase::Shared);
    assert_eq!(cache_base(false, false, true), CacheBase::Home);
    assert_eq!(cache_base(false, false, false), CacheBase::Nowhere);
}

#[test]
fn devices_without_a_persistent_grid_step_one_by_one() {
    let mut device = limits();
    assert_eq!(device.persistent_grid_blocks, 1);
    assert_eq!(training_path(&device), TrainingPath::Persistent);
    device.persistent_grid_blocks = 0;
    assert_eq!(training_path(&device), TrainingPath::StepByStep);
}

#[test]
fn buffers_are_listed_as_they_are_allocated() {
    let all = device_buffers();
    assert_eq!(all[0], BufferKind::Config);
    assert_eq!(all[1], BufferKind::Learned(LearnedBuffer::Threshold));
    assert_eq!(all[7], BufferKind::Learned(LearnedBuffer::RecurrentWeight));
    assert_eq!(all[13], BufferKind::Learned(LearnedBuffer::ContextKeys));
}

#[test]
fn wavefronts_of_a_batch_are_numbered_on() {
    let setting = StepSetting::of(&small_config(), Permission::Training);
    let mut batch = StoryBatch::open(&alphabet(), setting, &vec![b"AB".to_vec(); 3]);
    let waves = batch.schedule_wavefronts(&lane_groups(3, 2), 2, Some(3), 6);
    let seen: Vec<(usize, usize, usize, bool)> = waves
        .iter()
        .map(|w| (w.step_index, w.lane_start, w.lane_count, w.phase_profile))
        .collect();
    assert_eq!(
        seen,
        vec![(0, 0, 2, true), (0, 2, 1, false), (1, 0, 2, false), (1, 2, 1, true)]
    );
    assert_eq!(batch.telemetry.phase_sequence, 4);
    batch.telemetry.record_persistent();
    batch.telemetry.record_transfers(100, 7);
    batch.telemetry.record_transfers(1, u64::MAX);
    assert_eq!(batch.telemetry.fused_launches, 1);
    assert_eq!((batch.telemetry.h2d_bytes, batch.telemetry.d2h_bytes), (101, u64::MAX));
}

#[test]
fn many_steps_in_one_launch_need_all_that_they_rest_on() {
    let plan = CudaExecutionPlan {
        physical_lane_chunk: 8,
        sparse_apply_blocks: 20,
        sparse_apply_threads: 256,
        fused_wavefront_blocks: 100,
        fused_wavefront_threads: 256,
    };
    let device = limits();
    assert!(uses_persistent_shared(true, true, false, None, &device, &plan));
    assert!(!uses_persistent_shared(false, true, false, None, &device, &plan));
    assert!(!uses_persistent_shared(true, false, false, None, &device, &plan));
    assert!(!uses_persistent_shared(true, true, true, None, &device, &plan));
    assert!(!uses_persistent_shared(true, true, false, Some(4), &device, &plan));
    let other = CudaExecutionPlan { fused_wavefront_threads: 128, ..plan };
    assert!(!uses_persistent_shared(true, true, false, None, &device, &other));
}
