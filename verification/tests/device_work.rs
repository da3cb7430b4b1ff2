//! What comes back from a GPU, and what is made of it.

use leo_core::arithmetic::{Numerics, Operations};
use leo_core::assembly::{DrawnParts, ModelSizes};
use leo_core::backend::{
    available_gpu_devices, BackendCapabilities, BackendKind,
};
use leo_core::buffers::{
    lane_host_sizes, lane_source, BufferKind, ChangedTensor, ExchangeLayout, GatherBuffer,
    LearnedBuffer, ListPart, PointerSource, TopologyBuffer,
};
use leo_core::config::Config;
use leo_core::cuda_plan::{CudaExecutionTuner, CudaProfile, CudaTuningLimits, Observation};
use leo_core::device::{
    check_device_copy, check_pinned_transfer, device_pointer_offset, fixed_merge_work, reset_work,
    DeviceBuffer,
};
use leo_core::error::LeoError;
use leo_core::fallback::{FallbackAction, FallbackRun};
use leo_core::gather::{
    gather_source, plan_downloads, plan_forgetting, plan_gathers, GatherAction, GatherStage,
    LaneAction, PackedBuffer, PackedDownload,
};
use leo_core::host_sync::{
    accumulate_parameter_changes, restart_tracking, sync_changed_model_to_host,
};
use leo_core::host_view::{
    begin_document, collect_step_metrics, finish_document, HostActivity, StepCounters, StepReading,
};
use leo_core::initialize::{
    mark_inhibitory, DrawRequest, InputBuilder, NetworkShape, RecurrentBuilder,
};
use leo_core::kernel_cache::{execution_profile_material, kernel_cache_material, HardwareIdentity};
use leo_core::metrics::{TrainingStatistics, WideScalar};
use leo_core::model::Model;
use leo_core::options::CudaReplayProfileOptions;
use leo_core::parallel::{ConfigFingerprint, MergeMetrics, SparseModelDelta, StatisticsDelta};
use leo_core::permission::Permission;
use leo_core::records::{
    fast_training_record_to_metrics, training_record_to_metrics, DeviceState,
    FastTrainingStepRecord, RecordShape, StepRecord, TrainingStepRecord,
};
use leo_core::replay::{ReplayMode, ReplayOptions, ReplayRun};
use leo_core::runtime::{ChangeTracker, ParameterChanges};
use leo_core::scalar::Scalar;
use leo_core::scatter::{
    finish_update, plan_scatters, DeviceMirror, PackedShape, PackedSizes, ScatterAction,
    ScatterTarget,
};
use leo_core::snapshot::{
    check_metadata, plan_snapshot, unpack_snapshot, SnapshotCursors, SnapshotKind, SnapshotShape,
    TrackedModelValues,
};
use leo_core::steps::{prepare_advance, refuse_targets, StepNote, StepSetting};
use leo_core::story_batch::{
    batch_report, group_max_steps, record_bytes, LaneGroup, MergePath, StoryBatch,
};
use leo_core::symbols::Alphabet;

const BEGIN_DOCUMENT: u32 = 256;
const END_DOCUMENT: u32 = 257;

fn s(value: f32) -> Scalar {
    Scalar { bits: value.to_bits() }
}

fn f(value: Scalar) -> f32 {
    f32::from_bits(value.bits)
}

fn wide(value: f64) -> WideScalar {
    WideScalar { bits: value.to_bits() }
}

fn g(value: WideScalar) -> f64 {
    f64::from_bits(value.bits)
}

fn single() -> impl Numerics {
    Operations {
        plus: |(a, b): (Scalar, Scalar)| s(f(a) + f(b)),
        minus: |(a, b): (Scalar, Scalar)| s(f(a) - f(b)),
        times: |(a, b): (Scalar, Scalar)| s(f(a) * f(b)),
        over: |(a, b): (Scalar, Scalar)| s(f(a) / f(b)),
        raised: |(a, n): (Scalar, u32)| s(f(a).powi(n as i32)),
        exp: |a: Scalar| s(f(a).exp()),
        ln: |a: Scalar| s(f(a).ln()),
        of_count: |n: u64| s(n as f32),
        wide_plus: |(sum, a): (WideScalar, Scalar)| wide(g(sum) + f(a) as f64),
        wide_over: |(sum, n): (WideScalar, u64)| s((g(sum) / n as f64) as f32),
        up: |a: Scalar| f(a).ceil() as usize,
        wide_add: |(a, b): (WideScalar, WideScalar)| wide(g(a) + g(b)),
        wide_minus: |(a, b): (WideScalar, WideScalar)| wide(g(a) - g(b)),
        wide_divide: |(a, b): (WideScalar, WideScalar)| wide(g(a) / g(b)),
        wide_count: |n: u64| wide(n as f64),
        consolidate: |(phase, _ends): (usize, bool)| (Scalar::one(), phase),
    }
}

fn alphabet() -> Alphabet {
    let mut input: Vec<bool> = vec![true; 258];
    input[END_DOCUMENT as usize] = false;
    let mut class_of: Vec<Option<usize>> = Vec::new();
    let mut symbol_of: Vec<u32> = Vec::new();
    for symbol in 0..258u32 {
        if symbol == BEGIN_DOCUMENT {
            class_of.push(None);
        } else {
            class_of.push(Some(symbol_of.len()));
            symbol_of.push(symbol);
        }
    }
    Alphabet {
        input,
        class_of,
        symbol_of,
        output_classes: 257,
        begin_document: BEGIN_DOCUMENT,
        end_document: END_DOCUMENT,
        end_document_class: 256,
    }
}

struct Generator(u64);

impl Generator {
    fn next(&mut self) -> u64 {
        self.0 = self.0.wrapping_add(0x9e37_79b9_7f4a_7c15);
        let mut z = self.0;
        z = (z ^ (z >> 30)).wrapping_mul(0xbf58_476d_1ce4_e5b9);
        z = (z ^ (z >> 27)).wrapping_mul(0x94d0_49bb_1331_11eb);
        z ^ (z >> 31)
    }

    fn below(&mut self, bound: usize) -> usize {
        (self.next() % bound as u64) as usize
    }

    fn between(&mut self, low: f32, high: f32) -> f32 {
        low + (high - low) * ((self.next() >> 40) as f32 / 16_777_216.0)
    }

    fn list(&mut self, count: usize, low: f32, high: f32) -> Vec<Scalar> {
        (0..count).map(|_| s(self.between(low, high))).collect()
    }
}

fn drawn_parts(config: &Config, alphabet: &Alphabet) -> DrawnParts {
    let sizes = ModelSizes::plan(config, alphabet, &single()).unwrap();
    let mut random = Generator(config.model.seed);
    let neurons = config.model.neuron_count;
    let mut neuron_type = vec![0u8; neurons];
    let mut ids: Vec<usize> = (0..neurons).collect();
    for place in (1..neurons).rev() {
        ids.swap(place, random.below(place + 1));
    }
    let inhibitory = ((1.0 - f(config.model.excitatory_fraction)) * neurons as f32).round();
    mark_inhibitory(&mut neuron_type, &ids, inhibitory as usize);
    let threshold = random.list(neurons, 0.45, 0.55);
    let shape = NetworkShape {
        neuron_count: neurons,
        block_count: config.model.block_count,
        neurons_per_block: config.model.neurons_per_block,
        synapses_per_neuron: config.model.synapses_per_neuron,
    };
    let mut recurrent = RecurrentBuilder::new(shape, neuron_type);
    loop {
        match recurrent.request() {
            DrawRequest::Nothing => break,
            DrawRequest::Neighbour => recurrent.supply(random.below(3)).unwrap(),
            DrawRequest::WithinBlock(size) => recurrent.supply(random.below(size)).unwrap(),
            DrawRequest::Anywhere(count) => recurrent.supply(random.below(count)).unwrap(),
            DrawRequest::Branch => recurrent.supply(random.below(3)).unwrap(),
            DrawRequest::Delay => recurrent.supply(random.below(100)).unwrap(),
            DrawRequest::Weight(false) => recurrent.supply_weight(s(random.between(0.01, 0.08))),
            DrawRequest::Weight(true) => recurrent.supply_weight(s(random.between(-0.08, -0.01))),
        }
    }
    let mut input =
        InputBuilder::new(alphabet.symbol_count(), config.model.input_fanout, neurons).unwrap();
    loop {
        match input.request() {
            DrawRequest::Nothing => break,
            DrawRequest::Weight(_) => input.supply_weight(s(random.between(0.05, 0.20))),
            _ => input.supply(random.below(neurons)),
        }
    }
    DrawnParts {
        recurrent,
        input,
        threshold,
        output_weights: random.list(sizes.output_weights, -0.005, 0.005),
        context_output_weights: random.list(sizes.context_output_weights, -0.005, 0.005),
    }
}

fn new_model(config: Config) -> Model {
    let alphabet = alphabet();
    let parts = drawn_parts(&config, &alphabet);
    Model::initialize(config, &alphabet, &single(), parts).unwrap()
}

fn small_config() -> Config {
    let mut config = Config::default();
    config.model.neuron_count = 16;
    config.model.block_count = 2;
    config.model.neurons_per_block = 8;
    config.model.synapses_per_neuron = 3;
    config.model.input_fanout = 2;
    config.model.max_active_per_block = 4;
    config.model.max_active_global = 8;
    config.context.max_order = 2;
    config.context.embedding_dim = 4;
    config.context.slots_per_order = 16;
    config.context.probe_limit = 4;
    config.context.dropout_rate = s(0.0);
    config
}

fn subtract(a: Scalar, b: Scalar) -> Scalar {
    s(f(a) - f(b))
}

fn divide(a: Scalar, n: u32) -> Scalar {
    s(f(a) / n as f32)
}

fn raise(sum: WideScalar, a: Scalar) -> WideScalar {
    wide(g(sum) + f(a) as f64)
}

fn fresh_state() -> DeviceState {
    DeviceState {
        current_tick: 5,
        parameter_revision: 7,
        statistics: TrainingStatistics::default(),
        output_bias_dirty: false,
        context_output_dirty: false,
        document_activity: false,
        lists_swapped: false,
    }
}

fn record(error_code: u32) -> TrainingStepRecord {
    TrainingStepRecord {
        loss: s(1.0),
        neural_loss: s(1.5),
        population_inhibition: s(0.25),
        learning_eligibility_abs_sum: s(6.0),
        predicted_index: 256,
        active_count: 3,
        suprathreshold: 5,
        block_selected: 4,
        global_clipped: 1,
        context_cells: 2,
        context_probes: 6,
        eligible_recurrent: 8,
        eligible_input: 9,
        learning_eligibility_count: 4,
        error_code,
    }
}

const SHAPE: RecordShape = RecordShape { embedding_dim: 4, synapses_per_neuron: 3 };

#[test]
fn availability_follows_the_driver() {
    let none: Result<usize, LeoError> = Err(LeoError::cuda("no driver".to_owned()));
    assert!(BackendKind::Cpu.is_available(&none));
    assert!(!BackendKind::Gpu.is_available(&none));
    assert!(BackendKind::Gpu.is_available(&Ok(1)));
    assert!(!BackendCapabilities::gpu(&none).available);
    assert_eq!(BackendCapabilities::gpu(&Ok(1)), BackendCapabilities::active_gpu());
    assert_eq!(available_gpu_devices(Ok(2)).unwrap(), 2);
    assert_eq!(
        available_gpu_devices(Ok(0)).unwrap_err().message(),
        "CUDA driver reported no GPU devices"
    );
}

#[test]
fn copies_must_fit_both_sides() {
    assert_eq!(check_pinned_transfer(true, 4, 4, 16, 16).unwrap(), 16);
    assert_eq!(
        check_pinned_transfer(true, 5, 4, 16, 32).unwrap_err().message(),
        "CUDA pinned upload of 20 bytes exceeds capacity device=16 host=32"
    );
    assert_eq!(
        check_pinned_transfer(false, 5, 4, 32, 16).unwrap_err().message(),
        "CUDA pinned download of 20 bytes exceeds capacity device=32 host=16"
    );
    let buffer = |bytes: usize| DeviceBuffer { pointer: 1, bytes };
    assert_eq!(check_device_copy(buffer(8), buffer(8)).unwrap(), 8);
    assert_eq!(
        check_device_copy(buffer(8), buffer(9)).unwrap_err().message(),
        "CUDA device copy size mismatch target=8 source=9"
    );
    assert_eq!(device_pointer_offset(10, 5).unwrap(), 15);
    assert!(device_pointer_offset(u64::MAX, 1).is_err());
}

#[test]
fn launches_cover_the_largest_tensor() {
    let model = new_model(small_config());
    assert_eq!(reset_work(&model), 258 * 2);
    assert_eq!(fixed_merge_work(&model, &alphabet()), 257 * 4);
}

#[test]
fn identities_name_device_code_and_shape() {
    let hardware = HardwareIdentity {
        device_ordinal: 1,
        name: "card".to_owned(),
        uuid: "u".to_owned(),
        pci_bus_id: "p".to_owned(),
        total_memory_bytes: 1024,
        driver_version: 12,
        compute_major: 8,
        compute_minor: 6,
        multiprocessor_count: 10,
        max_threads_per_sm: 1024,
    };
    let model = new_model(small_config());
    let text = execution_profile_material(&model, &hardware, "digest");
    assert!(text.contains("card"));
    assert!(text.contains("digest"));
    assert!(text.ends_with("|n=16|blocks=2|npb=8|rec=48|input=516|ctx=32|ctxdim=4"));
    assert_eq!(
        kernel_cache_material(8, 6, 12, 4, "h", "s"),
        "leo-ptx-v1|cc=8.6|nvrtc=12.4|abi=1|semantics=1|std=c++11|header=h|source=s"
    );
}

#[test]
fn lanes_reach_their_own_parameters() {
    assert_eq!(
        lane_source(BufferKind::Learned(LearnedBuffer::Threshold)),
        Some(PointerSource::Lane)
    );
    assert_eq!(
        lane_source(BufferKind::Topology(TopologyBuffer::RecurrentTarget)),
        Some(PointerSource::Canonical)
    );
    let layout = ExchangeLayout {
        config_bytes: 1,
        counters_bytes: 2,
        training_record_bytes: 60,
        device_step_bytes: 16,
        persistent_pointers: 90,
        delta_pointers: 23,
    };
    assert!(format!("{:?}", lane_host_sizes(&layout)).contains("720"));
}

#[test]
fn records_become_metrics() {
    let note = StepNote {
        symbol: 65,
        target_index: Some(66),
        context_enabled: true,
        learned: true,
    };
    let metrics =
        training_record_to_metrics(&alphabet(), &SHAPE, &record(0), &note, &subtract, &divide);
    assert_eq!(f(metrics.loss.unwrap()), 1.0);
    assert_eq!(metrics.predicted_symbol, END_DOCUMENT);
    assert_eq!(f(metrics.context_loss_gain), 0.5);
    assert_eq!(f(metrics.mean_abs_eligibility), 1.5);
    assert_eq!(metrics.emitted_events, 9);
    let fast = FastTrainingStepRecord { loss: s(2.0), active_count: 4, error_code: 0 };
    let metrics = fast_training_record_to_metrics(&SHAPE, &fast, &note);
    assert_eq!(f(metrics.loss.unwrap()), 2.0);
    assert_eq!(metrics.emitted_events, 12);
    assert_eq!(metrics.predicted_symbol, 0);
    assert_eq!(StepRecord::Fast(fast).error_code(), 0);
}

#[test]
fn single_steps_are_read_or_refused() {
    let mut state = fresh_state();
    let mut probabilities = vec![s(0.0); 257];
    probabilities[66] = s(0.75);
    let reading = StepReading {
        population_inhibition: s(0.0),
        active_count: 2,
        context_count: 1,
        error_flag: 0,
        counters: StepCounters {
            suprathreshold: 3,
            block_selected: 2,
            global_clipped: 0,
            context_probes: 4,
            eligible_recurrent: 5,
            eligible_input: 6,
            learning_eligibility_count: 0,
            learning_eligibility_abs_sum: s(0.0),
        },
    };
    let note =
        StepNote { symbol: 65, target_index: Some(66), context_enabled: false, learned: false };
    let neural_logits = vec![s(0.0); 257];
    let metrics = collect_step_metrics(
        &single(),
        &mut state,
        &alphabet(),
        &SHAPE,
        &probabilities,
        &neural_logits,
        &reading,
        &note,
        &subtract,
        &divide,
    )
    .unwrap();
    assert_eq!(metrics.predicted_symbol, 66);
    let gain = 257f32.ln() + 0.75f32.ln();
    assert!((f(metrics.context_loss_gain) - gain).abs() < 1.0e-4);
    let refused = StepReading { error_flag: 3, ..reading };
    let error = collect_step_metrics(
        &single(),
        &mut state,
        &alphabet(),
        &SHAPE,
        &probabilities,
        &neural_logits,
        &refused,
        &note,
        &subtract,
        &divide,
    )
    .unwrap_err();
    assert_eq!(error.message(), "CUDA learning update rejected a non-finite value (code 3)");
    assert_eq!(state.statistics.numerical_rejections, 1);
}

#[test]
fn documents_on_a_device_count_once() {
    let mut state = fresh_state();
    let mut activity = HostActivity::new(4);
    begin_document(&mut state, &mut activity);
    finish_document(&mut state, &mut activity);
    assert_eq!(state.statistics.processed_stories, 0);
    state.document_activity = true;
    finish_document(&mut state, &mut activity);
    finish_document(&mut state, &mut activity);
    assert_eq!(state.statistics.processed_stories, 1);
}

#[test]
fn replayed_chunks_move_the_device_on() {
    let setting = StepSetting::of(&small_config(), Permission::Training);
    let mut run = ReplayRun::new(ReplayMode::Training, setting);
    let mut state = fresh_state();
    let steps = vec![(BEGIN_DOCUMENT, Some(65)), (65, Some(END_DOCUMENT))];
    let chunk = run.open_chunk(&alphabet(), &steps, &state).unwrap().unwrap();
    let records = vec![StepRecord::Full(record(0)), StepRecord::Full(record(0))];
    run.close_chunk(
        &chunk,
        &mut state,
        &alphabet(),
        &SHAPE,
        &records,
        &subtract,
        &divide,
        &raise,
    )
    .unwrap();
    assert_eq!(run.metrics.len(), 2);
    assert_eq!(run.at, 2);
    assert_eq!(state.current_tick, 7);
    assert_eq!(state.parameter_revision, 9);
    assert_eq!(state.statistics.training_targets, 2);
    assert_eq!(f64::from_bits(state.statistics.training_loss_sum.bits), 2.0);
    let mut failing = ReplayRun::new(ReplayMode::Training, setting);
    let chunk = failing.open_chunk(&alphabet(), &steps, &state).unwrap().unwrap();
    let records = vec![StepRecord::Full(record(0)), StepRecord::Full(record(2))];
    assert!(failing
        .close_chunk(
            &chunk,
            &mut state,
            &alphabet(),
            &SHAPE,
            &records,
            &subtract,
            &divide,
            &raise,
        )
        .is_err());
    assert_eq!(state.statistics.numerical_rejections, 1);
}

#[test]
fn frozen_replay_takes_no_targets() {
    let supervised = vec![(65u32, Some(66u32))];
    assert_eq!(
        refuse_targets(&supervised).unwrap_err().message(),
        "frozen state advance does not accept supervised targets"
    );
    let plain = vec![(65u32, None)];
    refuse_targets(&plain).unwrap();
    let steps = prepare_advance(&alphabet(), &plain, 0, 1).unwrap();
    assert_eq!((steps[0].symbol, steps[0].target_index), (65, -1));
    let options = ReplayOptions {
        replay_cooperative_enabled: true,
        full_step_metrics: true,
        replay_grid_override: Some(1),
        frozen_grid_override: None,
        profile: CudaReplayProfileOptions { target_stride: None, prefix_stride: None },
    };
    let limits = leo_core::device::DeviceLimits::from_query(&leo_core::device::DeviceQuery {
        cooperative_launch: 1,
        multiprocessor_count: 4,
        max_threads_per_sm: 1024,
        fused_128: 1,
        fused_256: 1,
        fused_512: 1,
        shared_persistent_256: 1,
        shared_grouped_256: 1,
        fused_profile_256: 1,
        frozen: 1,
        frozen_profile: 1,
        replay: 1,
        replay_fast: 1,
        replay_profile: 1,
        persistent: 1,
    });
    assert_eq!(options.streaming_launch(&limits, true, 3).grid_blocks, 1);
    let frozen = options.frozen_launch(&limits, 3, 0);
    assert_eq!(frozen.grid_blocks, 3);
    assert!(frozen.cooperative);
    assert_eq!(options.frozen_launch(&limits, 1, 0).grid_blocks, 1);
}

#[test]
fn lanes_are_closed_with_their_records() {
    let setting = StepSetting::of(&small_config(), Permission::Training);
    let mut batch = StoryBatch::open(&alphabet(), setting, &vec![b"A".to_vec()]);
    let chunk = batch.open_chunk(&alphabet()).unwrap().unwrap();
    let mut canonical = TrainingStatistics::default();
    let records = vec![StepRecord::Full(record(0)), StepRecord::Full(record(0))];
    batch
        .close_lane(
            0,
            &chunk.lanes[0].notes,
            &records,
            false,
            &mut canonical,
            &alphabet(),
            &SHAPE,
            &subtract,
            &divide,
            &raise,
        )
        .unwrap();
    assert_eq!(batch.metrics[0].len(), 2);
    let outcome = batch.outcome();
    assert_eq!(outcome.learned_steps, vec![2]);
    assert!(outcome.any_output_bias_dirty);
    assert_eq!(outcome.statistics[0].training_targets, 2);
    assert_eq!(record_bytes(10, false), 600);
    assert_eq!(record_bytes(10, true), 120);
    assert_eq!(group_max_steps(&vec![1, 9, 4], &LaneGroup { start: 0, count: 2 }), 9);
}

#[test]
fn snapshots_are_unpacked_lane_by_lane() {
    let shape = SnapshotShape { output_classes: 2, embedding_dim: 1, context_outputs: 2 };
    let counts = vec![1, 0, 0, 1, 1];
    let plan =
        plan_snapshot(SnapshotKind::Full, 1, &counts, &vec![true], &vec![false], &shape);
    assert_eq!((plan.totals.words, plan.totals.keys, plan.totals.values), (4, 1, 6));
    let words = vec![7, 3, 5, 11];
    let keys = vec![99];
    let values: Vec<Scalar> = [0.5, 0.1, 0.2, 0.3, 0.8, 0.9].iter().map(|v| s(*v)).collect();
    let lanes = unpack_snapshot(
        SnapshotKind::Full,
        &plan,
        &words,
        &keys,
        &values,
        &counts,
        &vec![true],
        &vec![false],
        &shape,
        &vec![4],
        &vec![StatisticsDelta::default()],
    );
    let (changes, held) = &lanes[0];
    assert_eq!(changes.threshold, vec![7]);
    assert_eq!(changes.output_neurons, vec![3]);
    assert_eq!(changes.context_slots, vec![5]);
    assert!(changes.output_bias_dirty);
    assert_eq!(held.context_observations, vec![11]);
    assert_eq!(held.context_keys, vec![99]);
    assert_eq!(held.output_weight_by_neuron, vec![s(0.1), s(0.2)]);
    assert_eq!(held.output_bias.clone().unwrap(), vec![s(0.8), s(0.9)]);
    assert!(held.context_output_weight.is_none());
    assert_eq!(held.revision_increment, 4);
    assert!(check_metadata(SnapshotKind::Full, 1, 1, 1, 1, 1).is_ok());
    assert_eq!(
        check_metadata(SnapshotKind::Full, 1, 2, 1, 1, 1).unwrap_err().message(),
        "batched story snapshot metadata does not match lane count"
    );
    assert_eq!(
        check_metadata(SnapshotKind::ContextOnly, 1, 0, 0, 2, 1).unwrap_err().message(),
        "context-only batch snapshot metadata does not match lane count"
    );
}

#[test]
fn device_changes_reach_the_host_model() {
    let mut model = new_model(small_config());
    let mut tracker = ChangeTracker::disabled();
    let mut state = fresh_state();
    restart_tracking(&mut tracker, &mut state, &model);
    state.output_bias_dirty = true;
    let mut changes = ParameterChanges::default();
    changes.threshold = vec![2];
    changes.output_neurons = vec![1];
    changes.context_slots = vec![0];
    changes.output_bias_dirty = true;
    let held = TrackedModelValues {
        threshold: vec![s(0.75)],
        recurrent_weight: Vec::new(),
        input_weight: Vec::new(),
        output_weight_by_neuron: vec![s(0.125); 257],
        output_bias: Some(vec![s(0.25); 257]),
        context_keys: vec![42],
        context_observations: vec![3],
        context_embeddings: vec![s(0.5); 4],
        context_output_weight: None,
        revision_increment: 0,
        statistics: StatisticsDelta::default(),
    };
    sync_changed_model_to_host(&mut model, &changes, held, 257, &mut tracker, &mut state);
    assert_eq!(f(model.neurons.threshold[2]), 0.75);
    assert_eq!(f(model.output.weights[16 * 5 + 1]), 0.125);
    assert_eq!(f(model.output.bias[256]), 0.25);
    assert_eq!((model.context.keys[0], model.context.observations[0]), (42, 3));
    assert_eq!(tracker.threshold.list, vec![2]);
    assert!(!state.output_bias_dirty);
    accumulate_parameter_changes(&mut tracker, &changes);
    assert_eq!(tracker.threshold.list, vec![2]);
}

#[test]
fn packed_updates_must_match() {
    let good = PackedShape {
        threshold_indices: 0,
        threshold_values: 0,
        recurrent_indices: 0,
        recurrent_values: 0,
        input_indices: 0,
        input_values: 0,
        output_neurons: 2,
        output_values: 514,
        context_slots: 1,
        context_keys: 1,
        context_observations: 1,
        context_embeddings: 4,
        output_bias: Some(257),
        context_output: None,
    };
    let sizes = PackedSizes { output_classes: 257, embedding_dim: 4, context_outputs: 1028 };
    plan_scatters(&good, &sizes, 1).1.unwrap();
    let problem =
        |p: PackedShape| plan_scatters(&p, &sizes, 1).1.unwrap_err().message().to_owned();
    assert_eq!(
        problem(PackedShape { output_values: 1, ..good }),
        "packed output value count does not match changed output rows"
    );
    assert_eq!(
        problem(PackedShape { context_keys: 2, ..good }),
        "packed context rows have invalid dimensions"
    );
    assert_eq!(
        problem(PackedShape { output_bias: Some(1), ..good }),
        "packed output bias has invalid dimensions"
    );
    assert_eq!(
        problem(PackedShape { context_output: Some(1), ..good }),
        "packed context output weights have invalid dimensions"
    );
}

#[test]
fn tuning_keeps_the_fastest_plan() {
    let limits = CudaTuningLimits {
        multiprocessors: 4,
        max_threads_per_sm: 1024,
        max_lanes: 8,
        fused_blocks_128: 8,
        fused_blocks_256: 4,
        fused_blocks_512: 2,
    };
    let ops = single();
    let mut tuner = CudaExecutionTuner::new("key".to_owned(), limits);
    assert!(tuner.should_profile_batch());
    assert_eq!(tuner.observe_batch(0, 1, wide(1.0), None, &ops), Observation::Ignored);
    tuner.plan_for(8, None);
    let count = tuner.candidates.len();
    let favourite = tuner.candidates[1];
    let mut rounds = 0;
    loop {
        let seconds = if tuner.plan == favourite { 1.0 } else { 10.0 };
        rounds += 1;
        assert!(rounds < 1000);
        match tuner.observe_batch(8, 100, wide(seconds), None, &ops) {
            Observation::Tuned(best) => {
                assert_eq!(f64::from_bits(best.bits), 100.0);
                break;
            }
            Observation::Measuring | Observation::NextCandidate => {}
            other => panic!("unexpected {other:?}"),
        }
    }
    assert!(rounds >= count);
    assert_eq!(tuner.plan, favourite);
    assert!(tuner.tuning_complete);
    assert_eq!(
        tuner.observe_batch(8, 100, wide(1.0), None, &ops),
        Observation::AlreadyTuned
    );
    let stored = CudaProfile {
        schema: 3,
        key: "key".to_owned(),
        logical_lanes: 4,
        plan: favourite,
        measured_work_per_second: wide(1.0),
    };
    assert!(tuner.accepts_profile(&stored, 4));
    assert!(!tuner.accepts_profile(&stored, 5));
    let plan = tuner.plan_for(4, Some(stored));
    assert!(plan.physical_lane_chunk <= 4);
    assert!(tuner.tuning_complete);
}

#[test]
fn refused_steps_are_counted_once() {
    let setting = StepSetting::of(&small_config(), Permission::Training);
    let mut batch = StoryBatch::open(&alphabet(), setting, &vec![b"A".to_vec()]);
    let chunk = batch.open_chunk(&alphabet()).unwrap().unwrap();
    let mut canonical = TrainingStatistics::default();
    let records = vec![StepRecord::Full(record(0)), StepRecord::Full(record(1))];
    let error = batch
        .close_lane(
            0,
            &chunk.lanes[0].notes,
            &records,
            false,
            &mut canonical,
            &alphabet(),
            &SHAPE,
            &subtract,
            &divide,
            &raise,
        )
        .unwrap_err();
    assert!(error.message().contains("rejected a non-finite value"));
    assert_eq!(canonical.numerical_rejections, 1);
    assert_eq!(batch.lanes[0].state.statistics.numerical_rejections, 0);
    assert!(batch.metrics[0].is_empty());
}

fn finished_batch() -> StoryBatch {
    let setting = StepSetting::of(&small_config(), Permission::Training);
    let mut batch =
        StoryBatch::open(&alphabet(), setting, &vec![b"A".to_vec(), Vec::new()]);
    let chunk = batch.open_chunk(&alphabet()).unwrap().unwrap();
    let mut canonical = TrainingStatistics::default();
    let records = vec![StepRecord::Full(record(0)), StepRecord::Full(record(0))];
    batch
        .close_lane(
            0,
            &chunk.lanes[0].notes,
            &records,
            false,
            &mut canonical,
            &alphabet(),
            &SHAPE,
            &subtract,
            &divide,
            &raise,
        )
        .unwrap();
    batch
}

#[test]
fn reports_follow_the_path_of_the_merge() {
    let merged = MergeMetrics { workers: 9, fixed_parameter_updates: 5, context_keys: 3 };
    let host =
        batch_report(finished_batch(), MergePath::Host, merged, 7, Vec::new(), Vec::new());
    let steps: Vec<usize> = host.story_metrics.iter().map(|list| list.len()).collect();
    assert_eq!(steps, vec![2, 0]);
    assert_eq!(
        (host.merge.workers, host.merge.fixed_parameter_updates, host.merge.context_keys),
        (2, 5, 3)
    );
    let merged = MergeMetrics { workers: 2, fixed_parameter_updates: 5, context_keys: 3 };
    let device =
        batch_report(finished_batch(), MergePath::Device, merged, 7, Vec::new(), Vec::new());
    assert_eq!(
        (device.merge.workers, device.merge.fixed_parameter_updates, device.merge.context_keys),
        (2, 12, 3)
    );
    assert!(device.story_deltas.is_empty() && device.story_changes.is_empty());
    let merged = MergeMetrics { workers: 2, fixed_parameter_updates: 5, context_keys: 3 };
    let mut first = ParameterChanges::default();
    first.threshold = vec![4];
    let model = new_model(small_config());
    let delta = || {
        SparseModelDelta::between(
            &model,
            &model,
            ConfigFingerprint { high: 1, low: 2 },
            ConfigFingerprint { high: 1, low: 2 },
            &single(),
            &|a, b| s(f(a) - f(b)),
        )
        .unwrap()
    };
    let kept = batch_report(
        finished_batch(),
        MergePath::Retain,
        merged,
        7,
        vec![delta(), delta()],
        vec![first, ParameterChanges::default()],
    );
    assert_eq!(
        (kept.merge.workers, kept.merge.fixed_parameter_updates, kept.merge.context_keys),
        (2, 0, 0)
    );
    assert_eq!(kept.story_deltas.len(), 2);
    assert_eq!(kept.story_changes[0].threshold, vec![4]);
}

#[test]
fn changed_places_are_gathered_stage_by_stage() {
    let shape = SnapshotShape { output_classes: 2, embedding_dim: 3, context_outputs: 6 };
    let counts = vec![2, 0, 0, 1, 4, 0, 5, 0, 0, 0];
    let plan = plan_snapshot(
        SnapshotKind::Full,
        2,
        &counts,
        &vec![true, false],
        &vec![false, true],
        &shape,
    );
    let lists = plan_gathers(&plan, GatherStage::Lists);
    let copied: Vec<(usize, ChangedTensor, usize)> = lists
        .iter()
        .map(|entry| match entry.action {
            GatherAction::CopyList { tensor, to } => (entry.lane, tensor, to.len),
            other => panic!("unexpected {other:?}"),
        })
        .collect();
    assert_eq!(
        copied,
        vec![
            (0, ChangedTensor::Threshold, 2),
            (0, ChangedTensor::Output, 1),
            (0, ChangedTensor::Context, 4),
            (1, ChangedTensor::Recurrent, 5),
        ]
    );
    let numbers = plan_gathers(&plan, GatherStage::Numbers);
    assert_eq!(numbers.len(), 4);
    match numbers[1].action {
        GatherAction::GatherNumbers { tensor, to } => {
            assert_eq!((tensor, to.len), (ChangedTensor::Output, 2));
        }
        other => panic!("unexpected {other:?}"),
    }
    match numbers[2].action {
        GatherAction::GatherRows { keys, observations, embeddings, work } => {
            assert_eq!((keys.len, observations.len, embeddings.len, work), (4, 4, 12, 12));
        }
        other => panic!("unexpected {other:?}"),
    }
    let tensors = plan_gathers(&plan, GatherStage::Tensors);
    assert_eq!(
        tensors,
        vec![
            LaneAction {
                lane: 0,
                action: GatherAction::CopyTensor {
                    tensor: LearnedBuffer::OutputBias,
                    to: plan.lanes[0].output_bias.unwrap(),
                },
            },
            LaneAction {
                lane: 1,
                action: GatherAction::CopyTensor {
                    tensor: LearnedBuffer::ContextOutputWeight,
                    to: plan.lanes[1].context_output.unwrap(),
                },
            },
        ]
    );
    assert_eq!(gather_source(ChangedTensor::Input), LearnedBuffer::InputWeight);
    assert_eq!(gather_source(ChangedTensor::Context), LearnedBuffer::ContextEmbeddings);
}

#[test]
fn only_filled_buffers_are_brought_back() {
    let none = plan_downloads(&SnapshotCursors { words: 0, keys: 0, values: 0 });
    assert!(none.is_empty());
    let some = plan_downloads(&SnapshotCursors { words: 3, keys: 0, values: 8 });
    assert_eq!(
        some,
        vec![
            PackedDownload { buffer: PackedBuffer::Values, elements: 8 },
            PackedDownload { buffer: PackedBuffer::Words, elements: 3 },
        ]
    );
}

#[test]
fn changes_are_forgotten_lane_by_lane() {
    let actions = plan_forgetting(&vec![2, 0, 0, 1, 0, 0, 0, 7, 0, 0], 2);
    assert_eq!(actions.len(), 10);
    let clear = |tensor, work| GatherAction::ClearMarks { tensor, work };
    assert_eq!(
        actions[0],
        LaneAction { lane: 0, action: clear(ChangedTensor::Threshold, 2) }
    );
    assert_eq!(
        actions[1],
        LaneAction {
            lane: 0,
            action: GatherAction::ClearCount { tensor: ChangedTensor::Recurrent },
        }
    );
    assert_eq!(actions[3], LaneAction { lane: 0, action: clear(ChangedTensor::Output, 1) });
    assert_eq!(actions[7], LaneAction { lane: 1, action: clear(ChangedTensor::Input, 7) });
}

#[test]
fn packed_updates_are_scattered_to_every_lane() {
    let shape = PackedShape {
        threshold_indices: 3,
        threshold_values: 3,
        recurrent_indices: 0,
        recurrent_values: 0,
        input_indices: 0,
        input_values: 0,
        output_neurons: 0,
        output_values: 0,
        context_slots: 1,
        context_keys: 1,
        context_observations: 1,
        context_embeddings: 4,
        output_bias: Some(257),
        context_output: None,
    };
    let sizes = PackedSizes { output_classes: 257, embedding_dim: 4, context_outputs: 1028 };
    let (actions, result) = plan_scatters(&shape, &sizes, 2);
    result.unwrap();
    let threshold = ChangedTensor::Threshold;
    let numbers = |target| ScatterAction::Numbers { target, tensor: threshold, count: 3 };
    assert_eq!(
        actions[..5],
        [
            ScatterAction::Upload {
                to: BufferKind::Changed(threshold, ListPart::List),
                elements: 3
            },
            ScatterAction::Upload { to: BufferKind::Gather(GatherBuffer::Threshold), elements: 3 },
            numbers(ScatterTarget::Canonical),
            numbers(ScatterTarget::Lane(0)),
            numbers(ScatterTarget::Lane(1)),
        ]
    );
    assert_eq!(
        actions[9],
        ScatterAction::Rows {
            target: ScatterTarget::Canonical,
            embedding_dim: 4,
            count: 1,
            work: 4
        }
    );
    let bias = LearnedBuffer::OutputBias;
    assert_eq!(
        actions[12..],
        [
            ScatterAction::Upload { to: BufferKind::Learned(bias), elements: 257 },
            ScatterAction::CopyToLane { lane: 0, tensor: bias },
            ScatterAction::CopyToLane { lane: 1, tensor: bias },
        ]
    );
    let (done, result) = plan_scatters(&PackedShape { context_keys: 2, ..shape }, &sizes, 2);
    assert!(result.is_err());
    assert_eq!(done[..], actions[..5]);
}

#[test]
fn finished_updates_hold_their_revision_everywhere() {
    let mut tracker = ChangeTracker::disabled();
    tracker.enabled = true;
    let state =
        DeviceState { output_bias_dirty: true, context_output_dirty: true, ..fresh_state() };
    let mut mirror =
        DeviceMirror { lane_revisions: vec![u64::MAX, 4], model_dirty: true, tracker, state };
    finish_update(&mut mirror, 9, false);
    assert_eq!(mirror.lane_revisions, vec![9, 9]);
    assert!(!mirror.model_dirty && mirror.tracker.enabled);
    assert!(!mirror.state.output_bias_dirty && !mirror.state.context_output_dirty);
    finish_update(&mut mirror, 10, true);
    assert!(!mirror.tracker.enabled);
}

#[test]
fn steps_are_taken_one_by_one_where_no_grid_holds_together() {
    let alphabet = alphabet();
    let setting = StepSetting::of(&small_config(), Permission::Training);
    let steps = vec![(BEGIN_DOCUMENT, Some(65u32)), (65, Some(66))];
    let mut state = fresh_state();
    let mut run = FallbackRun::new(setting);
    for place in 0..2usize {
        match run.next(&alphabet, &steps, &state).unwrap() {
            FallbackAction::Launch { step, record } => {
                assert_eq!(record, place);
                run.launched(&step, &steps, &mut state);
            }
            other => panic!("unexpected {other:?}"),
        }
    }
    assert_eq!(state.current_tick, 7);
    assert_eq!(run.next(&alphabet, &steps, &state).unwrap(), FallbackAction::Read { count: 2 });
    let broken = vec![StepRecord::Full(record(0)), StepRecord::Full(record(5))];
    let error = run
        .read(&steps, &mut state, &alphabet, &SHAPE, &broken, &subtract, &divide, &raise)
        .unwrap_err();
    assert_eq!(error.message(), "CUDA learning update rejected a non-finite value (code 5)");
    let whole = vec![StepRecord::Full(record(0)), StepRecord::Full(record(0))];
    run.read(&steps, &mut state, &alphabet, &SHAPE, &whole, &subtract, &divide, &raise).unwrap();
    assert_eq!(run.metrics.len(), 2);
    assert_eq!(run.next(&alphabet, &steps, &state).unwrap(), FallbackAction::Done);
    let refused = FallbackRun::new(StepSetting::of(&small_config(), Permission::Training));
    let error = refused.next(&alphabet, &vec![(END_DOCUMENT, None)], &state).unwrap_err();
    assert_eq!(error.message(), "invalid input symbol: 257");
}

#[test]
fn plans_are_ranked_by_their_work_per_second() {
    let limits = CudaTuningLimits {
        multiprocessors: 4,
        max_threads_per_sm: 1024,
        max_lanes: 8,
        fused_blocks_128: 8,
        fused_blocks_256: 4,
        fused_blocks_512: 2,
    };
    let ops = single();
    let mut tuner = CudaExecutionTuner::new("key".to_owned(), limits);
    tuner.plan_for(8, None);
    let first = tuner.plan;
    let mut seen = 0;
    for (work, seconds) in [(100u64, 2.0), (300, 6.0)] {
        tuner.observe_batch(8, work, wide(seconds), None, &ops);
        seen += 1;
        let score = tuner.scores.iter().find(|score| score.plan == first).unwrap();
        if score.observations != seen {
            break;
        }
        assert_eq!(g(score.throughput), 50.0);
    }
    assert_eq!(tuner.observe_batch(8, 100, wide(0.0), None, &ops), Observation::Ignored);
    assert_eq!(tuner.observe_batch(8, 0, wide(1.0), None, &ops), Observation::Ignored);
}
