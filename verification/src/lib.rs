//! Leo's byte-level sparse recurrent learning runtime.
//!
//! The runtime takes its arithmetic from its caller, as an implementation of
//! [`arithmetic::Numerics`], and its contracts speak of what that arithmetic gives. Work on a GPU
//! is planned here, down to buffers, grids and launches; whoever drives the device performs it
//! and hands back what came of it.

pub mod arithmetic;
pub mod assembly;
pub mod backend;
pub mod balance_laws;
pub mod batch_course;
pub mod buffers;
pub mod config;
pub mod context;
pub mod context_laws;
pub mod context_learning;
pub mod context_lesson_laws;
pub mod context_merge;
pub mod context_merge_laws;
pub mod course_laws;
pub mod cuda_plan;
pub mod delay_ring;
pub mod delta_laws;
pub mod device;
pub mod document_laws;
pub mod draw_laws;
pub mod draw_shares;
pub mod dynamics;
pub mod dynamics_laws;
pub mod error;
pub mod executor;
pub mod fallback;
pub mod gather;
pub mod host_sync;
pub mod host_view;
pub mod initialize;
pub mod kernel_cache;
pub mod key_laws;
pub mod launch;
pub mod learning;
pub mod learning_laws;
pub mod lesson;
pub mod lesson_laws;
pub mod lesson_parts;
pub mod marks;
pub mod merge;
pub mod merge_laws;
pub mod metric_laws;
pub mod metrics;
pub mod model;
pub mod options;
pub mod order;
pub mod parallel;
pub mod permission;
pub mod plasticity;
pub mod prediction;
pub mod prediction_laws;
pub mod records;
pub mod reduction;
pub mod reduction_laws;
pub mod repeat_laws;
pub mod replay;
pub mod row_laws;
pub mod runtime;
pub mod scalar;
pub mod scatter;
pub mod selection;
pub mod selection_laws;
pub mod semantics;
pub mod snapshot;
pub mod sorting;
pub mod stage_laws;
pub mod stages;
pub mod step;
pub mod step_kernels;
pub mod step_laws;
pub mod steps;
pub mod story_batch;
pub mod symbols;
pub mod telemetry;
pub mod text;
pub mod traces;
pub mod tick_laws;
pub mod trace_laws;
pub mod tracking_laws;
pub mod wavefront;
pub mod whole_step_laws;

pub use backend::{
    available_gpu_devices, BackendCapabilities, BackendKind, BackendRuntime,
    DeviceStoryBatchDeltaReport, DeviceStoryBatchReport, RuntimeBackend, StepExecutor,
};
pub use config::Config;
pub use error::{LeoError, LeoErrorKind, LeoResult};
pub use metrics::{StepMetrics, TrainingStatistics};
pub use model::Model;
pub use parallel::{MergeMetrics, SparseModelDelta};
pub use permission::Permission;
pub use reduction::apply_mean_deltas;
pub use runtime::{ParameterChanges, Runtime};
pub use semantics::SemanticsContract;
