//! Backend-neutral runtime boundary.
//!
//! CPU and CUDA executors share this boundary. The CPU runtime is the numerical reference;
//! the CUDA executor implements the same equations with persistent model and transient
//! state on device.

use crate::context::capped;
use crate::error::{fails, LeoError, LeoErrorKind, LeoResult};
use crate::metrics::StepMetrics;
use crate::model::Model;
use crate::parallel::{MergeMetrics, SparseModelDelta};
use crate::permission::Permission;
use crate::runtime::{capped_product, ParameterChanges};
use crate::scalar::Scalar;
use crate::text::{
    decimal, equals_lowered, lower, trim, trimmed, with_number, with_numbers, with_word,
};
use std::str::FromStr;
use vstd::prelude::*;
use vstd::string::StringExecFns;

verus! {

/// The largest number of stories that one GPU batch takes.
pub const GPU_STORY_BATCH_MAX_LANES: usize = 128;

/// Where a model is run.
#[derive(Debug, Clone, Copy, PartialEq, Eq, Structural)]
pub enum BackendKind {
    Auto,
    Cpu,
    Gpu,
}

impl BackendKind {
    /// The name of a backend.
    pub open spec fn name(self) -> Seq<char> {
        match self {
            BackendKind::Auto => "auto"@,
            BackendKind::Cpu => "cpu"@,
            BackendKind::Gpu => "gpu"@,
        }
    }

    /// The backend of a name, whatever the case of its letters and the white space around.
    pub open spec fn of_name(value: Seq<char>) -> Option<BackendKind> {
        let word = lower(trimmed(value));
        if word == "auto"@ {
            Some(BackendKind::Auto)
        } else if word == "cpu"@ {
            Some(BackendKind::Cpu)
        } else if word == "gpu"@ {
            Some(BackendKind::Gpu)
        } else {
            None
        }
    }

    /// The name of the backend.
    pub fn as_str(self) -> (r: &'static str)
        ensures
            r@ == self.name(),
    {
        match self {
            BackendKind::Auto => "auto",
            BackendKind::Cpu => "cpu",
            BackendKind::Gpu => "gpu",
        }
    }

    /// Whether the backend can be used; `gpu_devices` is what probing for devices gave.
    pub fn is_available(self, gpu_devices: &LeoResult<usize>) -> (r: bool)
        ensures
            r == (self != BackendKind::Gpu || gpu_devices is Ok),
    {
        match self {
            BackendKind::Auto => true,
            BackendKind::Cpu => true,
            BackendKind::Gpu => gpu_devices.is_ok(),
        }
    }

    /// Reads a backend by its name.
    pub fn parse(value: &str) -> (r: LeoResult<Self>)
        ensures
            match BackendKind::of_name(value@) {
                Some(kind) => r == Ok::<BackendKind, LeoError>(kind),
                None => fails(
                    r,
                    LeoErrorKind::Configuration,
                    "invalid backend '"@ + value@ + "'; expected auto, cpu, or gpu"@,
                ),
            },
    {
        let word = trim(value);
        if equals_lowered(word, "auto") {
            Ok(BackendKind::Auto)
        } else if equals_lowered(word, "cpu") {
            Ok(BackendKind::Cpu)
        } else if equals_lowered(word, "gpu") {
            Ok(BackendKind::Gpu)
        } else {
            Err(
                LeoError::configuration(
                    with_word("invalid backend '", value, "'; expected auto, cpu, or gpu"),
                ),
            )
        }
    }
}

impl FromStr for BackendKind {
    type Err = LeoError;

    fn from_str(value: &str) -> (r: Result<Self, LeoError>)
        ensures
            match BackendKind::of_name(value@) {
                Some(kind) => r == Ok::<BackendKind, LeoError>(kind),
                None => fails(
                    r,
                    LeoErrorKind::Configuration,
                    "invalid backend '"@ + value@ + "'; expected auto, cpu, or gpu"@,
                ),
            },
    {
        BackendKind::parse(value)
    }
}

/// The name of a backend reads as that backend.
pub proof fn law_names_read_back(kind: BackendKind)
    ensures
        BackendKind::of_name(kind.name()) == Some(kind),
{
    reveal_strlit("auto");
    reveal_strlit("cpu");
    reveal_strlit("gpu");
    let name = kind.name();
    reveal_with_fuel(crate::text::trim_front, 2);
    reveal_with_fuel(crate::text::trim_back, 2);
    assert(trimmed(name) == name);
    assert(lower(name) =~= name);
    if kind == BackendKind::Cpu {
        assert("cpu"@[0] != "auto"@[0]);
    } else if kind == BackendKind::Gpu {
        assert("gpu"@[0] != "auto"@[0]);
        assert("gpu"@[0] != "cpu"@[0]);
    }
}

/// What a backend can do.
#[derive(Debug, Clone, Copy, PartialEq, Eq, Structural)]
pub struct BackendCapabilities {
    pub available: bool,
    pub training: bool,
    pub evaluation: bool,
    pub generation: bool,
    pub device_resident_model: bool,
    pub batched_documents: bool,
}

impl BackendCapabilities {
    /// What the CPU runtime can do.
    pub fn cpu() -> (r: Self)
        ensures
            r == (BackendCapabilities {
                available: true,
                training: true,
                evaluation: true,
                generation: true,
                device_resident_model: false,
                batched_documents: false,
            }),
    {
        BackendCapabilities {
            available: true,
            training: true,
            evaluation: true,
            generation: true,
            device_resident_model: false,
            batched_documents: false,
        }
    }

    /// What the GPU executor can do here: all or nothing; `gpu_devices` is what probing for
    /// devices gave.
    pub fn gpu(gpu_devices: &LeoResult<usize>) -> (r: Self)
        ensures
            r == BackendCapabilities::all(gpu_devices is Ok),
    {
        let available: bool = gpu_devices.is_ok();
        BackendCapabilities {
            available,
            training: available,
            evaluation: available,
            generation: available,
            device_resident_model: available,
            batched_documents: available,
        }
    }

    /// What an executor on a GPU can do.
    pub fn active_gpu() -> (r: Self)
        ensures
            r == BackendCapabilities::all(true),
    {
        BackendCapabilities {
            available: true,
            training: true,
            evaluation: true,
            generation: true,
            device_resident_model: true,
            batched_documents: true,
        }
    }

    /// Everything or nothing.
    pub open spec fn all(able: bool) -> Self {
        BackendCapabilities {
            available: able,
            training: able,
            evaluation: able,
            generation: able,
            device_resident_model: able,
            batched_documents: able,
        }
    }
}

/// The number of devices that can be used, from the count that the driver reports; no device is an
/// error.
pub fn available_gpu_devices(reported: LeoResult<i32>) -> (r: LeoResult<usize>)
    ensures
        match reported {
            Ok(count) => if count <= 0 {
                fails(r, LeoErrorKind::Cuda, "CUDA driver reported no GPU devices"@)
            } else {
                r == Ok::<usize, LeoError>(count as usize)
            },
            Err(error) => r == Err::<usize, LeoError>(error),
        },
{
    match reported {
        Ok(count) => {
            if count <= 0 {
                Err(LeoError::cuda("CUDA driver reported no GPU devices".to_owned()))
            } else {
                Ok(count as usize)
            }
        },
        Err(error) => Err(error),
    }
}

/// The type of a device buffer's elements.
#[derive(Debug, Clone, Copy, PartialEq, Eq, Structural)]
pub enum DeviceScalarType {
    F32,
    U32,
    U64,
    U8,
}

impl DeviceScalarType {
    /// The bytes of one element.
    pub open spec fn width(self) -> int {
        match self {
            DeviceScalarType::F32 => 4,
            DeviceScalarType::U32 => 4,
            DeviceScalarType::U64 => 8,
            DeviceScalarType::U8 => 1,
        }
    }

    /// The bytes of one element.
    pub fn byte_width(self) -> (r: usize)
        ensures
            r == self.width(),
    {
        match self {
            DeviceScalarType::F32 => 4,
            DeviceScalarType::U32 => 4,
            DeviceScalarType::U64 => 8,
            DeviceScalarType::U8 => 1,
        }
    }
}

/// Whether learning changes a device buffer.
#[derive(Debug, Clone, Copy, PartialEq, Eq, Structural)]
pub enum DeviceAccess {
    ReadOnly,
    ReadWrite,
}

/// One device buffer of a model.
#[derive(Debug, Clone, Copy)]
pub struct DeviceBufferSpec {
    pub name: &'static str,
    pub scalar_type: DeviceScalarType,
    pub elements: usize,
    pub access: DeviceAccess,
}

/// A device buffer as plain values.
pub ghost struct BufferRow {
    pub name: Seq<char>,
    pub scalar_type: DeviceScalarType,
    pub elements: int,
    pub access: DeviceAccess,
}

/// A device buffer as plain values.
pub open spec fn row(
    name: Seq<char>,
    scalar_type: DeviceScalarType,
    elements: int,
    access: DeviceAccess,
) -> BufferRow {
    BufferRow { name, scalar_type, elements, access }
}

impl DeviceBufferSpec {
    /// The buffer as plain values.
    pub open spec fn as_row(self) -> BufferRow {
        row(self.name@, self.scalar_type, self.elements as int, self.access)
    }

    /// The size of the buffer, held at the largest number.
    pub fn bytes(&self) -> (r: usize)
        ensures
            r == capped(self.elements * self.scalar_type.width()),
    {
        capped_product(self.elements, self.scalar_type.byte_width())
    }
}

/// The device buffers of a model and their size.
#[derive(Debug)]
pub struct DeviceModelLayout {
    pub buffers: Vec<DeviceBufferSpec>,
    pub total_bytes: usize,
    pub read_only_bytes: usize,
    pub read_write_bytes: usize,
}

/// The bytes of the first `upto` buffers that `counted` admits, held at the largest number.
pub open spec fn bytes_upto(
    rows: Seq<BufferRow>,
    upto: int,
    counted: spec_fn(DeviceAccess) -> bool,
) -> int
    decreases upto,
{
    if upto <= 0 {
        0
    } else if counted(rows[upto - 1].access) {
        capped(
            bytes_upto(rows, upto - 1, counted) + capped(
                rows[upto - 1].elements * rows[upto - 1].scalar_type.width(),
            ),
        )
    } else {
        bytes_upto(rows, upto - 1, counted)
    }
}

/// The buffers as plain values.
pub open spec fn rows_of(buffers: Seq<DeviceBufferSpec>) -> Seq<BufferRow> {
    Seq::new(buffers.len(), |i: int| buffers[i].as_row())
}

impl DeviceModelLayout {
    /// The device buffers of a model, in the order in which they are allocated.
    pub open spec fn rows_for(m: Model) -> Seq<BufferRow> {
        seq![
            row(
                "neurons.threshold"@,
                DeviceScalarType::F32,
                m.neurons.threshold.len() as int,
                DeviceAccess::ReadWrite,
            ),
            row(
                "neurons.excitability"@,
                DeviceScalarType::F32,
                m.neurons.excitability.len() as int,
                DeviceAccess::ReadOnly,
            ),
            row(
                "neurons.neuron_type"@,
                DeviceScalarType::U8,
                m.neurons.neuron_type.len() as int,
                DeviceAccess::ReadOnly,
            ),
            row(
                "recurrent.target_neuron"@,
                DeviceScalarType::U32,
                m.recurrent.target_neuron.len() as int,
                DeviceAccess::ReadOnly,
            ),
            row(
                "recurrent.target_branch"@,
                DeviceScalarType::U8,
                m.recurrent.target_branch.len() as int,
                DeviceAccess::ReadOnly,
            ),
            row(
                "recurrent.delay"@,
                DeviceScalarType::U8,
                m.recurrent.delay.len() as int,
                DeviceAccess::ReadOnly,
            ),
            row(
                "recurrent.weight"@,
                DeviceScalarType::F32,
                m.recurrent.weight.len() as int,
                DeviceAccess::ReadWrite,
            ),
            row(
                "input.targets"@,
                DeviceScalarType::U32,
                m.input.targets.len() as int,
                DeviceAccess::ReadOnly,
            ),
            row(
                "input.branches"@,
                DeviceScalarType::U8,
                m.input.branches.len() as int,
                DeviceAccess::ReadOnly,
            ),
            row(
                "input.weights"@,
                DeviceScalarType::F32,
                m.input.weights.len() as int,
                DeviceAccess::ReadWrite,
            ),
            row(
                "output.weights"@,
                DeviceScalarType::F32,
                m.output.weights.len() as int,
                DeviceAccess::ReadWrite,
            ),
            row(
                "output.bias"@,
                DeviceScalarType::F32,
                m.output.bias.len() as int,
                DeviceAccess::ReadWrite,
            ),
            row(
                "context.keys"@,
                DeviceScalarType::U64,
                m.context.keys.len() as int,
                DeviceAccess::ReadWrite,
            ),
            row(
                "context.embeddings"@,
                DeviceScalarType::F32,
                m.context.embeddings.len() as int,
                DeviceAccess::ReadWrite,
            ),
            row(
                "context.observations"@,
                DeviceScalarType::U32,
                m.context.observations.len() as int,
                DeviceAccess::ReadWrite,
            ),
            row(
                "context.output_weights"@,
                DeviceScalarType::F32,
                m.context.output_weights.len() as int,
                DeviceAccess::ReadWrite,
            ),
        ]
    }

    /// The device buffers of a model and their size.
    pub fn for_model(model: &Model) -> (r: Self)
        ensures
            rows_of(r.buffers@) == DeviceModelLayout::rows_for(*model),
            r.total_bytes == bytes_upto(
                DeviceModelLayout::rows_for(*model),
                16,
                |a: DeviceAccess| true,
            ),
            r.read_only_bytes == bytes_upto(
                DeviceModelLayout::rows_for(*model),
                16,
                |a: DeviceAccess| a == DeviceAccess::ReadOnly,
            ),
            r.read_write_bytes == bytes_upto(
                DeviceModelLayout::rows_for(*model),
                16,
                |a: DeviceAccess| a == DeviceAccess::ReadWrite,
            ),
    {
        let buffers: Vec<DeviceBufferSpec> = vec![
            DeviceBufferSpec {
                name: "neurons.threshold",
                scalar_type: DeviceScalarType::F32,
                elements: model.neurons.threshold.len(),
                access: DeviceAccess::ReadWrite,
            },
            DeviceBufferSpec {
                name: "neurons.excitability",
                scalar_type: DeviceScalarType::F32,
                elements: model.neurons.excitability.len(),
                access: DeviceAccess::ReadOnly,
            },
            DeviceBufferSpec {
                name: "neurons.neuron_type",
                scalar_type: DeviceScalarType::U8,
                elements: model.neurons.neuron_type.len(),
                access: DeviceAccess::ReadOnly,
            },
            DeviceBufferSpec {
                name: "recurrent.target_neuron",
                scalar_type: DeviceScalarType::U32,
                elements: model.recurrent.target_neuron.len(),
                access: DeviceAccess::ReadOnly,
            },
            DeviceBufferSpec {
                name: "recurrent.target_branch",
                scalar_type: DeviceScalarType::U8,
                elements: model.recurrent.target_branch.len(),
                access: DeviceAccess::ReadOnly,
            },
            DeviceBufferSpec {
                name: "recurrent.delay",
                scalar_type: DeviceScalarType::U8,
                elements: model.recurrent.delay.len(),
                access: DeviceAccess::ReadOnly,
            },
            DeviceBufferSpec {
                name: "recurrent.weight",
                scalar_type: DeviceScalarType::F32,
                elements: model.recurrent.weight.len(),
                access: DeviceAccess::ReadWrite,
            },
            DeviceBufferSpec {
                name: "input.targets",
                scalar_type: DeviceScalarType::U32,
                elements: model.input.targets.len(),
                access: DeviceAccess::ReadOnly,
            },
            DeviceBufferSpec {
                name: "input.branches",
                scalar_type: DeviceScalarType::U8,
                elements: model.input.branches.len(),
                access: DeviceAccess::ReadOnly,
            },
            DeviceBufferSpec {
                name: "input.weights",
                scalar_type: DeviceScalarType::F32,
                elements: model.input.weights.len(),
                access: DeviceAccess::ReadWrite,
            },
            DeviceBufferSpec {
                name: "output.weights",
                scalar_type: DeviceScalarType::F32,
                elements: model.output.weights.len(),
                access: DeviceAccess::ReadWrite,
            },
            DeviceBufferSpec {
                name: "output.bias",
                scalar_type: DeviceScalarType::F32,
                elements: model.output.bias.len(),
                access: DeviceAccess::ReadWrite,
            },
            DeviceBufferSpec {
                name: "context.keys",
                scalar_type: DeviceScalarType::U64,
                elements: model.context.keys.len(),
                access: DeviceAccess::ReadWrite,
            },
            DeviceBufferSpec {
                name: "context.embeddings",
                scalar_type: DeviceScalarType::F32,
                elements: model.context.embeddings.len(),
                access: DeviceAccess::ReadWrite,
            },
            DeviceBufferSpec {
                name: "context.observations",
                scalar_type: DeviceScalarType::U32,
                elements: model.context.observations.len(),
                access: DeviceAccess::ReadWrite,
            },
            DeviceBufferSpec {
                name: "context.output_weights",
                scalar_type: DeviceScalarType::F32,
                elements: model.context.output_weights.len(),
                access: DeviceAccess::ReadWrite,
            },
        ];
        let ghost rows = rows_of(buffers@);
        assert(rows =~= DeviceModelLayout::rows_for(*model));
        let ghost all = |a: DeviceAccess| true;
        let ghost fixed = |a: DeviceAccess| a == DeviceAccess::ReadOnly;
        let ghost learned = |a: DeviceAccess| a == DeviceAccess::ReadWrite;
        let mut total_bytes: usize = 0;
        let mut read_only_bytes: usize = 0;
        let mut read_write_bytes: usize = 0;
        let mut i: usize = 0;
        while i < buffers.len()
            invariant
                i <= buffers.len(),
                rows == rows_of(buffers@),
                total_bytes == bytes_upto(rows, i as int, all),
                read_only_bytes == bytes_upto(rows, i as int, fixed),
                read_write_bytes == bytes_upto(rows, i as int, learned),
                forall|a: DeviceAccess| #[trigger] all(a),
                forall|a: DeviceAccess| #[trigger] fixed(a) == (a == DeviceAccess::ReadOnly),
                forall|a: DeviceAccess| #[trigger] learned(a) == (a == DeviceAccess::ReadWrite),
            decreases buffers.len() - i,
        {
            let bytes: usize = buffers[i].bytes();
            assert(rows[i as int] == buffers[i as int].as_row());
            total_bytes = total_bytes.saturating_add(bytes);
            match buffers[i].access {
                DeviceAccess::ReadOnly => {
                    read_only_bytes = read_only_bytes.saturating_add(bytes);
                },
                DeviceAccess::ReadWrite => {
                    read_write_bytes = read_write_bytes.saturating_add(bytes);
                },
            }
            i = i + 1;
        }
        DeviceModelLayout { buffers, total_bytes, read_only_bytes, read_write_bytes }
    }
}

/// The bytes of the first `upto` buffers, however many.
pub open spec fn all_bytes(rows: Seq<BufferRow>, upto: int) -> int
    decreases upto,
{
    if upto <= 0 {
        0
    } else {
        all_bytes(rows, upto - 1) + rows[upto - 1].elements * rows[upto - 1].scalar_type.width()
    }
}

/// Where the bytes of all buffers can be counted, the total is their number, and is what is read
/// only and what is learned.
pub proof fn law_layout_adds_up(rows: Seq<BufferRow>, upto: int)
    requires
        0 <= upto <= rows.len(),
        forall|i: int| 0 <= i < rows.len() ==> 0 <= (#[trigger] rows[i]).elements,
        all_bytes(rows, upto) <= usize::MAX,
    ensures
        bytes_upto(rows, upto, |a: DeviceAccess| true) == all_bytes(rows, upto),
        bytes_upto(rows, upto, |a: DeviceAccess| true) == bytes_upto(
            rows,
            upto,
            |a: DeviceAccess| a == DeviceAccess::ReadOnly,
        ) + bytes_upto(rows, upto, |a: DeviceAccess| a == DeviceAccess::ReadWrite),
        0 <= bytes_upto(rows, upto, |a: DeviceAccess| a == DeviceAccess::ReadOnly),
        0 <= bytes_upto(rows, upto, |a: DeviceAccess| a == DeviceAccess::ReadWrite),
    decreases upto,
{
    if upto > 0 {
        let r = rows[upto - 1];
        assert(0 <= r.elements * r.scalar_type.width()) by (nonlinear_arith)
            requires
                0 <= r.elements,
                0 <= r.scalar_type.width(),
        ;
        law_layout_adds_up(rows, upto - 1);
    }
}

/// What became of a batch of stories on a device: the metrics of every story, and the merge of
/// their changes.
#[derive(Debug)]
pub struct DeviceStoryBatchReport {
    pub story_metrics: Vec<Vec<StepMetrics>>,
    pub merge: MergeMetrics,
}

/// What became of a batch of stories on a device, with the change of every story, kept before the
/// device took their mean.
#[derive(Debug)]
pub struct DeviceStoryBatchDeltaReport {
    pub story_metrics: Vec<Vec<StepMetrics>>,
    pub merge: MergeMetrics,
    pub story_deltas: Vec<SparseModelDelta>,
    pub story_changes: Vec<ParameterChanges>,
}

/// What takes steps of a model, one at a time.
pub trait StepExecutor: Sized {
    /// The executor is in order: it can be asked for anything.
    spec fn sound(&self) -> bool;

    /// A step from this state can end in `after` with result `r`.
    spec fn takes(
        self,
        symbol: u32,
        target: Option<u32>,
        permission: Permission,
        after: Self,
        r: LeoResult<StepMetrics>,
    ) -> bool;

    /// Takes one step.
    fn step(&mut self, symbol: u32, target: Option<u32>, permission: Permission) -> (r: LeoResult<
        StepMetrics,
    >)
        requires
            old(self).sound(),
        ensures
            final(self).sound(),
            old(self).takes(symbol, target, permission, *final(self), r),
    ;
}

/// An executor of a model.
///
/// Implementations keep the model and take steps; what a call does to them is theirs to say, by
/// the relations between an executor before a call, the executor after it, and the result.
pub trait RuntimeBackend: StepExecutor {
    /// Where the executor runs.
    spec fn kind(&self) -> BackendKind;

    /// What the executor can do.
    spec fn abilities(&self) -> BackendCapabilities;

    /// The model of the executor.
    spec fn held(&self) -> Model;

    /// The probabilities of the classes that the last step predicted.
    spec fn guesses(&self) -> Seq<Scalar>;

    /// The neurons that are active.
    spec fn firing(&self) -> Seq<usize>;

    /// The activation of a neuron.
    spec fn level(&self, neuron: usize) -> Scalar;

    /// Another executor can be made for a model.
    spec fn admits(&self, model: Model) -> bool;

    /// Making another executor for a model can give `r`.
    spec fn forks(&self, model: Model, r: LeoResult<Self>) -> bool;

    /// The model can be replaced by another one.
    spec fn can_hold(&self, model: Model) -> bool;

    /// Replacing the model can end in `after` with result `r`.
    spec fn synchronizes(
        &self,
        canonical: Model,
        changes: ParameterChanges,
        after: Self,
        r: LeoResult<()>,
    ) -> bool;

    /// Bringing the model on the host up to date can end in `after` with result `r`.
    spec fn pulls(&self, after: Self, r: LeoResult<()>) -> bool;

    /// Handing the model out can show `shown`, and end in `after` once it was edited into `edited`.
    spec fn lends(&self, shown: Model, edited: Model, after: Self) -> bool;

    /// Handing the model out can fail with `error` and end in `after`.
    spec fn withholds(&self, error: LeoError, after: Self) -> bool;

    /// Handing changes of the model on the host to the device can end in `after` with result `r`.
    spec fn commits(&self, changes: ParameterChanges, after: Self, r: LeoResult<()>) -> bool;

    /// Tracking the changed parameters from now on can end in `after`.
    spec fn tracks(&self, after: Self) -> bool;

    /// Asking for the changed parameters can end in `after` with result `r`.
    spec fn reports(&self, after: Self, r: LeoResult<ParameterChanges>) -> bool;

    /// Beginning a document can end in `after` with result `r`.
    spec fn begins(&self, after: Self, r: LeoResult<()>) -> bool;

    /// Ending a document can end in `after` with result `r`.
    spec fn finishes(&self, after: Self, r: LeoResult<()>) -> bool;

    /// Forgetting the document can end in `after` with result `r`.
    spec fn forgets(&self, after: Self, r: LeoResult<()>) -> bool;

    /// A batch of steps can end in `after` with result `r`.
    spec fn drills(
        &self,
        steps: Seq<(u32, Option<u32>)>,
        permission: Permission,
        after: Self,
        r: LeoResult<Vec<StepMetrics>>,
    ) -> bool;

    /// Advancing through frozen steps can end in `after` with result `r`.
    spec fn advances(
        &self,
        steps: Seq<(u32, Option<u32>)>,
        after: Self,
        r: LeoResult<()>,
    ) -> bool;

    /// A batch of stories can end in `after` with result `r`.
    spec fn trains(
        &self,
        stories: Seq<Vec<u8>>,
        permission: Permission,
        after: Self,
        r: LeoResult<Option<DeviceStoryBatchReport>>,
    ) -> bool;

    /// A batch of stories whose changes are kept can end in `after` with result `r`.
    spec fn trains_apart(
        &self,
        stories: Seq<Vec<u8>>,
        permission: Permission,
        after: Self,
        r: LeoResult<Option<DeviceStoryBatchDeltaReport>>,
    ) -> bool;

    /// Where the executor runs.
    fn backend_kind(&self) -> (r: BackendKind)
        ensures
            r == self.kind(),
    ;

    /// What the executor can do.
    fn capabilities(&self) -> (r: BackendCapabilities)
        ensures
            r == self.abilities(),
    ;

    /// Another executor of the same sort for a model.
    fn fork(&self, model: Model) -> (r: LeoResult<Self>)
        requires
            self.sound(),
            self.admits(model),
        ensures
            self.forks(model, r),
            r matches Ok(other) ==> other.sound(),
    ;

    /// The model.
    fn model(&self) -> (r: &Model)
        ensures
            *r == self.held(),
    ;

    /// Replaces the model; `changes` names the parameters that differ.
    fn synchronize_sparse_model(&mut self, canonical: Model, changes: &ParameterChanges) -> (r:
        LeoResult<()>)
        requires
            old(self).sound(),
            old(self).can_hold(canonical),
        ensures
            final(self).sound(),
            old(self).synchronizes(canonical, *changes, *final(self), r),
    ;

    /// Brings the model on the host up to date.
    fn synchronize_model(&mut self) -> (r: LeoResult<()>)
        requires
            old(self).sound(),
        ensures
            final(self).sound(),
            old(self).pulls(*final(self), r),
    ;

    /// Hands the model out for changes. The executor is in order afterwards where it can hold what
    /// was made of the model.
    fn model_mut(&mut self) -> (r: LeoResult<&mut Model>)
        requires
            old(self).sound(),
        ensures
            match r {
                Ok(model) => {
                    &&& old(self).lends(*model, *final(model), *final(self))
                    &&& old(self).can_hold(*final(model)) ==> final(self).sound()
                },
                Err(error) => old(self).withholds(error, *final(self)) && final(self).sound(),
            },
    ;

    /// Hands changes of the model on the host to the device.
    fn commit_sparse_host_model(&mut self, changes: &ParameterChanges) -> (r: LeoResult<()>)
        requires
            old(self).sound(),
        ensures
            final(self).sound(),
            old(self).commits(*changes, *final(self), r),
    ;

    /// Tracks the changed parameters from now on.
    fn enable_parameter_tracking(&mut self)
        requires
            old(self).sound(),
        ensures
            final(self).sound(),
            old(self).tracks(*final(self)),
    ;

    /// The parameters that changed.
    fn parameter_changes(&mut self) -> (r: LeoResult<ParameterChanges>)
        requires
            old(self).sound(),
        ensures
            final(self).sound(),
            old(self).reports(*final(self), r),
    ;

    /// The probabilities of the classes that the last step predicted.
    fn probabilities(&self) -> (r: &Vec<Scalar>)
        ensures
            r@ == self.guesses(),
    ;

    /// The neurons that are active.
    fn active_neurons(&self) -> (r: &Vec<usize>)
        ensures
            r@ == self.firing(),
    ;

    /// The activation of a neuron.
    fn activation(&self, neuron: usize) -> (r: Scalar)
        ensures
            r == self.level(neuron),
    ;

    /// Begins a document.
    fn begin_document(&mut self) -> (r: LeoResult<()>)
        requires
            old(self).sound(),
        ensures
            final(self).sound(),
            old(self).begins(*final(self), r),
    ;

    /// Ends a document.
    fn finish_document(&mut self) -> (r: LeoResult<()>)
        requires
            old(self).sound(),
        ensures
            final(self).sound(),
            old(self).finishes(*final(self), r),
    ;

    /// Forgets the document.
    fn reset_transient_state(&mut self) -> (r: LeoResult<()>)
        requires
            old(self).sound(),
        ensures
            final(self).sound(),
            old(self).forgets(*final(self), r),
    ;

    /// Takes a batch of steps. An executor may queue dependent steps and read the metrics of all
    /// of them at once; one that has nothing better takes them one after the other, by
    /// [`run_steps`].
    fn training_step_batch(
        &mut self,
        steps: &Vec<(u32, Option<u32>)>,
        permission: Permission,
    ) -> (r: LeoResult<Vec<StepMetrics>>)
        requires
            old(self).sound(),
        ensures
            final(self).sound(),
            old(self).drills(steps@, permission, *final(self), r),
    ;

    /// Advances the document through frozen steps and keeps no metrics of them. An executor may
    /// leave out what only the prediction needs.
    fn advance_frozen_batch(&mut self, steps: &Vec<(u32, Option<u32>)>) -> (r: LeoResult<()>)
        requires
            old(self).sound(),
        ensures
            final(self).sound(),
            old(self).advances(steps@, *final(self), r),
    ;

    /// Trains on a batch of stories at once; `None` where the executor has no lanes for them.
    fn training_story_batch(&mut self, stories: &Vec<Vec<u8>>, permission: Permission) -> (r:
        LeoResult<Option<DeviceStoryBatchReport>>)
        requires
            old(self).sound(),
        ensures
            final(self).sound(),
            old(self).trains(stories@, permission, *final(self), r),
    ;

    /// Trains on a batch of stories at once and keeps the change of each; `None` where the
    /// executor has no lanes for them.
    fn training_story_batch_deltas(&mut self, stories: &Vec<Vec<u8>>, permission: Permission) -> (r:
        LeoResult<Option<DeviceStoryBatchDeltaReport>>)
        requires
            old(self).sound(),
        ensures
            final(self).sound(),
            old(self).trains_apart(stories@, permission, *final(self), r),
    ;
}

/// Running the first `upto` steps, all of them successful, leads from `start` to `after`
/// with these metrics.
pub open spec fn ran<E: StepExecutor>(
    start: E,
    steps: Seq<(u32, Option<u32>)>,
    permission: Permission,
    upto: int,
    after: E,
    metrics: Seq<StepMetrics>,
) -> bool
    decreases upto,
{
    if upto <= 0 {
        after == start && metrics.len() == 0
    } else {
        metrics.len() == upto && exists|mid: E|
            ran(start, steps, permission, upto - 1, mid, metrics.drop_last())
                && #[trigger] mid.takes(
                steps[upto - 1].0,
                steps[upto - 1].1,
                permission,
                after,
                Ok(metrics.last()),
            )
    }
}

/// Running the first `upto` steps succeeded, and the next one failed with `error`.
pub open spec fn stopped<E: StepExecutor>(
    start: E,
    steps: Seq<(u32, Option<u32>)>,
    permission: Permission,
    upto: int,
    after: E,
    error: LeoError,
) -> bool {
    0 <= upto < steps.len() && exists|mid: E, metrics: Seq<StepMetrics>| #[trigger]
        ran(start, steps, permission, upto, mid, metrics) && mid.takes(
            steps[upto].0,
            steps[upto].1,
            permission,
            after,
            Err(error),
        )
}

/// Running the steps ended with the first that failed.
pub open spec fn broke_off<E: StepExecutor>(
    start: E,
    steps: Seq<(u32, Option<u32>)>,
    permission: Permission,
    after: E,
    error: LeoError,
) -> bool {
    exists|k: int| #[trigger] stopped(start, steps, permission, k, after, error)
}

/// Running all steps succeeded.
pub open spec fn ran_all<E: StepExecutor>(
    start: E,
    steps: Seq<(u32, Option<u32>)>,
    permission: Permission,
    after: E,
) -> bool {
    exists|metrics: Seq<StepMetrics>| #[trigger]
        ran(start, steps, permission, steps.len() as int, after, metrics)
}

/// Takes steps one after the other; the first that fails ends the batch.
pub fn run_steps<E: StepExecutor>(
    backend: &mut E,
    steps: &Vec<(u32, Option<u32>)>,
    permission: Permission,
) -> (r: LeoResult<Vec<StepMetrics>>)
    requires
        old(backend).sound(),
    ensures
        final(backend).sound(),
        r matches Ok(metrics) ==> ran(
            *old(backend),
            steps@,
            permission,
            steps.len() as int,
            *final(backend),
            metrics@,
        ),
        r matches Err(error) ==> broke_off(
            *old(backend),
            steps@,
            permission,
            *final(backend),
            error,
        ),
{
    let mut metrics: Vec<StepMetrics> = Vec::new();
    let mut i: usize = 0;
    while i < steps.len()
        invariant
            i <= steps.len(),
            backend.sound(),
            ran(*old(backend), steps@, permission, i as int, *backend, metrics@),
        decreases steps.len() - i,
    {
        let (symbol, target) = steps[i];
        let ghost mid = *backend;
        let ghost before = metrics@;
        match backend.step(symbol, target, permission) {
            Ok(m) => {
                metrics.push(m);
                proof {
                    assert(metrics@.drop_last() =~= before);
                    assert(metrics.len() == i + 1) by {
                        lemma_ran_len(*old(backend), steps@, permission, i as int, mid, before);
                    }
                    assert(mid.takes(
                        steps@[i as int].0,
                        steps@[i as int].1,
                        permission,
                        *backend,
                        Ok(metrics@.last()),
                    ));
                }
            },
            Err(error) => {
                proof {
                    assert(ran(*old(backend), steps@, permission, i as int, mid, before));
                    assert(stopped(
                        *old(backend),
                        steps@,
                        permission,
                        i as int,
                        *backend,
                        error,
                    ));
                }
                return Err(error);
            },
        }
        i = i + 1;
    }
    Ok(metrics)
}

/// Each step that ran left one entry.
proof fn lemma_ran_len<E: StepExecutor>(
    start: E,
    steps: Seq<(u32, Option<u32>)>,
    permission: Permission,
    upto: int,
    after: E,
    metrics: Seq<StepMetrics>,
)
    requires
        0 <= upto,
        ran(start, steps, permission, upto, after, metrics),
    ensures
        metrics.len() == upto,
{
}

/// The backend that was asked for and the one that serves the request.
#[derive(Debug, Clone, Copy)]
struct Served {
    requested: BackendKind,
    resolved: BackendKind,
}

impl Served {
    /// The backend that serves is a real one, and the one that was asked for where one was.
    #[verifier::type_invariant]
    spec fn wf(self) -> bool {
        mismatch(self.requested, self.resolved) is None
    }
}

/// An executor with the backend that was asked for and the one it turned out to be.
#[derive(Debug)]
pub struct BackendRuntime<E: RuntimeBackend> {
    served: Served,
    inner: E,
}

/// Why an executor of one backend cannot serve a request for another.
pub open spec fn mismatch(requested: BackendKind, resolved: BackendKind) -> Option<Seq<char>> {
    if resolved == BackendKind::Auto {
        Some("runtime backend implementations must resolve to cpu or gpu"@)
    } else if requested != BackendKind::Auto && requested != resolved {
        Some(
            "requested backend "@ + requested.name() + " does not match runtime backend "@
                + resolved.name(),
        )
    } else {
        None
    }
}

/// Why an executor of one backend cannot serve a request for another.
fn mismatch_text(requested: BackendKind, resolved: BackendKind) -> (r: Option<String>)
    ensures
        crate::config::message_of(r) == mismatch(requested, resolved),
{
    if resolved == BackendKind::Auto {
        return Some("runtime backend implementations must resolve to cpu or gpu".to_owned());
    }
    if requested != BackendKind::Auto && requested != resolved {
        let mut text = with_word(
            "requested backend ",
            requested.as_str(),
            " does not match runtime backend ",
        );
        text.append(resolved.as_str());
        return Some(text);
    }
    None
}

impl<E: RuntimeBackend> BackendRuntime<E> {
    /// The backend that was asked for.
    pub closed spec fn asked(self) -> BackendKind {
        self.served.requested
    }

    /// The backend that is used.
    pub closed spec fn used(self) -> BackendKind {
        self.served.resolved
    }

    /// The executor.
    pub closed spec fn executor(self) -> E {
        self.inner
    }

    /// Wraps an executor; one of another backend than was asked for is refused.
    pub fn from_backend(requested: BackendKind, inner: E) -> (r: LeoResult<Self>)
        ensures
            match mismatch(requested, inner.kind()) {
                Some(text) => fails(r, LeoErrorKind::Backend, text),
                None => r matches Ok(runtime) && runtime.asked() == requested && runtime.used()
                    == inner.kind() && runtime.executor() == inner,
            },
    {
        let resolved = inner.backend_kind();
        if let Some(text) = mismatch_text(requested, resolved) {
            return Err(LeoError::backend(text));
        }
        Ok(BackendRuntime { served: Served { requested, resolved }, inner })
    }

    /// What comes of a request for a GPU, where `opened` is what opening its executor gave.
    /// `problem` is the message for one that could not be opened.
    pub open spec fn gpu_served(
        opened: LeoResult<E>,
        problem: Seq<char>,
        r: LeoResult<Self>,
    ) -> bool {
        match opened {
            Err(_) => fails(r, LeoErrorKind::Backend, problem),
            Ok(inner) => match mismatch(BackendKind::Gpu, inner.kind()) {
                Some(text) => fails(r, LeoErrorKind::Backend, text),
                None => r matches Ok(runtime) && runtime.asked() == BackendKind::Gpu
                    && runtime.used() == BackendKind::Gpu && runtime.executor() == inner,
            },
        }
    }

    /// Serves a request for a GPU by the executor that was opened for it. One that could not be
    /// opened is never replaced by another.
    pub fn new_gpu(opened: LeoResult<E>) -> (r: LeoResult<Self>)
        ensures
            Self::gpu_served(
                opened,
                "GPU backend requested, but CUDA initialization failed: "@ + opened->Err_0.text()
                    + ""@,
                r,
            ),
    {
        match opened {
            Ok(inner) => BackendRuntime::from_backend(BackendKind::Gpu, inner),
            Err(error) => Err(
                LeoError::backend(
                    with_word(
                        "GPU backend requested, but CUDA initialization failed: ",
                        error.message(),
                        "",
                    ),
                ),
            ),
        }
    }

    /// Serves a request for one GPU of several by the executor that was opened on it.
    pub fn new_gpu_on_device(opened: LeoResult<E>, device_index: usize) -> (r: LeoResult<Self>)
        ensures
            Self::gpu_served(
                opened,
                "GPU backend requested on CUDA device "@ + decimal(device_index as nat)
                    + ", but initialization failed: "@ + opened->Err_0.text() + ""@,
                r,
            ),
    {
        match opened {
            Ok(inner) => BackendRuntime::from_backend(BackendKind::Gpu, inner),
            Err(error) => {
                let head: String = with_number(
                    "GPU backend requested on CUDA device ",
                    device_index as u64,
                    ", but initialization failed: ",
                );
                Err(LeoError::backend(with_word(head.as_str(), error.message(), "")))
            },
        }
    }

    /// The backend that was asked for.
    pub fn requested_backend(&self) -> (r: BackendKind)
        ensures
            r == self.asked(),
    {
        self.served.requested
    }

    /// The backend that is used.
    pub fn resolved_backend(&self) -> (r: BackendKind)
        ensures
            r == self.used(),
            mismatch(self.asked(), r) is None,
    {
        proof {
            use_type_invariant(&self.served);
        }
        self.served.resolved
    }

    /// What making another runtime of the same backend for a model gives.
    pub open spec fn forked(self, model: Model, r: LeoResult<Self>) -> bool {
        exists|made: LeoResult<E>| #[trigger]
            self.executor().forks(model, made) && match made {
                Err(error) => r == Err::<Self, LeoError>(error),
                Ok(inner) => match mismatch(self.used(), inner.kind()) {
                    Some(text) => fails(r, LeoErrorKind::Backend, text),
                    None => r matches Ok(runtime) && runtime.asked() == self.used()
                        && runtime.used() == inner.kind() && runtime.executor() == inner,
                },
            }
    }

    /// Another runtime of the same backend for a model.
    pub fn fork(&self, model: Model) -> (r: LeoResult<Self>)
        requires
            self.executor().sound(),
            self.executor().admits(model),
        ensures
            self.forked(model, r),
            r matches Ok(runtime) ==> {
                &&& runtime.executor().sound()
                &&& runtime.used() == self.used()
                &&& runtime.asked() == self.used()
                &&& runtime.used() != BackendKind::Auto
            },
    {
        proof {
            use_type_invariant(&self.served);
        }
        let made = self.inner.fork(model);
        assert(self.executor().forks(model, made));
        match made {
            Ok(inner) => BackendRuntime::from_backend(self.served.resolved, inner),
            Err(error) => Err(error),
        }
    }

    /// What the executor can do.
    pub fn capabilities(&self) -> (r: BackendCapabilities)
        ensures
            r == self.executor().abilities(),
    {
        self.inner.capabilities()
    }

    /// The model.
    pub fn model(&self) -> (r: &Model)
        ensures
            *r == self.executor().held(),
    {
        self.inner.model()
    }

    /// The probabilities of the classes that the last step predicted.
    pub fn probabilities(&self) -> (r: &Vec<Scalar>)
        ensures
            r@ == self.executor().guesses(),
    {
        self.inner.probabilities()
    }

    /// The neurons that are active.
    pub fn active_neurons(&self) -> (r: &Vec<usize>)
        ensures
            r@ == self.executor().firing(),
    {
        self.inner.active_neurons()
    }

    /// The activation of a neuron.
    pub fn activation(&self, neuron: usize) -> (r: Scalar)
        ensures
            r == self.executor().level(neuron),
    {
        self.inner.activation(neuron)
    }

    /// Hands the model out for changes.
    pub fn model_mut(&mut self) -> (r: LeoResult<&mut Model>)
        requires
            old(self).executor().sound(),
        ensures
            match r {
                Ok(model) => {
                    &&& old(self).executor().lends(
                        *model,
                        *final(model),
                        final(self).executor(),
                    )
                    &&& old(self).executor().can_hold(*final(model))
                        ==> final(self).executor().sound()
                },
                Err(error) => {
                    &&& old(self).executor().withholds(error, final(self).executor())
                    &&& final(self).executor().sound()
                },
            },
            final(self).asked() == old(self).asked(),
            final(self).used() == old(self).used(),
    {
        self.inner.model_mut()
    }

    /// Brings the model on the host up to date.
    pub fn synchronize_model(&mut self) -> (r: LeoResult<()>)
        requires
            old(self).executor().sound(),
        ensures
            final(self).executor().sound(),
            old(self).executor().pulls(final(self).executor(), r),
            final(self).asked() == old(self).asked(),
            final(self).used() == old(self).used(),
    {
        self.inner.synchronize_model()
    }

    /// Hands changes of the model on the host to the device.
    pub fn commit_sparse_host_model(&mut self, changes: &ParameterChanges) -> (r: LeoResult<()>)
        requires
            old(self).executor().sound(),
        ensures
            final(self).executor().sound(),
            old(self).executor().commits(*changes, final(self).executor(), r),
            final(self).asked() == old(self).asked(),
            final(self).used() == old(self).used(),
    {
        self.inner.commit_sparse_host_model(changes)
    }

    /// Tracks the changed parameters from now on.
    pub fn enable_parameter_tracking(&mut self)
        requires
            old(self).executor().sound(),
        ensures
            final(self).executor().sound(),
            old(self).executor().tracks(final(self).executor()),
            final(self).asked() == old(self).asked(),
            final(self).used() == old(self).used(),
    {
        self.inner.enable_parameter_tracking()
    }

    /// The parameters that changed.
    pub fn parameter_changes(&mut self) -> (r: LeoResult<ParameterChanges>)
        requires
            old(self).executor().sound(),
        ensures
            final(self).executor().sound(),
            old(self).executor().reports(final(self).executor(), r),
            final(self).asked() == old(self).asked(),
            final(self).used() == old(self).used(),
    {
        self.inner.parameter_changes()
    }

    /// Begins a document.
    pub fn begin_document(&mut self) -> (r: LeoResult<()>)
        requires
            old(self).executor().sound(),
        ensures
            final(self).executor().sound(),
            old(self).executor().begins(final(self).executor(), r),
            final(self).asked() == old(self).asked(),
            final(self).used() == old(self).used(),
    {
        self.inner.begin_document()
    }

    /// Ends a document.
    pub fn finish_document(&mut self) -> (r: LeoResult<()>)
        requires
            old(self).executor().sound(),
        ensures
            final(self).executor().sound(),
            old(self).executor().finishes(final(self).executor(), r),
            final(self).asked() == old(self).asked(),
            final(self).used() == old(self).used(),
    {
        self.inner.finish_document()
    }

    /// Forgets the document.
    pub fn reset_transient_state(&mut self) -> (r: LeoResult<()>)
        requires
            old(self).executor().sound(),
        ensures
            final(self).executor().sound(),
            old(self).executor().forgets(final(self).executor(), r),
            final(self).asked() == old(self).asked(),
            final(self).used() == old(self).used(),
    {
        self.inner.reset_transient_state()
    }

    /// Replaces the model; `changes` names the parameters that differ.
    pub fn synchronize_sparse_model(
        &mut self,
        canonical: Model,
        changes: &ParameterChanges,
    ) -> (r: LeoResult<()>)
        requires
            old(self).executor().sound(),
            old(self).executor().can_hold(canonical),
        ensures
            final(self).executor().sound(),
            old(self).executor().synchronizes(canonical, *changes, final(self).executor(), r),
            final(self).asked() == old(self).asked(),
            final(self).used() == old(self).used(),
    {
        self.inner.synchronize_sparse_model(canonical, changes)
    }

    /// Trains on a batch of stories at once.
    pub fn training_story_batch(
        &mut self,
        stories: &Vec<Vec<u8>>,
        permission: Permission,
    ) -> (r: LeoResult<Option<DeviceStoryBatchReport>>)
        requires
            old(self).executor().sound(),
        ensures
            final(self).executor().sound(),
            old(self).executor().trains(stories@, permission, final(self).executor(), r),
            final(self).asked() == old(self).asked(),
            final(self).used() == old(self).used(),
    {
        self.inner.training_story_batch(stories, permission)
    }

    /// Trains on a batch of stories at once and keeps the change of each.
    pub fn training_story_batch_deltas(
        &mut self,
        stories: &Vec<Vec<u8>>,
        permission: Permission,
    ) -> (r: LeoResult<Option<DeviceStoryBatchDeltaReport>>)
        requires
            old(self).executor().sound(),
        ensures
            final(self).executor().sound(),
            old(self).executor().trains_apart(stories@, permission, final(self).executor(), r),
            final(self).asked() == old(self).asked(),
            final(self).used() == old(self).used(),
    {
        self.inner.training_story_batch_deltas(stories, permission)
    }

    /// Takes one step.
    pub fn step(
        &mut self,
        symbol: u32,
        target: Option<u32>,
        permission: Permission,
    ) -> (r: LeoResult<StepMetrics>)
        requires
            old(self).executor().sound(),
        ensures
            final(self).executor().sound(),
            old(self).executor().takes(symbol, target, permission, final(self).executor(), r),
            final(self).asked() == old(self).asked(),
            final(self).used() == old(self).used(),
    {
        self.inner.step(symbol, target, permission)
    }

    /// Takes a batch of steps.
    pub fn training_step_batch(
        &mut self,
        steps: &Vec<(u32, Option<u32>)>,
        permission: Permission,
    ) -> (r: LeoResult<Vec<StepMetrics>>)
        requires
            old(self).executor().sound(),
        ensures
            final(self).executor().sound(),
            old(self).executor().drills(steps@, permission, final(self).executor(), r),
            final(self).asked() == old(self).asked(),
            final(self).used() == old(self).used(),
    {
        self.inner.training_step_batch(steps, permission)
    }

    /// Advances the document through frozen steps and keeps no metrics of them.
    pub fn advance_frozen_batch(&mut self, steps: &Vec<(u32, Option<u32>)>) -> (r: LeoResult<()>)
        requires
            old(self).executor().sound(),
        ensures
            final(self).executor().sound(),
            old(self).executor().advances(steps@, final(self).executor(), r),
            final(self).asked() == old(self).asked(),
            final(self).used() == old(self).used(),
    {
        self.inner.advance_frozen_batch(steps)
    }
}

/// A fork of a runtime whose backend is a real one uses the backend that the runtime uses, and was
/// asked for it, whatever the runtime itself was asked for.
pub proof fn law_forks_keep_the_backend<E: RuntimeBackend>(
    runtime: BackendRuntime<E>,
    model: Model,
    r: LeoResult<BackendRuntime<E>>,
)
    requires
        runtime.used() != BackendKind::Auto,
        runtime.forked(model, r),
        r is Ok,
    ensures
        r->Ok_0.used() == runtime.used(),
        r->Ok_0.asked() == runtime.used(),
{
}

/// A runtime that was asked for the GPU never runs on the CPU, and one that was asked for
/// the CPU never on the GPU.
pub proof fn law_request_is_kept(requested: BackendKind, resolved: BackendKind)
    requires
        mismatch(requested, resolved) is None,
    ensures
        resolved != BackendKind::Auto,
        requested == BackendKind::Gpu ==> resolved == BackendKind::Gpu,
        requested == BackendKind::Cpu ==> resolved == BackendKind::Cpu,
{
}

/// The backend whose executor is built for a request: only a request for the GPU gets one
/// on the GPU.
pub fn executor_for(requested: BackendKind) -> (r: BackendKind)
    ensures
        r == (if requested == BackendKind::Gpu {
            BackendKind::Gpu
        } else {
            BackendKind::Cpu
        }),
        mismatch(requested, r) is None,
{
    match requested {
        BackendKind::Gpu => BackendKind::Gpu,
        _ => BackendKind::Cpu,
    }
}

/// What becomes of a batch of stories on the GPU.
#[derive(Debug)]
pub enum StoryBatchAdmission {
    /// The batch is left to the ordinary path.
    NotTaken,
    /// The batch is refused.
    Refused(LeoError),
    /// The batch is run, after so many more lanes were allocated.
    Run(usize),
}

/// Decides whether a batch of stories runs on the GPU: an empty batch does not, nor does a
/// single story unless its change is to be kept; too many are refused.
pub fn run_story_batch_cuda(
    story_count: usize,
    retain_story_deltas: bool,
    allocated_lanes: usize,
) -> (r: StoryBatchAdmission)
    ensures
        if story_count == 0 || (story_count < 2 && !retain_story_deltas) {
            r is NotTaken
        } else if story_count > GPU_STORY_BATCH_MAX_LANES {
            r matches StoryBatchAdmission::Refused(e) && e.says(
                LeoErrorKind::Backend,
                "GPU-native story batching supports at most "@ + crate::text::decimal(128)
                    + " stories per batch; got "@ + crate::text::decimal(story_count as nat)
                    + ""@,
            )
        } else {
            r matches StoryBatchAdmission::Run(more) && more == (if allocated_lanes
                < story_count {
                story_count - allocated_lanes
            } else {
                0
            })
        },
{
    if story_count == 0 || (story_count < 2 && !retain_story_deltas) {
        return StoryBatchAdmission::NotTaken;
    }
    if story_count > GPU_STORY_BATCH_MAX_LANES {
        return StoryBatchAdmission::Refused(
            LeoError::backend(
                with_numbers(
                    "GPU-native story batching supports at most ",
                    GPU_STORY_BATCH_MAX_LANES as u64,
                    " stories per batch; got ",
                    story_count as u64,
                    "",
                ),
            ),
        );
    }
    if allocated_lanes < story_count {
        StoryBatchAdmission::Run(story_count - allocated_lanes)
    } else {
        StoryBatchAdmission::Run(0)
    }
}

} // verus!
