//! What a device keeps from one run to the next: compiled kernels, tuned plans and a recorded
//! sequence of launches.

use crate::model::Model;
use crate::semantics::{CUDA_ABI_VERSION, EXECUTION_SEMANTICS_VERSION};
use crate::step_kernels::StepKernel;
use crate::text::{append_decimal, decimal, same_text, trim, trimmed};
use vstd::prelude::*;
use vstd::string::StringExecFns;

verus! {

impl StepKernel {
    /// The name of the kernel in the compiled module.
    pub open spec fn entry(self) -> Seq<char> {
        match self {
            StepKernel::StartTick => "leo_start_tick"@,
            StepKernel::DeliverEvents => "leo_deliver_events"@,
            StepKernel::InjectSymbol => "leo_inject_symbol"@,
            StepKernel::ContextResolve => "leo_context_resolve"@,
            StepKernel::SelectBlocks => "leo_select_blocks"@,
            StepKernel::SelectGlobal => "leo_select_global"@,
            StepKernel::CacheSurrogate => "leo_cache_surrogate"@,
            StepKernel::UpdateRecurrentEligibility => "leo_update_recurrent_eligibility"@,
            StepKernel::UpdateInputEligibility => "leo_update_input_eligibility"@,
            StepKernel::PostAndEmit => "leo_post_and_emit"@,
            StepKernel::Forward => "leo_forward"@,
            StepKernel::LearningSignals => "leo_learning_signals"@,
            StepKernel::UpdateOutput => "leo_update_output"@,
            StepKernel::UpdateContext => "leo_update_context"@,
            StepKernel::UpdateRecurrentWeights => "leo_update_recurrent_weights"@,
            StepKernel::UpdateInputWeights => "leo_update_input_weights"@,
            StepKernel::InhibitoryHomeostasis => "leo_inhibitory_homeostasis"@,
            StepKernel::Homeostasis => "leo_homeostasis"@,
            StepKernel::CaptureTrainingStep => "leo_capture_training_step"@,
            StepKernel::ResetLastTicks => "leo_reset_last_ticks"@,
        }
    }

    /// The name of the kernel in the compiled module.
    pub fn entry_name(self) -> (r: &'static str)
        ensures
            r@ == self.entry(),
    {
        match self {
            StepKernel::StartTick => "leo_start_tick",
            StepKernel::DeliverEvents => "leo_deliver_events",
            StepKernel::InjectSymbol => "leo_inject_symbol",
            StepKernel::ContextResolve => "leo_context_resolve",
            StepKernel::SelectBlocks => "leo_select_blocks",
            StepKernel::SelectGlobal => "leo_select_global",
            StepKernel::CacheSurrogate => "leo_cache_surrogate",
            StepKernel::UpdateRecurrentEligibility => "leo_update_recurrent_eligibility",
            StepKernel::UpdateInputEligibility => "leo_update_input_eligibility",
            StepKernel::PostAndEmit => "leo_post_and_emit",
            StepKernel::Forward => "leo_forward",
            StepKernel::LearningSignals => "leo_learning_signals",
            StepKernel::UpdateOutput => "leo_update_output",
            StepKernel::UpdateContext => "leo_update_context",
            StepKernel::UpdateRecurrentWeights => "leo_update_recurrent_weights",
            StepKernel::UpdateInputWeights => "leo_update_input_weights",
            StepKernel::InhibitoryHomeostasis => "leo_inhibitory_homeostasis",
            StepKernel::Homeostasis => "leo_homeostasis",
            StepKernel::CaptureTrainingStep => "leo_capture_training_step",
            StepKernel::ResetLastTicks => "leo_reset_last_ticks",
        }
    }
}

/// The text of a module: the exchanged structures, then the kernels.
pub fn kernel_source(header: &str, body: &str) -> (r: String)
    ensures
        r@ == header@ + "\n"@ + body@,
{
    let mut source: String = header.to_owned();
    source.append("\n");
    source.append(body);
    source
}

/// What a device is known by.
pub struct HardwareIdentity {
    pub device_ordinal: u64,
    pub name: String,
    pub uuid: String,
    pub pci_bus_id: String,
    pub total_memory_bytes: u64,
    pub driver_version: u64,
    pub compute_major: u64,
    pub compute_minor: u64,
    pub multiprocessor_count: u64,
    pub max_threads_per_sm: u64,
}

/// What names a device in the identity of a plan.
pub open spec fn hardware_material(h: HardwareIdentity) -> Seq<char> {
    "leo-cuda-plan-v4|device="@ + decimal(h.device_ordinal as nat) + "|name="@ + h.name@
        + "|uuid="@ + h.uuid@ + "|pci="@ + h.pci_bus_id@ + "|vram="@ + decimal(
        h.total_memory_bytes as nat,
    ) + "|driver="@ + decimal(h.driver_version as nat) + "|cc="@ + decimal(h.compute_major as nat)
        + "."@ + decimal(h.compute_minor as nat) + "|sm="@ + decimal(
        h.multiprocessor_count as nat,
    ) + "|threads_sm="@ + decimal(h.max_threads_per_sm as nat)
}

/// What names the code in the identity of a plan.
pub open spec fn code_material(source_digest: Seq<char>) -> Seq<char> {
    "|abi="@ + decimal(CUDA_ABI_VERSION as nat) + "|semantics="@ + decimal(
        EXECUTION_SEMANTICS_VERSION as nat,
    ) + "|source="@ + source_digest
}

/// What names a model's shape in the identity of a plan.
pub open spec fn shape_material(m: Model) -> Seq<char> {
    "|n="@ + decimal(m.config.model.neuron_count as nat) + "|blocks="@ + decimal(
        m.config.model.block_count as nat,
    ) + "|npb="@ + decimal(m.config.model.neurons_per_block as nat) + "|rec="@ + decimal(
        m.recurrent.weight@.len(),
    ) + "|input="@ + decimal(m.input.weights@.len()) + "|ctx="@ + decimal(m.context.keys@.len())
        + "|ctxdim="@ + decimal(m.config.context.embedding_dim as nat)
}

fn append_number(out: &mut String, label: &str, n: u64)
    ensures
        final(out)@ == old(out)@ + label@ + decimal(n as nat),
{
    out.append(label);
    append_decimal(out, n);
}

fn append_word(out: &mut String, label: &str, word: &str)
    ensures
        final(out)@ == old(out)@ + label@ + word@,
{
    out.append(label);
    out.append(word);
}

fn append_hardware(out: &mut String, h: &HardwareIdentity)
    ensures
        final(out)@ == old(out)@ + hardware_material(*h),
{
    append_number(out, "leo-cuda-plan-v4|device=", h.device_ordinal);
    append_word(out, "|name=", h.name.as_str());
    append_word(out, "|uuid=", h.uuid.as_str());
    append_word(out, "|pci=", h.pci_bus_id.as_str());
    append_number(out, "|vram=", h.total_memory_bytes);
    append_number(out, "|driver=", h.driver_version);
    append_number(out, "|cc=", h.compute_major);
    append_number(out, ".", h.compute_minor);
    append_number(out, "|sm=", h.multiprocessor_count);
    append_number(out, "|threads_sm=", h.max_threads_per_sm);
    assert(out@ =~= old(out)@ + hardware_material(*h));
}

fn append_code(out: &mut String, source_digest: &str)
    ensures
        final(out)@ == old(out)@ + code_material(source_digest@),
{
    append_number(out, "|abi=", CUDA_ABI_VERSION as u64);
    append_number(out, "|semantics=", EXECUTION_SEMANTICS_VERSION as u64);
    append_word(out, "|source=", source_digest);
    assert(out@ =~= old(out)@ + code_material(source_digest@));
}

fn append_shape(out: &mut String, m: &Model)
    ensures
        final(out)@ == old(out)@ + shape_material(*m),
{
    append_number(out, "|n=", m.neuron_count() as u64);
    append_number(out, "|blocks=", m.config.model.block_count as u64);
    append_number(out, "|npb=", m.config.model.neurons_per_block as u64);
    append_number(out, "|rec=", m.recurrent.weight.len() as u64);
    append_number(out, "|input=", m.input.weights.len() as u64);
    append_number(out, "|ctx=", m.context.keys.len() as u64);
    append_number(out, "|ctxdim=", m.config.context.embedding_dim as u64);
    assert(out@ =~= old(out)@ + shape_material(*m));
}

/// What the identity of a tuned plan is the digest of: the device, the code and the shape of the
/// model.
pub fn execution_profile_material(m: &Model, h: &HardwareIdentity, source_digest: &str) -> (r:
    String)
    ensures
        r@ == hardware_material(*h) + code_material(source_digest@) + shape_material(*m),
{
    let mut out: String = "".to_owned();
    proof {
        reveal_strlit("");
    }
    append_hardware(&mut out, h);
    append_code(&mut out, source_digest);
    append_shape(&mut out, m);
    assert(out@ =~= hardware_material(*h) + code_material(source_digest@) + shape_material(*m));
    out
}

/// What the identity of compiled kernels is the digest of: the target, the compiler, the
/// language and the two texts.
pub open spec fn kernel_cache_text(
    compute_major: nat,
    compute_minor: nat,
    compiler_major: nat,
    compiler_minor: nat,
    header_digest: Seq<char>,
    source_digest: Seq<char>,
) -> Seq<char> {
    "leo-ptx-v1|cc="@ + decimal(compute_major) + "."@ + decimal(compute_minor) + "|nvrtc="@
        + decimal(compiler_major) + "."@ + decimal(compiler_minor) + "|abi="@ + decimal(
        CUDA_ABI_VERSION as nat,
    ) + "|semantics="@ + decimal(EXECUTION_SEMANTICS_VERSION as nat) + "|std=c++11|header="@
        + header_digest + "|source="@ + source_digest
}

/// What the identity of compiled kernels is the digest of.
pub fn kernel_cache_material(
    compute_major: u64,
    compute_minor: u64,
    compiler_major: u64,
    compiler_minor: u64,
    header_digest: &str,
    source_digest: &str,
) -> (r: String)
    ensures
        r@ == kernel_cache_text(
            compute_major as nat,
            compute_minor as nat,
            compiler_major as nat,
            compiler_minor as nat,
            header_digest@,
            source_digest@,
        ),
{
    let mut out: String = "".to_owned();
    proof {
        reveal_strlit("");
    }
    append_number(&mut out, "leo-ptx-v1|cc=", compute_major);
    append_number(&mut out, ".", compute_minor);
    append_number(&mut out, "|nvrtc=", compiler_major);
    append_number(&mut out, ".", compiler_minor);
    append_number(&mut out, "|abi=", CUDA_ABI_VERSION as u64);
    append_number(&mut out, "|semantics=", EXECUTION_SEMANTICS_VERSION as u64);
    append_word(&mut out, "|std=c++11|header=", header_digest);
    append_word(&mut out, "|source=", source_digest);
    assert(out@ =~= kernel_cache_text(
        compute_major as nat,
        compute_minor as nat,
        compiler_major as nat,
        compiler_minor as nat,
        header_digest@,
        source_digest@,
    ));
    out
}

/// Compiled kernels that were kept are used again only where they are there and their digest is
/// the one that was kept beside them.
pub fn kept_kernels_usable(kernels: &Vec<u8>, digest: &str, kept_digest: &str) -> (r: bool)
    ensures
        r == (kernels.len() > 0 && digest@ == trimmed(kept_digest@)),
{
    kernels.len() > 0 && same_text(digest, trim(kept_digest))
}

/// A recorded sequence of launches.
#[derive(Debug, Clone, Copy)]
pub struct LaunchRecording {
    /// The grid that the sequence is recorded for.
    pub recorded: Option<(u32, u32)>,
}

/// What is done with a sequence of launches.
#[derive(Debug, Clone, Copy, PartialEq, Eq, Structural)]
pub enum RecordingAction {
    /// Run what was recorded.
    Replay,
    /// Record it, then say whether that worked.
    Record,
    /// Launch one kernel after the other.
    Direct,
}

/// The grid of the launch that applies the sums of a batch: at least one block of a warp.
pub open spec fn apply_grid(blocks: u32, threads: u32) -> (u32, u32) {
    (
        if blocks < 1 {
            1
        } else {
            blocks
        },
        if threads < 32 {
            32
        } else {
            threads
        },
    )
}

impl LaunchRecording {
    /// Nothing is recorded.
    pub fn new() -> (r: LaunchRecording)
        ensures
            r == (LaunchRecording { recorded: None }),
    {
        LaunchRecording { recorded: None }
    }

    /// What is done with a sequence of launches over a grid.
    pub open spec fn choice(self, grid: (u32, u32), can_replay: bool) -> RecordingAction {
        if self.recorded == Some(grid) && can_replay {
            RecordingAction::Replay
        } else {
            RecordingAction::Record
        }
    }

    /// Decides how a sequence of launches is run. A recording for another grid, or one that the
    /// device cannot run, is thrown away. Gives what to do, over which grid, and whether a
    /// recording has to be destroyed.
    pub fn open(&mut self, blocks: u32, threads: u32, can_replay: bool) -> (r: (
        RecordingAction,
        (u32, u32),
        bool,
    ))
        ensures
            r.1 == apply_grid(blocks, threads),
            r.0 == old(self).choice(r.1, can_replay),
            r.2 == (old(self).recorded is Some && r.0 != RecordingAction::Replay),
            *final(self) == (LaunchRecording {
                recorded: if r.0 == RecordingAction::Replay {
                    Some(r.1)
                } else {
                    None
                },
            }),
    {
        let wide: u32 = if blocks < 1 {
            1
        } else {
            blocks
        };
        let deep: u32 = if threads < 32 {
            32
        } else {
            threads
        };
        match self.recorded {
            Some((x, y)) => {
                if x == wide && y == deep && can_replay {
                    (RecordingAction::Replay, (wide, deep), false)
                } else {
                    self.recorded = None;
                    (RecordingAction::Record, (wide, deep), true)
                }
            },
            None => (RecordingAction::Record, (wide, deep), false),
        }
    }

    /// Takes in whether a recording over a grid worked, and says how the sequence is run now. A
    /// recording that did not work leaves nothing behind: the next call tries it again.
    pub fn close(&mut self, grid: (u32, u32), worked: bool, can_replay: bool) -> (r:
        RecordingAction)
        ensures
            *final(self) == (LaunchRecording {
                recorded: if worked {
                    Some(grid)
                } else {
                    old(self).recorded
                },
            }),
            r == if worked && can_replay {
                RecordingAction::Replay
            } else {
                RecordingAction::Direct
            },
    {
        if worked {
            self.recorded = Some(grid);
        }
        if worked && can_replay {
            RecordingAction::Replay
        } else {
            RecordingAction::Direct
        }
    }
}

/// What was recorded for a grid is run from the recording for as long as that grid is asked for,
/// and what could not be recorded is recorded anew.
pub proof fn law_recordings_are_run_again(grid: (u32, u32), worked: bool)
    ensures
        (LaunchRecording {
            recorded: if worked {
                Some(grid)
            } else {
                None
            },
        }).choice(grid, true) == if worked {
            RecordingAction::Replay
        } else {
            RecordingAction::Record
        },
{
}

} // verus!
