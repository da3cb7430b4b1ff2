//! The shape of a device: its limits, its buffers and the geometry of its launches.

use crate::config::Config;
use crate::context::capped;
use crate::error::{fails, LeoError, LeoErrorKind, LeoResult};
use crate::model::{is_delay, Model};
use crate::runtime::capped_product;
use crate::scalar::Scalar;
use crate::symbols::Alphabet;
use crate::text::{decimal, with_number, with_numbers, with_three_numbers, with_word};
use vstd::prelude::*;

verus! {

/// Threads of a block in an ordinary launch.
pub const THREADS: u32 = 256;

/// Threads of the block that predicts.
pub const FORWARD_THREADS: u32 = 512;

/// Threads of the block that selects the winners of all blocks.
pub const GLOBAL_SELECTION_THREADS: u32 = 1024;

/// Threads of a block of a persistent kernel.
pub const PERSISTENT_THREADS: u32 = 256;

/// Threads of a block that serves the lanes of a story batch.
pub const SHARED_BATCH_THREADS: u32 = 256;

/// How many winners a block can have.
pub const MAX_BLOCK_WINNERS: usize = 64;

/// How many winners all blocks can have together.
pub const MAX_GLOBAL_BLOCK_WINNERS: usize = 1024;

/// How many items of a sparse list one launch covers.
pub const SPARSE_LIST_WORK_ITEMS: usize = 65536;

/// The message of a number that does not fit.
pub open spec fn capacity_message(name: Seq<char>) -> Seq<char> {
    ""@ + name + " exceeds CUDA u32 capacity"@
}

/// A count as a device holds it.
pub fn as_u32(name: &str, value: usize) -> (r: LeoResult<u32>)
    ensures
        value <= u32::MAX ==> r == Ok::<u32, LeoError>(value as u32),
        value > u32::MAX ==> fails(r, LeoErrorKind::Cuda, capacity_message(name@)),
{
    if value as u64 <= u32::MAX as u64 {
        Ok(value as u32)
    } else {
        Err(LeoError::cuda(with_word("", name, " exceeds CUDA u32 capacity")))
    }
}

/// Checks that a driver has the requested device.
pub fn select_device(device_count: i32, requested: usize) -> (r: LeoResult<usize>)
    ensures
        device_count <= 0 ==> fails(
            r,
            LeoErrorKind::Cuda,
            "CUDA driver reported no GPU devices"@,
        ),
        0 < device_count && requested < device_count ==> r == Ok::<usize, LeoError>(requested),
        0 < device_count <= requested ==> fails(
            r,
            LeoErrorKind::Cuda,
            "CUDA device "@ + decimal(requested as nat)
                + " is outside available CUDA devices 0.."@ + decimal((device_count - 1) as nat)
                + ""@,
        ),
{
    if device_count <= 0 {
        return Err(LeoError::cuda("CUDA driver reported no GPU devices".to_owned()));
    }
    if requested >= device_count as usize {
        return Err(
            LeoError::cuda(
                with_numbers(
                    "CUDA device ",
                    requested as u64,
                    " is outside available CUDA devices 0..",
                    (device_count - 1) as u64,
                    "",
                ),
            ),
        );
    }
    Ok(requested)
}

/// Why the executor cannot take a model.
pub open spec fn shape_problem(m: Model) -> Option<Seq<char>> {
    let c = m.config.model;
    let winners = c.block_count * c.max_active_per_block;
    if c.max_active_per_block > MAX_BLOCK_WINNERS {
        Some(
            "GPU executor supports max_active_per_block <= 64; got "@ + decimal(
                c.max_active_per_block as nat,
            ) + ""@,
        )
    } else if winners > usize::MAX {
        Some("GPU block-winner count overflow"@)
    } else if winners > MAX_GLOBAL_BLOCK_WINNERS {
        Some(
            "GPU executor requires block_count * max_active_per_block <= 1024; got "@ + decimal(
                winners as nat,
            ) + ""@,
        )
    } else if c.neurons_per_block > 1024 {
        Some("GPU executor requires neurons_per_block <= 1024"@)
    } else if m.config.context.max_order > 16 || m.config.context.embedding_dim > 256 {
        Some("GPU executor context limits are max_order <= 16 and embedding_dim <= 256"@)
    } else if !delays_known(m.recurrent.delay@) {
        Some("GPU executor requires recurrent delays to be one of 1, 2, 4, or 8"@)
    } else {
        None
    }
}

/// Every delay is one that the delay ring carries.
pub open spec fn delays_known(delays: Seq<u8>) -> bool {
    forall|i: int| 0 <= i < delays.len() ==> is_delay(#[trigger] delays[i])
}

fn known_delays(delays: &Vec<u8>) -> (r: bool)
    ensures
        r == delays_known(delays@),
{
    let mut i: usize = 0;
    while i < delays.len()
        invariant
            i <= delays.len(),
            forall|k: int| 0 <= k < i ==> is_delay(#[trigger] delays@[k]),
        decreases delays.len() - i,
    {
        let delay: u8 = delays[i];
        if !(delay == 1 || delay == 2 || delay == 4 || delay == 8) {
            assert(!is_delay(delays@[i as int]));
            return false;
        }
        i = i + 1;
    }
    true
}

/// Refuses a model that the executor cannot take.
pub fn validate_gpu_shape(m: &Model) -> (r: LeoResult<()>)
    ensures
        match shape_problem(*m) {
            Some(text) => fails(r, LeoErrorKind::Cuda, text),
            None => r is Ok,
        },
{
    let c = &m.config.model;
    if c.max_active_per_block > MAX_BLOCK_WINNERS {
        return Err(
            LeoError::cuda(
                with_number(
                    "GPU executor supports max_active_per_block <= 64; got ",
                    c.max_active_per_block as u64,
                    "",
                ),
            ),
        );
    }
    let winners: usize = match c.block_count.checked_mul(c.max_active_per_block) {
        Some(winners) => winners,
        None => {
            return Err(LeoError::cuda("GPU block-winner count overflow".to_owned()));
        },
    };
    if winners > MAX_GLOBAL_BLOCK_WINNERS {
        return Err(
            LeoError::cuda(
                with_number(
                    "GPU executor requires block_count * max_active_per_block <= 1024; got ",
                    winners as u64,
                    "",
                ),
            ),
        );
    }
    if c.neurons_per_block > 1024 {
        return Err(
            LeoError::cuda("GPU executor requires neurons_per_block <= 1024".to_owned()),
        );
    }
    if m.config.context.max_order > 16 || m.config.context.embedding_dim > 256 {
        return Err(
            LeoError::cuda(
                "GPU executor context limits are max_order <= 16 and embedding_dim <= 256".to_owned(),
            ),
        );
    }
    if !known_delays(&m.recurrent.delay) {
        return Err(
            LeoError::cuda(
                "GPU executor requires recurrent delays to be one of 1, 2, 4, or 8".to_owned(),
            ),
        );
    }
    Ok(())
}

/// What the executor can take also fits its selection buffers.
pub proof fn law_accepted_shape_fits_the_selection(m: Model)
    requires
        shape_problem(m) is None,
    ensures
        m.config.model.block_count * m.config.model.max_active_per_block
            <= MAX_GLOBAL_BLOCK_WINNERS,
        m.config.model.max_active_per_block <= MAX_BLOCK_WINNERS,
        delays_known(m.recurrent.delay@),
{
}

/// What a driver says of a device: raw attributes, and for each kernel how many of its blocks
/// one multiprocessor holds.
#[derive(Debug, Clone, Copy, PartialEq, Eq, Structural)]
pub struct DeviceQuery {
    pub cooperative_launch: i32,
    pub multiprocessor_count: i32,
    pub max_threads_per_sm: i32,
    pub fused_128: i32,
    pub fused_256: i32,
    pub fused_512: i32,
    pub shared_persistent_256: i32,
    pub shared_grouped_256: i32,
    pub fused_profile_256: i32,
    pub frozen: i32,
    pub frozen_profile: i32,
    pub replay: i32,
    pub replay_fast: i32,
    pub replay_profile: i32,
    pub persistent: i32,
}

/// How many blocks of a kernel can be resident at once, over the whole device.
pub open spec fn resident_blocks(cooperative: bool, multiprocessors: i32, per_sm: i32) -> u32 {
    if !cooperative || multiprocessors <= 0 || per_sm <= 0 {
        0
    } else if per_sm * multiprocessors > u32::MAX {
        u32::MAX
    } else {
        (per_sm * multiprocessors) as u32
    }
}

/// How many blocks of a kernel can be resident at once, over the whole device.
pub fn cooperative_grid_capacity(cooperative: bool, multiprocessors: i32, per_sm: i32) -> (r: u32)
    ensures
        r == resident_blocks(cooperative, multiprocessors, per_sm),
{
    if !cooperative || multiprocessors <= 0 || per_sm <= 0 {
        return 0;
    }
    match (per_sm as u32).checked_mul(multiprocessors as u32) {
        Some(blocks) => blocks,
        None => u32::MAX,
    }
}

/// The limits of a device.
#[derive(Debug, Clone, Copy, PartialEq, Eq, Structural)]
pub struct DeviceLimits {
    pub cooperative_launch: bool,
    pub multiprocessor_count: u32,
    pub max_threads_per_sm: u32,
    pub persistent_grid_blocks: u32,
    pub replay_grid_blocks: u32,
    pub replay_fast_grid_blocks: u32,
    pub replay_profile_grid_blocks: u32,
    pub frozen_grid_blocks: u32,
    pub frozen_profile_grid_blocks: u32,
    pub fused_blocks_128: u32,
    pub fused_blocks_256: u32,
    pub fused_blocks_512: u32,
    pub shared_persistent_blocks_256: u32,
    pub shared_grouped_blocks_256: u32,
    pub fused_profile_blocks_256: u32,
}

/// A raw count as a positive number.
pub open spec fn at_least_one(n: i32) -> u32 {
    if n < 1 {
        1
    } else {
        n as u32
    }
}

fn positive(n: i32) -> (r: u32)
    ensures
        r == at_least_one(n),
{
    if n < 1 {
        1
    } else {
        n as u32
    }
}

impl DeviceLimits {
    /// The limits that a query gives. The persistent trainer gets one block, where the device
    /// can hold one.
    pub open spec fn of_query(q: DeviceQuery) -> DeviceLimits {
        let cooperative = q.cooperative_launch != 0;
        let sms = q.multiprocessor_count;
        DeviceLimits {
            cooperative_launch: cooperative,
            multiprocessor_count: at_least_one(sms),
            max_threads_per_sm: at_least_one(q.max_threads_per_sm),
            persistent_grid_blocks: if cooperative && sms > 0 && q.persistent > 0 {
                1
            } else {
                0
            },
            replay_grid_blocks: resident_blocks(cooperative, sms, q.replay),
            replay_fast_grid_blocks: resident_blocks(cooperative, sms, q.replay_fast),
            replay_profile_grid_blocks: resident_blocks(cooperative, sms, q.replay_profile),
            frozen_grid_blocks: resident_blocks(cooperative, sms, q.frozen),
            frozen_profile_grid_blocks: resident_blocks(cooperative, sms, q.frozen_profile),
            fused_blocks_128: resident_blocks(cooperative, sms, q.fused_128),
            fused_blocks_256: resident_blocks(cooperative, sms, q.fused_256),
            fused_blocks_512: resident_blocks(cooperative, sms, q.fused_512),
            shared_persistent_blocks_256: resident_blocks(
                cooperative,
                sms,
                q.shared_persistent_256,
            ),
            shared_grouped_blocks_256: resident_blocks(cooperative, sms, q.shared_grouped_256),
            fused_profile_blocks_256: resident_blocks(cooperative, sms, q.fused_profile_256),
        }
    }

    /// The limits that a query gives.
    pub fn from_query(q: &DeviceQuery) -> (r: DeviceLimits)
        ensures
            r == DeviceLimits::of_query(*q),
    {
        let cooperative: bool = q.cooperative_launch != 0;
        let sms: i32 = q.multiprocessor_count;
        DeviceLimits {
            cooperative_launch: cooperative,
            multiprocessor_count: positive(sms),
            max_threads_per_sm: positive(q.max_threads_per_sm),
            persistent_grid_blocks: if cooperative && sms > 0 && q.persistent > 0 {
                1
            } else {
                0
            },
            replay_grid_blocks: cooperative_grid_capacity(cooperative, sms, q.replay),
            replay_fast_grid_blocks: cooperative_grid_capacity(cooperative, sms, q.replay_fast),
            replay_profile_grid_blocks: cooperative_grid_capacity(
                cooperative,
                sms,
                q.replay_profile,
            ),
            frozen_grid_blocks: cooperative_grid_capacity(cooperative, sms, q.frozen),
            frozen_profile_grid_blocks: cooperative_grid_capacity(
                cooperative,
                sms,
                q.frozen_profile,
            ),
            fused_blocks_128: cooperative_grid_capacity(cooperative, sms, q.fused_128),
            fused_blocks_256: cooperative_grid_capacity(cooperative, sms, q.fused_256),
            fused_blocks_512: cooperative_grid_capacity(cooperative, sms, q.fused_512),
            shared_persistent_blocks_256: cooperative_grid_capacity(
                cooperative,
                sms,
                q.shared_persistent_256,
            ),
            shared_grouped_blocks_256: cooperative_grid_capacity(
                cooperative,
                sms,
                q.shared_grouped_256,
            ),
            fused_profile_blocks_256: cooperative_grid_capacity(
                cooperative,
                sms,
                q.fused_profile_256,
            ),
        }
    }
}

/// A device without cooperative launches has no resident blocks at all.
pub proof fn law_no_grid_without_cooperation(q: DeviceQuery)
    requires
        q.cooperative_launch == 0,
    ensures
        ({
            let l = DeviceLimits::of_query(q);
            &&& l.persistent_grid_blocks == 0
            &&& l.replay_grid_blocks == 0
            &&& l.replay_fast_grid_blocks == 0
            &&& l.replay_profile_grid_blocks == 0
            &&& l.frozen_grid_blocks == 0
            &&& l.frozen_profile_grid_blocks == 0
            &&& l.fused_blocks_128 == 0
            &&& l.fused_blocks_256 == 0
            &&& l.fused_blocks_512 == 0
            &&& l.shared_persistent_blocks_256 == 0
            &&& l.shared_grouped_blocks_256 == 0
            &&& l.fused_profile_blocks_256 == 0
        }),
{
}

/// How many blocks cover some work.
pub open spec fn blocks_for(work: int, threads: int) -> int {
    (work + threads - 1) / threads
}

/// The grid of a launch over some work; none where there is no work.
pub fn launch_grid(work: usize, threads: u32) -> (r: Option<u32>)
    requires
        0 < threads,
    ensures
        work == 0 ==> r is None,
        work > 0 ==> r == Some(blocks_for(work as int, threads as int) as u32),
{
    if work == 0 {
        return None;
    }
    let wide: u128 = (work as u128 + threads as u128 - 1) / (threads as u128);
    assert(wide == blocks_for(work as int, threads as int));
    Some(#[verifier::truncate] (wide as u32))
}

/// The blocks of a launch cover its work, and none of them is idle.
pub proof fn law_grid_covers_work(work: int, threads: int)
    requires
        0 < work,
        0 < threads,
    ensures
        work <= blocks_for(work, threads) * threads,
        (blocks_for(work, threads) - 1) * threads < work,
{
    let q = blocks_for(work, threads);
    assert(work <= q * threads && (q - 1) * threads < work) by (nonlinear_arith)
        requires
            0 < work,
            0 < threads,
            q == (work + threads - 1) / threads,
    ;
}

/// A stretch of device memory.
#[derive(Debug, Clone, Copy, PartialEq, Eq, Structural)]
pub struct DeviceBuffer {
    pub pointer: u64,
    pub bytes: usize,
}

/// A place in device memory.
pub fn device_pointer_offset(pointer: u64, bytes: usize) -> (r: LeoResult<u64>)
    ensures
        pointer + bytes <= u64::MAX ==> r == Ok::<u64, LeoError>((pointer + bytes) as u64),
        pointer + bytes > u64::MAX ==> fails(
            r,
            LeoErrorKind::Cuda,
            "CUDA device pointer offset overflow"@,
        ),
{
    match pointer.checked_add(bytes as u64) {
        Some(offset) => Ok(offset),
        None => Err(LeoError::cuda("CUDA device pointer offset overflow".to_owned())),
    }
}

/// The part of a buffer that holds `elements` elements from `offset` on.
pub open spec fn part_of(
    buffer: DeviceBuffer,
    offset: int,
    elements: int,
    size: int,
) -> Option<DeviceBuffer> {
    let start = capped(offset * size);
    let bytes = capped(elements * size);
    if start <= buffer.bytes && bytes <= buffer.bytes - start {
        Some(DeviceBuffer { pointer: (buffer.pointer + start) as u64, bytes: bytes as usize })
    } else {
        None
    }
}

/// A part of a buffer.
pub fn device_sub_buffer(
    buffer: DeviceBuffer,
    element_offset: usize,
    elements: usize,
    element_size: usize,
) -> (r: LeoResult<DeviceBuffer>)
    ensures
        match part_of(
            buffer,
            element_offset as int,
            elements as int,
            element_size as int,
        ) {
            None => fails(
                r,
                LeoErrorKind::Cuda,
                "CUDA snapshot device sub-buffer exceeds allocated capacity"@,
            ),
            Some(part) => if buffer.pointer + capped(element_offset * element_size) <= u64::MAX {
                r == Ok::<DeviceBuffer, LeoError>(part)
            } else {
                fails(r, LeoErrorKind::Cuda, "CUDA device pointer offset overflow"@)
            },
        },
{
    let byte_offset: usize = capped_product(element_offset, element_size);
    let bytes: usize = capped_product(elements, element_size);
    if byte_offset > buffer.bytes || bytes > buffer.bytes - byte_offset {
        return Err(
            LeoError::cuda(
                "CUDA snapshot device sub-buffer exceeds allocated capacity".to_owned(),
            ),
        );
    }
    match device_pointer_offset(buffer.pointer, byte_offset) {
        Ok(pointer) => Ok(DeviceBuffer { pointer, bytes }),
        Err(e) => Err(e),
    }
}

/// A part of a buffer lies inside the buffer.
pub proof fn law_parts_lie_inside(buffer: DeviceBuffer, offset: int, elements: int, size: int)
    requires
        0 <= offset,
        0 <= elements,
        0 <= size,
        buffer.pointer + buffer.bytes <= u64::MAX,
    ensures
        part_of(buffer, offset, elements, size) matches Some(part) ==> buffer.pointer
            <= part.pointer && part.pointer + part.bytes <= buffer.pointer + buffer.bytes,
{
    assert(0 <= offset * size) by (nonlinear_arith)
        requires
            0 <= offset,
            0 <= size,
    ;
    assert(0 <= elements * size) by (nonlinear_arith)
        requires
            0 <= elements,
            0 <= size,
    ;
}

/// How a buffer is cleared: by words where its length allows it.
#[derive(Debug, Clone, Copy, PartialEq, Eq, Structural)]
pub enum Clearing {
    Nothing,
    Words(usize),
    Bytes(usize),
}

/// How a buffer is cleared.
pub fn clearing_of(buffer: DeviceBuffer) -> (r: Clearing)
    ensures
        r == if buffer.pointer == 0 || buffer.bytes == 0 {
            Clearing::Nothing
        } else if buffer.bytes % 4 == 0 {
            Clearing::Words((buffer.bytes / 4) as usize)
        } else {
            Clearing::Bytes(buffer.bytes)
        },
{
    if buffer.pointer == 0 || buffer.bytes == 0 {
        Clearing::Nothing
    } else if buffer.bytes % 4 == 0 {
        Clearing::Words(buffer.bytes / 4)
    } else {
        Clearing::Bytes(buffer.bytes)
    }
}

/// The number of bytes of an allocation: never zero.
pub open spec fn allocation(elements: int, size: int) -> int {
    let bytes = capped(elements * size);
    if bytes < 1 {
        1
    } else {
        bytes
    }
}

/// The number of bytes of an allocation.
pub fn allocation_bytes(elements: usize, element_size: usize) -> (r: usize)
    ensures
        r == allocation(elements as int, element_size as int),
{
    assert(0 <= elements * element_size) by (nonlinear_arith);
    let bytes: usize = capped_product(elements, element_size);
    if bytes < 1 {
        1
    } else {
        bytes
    }
}

/// The size that a snapshot buffer has to grow to, if it is too small.
pub fn grown_capacity(elements: usize, element_size: usize, held: usize) -> (r: Option<usize>)
    ensures
        r == if capped(elements * element_size) > held {
            Some(allocation(elements as int, element_size as int) as usize)
        } else {
            None
        },
{
    let bytes: usize = capped_product(elements, element_size);
    if bytes > held {
        Some(allocation_bytes(elements, element_size))
    } else {
        None
    }
}

/// A buffer that was grown holds what it was grown for, and is grown no more.
pub proof fn law_grown_buffers_suffice(elements: int, size: int)
    requires
        0 <= elements,
        0 <= size,
    ensures
        capped(elements * size) <= allocation(elements, size),
{
}

/// A copy between host and device memory: what it is called in its error.
#[derive(Debug, Clone, Copy, PartialEq, Eq, Structural)]
pub enum Transfer {
    Upload,
    Download,
    PinnedWrite,
    PinnedRead,
}

/// What is wrong with a copy that is larger than the memory it goes through.
pub open spec fn transfer_message(t: Transfer, bytes: nat, capacity: nat) -> Seq<char> {
    match t {
        Transfer::Upload => "CUDA upload of "@ + decimal(bytes)
            + " bytes exceeds buffer capacity "@ + decimal(capacity) + ""@,
        Transfer::Download => "CUDA download of "@ + decimal(bytes)
            + " bytes exceeds buffer capacity "@ + decimal(capacity) + ""@,
        Transfer::PinnedWrite => "CUDA pinned host write of "@ + decimal(bytes)
            + " bytes exceeds capacity "@ + decimal(capacity) + ""@,
        Transfer::PinnedRead => "CUDA pinned host read of "@ + decimal(bytes)
            + " bytes exceeds capacity "@ + decimal(capacity) + ""@,
    }
}

/// Checks a copy against the memory it goes through; gives the number of bytes to copy.
pub fn check_transfer(t: Transfer, elements: usize, element_size: usize, capacity: usize) -> (r:
    LeoResult<usize>)
    ensures
        ({
            let bytes = capped(elements * element_size);
            if bytes > capacity {
                fails(r, LeoErrorKind::Cuda, transfer_message(t, bytes as nat, capacity as nat))
            } else {
                r == Ok::<usize, LeoError>(bytes as usize)
            }
        }),
{
    assert(0 <= elements * element_size) by (nonlinear_arith);
    let bytes: usize = capped_product(elements, element_size);
    if bytes > capacity {
        let b: u64 = bytes as u64;
        let c: u64 = capacity as u64;
        let text: String = match t {
            Transfer::Upload => with_numbers(
                "CUDA upload of ",
                b,
                " bytes exceeds buffer capacity ",
                c,
                "",
            ),
            Transfer::Download => with_numbers(
                "CUDA download of ",
                b,
                " bytes exceeds buffer capacity ",
                c,
                "",
            ),
            Transfer::PinnedWrite => with_numbers(
                "CUDA pinned host write of ",
                b,
                " bytes exceeds capacity ",
                c,
                "",
            ),
            Transfer::PinnedRead => with_numbers(
                "CUDA pinned host read of ",
                b,
                " bytes exceeds capacity ",
                c,
                "",
            ),
        };
        return Err(LeoError::cuda(text));
    }
    Ok(bytes)
}

/// Checks a copy between pinned host memory and device memory.
pub fn check_pinned_transfer(
    upload: bool,
    elements: usize,
    element_size: usize,
    device: usize,
    host: usize,
) -> (r: LeoResult<usize>)
    ensures
        ({
            let bytes = capped(elements * element_size);
            let name = if upload {
                "CUDA pinned upload of "@
            } else {
                "CUDA pinned download of "@
            };
            if bytes > device || bytes > host {
                fails(
                    r,
                    LeoErrorKind::Cuda,
                    name + decimal(bytes as nat) + " bytes exceeds capacity device="@ + decimal(
                        device as nat,
                    ) + " host="@ + decimal(host as nat) + ""@,
                )
            } else {
                r == Ok::<usize, LeoError>(bytes as usize)
            }
        }),
{
    assert(0 <= elements * element_size) by (nonlinear_arith);
    let bytes: usize = capped_product(elements, element_size);
    if bytes > device || bytes > host {
        let name: &str = if upload {
            "CUDA pinned upload of "
        } else {
            "CUDA pinned download of "
        };
        return Err(
            LeoError::cuda(
                with_three_numbers(
                    name,
                    bytes as u64,
                    " bytes exceeds capacity device=",
                    device as u64,
                    " host=",
                    host as u64,
                    "",
                ),
            ),
        );
    }
    Ok(bytes)
}

/// Checks a copy inside device memory.
pub fn check_device_copy(target: DeviceBuffer, source: DeviceBuffer) -> (r: LeoResult<usize>)
    ensures
        target.bytes == source.bytes ==> r == Ok::<usize, LeoError>(target.bytes),
        target.bytes != source.bytes ==> fails(
            r,
            LeoErrorKind::Cuda,
            "CUDA device copy size mismatch target="@ + decimal(target.bytes as nat) + " source="@
                + decimal(source.bytes as nat) + ""@,
        ),
{
    if target.bytes != source.bytes {
        return Err(
            LeoError::cuda(
                with_numbers(
                    "CUDA device copy size mismatch target=",
                    target.bytes as u64,
                    " source=",
                    source.bytes as u64,
                    "",
                ),
            ),
        );
    }
    Ok(target.bytes)
}

/// Checks the dimensions of a cooperative launch.
pub fn check_cooperative_launch(grid: u32, block: u32) -> (r: LeoResult<()>)
    ensures
        0 < grid && 0 < block ==> r is Ok,
        grid == 0 || block == 0 ==> fails(
            r,
            LeoErrorKind::Cuda,
            "invalid CUDA cooperative launch dimensions"@,
        ),
{
    if grid == 0 || block == 0 {
        return Err(LeoError::cuda("invalid CUDA cooperative launch dimensions".to_owned()));
    }
    Ok(())
}

/// The larger of two counts.
pub open spec fn larger_of(a: int, b: int) -> int {
    if a < b {
        b
    } else {
        a
    }
}

fn larger_count(a: usize, b: usize) -> (r: usize)
    ensures
        r == larger_of(a as int, b as int),
{
    if a < b {
        b
    } else {
        a
    }
}

/// The work of the launch that resets the clocks of neurons and synapses.
pub fn reset_work(m: &Model) -> (r: usize)
    ensures
        r == larger_of(
            larger_of(m.config.model.neuron_count as int, m.recurrent.weight.len() as int),
            m.input.weights.len() as int,
        ),
{
    larger_count(
        larger_count(m.neuron_count(), m.recurrent.weight.len()),
        m.input.weights.len(),
    )
}

/// The work of the launch that merges the fixed parameters of the lanes.
pub fn fixed_merge_work(m: &Model, alphabet: &Alphabet) -> (r: usize)
    ensures
        r == larger_of(
            larger_of(
                larger_of(
                    larger_of(m.config.model.neuron_count as int, m.recurrent.weight.len() as int),
                    m.input.weights.len() as int,
                ),
                m.context.output_weights.len() as int,
            ),
            alphabet.output_classes as int,
        ),
{
    larger_count(
        larger_count(reset_work(m), m.context.output_weights.len()),
        alphabet.output_classes,
    )
}

/// The configuration as a device holds it.
#[derive(Debug, Clone, Copy, PartialEq, Eq, Structural)]
pub struct CudaConfig {
    pub neuron_count: u32,
    pub block_count: u32,
    pub neurons_per_block: u32,
    pub branches_per_neuron: u32,
    pub synapses_per_neuron: u32,
    pub input_fanout: u32,
    pub max_active_per_block: u32,
    pub max_active_global: u32,
    pub context_max_order: u32,
    pub context_embedding_dim: u32,
    pub context_slots_per_order: u32,
    pub context_probe_limit: u32,
    pub context_confidence_observations: u32,
    pub refractory_ticks: u32,
    pub branch_decay: Scalar,
    pub membrane_decay: Scalar,
    pub fatigue_decay: Scalar,
    pub fatigue_gain: Scalar,
    pub target_activity: Scalar,
    pub threshold_homeostasis_rate: Scalar,
    pub population_inhibition_rate: Scalar,
    pub population_inhibition_max: Scalar,
    pub adaptation_fast_decay: Scalar,
    pub adaptation_medium_decay: Scalar,
    pub adaptation_slow_decay: Scalar,
    pub adaptation_fast_gain: Scalar,
    pub adaptation_medium_gain: Scalar,
    pub adaptation_slow_gain: Scalar,
    pub membrane_reset_fraction: Scalar,
    pub output_learning_rate: Scalar,
    pub recurrent_learning_rate: Scalar,
    pub inhibitory_learning_rate: Scalar,
    pub eligibility_decay: Scalar,
    pub eligibility_epsilon: Scalar,
    pub surrogate_width: Scalar,
    pub surrogate_gain: Scalar,
    pub max_update: Scalar,
    pub weight_min: Scalar,
    pub weight_max: Scalar,
    pub context_learning_rate: Scalar,
}

/// The first number of a configuration that a device cannot hold, by its message.
pub open spec fn config_problem(c: Config) -> Option<Seq<char>> {
    if c.dynamics.refractory_ticks > u32::MAX {
        Some("refractory_ticks exceeds CUDA u32 capacity"@)
    } else if c.model.neuron_count > u32::MAX {
        Some(capacity_message("neuron_count"@))
    } else if c.model.block_count > u32::MAX {
        Some(capacity_message("block_count"@))
    } else if c.model.neurons_per_block > u32::MAX {
        Some(capacity_message("neurons_per_block"@))
    } else if c.model.branches_per_neuron > u32::MAX {
        Some(capacity_message("branches_per_neuron"@))
    } else if c.model.synapses_per_neuron > u32::MAX {
        Some(capacity_message("synapses_per_neuron"@))
    } else if c.model.input_fanout > u32::MAX {
        Some(capacity_message("input_fanout"@))
    } else if c.model.max_active_per_block > u32::MAX {
        Some(capacity_message("max_active_per_block"@))
    } else if c.model.max_active_global > u32::MAX {
        Some(capacity_message("max_active_global"@))
    } else if c.context.max_order > u32::MAX {
        Some(capacity_message("context.max_order"@))
    } else if c.context.embedding_dim > u32::MAX {
        Some(capacity_message("context.embedding_dim"@))
    } else if c.context.slots_per_order > u32::MAX {
        Some(capacity_message("context.slots_per_order"@))
    } else if c.context.probe_limit > u32::MAX {
        Some(capacity_message("context.probe_limit"@))
    } else {
        None
    }
}

impl CudaConfig {
    /// The configuration as a device holds it.
    pub open spec fn of_config(c: Config) -> CudaConfig {
        CudaConfig {
            neuron_count: c.model.neuron_count as u32,
            block_count: c.model.block_count as u32,
            neurons_per_block: c.model.neurons_per_block as u32,
            branches_per_neuron: c.model.branches_per_neuron as u32,
            synapses_per_neuron: c.model.synapses_per_neuron as u32,
            input_fanout: c.model.input_fanout as u32,
            max_active_per_block: c.model.max_active_per_block as u32,
            max_active_global: c.model.max_active_global as u32,
            context_max_order: c.context.max_order as u32,
            context_embedding_dim: c.context.embedding_dim as u32,
            context_slots_per_order: c.context.slots_per_order as u32,
            context_probe_limit: c.context.probe_limit as u32,
            context_confidence_observations: c.context.confidence_observations,
            refractory_ticks: c.dynamics.refractory_ticks as u32,
            branch_decay: c.dynamics.branch_decay,
            membrane_decay: c.dynamics.membrane_decay,
            fatigue_decay: c.dynamics.fatigue_decay,
            fatigue_gain: c.dynamics.fatigue_gain,
            target_activity: c.dynamics.target_activity,
            threshold_homeostasis_rate: c.dynamics.threshold_homeostasis_rate,
            population_inhibition_rate: c.dynamics.population_inhibition_rate,
            population_inhibition_max: c.dynamics.population_inhibition_max,
            adaptation_fast_decay: c.dynamics.adaptation_fast_decay,
            adaptation_medium_decay: c.dynamics.adaptation_medium_decay,
            adaptation_slow_decay: c.dynamics.adaptation_slow_decay,
            adaptation_fast_gain: c.dynamics.adaptation_fast_gain,
            adaptation_medium_gain: c.dynamics.adaptation_medium_gain,
            adaptation_slow_gain: c.dynamics.adaptation_slow_gain,
            membrane_reset_fraction: c.dynamics.membrane_reset_fraction,
            output_learning_rate: c.learning.output_learning_rate,
            recurrent_learning_rate: c.learning.recurrent_learning_rate,
            inhibitory_learning_rate: c.learning.inhibitory_learning_rate,
            eligibility_decay: c.learning.eligibility_decay,
            eligibility_epsilon: c.learning.eligibility_epsilon,
            surrogate_width: c.learning.surrogate_width,
            surrogate_gain: c.learning.surrogate_gain,
            max_update: c.learning.max_update,
            weight_min: c.learning.weight_min,
            weight_max: c.learning.weight_max,
            context_learning_rate: c.context.learning_rate,
        }
    }

    /// The configuration of a model as a device holds it.
    pub fn from_model(m: &Model) -> (r: LeoResult<CudaConfig>)
        ensures
            match config_problem(m.config) {
                Some(text) => fails(r, LeoErrorKind::Cuda, text),
                None => r == Ok::<CudaConfig, LeoError>(CudaConfig::of_config(m.config)),
            },
    {
        let c = &m.config;
        if c.dynamics.refractory_ticks as u64 > u32::MAX as u64 {
            return Err(
                LeoError::cuda("refractory_ticks exceeds CUDA u32 capacity".to_owned()),
            );
        }
        let neuron_count: u32 = match as_u32("neuron_count", c.model.neuron_count) {
            Ok(n) => n,
            Err(e) => {
                return Err(e);
            },
        };
        let block_count: u32 = match as_u32("block_count", c.model.block_count) {
            Ok(n) => n,
            Err(e) => {
                return Err(e);
            },
        };
        let neurons_per_block: u32 = match as_u32("neurons_per_block", c.model.neurons_per_block) {
            Ok(n) => n,
            Err(e) => {
                return Err(e);
            },
        };
        let branches_per_neuron: u32 = match as_u32(
            "branches_per_neuron",
            c.model.branches_per_neuron,
        ) {
            Ok(n) => n,
            Err(e) => {
                return Err(e);
            },
        };
        let synapses_per_neuron: u32 = match as_u32(
            "synapses_per_neuron",
            c.model.synapses_per_neuron,
        ) {
            Ok(n) => n,
            Err(e) => {
                return Err(e);
            },
        };
        let input_fanout: u32 = match as_u32("input_fanout", c.model.input_fanout) {
            Ok(n) => n,
            Err(e) => {
                return Err(e);
            },
        };
        let max_active_per_block: u32 = match as_u32(
            "max_active_per_block",
            c.model.max_active_per_block,
        ) {
            Ok(n) => n,
            Err(e) => {
                return Err(e);
            },
        };
        let max_active_global: u32 = match as_u32("max_active_global", c.model.max_active_global) {
            Ok(n) => n,
            Err(e) => {
                return Err(e);
            },
        };
        let context_max_order: u32 = match as_u32("context.max_order", c.context.max_order) {
            Ok(n) => n,
            Err(e) => {
                return Err(e);
            },
        };
        let context_embedding_dim: u32 = match as_u32(
            "context.embedding_dim",
            c.context.embedding_dim,
        ) {
            Ok(n) => n,
            Err(e) => {
                return Err(e);
            },
        };
        let context_slots_per_order: u32 = match as_u32(
            "context.slots_per_order",
            c.context.slots_per_order,
        ) {
            Ok(n) => n,
            Err(e) => {
                return Err(e);
            },
        };
        let context_probe_limit: u32 = match as_u32("context.probe_limit", c.context.probe_limit) {
            Ok(n) => n,
            Err(e) => {
                return Err(e);
            },
        };
        Ok(
            CudaConfig {
                neuron_count,
                block_count,
                neurons_per_block,
                branches_per_neuron,
                synapses_per_neuron,
                input_fanout,
                max_active_per_block,
                max_active_global,
                context_max_order,
                context_embedding_dim,
                context_slots_per_order,
                context_probe_limit,
                context_confidence_observations: c.context.confidence_observations,
                refractory_ticks: c.dynamics.refractory_ticks as u32,
                branch_decay: c.dynamics.branch_decay,
                membrane_decay: c.dynamics.membrane_decay,
                fatigue_decay: c.dynamics.fatigue_decay,
                fatigue_gain: c.dynamics.fatigue_gain,
                target_activity: c.dynamics.target_activity,
                threshold_homeostasis_rate: c.dynamics.threshold_homeostasis_rate,
                population_inhibition_rate: c.dynamics.population_inhibition_rate,
                population_inhibition_max: c.dynamics.population_inhibition_max,
                adaptation_fast_decay: c.dynamics.adaptation_fast_decay,
                adaptation_medium_decay: c.dynamics.adaptation_medium_decay,
                adaptation_slow_decay: c.dynamics.adaptation_slow_decay,
                adaptation_fast_gain: c.dynamics.adaptation_fast_gain,
                adaptation_medium_gain: c.dynamics.adaptation_medium_gain,
                adaptation_slow_gain: c.dynamics.adaptation_slow_gain,
                membrane_reset_fraction: c.dynamics.membrane_reset_fraction,
                output_learning_rate: c.learning.output_learning_rate,
                recurrent_learning_rate: c.learning.recurrent_learning_rate,
                inhibitory_learning_rate: c.learning.inhibitory_learning_rate,
                eligibility_decay: c.learning.eligibility_decay,
                eligibility_epsilon: c.learning.eligibility_epsilon,
                surrogate_width: c.learning.surrogate_width,
                surrogate_gain: c.learning.surrogate_gain,
                max_update: c.learning.max_update,
                weight_min: c.learning.weight_min,
                weight_max: c.learning.weight_max,
                context_learning_rate: c.context.learning_rate,
            },
        )
    }
}

} // verus!
