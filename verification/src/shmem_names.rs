//! Names of the shared memory regions and semaphores shared with the assembly emulator
//! services, and the layout of the control region.

use vstd::prelude::*;

verus! {

/// How to reach the assembly emulator services.
#[derive(Clone, Debug)]
pub struct AsmResourcesConfig {
    /// Base port of the services, if not the default one.
    pub base_port: Option<u16>,
    /// Local rank in a distributed execution.
    pub local_rank: i32,
    /// Whether mapped memory is left unlocked.
    pub unlock_mapped_memory: bool,
}

/// Size in bytes of the control region.
pub const CONTROL_WRITER_SIZE: u64 = 0x1000;

/// The 64-bit fields of the control region.
#[derive(Copy, Clone, Debug, PartialEq, Eq, Structural)]
pub enum ControlShmemOffsets {
    /// Bytes of precompile hints written.
    PrecompilesSize,
    /// Nonzero when the service must stop.
    ShutdownFlag,
    /// Bytes of inputs written.
    InputsSize,
}

/// Byte offset of a field of the control region.
pub open spec fn spec_control_offset(o: ControlShmemOffsets) -> usize {
    match o {
        ControlShmemOffsets::PrecompilesSize => 0,
        ControlShmemOffsets::ShutdownFlag => 8,
        ControlShmemOffsets::InputsSize => 16,
    }
}

impl ControlShmemOffsets {
    /// Byte offset of the field in the control region.
    pub fn offset(self) -> (r: usize)
        ensures
            r == spec_control_offset(self),
    {
        match self {
            ControlShmemOffsets::PrecompilesSize => 0,
            ControlShmemOffsets::ShutdownFlag => 8,
            ControlShmemOffsets::InputsSize => 16,
        }
    }
}

/// The value of a size field after `size` more bytes were written.
pub fn incremented_size(current: u64, size: usize) -> (r: u64)
    requires
        current + size <= u64::MAX,
    ensures
        r == current + size,
{
    current + size as u64
}

/// The name `{prefix}{shmem_prefix}_{asm_service}_{suffix}`.
fn build_name(prefix: &str, shmem_prefix: &str, asm_service: &str, suffix: &str) -> (r: String)
    ensures
        r@ == prefix@ + shmem_prefix@ + "_"@ + asm_service@ + "_"@ + suffix@,
{
    let mut name = prefix.to_owned();
    name.append(shmem_prefix);
    name.append("_");
    name.append(asm_service);
    name.append("_");
    name.append(suffix);
    name
}

/// A shared memory name: no leading slash.
fn build_shmem_name(shmem_prefix: &str, asm_service: &str, suffix: &str) -> (r: String)
    ensures
        r@ == ""@ + shmem_prefix@ + "_"@ + asm_service@ + "_"@ + suffix@,
{
    build_name("", shmem_prefix, asm_service, suffix)
}

/// A semaphore name: a leading slash.
fn build_sem_name(shmem_prefix: &str, asm_service: &str, suffix: &str) -> (r: String)
    ensures
        r@ == "/"@ + shmem_prefix@ + "_"@ + asm_service@ + "_"@ + suffix@,
{
    build_name("/", shmem_prefix, asm_service, suffix)
}

/// Name of the inputs shared memory of a service, given the service's shared memory
/// prefix (which depends on the port and the local rank) and the service's name.
pub fn shmem_input_name(shmem_prefix: &str, asm_service: &str) -> (r: String)
    ensures
        r@ == ""@ + shmem_prefix@ + "_"@ + asm_service@ + "_"@ + "input"@,
{
    build_shmem_name(shmem_prefix, asm_service, "input")
}

/// Name of the precompile hints shared memory of a service.
pub fn shmem_precompile_name(shmem_prefix: &str, asm_service: &str) -> (r: String)
    ensures
        r@ == ""@ + shmem_prefix@ + "_"@ + asm_service@ + "_"@ + "precompile"@,
{
    build_shmem_name(shmem_prefix, asm_service, "precompile")
}

/// Name of the semaphore that signals precompile hints available.
pub fn sem_available_name(shmem_prefix: &str, asm_service: &str) -> (r: String)
    ensures
        r@ == "/"@ + shmem_prefix@ + "_"@ + asm_service@ + "_"@ + "prec_avail"@,
{
    build_sem_name(shmem_prefix, asm_service, "prec_avail")
}

/// Name of the semaphore that signals precompile hints read.
pub fn sem_read_name(shmem_prefix: &str, asm_service: &str) -> (r: String)
    ensures
        r@ == "/"@ + shmem_prefix@ + "_"@ + asm_service@ + "_"@ + "prec_read"@,
{
    build_sem_name(shmem_prefix, asm_service, "prec_read")
}

/// Name of the control shared memory written by this side.
pub fn shmem_control_writer_name(shmem_prefix: &str, asm_service: &str) -> (r: String)
    ensures
        r@ == ""@ + shmem_prefix@ + "_"@ + asm_service@ + "_"@ + "control_input"@,
{
    build_shmem_name(shmem_prefix, asm_service, "control_input")
}

/// Name of the control shared memory read by this side.
pub fn shmem_control_reader_name(shmem_prefix: &str, asm_service: &str) -> (r: String)
    ensures
        r@ == ""@ + shmem_prefix@ + "_"@ + asm_service@ + "_"@ + "control_output"@,
{
    build_shmem_name(shmem_prefix, asm_service, "control_output")
}

/// Name of the output shared memory of a service.
pub fn shmem_output_name(shmem_prefix: &str, asm_service: &str) -> (r: String)
    ensures
        r@ == ""@ + shmem_prefix@ + "_"@ + asm_service@ + "_"@ + "output"@,
{
    build_shmem_name(shmem_prefix, asm_service, "output")
}

/// Name of the semaphore that signals a chunk done.
pub fn sem_chunk_done_name(shmem_prefix: &str, asm_service: &str) -> (r: String)
    ensures
        r@ == "/"@ + shmem_prefix@ + "_"@ + asm_service@ + "_"@ + "chunk_done"@,
{
    build_sem_name(shmem_prefix, asm_service, "chunk_done")
}


/// Size in bytes of the control regions of the precompile hints.
pub const CONTROL_PRECOMPILE_SIZE: u64 = 0x1000;

/// Size in bytes of the precompile hints ring buffer.
pub const MAX_PRECOMPILE_SIZE: u64 = 0x1000_0000;

/// What writing `data_size` words to the hints ring buffer takes.
#[derive(Clone, Copy, Debug, PartialEq, Eq, Structural)]
pub struct RingWrite {
    /// The free space is smaller than the data: wait once for the reader first.
    pub must_wait: bool,
    /// The write position after the data.
    pub new_write_pos: u64,
}

/// Plans a write of `data_size` words to the hints ring buffer, whose absolute positions
/// are `write_pos` (this side) and `read_pos` (the reader's).
pub fn ring_buffer_write(write_pos: u64, read_pos: u64, data_size: u64) -> (r: RingWrite)
    requires
        read_pos <= write_pos,
        write_pos - read_pos <= MAX_PRECOMPILE_SIZE / 8,
        write_pos + data_size <= u64::MAX,
    ensures
        r.must_wait == (MAX_PRECOMPILE_SIZE / 8 - (write_pos - read_pos) < data_size),
        r.new_write_pos == write_pos + data_size,
{
    let occupied_space = write_pos - read_pos;
    assert(MAX_PRECOMPILE_SIZE >> 3u64 == MAX_PRECOMPILE_SIZE / 8) by (bit_vector);
    let available_space = (MAX_PRECOMPILE_SIZE >> 3u64) - occupied_space;
    RingWrite { must_wait: available_space < data_size, new_write_pos: write_pos + data_size }
}

/// The names of the shared memory regions and semaphores of one service.
#[derive(Clone, Debug)]
pub struct ServiceResourceNames {
    pub control_writer: String,
    pub control_reader: String,
    pub data_name: String,
    pub sem_available_name: String,
    pub sem_read_name: String,
}

impl ServiceResourceNames {
    /// The names for the service `asm_service` with shared memory prefix `shmem_prefix`.
    pub fn new(shmem_prefix: &str, asm_service: &str) -> (r: Self)
        ensures
            r.control_writer@ == ""@ + shmem_prefix@ + "_"@ + asm_service@ + "_"@ + "control_input"@,
            r.control_reader@ == ""@ + shmem_prefix@ + "_"@ + asm_service@ + "_"@ + "control_output"@,
            r.data_name@ == ""@ + shmem_prefix@ + "_"@ + asm_service@ + "_"@ + "precompile"@,
            r.sem_available_name@ == "/"@ + shmem_prefix@ + "_"@ + asm_service@ + "_"@ + "prec_avail"@,
            r.sem_read_name@ == "/"@ + shmem_prefix@ + "_"@ + asm_service@ + "_"@ + "prec_read"@,
    {
        ServiceResourceNames {
            control_writer: shmem_control_writer_name(shmem_prefix, asm_service),
            control_reader: shmem_control_reader_name(shmem_prefix, asm_service),
            data_name: shmem_precompile_name(shmem_prefix, asm_service),
            sem_available_name: sem_available_name(shmem_prefix, asm_service),
            sem_read_name: sem_read_name(shmem_prefix, asm_service),
        }
    }
}

} // verus!
