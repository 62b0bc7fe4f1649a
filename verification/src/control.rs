//! The memory-mapped control words of the CPUs: a status word and a saved
//! EIP for each, and the handshake that starts and stops a CPU.

use crate::mem::{read_word, store_word, word_at, write_word, MEM_SIZE};
use crate::serial::{SERIAL_CONNECTED, SERIAL_IN, SERIAL_OUT};
use vstd::prelude::*;

verus! {

/// Where the control blocks of the CPUs begin.
pub const CPU_CTRL_BASE: usize = 0x13EE_0000;

/// The size of one control block: a status word and a saved EIP.
pub const CPU_CTRL_SIZE: usize = 16;

/// How many control blocks fit between `CPU_CTRL_BASE` and the end of the
/// memory image.
pub const MAX_CPUS: usize = 0x1_2000;

/// Status of a CPU that has not been started.
pub const STATUS_IDLE: u64 = 0;

/// Status of a CPU that executes instructions.
pub const STATUS_RUNNING: u64 = 1;

/// Status of a CPU that was asked to stop and has not yet answered.
pub const STATUS_STOP_REQUESTED: u64 = 2;

/// Status of a CPU that has stopped on request.
pub const STATUS_STOPPED: u64 = 4;

/// The offset of the status word of a CPU.
pub open spec fn status_offset(cpu_id: usize) -> int {
    CPU_CTRL_BASE + 16 * cpu_id
}

/// The offset of the saved EIP of a CPU.
pub open spec fn saved_eip_offset(cpu_id: usize) -> int {
    CPU_CTRL_BASE + 16 * cpu_id + 8
}

/// The status word of a CPU.
pub open spec fn status_of(mem: Seq<u8>, cpu_id: usize) -> u64 {
    word_at(mem, status_offset(cpu_id))
}

/// The saved EIP of a CPU.
pub open spec fn saved_eip_of(mem: Seq<u8>, cpu_id: usize) -> u64 {
    word_at(mem, saved_eip_offset(cpu_id))
}

/// The changes of a status word that the handshake allows: idle to running,
/// running to stop requested, stop requested to stopped, stopped to running.
pub open spec fn permitted_edge(from: u64, to: u64) -> bool {
    ||| from == STATUS_IDLE && to == STATUS_RUNNING
    ||| from == STATUS_RUNNING && to == STATUS_STOP_REQUESTED
    ||| from == STATUS_STOP_REQUESTED && to == STATUS_STOPPED
    ||| from == STATUS_STOPPED && to == STATUS_RUNNING
}

/// A step of the handshake.
pub enum ControlOp {
    /// The CPU worker starts and marks its CPU as running.
    PowerOn,
    /// The user interface asks a running CPU to stop.
    RequestStop,
    /// The CPU answers a stop request.
    Acknowledge,
    /// The user interface lets a stopped CPU run again.
    Resume,
}

/// The status word after a step of the handshake. A step that does not
/// apply to the status it finds leaves it as it is.
pub open spec fn status_after(status: u64, op: ControlOp) -> u64 {
    match op {
        ControlOp::PowerOn => STATUS_RUNNING,
        ControlOp::RequestStop => if status == STATUS_RUNNING {
            STATUS_STOP_REQUESTED
        } else {
            status
        },
        ControlOp::Acknowledge => if status == STATUS_STOP_REQUESTED {
            STATUS_STOPPED
        } else {
            status
        },
        ControlOp::Resume => if status == STATUS_STOPPED {
            STATUS_RUNNING
        } else {
            status
        },
    }
}

/// The status word after a sequence of steps.
pub open spec fn status_after_all(status: u64, ops: Seq<ControlOp>) -> u64
    decreases ops.len(),
{
    if ops.len() == 0 {
        status
    } else {
        status_after(status_after_all(status, ops.drop_last()), ops.last())
    }
}

/// The offset of the status word of a CPU.
pub fn status_address(cpu_id: usize) -> (offset: usize)
    requires
        cpu_id < MAX_CPUS,
    ensures
        offset == status_offset(cpu_id),
        offset + 16 <= MEM_SIZE,
{
    CPU_CTRL_BASE + CPU_CTRL_SIZE * cpu_id
}

/// The offset of the saved EIP of a CPU.
pub fn saved_eip_address(cpu_id: usize) -> (offset: usize)
    requires
        cpu_id < MAX_CPUS,
    ensures
        offset == saved_eip_offset(cpu_id),
        offset + 8 <= MEM_SIZE,
{
    CPU_CTRL_BASE + CPU_CTRL_SIZE * cpu_id + 8
}

/// Reads the status word of a CPU.
pub fn read_status(mem: &[u8], cpu_id: usize) -> (status: u64)
    requires
        mem@.len() == MEM_SIZE,
        cpu_id < MAX_CPUS,
    ensures
        status == status_of(mem@, cpu_id),
{
    read_word(mem, status_address(cpu_id))
}

/// Reads the saved EIP of a CPU.
pub fn read_saved_eip(mem: &[u8], cpu_id: usize) -> (eip: u64)
    requires
        mem@.len() == MEM_SIZE,
        cpu_id < MAX_CPUS,
    ensures
        eip == saved_eip_of(mem@, cpu_id),
{
    read_word(mem, saved_eip_address(cpu_id))
}

/// Marks a CPU as running, whatever its status was. The CPU worker does this
/// once, before its first cycle.
pub fn power_on(mem: &mut [u8], cpu_id: usize)
    requires
        old(mem)@.len() == MEM_SIZE,
        cpu_id < MAX_CPUS,
    ensures
        final(mem)@ == store_word(old(mem)@, status_offset(cpu_id), STATUS_RUNNING),
        status_of(final(mem)@, cpu_id) == status_after(
            status_of(old(mem)@, cpu_id),
            ControlOp::PowerOn,
        ),
{
    proof {
        crate::mem::lemma_read_after_write(mem@, status_offset(cpu_id), STATUS_RUNNING);
    }
    write_word(mem, status_address(cpu_id), STATUS_RUNNING);
}

/// Asks a running CPU to stop. Returns whether the request was placed: it
/// is placed only where the status is running, and nothing changes
/// otherwise.
pub fn request_stop(mem: &mut [u8], cpu_id: usize) -> (placed: bool)
    requires
        old(mem)@.len() == MEM_SIZE,
        cpu_id < MAX_CPUS,
    ensures
        placed == (status_of(old(mem)@, cpu_id) == STATUS_RUNNING),
        placed ==> final(mem)@ == store_word(
            old(mem)@,
            status_offset(cpu_id),
            STATUS_STOP_REQUESTED,
        ),
        !placed ==> final(mem)@ == old(mem)@,
        status_of(final(mem)@, cpu_id) == status_after(
            status_of(old(mem)@, cpu_id),
            ControlOp::RequestStop,
        ),
{
    if read_status(mem, cpu_id) == STATUS_RUNNING {
        proof {
            crate::mem::lemma_read_after_write(
                mem@,
                status_offset(cpu_id),
                STATUS_STOP_REQUESTED,
            );
        }
        write_word(mem, status_address(cpu_id), STATUS_STOP_REQUESTED);
        true
    } else {
        false
    }
}

/// Answers a stop request. Returns whether there was one: the status
/// becomes stopped only where a stop was requested, and nothing changes
/// otherwise.
pub fn acknowledge_stop(mem: &mut [u8], cpu_id: usize) -> (stopped: bool)
    requires
        old(mem)@.len() == MEM_SIZE,
        cpu_id < MAX_CPUS,
    ensures
        stopped == (status_of(old(mem)@, cpu_id) == STATUS_STOP_REQUESTED),
        stopped ==> final(mem)@ == store_word(old(mem)@, status_offset(cpu_id), STATUS_STOPPED),
        !stopped ==> final(mem)@ == old(mem)@,
        status_of(final(mem)@, cpu_id) == status_after(
            status_of(old(mem)@, cpu_id),
            ControlOp::Acknowledge,
        ),
{
    if read_status(mem, cpu_id) == STATUS_STOP_REQUESTED {
        proof {
            crate::mem::lemma_read_after_write(mem@, status_offset(cpu_id), STATUS_STOPPED);
        }
        write_word(mem, status_address(cpu_id), STATUS_STOPPED);
        true
    } else {
        false
    }
}

/// Lets a stopped CPU run again from `eip`. Returns whether it was
/// stopped: only then the saved EIP becomes `eip` and the status running,
/// and nothing changes otherwise.
pub fn resume(mem: &mut [u8], cpu_id: usize, eip: u64) -> (resumed: bool)
    requires
        old(mem)@.len() == MEM_SIZE,
        cpu_id < MAX_CPUS,
    ensures
        resumed == (status_of(old(mem)@, cpu_id) == STATUS_STOPPED),
        resumed ==> final(mem)@ == store_word(
            store_word(old(mem)@, saved_eip_offset(cpu_id), eip),
            status_offset(cpu_id),
            STATUS_RUNNING,
        ),
        resumed ==> saved_eip_of(final(mem)@, cpu_id) == eip,
        !resumed ==> final(mem)@ == old(mem)@,
        status_of(final(mem)@, cpu_id) == status_after(
            status_of(old(mem)@, cpu_id),
            ControlOp::Resume,
        ),
{
    if read_status(mem, cpu_id) == STATUS_STOPPED {
        proof {
            let saved = store_word(mem@, saved_eip_offset(cpu_id), eip);
            crate::mem::lemma_read_after_write(mem@, saved_eip_offset(cpu_id), eip);
            crate::mem::lemma_read_after_write(saved, status_offset(cpu_id), STATUS_RUNNING);
            crate::mem::lemma_write_keeps_other_words(
                saved,
                status_offset(cpu_id),
                STATUS_RUNNING,
                saved_eip_offset(cpu_id),
            );
        }
        write_word(mem, saved_eip_address(cpu_id), eip);
        write_word(mem, status_address(cpu_id), STATUS_RUNNING);
        true
    } else {
        false
    }
}

/// The serial registers and the control blocks lie inside the memory image
/// and do not overlap: the three serial registers come first, then the
/// control blocks of the CPUs, one after another, up to the end of the
/// image.
pub proof fn lemma_regions_lie_inside(cpu_id: usize)
    requires
        cpu_id < MAX_CPUS,
    ensures
        SERIAL_CONNECTED + 8 <= SERIAL_IN,
        SERIAL_IN + 8 <= SERIAL_OUT,
        SERIAL_OUT + 8 <= CPU_CTRL_BASE,
        CPU_CTRL_BASE <= status_offset(cpu_id),
        status_offset(cpu_id) + 8 == saved_eip_offset(cpu_id),
        saved_eip_offset(cpu_id) + 8 <= MEM_SIZE,
        cpu_id + 1 < MAX_CPUS ==> saved_eip_offset(cpu_id) + 8 == status_offset(
            (cpu_id + 1) as usize,
        ),
        CPU_CTRL_BASE + CPU_CTRL_SIZE * MAX_CPUS == MEM_SIZE,
{
}

/// A step of the handshake leaves the status word as it is or moves it
/// along a permitted edge. Powering on is the one step that writes without
/// looking: the law leaves out powering on a CPU whose status is neither
/// idle, running nor stopped.
pub proof fn lemma_step_follows_edges(status: u64, op: ControlOp)
    requires
        op is PowerOn ==> status == STATUS_IDLE || status == STATUS_RUNNING || status
            == STATUS_STOPPED,
    ensures
        status_after(status, op) == status || permitted_edge(status, status_after(status, op)),
{
}

/// Along any sequence of steps of the handshake, each status is the one
/// before it or follows it by a permitted edge. As above, the law leaves out
/// sequences that power on a CPU whose status is neither idle, running nor
/// stopped.
pub proof fn lemma_sequence_follows_edges(status: u64, ops: Seq<ControlOp>, i: int)
    requires
        0 <= i < ops.len(),
        ops[i] is PowerOn ==> ({
            let before = status_after_all(status, ops.take(i));
            before == STATUS_IDLE || before == STATUS_RUNNING || before == STATUS_STOPPED
        }),
    ensures
        ({
            let before = status_after_all(status, ops.take(i));
            let after = status_after_all(status, ops.take(i + 1));
            after == before || permitted_edge(before, after)
        }),
{
    let prefix = ops.take(i + 1);
    assert(prefix.drop_last() =~= ops.take(i));
    assert(prefix.last() == ops[i]);
    lemma_step_follows_edges(status_after_all(status, ops.take(i)), ops[i]);
}

} // verus!
