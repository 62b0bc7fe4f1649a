//! The decisions of a CPU worker. The worker meets the motherboard at a
//! rendezvous twice per cycle; what it does between two rendezvous is
//! decided here, and the rendezvous itself is left to the caller.

use crate::control::{
    acknowledge_stop, power_on, read_saved_eip, read_status, saved_eip_address,
    saved_eip_of, saved_eip_offset, status_of, status_offset, MAX_CPUS, STATUS_RUNNING,
    STATUS_STOPPED, STATUS_STOP_REQUESTED,
};
use crate::mem::{store_word, write_word, MEM_SIZE};
use crate::msg::{notices, Notice, UIMessage};
use crate::subleq::{
    fault_at, fetchable, lemma_run_stops_at_fault, run, run_batch, run_trace, Fault,
};
use vstd::prelude::*;

verus! {

/// The batch size of a debug build.
pub const DEBUG_BATCH_SIZE: usize = 40;

/// The batch size of a release build.
pub const RELEASE_BATCH_SIZE: usize = 4096;

/// The largest batch size while the EIP is recorded for profiling.
pub const PROFILING_BATCH_LIMIT: usize = 100;

/// The batch size to use: `requested`, but at most `PROFILING_BATCH_LIMIT`
/// while profiling, so that the recorded EIPs are dense.
pub fn batch_size(requested: usize, profiling: bool) -> (size: usize)
    ensures
        size == if profiling && requested > PROFILING_BATCH_LIMIT {
            PROFILING_BATCH_LIMIT
        } else {
            requested
        },
{
    if profiling && requested > PROFILING_BATCH_LIMIT {
        PROFILING_BATCH_LIMIT
    } else {
        requested
    }
}

/// The rendezvous that a CPU worker is waiting at, or is about to wait at.
#[derive(Debug, Clone, Copy, PartialEq, Eq, Structural)]
pub enum CpuPhase {
    /// The start of a cycle, while running.
    CycleStart,
    /// The end of a cycle, while running.
    CycleEnd,
    /// The end of a cycle, while not running.
    ParkEnd,
    /// The start of a cycle, while not running.
    ParkStart,
    /// The start of the first cycle after the status became running again.
    ResumeStart,
    /// The end of the cycle in which termination was seen.
    ExitEnd,
    /// No rendezvous: the worker has left.
    Exited,
}

/// The state of a CPU worker.
#[derive(Debug, Clone, Copy, PartialEq, Eq, Structural)]
pub struct CpuWorker {
    /// The number of the CPU.
    pub cpu_id: usize,
    /// The offset of the next instruction.
    pub eip: u64,
    /// The rendezvous that the worker waits at.
    pub phase: CpuPhase,
    /// Whether an instruction could not be executed. A halted CPU executes
    /// nothing more; it keeps the rendezvous so that the others can go on.
    pub halted: bool,
    /// How many instructions a batch holds at most.
    pub batch_size: usize,
    /// Whether each instruction leaves a trace line.
    pub tracing: bool,
}

/// What the caller has to do after a step of the worker.
#[derive(Debug)]
pub struct CpuOutput {
    /// The messages to publish, in this order.
    pub messages: Vec<UIMessage>,
    /// The fault that halted the CPU in this step, if any.
    pub fault: Option<Fault>,
}

/// A step of a CPU worker as a mathematical value.
pub struct CpuStep {
    pub worker: CpuWorker,
    pub mem: Seq<u8>,
    pub messages: Seq<Notice>,
    pub fault: Option<Fault>,
}

/// A step that changes nothing but the phase.
pub open spec fn only_phase(worker: CpuWorker, mem: Seq<u8>, phase: CpuPhase) -> CpuStep {
    CpuStep {
        worker: CpuWorker { phase, ..worker },
        mem,
        messages: Seq::empty(),
        fault: None,
    }
}

/// One batch: instructions are executed from the worker's EIP on. Where all
/// could be executed, the new EIP is saved in the control block; where one
/// could not, the CPU is halted. Either way the EIP is published after the
/// trace lines.
pub open spec fn batch_step(worker: CpuWorker, mem: Seq<u8>) -> CpuStep {
    let ran = run(mem, worker.eip, worker.batch_size as nat);
    let trace = if worker.tracing {
        run_trace(mem, worker.eip, worker.batch_size as nat)
    } else {
        Seq::empty()
    };
    CpuStep {
        worker: CpuWorker {
            eip: ran.eip,
            phase: CpuPhase::CycleEnd,
            halted: worker.halted || ran.fault is Some,
            ..worker
        },
        mem: if ran.fault is Some {
            ran.mem
        } else {
            store_word(ran.mem, saved_eip_offset(worker.cpu_id), ran.eip)
        },
        messages: trace.push(Notice::SetEIP(ran.eip)),
        fault: ran.fault,
    }
}

/// What a running worker does when its status word is not `running`: it
/// answers a stop request, if there is one, and parks.
pub open spec fn park_step(worker: CpuWorker, mem: Seq<u8>) -> CpuStep {
    if status_of(mem, worker.cpu_id) == STATUS_STOP_REQUESTED {
        CpuStep {
            worker: CpuWorker { phase: CpuPhase::ParkEnd, ..worker },
            mem: store_word(mem, status_offset(worker.cpu_id), STATUS_STOPPED),
            messages: seq![Notice::CPUStopped(worker.cpu_id)],
            fault: None,
        }
    } else {
        only_phase(worker, mem, CpuPhase::ParkEnd)
    }
}

/// Whether the step that follows the rendezvous is a batch: at the start of
/// a cycle, for a CPU that is not halted and whose status is running, unless
/// termination was signalled; and at the start of the first cycle after a
/// resume.
pub open spec fn runs_batch(worker: CpuWorker, mem: Seq<u8>, terminate: bool) -> bool {
    match worker.phase {
        CpuPhase::CycleStart => !terminate && !worker.halted && status_of(mem, worker.cpu_id)
            == STATUS_RUNNING,
        CpuPhase::ResumeStart => true,
        _ => false,
    }
}

/// What the worker does after the rendezvous it was waiting at. `terminate`
/// says whether termination was signalled; it is looked at only at the start
/// of a cycle (see `polls_termination`).
pub open spec fn cpu_step(worker: CpuWorker, mem: Seq<u8>, terminate: bool) -> CpuStep {
    if runs_batch(worker, mem, terminate) {
        batch_step(worker, mem)
    } else {
        match worker.phase {
            CpuPhase::CycleStart => {
                if terminate {
                    only_phase(worker, mem, CpuPhase::ExitEnd)
                } else if worker.halted {
                    only_phase(worker, mem, CpuPhase::CycleEnd)
                } else {
                    park_step(worker, mem)
                }
            },
            CpuPhase::CycleEnd => only_phase(worker, mem, CpuPhase::CycleStart),
            CpuPhase::ParkEnd => {
                if status_of(mem, worker.cpu_id) == STATUS_RUNNING {
                    CpuStep {
                        worker: CpuWorker {
                            eip: saved_eip_of(mem, worker.cpu_id),
                            phase: CpuPhase::ResumeStart,
                            ..worker
                        },
                        mem,
                        messages: seq![Notice::CPUStarted(worker.cpu_id)],
                        fault: None,
                    }
                } else {
                    only_phase(worker, mem, CpuPhase::ParkStart)
                }
            },
            CpuPhase::ParkStart => {
                if terminate {
                    only_phase(worker, mem, CpuPhase::ExitEnd)
                } else {
                    only_phase(worker, mem, CpuPhase::ParkEnd)
                }
            },
            CpuPhase::ResumeStart => batch_step(worker, mem),
            CpuPhase::ExitEnd => only_phase(worker, mem, CpuPhase::Exited),
            CpuPhase::Exited => only_phase(worker, mem, CpuPhase::Exited),
        }
    }
}

impl CpuWorker {
    /// The worker belongs to a CPU whose control block lies inside the
    /// memory image, and if it is halted it is not parked: a CPU halts in a
    /// batch and keeps the cadence of a running CPU from then on.
    pub open spec fn wf(&self) -> bool {
        &&& self.cpu_id < MAX_CPUS
        &&& self.halted ==> self.phase != CpuPhase::ParkEnd && self.phase != CpuPhase::ParkStart
            && self.phase != CpuPhase::ResumeStart
    }

    /// Starts the worker of a CPU: marks the CPU as running and begins at
    /// offset 0, waiting for the start of the first cycle.
    pub fn start(mem: &mut [u8], cpu_id: usize, batch_size: usize, tracing: bool) -> (worker:
        CpuWorker)
        requires
            old(mem)@.len() == MEM_SIZE,
            cpu_id < MAX_CPUS,
        ensures
            worker == (CpuWorker {
                cpu_id,
                eip: 0,
                phase: CpuPhase::CycleStart,
                halted: false,
                batch_size,
                tracing,
            }),
            worker.wf(),
            final(mem)@ == store_word(old(mem)@, status_offset(cpu_id), STATUS_RUNNING),
    {
        power_on(mem, cpu_id);
        CpuWorker {
            cpu_id,
            eip: 0,
            phase: CpuPhase::CycleStart,
            halted: false,
            batch_size,
            tracing,
        }
    }

    /// Whether the worker has left and waits at no rendezvous.
    pub fn has_exited(&self) -> (exited: bool)
        ensures
            exited == (self.phase == CpuPhase::Exited),
    {
        self.phase == CpuPhase::Exited
    }

    /// Whether the rendezvous that the worker waits at is the start of a
    /// cycle at which it looks for the termination signal.
    pub fn polls_termination(&self) -> (polls: bool)
        ensures
            polls == (self.phase == CpuPhase::CycleStart || self.phase == CpuPhase::ParkStart),
    {
        self.phase == CpuPhase::CycleStart || self.phase == CpuPhase::ParkStart
    }

    /// Runs one batch and prepares what is to be published.
    fn do_batch(&mut self, mem: &mut [u8]) -> (out: CpuOutput)
        requires
            old(self).wf(),
            old(mem)@.len() == MEM_SIZE,
        ensures
            final(self).wf(),
            *final(self) == batch_step(*old(self), old(mem)@).worker,
            final(mem)@ == batch_step(*old(self), old(mem)@).mem,
            notices(out.messages@) == batch_step(*old(self), old(mem)@).messages,
            out.fault == batch_step(*old(self), old(mem)@).fault,
            final(mem)@.len() == MEM_SIZE,
    {
        proof {
            lemma_run_stops_at_fault(mem@, self.eip, self.batch_size as nat);
        }
        let batch = run_batch(mem, self.eip, self.batch_size, self.tracing);
        let mut messages = batch.trace;
        let ghost trace = notices(messages@);
        messages.push(UIMessage::SetEIP(batch.eip));
        assert(notices(messages@) =~= trace.push(Notice::SetEIP(batch.eip)));
        assert(!self.tracing ==> trace =~= Seq::<Notice>::empty());
        self.eip = batch.eip;
        self.phase = CpuPhase::CycleEnd;
        match batch.fault {
            Some(_) => {
                self.halted = true;
            },
            None => {
                write_word(mem, saved_eip_address(self.cpu_id), batch.eip);
            },
        }
        CpuOutput { messages, fault: batch.fault }
    }

    /// Does what follows the rendezvous that the worker was waiting at, and
    /// moves on to the next rendezvous. The caller publishes the messages
    /// and then waits at that rendezvous, unless the worker has exited.
    pub fn advance(&mut self, mem: &mut [u8], terminate: bool) -> (out: CpuOutput)
        requires
            old(self).wf(),
            old(mem)@.len() == MEM_SIZE,
        ensures
            *final(self) == cpu_step(*old(self), old(mem)@, terminate).worker,
            final(mem)@ == cpu_step(*old(self), old(mem)@, terminate).mem,
            notices(out.messages@) == cpu_step(*old(self), old(mem)@, terminate).messages,
            out.fault == cpu_step(*old(self), old(mem)@, terminate).fault,
            final(self).wf(),
            final(mem)@.len() == MEM_SIZE,
    {
        let mut messages: Vec<UIMessage> = Vec::new();
        assert(notices(messages@) =~= Seq::<Notice>::empty());
        match self.phase {
            CpuPhase::CycleStart => {
                if terminate {
                    self.phase = CpuPhase::ExitEnd;
                } else if self.halted {
                    self.phase = CpuPhase::CycleEnd;
                } else if read_status(mem, self.cpu_id) == STATUS_RUNNING {
                    return self.do_batch(mem);
                } else {
                    if acknowledge_stop(mem, self.cpu_id) {
                        messages.push(UIMessage::CPUStopped(self.cpu_id));
                        assert(notices(messages@) =~= seq![Notice::CPUStopped(self.cpu_id)]);
                    }
                    self.phase = CpuPhase::ParkEnd;
                }
            },
            CpuPhase::CycleEnd => {
                self.phase = CpuPhase::CycleStart;
            },
            CpuPhase::ParkEnd => {
                if read_status(mem, self.cpu_id) == STATUS_RUNNING {
                    self.eip = read_saved_eip(mem, self.cpu_id);
                    messages.push(UIMessage::CPUStarted(self.cpu_id));
                    assert(notices(messages@) =~= seq![Notice::CPUStarted(self.cpu_id)]);
                    self.phase = CpuPhase::ResumeStart;
                } else {
                    self.phase = CpuPhase::ParkStart;
                }
            },
            CpuPhase::ParkStart => {
                if terminate {
                    self.phase = CpuPhase::ExitEnd;
                } else {
                    self.phase = CpuPhase::ParkEnd;
                }
            },
            CpuPhase::ResumeStart => {
                return self.do_batch(mem);
            },
            CpuPhase::ExitEnd => {
                self.phase = CpuPhase::Exited;
            },
            CpuPhase::Exited => {},
        }
        CpuOutput { messages, fault: None }
    }
}

/// A halted CPU stays halted and does nothing more: whatever the step, it
/// keeps its EIP, leaves the memory alone and publishes nothing.
pub proof fn lemma_halted_is_final(worker: CpuWorker, mem: Seq<u8>, terminate: bool)
    requires
        worker.wf(),
        worker.halted,
    ensures
        cpu_step(worker, mem, terminate).worker.wf(),
        cpu_step(worker, mem, terminate).worker.halted,
        cpu_step(worker, mem, terminate).worker.eip == worker.eip,
        cpu_step(worker, mem, terminate).mem == mem,
        cpu_step(worker, mem, terminate).messages.len() == 0,
        cpu_step(worker, mem, terminate).fault is None,
{
}

/// After a batch the EIP names an instruction inside the memory image, or
/// the CPU is halted. The law leaves out the batch whose last instruction,
/// the one that uses up the budget, branches out of the image: nothing has
/// tried to execute there yet, so the CPU is not halted (see
/// `lemma_halts_before_executing_outside`).
pub proof fn lemma_eip_in_range_or_halted(worker: CpuWorker, mem: Seq<u8>)
    requires
        worker.wf(),
        mem.len() == MEM_SIZE,
        ({
            let ran = run(mem, worker.eip, worker.batch_size as nat);
            ran.fault is Some || fetchable(ran.mem, ran.eip)
        }),
    ensures
        batch_step(worker, mem).mem.len() == MEM_SIZE,
        batch_step(worker, mem).worker.eip + 24 <= MEM_SIZE || batch_step(
            worker,
            mem,
        ).worker.halted,
{
    lemma_run_stops_at_fault(mem, worker.eip, worker.batch_size as nat);
}

/// A batch that starts at an EIP outside the memory image executes nothing:
/// it leaves the memory as it is, publishes that EIP and halts the CPU.
pub proof fn lemma_halts_before_executing_outside(worker: CpuWorker, mem: Seq<u8>)
    requires
        worker.wf(),
        mem.len() == MEM_SIZE,
        worker.batch_size > 0,
        worker.eip + 24 > MEM_SIZE,
    ensures
        batch_step(worker, mem).worker.halted,
        batch_step(worker, mem).worker.eip == worker.eip,
        batch_step(worker, mem).mem == mem,
        batch_step(worker, mem).messages == seq![Notice::SetEIP(worker.eip)],
        batch_step(worker, mem).fault == Some(Fault::Eip),
{
    assert(fault_at(mem, worker.eip) == Some(Fault::Eip));
    assert(run_trace(mem, worker.eip, worker.batch_size as nat) =~= Seq::<Notice>::empty());
    assert(Seq::<Notice>::empty().push(Notice::SetEIP(worker.eip)) =~= seq![
        Notice::SetEIP(worker.eip),
    ]);
}

/// A step that is no batch changes the status word of the CPU in one way
/// only: from stop requested to stopped. (In a batch the guest program may
/// write any word, the status word too.)
pub proof fn lemma_worker_follows_edges(worker: CpuWorker, mem: Seq<u8>, terminate: bool)
    requires
        worker.wf(),
        mem.len() == MEM_SIZE,
        !runs_batch(worker, mem, terminate),
    ensures
        ({
            let before = status_of(mem, worker.cpu_id);
            let after = status_of(cpu_step(worker, mem, terminate).mem, worker.cpu_id);
            after == before || (before == STATUS_STOP_REQUESTED && after == STATUS_STOPPED)
        }),
{
    crate::mem::lemma_read_after_write(mem, status_offset(worker.cpu_id), STATUS_STOPPED);
}

} // verus!
