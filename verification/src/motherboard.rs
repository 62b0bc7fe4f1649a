//! The motherboard: the conductor of the cycle. It owns no data; it meets
//! the serial worker twice, then the CPU worker twice, pauses, and looks for
//! a shutdown request. What it does next is decided here; meeting, sleeping
//! and signalling are left to the caller.

use vstd::prelude::*;

verus! {

/// How long the motherboard pauses at the end of a cycle, in microseconds.
pub const PAUSE_MICROS: u64 = 20;

/// Whom the motherboard meets at a rendezvous.
#[derive(Debug, Clone, Copy, PartialEq, Eq, Structural)]
pub enum Party {
    /// The serial worker, at the I/O barrier.
    Serial,
    /// The CPU worker, at the CPU barrier.
    Cpu,
}

/// Where the motherboard is in its cycle.
#[derive(Debug, Clone, Copy, PartialEq, Eq, Structural)]
pub enum BoardPhase {
    /// About to let the serial worker begin.
    IoStart,
    /// About to wait for the serial worker to finish.
    IoEnd,
    /// About to let the CPU worker begin.
    CpuStart,
    /// About to wait for the CPU worker to finish.
    CpuEnd,
    /// About to pause.
    Pause,
    /// About to look for a shutdown request.
    Poll,
    /// About to acknowledge the shutdown request.
    Acknowledge,
    /// About to wait until the termination signal has been sent.
    AwaitResume,
    /// The last cycle: about to let the serial worker see the signal.
    LastIoStart,
    /// The last cycle: about to wait for the serial worker to leave.
    LastIoEnd,
    /// The last cycle: about to let the CPU worker see the signal.
    LastCpuStart,
    /// The last cycle: about to wait for the CPU worker to leave.
    LastCpuEnd,
    /// Done: the motherboard returns.
    Exited,
}

/// What the caller does for the motherboard.
#[derive(Debug, Clone, Copy, PartialEq, Eq, Structural)]
pub enum BoardAction {
    /// Wait at the barrier shared with the given worker.
    Meet(Party),
    /// Sleep for the given number of microseconds.
    Sleep(u64),
    /// Look, without waiting, whether a shutdown was requested.
    PollShutdown,
    /// Tell the user interface that the cycle is complete.
    Acknowledge,
    /// Wait until the user interface has sent the termination signal.
    AwaitResume,
    /// Return.
    Exit,
}

/// The action that belongs to a phase.
pub open spec fn action_of(phase: BoardPhase) -> BoardAction {
    match phase {
        BoardPhase::IoStart
        | BoardPhase::IoEnd
        | BoardPhase::LastIoStart
        | BoardPhase::LastIoEnd => BoardAction::Meet(Party::Serial),
        BoardPhase::CpuStart
        | BoardPhase::CpuEnd
        | BoardPhase::LastCpuStart
        | BoardPhase::LastCpuEnd => BoardAction::Meet(Party::Cpu),
        BoardPhase::Pause => BoardAction::Sleep(PAUSE_MICROS),
        BoardPhase::Poll => BoardAction::PollShutdown,
        BoardPhase::Acknowledge => BoardAction::Acknowledge,
        BoardPhase::AwaitResume => BoardAction::AwaitResume,
        BoardPhase::Exited => BoardAction::Exit,
    }
}

/// The phase that follows once the action of `phase` is done.
/// `shutdown_requested` is what the poll found; it matters in the phase
/// `Poll` only.
pub open spec fn phase_after(phase: BoardPhase, shutdown_requested: bool) -> BoardPhase {
    match phase {
        BoardPhase::IoStart => BoardPhase::IoEnd,
        BoardPhase::IoEnd => BoardPhase::CpuStart,
        BoardPhase::CpuStart => BoardPhase::CpuEnd,
        BoardPhase::CpuEnd => BoardPhase::Pause,
        BoardPhase::Pause => BoardPhase::Poll,
        BoardPhase::Poll => if shutdown_requested {
            BoardPhase::Acknowledge
        } else {
            BoardPhase::IoStart
        },
        BoardPhase::Acknowledge => BoardPhase::AwaitResume,
        BoardPhase::AwaitResume => BoardPhase::LastIoStart,
        BoardPhase::LastIoStart => BoardPhase::LastIoEnd,
        BoardPhase::LastIoEnd => BoardPhase::LastCpuStart,
        BoardPhase::LastCpuStart => BoardPhase::LastCpuEnd,
        BoardPhase::LastCpuEnd => BoardPhase::Exited,
        BoardPhase::Exited => BoardPhase::Exited,
    }
}

/// The phase after a number of actions; `polls[i]` is what a poll would find
/// at the `i`-th of them.
pub open spec fn phase_after_all(phase: BoardPhase, polls: Seq<bool>) -> BoardPhase
    decreases polls.len(),
{
    if polls.len() == 0 {
        phase
    } else {
        phase_after(phase_after_all(phase, polls.drop_last()), polls.last())
    }
}

/// The state of the motherboard.
#[derive(Debug, Clone, Copy, PartialEq, Eq, Structural)]
pub struct Motherboard {
    /// Where the motherboard is in its cycle.
    pub phase: BoardPhase,
}

impl Motherboard {
    /// A motherboard at the beginning of its first cycle.
    pub fn new() -> (board: Motherboard)
        ensures
            board.phase == BoardPhase::IoStart,
    {
        Motherboard { phase: BoardPhase::IoStart }
    }

    /// What the caller has to do now.
    pub fn action(&self) -> (action: BoardAction)
        ensures
            action == action_of(self.phase),
    {
        match self.phase {
            BoardPhase::IoStart
            | BoardPhase::IoEnd
            | BoardPhase::LastIoStart
            | BoardPhase::LastIoEnd => BoardAction::Meet(Party::Serial),
            BoardPhase::CpuStart
            | BoardPhase::CpuEnd
            | BoardPhase::LastCpuStart
            | BoardPhase::LastCpuEnd => BoardAction::Meet(Party::Cpu),
            BoardPhase::Pause => BoardAction::Sleep(PAUSE_MICROS),
            BoardPhase::Poll => BoardAction::PollShutdown,
            BoardPhase::Acknowledge => BoardAction::Acknowledge,
            BoardPhase::AwaitResume => BoardAction::AwaitResume,
            BoardPhase::Exited => BoardAction::Exit,
        }
    }

    /// Moves on once the action is done. `shutdown_requested` is what the
    /// poll found; pass `false` after any other action.
    pub fn advance(&mut self, shutdown_requested: bool)
        ensures
            final(self).phase == phase_after(old(self).phase, shutdown_requested),
    {
        self.phase =
        match self.phase {
            BoardPhase::IoStart => BoardPhase::IoEnd,
            BoardPhase::IoEnd => BoardPhase::CpuStart,
            BoardPhase::CpuStart => BoardPhase::CpuEnd,
            BoardPhase::CpuEnd => BoardPhase::Pause,
            BoardPhase::Pause => BoardPhase::Poll,
            BoardPhase::Poll => if shutdown_requested {
                BoardPhase::Acknowledge
            } else {
                BoardPhase::IoStart
            },
            BoardPhase::Acknowledge => BoardPhase::AwaitResume,
            BoardPhase::AwaitResume => BoardPhase::LastIoStart,
            BoardPhase::LastIoStart => BoardPhase::LastIoEnd,
            BoardPhase::LastIoEnd => BoardPhase::LastCpuStart,
            BoardPhase::LastCpuStart => BoardPhase::LastCpuEnd,
            BoardPhase::LastCpuEnd => BoardPhase::Exited,
            BoardPhase::Exited => BoardPhase::Exited,
        };
    }
}

/// Whether the CPU worker is let into its part of a cycle in this phase.
pub open spec fn opens_cpu_part(phase: BoardPhase) -> bool {
    phase == BoardPhase::CpuStart || phase == BoardPhase::LastCpuStart
}

/// Whether the serial worker is met at the end of its part of a cycle in
/// this phase.
pub open spec fn closes_io_part(phase: BoardPhase) -> bool {
    phase == BoardPhase::IoEnd || phase == BoardPhase::LastIoEnd
}

/// Whether the serial worker is let into its part of a cycle in this phase.
pub open spec fn opens_io_part(phase: BoardPhase) -> bool {
    phase == BoardPhase::IoStart || phase == BoardPhase::LastIoStart
}

/// Within a cycle all serial work comes before all CPU work: the CPU worker
/// is let in only directly after the serial worker was met at the end of
/// its part, and that meeting comes only directly after the one that let
/// the serial worker in.
pub proof fn lemma_serial_before_cpu(phase: BoardPhase, shutdown_requested: bool)
    ensures
        opens_cpu_part(phase_after(phase, shutdown_requested)) ==> closes_io_part(phase),
        closes_io_part(phase_after(phase, shutdown_requested)) ==> opens_io_part(phase),
        opens_io_part(phase) ==> action_of(phase) == BoardAction::Meet(Party::Serial),
        closes_io_part(phase) ==> action_of(phase) == BoardAction::Meet(Party::Serial),
        opens_cpu_part(phase) ==> action_of(phase) == BoardAction::Meet(Party::Cpu),
{
}

/// The actions of the motherboard over a number of steps, begun in `phase`;
/// `polls[i]` is what a poll would find at step `i`.
pub open spec fn actions_from(phase: BoardPhase, polls: Seq<bool>) -> Seq<BoardAction>
    decreases polls.len(),
{
    if polls.len() == 0 {
        Seq::empty()
    } else {
        actions_from(phase, polls.drop_last()).push(
            action_of(phase_after_all(phase, polls.drop_last())),
        )
    }
}

/// One more step after a number of steps.
pub proof fn lemma_one_more_step(phase: BoardPhase, polls: Seq<bool>, next: bool)
    ensures
        phase_after_all(phase, polls.push(next)) == phase_after(
            phase_after_all(phase, polls),
            next,
        ),
        actions_from(phase, polls.push(next)) == actions_from(phase, polls).push(
            action_of(phase_after_all(phase, polls)),
        ),
{
    assert(polls.push(next).drop_last() =~= polls);
}

/// Six steps in which no poll finds a shutdown request: the actions are
/// those of the phase at the start and of the five phases that follow it.
proof fn lemma_six_steps(start: BoardPhase)
    ensures
        ({
            let second = phase_after(start, false);
            let third = phase_after(second, false);
            let fourth = phase_after(third, false);
            let fifth = phase_after(fourth, false);
            let sixth = phase_after(fifth, false);
            &&& actions_from(start, seq![false, false, false, false, false, false]) == seq![
                action_of(start),
                action_of(second),
                action_of(third),
                action_of(fourth),
                action_of(fifth),
                action_of(sixth),
            ]
            &&& phase_after_all(start, seq![false, false, false, false, false, false])
                == phase_after(sixth, false)
        }),
{
    let none = Seq::<bool>::empty();
    let one = seq![false];
    let two = seq![false, false];
    let three = seq![false, false, false];
    let four = seq![false, false, false, false];
    let five = seq![false, false, false, false, false];
    let six = seq![false, false, false, false, false, false];
    lemma_one_more_step(start, none, false);
    lemma_one_more_step(start, one, false);
    lemma_one_more_step(start, two, false);
    lemma_one_more_step(start, three, false);
    lemma_one_more_step(start, four, false);
    lemma_one_more_step(start, five, false);
    assert(none.push(false) =~= one);
    assert(one.push(false) =~= two);
    assert(two.push(false) =~= three);
    assert(three.push(false) =~= four);
    assert(four.push(false) =~= five);
    assert(five.push(false) =~= six);
    let second = phase_after(start, false);
    let third = phase_after(second, false);
    let fourth = phase_after(third, false);
    let fifth = phase_after(fourth, false);
    let sixth = phase_after(fifth, false);
    assert(actions_from(start, six) =~= seq![
        action_of(start),
        action_of(second),
        action_of(third),
        action_of(fourth),
        action_of(fifth),
        action_of(sixth),
    ]);
}

/// A cycle without a shutdown request: two meetings with the serial worker,
/// two with the CPU worker, a pause and a poll; then the next cycle begins.
pub proof fn lemma_plain_cycle()
    ensures
        actions_from(BoardPhase::IoStart, seq![false, false, false, false, false, false]) == seq![
            BoardAction::Meet(Party::Serial),
            BoardAction::Meet(Party::Serial),
            BoardAction::Meet(Party::Cpu),
            BoardAction::Meet(Party::Cpu),
            BoardAction::Sleep(PAUSE_MICROS),
            BoardAction::PollShutdown,
        ],
        phase_after_all(BoardPhase::IoStart, seq![false, false, false, false, false, false])
            == BoardPhase::IoStart,
{
    lemma_six_steps(BoardPhase::IoStart);
}

/// Once a poll has found a shutdown request, the motherboard acknowledges
/// it, waits for the termination signal to be sent, goes through one more
/// cycle of four meetings, in which each worker sees the signal and is met
/// once more as it leaves, and returns.
pub proof fn lemma_shutdown_sequence()
    ensures
        phase_after(BoardPhase::Poll, true) == BoardPhase::Acknowledge,
        actions_from(BoardPhase::Acknowledge, seq![false, false, false, false, false, false])
            == seq![
            BoardAction::Acknowledge,
            BoardAction::AwaitResume,
            BoardAction::Meet(Party::Serial),
            BoardAction::Meet(Party::Serial),
            BoardAction::Meet(Party::Cpu),
            BoardAction::Meet(Party::Cpu),
        ],
        phase_after_all(BoardPhase::Acknowledge, seq![false, false, false, false, false, false])
            == BoardPhase::Exited,
        action_of(BoardPhase::Exited) == BoardAction::Exit,
{
    lemma_six_steps(BoardPhase::Acknowledge);
}

} // verus!
