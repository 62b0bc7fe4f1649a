//! The memory-mapped serial device and the decisions of its worker. Host
//! keystrokes wait in a queue and reach the guest one per cycle; what the
//! guest writes is handed out one byte per cycle. A byte travels as the byte
//! plus one, so that a zero word means that nothing is there.

use crate::mem::{read_word, store_word, word_at, write_word, MEM_SIZE};
use crate::msg::UIMessage;
use std::collections::VecDeque;
use vstd::prelude::*;

verus! {

/// The word that the device sets to 1 when it starts.
pub const SERIAL_CONNECTED: usize = 0x13ED_27E0;

/// The word through which a byte reaches the guest.
pub const SERIAL_IN: usize = 0x13ED_27E8;

/// The word through which a byte leaves the guest.
pub const SERIAL_OUT: usize = 0x13ED_27F0;

/// The rendezvous that the serial worker is waiting at, or is about to wait
/// at.
#[derive(Debug, Clone, Copy, PartialEq, Eq, Structural)]
pub enum SerialPhase {
    /// The start of the I/O part of a cycle.
    IoStart,
    /// The end of the I/O part of a cycle.
    IoEnd,
    /// The end of the I/O part in which termination was seen.
    ExitEnd,
    /// No rendezvous: the worker has left.
    Exited,
}

/// The state of the serial worker.
#[derive(Debug)]
pub struct SerialWorker {
    /// The host keystrokes that have not reached the guest yet, oldest
    /// first.
    pub pending: VecDeque<u8>,
    /// The rendezvous that the worker waits at.
    pub phase: SerialPhase,
}

/// What the caller has to do after a step of the serial worker.
#[derive(Debug)]
pub struct SerialOutput {
    /// The byte to publish, as a `Serial` message.
    pub message: Option<UIMessage>,
    /// A value that the guest wrote and that is no byte: to be logged, not
    /// published.
    pub warning: Option<u64>,
}

/// Whether a byte is handed to the guest: one is waiting and the guest has
/// taken the one before.
pub open spec fn delivers(mem: Seq<u8>, queue: Seq<u8>) -> bool {
    queue.len() > 0 && word_at(mem, SERIAL_IN as int) == 0
}

/// The bytes handed to the guest in one cycle: the oldest one that waits,
/// or none.
pub open spec fn delivered(mem: Seq<u8>, queue: Seq<u8>) -> Seq<u8> {
    if delivers(mem, queue) {
        seq![queue[0]]
    } else {
        Seq::empty()
    }
}

/// The queue after the delivery.
pub open spec fn queue_after_delivery(mem: Seq<u8>, queue: Seq<u8>) -> Seq<u8> {
    if delivers(mem, queue) {
        queue.drop_first()
    } else {
        queue
    }
}

/// The memory after the delivery: the byte plus one stands in `SERIAL_IN`.
pub open spec fn mem_after_delivery(mem: Seq<u8>, queue: Seq<u8>) -> Seq<u8> {
    if delivers(mem, queue) {
        store_word(mem, SERIAL_IN as int, (queue[0] + 1) as u64)
    } else {
        mem
    }
}

/// The byte that the guest has written to `SERIAL_OUT`, if the word there
/// holds one.
pub open spec fn emitted(mem: Seq<u8>) -> Option<UIMessage> {
    let out = word_at(mem, SERIAL_OUT as int);
    if out != 0 && out - 1 <= 255 {
        Some(UIMessage::Serial((out - 1) as u8))
    } else {
        None
    }
}

/// The value that the guest has written to `SERIAL_OUT`, less one, if it is
/// too large for a byte.
pub open spec fn rejected(mem: Seq<u8>) -> Option<u64> {
    let out = word_at(mem, SERIAL_OUT as int);
    if out != 0 && out - 1 > 255 {
        Some((out - 1) as u64)
    } else {
        None
    }
}

/// The memory after the output was collected: `SERIAL_OUT` is zero.
pub open spec fn mem_after_collection(mem: Seq<u8>) -> Seq<u8> {
    if word_at(mem, SERIAL_OUT as int) != 0 {
        store_word(mem, SERIAL_OUT as int, 0)
    } else {
        mem
    }
}

/// A step of the serial worker as a mathematical value.
pub struct SerialStep {
    pub pending: Seq<u8>,
    pub phase: SerialPhase,
    pub mem: Seq<u8>,
    pub message: Option<UIMessage>,
    pub warning: Option<u64>,
}

/// A step that does no I/O: the keystrokes join the queue and the phase
/// changes.
pub open spec fn idle_step(queue: Seq<u8>, mem: Seq<u8>, phase: SerialPhase) -> SerialStep {
    SerialStep { pending: queue, phase, mem, message: None, warning: None }
}

/// What the serial worker does after the rendezvous it was waiting at.
/// `keys` are the keystrokes that arrived since the last step; they join the
/// queue behind those that wait. At the start of the I/O part, unless
/// termination was signalled, one byte goes to the guest if the guest is
/// ready, and then one byte is taken from the guest if it has written one.
pub open spec fn serial_step(
    pending: Seq<u8>,
    phase: SerialPhase,
    mem: Seq<u8>,
    terminate: bool,
    keys: Seq<u8>,
) -> SerialStep {
    let queue = pending + keys;
    match phase {
        SerialPhase::IoStart => {
            if terminate {
                idle_step(queue, mem, SerialPhase::ExitEnd)
            } else {
                let fed = mem_after_delivery(mem, queue);
                SerialStep {
                    pending: queue_after_delivery(mem, queue),
                    phase: SerialPhase::IoEnd,
                    mem: mem_after_collection(fed),
                    message: emitted(fed),
                    warning: rejected(fed),
                }
            }
        },
        SerialPhase::IoEnd => idle_step(queue, mem, SerialPhase::IoStart),
        SerialPhase::ExitEnd => idle_step(queue, mem, SerialPhase::Exited),
        SerialPhase::Exited => idle_step(queue, mem, SerialPhase::Exited),
    }
}

/// Hands the oldest waiting byte to the guest, if one waits and the guest
/// has taken the one before. Returns the byte that was handed over.
pub fn deliver_input(mem: &mut [u8], pending: &mut VecDeque<u8>) -> (sent: Option<u8>)
    requires
        old(mem)@.len() == MEM_SIZE,
    ensures
        final(mem)@ == mem_after_delivery(old(mem)@, old(pending)@),
        final(pending)@ == queue_after_delivery(old(mem)@, old(pending)@),
        sent is Some == delivers(old(mem)@, old(pending)@),
        sent matches Some(byte) ==> delivered(old(mem)@, old(pending)@) == seq![byte],
{
    if pending.len() > 0 && read_word(mem, SERIAL_IN) == 0 {
        let ghost queue = pending@;
        match pending.pop_front() {
            Some(byte) => {
                assert(pending@ =~= queue.drop_first());
                write_word(mem, SERIAL_IN, byte as u64 + 1);
                Some(byte)
            },
            None => None,
        }
    } else {
        None
    }
}

/// Takes what the guest has written to `SERIAL_OUT`, if anything, and
/// clears the word. A value that is a byte plus one gives a `Serial`
/// message; a larger one gives a warning.
pub fn collect_output(mem: &mut [u8]) -> (out: SerialOutput)
    requires
        old(mem)@.len() == MEM_SIZE,
    ensures
        final(mem)@ == mem_after_collection(old(mem)@),
        out.message == emitted(old(mem)@),
        out.warning == rejected(old(mem)@),
{
    let word = read_word(mem, SERIAL_OUT);
    if word == 0 {
        return SerialOutput { message: None, warning: None };
    }
    let value = word - 1;
    write_word(mem, SERIAL_OUT, 0);
    if value > 255 {
        SerialOutput { message: None, warning: Some(value) }
    } else {
        SerialOutput { message: Some(UIMessage::Serial(value as u8)), warning: None }
    }
}

impl SerialWorker {
    /// Starts the serial worker: sets `SERIAL_CONNECTED` to 1 and waits for
    /// the start of the first cycle with an empty queue.
    pub fn start(mem: &mut [u8]) -> (worker: SerialWorker)
        requires
            old(mem)@.len() == MEM_SIZE,
        ensures
            final(mem)@ == store_word(old(mem)@, SERIAL_CONNECTED as int, 1),
            worker.pending@ == Seq::<u8>::empty(),
            worker.phase == SerialPhase::IoStart,
    {
        write_word(mem, SERIAL_CONNECTED, 1);
        SerialWorker { pending: VecDeque::new(), phase: SerialPhase::IoStart }
    }

    /// Whether the worker has left and waits at no rendezvous.
    pub fn has_exited(&self) -> (exited: bool)
        ensures
            exited == (self.phase == SerialPhase::Exited),
    {
        self.phase == SerialPhase::Exited
    }

    /// Whether the rendezvous that the worker waits at is the one at which
    /// it looks for the termination signal and for keystrokes.
    pub fn polls_termination(&self) -> (polls: bool)
        ensures
            polls == (self.phase == SerialPhase::IoStart),
    {
        self.phase == SerialPhase::IoStart
    }

    /// Does what follows the rendezvous that the worker was waiting at, and
    /// moves on to the next rendezvous. The caller logs the warning,
    /// publishes the message and then waits at that rendezvous, unless the
    /// worker has exited.
    pub fn advance(&mut self, mem: &mut [u8], terminate: bool, keys: &[u8]) -> (out: SerialOutput)
        requires
            old(mem)@.len() == MEM_SIZE,
        ensures
            final(self).pending@ == serial_step(
                old(self).pending@,
                old(self).phase,
                old(mem)@,
                terminate,
                keys@,
            ).pending,
            final(self).phase == serial_step(
                old(self).pending@,
                old(self).phase,
                old(mem)@,
                terminate,
                keys@,
            ).phase,
            final(mem)@ == serial_step(
                old(self).pending@,
                old(self).phase,
                old(mem)@,
                terminate,
                keys@,
            ).mem,
            out.message == serial_step(
                old(self).pending@,
                old(self).phase,
                old(mem)@,
                terminate,
                keys@,
            ).message,
            out.warning == serial_step(
                old(self).pending@,
                old(self).phase,
                old(mem)@,
                terminate,
                keys@,
            ).warning,
            final(mem)@.len() == MEM_SIZE,
    {
        let mut i: usize = 0;
        while i < keys.len()
            invariant
                i <= keys@.len(),
                self.pending@ == old(self).pending@ + keys@.subrange(0, i as int),
                self.phase == old(self).phase,
            decreases keys@.len() - i,
        {
            self.pending.push_back(keys[i]);
            i += 1;
            assert(self.pending@ =~= old(self).pending@ + keys@.subrange(0, i as int));
        }
        assert(keys@.subrange(0, i as int) =~= keys@);
        match self.phase {
            SerialPhase::IoStart => {
                if terminate {
                    self.phase = SerialPhase::ExitEnd;
                } else {
                    deliver_input(mem, &mut self.pending);
                    self.phase = SerialPhase::IoEnd;
                    return collect_output(mem);
                }
            },
            SerialPhase::IoEnd => {
                self.phase = SerialPhase::IoStart;
            },
            SerialPhase::ExitEnd => {
                self.phase = SerialPhase::Exited;
            },
            SerialPhase::Exited => {},
        }
        SerialOutput { message: None, warning: None }
    }
}

/// What the serial worker finds at the start of one cycle: the memory as the
/// guest left it, and the keystrokes that arrived.
pub struct SerialCycle {
    pub mem: Seq<u8>,
    pub keys: Seq<u8>,
}

/// All keystrokes that arrived during the cycles, in the order of arrival.
pub open spec fn keys_of(cycles: Seq<SerialCycle>) -> Seq<u8>
    decreases cycles.len(),
{
    if cycles.len() == 0 {
        Seq::empty()
    } else {
        keys_of(cycles.drop_last()) + cycles.last().keys
    }
}

/// The queue after the cycles, begun with `pending`.
pub open spec fn pending_after(pending: Seq<u8>, cycles: Seq<SerialCycle>) -> Seq<u8>
    decreases cycles.len(),
{
    if cycles.len() == 0 {
        pending
    } else {
        queue_after_delivery(
            cycles.last().mem,
            pending_after(pending, cycles.drop_last()) + cycles.last().keys,
        )
    }
}

/// All bytes handed to the guest during the cycles, in the order in which
/// they were written to `SERIAL_IN`.
pub open spec fn delivered_in(pending: Seq<u8>, cycles: Seq<SerialCycle>) -> Seq<u8>
    decreases cycles.len(),
{
    if cycles.len() == 0 {
        Seq::empty()
    } else {
        delivered_in(pending, cycles.drop_last()) + delivered(
            cycles.last().mem,
            pending_after(pending, cycles.drop_last()) + cycles.last().keys,
        )
    }
}

/// In one cycle at most one byte is handed to the guest: the oldest in the
/// queue, written to `SERIAL_IN` as the byte plus one, and only if
/// `SERIAL_IN` was zero. The byte handed over and the queue that is left
/// are, in this order, the old queue.
pub proof fn lemma_delivery_keeps_order(mem: Seq<u8>, queue: Seq<u8>)
    requires
        mem.len() == MEM_SIZE,
    ensures
        delivered(mem, queue) + queue_after_delivery(mem, queue) == queue,
        delivered(mem, queue).len() <= 1,
        delivers(mem, queue) ==> word_at(mem_after_delivery(mem, queue), SERIAL_IN as int)
            == queue[0] + 1,
        !delivers(mem, queue) ==> mem_after_delivery(mem, queue) == mem,
{
    assert(delivered(mem, queue) + queue_after_delivery(mem, queue) =~= queue);
    if delivers(mem, queue) {
        crate::mem::lemma_read_after_write(mem, SERIAL_IN as int, (queue[0] + 1) as u64);
    }
}

/// A step of the worker loses no keystroke: the byte that it hands to the
/// guest, if any, followed by the queue that it leaves, is the queue that it
/// found followed by the keystrokes that arrived. Only the step at the
/// start of the I/O part, without termination, hands a byte over or touches
/// the memory.
pub proof fn lemma_step_keeps_keystrokes(
    pending: Seq<u8>,
    phase: SerialPhase,
    mem: Seq<u8>,
    terminate: bool,
    keys: Seq<u8>,
)
    ensures
        phase == SerialPhase::IoStart && !terminate ==> delivered(mem, pending + keys)
            + serial_step(pending, phase, mem, terminate, keys).pending == pending + keys,
        !(phase == SerialPhase::IoStart && !terminate) ==> serial_step(
            pending,
            phase,
            mem,
            terminate,
            keys,
        ).pending == pending + keys && serial_step(pending, phase, mem, terminate, keys).mem
            == mem,
{
    let queue = pending + keys;
    assert(delivered(mem, queue) + queue_after_delivery(mem, queue) =~= queue);
}

/// Over any number of cycles no keystroke is lost, none is handed over
/// twice, and the order is kept: the bytes handed to the guest, followed by
/// those that still wait, are the bytes that waited at first followed by
/// all that arrived.
pub proof fn lemma_keystrokes_in_order(pending: Seq<u8>, cycles: Seq<SerialCycle>)
    ensures
        delivered_in(pending, cycles) + pending_after(pending, cycles) == pending + keys_of(
            cycles,
        ),
    decreases cycles.len(),
{
    if cycles.len() == 0 {
        assert(delivered_in(pending, cycles) + pending_after(pending, cycles) =~= pending
            + keys_of(cycles));
    } else {
        let before = cycles.drop_last();
        let queue = pending_after(pending, before) + cycles.last().keys;
        lemma_keystrokes_in_order(pending, before);
        assert(delivered(cycles.last().mem, queue) + queue_after_delivery(
            cycles.last().mem,
            queue,
        ) =~= queue);
        assert(delivered_in(pending, cycles) + pending_after(pending, cycles) =~= (delivered_in(
            pending,
            before,
        ) + pending_after(pending, before)) + cycles.last().keys);
        assert((pending + keys_of(before)) + cycles.last().keys =~= pending + keys_of(cycles));
    }
}

/// Whatever the guest has written to `SERIAL_OUT` is taken once: a non-zero
/// word gives either one message or one warning, never both, and the word
/// is zero afterwards; a zero word gives neither and nothing changes.
/// `SERIAL_IN` is not touched.
pub proof fn lemma_output_taken_once(mem: Seq<u8>)
    requires
        mem.len() == MEM_SIZE,
    ensures
        word_at(mem_after_collection(mem), SERIAL_OUT as int) == 0,
        word_at(mem_after_collection(mem), SERIAL_IN as int) == word_at(mem, SERIAL_IN as int),
        word_at(mem, SERIAL_OUT as int) != 0 ==> (emitted(mem) is Some) != (rejected(mem)
            is Some),
        word_at(mem, SERIAL_OUT as int) == 0 ==> emitted(mem) is None && rejected(mem) is None
            && mem_after_collection(mem) == mem,
        emitted(mem) matches Some(message) ==> message == UIMessage::Serial(
            (word_at(mem, SERIAL_OUT as int) - 1) as u8,
        ),
{
    crate::mem::lemma_read_after_write(mem, SERIAL_OUT as int, 0);
    crate::mem::lemma_write_keeps_other_words(mem, SERIAL_OUT as int, 0, SERIAL_IN as int);
}

} // verus!
