//! Messages from the workers to the user interface.

use vstd::prelude::*;

verus! {

/// What a worker tells the user interface.
#[derive(Debug, PartialEq, Eq)]
pub enum UIMessage {
    /// One byte that the guest wrote to the serial port.
    Serial(u8),
    /// A trace line for the instruction at the given EIP.
    Debug(u64, String),
    /// The EIP at the end of a batch, or where the CPU halted.
    SetEIP(u64),
    /// The CPU with this number runs again.
    CPUStarted(usize),
    /// The CPU with this number acknowledged a stop request.
    CPUStopped(usize),
}

/// A message as a mathematical value, with its text as a sequence of
/// characters.
pub enum Notice {
    Serial(u8),
    Debug(u64, Seq<char>),
    SetEIP(u64),
    CPUStarted(usize),
    CPUStopped(usize),
}

impl View for UIMessage {
    type V = Notice;

    open spec fn view(&self) -> Notice {
        match *self {
            UIMessage::Serial(byte) => Notice::Serial(byte),
            UIMessage::Debug(eip, text) => Notice::Debug(eip, text@),
            UIMessage::SetEIP(eip) => Notice::SetEIP(eip),
            UIMessage::CPUStarted(cpu_id) => Notice::CPUStarted(cpu_id),
            UIMessage::CPUStopped(cpu_id) => Notice::CPUStopped(cpu_id),
        }
    }
}

/// The messages of a list, each as a mathematical value.
pub open spec fn notices(messages: Seq<UIMessage>) -> Seq<Notice> {
    Seq::new(messages.len(), |i: int| messages[i]@)
}

} // verus!
