//! The SUBLEQ instruction and the execution of instructions in batches.

use crate::mem::{
    as_signed, as_unsigned, read_word, store_word, to_signed, to_unsigned, word_at, write_word,
};
use crate::msg::{notices, Notice, UIMessage};
use crate::text::{hex, push_hex, push_text};
use vstd::prelude::*;

verus! {

/// The size of one instruction: three words.
pub const INSTRUCTION_SIZE: u64 = 24;

/// Why an instruction cannot be executed.
#[derive(Debug, Clone, Copy, PartialEq, Eq, Structural)]
pub enum Fault {
    /// The three words of the instruction do not lie inside the memory.
    Eip,
    /// The word that A or B points at does not lie inside the memory.
    Operand,
}

/// The first word of the instruction at `eip`: the address that is read and
/// written.
pub open spec fn operand_a(mem: Seq<u8>, eip: u64) -> u64 {
    word_at(mem, eip as int)
}

/// The second word of the instruction at `eip`: the address that is
/// subtracted.
pub open spec fn operand_b(mem: Seq<u8>, eip: u64) -> u64 {
    word_at(mem, eip + 8)
}

/// The third word of the instruction at `eip`: the branch target.
pub open spec fn operand_c(mem: Seq<u8>, eip: u64) -> u64 {
    word_at(mem, eip + 16)
}

/// The instruction at `eip` lies inside the memory.
pub open spec fn fetchable(mem: Seq<u8>, eip: u64) -> bool {
    eip + INSTRUCTION_SIZE <= mem.len()
}

/// What stops the instruction at `eip` from being executed, if anything.
pub open spec fn fault_at(mem: Seq<u8>, eip: u64) -> Option<Fault> {
    if !fetchable(mem, eip) {
        Some(Fault::Eip)
    } else if operand_a(mem, eip) + 8 > mem.len() || operand_b(mem, eip) + 8 > mem.len() {
        Some(Fault::Operand)
    } else {
        None
    }
}

/// `a - b` in two's complement, wrapping on overflow.
pub open spec fn wrapped_difference(a: i64, b: i64) -> i64 {
    if a - b > i64::MAX {
        (a - b - 0x1_0000_0000_0000_0000) as i64
    } else if a - b < i64::MIN {
        (a - b + 0x1_0000_0000_0000_0000) as i64
    } else {
        (a - b) as i64
    }
}

/// The value that the instruction at `eip` stores at A: the word at A minus
/// the word at B, both read as signed numbers.
pub open spec fn difference(mem: Seq<u8>, eip: u64) -> i64 {
    wrapped_difference(
        as_signed(word_at(mem, operand_a(mem, eip) as int)),
        as_signed(word_at(mem, operand_b(mem, eip) as int)),
    )
}

/// The memory after the instruction at `eip`: the old memory with the
/// difference stored at A.
pub open spec fn after_step(mem: Seq<u8>, eip: u64) -> Seq<u8> {
    store_word(mem, operand_a(mem, eip) as int, as_unsigned(difference(mem, eip)))
}

/// The EIP after the instruction at `eip`: C where the difference is zero or
/// negative, the following instruction otherwise.
pub open spec fn next_eip(mem: Seq<u8>, eip: u64) -> u64 {
    if difference(mem, eip) <= 0 {
        operand_c(mem, eip)
    } else {
        (eip + INSTRUCTION_SIZE) as u64
    }
}

/// Tells whether the instruction at `eip` can be executed.
pub fn inspect(mem: &[u8], eip: u64) -> (fault: Option<Fault>)
    ensures
        fault == fault_at(mem@, eip),
{
    let len: u64 = mem.len() as u64;
    if len < 24 || eip > len - 24 {
        return Some(Fault::Eip);
    }
    let a = read_word(mem, eip as usize);
    let b = read_word(mem, (eip + 8) as usize);
    if a > len - 8 || b > len - 8 {
        Some(Fault::Operand)
    } else {
        None
    }
}

/// Executes the instruction at `eip` and returns the EIP that follows.
pub fn step(mem: &mut [u8], eip: u64) -> (next: u64)
    requires
        fault_at(old(mem)@, eip) is None,
    ensures
        final(mem)@ == after_step(old(mem)@, eip),
        next == next_eip(old(mem)@, eip),
{
    let len: usize = mem.len();
    assert(eip + 24 <= len);
    let at: usize = eip as usize;
    let a_addr = read_word(mem, at);
    let b_addr = read_word(mem, at + 8);
    let c_addr = read_word(mem, at + 16);
    let a_val = to_signed(read_word(mem, a_addr as usize));
    let b_val = to_signed(read_word(mem, b_addr as usize));
    let result = a_val.wrapping_sub(b_val);
    write_word(mem, a_addr as usize, to_unsigned(result));
    if result <= 0 {
        c_addr
    } else {
        eip + INSTRUCTION_SIZE
    }
}

/// Executes the instruction at `eip` if it can be executed; otherwise leaves
/// the memory as it is and says why.
pub fn try_step(mem: &mut [u8], eip: u64) -> (r: Result<u64, Fault>)
    ensures
        match fault_at(old(mem)@, eip) {
            Some(fault) => r == Err::<u64, Fault>(fault) && final(mem)@ == old(mem)@,
            None => r == Ok::<u64, Fault>(next_eip(old(mem)@, eip)) && final(mem)@ == after_step(
                old(mem)@,
                eip,
            ),
        },
{
    match inspect(mem, eip) {
        Some(fault) => Err(fault),
        None => Ok(step(mem, eip)),
    }
}

/// Where a run of instructions ended.
pub struct Run {
    /// The memory after the last instruction that was executed.
    pub mem: Seq<u8>,
    /// The EIP of the instruction that would be next.
    pub eip: u64,
    /// How many instructions were executed.
    pub executed: nat,
    /// What stopped the run before its budget was used up, if anything.
    pub fault: Option<Fault>,
}

/// Runs instructions from `eip` on: at most `budget` of them, and none from
/// the first that cannot be executed.
pub open spec fn run(mem: Seq<u8>, eip: u64, budget: nat) -> Run
    decreases budget,
{
    if budget == 0 {
        Run { mem, eip, executed: 0, fault: None }
    } else if fault_at(mem, eip) is Some {
        Run { mem, eip, executed: 0, fault: fault_at(mem, eip) }
    } else {
        let rest = run(after_step(mem, eip), next_eip(mem, eip), (budget - 1) as nat);
        Run { mem: rest.mem, eip: rest.eip, executed: rest.executed + 1, fault: rest.fault }
    }
}

/// The trace line of the instruction at `eip`: the EIP, A with the word at A
/// before the subtraction, B with the word at B, and C, all in upper-case
/// hexadecimal with the prefix `0x`.
pub open spec fn trace_line(mem: Seq<u8>, eip: u64) -> Seq<char> {
    "0x"@ + hex(eip as nat, true) + " 0x"@ + hex(operand_a(mem, eip) as nat, true) + "(0x"@ + hex(
        word_at(mem, operand_a(mem, eip) as int) as nat,
        true,
    ) + ") 0x"@ + hex(operand_b(mem, eip) as nat, true) + "(0x"@ + hex(
        word_at(mem, operand_b(mem, eip) as int) as nat,
        true,
    ) + ") 0x"@ + hex(operand_c(mem, eip) as nat, true) + "\r\n"@
}

/// The trace of a run: one line for each instruction that is executed, in
/// the order of execution.
pub open spec fn run_trace(mem: Seq<u8>, eip: u64, budget: nat) -> Seq<Notice>
    decreases budget,
{
    if budget == 0 || fault_at(mem, eip) is Some {
        Seq::empty()
    } else {
        seq![Notice::Debug(eip, trace_line(mem, eip))] + run_trace(
            after_step(mem, eip),
            next_eip(mem, eip),
            (budget - 1) as nat,
        )
    }
}

/// The trace line of the instruction at `eip`.
pub fn trace_text(mem: &[u8], eip: u64) -> (line: String)
    requires
        fault_at(mem@, eip) is None,
    ensures
        line@ == trace_line(mem@, eip),
{
    let len: usize = mem.len();
    assert(eip + 24 <= len);
    let at: usize = eip as usize;
    let a_addr = read_word(mem, at);
    let b_addr = read_word(mem, at + 8);
    let c_addr = read_word(mem, at + 16);
    let a_val = read_word(mem, a_addr as usize);
    let b_val = read_word(mem, b_addr as usize);
    let mut line = String::new();
    push_text(&mut line, "0x");
    push_hex(&mut line, eip, true);
    push_text(&mut line, " 0x");
    push_hex(&mut line, a_addr, true);
    push_text(&mut line, "(0x");
    push_hex(&mut line, a_val, true);
    push_text(&mut line, ") 0x");
    push_hex(&mut line, b_addr, true);
    push_text(&mut line, "(0x");
    push_hex(&mut line, b_val, true);
    push_text(&mut line, ") 0x");
    push_hex(&mut line, c_addr, true);
    push_text(&mut line, "\r\n");
    assert(line@ =~= trace_line(mem@, eip));
    line
}

/// What a batch of instructions did.
#[derive(Debug)]
pub struct Batch {
    /// The EIP of the instruction that would be next.
    pub eip: u64,
    /// How many instructions were executed.
    pub executed: usize,
    /// What stopped the batch before its budget was used up, if anything.
    pub fault: Option<Fault>,
    /// The trace lines, where tracing was asked for.
    pub trace: Vec<UIMessage>,
}

/// Executes instructions from `eip` on, until `budget` of them are done or
/// one cannot be executed. With `tracing`, each executed instruction leaves
/// a trace line.
pub fn run_batch(mem: &mut [u8], eip: u64, budget: usize, tracing: bool) -> (batch: Batch)
    ensures
        final(mem)@ == run(old(mem)@, eip, budget as nat).mem,
        batch.eip == run(old(mem)@, eip, budget as nat).eip,
        batch.executed == run(old(mem)@, eip, budget as nat).executed,
        batch.fault == run(old(mem)@, eip, budget as nat).fault,
        tracing ==> notices(batch.trace@) == run_trace(old(mem)@, eip, budget as nat),
        !tracing ==> batch.trace@.len() == 0,
{
    let ghost whole = run(mem@, eip, budget as nat);
    let ghost whole_trace = run_trace(mem@, eip, budget as nat);
    let mut trace: Vec<UIMessage> = Vec::new();
    let mut fault: Option<Fault> = None;
    let mut done: usize = 0;
    let mut cur: u64 = eip;
    assert(notices(trace@) + whole_trace =~= whole_trace);
    while done < budget && fault.is_none()
        invariant
            done <= budget,
            fault matches Some(found) ==> done < budget && fault_at(mem@, cur) == Some(found),
            whole.mem == run(mem@, cur, (budget - done) as nat).mem,
            whole.eip == run(mem@, cur, (budget - done) as nat).eip,
            whole.executed == run(mem@, cur, (budget - done) as nat).executed + done,
            whole.fault == run(mem@, cur, (budget - done) as nat).fault,
            tracing ==> whole_trace == notices(trace@) + run_trace(
                mem@,
                cur,
                (budget - done) as nat,
            ),
            !tracing ==> trace@.len() == 0,
        decreases (budget - done) + (if fault is None { 1int } else { 0int }),
    {
        match inspect(mem, cur) {
            Some(found) => {
                fault = Some(found);
            },
            None => {
                let ghost before = mem@;
                let ghost seen = notices(trace@);
                if tracing {
                    let line = trace_text(mem, cur);
                    trace.push(UIMessage::Debug(cur, line));
                    assert(notices(trace@) =~= seen + seq![
                        Notice::Debug(cur, trace_line(before, cur)),
                    ]);
                }
                let next = step(mem, cur);
                proof {
                    let rest = run_trace(mem@, next, (budget - done - 1) as nat);
                    assert(run_trace(before, cur, (budget - done) as nat) == seq![
                        Notice::Debug(cur, trace_line(before, cur)),
                    ] + rest);
                    if tracing {
                        assert(notices(trace@) + rest =~= seen + (seq![
                            Notice::Debug(cur, trace_line(before, cur)),
                        ] + rest));
                    }
                }
                cur = next;
                done += 1;
            },
        }
    }
    Batch { eip: cur, executed: done, fault, trace }
}

/// A run never executes an instruction that does not lie inside the memory:
/// it ends with its budget used up and no fault, or at the first
/// instruction that cannot be executed.
pub proof fn lemma_run_stops_at_fault(mem: Seq<u8>, eip: u64, budget: nat)
    ensures
        run(mem, eip, budget).executed <= budget,
        run(mem, eip, budget).mem.len() == mem.len(),
        run(mem, eip, budget).fault is None ==> run(mem, eip, budget).executed == budget,
        run(mem, eip, budget).fault matches Some(fault) ==> run(mem, eip, budget).executed < budget
            && fault_at(run(mem, eip, budget).mem, run(mem, eip, budget).eip) == Some(fault),
    decreases budget,
{
    if budget > 0 && fault_at(mem, eip) is None {
        lemma_run_stops_at_fault(after_step(mem, eip), next_eip(mem, eip), (budget - 1) as nat);
    }
}

/// A run can be cut in two: running `first + second` instructions is
/// running `first`, then `second` more from where that ended, unless the
/// first part ended in a fault.
pub proof fn lemma_run_split(mem: Seq<u8>, eip: u64, first: nat, second: nat)
    ensures
        run(mem, eip, first).fault is Some ==> run(mem, eip, first + second) == run(
            mem,
            eip,
            first,
        ),
        run(mem, eip, first).fault is None ==> ({
            let head = run(mem, eip, first);
            let tail = run(head.mem, head.eip, second);
            run(mem, eip, first + second) == Run {
                mem: tail.mem,
                eip: tail.eip,
                executed: head.executed + tail.executed,
                fault: tail.fault,
            }
        }),
    decreases first,
{
    if first > 0 && fault_at(mem, eip) is None {
        lemma_run_split(
            after_step(mem, eip),
            next_eip(mem, eip),
            (first - 1) as nat,
            second,
        );
        assert((first + second - 1) as nat == (first - 1) as nat + second);
    }
}

/// An instruction changes the word at A and nothing else: the memory keeps
/// its length, every byte outside the eight bytes at A stays as it was, and
/// the word at A becomes the word at A minus the word at B, wrapped to 64
/// bits. The EIP becomes C where that difference, read as a signed number,
/// is zero or negative, and moves on by one instruction otherwise.
pub proof fn lemma_step_changes_only_a(mem: Seq<u8>, eip: u64)
    requires
        mem.len() <= u64::MAX,
        fault_at(mem, eip) is None,
    ensures
        after_step(mem, eip).len() == mem.len(),
        forall|i: int|
            0 <= i < mem.len() && !(operand_a(mem, eip) <= i < operand_a(mem, eip) + 8)
                ==> after_step(mem, eip)[i] == mem[i],
        as_signed(word_at(after_step(mem, eip), operand_a(mem, eip) as int)) == difference(
            mem,
            eip,
        ),
        difference(mem, eip) <= 0 ==> next_eip(mem, eip) == operand_c(mem, eip),
        difference(mem, eip) > 0 ==> next_eip(mem, eip) == eip + INSTRUCTION_SIZE,
{
    let a = operand_a(mem, eip) as int;
    let stored = as_unsigned(difference(mem, eip));
    let after = store_word(mem, a, stored);
    assert(after_step(mem, eip) == after);
    assert(word_at(after, a) == stored) by {
        crate::mem::lemma_read_after_write(mem, a, stored);
    }
    assert(as_signed(stored) == difference(mem, eip)) by {
        crate::mem::lemma_signed_round_trip(0, difference(mem, eip));
    }
    assert(after.len() == mem.len());
    assert forall|i: int| 0 <= i < mem.len() && !(a <= i < a + 8) implies after[i] == mem[i] by {}
}

} // verus!
