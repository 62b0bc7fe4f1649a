use noontide_emu::control::{read_saved_eip, read_status, request_stop, resume, status_address};
use noontide_emu::cpu::{batch_size, CpuPhase, CpuWorker};
use noontide_emu::mem::{read_word, write_word, MEM_SIZE};
use noontide_emu::msg::UIMessage;
use noontide_emu::subleq::Fault;

fn image(words: &[(usize, u64)]) -> Vec<u8> {
    let mut mem = vec![0u8; MEM_SIZE];
    for (offset, word) in words {
        write_word(&mut mem, *offset, *word);
    }
    mem
}

// An endless loop at offset 0 that counts the word at 64 down by the word at
// 72 (which is -1, so it counts up) and always falls through to itself.
fn counting_loop() -> Vec<u8> {
    image(&[(0, 64), (8, 72), (16, 0), (24, 80), (32, 80), (40, 0), (72, u64::MAX)])
}

#[test]
fn batch_size_is_clamped_while_profiling() {
    assert_eq!(batch_size(4096, false), 4096);
    assert_eq!(batch_size(4096, true), 100);
    assert_eq!(batch_size(40, true), 40);
    assert_eq!(batch_size(100, true), 100);
    assert_eq!(batch_size(101, true), 100);
    assert_eq!(batch_size(0, true), 0);
}

#[test]
fn start_marks_the_cpu_as_running() {
    let mut mem = image(&[]);
    let worker = CpuWorker::start(&mut mem, 2, 40, false);
    assert_eq!(read_status(&mem, 2), 1);
    assert_eq!(read_status(&mem, 0), 0);
    assert_eq!(worker.cpu_id, 2);
    assert_eq!(worker.eip, 0);
    assert_eq!(worker.phase, CpuPhase::CycleStart);
    assert!(!worker.halted);
    assert!(worker.polls_termination());
    assert!(!worker.has_exited());
}

#[test]
fn running_worker_executes_a_batch_per_cycle() {
    let mut mem = counting_loop();
    let mut worker = CpuWorker::start(&mut mem, 0, 4, false);
    let out = worker.advance(&mut mem, false);
    // Four instructions: two passes through the two instructions of the loop.
    assert_eq!(out.messages, vec![UIMessage::SetEIP(0)]);
    assert_eq!(out.fault, None);
    assert_eq!(read_word(&mem, 64), 2);
    assert_eq!(read_saved_eip(&mem, 0), 0);
    assert_eq!(worker.phase, CpuPhase::CycleEnd);
    assert!(!worker.polls_termination());
    let out = worker.advance(&mut mem, false);
    assert!(out.messages.is_empty());
    assert_eq!(worker.phase, CpuPhase::CycleStart);
    assert_eq!(read_word(&mem, 64), 2);

    let mut odd = CpuWorker::start(&mut mem, 0, 3, false);
    let out = odd.advance(&mut mem, false);
    assert_eq!(out.messages, vec![UIMessage::SetEIP(24)]);
    assert_eq!(odd.eip, 24);
    assert_eq!(read_saved_eip(&mem, 0), 24);
    assert_eq!(read_word(&mem, 64), 4);
}

#[test]
fn halt_instruction_publishes_the_eip_and_halts() {
    let mut mem = image(&[(0, 32), (8, 32), (16, MEM_SIZE as u64)]);
    let mut worker = CpuWorker::start(&mut mem, 0, 40, false);
    let out = worker.advance(&mut mem, false);
    assert_eq!(out.messages, vec![UIMessage::SetEIP(MEM_SIZE as u64)]);
    assert_eq!(out.fault, Some(Fault::Eip));
    assert!(worker.halted);
    assert_eq!(worker.eip, MEM_SIZE as u64);
    assert_eq!(worker.phase, CpuPhase::CycleEnd);
    // The saved EIP is written at the end of a batch that was not cut short.
    assert_eq!(read_saved_eip(&mem, 0), 0);

    // A halted CPU keeps the cadence and does nothing more.
    let before = mem.clone();
    for _ in 0..3 {
        let out = worker.advance(&mut mem, false);
        assert!(out.messages.is_empty());
        assert_eq!(out.fault, None);
        assert_eq!(worker.phase, CpuPhase::CycleStart);
        let out = worker.advance(&mut mem, false);
        assert!(out.messages.is_empty());
        assert_eq!(worker.phase, CpuPhase::CycleEnd);
        assert!(worker.halted);
        assert_eq!(worker.eip, MEM_SIZE as u64);
    }
    assert!(mem == before);
    // It still leaves on termination.
    worker.advance(&mut mem, false);
    worker.advance(&mut mem, true);
    assert_eq!(worker.phase, CpuPhase::ExitEnd);
    worker.advance(&mut mem, false);
    assert!(worker.has_exited());
}

#[test]
fn counter_halts_after_two_instructions() {
    let mut mem = image(&[
        (0, 48),
        (8, 56),
        (16, 24),
        (24, 48),
        (32, 48),
        (40, u64::MAX),
        (48, 5),
        (56, 1),
    ]);
    let mut worker = CpuWorker::start(&mut mem, 0, 1024, true);
    let out = worker.advance(&mut mem, false);
    assert_eq!(
        out.messages,
        vec![
            UIMessage::Debug(0, "0x0 0x30(0x5) 0x38(0x1) 0x18\r\n".to_string()),
            UIMessage::Debug(24, "0x18 0x30(0x4) 0x30(0x4) 0xFFFFFFFFFFFFFFFF\r\n".to_string()),
            UIMessage::SetEIP(u64::MAX),
        ]
    );
    assert_eq!(out.fault, Some(Fault::Eip));
    assert!(worker.halted);
    assert_eq!(read_word(&mem, 48), 0);
}

#[test]
fn batch_that_ends_outside_halts_at_the_start_of_the_next() {
    let mut mem = image(&[(0, 32), (8, 32), (16, MEM_SIZE as u64 - 16)]);
    let mut worker = CpuWorker::start(&mut mem, 0, 1, false);
    let out = worker.advance(&mut mem, false);
    assert_eq!(out.messages, vec![UIMessage::SetEIP(MEM_SIZE as u64 - 16)]);
    assert_eq!(out.fault, None);
    assert!(!worker.halted);
    assert_eq!(read_saved_eip(&mem, 0), MEM_SIZE as u64 - 16);
    worker.advance(&mut mem, false);
    let before = mem.clone();
    let out = worker.advance(&mut mem, false);
    assert_eq!(out.messages, vec![UIMessage::SetEIP(MEM_SIZE as u64 - 16)]);
    assert_eq!(out.fault, Some(Fault::Eip));
    assert!(worker.halted);
    assert!(mem == before);
}

#[test]
fn operand_outside_the_image_halts_the_cpu() {
    let mut mem = image(&[(0, MEM_SIZE as u64), (8, 32), (16, 0)]);
    let mut worker = CpuWorker::start(&mut mem, 0, 8, false);
    let out = worker.advance(&mut mem, false);
    assert_eq!(out.messages, vec![UIMessage::SetEIP(0)]);
    assert_eq!(out.fault, Some(Fault::Operand));
    assert!(worker.halted);
}

#[test]
fn pause_and_resume() {
    let mut mem = counting_loop();
    let mut worker = CpuWorker::start(&mut mem, 0, 2, false);
    worker.advance(&mut mem, false);
    worker.advance(&mut mem, false);
    assert_eq!(read_word(&mem, 64), 1);

    // The user interface asks for a stop between two cycles.
    assert!(request_stop(&mut mem, 0));
    let out = worker.advance(&mut mem, false);
    assert_eq!(out.messages, vec![UIMessage::CPUStopped(0)]);
    assert_eq!(read_status(&mem, 0), 4);
    assert_eq!(worker.phase, CpuPhase::ParkEnd);
    assert_eq!(read_word(&mem, 64), 1);

    // While parked the worker keeps the rendezvous and executes nothing.
    for _ in 0..3 {
        let out = worker.advance(&mut mem, false);
        assert!(out.messages.is_empty());
        assert_eq!(worker.phase, CpuPhase::ParkStart);
        assert!(worker.polls_termination());
        let out = worker.advance(&mut mem, false);
        assert!(out.messages.is_empty());
        assert_eq!(worker.phase, CpuPhase::ParkEnd);
    }
    assert_eq!(read_word(&mem, 64), 1);

    // The user interface resumes the CPU at the second instruction.
    assert!(resume(&mut mem, 0, 24));
    let out = worker.advance(&mut mem, false);
    assert_eq!(out.messages, vec![UIMessage::CPUStarted(0)]);
    assert_eq!(worker.eip, 24);
    assert_eq!(worker.phase, CpuPhase::ResumeStart);
    assert!(!worker.polls_termination());
    let out = worker.advance(&mut mem, false);
    // From 24: the second instruction of the loop, then the first.
    assert_eq!(out.messages, vec![UIMessage::SetEIP(24)]);
    assert_eq!(read_word(&mem, 64), 2);
    assert_eq!(worker.phase, CpuPhase::CycleEnd);
}

#[test]
fn status_other_than_running_parks_without_a_message() {
    let mut mem = counting_loop();
    let mut worker = CpuWorker::start(&mut mem, 0, 2, false);
    write_word(&mut mem, status_address(0), 0);
    let out = worker.advance(&mut mem, false);
    assert!(out.messages.is_empty());
    assert_eq!(read_status(&mem, 0), 0);
    assert_eq!(worker.phase, CpuPhase::ParkEnd);
    assert_eq!(read_word(&mem, 64), 0);
}

#[test]
fn guest_can_stop_its_own_cpu() {
    // The program subtracts -1 from its own status word: running becomes
    // stop requested, and the worker answers at the start of the next cycle.
    let status = status_address(0) as u64;
    let mut mem = image(&[(0, status), (8, 64), (16, 24), (24, 72), (32, 72), (40, 0), (64, u64::MAX)]);
    let mut worker = CpuWorker::start(&mut mem, 0, 1, false);
    worker.advance(&mut mem, false);
    assert_eq!(read_status(&mem, 0), 2);
    worker.advance(&mut mem, false);
    let out = worker.advance(&mut mem, false);
    assert_eq!(out.messages, vec![UIMessage::CPUStopped(0)]);
    assert_eq!(read_status(&mem, 0), 4);
}

#[test]
fn termination_is_followed_by_one_more_rendezvous() {
    let mut mem = counting_loop();
    let mut worker = CpuWorker::start(&mut mem, 0, 2, false);
    let before = mem.clone();
    let out = worker.advance(&mut mem, true);
    assert!(out.messages.is_empty());
    assert_eq!(worker.phase, CpuPhase::ExitEnd);
    assert!(!worker.has_exited());
    let out = worker.advance(&mut mem, false);
    assert!(out.messages.is_empty());
    assert!(worker.has_exited());
    assert!(mem == before);
    worker.advance(&mut mem, false);
    assert!(worker.has_exited());

    // Termination is ignored at the end of a cycle and seen at the next start.
    let mut worker = CpuWorker::start(&mut mem, 0, 2, false);
    worker.advance(&mut mem, false);
    worker.advance(&mut mem, true);
    assert_eq!(worker.phase, CpuPhase::CycleStart);
    worker.advance(&mut mem, true);
    assert_eq!(worker.phase, CpuPhase::ExitEnd);

    // A parked worker leaves as well.
    let mut worker = CpuWorker::start(&mut mem, 0, 2, false);
    request_stop(&mut mem, 0);
    worker.advance(&mut mem, false);
    worker.advance(&mut mem, true);
    assert_eq!(worker.phase, CpuPhase::ParkStart);
    worker.advance(&mut mem, true);
    assert_eq!(worker.phase, CpuPhase::ExitEnd);
    worker.advance(&mut mem, false);
    assert!(worker.has_exited());
}
