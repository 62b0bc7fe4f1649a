use noontide_emu::console::Session;
use noontide_emu::cpu::CpuWorker;
use noontide_emu::mem::{read_word, write_word, MEM_SIZE};
use noontide_emu::motherboard::{BoardAction, Motherboard, Party};
use noontide_emu::msg::UIMessage;
use noontide_emu::serial::{SerialWorker, SERIAL_IN};

// The three workers taken in turn as the barriers would let them run: a
// meeting of the motherboard with a worker is one step of that worker.
struct Machine {
    mem: Vec<u8>,
    board: Motherboard,
    serial: SerialWorker,
    cpu: CpuWorker,
    shutdown_requested: bool,
    acknowledged: bool,
    termination_sent: bool,
    messages: Vec<UIMessage>,
    meetings: usize,
}

impl Machine {
    fn new(mut mem: Vec<u8>, batch: usize) -> Machine {
        let serial = SerialWorker::start(&mut mem);
        let cpu = CpuWorker::start(&mut mem, 0, batch, false);
        Machine {
            mem,
            board: Motherboard::new(),
            serial,
            cpu,
            shutdown_requested: false,
            acknowledged: false,
            termination_sent: false,
            messages: Vec::new(),
            meetings: 0,
        }
    }

    // One action of the motherboard. Returns false once it has returned.
    fn step(&mut self, keys: &[u8]) -> bool {
        let mut found = false;
        match self.board.action() {
            BoardAction::Meet(Party::Serial) => {
                assert!(!self.serial.has_exited());
                let terminate = self.serial.polls_termination() && self.termination_sent;
                let out = self.serial.advance(&mut self.mem, terminate, keys);
                self.messages.extend(out.message);
                self.meetings += 1;
            }
            BoardAction::Meet(Party::Cpu) => {
                assert!(!self.cpu.has_exited());
                let terminate = self.cpu.polls_termination() && self.termination_sent;
                let out = self.cpu.advance(&mut self.mem, terminate);
                self.messages.extend(out.messages);
                self.meetings += 1;
            }
            BoardAction::Sleep(_) => {}
            BoardAction::PollShutdown => {
                found = self.shutdown_requested;
            }
            BoardAction::Acknowledge => {
                self.acknowledged = true;
            }
            BoardAction::AwaitResume => {
                // The user interface broadcasts the termination only after
                // the acknowledgement.
                assert!(self.acknowledged);
                self.termination_sent = true;
            }
            BoardAction::Exit => return false,
        }
        self.board.advance(found);
        true
    }
}

fn endless_loop() -> Vec<u8> {
    let mut mem = vec![0u8; MEM_SIZE];
    for (offset, word) in [(0usize, 64u64), (8, 72), (16, 0), (24, 80), (32, 80), (40, 0), (72, u64::MAX)] {
        write_word(&mut mem, offset, word);
    }
    mem
}

#[test]
fn shutdown_under_a_running_cpu() {
    let mut machine = Machine::new(endless_loop(), 16);
    for _ in 0..60 {
        assert!(machine.step(b""));
    }
    let executed = read_word(&machine.mem, 64);
    assert_eq!(executed, 80);
    machine.shutdown_requested = true;
    let meetings = machine.meetings;
    let mut steps = 0;
    while machine.step(b"") {
        steps += 1;
        assert!(steps < 20);
    }
    assert!(machine.serial.has_exited());
    assert!(machine.cpu.has_exited());
    // Whatever was left of the current cycle, and one last cycle.
    assert!(machine.meetings - meetings <= 8);
    assert!(machine.meetings - meetings >= 4);
    assert!(machine.messages.iter().all(|message| matches!(message, UIMessage::SetEIP(0))));
}

#[test]
fn shutdown_leaves_no_half_written_byte() {
    let mut machine = Machine::new(endless_loop(), 4);
    assert!(machine.step(b"abc"));
    assert_eq!(read_word(&machine.mem, SERIAL_IN), b'a' as u64 + 1);
    machine.shutdown_requested = true;
    while machine.step(b"") {}
    assert!(machine.serial.has_exited());
    assert_eq!(read_word(&machine.mem, SERIAL_IN), b'a' as u64 + 1);
    assert_eq!(machine.serial.pending.len(), 2);
}

#[test]
fn session_follows_the_machine() {
    // The guest stops its own CPU with its first instruction.
    let status = noontide_emu::control::status_address(0) as u64;
    let mut mem = endless_loop();
    for (offset, word) in [(0usize, status), (8, 72), (16, 24), (40, 24)] {
        write_word(&mut mem, offset, word);
    }
    let mut machine = Machine::new(mem, 100);
    let mut session = Session::new(true);
    let mut over = false;
    let mut taken = 0;
    for _ in 0..24 {
        machine.step(b"");
        for message in &machine.messages[taken..] {
            over = session.on_message(message) || over;
        }
        taken = machine.messages.len();
    }
    assert!(over);
    assert_eq!(session.cpus_running, 0);
    assert_eq!(machine.messages.last(), Some(&UIMessage::CPUStopped(0)));
    assert_eq!(session.profile.unwrap().hits.len(), 1);
}
