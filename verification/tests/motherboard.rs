use noontide_emu::motherboard::{BoardAction, BoardPhase, Motherboard, Party, PAUSE_MICROS};

fn actions(board: &mut Motherboard, polls: &[bool]) -> Vec<BoardAction> {
    let mut done = Vec::new();
    for poll in polls {
        done.push(board.action());
        board.advance(*poll);
    }
    done
}

#[test]
fn cycle_meets_serial_then_cpu_then_pauses_and_polls() {
    let mut board = Motherboard::new();
    assert_eq!(board.phase, BoardPhase::IoStart);
    let cycle = vec![
        BoardAction::Meet(Party::Serial),
        BoardAction::Meet(Party::Serial),
        BoardAction::Meet(Party::Cpu),
        BoardAction::Meet(Party::Cpu),
        BoardAction::Sleep(20),
        BoardAction::PollShutdown,
    ];
    assert_eq!(PAUSE_MICROS, 20);
    for _ in 0..3 {
        assert_eq!(actions(&mut board, &[false; 6]), cycle);
        assert_eq!(board.phase, BoardPhase::IoStart);
    }
}

#[test]
fn shutdown_request_is_seen_at_the_poll_only() {
    let mut board = Motherboard::new();
    actions(&mut board, &[true, true, true, true, true]);
    assert_eq!(board.phase, BoardPhase::Poll);
    assert_eq!(board.action(), BoardAction::PollShutdown);
    board.advance(false);
    assert_eq!(board.phase, BoardPhase::IoStart);
}

#[test]
fn shutdown_goes_through_one_last_cycle() {
    let mut board = Motherboard::new();
    actions(&mut board, &[false; 5]);
    board.advance(true);
    assert_eq!(board.phase, BoardPhase::Acknowledge);
    let rest = actions(&mut board, &[false; 6]);
    assert_eq!(
        rest,
        vec![
            BoardAction::Acknowledge,
            BoardAction::AwaitResume,
            BoardAction::Meet(Party::Serial),
            BoardAction::Meet(Party::Serial),
            BoardAction::Meet(Party::Cpu),
            BoardAction::Meet(Party::Cpu),
        ]
    );
    assert_eq!(board.phase, BoardPhase::Exited);
    assert_eq!(board.action(), BoardAction::Exit);
    board.advance(true);
    assert_eq!(board.phase, BoardPhase::Exited);
}

#[test]
fn serial_work_comes_before_cpu_work_in_every_cycle() {
    let mut board = Motherboard::new();
    let mut trace: Vec<BoardAction> = Vec::new();
    for step in 0..40 {
        let action = board.action();
        board.advance(step == 23);
        trace.push(action);
    }
    let meetings: Vec<Party> = trace
        .iter()
        .filter_map(|action| match action {
            BoardAction::Meet(party) => Some(*party),
            _ => None,
        })
        .collect();
    assert_eq!(meetings.len(), 20);
    for cycle in meetings.chunks(4) {
        assert_eq!(cycle, [Party::Serial, Party::Serial, Party::Cpu, Party::Cpu]);
    }
    assert_eq!(board.phase, BoardPhase::Exited);
}
