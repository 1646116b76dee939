use upt::watch::{TermCmd, WatchMachine};

#[test]
fn watch_cycle_redraws_until_interrupted() {
    let mut m = WatchMachine::new();
    assert!(m.is_running());
    let cmds = m.cycle(String::from("1 second"), 8, false);
    assert!(m.is_running());
    assert_eq!(cmds.len(), 3);
    assert!(matches!(&cmds[0], TermCmd::Draw(s) if s == "1 second"));
    assert!(matches!(cmds[1], TermCmd::Flush));
    assert!(matches!(cmds[2], TermCmd::Clear(8)));
}

#[test]
fn watch_interrupt_terminates_with_cursor_restored_once() {
    let mut m = WatchMachine::new();
    let _ = m.cycle(String::from("1 second"), 8, false);
    let cmds = m.cycle(String::from("2 seconds"), 9, true);
    // the loop exits; the cursor returns exactly once, then the newline
    assert!(!m.is_running());
    assert_eq!(cmds.len(), 4);
    assert!(matches!(&cmds[0], TermCmd::Draw(s) if s == "2 seconds"));
    assert!(matches!(cmds[1], TermCmd::Flush));
    assert!(matches!(cmds[2], TermCmd::ShowCursor));
    assert!(matches!(cmds[3], TermCmd::Newline));
    let shows = cmds
        .iter()
        .filter(|c| matches!(c, TermCmd::ShowCursor))
        .count();
    assert_eq!(shows, 1);
    // no further redraw after termination: the machine refuses more cycles
    assert!(!m.is_running());
}
