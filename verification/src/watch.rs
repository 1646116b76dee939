use vstd::prelude::*;

verus! {

/// The two states of the live-refresh loop: it redraws until an interrupt
/// arrives, then terminates for good.
#[derive(Clone, Copy, PartialEq, Eq, Structural, Debug)]
pub enum WatchState {
    Running,
    Terminated,
}

/// One terminal action the loop asks its driver to perform, in order.
#[derive(Debug)]
pub enum TermCmd {
    /// Write the rendered duration, without a trailing newline.
    Draw(String),
    /// Flush, so the freshest value is visible before the wait.
    Flush,
    /// Erase the previously drawn line of the given length.
    Clear(usize),
    /// Restore cursor visibility.
    ShowCursor,
    /// Leave the live line so the next prompt starts cleanly.
    Newline,
}

/// The shape of a command, with its payload forgotten; the trace laws
/// speak over these.
#[derive(Clone, Copy, PartialEq, Eq, Structural, Debug)]
pub enum CmdKind {
    Draw,
    Flush,
    Clear,
    Show,
    Newline,
}

pub open spec fn kind_of(c: TermCmd) -> CmdKind {
    match c {
        TermCmd::Draw(_) => CmdKind::Draw,
        TermCmd::Flush => CmdKind::Flush,
        TermCmd::Clear(_) => CmdKind::Clear,
        TermCmd::ShowCursor => CmdKind::Show,
        TermCmd::Newline => CmdKind::Newline,
    }
}

/// The commands of one cycle: show the new value, flush, then either shut
/// down on an interrupt or erase the old line and go round again.
pub open spec fn spec_cycle_kinds(interrupted: bool) -> Seq<CmdKind> {
    if interrupted {
        seq![CmdKind::Draw, CmdKind::Flush, CmdKind::Show, CmdKind::Newline]
    } else {
        seq![CmdKind::Draw, CmdKind::Flush, CmdKind::Clear]
    }
}

/// The whole loop at the specification level: the trace of command kinds
/// produced by a sequence of wait outcomes (`true` = interrupt received).
pub open spec fn spec_run(st: WatchState, events: Seq<bool>) -> (WatchState, Seq<CmdKind>)
    decreases events.len(),
{
    if events.len() == 0 || st is Terminated {
        (st, Seq::empty())
    } else {
        let st1 = if events[0] {
            WatchState::Terminated
        } else {
            WatchState::Running
        };
        let rest = spec_run(st1, events.skip(1));
        (rest.0, spec_cycle_kinds(events[0]) + rest.1)
    }
}

pub open spec fn count_kind(tr: Seq<CmdKind>, k: CmdKind) -> int
    decreases tr.len(),
{
    if tr.len() == 0 {
        0
    } else {
        (if tr[0] == k { 1int } else { 0int }) + count_kind(tr.skip(1), k)
    }
}

proof fn lemma_count_concat(a: Seq<CmdKind>, b: Seq<CmdKind>, k: CmdKind)
    ensures
        count_kind(a + b, k) == count_kind(a, k) + count_kind(b, k),
    decreases a.len(),
{
    if a.len() == 0 {
        assert(a + b =~= b);
    } else {
        assert((a + b)[0] == a[0]);
        assert((a + b).skip(1) =~= a.skip(1) + b);
        lemma_count_concat(a.skip(1), b, k);
    }
}

proof fn lemma_count_cycle(interrupted: bool)
    ensures
        count_kind(spec_cycle_kinds(interrupted), CmdKind::Show) == if interrupted {
            1int
        } else {
            0int
        },
{
    reveal_with_fuel(count_kind, 6);
    let c = spec_cycle_kinds(interrupted);
    if interrupted {
        assert(c.skip(1) =~= seq![CmdKind::Flush, CmdKind::Show, CmdKind::Newline]);
        assert(c.skip(1).skip(1) =~= seq![CmdKind::Show, CmdKind::Newline]);
        assert(c.skip(1).skip(1).skip(1) =~= seq![CmdKind::Newline]);
        assert(c.skip(1).skip(1).skip(1).skip(1) =~= Seq::<CmdKind>::empty());
    } else {
        assert(c.skip(1) =~= seq![CmdKind::Flush, CmdKind::Clear]);
        assert(c.skip(1).skip(1) =~= seq![CmdKind::Clear]);
        assert(c.skip(1).skip(1).skip(1) =~= Seq::<CmdKind>::empty());
    }
}

/// Termination law: once an interrupt arrives during some wait, the loop
/// terminates; the cursor is shown exactly once, a trailing newline is the
/// very last action, and nothing is redrawn after the cursor returns.
pub proof fn lemma_watch_termination(events: Seq<bool>)
    requires
        exists|i: int| 0 <= i < events.len() && events[i],
    ensures
        spec_run(WatchState::Running, events).0 is Terminated,
        count_kind(spec_run(WatchState::Running, events).1, CmdKind::Show) == 1,
        spec_run(WatchState::Running, events).1.len() >= 2,
        spec_run(WatchState::Running, events).1[spec_run(
            WatchState::Running,
            events,
        ).1.len() - 2] == CmdKind::Show,
        spec_run(WatchState::Running, events).1.last() == CmdKind::Newline,
    decreases events.len(),
{
    let c = spec_cycle_kinds(events[0]);
    lemma_count_cycle(events[0]);
    if events[0] {
        let rest = spec_run(WatchState::Terminated, events.skip(1));
        assert(rest.1 == Seq::<CmdKind>::empty());
        assert(c + rest.1 =~= c);
        lemma_count_concat(c, rest.1, CmdKind::Show);
    } else {
        let i = choose|i: int| 0 <= i < events.len() && events[i];
        assert(events.skip(1)[i - 1]);
        lemma_watch_termination(events.skip(1));
        let rest = spec_run(WatchState::Running, events.skip(1));
        lemma_count_concat(c, rest.1, CmdKind::Show);
        assert((c + rest.1)[c.len() + rest.1.len() - 2] == rest.1[rest.1.len() - 2]);
        assert((c + rest.1).last() == rest.1.last());
    }
}

/// The live-refresh loop's decision core. The driver renders a value,
/// waits for an interrupt, and hands both in; the machine answers with the
/// terminal actions to perform, in order.
pub struct WatchMachine {
    pub state: WatchState,
}

impl WatchMachine {
    pub fn new() -> (r: WatchMachine)
        ensures
            r.state is Running,
    {
        WatchMachine { state: WatchState::Running }
    }

    pub fn is_running(&self) -> (r: bool)
        ensures
            r == (self.state is Running),
    {
        match self.state {
            WatchState::Running => true,
            WatchState::Terminated => false,
        }
    }

    /// Before the wait: draw the fresh value and flush, so the display
    /// reflects the newest value through the whole wait.
    pub fn draw_phase(&self, rendered: String) -> (cmds: Vec<TermCmd>)
        requires
            self.state is Running,
        ensures
            cmds@ == seq![TermCmd::Draw(rendered), TermCmd::Flush],
    {
        let mut cmds: Vec<TermCmd> = Vec::new();
        cmds.push(TermCmd::Draw(rendered));
        cmds.push(TermCmd::Flush);
        proof {
            assert(cmds@ =~= seq![TermCmd::Draw(rendered), TermCmd::Flush]);
        }
        cmds
    }

    /// After the wait: on an interrupt restore the cursor, emit the final
    /// newline and terminate; otherwise erase the old line and stay
    /// running.
    pub fn wait_phase(&mut self, line_len: usize, interrupted: bool) -> (cmds: Vec<TermCmd>)
        requires
            old(self).state is Running,
        ensures
            final(self).state == (if interrupted {
                WatchState::Terminated
            } else {
                WatchState::Running
            }),
            interrupted ==> cmds@ == seq![TermCmd::ShowCursor, TermCmd::Newline],
            !interrupted ==> cmds@ == seq![TermCmd::Clear(line_len)],
    {
        let mut cmds: Vec<TermCmd> = Vec::new();
        if interrupted {
            cmds.push(TermCmd::ShowCursor);
            cmds.push(TermCmd::Newline);
            self.state = WatchState::Terminated;
            proof {
                assert(cmds@ =~= seq![TermCmd::ShowCursor, TermCmd::Newline]);
            }
        } else {
            cmds.push(TermCmd::Clear(line_len));
            self.state = WatchState::Running;
            proof {
                assert(cmds@ =~= seq![TermCmd::Clear(line_len)]);
            }
        }
        cmds
    }

    /// One whole cycle, both phases in order; its trace follows
    /// `spec_cycle_kinds`.
    pub fn cycle(&mut self, rendered: String, line_len: usize, interrupted: bool) -> (cmds: Vec<
        TermCmd,
    >)
        requires
            old(self).state is Running,
        ensures
            final(self).state == (if interrupted {
                WatchState::Terminated
            } else {
                WatchState::Running
            }),
            interrupted ==> cmds@ == seq![
                TermCmd::Draw(rendered),
                TermCmd::Flush,
                TermCmd::ShowCursor,
                TermCmd::Newline,
            ],
            !interrupted ==> cmds@ == seq![
                TermCmd::Draw(rendered),
                TermCmd::Flush,
                TermCmd::Clear(line_len),
            ],
            cmds@.map_values(|c: TermCmd| kind_of(c)) == spec_cycle_kinds(interrupted),
    {
        let mut cmds: Vec<TermCmd> = Vec::new();
        cmds.push(TermCmd::Draw(rendered));
        cmds.push(TermCmd::Flush);
        if interrupted {
            cmds.push(TermCmd::ShowCursor);
            cmds.push(TermCmd::Newline);
            self.state = WatchState::Terminated;
            proof {
                assert(cmds@ =~= seq![
                    TermCmd::Draw(rendered),
                    TermCmd::Flush,
                    TermCmd::ShowCursor,
                    TermCmd::Newline,
                ]);
                assert(cmds@.map_values(|c: TermCmd| kind_of(c)) =~= spec_cycle_kinds(true));
            }
        } else {
            cmds.push(TermCmd::Clear(line_len));
            self.state = WatchState::Running;
            proof {
                assert(cmds@ =~= seq![
                    TermCmd::Draw(rendered),
                    TermCmd::Flush,
                    TermCmd::Clear(line_len),
                ]);
                assert(cmds@.map_values(|c: TermCmd| kind_of(c)) =~= spec_cycle_kinds(false));
            }
        }
        cmds
    }
}

} // verus!
