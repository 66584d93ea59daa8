//! The terminals of a server: which there are, and what is done for each request
//! about one.
use crate::command_line::RunCommand;
use crate::conpty::is_benign_resize_after_exit_hresult;
use crate::spawn::{CleanupCall, SpawnedProcess};
use std::collections::BTreeMap;
use vstd::prelude::*;

verus! {

broadcast use {vstd::laws_cmp::group_laws_cmp, vstd::std_specs::btree::group_btree_axioms};

/// What is open of a terminal that runs.
pub struct ConPtyTerminal {
    pub hpcon: isize,
    pub input_write_handle: isize,
    pub job_handle: isize,
    pub child_pid: u32,
}

impl ConPtyTerminal {
    /// What closes the pseudo console, unless that is closed already.
    pub open spec fn closing(self) -> Seq<CleanupCall> {
        if self.hpcon != 0 {
            seq![CleanupCall::ClosePseudoConsole(self.hpcon)]
        } else {
            Seq::empty()
        }
    }

    /// What closes all that is open: the pseudo console first, which may still
    /// write something.
    pub open spec fn releasing(self) -> Seq<CleanupCall> {
        self.closing() + seq![
            CleanupCall::CloseHandle(self.input_write_handle),
            CleanupCall::CloseHandle(self.job_handle),
        ]
    }

    /// The terminal with its pseudo console closed.
    pub open spec fn without_console(self) -> Self {
        ConPtyTerminal { hpcon: 0, ..self }
    }

    /// Says what closes the pseudo console, unless that is closed already.
    pub fn close_pseudoconsole(&mut self) -> (cleanup: Vec<CleanupCall>)
        ensures
            cleanup@ == old(self).closing(),
            *final(self) == old(self).without_console(),
    {
        let hpcon: isize = self.hpcon;
        self.hpcon = 0;
        if hpcon != 0 {
            vec![CleanupCall::ClosePseudoConsole(hpcon)]
        } else {
            Vec::new()
        }
    }

    /// Says what closes all that is open.
    pub fn release(self) -> (cleanup: Vec<CleanupCall>)
        ensures
            cleanup@ == self.releasing(),
    {
        let mut cleanup: Vec<CleanupCall> = Vec::new();
        self.push_release(&mut cleanup);
        assert(cleanup@ =~= self.releasing());
        cleanup
    }

    /// Appends what closes all that is open.
    fn push_release(&self, cleanup: &mut Vec<CleanupCall>)
        ensures
            final(cleanup)@ == old(cleanup)@ + self.releasing(),
    {
        if self.hpcon != 0 {
            cleanup.push(CleanupCall::ClosePseudoConsole(self.hpcon));
        }
        cleanup.push(CleanupCall::CloseHandle(self.input_write_handle));
        cleanup.push(CleanupCall::CloseHandle(self.job_handle));
        assert(cleanup@ =~= old(cleanup)@ + self.releasing());
    }
}

/// A pseudo console is closed once: closing it leaves nothing of it to release.
pub proof fn law_console_is_closed_once(terminal: ConPtyTerminal)
    ensures
        terminal.without_console().closing() == Seq::<CleanupCall>::empty(),
        terminal.closing() + terminal.without_console().releasing() == terminal.releasing(),
{
    assert(terminal.closing() + terminal.without_console().releasing() =~= terminal.releasing());
}

/// There is no command to run in a terminal.
pub struct CommandNotFound {
    pub terminal_id: u32,
    pub command: String,
}

/// There is no running terminal with this number.
#[derive(Debug, Clone, Copy, PartialEq, Eq, Structural)]
pub struct TerminalNotFound {
    pub terminal_id: u32,
}

/// What a change of a terminal's size comes to.
#[derive(Debug, Clone, Copy, PartialEq, Eq, Structural)]
pub enum SizeChange {
    NoTerminal(TerminalNotFound),
    /// A size without columns or rows is left out.
    Nothing,
    Resize { hpcon: isize, cols: i16, rows: i16 },
}

/// What became of a change of a terminal's size.
#[derive(Debug, Clone, Copy, PartialEq, Eq, Structural)]
pub enum SizeReport {
    Done,
    /// The process is gone, so it did not matter.
    AfterExit,
    Failed,
}

/// Where bytes for a terminal are written to, and how many.
#[derive(Debug, Clone, Copy, PartialEq, Eq, Structural)]
pub struct StdinWrite {
    pub handle: isize,
    pub len: u32,
}

/// How a process is ended.
#[derive(Debug, Clone, Copy, PartialEq, Eq, Structural)]
pub enum KillAction {
    /// With its whole job.
    TerminateJob(isize),
    TerminateProcess(u32),
}

/// How a process is interrupted.
#[derive(Debug, PartialEq, Eq)]
pub enum SigintAction {
    WriteStdin { handle: isize, payload: Vec<u8> },
    GenerateCtrlC(u32),
}

/// How a process is interrupted, as a value.
pub enum SigintValue {
    WriteStdin { handle: isize, payload: Seq<u8> },
    GenerateCtrlC(u32),
}

impl View for SigintAction {
    type V = SigintValue;

    open spec fn view(&self) -> SigintValue {
        match self {
            SigintAction::WriteStdin { handle, payload } => SigintValue::WriteStdin {
                handle: *handle,
                payload: payload@,
            },
            SigintAction::GenerateCtrlC(pid) => SigintValue::GenerateCtrlC(*pid),
        }
    }
}

/// The byte that Ctrl-C sends.
pub open spec fn ctrl_c_stdin() -> Seq<u8> {
    seq![0x03u8]
}

/// What interrupts the process `requested_pid` when it is written to the terminal
/// of the process `child_pid`: nothing, unless it is the same.
pub fn sigint_payload_for_child_pid(child_pid: u32, requested_pid: u32) -> (payload: Option<Vec<u8>>)
    ensures
        match payload {
            Some(payload) => child_pid == requested_pid && payload@ == ctrl_c_stdin(),
            None => child_pid != requested_pid,
        },
{
    if child_pid == requested_pid {
        Some(vec![0x03])
    } else {
        None
    }
}

/// The terminals of a server: the reserved and the running ones by their number,
/// and the number that is given out next.
pub struct Terminals {
    pub terminals: Map<u32, Option<ConPtyTerminal>>,
    pub next_id: u32,
}

impl Terminals {
    /// Whether the terminal `id` runs.
    pub open spec fn is_running(self, id: u32) -> bool {
        self.terminals.contains_key(id) && self.terminals[id] is Some
    }

    /// The terminal `id`, which runs.
    pub open spec fn running(self, id: u32) -> ConPtyTerminal {
        self.terminals[id]->0
    }

    /// Whether the process `pid` runs in the terminal `id`.
    pub open spec fn runs_in(self, id: u32, pid: u32) -> bool {
        self.is_running(id) && self.running(id).child_pid == pid
    }

    /// Whether `id` is the terminal that stands for the process `pid`: the one
    /// with the smallest number that it runs in.
    pub open spec fn stands_for(self, id: u32, pid: u32) -> bool {
        self.runs_in(id, pid) && forall|other: u32|
            #[trigger] self.runs_in(other, pid) ==> id <= other
    }

    /// Whether `action` ends the process `pid`: with its job where it runs in a
    /// terminal.
    pub open spec fn kills(self, pid: u32, action: KillAction) -> bool {
        match action {
            KillAction::TerminateJob(job) => exists|id: u32| #[trigger]
                self.stands_for(id, pid) && job == self.running(id).job_handle,
            KillAction::TerminateProcess(process) => process == pid && forall|id: u32|
                !#[trigger] self.runs_in(id, pid),
        }
    }

    /// Whether `action` interrupts the process `pid`: through its terminal where
    /// it runs in one.
    pub open spec fn interrupts(self, pid: u32, action: SigintValue) -> bool {
        match action {
            SigintValue::WriteStdin { handle, payload } => payload == ctrl_c_stdin() && exists|
                id: u32,
            | #[trigger]
                self.stands_for(id, pid) && handle == self.running(id).input_write_handle,
            SigintValue::GenerateCtrlC(process) => process == pid && forall|id: u32|
                !#[trigger] self.runs_in(id, pid),
        }
    }

    /// The terminals with `terminal` under the number `id`.
    pub open spec fn with(self, id: u32, terminal: Option<ConPtyTerminal>) -> Self {
        Terminals { terminals: self.terminals.insert(id, terminal), ..self }
    }

    /// What closes all that is open of the terminals `ids`, one after the other.
    pub open spec fn releasing_all(self, ids: Seq<u32>) -> Seq<CleanupCall>
        decreases ids.len(),
    {
        if ids.len() == 0 {
            Seq::empty()
        } else {
            self.releasing_all(ids.drop_last()) + match self.open(ids.last()) {
                Some(terminal) => terminal.releasing(),
                None => Seq::empty(),
            }
        }
    }

    /// Whether `ids` are the numbers of all terminals, the smallest first.
    pub open spec fn are_all(self, ids: Seq<u32>) -> bool {
        &&& forall|i: int, j: int| 0 <= i < j < ids.len() ==> ids[i] < ids[j]
        &&& forall|id: u32| #[trigger] ids.contains(id) <==> self.terminals.contains_key(id)
    }

    /// The terminals once the process `spawned` was started in the terminal `id`.
    pub open spec fn spawned(self, id: u32, spawned: SpawnedProcess) -> Self {
        self.with(
            id,
            Some(
                ConPtyTerminal {
                    hpcon: spawned.conpty.hpcon,
                    input_write_handle: spawned.conpty.input_write,
                    job_handle: spawned.job,
                    child_pid: spawned.child_pid,
                },
            ),
        )
    }

    /// The terminals once the process of the terminal `id` is gone, and what is
    /// cleaned up then.
    pub open spec fn exited(self, id: u32) -> (Self, Seq<CleanupCall>) {
        if self.is_running(id) {
            (self.with(id, Some(self.running(id).without_console())), self.running(id).closing())
        } else {
            (self, Seq::empty())
        }
    }

    /// What a change of the size of the terminal `id` comes to.
    pub open spec fn size_change(self, id: u32, cols: u16, rows: u16) -> SizeChange {
        if !self.is_running(id) {
            SizeChange::NoTerminal(TerminalNotFound { terminal_id: id })
        } else if cols == 0 || rows == 0 {
            SizeChange::Nothing
        } else {
            SizeChange::Resize {
                hpcon: self.running(id).hpcon,
                cols: cols as i16,
                rows: rows as i16,
            }
        }
    }

    /// The handle that the terminal `id` is written to by.
    pub open spec fn input_of(self, id: u32) -> Result<isize, TerminalNotFound> {
        if self.is_running(id) {
            Ok(self.running(id).input_write_handle)
        } else {
            Err(TerminalNotFound { terminal_id: id })
        }
    }

    /// What was open of the terminal `id`, where it runs.
    pub open spec fn open(self, id: u32) -> Option<ConPtyTerminal> {
        if self.terminals.contains_key(id) {
            self.terminals[id]
        } else {
            None
        }
    }
}

/// What became of a change of a terminal's size that returned `hr`.
pub open spec fn report_of(hr: i32) -> SizeReport {
    if hr == 0 {
        SizeReport::Done
    } else if crate::conpty::is_resize_after_exit(hr) {
        SizeReport::AfterExit
    } else {
        SizeReport::Failed
    }
}

/// What is done after Ctrl-C was to be generated for the process `pid`.
pub open spec fn fallback_of_ctrl_c(pid: u32, generated: bool) -> Option<KillAction> {
    if generated {
        None
    } else {
        Some(KillAction::TerminateProcess(pid))
    }
}

/// The command that is run in the terminal `terminal_id`: the first of `cmd` and
/// `failover_cmd` that was found, at the place where it was.
pub open spec fn command_to_run(
    cmd: RunCommand,
    resolved: Option<String>,
    failover_cmd: Option<RunCommand>,
    failover_resolved: Option<String>,
    terminal_id: u32,
) -> Result<RunCommand, CommandNotFound> {
    match (resolved, failover_cmd, failover_resolved) {
        (Some(place), _, _) => Ok(RunCommand { command: place, ..cmd }),
        (None, Some(failover), Some(place)) => Ok(RunCommand { command: place, ..failover }),
        _ => Err(CommandNotFound { terminal_id, command: cmd.command }),
    }
}

/// What it means for a sequence of numbers to be increasing.
proof fn lemma_increasing_numbers(ids: Seq<u32>)
    requires
        vstd::std_specs::btree::increasing_seq(ids),
    ensures
        forall|i: int, j: int| 0 <= i < j < ids.len() ==> ids[i] < ids[j],
{
    assert(vstd::laws_cmp::obeys_cmp::<u32>());
    assert forall|i: int, j: int| 0 <= i < j < ids.len() implies ids[i] < ids[j] by {
        assert(vstd::std_specs::cmp::OrdSpec::cmp_spec(&ids[i], &ids[j]) is Less);
    }
}

/// The terminals of a server.
pub struct WindowsPtyBackend {
    terminals: BTreeMap<u32, Option<ConPtyTerminal>>,
    next_terminal_id_counter: u32,
}

impl View for WindowsPtyBackend {
    type V = Terminals;

    closed spec fn view(&self) -> Terminals {
        Terminals { terminals: self.terminals@, next_id: self.next_terminal_id_counter }
    }
}

impl WindowsPtyBackend {
    /// No terminals.
    pub fn new() -> (backend: Self)
        ensures
            backend@ == (Terminals { terminals: Map::empty(), next_id: 0 }),
    {
        WindowsPtyBackend { terminals: BTreeMap::new(), next_terminal_id_counter: 0 }
    }

    /// The terminal `terminal_id`, where it runs.
    fn running(&self, terminal_id: u32) -> (terminal: Option<&ConPtyTerminal>)
        ensures
            match terminal {
                Some(terminal) => self@.is_running(terminal_id) && *terminal == self@.running(
                    terminal_id,
                ),
                None => !self@.is_running(terminal_id),
            },
    {
        match self.terminals.get(&terminal_id) {
            Some(Some(terminal)) => Some(terminal),
            _ => None,
        }
    }

    /// The command that is run in the terminal `terminal_id`: `cmd`, at the place
    /// `resolved` where it was found; or else `failover_cmd`, at the place
    /// `failover_resolved` where that was found.
    pub fn spawn_terminal(
        &self,
        cmd: RunCommand,
        resolved: Option<String>,
        failover_cmd: Option<RunCommand>,
        failover_resolved: Option<String>,
        terminal_id: u32,
    ) -> (chosen: Result<RunCommand, CommandNotFound>)
        ensures
            match (resolved, failover_cmd, failover_resolved) {
                (Some(place), _, _) => chosen == Ok::<RunCommand, CommandNotFound>(
                    RunCommand { command: place, ..cmd },
                ),
                (None, Some(failover), Some(place)) => chosen == Ok::<RunCommand, CommandNotFound>(
                    RunCommand { command: place, ..failover },
                ),
                _ => chosen == Err::<RunCommand, CommandNotFound>(
                    CommandNotFound { terminal_id, command: cmd.command },
                ),
            },
            chosen == command_to_run(cmd, resolved, failover_cmd, failover_resolved, terminal_id),
    {
        match resolved {
            Some(command) => Ok(RunCommand { command, args: cmd.args, cwd: cmd.cwd }),
            None => match (failover_cmd, failover_resolved) {
                (Some(failover), Some(command)) => Ok(
                    RunCommand { command, args: failover.args, cwd: failover.cwd },
                ),
                _ => Err(CommandNotFound { terminal_id, command: cmd.command }),
            },
        }
    }

    /// Takes note of a process that was started in the terminal `terminal_id`, and
    /// gives back what was open of it before.
    pub fn record_spawned(&mut self, terminal_id: u32, spawned: &SpawnedProcess) -> (replaced: Option<
        ConPtyTerminal,
    >)
        ensures
            final(self)@ == old(self)@.with(
                terminal_id,
                Some(
                    ConPtyTerminal {
                        hpcon: spawned.conpty.hpcon,
                        input_write_handle: spawned.conpty.input_write,
                        job_handle: spawned.job,
                        child_pid: spawned.child_pid,
                    },
                ),
            ),
            final(self)@ == old(self)@.spawned(terminal_id, *spawned),
            replaced == old(self)@.open(terminal_id),
    {
        let terminal = ConPtyTerminal {
            hpcon: spawned.conpty.hpcon,
            input_write_handle: spawned.conpty.input_write,
            job_handle: spawned.job,
            child_pid: spawned.child_pid,
        };
        match self.terminals.insert(terminal_id, Some(terminal)) {
            Some(replaced) => replaced,
            None => None,
        }
    }

    /// Takes note that the process of the terminal `terminal_id` is gone, and says
    /// what closes its pseudo console.
    pub fn process_exited(&mut self, terminal_id: u32) -> (cleanup: Vec<CleanupCall>)
        ensures
            old(self)@.is_running(terminal_id) ==> {
                &&& cleanup@ == old(self)@.running(terminal_id).closing()
                &&& final(self)@ == old(self)@.with(
                    terminal_id,
                    Some(old(self)@.running(terminal_id).without_console()),
                )
            },
            !old(self)@.is_running(terminal_id) ==> cleanup@.len() == 0 && final(self)@ == old(
                self,
            )@,
            (final(self)@, cleanup@) == old(self)@.exited(terminal_id),
    {
        match self.terminals.remove(&terminal_id) {
            Some(Some(terminal)) => {
                let mut terminal = terminal;
                let cleanup = terminal.close_pseudoconsole();
                self.terminals.insert(terminal_id, Some(terminal));
                assert(self.terminals@ =~= old(self).terminals@.insert(
                    terminal_id,
                    Some(terminal),
                ));
                cleanup
            },
            Some(None) => {
                self.terminals.insert(terminal_id, None);
                assert(self.terminals@ =~= old(self).terminals@);
                Vec::new()
            },
            None => {
                assert(self.terminals@ =~= old(self).terminals@);
                Vec::new()
            },
        }
    }

    /// What gives the terminal `terminal_id` the size of `cols` columns and `rows`
    /// rows.
    pub fn set_terminal_size(
        &self,
        terminal_id: u32,
        cols: u16,
        rows: u16,
        _width_in_pixels: Option<u16>,
        _height_in_pixels: Option<u16>,
    ) -> (change: SizeChange)
        ensures
            change == if !self@.is_running(terminal_id) {
                SizeChange::NoTerminal(TerminalNotFound { terminal_id })
            } else if cols == 0 || rows == 0 {
                SizeChange::Nothing
            } else {
                SizeChange::Resize {
                    hpcon: self@.running(terminal_id).hpcon,
                    cols: cols as i16,
                    rows: rows as i16,
                }
            },
            change == self@.size_change(terminal_id, cols, rows),
    {
        match self.running(terminal_id) {
            Some(terminal) => {
                if cols > 0 && rows > 0 {
                    SizeChange::Resize {
                        hpcon: terminal.hpcon,
                        cols: cols as i16,
                        rows: rows as i16,
                    }
                } else {
                    SizeChange::Nothing
                }
            },
            None => SizeChange::NoTerminal(TerminalNotFound { terminal_id }),
        }
    }

    /// What became of a change of a terminal's size that returned `hr`.
    pub fn size_report(hr: i32) -> (report: SizeReport)
        ensures
            report == if hr == 0 {
                SizeReport::Done
            } else if crate::conpty::is_resize_after_exit(hr) {
                SizeReport::AfterExit
            } else {
                SizeReport::Failed
            },
            report == report_of(hr),
    {
        let ok: i32 = crate::win32::s_ok();
        if hr != ok && is_benign_resize_after_exit_hresult(hr) {
            SizeReport::AfterExit
        } else if hr != ok {
            SizeReport::Failed
        } else {
            SizeReport::Done
        }
    }

    /// Where `buf` for the terminal `terminal_id` is written to.
    pub fn write_to_tty_stdin(&self, terminal_id: u32, buf: &[u8]) -> (write: Result<
        StdinWrite,
        TerminalNotFound,
    >)
        ensures
            match write {
                Ok(write) => self@.is_running(terminal_id) && write == (StdinWrite {
                    handle: self@.running(terminal_id).input_write_handle,
                    len: buf@.len() as u32,
                }),
                Err(error) => !self@.is_running(terminal_id) && error.terminal_id == terminal_id,
            },
            match write {
                Ok(write) => self@.input_of(terminal_id) == Ok::<isize, TerminalNotFound>(
                    write.handle,
                ),
                Err(error) => self@.input_of(terminal_id) == Err::<isize, TerminalNotFound>(error),
            },
    {
        match self.running(terminal_id) {
            Some(terminal) => Ok(
                StdinWrite { handle: terminal.input_write_handle, len: buf.len() as u32 },
            ),
            None => Err(TerminalNotFound { terminal_id }),
        }
    }

    /// The handle that is flushed to drain the terminal `terminal_id`.
    pub fn tcdrain(&self, terminal_id: u32) -> (handle: Result<isize, TerminalNotFound>)
        ensures
            match handle {
                Ok(handle) => self@.is_running(terminal_id) && handle == self@.running(
                    terminal_id,
                ).input_write_handle,
                Err(error) => !self@.is_running(terminal_id) && error.terminal_id == terminal_id,
            },
            handle == self@.input_of(terminal_id),
    {
        match self.running(terminal_id) {
            Some(terminal) => Ok(terminal.input_write_handle),
            None => Err(TerminalNotFound { terminal_id }),
        }
    }

    /// The terminal that stands for the process `pid`.
    fn terminal_of(&self, pid: u32) -> (id: Option<u32>)
        ensures
            match id {
                Some(id) => self@.stands_for(id, pid),
                None => forall|id: u32| !#[trigger] self@.runs_in(id, pid),
            },
    {
        for entry in entries: self.terminals.iter()
            invariant
                entries.seq() == vstd::std_specs::iter::IteratorSpec::remaining(
                    &vstd::std_specs::btree::spec_btree_map_iter(&self.terminals),
                ),
                vstd::std_specs::btree::increasing_seq(
                    entries.seq().map_values(|kv: (&u32, &Option<ConPtyTerminal>)| *kv.0),
                ),
                forall|i: int|
                    0 <= i < entries.index() ==> !self@.runs_in(
                        *(#[trigger] entries.seq()[i]).0,
                        pid,
                    ),
        {
            let ghost at = entries.index();
            assert(self.terminals@.contains_key(*entries.seq()[at].0));
            match entry.1 {
                Some(terminal) => {
                    if sigint_payload_for_child_pid(terminal.child_pid, pid).is_some() {
                        let id: u32 = *entry.0;
                        proof {
                            let ids = entries.seq().map_values(
                                |kv: (&u32, &Option<ConPtyTerminal>)| *kv.0,
                            );
                            assert forall|other: u32| #[trigger]
                                self@.runs_in(other, pid) implies id <= other by {
                                assert(entries.seq().contains((&other, &self.terminals@[other])));
                                let j = choose|j: int|
                                    0 <= j < entries.seq().len() && entries.seq()[j] == (
                                        &other,
                                        &self.terminals@[other],
                                    );
                                assert(ids[j] == other);
                                assert(ids[at] == id);
                                assert(j >= at) by {
                                    if j < at {
                                        assert(!self@.runs_in(*entries.seq()[j].0, pid));
                                    }
                                }
                                lemma_increasing_numbers(ids);
                            }
                        }
                        return Some(id);
                    }
                },
                None => {},
            }
        }
        assert forall|id: u32| !#[trigger] self@.runs_in(id, pid) by {
            if self@.runs_in(id, pid) {
                let seq = vstd::std_specs::iter::IteratorSpec::remaining(
                    &vstd::std_specs::btree::spec_btree_map_iter(&self.terminals),
                );
                assert(seq.contains((&id, &self.terminals@[id])));
                let j = choose|j: int|
                    0 <= j < seq.len() && seq[j] == (&id, &self.terminals@[id]);
                assert(*seq[j].0 == id);
            }
        }
        None
    }

    /// The job that is ended with the process `pid`, where that runs in a
    /// terminal.
    fn terminate_job_for_pid(&self, pid: u32) -> (job: Option<isize>)
        ensures
            match job {
                Some(job) => self@.kills(pid, KillAction::TerminateJob(job)),
                None => forall|id: u32| !#[trigger] self@.runs_in(id, pid),
            },
    {
        match self.terminal_of(pid) {
            Some(id) => match self.running(id) {
                Some(terminal) => Some(terminal.job_handle),
                None => None,
            },
            None => None,
        }
    }

    /// Where the byte that interrupts the process `pid` is written to, and that
    /// byte, where the process runs in a terminal.
    fn write_sigint_to_child_stdin(&self, pid: u32) -> (write: Option<(isize, Vec<u8>)>)
        ensures
            match write {
                Some(write) => self@.interrupts(
                    pid,
                    SigintValue::WriteStdin { handle: write.0, payload: write.1@ },
                ),
                None => forall|id: u32| !#[trigger] self@.runs_in(id, pid),
            },
    {
        match self.terminal_of(pid) {
            Some(id) => match self.running(id) {
                Some(terminal) => match sigint_payload_for_child_pid(terminal.child_pid, pid) {
                    Some(payload) => Some((terminal.input_write_handle, payload)),
                    None => None,
                },
                None => None,
            },
            None => None,
        }
    }

    /// How the process `pid` is ended.
    pub fn kill(&self, pid: u32) -> (action: KillAction)
        ensures
            self@.kills(pid, action),
    {
        match self.terminate_job_for_pid(pid) {
            Some(job) => KillAction::TerminateJob(job),
            None => KillAction::TerminateProcess(pid),
        }
    }

    /// How the process `pid` is ended when it has to be.
    pub fn force_kill(&self, pid: u32) -> (action: KillAction)
        ensures
            self@.kills(pid, action),
    {
        self.kill(pid)
    }

    /// How the process `pid` is interrupted.
    pub fn send_sigint(&self, pid: u32) -> (action: SigintAction)
        ensures
            self@.interrupts(pid, action@),
    {
        match self.write_sigint_to_child_stdin(pid) {
            Some((handle, payload)) => SigintAction::WriteStdin { handle, payload },
            None => SigintAction::GenerateCtrlC(pid),
        }
    }

    /// What is done after Ctrl-C was to be generated for the process `pid`:
    /// nothing, unless that failed.
    pub fn after_ctrl_c(pid: u32, generated: bool) -> (action: Option<KillAction>)
        ensures
            action == if generated {
                None::<KillAction>
            } else {
                Some(KillAction::TerminateProcess(pid))
            },
            action == fallback_of_ctrl_c(pid, generated),
    {
        if generated {
            None
        } else {
            Some(KillAction::TerminateProcess(pid))
        }
    }

    /// Reserves the number `terminal_id`, and gives back what was open of the
    /// terminal that had it.
    pub fn reserve_terminal_id(&mut self, terminal_id: u32) -> (replaced: Option<ConPtyTerminal>)
        ensures
            final(self)@ == old(self)@.with(terminal_id, None),
            replaced == old(self)@.open(terminal_id),
    {
        match self.terminals.insert(terminal_id, None) {
            Some(replaced) => replaced,
            None => None,
        }
    }

    /// Frees the number `terminal_id`, and gives back what was open of the terminal
    /// that had it.
    pub fn clear_terminal_id(&mut self, terminal_id: u32) -> (removed: Option<ConPtyTerminal>)
        ensures
            final(self)@ == (Terminals {
                terminals: old(self)@.terminals.remove(terminal_id),
                ..old(self)@
            }),
            removed == old(self)@.open(terminal_id),
    {
        match self.terminals.remove(&terminal_id) {
            Some(removed) => removed,
            None => None,
        }
    }

    /// Frees all numbers, and says what closes all that is open of their
    /// terminals, the one with the smallest number first.
    pub fn close_all(&mut self) -> (cleanup: Vec<CleanupCall>)
        ensures
            final(self)@ == (Terminals { terminals: Map::empty(), ..old(self)@ }),
            exists|ids: Seq<u32>| #[trigger]
                old(self)@.are_all(ids) && cleanup@ == old(self)@.releasing_all(ids),
    {
        let ghost before = self@;
        let mut cleanup: Vec<CleanupCall> = Vec::new();
        let ghost all = vstd::std_specs::iter::IteratorSpec::remaining(
            &vstd::std_specs::btree::spec_btree_map_iter(&self.terminals),
        );
        let ghost ids = all.map_values(|kv: (&u32, &Option<ConPtyTerminal>)| *kv.0);
        assert(ids.take(0) =~= Seq::empty());
        for entry in entries: self.terminals.iter()
            invariant
                entries.seq() == all,
                all == vstd::std_specs::iter::IteratorSpec::remaining(
                    &vstd::std_specs::btree::spec_btree_map_iter(&self.terminals),
                ),
                ids == all.map_values(|kv: (&u32, &Option<ConPtyTerminal>)| *kv.0),
                vstd::std_specs::btree::increasing_seq(ids),
                self@ == before,
                cleanup@ == before.releasing_all(ids.take(entries.index())),
        {
            let ghost at = entries.index();
            assert(self.terminals@.contains_key(*all[at].0));
            assert(ids[at] == *entry.0);
            assert(ids.take(at + 1).drop_last() =~= ids.take(at));
            match entry.1 {
                Some(terminal) => terminal.push_release(&mut cleanup),
                None => {
                    assert(cleanup@ + Seq::empty() =~= cleanup@);
                },
            }
        }
        proof {
            assert(ids.take(ids.len() as int) =~= ids);
            lemma_increasing_numbers(ids);
            assert forall|id: u32| #[trigger]
                ids.contains(id) == before.terminals.contains_key(id) by {
                if ids.contains(id) {
                    let i = choose|i: int| 0 <= i < ids.len() && ids[i] == id;
                    assert(self.terminals@.contains_key(*all[i].0));
                }
                if before.terminals.contains_key(id) {
                    assert(all.contains((&id, &self.terminals@[id])));
                    let i = choose|i: int|
                        0 <= i < all.len() && all[i] == (&id, &self.terminals@[id]);
                    assert(ids[i] == id);
                }
            }
            assert(before.are_all(ids));
        }
        self.terminals.clear();
        cleanup
    }

    /// Gives out a number for a terminal.
    pub fn next_terminal_id(&mut self) -> (id: Option<u32>)
        ensures
            id == Some(old(self)@.next_id),
            final(self)@ == (Terminals { next_id: id_after(old(self)@.next_id), ..old(self)@ }),
    {
        let id: u32 = self.next_terminal_id_counter;
        self.next_terminal_id_counter = if id == u32::MAX {
            0
        } else {
            id + 1
        };
        Some(id)
    }
}

/// The number that is given out after `id`; the largest one is followed by zero.
pub open spec fn id_after(id: u32) -> u32 {
    if id == u32::MAX {
        0
    } else {
        (id + 1) as u32
    }
}

/// The number that is given out `steps` after `id`.
pub open spec fn id_after_steps(id: u32, steps: nat) -> u32
    decreases steps,
{
    if steps == 0 {
        id
    } else {
        id_after(id_after_steps(id, (steps - 1) as nat))
    }
}

proof fn lemma_id_after_steps(id: u32, steps: nat)
    ensures
        id_after_steps(id, steps) == (id + steps) % 0x1_0000_0000,
    decreases steps,
{
    if steps > 0 {
        lemma_id_after_steps(id, (steps - 1) as nat);
    }
}

/// No number is given out twice before all others were given out.
pub proof fn law_terminal_ids_are_distinct(id: u32, first: nat, second: nat)
    requires
        first < second,
        second - first < 0x1_0000_0000,
    ensures
        id_after_steps(id, first) != id_after_steps(id, second),
{
    lemma_id_after_steps(id, first);
    lemma_id_after_steps(id, second);
}

/// Requests about one terminal leave the others as they are.
pub proof fn law_terminals_do_not_interfere(
    terminals: Terminals,
    id: u32,
    other: u32,
    terminal: Option<ConPtyTerminal>,
)
    requires
        id != other,
    ensures
        terminals.with(id, terminal).is_running(other) == terminals.is_running(other),
        terminals.with(id, terminal).open(other) == terminals.open(other),
        (Terminals { terminals: terminals.terminals.remove(id), ..terminals }).is_running(other)
            == terminals.is_running(other),
        (Terminals { terminals: terminals.terminals.remove(id), ..terminals }).open(other)
            == terminals.open(other),
{
}

/// A reserved number is no running terminal until a process is started in it, and
/// a freed one is none any more.
pub proof fn law_only_spawned_terminals_run(terminals: Terminals, id: u32, terminal: ConPtyTerminal)
    ensures
        !terminals.with(id, None).is_running(id),
        terminals.with(id, Some(terminal)).is_running(id),
        terminals.with(id, Some(terminal)).running(id) == terminal,
        !(Terminals { terminals: terminals.terminals.remove(id), ..terminals }).is_running(id),
{
}

/// There is one way only to end a process.
pub proof fn law_process_is_ended_in_one_way(
    terminals: Terminals,
    pid: u32,
    first: KillAction,
    second: KillAction,
)
    requires
        terminals.kills(pid, first),
        terminals.kills(pid, second),
    ensures
        first == second,
{
}

/// A process that runs in a terminal is ended with that terminal's job and
/// interrupted by the byte 3 to that terminal's input, whichever number the
/// terminal has. Where several terminals have the process, the one with the
/// smallest number counts.
pub proof fn law_process_of_a_terminal_is_reached_through_it(
    terminals: Terminals,
    id: u32,
    terminal: ConPtyTerminal,
    killing: KillAction,
    interrupting: SigintValue,
)
    requires
        terminals.terminals.contains_key(id),
        terminals.terminals[id] == Some(terminal),
        forall|other: u32|
            #![trigger terminals.terminals[other]]
            terminals.terminals.contains_key(other) && other < id ==> (
            terminals.terminals[other] matches Some(running) ==> running.child_pid
                != terminal.child_pid),
    ensures
        terminals.kills(terminal.child_pid, killing) <==> killing == KillAction::TerminateJob(
            terminal.job_handle,
        ),
        terminals.interrupts(terminal.child_pid, interrupting) <==> interrupting
            == (SigintValue::WriteStdin {
            handle: terminal.input_write_handle,
            payload: seq![3u8],
        }),
{
    let pid = terminal.child_pid;
    assert(terminals.runs_in(id, pid));
    assert forall|other: u32| #[trigger] terminals.runs_in(other, pid) implies id <= other by {
        if other < id {
            assert(terminals.terminals[other]->0.child_pid != pid);
        }
    }
    assert(terminals.stands_for(id, pid));
}

/// A process that runs in no terminal is ended, or sent Ctrl-C, by its own number.
pub proof fn law_other_process_is_reached_by_its_number(
    terminals: Terminals,
    pid: u32,
    killing: KillAction,
    interrupting: SigintValue,
)
    requires
        forall|id: u32|
            #![trigger terminals.terminals[id]]
            terminals.terminals.contains_key(id) ==> (terminals.terminals[id] matches Some(
                running,
            ) ==> running.child_pid != pid),
    ensures
        terminals.kills(pid, killing) <==> killing == KillAction::TerminateProcess(pid),
        terminals.interrupts(pid, interrupting) <==> interrupting == SigintValue::GenerateCtrlC(
            pid,
        ),
{
    assert forall|id: u32| !#[trigger] terminals.runs_in(id, pid) by {
        if terminals.runs_in(id, pid) {
            assert(terminals.terminals[id]->0.child_pid != pid);
        }
    }
}

/// Once a process was started in a terminal, whichever number that has, it is
/// reached through it; freeing or reserving the number ends that.
pub proof fn law_spawned_process_is_reached_through_its_terminal(
    terminals: Terminals,
    id: u32,
    terminal: ConPtyTerminal,
    killing: KillAction,
    interrupting: SigintValue,
)
    requires
        forall|other: u32|
            #![trigger terminals.terminals[other]]
            other != id && terminals.terminals.contains_key(other) ==> (
            terminals.terminals[other] matches Some(running) ==> running.child_pid
                != terminal.child_pid),
    ensures
        terminals.with(id, Some(terminal)).kills(terminal.child_pid, killing) ==> killing
            == KillAction::TerminateJob(terminal.job_handle),
        terminals.with(id, Some(terminal)).interrupts(terminal.child_pid, interrupting)
            ==> interrupting == (SigintValue::WriteStdin {
            handle: terminal.input_write_handle,
            payload: seq![3u8],
        }),
        terminals.with(id, None).kills(terminal.child_pid, killing) ==> killing
            == KillAction::TerminateProcess(terminal.child_pid),
        (Terminals { terminals: terminals.terminals.remove(id), ..terminals }).kills(
            terminal.child_pid,
            killing,
        ) ==> killing == KillAction::TerminateProcess(terminal.child_pid),
{
    let running = terminals.with(id, Some(terminal));
    assert forall|other: u32|
        #![trigger running.terminals[other]]
        running.terminals.contains_key(other) && other < id implies (
    running.terminals[other] matches Some(there) ==> there.child_pid != terminal.child_pid) by {
        assert(running.terminals[other] == terminals.terminals[other]);
    }
    law_process_of_a_terminal_is_reached_through_it(
        running,
        id,
        terminal,
        killing,
        interrupting,
    );
    let reserved = terminals.with(id, None);
    assert forall|other: u32|
        #![trigger reserved.terminals[other]]
        reserved.terminals.contains_key(other) implies (reserved.terminals[other] matches Some(
        there,
    ) ==> there.child_pid != terminal.child_pid) by {
        if other != id {
            assert(reserved.terminals[other] == terminals.terminals[other]);
        }
    }
    law_other_process_is_reached_by_its_number(
        reserved,
        terminal.child_pid,
        killing,
        interrupting,
    );
    let freed = Terminals { terminals: terminals.terminals.remove(id), ..terminals };
    assert forall|other: u32|
        #![trigger freed.terminals[other]]
        freed.terminals.contains_key(other) implies (freed.terminals[other] matches Some(there)
        ==> there.child_pid != terminal.child_pid) by {
        assert(freed.terminals[other] == terminals.terminals[other]);
    }
    law_other_process_is_reached_by_its_number(freed, terminal.child_pid, killing, interrupting);
}

/// What is stored under a number is found under it, whichever number that is.
pub proof fn law_terminal_is_found_under_its_number(
    terminals: Terminals,
    id: u32,
    terminal: Option<ConPtyTerminal>,
)
    ensures
        terminals.with(id, terminal).terminals.contains_key(id),
        terminals.with(id, terminal).terminals[id] == terminal,
        terminals.with(id, terminal).next_id == terminals.next_id,
        terminals.with(id, terminal).open(id) == terminal,
        terminals.terminals.contains_key(id) ==> terminals.open(id) == terminals.terminals[id],
        !terminals.terminals.contains_key(id) ==> terminals.open(id) is None,
        terminals.is_running(id) <==> terminals.open(id) is Some,
        terminals.is_running(id) ==> Some(terminals.running(id)) == terminals.open(id),
{
}

/// Releasing a terminal closes its pseudo console first, if that is still open, and
/// then its input and its job, each once.
pub proof fn law_release_closes_all_that_is_open(terminal: ConPtyTerminal)
    ensures
        terminal.hpcon != 0 ==> terminal.releasing() == seq![
            CleanupCall::ClosePseudoConsole(terminal.hpcon),
            CleanupCall::CloseHandle(terminal.input_write_handle),
            CleanupCall::CloseHandle(terminal.job_handle),
        ],
        terminal.hpcon == 0 ==> terminal.releasing() == seq![
            CleanupCall::CloseHandle(terminal.input_write_handle),
            CleanupCall::CloseHandle(terminal.job_handle),
        ],
        terminal.hpcon != 0 ==> terminal.closing() == seq![
            CleanupCall::ClosePseudoConsole(terminal.hpcon),
        ],
        terminal.without_console().hpcon == 0,
        terminal.without_console().input_write_handle == terminal.input_write_handle,
        terminal.without_console().job_handle == terminal.job_handle,
        terminal.without_console().child_pid == terminal.child_pid,
{
    assert(terminal.hpcon != 0 ==> terminal.releasing() =~= seq![
        CleanupCall::ClosePseudoConsole(terminal.hpcon),
        CleanupCall::CloseHandle(terminal.input_write_handle),
        CleanupCall::CloseHandle(terminal.job_handle),
    ]);
    assert(terminal.hpcon == 0 ==> terminal.releasing() =~= seq![
        CleanupCall::CloseHandle(terminal.input_write_handle),
        CleanupCall::CloseHandle(terminal.job_handle),
    ]);
}

/// Closing several terminals closes each as it would be closed alone, one after
/// the other; a number that is only reserved has nothing to close.
pub proof fn law_terminals_are_closed_one_after_the_other(
    terminals: Terminals,
    first: Seq<u32>,
    id: u32,
    second: Seq<u32>,
)
    ensures
        terminals.releasing_all(Seq::empty()) == Seq::<CleanupCall>::empty(),
        terminals.terminals.contains_key(id) && terminals.terminals[id] is Some
            ==> terminals.releasing_all(first + seq![id] + second) == terminals.releasing_all(first)
            + terminals.terminals[id]->0.releasing() + terminals.releasing_all(second),
        !(terminals.terminals.contains_key(id) && terminals.terminals[id] is Some)
            ==> terminals.releasing_all(first + seq![id] + second) == terminals.releasing_all(first)
            + terminals.releasing_all(second),
    decreases second.len(),
{
    let all = first + seq![id] + second;
    if second.len() == 0 {
        assert(all.drop_last() =~= first);
        assert(all.last() == id);
        assert(terminals.releasing_all(second) =~= Seq::empty());
        assert(terminals.releasing_all(first) + terminals.releasing_all(second)
            =~= terminals.releasing_all(first));
        if terminals.terminals.contains_key(id) && terminals.terminals[id] is Some {
            assert(terminals.releasing_all(all) =~= terminals.releasing_all(first)
                + terminals.terminals[id]->0.releasing() + terminals.releasing_all(second));
        } else {
            assert(terminals.releasing_all(all) =~= terminals.releasing_all(first));
        }
    } else {
        law_terminals_are_closed_one_after_the_other(terminals, first, id, second.drop_last());
        assert(all.drop_last() =~= first + seq![id] + second.drop_last());
        assert(all.last() == second.last());
        if terminals.terminals.contains_key(id) && terminals.terminals[id] is Some {
            assert(terminals.releasing_all(all) =~= terminals.releasing_all(first)
                + terminals.terminals[id]->0.releasing() + terminals.releasing_all(second));
        } else {
            assert(terminals.releasing_all(all) =~= terminals.releasing_all(first)
                + terminals.releasing_all(second));
        }
    }
}

/// Numbers are given out in order, beginning again at zero once all were.
pub proof fn law_terminal_ids_count_up(id: u32, steps: nat)
    ensures
        id < u32::MAX ==> id_after(id) == id + 1,
        id == u32::MAX ==> id_after(id) == 0,
        id_after_steps(id, steps) == (id + steps) % 0x1_0000_0000,
{
    lemma_id_after_steps(id, steps);
}

/// A process that was started in a terminal, whichever number that has, is written
/// to, resized, interrupted and ended by what it was started with, and its terminal
/// replaces what was there; the other terminals stay as they are.
pub proof fn law_spawned_process_is_known_by_what_it_was_started_with(
    terminals: Terminals,
    id: u32,
    other: u32,
    spawned: SpawnedProcess,
    killing: KillAction,
    interrupting: SigintValue,
)
    requires
        forall|there: u32|
            #![trigger terminals.terminals[there]]
            there != id && terminals.terminals.contains_key(there) ==> (
            terminals.terminals[there] matches Some(running) ==> running.child_pid
                != spawned.child_pid),
    ensures
        ({
            let after = terminals.spawned(id, spawned);
            &&& after.terminals.contains_key(id)
            &&& after.terminals[id] is Some
            &&& after.terminals[id]->0.hpcon == spawned.conpty.hpcon
            &&& after.terminals[id]->0.input_write_handle == spawned.conpty.input_write
            &&& after.terminals[id]->0.job_handle == spawned.job
            &&& after.terminals[id]->0.child_pid == spawned.child_pid
            &&& after.input_of(id) == Ok::<isize, TerminalNotFound>(spawned.conpty.input_write)
            &&& after.kills(spawned.child_pid, killing) <==> killing == KillAction::TerminateJob(
                spawned.job,
            )
            &&& after.interrupts(spawned.child_pid, interrupting) <==> interrupting
                == (SigintValue::WriteStdin {
                handle: spawned.conpty.input_write,
                payload: seq![3u8],
            })
            &&& after.next_id == terminals.next_id
            &&& other != id ==> after.terminals.contains_key(other)
                == terminals.terminals.contains_key(other) && after.open(other) == terminals.open(
                other,
            )
        }),
{
    let after = terminals.spawned(id, spawned);
    assert forall|there: u32|
        #![trigger after.terminals[there]]
        after.terminals.contains_key(there) && there < id implies (
    after.terminals[there] matches Some(running) ==> running.child_pid
        != spawned.child_pid) by {
        assert(after.terminals[there] == terminals.terminals[there]);
    }
    law_process_of_a_terminal_is_reached_through_it(
        after,
        id,
        after.terminals[id]->0,
        killing,
        interrupting,
    );
}

/// The end of a process closes its pseudo console, once, and nothing else of its
/// terminal, which can still be found; where no process runs nothing happens.
pub proof fn law_end_of_a_process_closes_its_console(terminals: Terminals, id: u32, other: u32)
    ensures
        ({
            let (after, cleanup) = terminals.exited(id);
            let runs = terminals.terminals.contains_key(id) && terminals.terminals[id] is Some;
            &&& !runs ==> after == terminals && cleanup.len() == 0
            &&& runs ==> {
                let terminal = terminals.terminals[id]->0;
                &&& after.terminals.contains_key(id)
                &&& after.terminals[id] == Some(ConPtyTerminal { hpcon: 0, ..terminal })
                &&& terminal.hpcon != 0 ==> cleanup == seq![
                    CleanupCall::ClosePseudoConsole(terminal.hpcon),
                ]
                &&& terminal.hpcon == 0 ==> cleanup.len() == 0
                &&& after.exited(id).1.len() == 0
            }
            &&& other != id ==> after.open(other) == terminals.open(other)
            &&& after.next_id == terminals.next_id
        }),
{
}

/// A running terminal is given the size that was asked for, unless that has no
/// columns or no rows; what runs nowhere cannot be given one.
pub proof fn law_size_is_given_as_asked(terminals: Terminals, id: u32, cols: u16, rows: u16)
    ensures
        ({
            let change = terminals.size_change(id, cols, rows);
            let runs = terminals.terminals.contains_key(id) && terminals.terminals[id] is Some;
            &&& !runs ==> change == SizeChange::NoTerminal(TerminalNotFound { terminal_id: id })
            &&& runs && (cols == 0 || rows == 0) ==> change == SizeChange::Nothing
            &&& runs && cols > 0 && rows > 0 ==> change is Resize && change->hpcon
                == terminals.terminals[id]->0.hpcon
            &&& runs && 0 < cols <= 0x7fff && rows > 0 ==> change->cols == cols
            &&& runs && cols > 0 && 0 < rows <= 0x7fff ==> change->rows == rows
        }),
{
}

/// A terminal is written to, and drained, through its own input; where nothing runs
/// that is an error, which names the terminal.
pub proof fn law_input_goes_to_the_terminal(terminals: Terminals, id: u32)
    ensures
        terminals.terminals.contains_key(id) && terminals.terminals[id] is Some
            ==> terminals.input_of(id) == Ok::<isize, TerminalNotFound>(
            terminals.terminals[id]->0.input_write_handle,
        ),
        !(terminals.terminals.contains_key(id) && terminals.terminals[id] is Some)
            ==> terminals.input_of(id) == Err::<isize, TerminalNotFound>(
            TerminalNotFound { terminal_id: id },
        ),
{
}

/// A change of the size went well, or came too late to matter, or failed, by its
/// result alone.
pub proof fn law_result_of_resizing_is_told(hr: i32)
    ensures
        report_of(hr) is Done <==> hr == 0,
        report_of(hr) is AfterExit <==> hr + 0x1_0000_0000 == 0x8007_0000 + 6 || hr + 0x1_0000_0000
            == 0x8007_0000 + 109,
        report_of(hr) is Failed <==> hr != 0 && !(report_of(hr) is AfterExit),
{
}

/// A process that Ctrl-C could not be sent to is ended instead, and only such a one.
pub proof fn law_process_without_ctrl_c_is_ended(pid: u32)
    ensures
        fallback_of_ctrl_c(pid, true) is None,
        fallback_of_ctrl_c(pid, false) == Some(KillAction::TerminateProcess(pid)),
{
}

/// The command that was asked for is run where it was found; else the other one,
/// where that was; else the error names what was asked for. Arguments and directory
/// are those of the command that is run.
pub proof fn law_first_command_that_was_found_is_run(
    cmd: RunCommand,
    place: String,
    failover: RunCommand,
    failover_cmd: Option<RunCommand>,
    failover_resolved: Option<String>,
    terminal_id: u32,
)
    ensures
        command_to_run(cmd, Some(place), failover_cmd, failover_resolved, terminal_id) matches Ok(
            run,
        ) && run.command == place && run.args == cmd.args && run.cwd == cmd.cwd,
        command_to_run(cmd, None, Some(failover), Some(place), terminal_id) matches Ok(run)
            && run.command == place && run.args == failover.args && run.cwd == failover.cwd,
        command_to_run(cmd, None, None, failover_resolved, terminal_id) matches Err(missing)
            && missing.terminal_id == terminal_id && missing.command == cmd.command,
        command_to_run(cmd, None, failover_cmd, None, terminal_id) matches Err(missing)
            && missing.terminal_id == terminal_id && missing.command == cmd.command,
{
}

/// What is said of how a process is interrupted is said of what is written or sent.
pub proof fn law_values_of_interrupts(handle: isize, payload: Vec<u8>, pid: u32)
    ensures
        (SigintAction::WriteStdin { handle, payload })@ == (SigintValue::WriteStdin {
            handle,
            payload: payload@,
        }),
        SigintAction::GenerateCtrlC(pid)@ == SigintValue::GenerateCtrlC(pid),
{
}

} // verus!
