//! Starting a process on a pseudo console of its own, as a machine: it says which
//! call to make next and what to clean up, and is told how the call went.
use crate::conpty::{
    child_process_creation_flags, conpty_flags_without_passthrough, fallback_conpty_flags,
    should_recreate_without_passthrough, ConPtyFlags,
};
use vstd::prelude::*;

verus! {

/// The size of a new pseudo console.
pub const INITIAL_COLS: u16 = 80;

pub const INITIAL_ROWS: u16 = 24;

/// How many bytes a pipe of a pseudo console may hold.
pub const CONPTY_PIPE_SIZE: u32 = 65536;

/// A call whose outcome decides what happens next.
#[derive(Clone, Copy, Debug, PartialEq, Eq, Structural)]
pub enum SystemCall {
    /// Gives the reading and the writing end of a new pipe.
    CreatePipe { size: u32 },
    /// Gives a new pseudo console.
    CreatePseudoConsole {
        cols: u16,
        rows: u16,
        input_read: isize,
        output_write: isize,
        flags: ConPtyFlags,
    },
    /// Makes a list for one attribute of a process.
    InitializeAttributeList,
    /// Puts the pseudo console into the list.
    SetPseudoConsoleAttribute { hpcon: isize },
    /// Gives a new job.
    CreateJob,
    /// Makes the job end its processes when it is closed.
    KillOnJobClose { job: isize },
    /// Gives a new process, its main thread and its number.
    CreateProcess { creation_flags: u32 },
    AssignProcessToJob { job: isize, process: isize },
    ResumeThread { thread: isize },
}

/// A call whose outcome does not matter.
#[derive(Clone, Copy, Debug, PartialEq, Eq, Structural)]
pub enum CleanupCall {
    CloseHandle(isize),
    ClosePseudoConsole(isize),
    DeleteAttributeList,
    TerminateProcess(isize),
    TerminateJob(isize),
}

/// What a call gave: up to two handles and a number.
#[derive(Clone, Copy, Debug, PartialEq, Eq, Structural)]
pub struct CallValues {
    pub first: isize,
    pub second: isize,
    pub id: u32,
}

/// Why a call failed. `E` is the error, which has a code where it came from the
/// system.
#[derive(Clone, Copy, Debug, PartialEq, Eq)]
pub struct CallError<E> {
    pub code: Option<i32>,
    pub error: E,
}

/// Why there is no new process.
#[derive(Clone, Copy, Debug, PartialEq, Eq)]
pub enum SpawnFailure<E> {
    Call(CallError<E>),
    /// A pipe was created, but one of its ends is no handle.
    InvalidPipe,
    /// No outcome was awaited any more.
    AlreadyOver,
}

/// A pseudo console that waits for its process.
#[derive(Clone, Copy, Debug, PartialEq, Eq, Structural)]
pub struct ConPtySpawnState {
    pub output_read: isize,
    pub input_write: isize,
    pub hpcon: isize,
    pub flags: ConPtyFlags,
}

/// A process that runs on a pseudo console.
#[derive(Clone, Copy, Debug, PartialEq, Eq, Structural)]
pub struct SpawnedProcess {
    pub conpty: ConPtySpawnState,
    pub process: isize,
    pub child_pid: u32,
    pub job: isize,
}

/// What comes next.
#[derive(Clone, Copy, Debug, PartialEq, Eq)]
pub enum NextCall<E> {
    Call(SystemCall),
    Spawned(SpawnedProcess),
    Failed(SpawnFailure<E>),
}

/// What to clean up, in order, and what comes next.
pub struct SpawnStep<E> {
    pub cleanup: Vec<CleanupCall>,
    pub next: NextCall<E>,
}

/// What to clean up and what comes next, as a value.
#[verifier::ext_equal]
pub struct StepValue<E> {
    pub cleanup: Seq<CleanupCall>,
    pub next: NextCall<E>,
}

impl<E> View for SpawnStep<E> {
    type V = StepValue<E>;

    open spec fn view(&self) -> StepValue<E> {
        StepValue { cleanup: self.cleanup@, next: self.next }
    }
}

/// Which call the outcome is awaited of, and what is open meanwhile.
#[derive(Clone, Copy, Debug, PartialEq, Eq, Structural)]
pub enum SpawnPhase {
    OutputPipe { flags: ConPtyFlags },
    InputPipe { flags: ConPtyFlags, output_read: isize, output_write: isize },
    Console {
        flags: ConPtyFlags,
        output_read: isize,
        output_write: isize,
        input_read: isize,
        input_write: isize,
    },
    AttributeList { conpty: ConPtySpawnState, breakaway: bool },
    Attribute { conpty: ConPtySpawnState, breakaway: bool },
    Job { conpty: ConPtySpawnState, breakaway: bool },
    JobLimit { conpty: ConPtySpawnState, breakaway: bool, job: isize },
    Process { conpty: ConPtySpawnState, breakaway: bool, job: isize },
    Assignment {
        conpty: ConPtySpawnState,
        breakaway: bool,
        job: isize,
        process: isize,
        thread: isize,
        child_pid: u32,
    },
    Resumption {
        conpty: ConPtySpawnState,
        breakaway: bool,
        job: isize,
        process: isize,
        thread: isize,
        child_pid: u32,
    },
    Over,
}

/// Starts one process. `recreated` if the pseudo console is already the second
/// one, which does not pass output through.
#[derive(Clone, Copy, Debug, PartialEq, Eq, Structural)]
pub struct TerminalSpawn {
    pub phase: SpawnPhase,
    pub recreated: bool,
}

/// The call that gives a pseudo console with `flags`.
pub open spec fn console_call(
    flags: ConPtyFlags,
    input_read: isize,
    output_write: isize,
) -> SystemCall {
    SystemCall::CreatePseudoConsole {
        cols: INITIAL_COLS,
        rows: INITIAL_ROWS,
        input_read,
        output_write,
        flags,
    }
}

/// What closes a pseudo console that gets no process.
pub open spec fn closing_conpty(conpty: ConPtySpawnState) -> Seq<CleanupCall> {
    seq![
        CleanupCall::ClosePseudoConsole(conpty.hpcon),
        CleanupCall::CloseHandle(conpty.input_write),
        CleanupCall::CloseHandle(conpty.output_read),
    ]
}

/// Goes on to `phase`, with `call` to be made.
pub open spec fn going_on<E>(
    spawn: TerminalSpawn,
    phase: SpawnPhase,
    cleanup: Seq<CleanupCall>,
    call: SystemCall,
) -> (TerminalSpawn, StepValue<E>) {
    (
        TerminalSpawn { phase, ..spawn },
        StepValue { cleanup, next: NextCall::Call(call) },
    )
}

/// Ends without a process.
pub open spec fn ending<E>(
    spawn: TerminalSpawn,
    cleanup: Seq<CleanupCall>,
    failure: SpawnFailure<E>,
) -> (TerminalSpawn, StepValue<E>) {
    (
        TerminalSpawn { phase: SpawnPhase::Over, ..spawn },
        StepValue { cleanup, next: NextCall::Failed(failure) },
    )
}

/// What follows where an attempt to start the process on `conpty` failed and
/// `cleanup` closes what it opened. The first attempt is repeated with a process
/// that is kept out of the parent's job. Where that fails because a parameter was
/// not accepted, and output was to be passed through, all is repeated with a new
/// pseudo console that does not pass output through.
pub open spec fn attempt_failed<E>(
    spawn: TerminalSpawn,
    conpty: ConPtySpawnState,
    breakaway: bool,
    cleanup: Seq<CleanupCall>,
    error: CallError<E>,
) -> (TerminalSpawn, StepValue<E>) {
    if !breakaway {
        going_on(
            spawn,
            SpawnPhase::AttributeList { conpty, breakaway: true },
            cleanup,
            SystemCall::InitializeAttributeList,
        )
    } else if !spawn.recreated && crate::conpty::wants_plain_console(conpty.flags, error.code) {
        (
            TerminalSpawn {
                phase: SpawnPhase::OutputPipe { flags: crate::conpty::plain_flags() },
                recreated: true,
            },
            StepValue {
                cleanup: cleanup + closing_conpty(conpty),
                next: NextCall::Call(SystemCall::CreatePipe { size: CONPTY_PIPE_SIZE }),
            },
        )
    } else {
        ending(spawn, cleanup + closing_conpty(conpty), SpawnFailure::Call(error))
    }
}

impl TerminalSpawn {
    /// The machine before its first call, which creates a pipe.
    pub open spec fn started(flags: ConPtyFlags) -> Self {
        TerminalSpawn { phase: SpawnPhase::OutputPipe { flags }, recreated: false }
    }

    /// What follows where the awaited call gave `values`.
    pub open spec fn after_success<E>(self, values: CallValues) -> (Self, StepValue<E>) {
        match self.phase {
            SpawnPhase::OutputPipe { flags } => going_on(
                self,
                SpawnPhase::InputPipe {
                    flags,
                    output_read: values.first,
                    output_write: values.second,
                },
                Seq::empty(),
                SystemCall::CreatePipe { size: CONPTY_PIPE_SIZE },
            ),
            SpawnPhase::InputPipe { flags, output_read, output_write } => if values.first == -1
                || values.second == -1 {
                ending(
                    self,
                    seq![
                        CleanupCall::CloseHandle(output_read),
                        CleanupCall::CloseHandle(output_write),
                    ],
                    SpawnFailure::InvalidPipe,
                )
            } else {
                going_on(
                    self,
                    SpawnPhase::Console {
                        flags,
                        output_read,
                        output_write,
                        input_read: values.first,
                        input_write: values.second,
                    },
                    Seq::empty(),
                    console_call(flags, values.first, output_write),
                )
            },
            SpawnPhase::Console { flags, output_read, output_write, input_read, input_write } =>
            going_on(
                self,
                SpawnPhase::AttributeList {
                    conpty: ConPtySpawnState {
                        output_read,
                        input_write,
                        hpcon: values.first,
                        flags,
                    },
                    breakaway: false,
                },
                seq![
                    CleanupCall::CloseHandle(input_read),
                    CleanupCall::CloseHandle(output_write),
                ],
                SystemCall::InitializeAttributeList,
            ),
            SpawnPhase::AttributeList { conpty, breakaway } => going_on(
                self,
                SpawnPhase::Attribute { conpty, breakaway },
                Seq::empty(),
                SystemCall::SetPseudoConsoleAttribute { hpcon: conpty.hpcon },
            ),
            SpawnPhase::Attribute { conpty, breakaway } => going_on(
                self,
                SpawnPhase::Job { conpty, breakaway },
                Seq::empty(),
                SystemCall::CreateJob,
            ),
            SpawnPhase::Job { conpty, breakaway } => going_on(
                self,
                SpawnPhase::JobLimit { conpty, breakaway, job: values.first },
                Seq::empty(),
                SystemCall::KillOnJobClose { job: values.first },
            ),
            SpawnPhase::JobLimit { conpty, breakaway, job } => going_on(
                self,
                SpawnPhase::Process { conpty, breakaway, job },
                Seq::empty(),
                SystemCall::CreateProcess {
                    creation_flags: crate::conpty::creation_flags(breakaway),
                },
            ),
            SpawnPhase::Process { conpty, breakaway, job } => going_on(
                self,
                SpawnPhase::Assignment {
                    conpty,
                    breakaway,
                    job,
                    process: values.first,
                    thread: values.second,
                    child_pid: values.id,
                },
                seq![CleanupCall::DeleteAttributeList],
                SystemCall::AssignProcessToJob { job, process: values.first },
            ),
            SpawnPhase::Assignment { conpty, breakaway, job, process, thread, child_pid } =>
            going_on(
                self,
                SpawnPhase::Resumption { conpty, breakaway, job, process, thread, child_pid },
                Seq::empty(),
                SystemCall::ResumeThread { thread },
            ),
            SpawnPhase::Resumption { conpty, breakaway, job, process, thread, child_pid } => (
                TerminalSpawn { phase: SpawnPhase::Over, ..self },
                StepValue {
                    cleanup: seq![CleanupCall::CloseHandle(thread)],
                    next: NextCall::Spawned(SpawnedProcess { conpty, process, child_pid, job }),
                },
            ),
            SpawnPhase::Over => ending(self, Seq::empty(), SpawnFailure::AlreadyOver),
        }
    }

    /// What follows where the awaited call failed.
    pub open spec fn after_failure<E>(self, error: CallError<E>) -> (Self, StepValue<E>) {
        match self.phase {
            SpawnPhase::OutputPipe { .. } => ending(
                self,
                Seq::empty(),
                SpawnFailure::Call(error),
            ),
            SpawnPhase::InputPipe { output_read, output_write, .. } => ending(
                self,
                seq![
                    CleanupCall::CloseHandle(output_read),
                    CleanupCall::CloseHandle(output_write),
                ],
                SpawnFailure::Call(error),
            ),
            SpawnPhase::Console { flags, output_read, output_write, input_read, input_write } =>
            match crate::conpty::flags_after_refusal(flags) {
                Some(flags) => going_on(
                    self,
                    SpawnPhase::Console {
                        flags,
                        output_read,
                        output_write,
                        input_read,
                        input_write,
                    },
                    Seq::empty(),
                    console_call(flags, input_read, output_write),
                ),
                None => ending(
                    self,
                    seq![
                        CleanupCall::CloseHandle(output_read),
                        CleanupCall::CloseHandle(output_write),
                        CleanupCall::CloseHandle(input_read),
                        CleanupCall::CloseHandle(input_write),
                    ],
                    SpawnFailure::Call(error),
                ),
            },
            SpawnPhase::AttributeList { conpty, breakaway } => attempt_failed(
                self,
                conpty,
                breakaway,
                Seq::empty(),
                error,
            ),
            SpawnPhase::Attribute { conpty, breakaway } => attempt_failed(
                self,
                conpty,
                breakaway,
                seq![CleanupCall::DeleteAttributeList],
                error,
            ),
            SpawnPhase::Job { conpty, breakaway } => attempt_failed(
                self,
                conpty,
                breakaway,
                Seq::empty(),
                error,
            ),
            SpawnPhase::JobLimit { conpty, breakaway, job } => attempt_failed(
                self,
                conpty,
                breakaway,
                seq![CleanupCall::CloseHandle(job)],
                error,
            ),
            SpawnPhase::Process { conpty, breakaway, job } => attempt_failed(
                self,
                conpty,
                breakaway,
                seq![CleanupCall::DeleteAttributeList, CleanupCall::CloseHandle(job)],
                error,
            ),
            SpawnPhase::Assignment { conpty, breakaway, job, process, thread, .. } =>
            attempt_failed(
                self,
                conpty,
                breakaway,
                seq![
                    CleanupCall::TerminateProcess(process),
                    CleanupCall::CloseHandle(thread),
                    CleanupCall::CloseHandle(process),
                    CleanupCall::CloseHandle(job),
                ],
                error,
            ),
            SpawnPhase::Resumption { conpty, breakaway, job, process, thread, .. } =>
            attempt_failed(
                self,
                conpty,
                breakaway,
                seq![
                    CleanupCall::TerminateJob(job),
                    CleanupCall::CloseHandle(thread),
                    CleanupCall::CloseHandle(process),
                    CleanupCall::CloseHandle(job),
                ],
                error,
            ),
            SpawnPhase::Over => ending(self, Seq::empty(), SpawnFailure::AlreadyOver),
        }
    }
}

impl ConPtySpawnState {
    /// Appends what closes the pseudo console and its pipes.
    pub fn close(self, cleanup: &mut Vec<CleanupCall>)
        ensures
            final(cleanup)@ == old(cleanup)@ + closing_conpty(self),
    {
        cleanup.push(CleanupCall::ClosePseudoConsole(self.hpcon));
        cleanup.push(CleanupCall::CloseHandle(self.input_write));
        cleanup.push(CleanupCall::CloseHandle(self.output_read));
        assert(cleanup@ =~= old(cleanup)@ + closing_conpty(self));
    }
}

impl TerminalSpawn {
    /// Begins to start a process on a pseudo console with `flags`, and says which
    /// call is made first.
    pub fn start(flags: ConPtyFlags) -> (started: (Self, SystemCall))
        ensures
            started.0 == Self::started(flags),
            started.1 == (SystemCall::CreatePipe { size: CONPTY_PIPE_SIZE }),
    {
        (
            TerminalSpawn { phase: SpawnPhase::OutputPipe { flags }, recreated: false },
            SystemCall::CreatePipe { size: CONPTY_PIPE_SIZE },
        )
    }

    /// Takes the outcome of the call that was made, and says what to clean up and
    /// what comes next.
    pub fn advance<E>(&mut self, outcome: Result<CallValues, CallError<E>>) -> (step: SpawnStep<E>)
        ensures
            (*final(self), step@) == match outcome {
                Ok(values) => old(self).after_success::<E>(values),
                Err(error) => old(self).after_failure(error),
            },
    {
        match outcome {
            Ok(values) => self.call_succeeded(values),
            Err(error) => self.call_failed(error),
        }
    }

    fn go_on<E>(&mut self, phase: SpawnPhase, cleanup: Vec<CleanupCall>, call: SystemCall) -> (step:
        SpawnStep<E>)
        ensures
            (*final(self), step@) == going_on::<E>(*old(self), phase, cleanup@, call),
    {
        self.phase = phase;
        SpawnStep { cleanup, next: NextCall::Call(call) }
    }

    fn end<E>(&mut self, cleanup: Vec<CleanupCall>, failure: SpawnFailure<E>) -> (step: SpawnStep<
        E,
    >)
        ensures
            (*final(self), step@) == ending(*old(self), cleanup@, failure),
    {
        self.phase = SpawnPhase::Over;
        SpawnStep { cleanup, next: NextCall::Failed(failure) }
    }

    fn fail_attempt<E>(
        &mut self,
        conpty: ConPtySpawnState,
        breakaway: bool,
        cleanup: Vec<CleanupCall>,
        error: CallError<E>,
    ) -> (step: SpawnStep<E>)
        ensures
            (*final(self), step@) == attempt_failed(
                *old(self),
                conpty,
                breakaway,
                cleanup@,
                error,
            ),
    {
        if !breakaway {
            return self.go_on(
                SpawnPhase::AttributeList { conpty, breakaway: true },
                cleanup,
                SystemCall::InitializeAttributeList,
            );
        }
        let mut cleanup = cleanup;
        conpty.close(&mut cleanup);
        if !self.recreated && should_recreate_without_passthrough(conpty.flags, error.code) {
            self.recreated = true;
            self.phase = SpawnPhase::OutputPipe { flags: conpty_flags_without_passthrough() };
            SpawnStep {
                cleanup,
                next: NextCall::Call(SystemCall::CreatePipe { size: CONPTY_PIPE_SIZE }),
            }
        } else {
            self.end(cleanup, SpawnFailure::Call(error))
        }
    }

    fn call_succeeded<E>(&mut self, values: CallValues) -> (step: SpawnStep<E>)
        ensures
            (*final(self), step@) == old(self).after_success::<E>(values),
    {
        match self.phase {
            SpawnPhase::OutputPipe { flags } => self.go_on(
                SpawnPhase::InputPipe {
                    flags,
                    output_read: values.first,
                    output_write: values.second,
                },
                Vec::new(),
                SystemCall::CreatePipe { size: CONPTY_PIPE_SIZE },
            ),
            SpawnPhase::InputPipe { flags, output_read, output_write } => {
                let invalid: isize = crate::win32::invalid_handle_value();
                if values.first == invalid || values.second == invalid {
                    self.end(
                        vec![
                            CleanupCall::CloseHandle(output_read),
                            CleanupCall::CloseHandle(output_write),
                        ],
                        SpawnFailure::InvalidPipe,
                    )
                } else {
                    self.go_on(
                        SpawnPhase::Console {
                            flags,
                            output_read,
                            output_write,
                            input_read: values.first,
                            input_write: values.second,
                        },
                        Vec::new(),
                        SystemCall::CreatePseudoConsole {
                            cols: INITIAL_COLS,
                            rows: INITIAL_ROWS,
                            input_read: values.first,
                            output_write,
                            flags,
                        },
                    )
                }
            },
            SpawnPhase::Console { flags, output_read, output_write, input_read, input_write } =>
            self.go_on(
                SpawnPhase::AttributeList {
                    conpty: ConPtySpawnState {
                        output_read,
                        input_write,
                        hpcon: values.first,
                        flags,
                    },
                    breakaway: false,
                },
                vec![
                    CleanupCall::CloseHandle(input_read),
                    CleanupCall::CloseHandle(output_write),
                ],
                SystemCall::InitializeAttributeList,
            ),
            SpawnPhase::AttributeList { conpty, breakaway } => self.go_on(
                SpawnPhase::Attribute { conpty, breakaway },
                Vec::new(),
                SystemCall::SetPseudoConsoleAttribute { hpcon: conpty.hpcon },
            ),
            SpawnPhase::Attribute { conpty, breakaway } => self.go_on(
                SpawnPhase::Job { conpty, breakaway },
                Vec::new(),
                SystemCall::CreateJob,
            ),
            SpawnPhase::Job { conpty, breakaway } => self.go_on(
                SpawnPhase::JobLimit { conpty, breakaway, job: values.first },
                Vec::new(),
                SystemCall::KillOnJobClose { job: values.first },
            ),
            SpawnPhase::JobLimit { conpty, breakaway, job } => self.go_on(
                SpawnPhase::Process { conpty, breakaway, job },
                Vec::new(),
                SystemCall::CreateProcess {
                    creation_flags: child_process_creation_flags(breakaway),
                },
            ),
            SpawnPhase::Process { conpty, breakaway, job } => self.go_on(
                SpawnPhase::Assignment {
                    conpty,
                    breakaway,
                    job,
                    process: values.first,
                    thread: values.second,
                    child_pid: values.id,
                },
                vec![CleanupCall::DeleteAttributeList],
                SystemCall::AssignProcessToJob { job, process: values.first },
            ),
            SpawnPhase::Assignment { conpty, breakaway, job, process, thread, child_pid } =>
            self.go_on(
                SpawnPhase::Resumption { conpty, breakaway, job, process, thread, child_pid },
                Vec::new(),
                SystemCall::ResumeThread { thread },
            ),
            SpawnPhase::Resumption { conpty, job, process, thread, child_pid, .. } => {
                self.phase = SpawnPhase::Over;
                SpawnStep {
                    cleanup: vec![CleanupCall::CloseHandle(thread)],
                    next: NextCall::Spawned(SpawnedProcess { conpty, process, child_pid, job }),
                }
            },
            SpawnPhase::Over => self.end(Vec::new(), SpawnFailure::AlreadyOver),
        }
    }

    fn call_failed<E>(&mut self, error: CallError<E>) -> (step: SpawnStep<E>)
        ensures
            (*final(self), step@) == old(self).after_failure(error),
    {
        match self.phase {
            SpawnPhase::OutputPipe { .. } => self.end(Vec::new(), SpawnFailure::Call(error)),
            SpawnPhase::InputPipe { output_read, output_write, .. } => self.end(
                vec![
                    CleanupCall::CloseHandle(output_read),
                    CleanupCall::CloseHandle(output_write),
                ],
                SpawnFailure::Call(error),
            ),
            SpawnPhase::Console { flags, output_read, output_write, input_read, input_write } => {
                match fallback_conpty_flags(flags) {
                    Some(flags) => self.go_on(
                        SpawnPhase::Console {
                            flags,
                            output_read,
                            output_write,
                            input_read,
                            input_write,
                        },
                        Vec::new(),
                        SystemCall::CreatePseudoConsole {
                            cols: INITIAL_COLS,
                            rows: INITIAL_ROWS,
                            input_read,
                            output_write,
                            flags,
                        },
                    ),
                    None => self.end(
                        vec![
                            CleanupCall::CloseHandle(output_read),
                            CleanupCall::CloseHandle(output_write),
                            CleanupCall::CloseHandle(input_read),
                            CleanupCall::CloseHandle(input_write),
                        ],
                        SpawnFailure::Call(error),
                    ),
                }
            },
            SpawnPhase::AttributeList { conpty, breakaway } => self.fail_attempt(
                conpty,
                breakaway,
                Vec::new(),
                error,
            ),
            SpawnPhase::Attribute { conpty, breakaway } => self.fail_attempt(
                conpty,
                breakaway,
                vec![CleanupCall::DeleteAttributeList],
                error,
            ),
            SpawnPhase::Job { conpty, breakaway } => self.fail_attempt(
                conpty,
                breakaway,
                Vec::new(),
                error,
            ),
            SpawnPhase::JobLimit { conpty, breakaway, job } => self.fail_attempt(
                conpty,
                breakaway,
                vec![CleanupCall::CloseHandle(job)],
                error,
            ),
            SpawnPhase::Process { conpty, breakaway, job } => self.fail_attempt(
                conpty,
                breakaway,
                vec![CleanupCall::DeleteAttributeList, CleanupCall::CloseHandle(job)],
                error,
            ),
            SpawnPhase::Assignment { conpty, breakaway, job, process, thread, .. } =>
            self.fail_attempt(
                conpty,
                breakaway,
                vec![
                    CleanupCall::TerminateProcess(process),
                    CleanupCall::CloseHandle(thread),
                    CleanupCall::CloseHandle(process),
                    CleanupCall::CloseHandle(job),
                ],
                error,
            ),
            SpawnPhase::Resumption { conpty, breakaway, job, process, thread, .. } =>
            self.fail_attempt(
                conpty,
                breakaway,
                vec![
                    CleanupCall::TerminateJob(job),
                    CleanupCall::CloseHandle(thread),
                    CleanupCall::CloseHandle(process),
                    CleanupCall::CloseHandle(job),
                ],
                error,
            ),
            SpawnPhase::Over => self.end(Vec::new(), SpawnFailure::AlreadyOver),
        }
    }
}

/// Something that has to be closed.
pub enum Resource {
    Handle(isize),
    Console(isize),
}

/// One if the two are the same, otherwise zero.
pub open spec fn one_if_same(first: Resource, second: Resource) -> nat {
    if first == second {
        1
    } else {
        0
    }
}

/// How often `resource` is among the two ends of a pipe, or two other handles.
pub open spec fn among_handles(resource: Resource, first: isize, second: isize) -> nat {
    one_if_same(resource, Resource::Handle(first)) + one_if_same(resource, Resource::Handle(second))
}

/// How often `resource` is among what a pseudo console holds open.
pub open spec fn among_conpty(resource: Resource, conpty: ConPtySpawnState) -> nat {
    one_if_same(resource, Resource::Console(conpty.hpcon)) + among_handles(
        resource,
        conpty.input_write,
        conpty.output_read,
    )
}

/// How often `resource` is among what `calls` close.
pub open spec fn closed_by(calls: Seq<CleanupCall>, resource: Resource) -> nat
    decreases calls.len(),
{
    if calls.len() == 0 {
        0
    } else {
        closed_by(calls.drop_last(), resource) + closed_by_one(calls.last(), resource)
    }
}

/// One if `call` closes `resource`, otherwise zero.
pub open spec fn closed_by_one(call: CleanupCall, resource: Resource) -> nat {
    match call {
        CleanupCall::CloseHandle(handle) => one_if_same(resource, Resource::Handle(handle)),
        CleanupCall::ClosePseudoConsole(hpcon) => one_if_same(resource, Resource::Console(hpcon)),
        _ => 0,
    }
}

/// How often `resource` is among what the new process and its pseudo console keep
/// open, where there is one.
pub open spec fn kept_by<E>(next: NextCall<E>, resource: Resource) -> nat {
    match next {
        NextCall::Spawned(spawned) => among_conpty(resource, spawned.conpty) + among_handles(
            resource,
            spawned.process,
            spawned.job,
        ),
        _ => 0,
    }
}

impl TerminalSpawn {
    /// What follows the outcome of the awaited call.
    pub open spec fn after<E>(self, outcome: Result<CallValues, CallError<E>>) -> (
        Self,
        StepValue<E>,
    ) {
        match outcome {
            Ok(values) => self.after_success::<E>(values),
            Err(error) => self.after_failure(error),
        }
    }

    /// How often `resource` is among what is open while a call is awaited.
    pub open spec fn open(self, resource: Resource) -> nat {
        match self.phase {
            SpawnPhase::OutputPipe { .. } => 0,
            SpawnPhase::InputPipe { output_read, output_write, .. } => among_handles(
                resource,
                output_read,
                output_write,
            ),
            SpawnPhase::Console { output_read, output_write, input_read, input_write, .. } =>
            among_handles(resource, output_read, output_write) + among_handles(
                resource,
                input_read,
                input_write,
            ),
            SpawnPhase::AttributeList { conpty, .. } => among_conpty(resource, conpty),
            SpawnPhase::Attribute { conpty, .. } => among_conpty(resource, conpty),
            SpawnPhase::Job { conpty, .. } => among_conpty(resource, conpty),
            SpawnPhase::JobLimit { conpty, job, .. } => among_conpty(resource, conpty)
                + one_if_same(resource, Resource::Handle(job)),
            SpawnPhase::Process { conpty, job, .. } => among_conpty(resource, conpty)
                + one_if_same(resource, Resource::Handle(job)),
            SpawnPhase::Assignment { conpty, job, process, thread, .. } => among_conpty(
                resource,
                conpty,
            ) + one_if_same(resource, Resource::Handle(job)) + among_handles(
                resource,
                process,
                thread,
            ),
            SpawnPhase::Resumption { conpty, job, process, thread, .. } => among_conpty(
                resource,
                conpty,
            ) + one_if_same(resource, Resource::Handle(job)) + among_handles(
                resource,
                process,
                thread,
            ),
            SpawnPhase::Over => 0,
        }
    }

    /// How often `resource` is among what the awaited call opened. A pipe with an
    /// end that is no handle counts as not opened.
    pub open spec fn opened_by<E>(
        self,
        outcome: Result<CallValues, CallError<E>>,
        resource: Resource,
    ) -> nat {
        match outcome {
            Ok(values) => match self.phase {
                SpawnPhase::OutputPipe { .. } => among_handles(
                    resource,
                    values.first,
                    values.second,
                ),
                SpawnPhase::InputPipe { .. } => if values.first == -1 || values.second == -1 {
                    0
                } else {
                    among_handles(resource, values.first, values.second)
                },
                SpawnPhase::Console { .. } => one_if_same(
                    resource,
                    Resource::Console(values.first),
                ),
                SpawnPhase::Job { .. } => one_if_same(resource, Resource::Handle(values.first)),
                SpawnPhase::Process { .. } => among_handles(resource, values.first, values.second),
                _ => 0,
            },
            Err(_) => 0,
        }
    }

    /// The machine after some outcomes.
    pub open spec fn after_all<E>(self, outcomes: Seq<Result<CallValues, CallError<E>>>) -> Self
        decreases outcomes.len(),
    {
        if outcomes.len() == 0 {
            self
        } else {
            self.after_all(outcomes.drop_last()).after(outcomes.last()).0
        }
    }

    /// How often `resource` was opened, closed and kept in the course of some
    /// outcomes.
    pub open spec fn ledger<E>(
        self,
        outcomes: Seq<Result<CallValues, CallError<E>>>,
        resource: Resource,
    ) -> Ledger
        decreases outcomes.len(),
    {
        if outcomes.len() == 0 {
            Ledger { opened: 0, closed: 0, kept: 0 }
        } else {
            let earlier = self.ledger(outcomes.drop_last(), resource);
            let before = self.after_all(outcomes.drop_last());
            let step = before.after(outcomes.last()).1;
            Ledger {
                opened: earlier.opened + before.opened_by(outcomes.last(), resource),
                closed: earlier.closed + closed_by(step.cleanup, resource),
                kept: earlier.kept + kept_by(step.next, resource),
            }
        }
    }

    /// An upper bound of how many outcomes are still awaited.
    pub open spec fn calls_left(self) -> nat {
        let attempts = |breakaway: bool, calls: nat| -> nat
            {
                if breakaway {
                    calls
                } else {
                    calls + 7
                }
            };
        let round: nat = match self.phase {
            SpawnPhase::OutputPipe { .. } => 19,
            SpawnPhase::InputPipe { .. } => 18,
            SpawnPhase::Console { flags, .. } => 14 + flags_left(flags),
            SpawnPhase::AttributeList { breakaway, .. } => attempts(breakaway, 7),
            SpawnPhase::Attribute { breakaway, .. } => attempts(breakaway, 6),
            SpawnPhase::Job { breakaway, .. } => attempts(breakaway, 5),
            SpawnPhase::JobLimit { breakaway, .. } => attempts(breakaway, 4),
            SpawnPhase::Process { breakaway, .. } => attempts(breakaway, 3),
            SpawnPhase::Assignment { breakaway, .. } => attempts(breakaway, 2),
            SpawnPhase::Resumption { breakaway, .. } => attempts(breakaway, 1),
            SpawnPhase::Over => 0,
        };
        if self.phase is Over || self.recreated {
            round
        } else {
            round + 19
        }
    }
}

/// How often something was opened, closed and kept.
pub struct Ledger {
    pub opened: nat,
    pub closed: nat,
    pub kept: nat,
}

/// How many flags are tried from `flags` on.
pub open spec fn flags_left(flags: ConPtyFlags) -> nat {
    if flags.passes_through() {
        3
    } else if flags.0 != 0 {
        2
    } else {
        1
    }
}

proof fn lemma_closed_by_add(first: Seq<CleanupCall>, second: Seq<CleanupCall>, resource: Resource)
    ensures
        closed_by(first + second, resource) == closed_by(first, resource) + closed_by(
            second,
            resource,
        ),
    decreases second.len(),
{
    if second.len() == 0 {
        assert(first + second =~= first);
    } else {
        assert((first + second).drop_last() =~= first + second.drop_last());
        lemma_closed_by_add(first, second.drop_last(), resource);
    }
}

proof fn lemma_closed_by_few(
    a: CleanupCall,
    b: CleanupCall,
    c: CleanupCall,
    d: CleanupCall,
    resource: Resource,
)
    ensures
        closed_by(Seq::empty(), resource) == 0,
        closed_by(seq![a], resource) == closed_by_one(a, resource),
        closed_by(seq![a, b], resource) == closed_by_one(a, resource) + closed_by_one(b, resource),
        closed_by(seq![a, b, c], resource) == closed_by_one(a, resource) + closed_by_one(
            b,
            resource,
        ) + closed_by_one(c, resource),
        closed_by(seq![a, b, c, d], resource) == closed_by_one(a, resource) + closed_by_one(
            b,
            resource,
        ) + closed_by_one(c, resource) + closed_by_one(d, resource),
{
    let one = seq![a];
    let two = seq![a, b];
    let three = seq![a, b, c];
    let four = seq![a, b, c, d];
    assert(one.drop_last() =~= Seq::empty());
    assert(two.drop_last() =~= one);
    assert(three.drop_last() =~= two);
    assert(four.drop_last() =~= three);
    assert(closed_by(one.drop_last(), resource) == 0);
    assert(closed_by(one, resource) == closed_by_one(a, resource));
    assert(closed_by(two, resource) == closed_by(one, resource) + closed_by_one(b, resource));
    assert(closed_by(three, resource) == closed_by(two, resource) + closed_by_one(c, resource));
    assert(closed_by(four, resource) == closed_by(three, resource) + closed_by_one(d, resource));
}

proof fn lemma_closing_conpty(conpty: ConPtySpawnState, resource: Resource)
    ensures
        closed_by(closing_conpty(conpty), resource) == among_conpty(resource, conpty),
{
    let last = CleanupCall::CloseHandle(conpty.output_read);
    lemma_closed_by_few(
        CleanupCall::ClosePseudoConsole(conpty.hpcon),
        CleanupCall::CloseHandle(conpty.input_write),
        last,
        last,
        resource,
    );
}

proof fn lemma_failed_attempt_closes<E>(
    spawn: TerminalSpawn,
    conpty: ConPtySpawnState,
    breakaway: bool,
    cleanup: Seq<CleanupCall>,
    error: CallError<E>,
    resource: Resource,
)
    ensures
        ({
            let (after, step) = attempt_failed(spawn, conpty, breakaway, cleanup, error);
            among_conpty(resource, conpty) + closed_by(cleanup, resource) == after.open(resource)
                + kept_by(step.next, resource) + closed_by(step.cleanup, resource)
        }),
{
    lemma_closed_by_add(cleanup, closing_conpty(conpty), resource);
    lemma_closing_conpty(conpty, resource);
}

proof fn lemma_failure_closes<E>(spawn: TerminalSpawn, error: CallError<E>, resource: Resource)
    ensures
        spawn.open(resource) == spawn.after_failure(error).0.open(resource) + kept_by(
            spawn.after_failure(error).1.next,
            resource,
        ) + closed_by(spawn.after_failure(error).1.cleanup, resource),
{
    let list = CleanupCall::DeleteAttributeList;
    lemma_closed_by_few(list, list, list, list, resource);
    match spawn.phase {
        SpawnPhase::InputPipe { output_read, output_write, .. } => {
            lemma_closed_by_few(
                CleanupCall::CloseHandle(output_read),
                CleanupCall::CloseHandle(output_write),
                list,
                list,
                resource,
            );
        },
        SpawnPhase::Console { output_read, output_write, input_read, input_write, .. } => {
            lemma_closed_by_few(
                CleanupCall::CloseHandle(output_read),
                CleanupCall::CloseHandle(output_write),
                CleanupCall::CloseHandle(input_read),
                CleanupCall::CloseHandle(input_write),
                resource,
            );
        },
        SpawnPhase::AttributeList { conpty, breakaway } => {
            lemma_failed_attempt_closes(spawn, conpty, breakaway, Seq::empty(), error, resource);
        },
        SpawnPhase::Attribute { conpty, breakaway } => {
            lemma_failed_attempt_closes(spawn, conpty, breakaway, seq![list], error, resource);
        },
        SpawnPhase::Job { conpty, breakaway } => {
            lemma_failed_attempt_closes(spawn, conpty, breakaway, Seq::empty(), error, resource);
        },
        SpawnPhase::JobLimit { conpty, breakaway, job } => {
            let close_job = CleanupCall::CloseHandle(job);
            lemma_closed_by_few(close_job, list, list, list, resource);
            lemma_failed_attempt_closes(
                spawn,
                conpty,
                breakaway,
                seq![close_job],
                error,
                resource,
            );
        },
        SpawnPhase::Process { conpty, breakaway, job } => {
            let close_job = CleanupCall::CloseHandle(job);
            lemma_closed_by_few(list, close_job, list, list, resource);
            lemma_failed_attempt_closes(
                spawn,
                conpty,
                breakaway,
                seq![list, close_job],
                error,
                resource,
            );
        },
        SpawnPhase::Assignment { conpty, breakaway, job, process, thread, .. } => {
            let end = CleanupCall::TerminateProcess(process);
            let close_thread = CleanupCall::CloseHandle(thread);
            let close_process = CleanupCall::CloseHandle(process);
            let close_job = CleanupCall::CloseHandle(job);
            lemma_closed_by_few(end, close_thread, close_process, close_job, resource);
            lemma_failed_attempt_closes(
                spawn,
                conpty,
                breakaway,
                seq![end, close_thread, close_process, close_job],
                error,
                resource,
            );
        },
        SpawnPhase::Resumption { conpty, breakaway, job, process, thread, .. } => {
            let end = CleanupCall::TerminateJob(job);
            let close_thread = CleanupCall::CloseHandle(thread);
            let close_process = CleanupCall::CloseHandle(process);
            let close_job = CleanupCall::CloseHandle(job);
            lemma_closed_by_few(end, close_thread, close_process, close_job, resource);
            lemma_failed_attempt_closes(
                spawn,
                conpty,
                breakaway,
                seq![end, close_thread, close_process, close_job],
                error,
                resource,
            );
        },
        _ => {},
    }
}

proof fn lemma_success_opens<E>(spawn: TerminalSpawn, values: CallValues, resource: Resource)
    ensures
        spawn.open(resource) + spawn.opened_by(Ok::<CallValues, CallError<E>>(values), resource)
            == spawn.after_success::<E>(values).0.open(resource) + kept_by(
            spawn.after_success::<E>(values).1.next,
            resource,
        ) + closed_by(spawn.after_success::<E>(values).1.cleanup, resource),
{
    let list = CleanupCall::DeleteAttributeList;
    lemma_closed_by_few(list, list, list, list, resource);
    match spawn.phase {
        SpawnPhase::InputPipe { output_read, output_write, .. } => {
            lemma_closed_by_few(
                CleanupCall::CloseHandle(output_read),
                CleanupCall::CloseHandle(output_write),
                list,
                list,
                resource,
            );
        },
        SpawnPhase::Console { output_write, input_read, .. } => {
            lemma_closed_by_few(
                CleanupCall::CloseHandle(input_read),
                CleanupCall::CloseHandle(output_write),
                list,
                list,
                resource,
            );
        },
        SpawnPhase::Resumption { thread, .. } => {
            lemma_closed_by_few(CleanupCall::CloseHandle(thread), list, list, list, resource);
        },
        _ => {},
    }
}

/// Whatever the calls come to, every handle and every pseudo console that they
/// open is closed once, or kept by the new process, or still open while a call is
/// awaited. So all that was opened is closed where there is no new process in the
/// end.
pub proof fn law_every_handle_is_closed_or_kept<E>(
    flags: ConPtyFlags,
    outcomes: Seq<Result<CallValues, CallError<E>>>,
    resource: Resource,
)
    ensures
        ({
            let started = TerminalSpawn::started(flags);
            let ledger = started.ledger(outcomes, resource);
            let open = started.after_all(outcomes).open(resource);
            ledger.opened == ledger.closed + ledger.kept + open
        }),
    decreases outcomes.len(),
{
    if outcomes.len() > 0 {
        let started = TerminalSpawn::started(flags);
        law_every_handle_is_closed_or_kept(flags, outcomes.drop_last(), resource);
        let before = started.after_all(outcomes.drop_last());
        match outcomes.last() {
            Ok(values) => lemma_success_opens::<E>(before, values, resource),
            Err(error) => lemma_failure_closes(before, error, resource),
        }
    }
}

/// Starting a process ends, one way or the other: every outcome brings it nearer,
/// and it takes no more than 38 calls.
pub proof fn law_spawning_ends<E>(
    spawn: TerminalSpawn,
    outcome: Result<CallValues, CallError<E>>,
    flags: ConPtyFlags,
)
    ensures
        !(spawn.phase is Over) ==> spawn.after(outcome).0.calls_left() < spawn.calls_left(),
        spawn.calls_left() == 0 <==> spawn.phase is Over,
        spawn.after(outcome).0.phase is Over <==> !(spawn.after(outcome).1.next is Call),
        TerminalSpawn::started(flags).calls_left() == 38,
{
    crate::conpty::law_flag_bits();
}

/// A process starts suspended and runs only once it is in its job; where it
/// cannot be put there or cannot run, it is ended before its handles are closed.
pub proof fn law_no_process_runs_outside_its_job<E>(
    spawn: TerminalSpawn,
    outcome: Result<CallValues, CallError<E>>,
    error: CallError<E>,
)
    ensures
        match spawn.after(outcome).1.next {
            NextCall::Call(SystemCall::CreateProcess { creation_flags }) => creation_flags & 0x4
                == 0x4,
            NextCall::Call(SystemCall::ResumeThread { thread }) => spawn.phase matches
                SpawnPhase::Assignment { thread: assigned, .. } && assigned == thread && outcome
                is Ok,
            NextCall::Spawned(spawned) => spawn.phase matches SpawnPhase::Resumption {
                process,
                job,
                child_pid,
                ..
            } && spawned.process == process && spawned.job == job && spawned.child_pid == child_pid
                && outcome is Ok,
            _ => true,
        },
        match spawn.phase {
            SpawnPhase::Assignment { process, .. } => spawn.after_failure(error).1.cleanup[0]
                == CleanupCall::TerminateProcess(process),
            SpawnPhase::Resumption { job, .. } => spawn.after_failure(error).1.cleanup[0]
                == CleanupCall::TerminateJob(job),
            _ => true,
        },
{
    assert(0x0008_0404u32 & 0x4 == 0x4 && 0x0108_0404u32 & 0x4 == 0x4) by (bit_vector);
}

/// A pseudo console is replaced at most once, and only by one that does not pass
/// output through.
pub proof fn law_console_is_replaced_once<E>(
    spawn: TerminalSpawn,
    outcome: Result<CallValues, CallError<E>>,
)
    ensures
        spawn.recreated ==> spawn.after(outcome).0.recreated,
        spawn.after(outcome).0.phase is OutputPipe ==> !spawn.recreated && spawn.after(
            outcome,
        ).0.recreated && spawn.after(outcome).0.phase == (SpawnPhase::OutputPipe {
            flags: crate::conpty::plain_flags(),
        }),
        !crate::conpty::plain_flags().passes_through(),
{
    crate::conpty::law_flag_bits();
}

/// Where every call succeeds, the process that is started has what the calls gave:
/// the outer ends of the two pipes, the pseudo console between their inner ends, and
/// the process, which was created suspended and put into its job before it runs.
pub proof fn law_process_is_started_step_by_step<E>(
    flags: ConPtyFlags,
    recreated: bool,
    output: CallValues,
    input: CallValues,
    console: CallValues,
    done: CallValues,
    job: CallValues,
    process: CallValues,
)
    requires
        input.first != -1,
        input.second != -1,
    ensures
        ({
            let start = TerminalSpawn { phase: SpawnPhase::OutputPipe { flags }, recreated };
            let one = start.after_success::<E>(output);
            let two = one.0.after_success::<E>(input);
            let three = two.0.after_success::<E>(console);
            let four = three.0.after_success::<E>(done);
            let five = four.0.after_success::<E>(done);
            let six = five.0.after_success::<E>(job);
            let seven = six.0.after_success::<E>(done);
            let eight = seven.0.after_success::<E>(process);
            let nine = eight.0.after_success::<E>(done);
            let ten = nine.0.after_success::<E>(done);
            &&& one.1.next == NextCall::<E>::Call(SystemCall::CreatePipe { size: 65536 })
            &&& two.1.next == NextCall::<E>::Call(
                SystemCall::CreatePseudoConsole {
                    cols: 80,
                    rows: 24,
                    input_read: input.first,
                    output_write: output.second,
                    flags,
                },
            )
            &&& three.1.next == NextCall::<E>::Call(SystemCall::InitializeAttributeList)
            &&& three.1.cleanup == seq![
                CleanupCall::CloseHandle(input.first),
                CleanupCall::CloseHandle(output.second),
            ]
            &&& four.1.next == NextCall::<E>::Call(
                SystemCall::SetPseudoConsoleAttribute { hpcon: console.first },
            )
            &&& five.1.next == NextCall::<E>::Call(SystemCall::CreateJob)
            &&& six.1.next == NextCall::<E>::Call(SystemCall::KillOnJobClose { job: job.first })
            &&& seven.1.next == NextCall::<E>::Call(
                SystemCall::CreateProcess { creation_flags: 0x8_0404 },
            )
            &&& eight.1.next == NextCall::<E>::Call(
                SystemCall::AssignProcessToJob { job: job.first, process: process.first },
            )
            &&& eight.1.cleanup == seq![CleanupCall::DeleteAttributeList]
            &&& nine.1.next == NextCall::<E>::Call(
                SystemCall::ResumeThread { thread: process.second },
            )
            &&& ten.1.next == NextCall::<E>::Spawned(
                SpawnedProcess {
                    conpty: ConPtySpawnState {
                        output_read: output.first,
                        input_write: input.second,
                        hpcon: console.first,
                        flags,
                    },
                    process: process.first,
                    child_pid: process.id,
                    job: job.first,
                },
            )
            &&& ten.1.cleanup == seq![CleanupCall::CloseHandle(process.second)]
            &&& ten.0.phase is Over
            &&& ten.0.recreated == recreated
            &&& one.1.cleanup.len() == 0 && two.1.cleanup.len() == 0 && four.1.cleanup.len() == 0
            &&& five.1.cleanup.len() == 0 && six.1.cleanup.len() == 0
            &&& seven.1.cleanup.len() == 0 && nine.1.cleanup.len() == 0
        }),
{
}

/// An attempt to start a process: the pseudo console that it is started on, and
/// whether it is kept out of its parent's job.
pub struct Attempt {
    pub conpty: ConPtySpawnState,
    pub breakaway: bool,
}

/// The attempt that is under way, if any.
pub open spec fn attempt(phase: SpawnPhase) -> Option<Attempt> {
    match phase {
        SpawnPhase::AttributeList { conpty, breakaway } => Some(Attempt { conpty, breakaway }),
        SpawnPhase::Attribute { conpty, breakaway } => Some(Attempt { conpty, breakaway }),
        SpawnPhase::Job { conpty, breakaway } => Some(Attempt { conpty, breakaway }),
        SpawnPhase::JobLimit { conpty, breakaway, .. } => Some(Attempt { conpty, breakaway }),
        SpawnPhase::Process { conpty, breakaway, .. } => Some(Attempt { conpty, breakaway }),
        SpawnPhase::Assignment { conpty, breakaway, .. } => Some(Attempt { conpty, breakaway }),
        SpawnPhase::Resumption { conpty, breakaway, .. } => Some(Attempt { conpty, breakaway }),
        _ => None,
    }
}

/// What an attempt cleans up when it fails: the list of attributes, the thread and
/// the process, which is ended first, and the job, as far as there are any by then.
pub open spec fn undoing(phase: SpawnPhase) -> Seq<CleanupCall> {
    match phase {
        SpawnPhase::Attribute { .. } => seq![CleanupCall::DeleteAttributeList],
        SpawnPhase::JobLimit { job, .. } => seq![CleanupCall::CloseHandle(job)],
        SpawnPhase::Process { job, .. } => seq![
            CleanupCall::DeleteAttributeList,
            CleanupCall::CloseHandle(job),
        ],
        SpawnPhase::Assignment { job, process, thread, .. } => seq![
            CleanupCall::TerminateProcess(process),
            CleanupCall::CloseHandle(thread),
            CleanupCall::CloseHandle(process),
            CleanupCall::CloseHandle(job),
        ],
        SpawnPhase::Resumption { job, process, thread, .. } => seq![
            CleanupCall::TerminateJob(job),
            CleanupCall::CloseHandle(thread),
            CleanupCall::CloseHandle(process),
            CleanupCall::CloseHandle(job),
        ],
        _ => Seq::empty(),
    }
}

/// A first attempt that fails, wherever it does, is repeated on the same pseudo
/// console with a process that is kept out of its parent's job; what it opened is
/// cleaned up, but the pseudo console is kept.
pub proof fn law_first_attempt_is_repeated<E>(spawn: TerminalSpawn, error: CallError<E>)
    requires
        attempt(spawn.phase) is Some,
        !attempt(spawn.phase)->0.breakaway,
    ensures
        ({
            let (after, step) = spawn.after_failure(error);
            &&& step.next == NextCall::<E>::Call(SystemCall::InitializeAttributeList)
            &&& step.cleanup == undoing(spawn.phase)
            &&& attempt(after.phase) == Some(
                Attempt { conpty: attempt(spawn.phase)->0.conpty, breakaway: true },
            )
            &&& after.recreated == spawn.recreated
        }),
{
}

/// A second attempt that fails closes the pseudo console and its pipes too. All
/// begins anew without passing output through where it was passed through and a
/// parameter was not accepted, unless that was tried already; otherwise the error is
/// what all comes to.
pub proof fn law_second_attempt_gives_the_console_up<E>(spawn: TerminalSpawn, error: CallError<E>)
    requires
        attempt(spawn.phase) is Some,
        attempt(spawn.phase)->0.breakaway,
    ensures
        ({
            let (after, step) = spawn.after_failure(error);
            let conpty = attempt(spawn.phase)->0.conpty;
            let again = !spawn.recreated && (conpty.flags.0 / 8) % 2 == 1 && error.code == Some(
                87i32,
            );
            &&& step.cleanup == undoing(spawn.phase) + seq![
                CleanupCall::ClosePseudoConsole(conpty.hpcon),
                CleanupCall::CloseHandle(conpty.input_write),
                CleanupCall::CloseHandle(conpty.output_read),
            ]
            &&& again ==> {
                &&& step.next == NextCall::<E>::Call(SystemCall::CreatePipe { size: 65536 })
                &&& after.phase == SpawnPhase::OutputPipe { flags: ConPtyFlags(6) }
                &&& after.recreated
            }
            &&& !again ==> {
                &&& step.next == NextCall::<E>::Failed(SpawnFailure::Call(error))
                &&& after.phase is Over
            }
        }),
{
    let conpty = attempt(spawn.phase)->0.conpty;
    crate::conpty::law_flags_hold_their_bits(conpty.flags, conpty.flags);
}

/// The process of a second attempt is created outside its parent's job, that of a
/// first one inside it.
pub proof fn law_only_the_second_attempt_breaks_away<E>(
    spawn: TerminalSpawn,
    values: CallValues,
)
    requires
        spawn.phase is JobLimit,
    ensures
        spawn.after_success::<E>(values).1.next == NextCall::<E>::Call(
            SystemCall::CreateProcess {
                creation_flags: if attempt(spawn.phase)->0.breakaway {
                    0x108_0404
                } else {
                    0x8_0404
                },
            },
        ),
        attempt(spawn.after_success::<E>(values).0.phase) == attempt(spawn.phase),
{
}

/// Where pipes or the pseudo console cannot be had, what was opened for them is
/// closed. A pseudo console that is refused is asked for again between the same
/// ends with fewer flags, as long as there are any.
pub proof fn law_console_is_asked_for_with_fewer_flags<E>(
    recreated: bool,
    flags: ConPtyFlags,
    output: CallValues,
    input: CallValues,
    error: CallError<E>,
)
    ensures
        ({
            let phase = SpawnPhase::Console {
                flags,
                output_read: output.first,
                output_write: output.second,
                input_read: input.first,
                input_write: input.second,
            };
            let (after, step) = TerminalSpawn { phase, recreated }.after_failure(error);
            let fewer = if (flags.0 / 8) % 2 == 1 {
                ConPtyFlags(6)
            } else {
                ConPtyFlags(0)
            };
            &&& after.recreated == recreated
            &&& flags.0 != 0 ==> {
                &&& step.cleanup.len() == 0
                &&& step.next == NextCall::<E>::Call(
                    SystemCall::CreatePseudoConsole {
                        cols: 80,
                        rows: 24,
                        input_read: input.first,
                        output_write: output.second,
                        flags: fewer,
                    },
                )
                &&& after.phase == SpawnPhase::Console {
                    flags: fewer,
                    output_read: output.first,
                    output_write: output.second,
                    input_read: input.first,
                    input_write: input.second,
                }
            }
            &&& flags.0 == 0 ==> {
                &&& step.next == NextCall::<E>::Failed(SpawnFailure::Call(error))
                &&& after.phase is Over
                &&& step.cleanup == seq![
                    CleanupCall::CloseHandle(output.first),
                    CleanupCall::CloseHandle(output.second),
                    CleanupCall::CloseHandle(input.first),
                    CleanupCall::CloseHandle(input.second),
                ]
            }
        }),
{
    crate::conpty::law_flags_hold_their_bits(flags, flags);
    crate::conpty::law_refused_flags_are_given_up(flags);
}

/// A pipe that cannot be had, or that has an end which is no handle, ends all: with
/// the error, or with the word that the pipe is invalid.
pub proof fn law_missing_pipe_ends_all<E>(
    recreated: bool,
    flags: ConPtyFlags,
    output: CallValues,
    input: CallValues,
    error: CallError<E>,
)
    ensures
        ({
            let first = TerminalSpawn { phase: SpawnPhase::OutputPipe { flags }, recreated };
            let second = first.after_success::<E>(output).0;
            let closing = seq![
                CleanupCall::CloseHandle(output.first),
                CleanupCall::CloseHandle(output.second),
            ];
            &&& first.after_failure(error).1 == StepValue {
                cleanup: Seq::empty(),
                next: NextCall::<E>::Failed(SpawnFailure::Call(error)),
            }
            &&& first.after_failure(error).0.phase is Over
            &&& second.after_failure(error).1 == StepValue {
                cleanup: closing,
                next: NextCall::<E>::Failed(SpawnFailure::Call(error)),
            }
            &&& second.after_failure(error).0.phase is Over
            &&& input.first == -1 || input.second == -1 ==> {
                &&& second.after_success::<E>(input).1 == StepValue {
                    cleanup: closing,
                    next: NextCall::<E>::Failed(SpawnFailure::InvalidPipe),
                }
                &&& second.after_success::<E>(input).0.phase is Over
            }
        }),
{
}

} // verus!
