use zellij_windows::conpty::ConPtyFlags;
use zellij_windows::spawn::{
    CallError, CallValues, CleanupCall, NextCall, SpawnFailure, SpawnStep, SystemCall,
    TerminalSpawn,
};

fn values(first: isize, second: isize, id: u32) -> Result<CallValues, CallError<&'static str>> {
    Ok(CallValues { first, second, id })
}

fn failed(code: i32) -> Result<CallValues, CallError<&'static str>> {
    Err(CallError {
        code: Some(code),
        error: "failed",
    })
}

fn call(step: &SpawnStep<&'static str>) -> SystemCall {
    match step.next {
        NextCall::Call(call) => call,
        _ => panic!("a call was to come next"),
    }
}

fn failure(step: &SpawnStep<&'static str>) -> SpawnFailure<&'static str> {
    match step.next {
        NextCall::Failed(failure) => failure,
        _ => panic!("it was to fail"),
    }
}

/// The machine with a pseudo console (handle 30, input 22, output 11).
fn with_console(flags: ConPtyFlags) -> TerminalSpawn {
    let (mut spawn, first) = TerminalSpawn::start(flags);
    assert_eq!(first, SystemCall::CreatePipe { size: 65536 });
    let step = spawn.advance(values(11, 12, 0));
    assert_eq!(call(&step), SystemCall::CreatePipe { size: 65536 });
    assert!(step.cleanup.is_empty());
    let step = spawn.advance(values(21, 22, 0));
    assert_eq!(
        call(&step),
        SystemCall::CreatePseudoConsole {
            cols: 80,
            rows: 24,
            input_read: 21,
            output_write: 12,
            flags,
        }
    );
    let step = spawn.advance(values(30, 0, 0));
    assert_eq!(
        step.cleanup,
        vec![CleanupCall::CloseHandle(21), CleanupCall::CloseHandle(12)]
    );
    assert_eq!(call(&step), SystemCall::InitializeAttributeList);
    spawn
}

/// Takes an attempt to the point where the process (41, thread 42) exists.
fn with_process(spawn: &mut TerminalSpawn, creation_flags: u32) {
    let step = spawn.advance(values(0, 0, 0));
    assert_eq!(
        call(&step),
        SystemCall::SetPseudoConsoleAttribute { hpcon: 30 }
    );
    let step = spawn.advance(values(0, 0, 0));
    assert_eq!(call(&step), SystemCall::CreateJob);
    let step = spawn.advance(values(40, 0, 0));
    assert_eq!(call(&step), SystemCall::KillOnJobClose { job: 40 });
    let step = spawn.advance(values(0, 0, 0));
    assert_eq!(call(&step), SystemCall::CreateProcess { creation_flags });
    let step = spawn.advance(values(41, 42, 777));
    assert_eq!(step.cleanup, vec![CleanupCall::DeleteAttributeList]);
    assert_eq!(
        call(&step),
        SystemCall::AssignProcessToJob {
            job: 40,
            process: 41
        }
    );
}

#[test]
fn process_is_started_in_its_job() {
    let mut spawn = with_console(ConPtyFlags(14));
    with_process(&mut spawn, 0x0008_0404);
    let step = spawn.advance(values(0, 0, 0));
    assert_eq!(call(&step), SystemCall::ResumeThread { thread: 42 });
    let step = spawn.advance(values(0, 0, 1));
    assert_eq!(step.cleanup, vec![CleanupCall::CloseHandle(42)]);
    match step.next {
        NextCall::Spawned(spawned) => {
            assert_eq!(spawned.process, 41);
            assert_eq!(spawned.child_pid, 777);
            assert_eq!(spawned.job, 40);
            assert_eq!(spawned.conpty.hpcon, 30);
            assert_eq!(spawned.conpty.input_write, 22);
            assert_eq!(spawned.conpty.output_read, 11);
            assert_eq!(spawned.conpty.flags, ConPtyFlags(14));
        }
        _ => panic!("the process was to be there"),
    }
    let step = spawn.advance(values(0, 0, 0));
    assert_eq!(failure(&step), SpawnFailure::AlreadyOver);
}

#[test]
fn failed_pipes_are_cleaned_up() {
    let (mut spawn, _) = TerminalSpawn::start(ConPtyFlags(14));
    let step = spawn.advance(failed(5));
    assert!(step.cleanup.is_empty());
    assert_eq!(
        failure(&step),
        SpawnFailure::Call(CallError {
            code: Some(5),
            error: "failed"
        })
    );

    let (mut spawn, _) = TerminalSpawn::start(ConPtyFlags(14));
    spawn.advance(values(11, 12, 0));
    let step = spawn.advance(failed(5));
    assert_eq!(
        step.cleanup,
        vec![CleanupCall::CloseHandle(11), CleanupCall::CloseHandle(12)]
    );

    let (mut spawn, _) = TerminalSpawn::start(ConPtyFlags(14));
    spawn.advance(values(11, 12, 0));
    let step = spawn.advance(values(21, -1, 0));
    assert_eq!(
        step.cleanup,
        vec![CleanupCall::CloseHandle(11), CleanupCall::CloseHandle(12)]
    );
    assert_eq!(failure(&step), SpawnFailure::InvalidPipe);
}

#[test]
fn refused_flags_fall_back_to_none_and_then_fail() {
    let (mut spawn, _) = TerminalSpawn::start(ConPtyFlags(14));
    spawn.advance(values(11, 12, 0));
    spawn.advance(values(21, 22, 0));
    for expected in [6, 0] {
        let step = spawn.advance(failed(87));
        assert!(matches!(
            call(&step),
            SystemCall::CreatePseudoConsole { flags, .. } if flags == ConPtyFlags(expected)
        ));
    }
    let step = spawn.advance(failed(87));
    assert_eq!(
        step.cleanup,
        vec![
            CleanupCall::CloseHandle(11),
            CleanupCall::CloseHandle(12),
            CleanupCall::CloseHandle(21),
            CleanupCall::CloseHandle(22),
        ]
    );
    assert!(matches!(failure(&step), SpawnFailure::Call(_)));
}

#[test]
fn unassigned_process_is_ended_and_retried_out_of_the_job() {
    let mut spawn = with_console(ConPtyFlags(6));
    with_process(&mut spawn, 0x0008_0404);
    let step = spawn.advance(failed(5));
    assert_eq!(
        step.cleanup,
        vec![
            CleanupCall::TerminateProcess(41),
            CleanupCall::CloseHandle(42),
            CleanupCall::CloseHandle(41),
            CleanupCall::CloseHandle(40),
        ]
    );
    assert_eq!(call(&step), SystemCall::InitializeAttributeList);
    with_process(&mut spawn, 0x0108_0404);
    spawn.advance(values(0, 0, 0));
    let step = spawn.advance(failed(6));
    assert_eq!(
        step.cleanup,
        vec![
            CleanupCall::TerminateJob(40),
            CleanupCall::CloseHandle(42),
            CleanupCall::CloseHandle(41),
            CleanupCall::CloseHandle(40),
            CleanupCall::ClosePseudoConsole(30),
            CleanupCall::CloseHandle(22),
            CleanupCall::CloseHandle(11),
        ]
    );
    assert_eq!(
        failure(&step),
        SpawnFailure::Call(CallError {
            code: Some(6),
            error: "failed"
        })
    );
}

#[test]
fn early_failures_of_an_attempt_close_what_it_opened() {
    let mut spawn = with_console(ConPtyFlags(6));
    let step = spawn.advance(failed(1));
    assert!(step.cleanup.is_empty());
    spawn.advance(values(0, 0, 0));
    let step = spawn.advance(failed(1));
    assert_eq!(
        step.cleanup,
        vec![
            CleanupCall::DeleteAttributeList,
            CleanupCall::ClosePseudoConsole(30),
            CleanupCall::CloseHandle(22),
            CleanupCall::CloseHandle(11),
        ]
    );

    let mut spawn = with_console(ConPtyFlags(6));
    spawn.advance(values(0, 0, 0));
    spawn.advance(values(0, 0, 0));
    let step = spawn.advance(failed(1));
    assert!(step.cleanup.is_empty());
    spawn.advance(values(0, 0, 0));
    spawn.advance(values(0, 0, 0));
    spawn.advance(values(40, 0, 0));
    let step = spawn.advance(failed(1));
    assert_eq!(step.cleanup[0], CleanupCall::CloseHandle(40));
    assert_eq!(step.cleanup.len(), 4);

    let mut spawn = with_console(ConPtyFlags(6));
    spawn.advance(values(0, 0, 0));
    spawn.advance(values(0, 0, 0));
    spawn.advance(values(40, 0, 0));
    spawn.advance(values(0, 0, 0));
    let step = spawn.advance(failed(1));
    assert_eq!(
        step.cleanup,
        vec![
            CleanupCall::DeleteAttributeList,
            CleanupCall::CloseHandle(40)
        ]
    );
}

#[test]
fn refused_parameter_replaces_the_console_once() {
    let mut spawn = with_console(ConPtyFlags(14));
    spawn.advance(failed(5));
    let step = spawn.advance(failed(87));
    assert_eq!(
        step.cleanup,
        vec![
            CleanupCall::ClosePseudoConsole(30),
            CleanupCall::CloseHandle(22),
            CleanupCall::CloseHandle(11),
        ]
    );
    assert_eq!(call(&step), SystemCall::CreatePipe { size: 65536 });
    spawn.advance(values(111, 112, 0));
    let step = spawn.advance(values(121, 122, 0));
    assert!(matches!(
        call(&step),
        SystemCall::CreatePseudoConsole { flags, .. } if flags == ConPtyFlags(6)
    ));
    spawn.advance(values(130, 0, 0));
    spawn.advance(failed(87));
    let step = spawn.advance(failed(87));
    assert_eq!(step.cleanup[0], CleanupCall::ClosePseudoConsole(130));
    assert!(matches!(failure(&step), SpawnFailure::Call(_)));
}

#[test]
fn console_that_passes_output_through_is_kept_at_other_errors() {
    let mut spawn = with_console(ConPtyFlags(14));
    spawn.advance(failed(87));
    let step = spawn.advance(failed(5));
    assert!(matches!(failure(&step), SpawnFailure::Call(_)));
}

/// Runs the machine with calls that fail where `fails` says so; returns what was
/// opened and what was closed.
fn run(flags: ConPtyFlags, fails: impl Fn(usize) -> bool) -> (Vec<isize>, Vec<isize>, usize) {
    let (mut spawn, mut next) = TerminalSpawn::start(flags);
    let mut opened = Vec::new();
    let mut closed = Vec::new();
    let mut handle = 100;
    let mut calls = 0;
    loop {
        let outcome = if fails(calls) {
            failed(87)
        } else {
            let count = match next {
                SystemCall::CreatePipe { .. } | SystemCall::CreateProcess { .. } => 2,
                SystemCall::CreatePseudoConsole { .. } | SystemCall::CreateJob => 1,
                _ => 0,
            };
            for i in 0..count {
                opened.push(handle + i);
            }
            let outcome = values(handle, handle + 1, 7);
            handle += 2;
            outcome
        };
        calls += 1;
        let step = spawn.advance(outcome);
        for cleanup in &step.cleanup {
            match cleanup {
                CleanupCall::CloseHandle(handle) | CleanupCall::ClosePseudoConsole(handle) => {
                    closed.push(*handle)
                }
                _ => {}
            }
        }
        match step.next {
            NextCall::Call(call) => next = call,
            NextCall::Spawned(spawned) => {
                closed.extend([
                    spawned.conpty.hpcon,
                    spawned.conpty.input_write,
                    spawned.conpty.output_read,
                    spawned.process,
                    spawned.job,
                ]);
                break;
            }
            NextCall::Failed(_) => break,
        }
    }
    opened.sort();
    closed.sort();
    (opened, closed, calls)
}

#[test]
fn every_handle_is_closed_or_kept() {
    for flags in [0, 6, 14] {
        for first in 0..40 {
            for period in 1..8 {
                let (opened, closed, calls) = run(ConPtyFlags(flags), |call| {
                    call >= first && (call - first) % period == 0
                });
                assert_eq!(opened, closed);
                assert!(calls <= 38);
            }
        }
    }
}
