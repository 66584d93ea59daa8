use zellij_windows::command_line::RunCommand;
use zellij_windows::conpty::ConPtyFlags;
use zellij_windows::pty_backend::{
    sigint_payload_for_child_pid, KillAction, SigintAction, SizeChange, SizeReport, StdinWrite,
    TerminalNotFound, WindowsPtyBackend,
};
use zellij_windows::spawn::{CleanupCall, ConPtySpawnState, SpawnedProcess};

fn spawned(hpcon: isize, pid: u32) -> SpawnedProcess {
    SpawnedProcess {
        conpty: ConPtySpawnState {
            output_read: hpcon + 1,
            input_write: hpcon + 2,
            hpcon,
            flags: ConPtyFlags(6),
        },
        process: hpcon + 3,
        child_pid: pid,
        job: hpcon + 4,
    }
}

fn command(command: &str) -> RunCommand {
    RunCommand {
        command: command.to_string(),
        args: vec!["-x".to_string()],
        cwd: Some("C:\\".to_string()),
    }
}

#[test]
fn sigint_for_known_child_uses_ctrl_c_stdin_byte() {
    assert_eq!(
        sigint_payload_for_child_pid(42, 42).as_deref(),
        Some(&b"\x03"[..])
    );
    assert_eq!(sigint_payload_for_child_pid(42, 7).as_deref(), None);
}

#[test]
fn numbers_are_given_out_in_order() {
    let mut backend = WindowsPtyBackend::new();
    assert_eq!(backend.next_terminal_id(), Some(0));
    assert_eq!(backend.next_terminal_id(), Some(1));
    assert_eq!(backend.next_terminal_id(), Some(2));
}

#[test]
fn only_running_terminals_take_requests() {
    let mut backend = WindowsPtyBackend::new();
    let missing = TerminalNotFound { terminal_id: 5 };
    assert_eq!(backend.tcdrain(5), Err(missing));
    assert!(backend.reserve_terminal_id(5).is_none());
    assert_eq!(backend.tcdrain(5), Err(missing));
    assert_eq!(backend.write_to_tty_stdin(5, b"abc"), Err(missing));
    assert_eq!(
        backend.set_terminal_size(5, 80, 24, None, None),
        SizeChange::NoTerminal(missing)
    );
    assert!(backend.record_spawned(5, &spawned(100, 7)).is_none());
    assert_eq!(backend.tcdrain(5), Ok(102));
    assert_eq!(
        backend.write_to_tty_stdin(5, b"abc"),
        Ok(StdinWrite {
            handle: 102,
            len: 3
        })
    );
    assert_eq!(
        backend.set_terminal_size(5, 90, 25, Some(1), Some(1)),
        SizeChange::Resize {
            hpcon: 100,
            cols: 90,
            rows: 25
        }
    );
    assert_eq!(
        backend.set_terminal_size(5, 0, 25, None, None),
        SizeChange::Nothing
    );
    assert_eq!(
        backend.set_terminal_size(5, 90, 0, None, None),
        SizeChange::Nothing
    );
    assert_eq!(
        backend.set_terminal_size(5, 0xffff, 0x8000, None, None),
        SizeChange::Resize {
            hpcon: 100,
            cols: -1,
            rows: i16::MIN
        }
    );
    assert!(backend.clear_terminal_id(5).is_some());
    assert_eq!(backend.tcdrain(5), Err(missing));
    assert!(backend.clear_terminal_id(5).is_none());
}

#[test]
fn replaced_terminals_are_given_back() {
    let mut backend = WindowsPtyBackend::new();
    backend.record_spawned(1, &spawned(100, 7));
    let replaced = backend.reserve_terminal_id(1).expect("was running");
    assert_eq!(
        replaced.release(),
        vec![
            CleanupCall::ClosePseudoConsole(100),
            CleanupCall::CloseHandle(102),
            CleanupCall::CloseHandle(104),
        ]
    );
    assert!(backend.reserve_terminal_id(1).is_none());
    backend.record_spawned(1, &spawned(200, 8));
    let replaced = backend
        .record_spawned(1, &spawned(300, 9))
        .expect("was running");
    assert_eq!(replaced.hpcon, 200);
}

#[test]
fn console_is_closed_once() {
    let mut backend = WindowsPtyBackend::new();
    assert!(backend.process_exited(1).is_empty());
    backend.reserve_terminal_id(1);
    assert!(backend.process_exited(1).is_empty());
    backend.record_spawned(1, &spawned(100, 7));
    assert_eq!(
        backend.process_exited(1),
        vec![CleanupCall::ClosePseudoConsole(100)]
    );
    assert!(backend.process_exited(1).is_empty());
    assert_eq!(
        backend.clear_terminal_id(1).expect("is there").release(),
        vec![CleanupCall::CloseHandle(102), CleanupCall::CloseHandle(104)]
    );
}

#[test]
fn all_terminals_are_closed_in_order() {
    let mut backend = WindowsPtyBackend::new();
    backend.record_spawned(9, &spawned(900, 1));
    backend.reserve_terminal_id(4);
    backend.record_spawned(2, &spawned(200, 2));
    backend.process_exited(2);
    assert_eq!(
        backend.close_all(),
        vec![
            CleanupCall::CloseHandle(202),
            CleanupCall::CloseHandle(204),
            CleanupCall::ClosePseudoConsole(900),
            CleanupCall::CloseHandle(902),
            CleanupCall::CloseHandle(904),
        ]
    );
    assert!(backend.close_all().is_empty());
    assert_eq!(backend.tcdrain(9), Err(TerminalNotFound { terminal_id: 9 }));
}

#[test]
fn processes_are_ended_with_their_jobs() {
    let mut backend = WindowsPtyBackend::new();
    backend.reserve_terminal_id(0);
    backend.record_spawned(3, &spawned(300, 7));
    backend.record_spawned(2, &spawned(200, 7));
    backend.record_spawned(4, &spawned(400, 8));
    assert_eq!(backend.kill(7), KillAction::TerminateJob(204));
    assert_eq!(backend.force_kill(8), KillAction::TerminateJob(404));
    assert_eq!(backend.kill(9), KillAction::TerminateProcess(9));
    assert_eq!(backend.force_kill(0), KillAction::TerminateProcess(0));
}

#[test]
fn processes_are_interrupted_through_their_terminals() {
    let mut backend = WindowsPtyBackend::new();
    backend.record_spawned(3, &spawned(300, 7));
    assert_eq!(
        backend.send_sigint(7),
        SigintAction::WriteStdin {
            handle: 302,
            payload: vec![3]
        }
    );
    assert_eq!(backend.send_sigint(8), SigintAction::GenerateCtrlC(8));
    assert_eq!(WindowsPtyBackend::after_ctrl_c(8, true), None);
    assert_eq!(
        WindowsPtyBackend::after_ctrl_c(8, false),
        Some(KillAction::TerminateProcess(8))
    );
}

#[test]
fn results_of_size_changes_are_told_apart() {
    assert_eq!(WindowsPtyBackend::size_report(0), SizeReport::Done);
    assert_eq!(
        WindowsPtyBackend::size_report(0x80070006_u32 as i32),
        SizeReport::AfterExit
    );
    assert_eq!(
        WindowsPtyBackend::size_report(0x80070057_u32 as i32),
        SizeReport::Failed
    );
}

#[test]
fn command_is_run_where_it_was_found() {
    let backend = WindowsPtyBackend::new();
    let chosen = backend.spawn_terminal(command("a"), Some("C:\\a.exe".to_string()), None, None, 1);
    let chosen = chosen.ok().expect("found");
    assert_eq!(chosen.command, "C:\\a.exe");
    assert_eq!(chosen.args, vec!["-x".to_string()]);

    let chosen = backend.spawn_terminal(
        command("a"),
        None,
        Some(command("b")),
        Some("C:\\b.exe".to_string()),
        1,
    );
    assert_eq!(chosen.ok().expect("found").command, "C:\\b.exe");

    let error = backend
        .spawn_terminal(command("a"), None, Some(command("b")), None, 1)
        .err()
        .expect("not found");
    assert_eq!(error.command, "a");
    assert_eq!(error.terminal_id, 1);
    let error = backend
        .spawn_terminal(command("a"), None, None, None, 2)
        .err()
        .expect("not found");
    assert_eq!(error.terminal_id, 2);
}
