use std::sync::atomic::{AtomicBool, AtomicU64};
use std::sync::Arc;
use zellij_windows::terminal_bytes::{
    ListenStep, PtyRead, ScreenInstruction, TerminalBytes, TerminalOutput, TerminalStreamGuard,
};

#[test]
fn terminal_stream_guard_rejects_stale_generation() {
    let current_generation = Arc::new(AtomicU64::new(0));
    let old_guard = TerminalStreamGuard::new(Arc::clone(&current_generation));
    let fresh_guard = TerminalStreamGuard::next(Arc::clone(&current_generation));

    assert!(!old_guard.is_current());
    assert!(fresh_guard.is_current());

    fresh_guard.invalidate();

    assert!(!fresh_guard.is_current());
}

#[test]
fn guarded_terminal_output_carries_generation_and_sequence() {
    let output = TerminalOutput::guarded(1, b"hello".to_vec(), 2, 3);

    assert_eq!(output.terminal_id, 1);
    assert_eq!(output.bytes, b"hello");
    assert_eq!(output.generation, Some(2));
    assert_eq!(output.sequence, Some(3));
}

#[test]
fn unguarded_terminal_output_has_no_generation_or_sequence() {
    let output = TerminalOutput::unguarded(1, b"internal".to_vec());

    assert_eq!(output.generation, None);
    assert_eq!(output.sequence, None);
}

fn listener(guard: TerminalStreamGuard, flag: &Arc<AtomicBool>) -> TerminalBytes {
    TerminalBytes::new_with_stream_guard(7, true, Arc::clone(flag), guard)
}

#[test]
fn listener_numbers_what_it_reads() {
    let counter = Arc::new(AtomicU64::new(4));
    let flag = Arc::new(AtomicBool::new(false));
    let mut listener = listener(TerminalStreamGuard::new(Arc::clone(&counter)), &flag);
    assert_eq!(
        listener.listen(PtyRead::Bytes(b"a".to_vec()), 0),
        ListenStep::Forward {
            output: TerminalOutput::guarded(7, b"a".to_vec(), 4, 0),
            debug: true,
            mark_active: true,
            render: true,
        }
    );
    assert!(Arc::ptr_eq(listener.activity_flag(), &flag));
    assert_eq!(
        listener.listen(PtyRead::Bytes(b"b".to_vec()), 0),
        ListenStep::Forward {
            output: TerminalOutput::guarded(7, b"b".to_vec(), 4, 1),
            debug: true,
            mark_active: true,
            render: true,
        }
    );
    assert!(listener.renders_at_end(listener.current_generation()));
}

#[test]
fn listener_stops_at_the_end_at_a_failure_and_when_replaced() {
    let counter = Arc::new(AtomicU64::new(0));
    let flag = Arc::new(AtomicBool::new(false));
    let mut listener = listener(TerminalStreamGuard::new(Arc::clone(&counter)), &flag);
    assert_eq!(listener.listen(PtyRead::Bytes(Vec::new()), 0), ListenStep::Stop);
    assert_eq!(listener.listen(PtyRead::Failed, 0), ListenStep::Stop);
    TerminalStreamGuard::next(Arc::clone(&counter));
    assert_eq!(
        listener.listen(PtyRead::Bytes(b"stale".to_vec()), 0),
        ListenStep::Stop
    );
    assert_eq!(listener.listen(PtyRead::TimedOut, 0), ListenStep::Stop);
    assert!(!listener.renders_at_end(listener.current_generation()));
}

#[test]
fn generations_wrap_around() {
    let counter = Arc::new(AtomicU64::new(u64::MAX));
    let guard = TerminalStreamGuard::next(Arc::clone(&counter));
    assert_eq!(guard.generation(), 0);
    assert!(guard.is_current());
    assert!(guard.matches_generation(0));
    assert!(!guard.matches_generation(1));
}

#[test]
fn render_follows_each_chunk_at_once() {
    let counter = Arc::new(AtomicU64::new(0));
    let flag = Arc::new(AtomicBool::new(false));
    let mut listener = listener(TerminalStreamGuard::new(counter), &flag);
    let mut told = Vec::new();
    for bytes in [b"b0", b"b1"] {
        let step = listener.listen(PtyRead::Bytes(bytes.to_vec()), 0);
        told.extend(step.screen_instructions());
        listener.render_sent(100);
        assert_eq!(listener.read_timeout_millis(), None);
    }
    told.extend(
        listener
            .listen(PtyRead::Bytes(Vec::new()), 0)
            .screen_instructions(),
    );
    assert_eq!(
        told,
        vec![
            ScreenInstruction::PtyBytes(TerminalOutput::guarded(7, b"b0".to_vec(), 0, 0)),
            ScreenInstruction::Render,
            ScreenInstruction::PtyBytes(TerminalOutput::guarded(7, b"b1".to_vec(), 0, 1)),
            ScreenInstruction::Render,
        ]
    );
}

#[test]
fn backed_up_screen_renders_sparingly() {
    let counter = Arc::new(AtomicU64::new(0));
    let flag = Arc::new(AtomicBool::new(false));
    let mut listener = listener(TerminalStreamGuard::new(counter), &flag);
    listener.render_sent(100);
    listener.render_sent(1000);
    let step = listener.listen(PtyRead::Bytes(b"a".to_vec()), 0);
    assert_eq!(step.screen_instructions().len(), 2);
    listener.render_sent(1001);
    let step = listener.listen(PtyRead::Bytes(b"b".to_vec()), 29);
    assert_eq!(step.screen_instructions().len(), 1);
    assert_eq!(listener.read_timeout_millis(), Some(30));
    let step = listener.listen(PtyRead::Bytes(b"c".to_vec()), 30);
    assert_eq!(step.screen_instructions().len(), 2);
    assert_eq!(listener.read_timeout_millis(), None);
    listener.listen(PtyRead::Bytes(b"d".to_vec()), 0);
    assert_eq!(listener.read_timeout_millis(), Some(30));
    let step = listener.listen(PtyRead::TimedOut, 30);
    assert_eq!(step.screen_instructions(), vec![ScreenInstruction::Render]);
    listener.render_sent(500);
    assert_eq!(listener.read_timeout_millis(), None);
    let step = listener.listen(PtyRead::Bytes(b"e".to_vec()), 0);
    assert_eq!(step.screen_instructions().len(), 2);
}
