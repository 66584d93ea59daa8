use zellij_windows::signals::{
    ctrl_handler, disable_mouse_support, enable_mouse_support, AsyncSignalListener,
    BlockingSignalIterator, Listened, ListenerWakeup, MouseStep, ResizeNote, SignalEvent,
    SignalStep,
};

#[test]
fn listener_reports_a_change_of_size_once() {
    let mut listener = AsyncSignalListener::new(None);
    assert_eq!(
        listener.recv(ListenerWakeup::Tick(Some((80, 24)))),
        Listened::Nothing
    );
    assert_eq!(
        listener.recv(ListenerWakeup::Tick(Some((81, 24)))),
        Listened::Event(SignalEvent::Resize)
    );
    assert_eq!(
        listener.recv(ListenerWakeup::Tick(Some((81, 24)))),
        Listened::Nothing
    );
    assert_eq!(listener.recv(ListenerWakeup::Tick(None)), Listened::Nothing);
}

#[test]
fn listener_quits_at_control_events() {
    let mut listener = AsyncSignalListener::new(Some((10, 10)));
    assert_eq!(
        listener.recv(ListenerWakeup::Control { received: true }),
        Listened::Event(SignalEvent::Quit)
    );
    assert_eq!(
        listener.recv(ListenerWakeup::Control { received: false }),
        Listened::End
    );
}

#[test]
fn control_events_that_end_the_session() {
    assert_eq!(ctrl_handler(0), 1);
    assert_eq!(ctrl_handler(1), 1);
    assert_eq!(ctrl_handler(2), 1);
    assert_eq!(ctrl_handler(3), 0);
    assert_eq!(ctrl_handler(5), 0);
    assert_eq!(ctrl_handler(u32::MAX), 0);
}

#[test]
fn told_wait_awaits_notes_and_falls_back_to_looking() {
    let mut signals = BlockingSignalIterator::new(true, Some((80, 24)));
    assert_eq!(
        signals.next(false),
        SignalStep::AwaitResize {
            timeout_millis: 100
        }
    );
    assert_eq!(
        signals.resize_awaited(ResizeNote::Arrived),
        SignalStep::Yield(SignalEvent::Resize)
    );
    assert_eq!(
        signals.resize_awaited(ResizeNote::TimedOut),
        SignalStep::Again
    );
    assert_eq!(
        signals.next(true),
        SignalStep::Yield(SignalEvent::Quit)
    );
    assert_eq!(
        signals.resize_awaited(ResizeNote::Disconnected),
        SignalStep::Again
    );
    assert_eq!(signals.next(false), SignalStep::CheckSize);
    assert_eq!(
        signals.size_checked(Some((80, 24))),
        SignalStep::Sleep { millis: 50 }
    );
    assert_eq!(
        signals.size_checked(Some((80, 25))),
        SignalStep::Yield(SignalEvent::Resize)
    );
    assert_eq!(
        signals.size_checked(Some((80, 25))),
        SignalStep::Sleep { millis: 50 }
    );
    assert_eq!(signals.size_checked(None), SignalStep::Sleep { millis: 50 });
}

#[test]
fn untold_wait_begins_with_the_default_size() {
    let mut signals = BlockingSignalIterator::new(false, None);
    assert_eq!(signals.next(false), SignalStep::CheckSize);
    assert_eq!(
        signals.size_checked(Some((80, 24))),
        SignalStep::Sleep { millis: 50 }
    );
}

#[test]
fn mouse_support_goes_by_the_name_of_the_terminal() {
    assert_eq!(
        enable_mouse_support(true),
        vec![
            MouseStep::EnableTerminalProcessing,
            MouseStep::WriteSequences,
            MouseStep::Flush
        ]
    );
    assert_eq!(
        disable_mouse_support(true),
        vec![MouseStep::WriteSequences, MouseStep::Flush]
    );
    assert_eq!(
        enable_mouse_support(false),
        vec![MouseStep::UseConsoleInterface]
    );
    assert_eq!(
        disable_mouse_support(false),
        vec![MouseStep::UseConsoleInterface]
    );
}
