use zellij_windows::console_loop::{
    ConsoleAction, ConsoleEvent, LoopWork, NativeConsoleLoop, PollOutcome,
};
use zellij_windows::keys::{BareKey, KeyWithModifier};
use zellij_windows::stdin_handler::KittySequenceTrace;

fn key_event(c: char) -> ConsoleEvent<u8> {
    ConsoleEvent::Key {
        pressed: true,
        cast: Some((
            KeyWithModifier::new(BareKey::Char(c)),
            c.to_string().into_bytes(),
        )),
    }
}

fn sent(work: LoopWork<u8>) -> String {
    match work {
        LoopWork::Perform(ConsoleAction::SendKey(dispatch)) => format!(
            "key {}",
            String::from_utf8(dispatch.raw_bytes).expect("typed text")
        ),
        LoopWork::Perform(ConsoleAction::SendMouse(mouse)) => format!("mouse {mouse}"),
        LoopWork::Perform(ConsoleAction::SendPaste { text, raw_bytes }) => {
            assert_eq!(text.as_bytes(), raw_bytes);
            format!("paste {text}")
        }
        LoopWork::Perform(ConsoleAction::NotifyResize) => "resize".to_string(),
        LoopWork::Perform(ConsoleAction::SendExit) => "exit".to_string(),
        LoopWork::Poll { timeout_millis } => format!("poll {timeout_millis}"),
        LoopWork::Read => "read".to_string(),
        LoopWork::Stop => "stop".to_string(),
    }
}

#[test]
fn keys_are_sent_as_they_come() {
    let mut console = NativeConsoleLoop::<u8>::new(false, true);
    assert_eq!(sent(console.next_work()), "read");
    console.event_read(key_event('a'));
    assert_eq!(sent(console.next_work()), "key a");
    console.performed(true);
    assert_eq!(sent(console.next_work()), "read");
}

#[test]
fn begun_report_is_waited_for_and_sent_when_it_does_not_go_on() {
    let mut console = NativeConsoleLoop::<u8>::new(false, true);
    console.event_read(key_event('['));
    assert_eq!(sent(console.next_work()), "poll 30");
    console.polled(PollOutcome::Ready);
    assert_eq!(sent(console.next_work()), "read");
    console.event_read(key_event('4'));
    assert_eq!(sent(console.next_work()), "poll 30");
    console.polled(PollOutcome::TimedOut);
    assert_eq!(sent(console.next_work()), "key [");
    console.performed(true);
    assert_eq!(sent(console.next_work()), "key 4");
    console.performed(true);
    assert_eq!(sent(console.next_work()), "read");
}

#[test]
fn disabled_protocol_waits_for_nothing() {
    let mut console = NativeConsoleLoop::<u8>::new(true, true);
    console.event_read(key_event('['));
    assert_eq!(sent(console.next_work()), "key [");
    console.performed(true);
    assert_eq!(sent(console.next_work()), "read");
}

#[test]
fn held_keys_go_before_clicks_pastes_and_resizes() {
    let mut console = NativeConsoleLoop::<u8>::new(false, true);
    console.event_read(key_event('['));
    console.event_read(ConsoleEvent::Mouse(3));
    assert_eq!(sent(console.next_work()), "key [");
    console.performed(true);
    assert_eq!(sent(console.next_work()), "mouse 3");
    console.performed(true);
    console.event_read(key_event('['));
    console.event_read(ConsoleEvent::Paste("h\u{e9}".to_string()));
    assert_eq!(sent(console.next_work()), "key [");
    console.performed(true);
    assert_eq!(sent(console.next_work()), "paste h\u{e9}");
    console.performed(true);
    console.event_read(key_event('['));
    console.event_read(ConsoleEvent::Resize);
    assert_eq!(sent(console.next_work()), "key [");
    console.performed(true);
    assert_eq!(sent(console.next_work()), "resize");
    console.performed(false);
    assert_eq!(sent(console.next_work()), "read");
}

#[test]
fn resize_is_dropped_where_nobody_is_told() {
    let mut console = NativeConsoleLoop::<u8>::new(false, false);
    console.event_read(ConsoleEvent::Resize);
    assert_eq!(sent(console.next_work()), "read");
}

#[test]
fn released_keys_and_other_events_leave_a_report_begun() {
    let mut console = NativeConsoleLoop::<u8>::new(false, true);
    console.event_read(key_event('['));
    console.event_read(ConsoleEvent::Key {
        pressed: false,
        cast: Some((KeyWithModifier::new(BareKey::Char('[')), b"[".to_vec())),
    });
    console.event_read(ConsoleEvent::Other);
    assert_eq!(sent(console.next_work()), "poll 30");
    console.event_read(ConsoleEvent::Key {
        pressed: true,
        cast: None,
    });
    assert_eq!(sent(console.next_work()), "key [");
}

#[test]
fn undelivered_key_ends_the_loop() {
    let mut console = NativeConsoleLoop::<u8>::new(true, true);
    console.event_read(key_event('a'));
    console.event_read(key_event('b'));
    assert_eq!(sent(console.next_work()), "key a");
    console.performed(false);
    assert_eq!(sent(console.next_work()), "stop");
    console.event_read(key_event('c'));
    assert_eq!(sent(console.next_work()), "stop");
}

#[test]
fn failures_send_exit_and_end_the_loop() {
    let mut console = NativeConsoleLoop::<u8>::new(false, true);
    console.event_read(ConsoleEvent::Failed);
    assert_eq!(sent(console.next_work()), "exit");
    console.performed(false);
    assert_eq!(sent(console.next_work()), "stop");

    let mut console = NativeConsoleLoop::<u8>::new(false, true);
    console.event_read(key_event('['));
    console.polled(PollOutcome::Failed);
    assert_eq!(sent(console.next_work()), "exit");
    console.performed(true);
    assert_eq!(sent(console.next_work()), "stop");
}

#[test]
fn typed_out_report_is_sent_as_one_key() {
    let mut console = NativeConsoleLoop::<u8>::new(false, true);
    for c in "[46;5u".chars() {
        console.event_read(key_event(c));
    }
    assert_eq!(sent(console.next_work()), "key \x1b[46;5u");
    console.performed(true);
    assert_eq!(sent(console.next_work()), "read");
}

#[test]
fn nothing_typed_or_pasted_is_lost() {
    let mut console = NativeConsoleLoop::<u8>::new(false, true);
    let mut sent_bytes = String::new();
    let mut events = Vec::new();
    for c in "x[12;".chars() {
        events.push(key_event(c));
    }
    events.push(ConsoleEvent::Paste("pasted".to_string()));
    for c in "[1;5A[".chars() {
        events.push(key_event(c));
    }
    events.push(ConsoleEvent::Mouse(1));
    for event in events {
        loop {
            let work = sent(console.next_work());
            if work == "read" {
                break;
            } else if work.starts_with("poll") {
                console.polled(PollOutcome::Ready);
            } else {
                sent_bytes.push_str(&work);
                sent_bytes.push('|');
                console.performed(true);
            }
        }
        console.event_read(event);
    }
    loop {
        let work = sent(console.next_work());
        if work == "read" {
            break;
        }
        sent_bytes.push_str(&work);
        sent_bytes.push('|');
        console.performed(true);
    }
    assert_eq!(
        sent_bytes,
        "key x|key [|key 1|key 2|key ;|paste pasted|key \x1b[1;5A|key [|mouse 1|"
    );
}

#[test]
fn loop_tells_why_held_keys_were_sent() {
    let mut console = NativeConsoleLoop::<u8>::new(false, true);
    let mut reasons = Vec::new();
    for event in [
        ConsoleEvent::Key {
            pressed: true,
            cast: None,
        },
        ConsoleEvent::Mouse(1),
        ConsoleEvent::Paste("text".to_string()),
        ConsoleEvent::Resize,
        key_event('x'),
    ] {
        console.event_read(key_event('['));
        assert_eq!(console.take_trace(), None);
        console.event_read(event);
        if let Some(KittySequenceTrace::Flush { reason, raw_bytes }) = console.take_trace() {
            assert_eq!(raw_bytes, b"[".to_vec());
            reasons.push(reason);
        }
    }
    console.event_read(key_event('['));
    console.polled(PollOutcome::TimedOut);
    if let Some(KittySequenceTrace::Flush { reason, .. }) = console.take_trace() {
        reasons.push(reason);
    }
    assert_eq!(
        reasons,
        vec![
            "uncast_key_event",
            "non_key_event",
            "non_key_event",
            "non_key_event",
            "invalid_continuation",
            "timeout",
        ]
    );
    assert_eq!(console.take_trace(), None);
}
