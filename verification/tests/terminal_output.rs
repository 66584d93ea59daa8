use zellij_windows::terminal_bytes::TerminalOutput;
use zellij_windows::terminal_output::{
    TerminalOutputCursorItem, TerminalOutputEvent, TerminalOutputGap, TerminalOutputStore,
};

fn output(terminal_id: u32, generation: u64, sequence: u64, bytes: &[u8]) -> TerminalOutput {
    TerminalOutput::guarded(terminal_id, bytes.to_vec(), generation, sequence)
}

#[test]
fn cursor_reads_retained_output_in_sequence_order() {
    let mut store = TerminalOutputStore::with_limits(4, 64);
    store.push(&output(1, 1, 0, b"one"));
    store.push(&output(1, 1, 1, b"two"));
    let mut cursor = store.cursor_from_oldest(1);

    assert_eq!(
        store.poll_cursor(1, &mut cursor),
        Some(TerminalOutputCursorItem::Event(TerminalOutputEvent {
            sequence: 0,
            bytes: b"one".to_vec(),
        }))
    );
    assert_eq!(
        store.poll_cursor(1, &mut cursor),
        Some(TerminalOutputCursorItem::Event(TerminalOutputEvent {
            sequence: 1,
            bytes: b"two".to_vec(),
        }))
    );
    assert_eq!(store.poll_cursor(1, &mut cursor), None);
}

#[test]
fn cursor_reports_lag_when_retention_rotates() {
    let mut store = TerminalOutputStore::with_limits(2, 6);
    store.push(&output(1, 1, 0, b"aa"));
    let mut cursor = store.cursor_from_oldest(1);
    store.push(&output(1, 1, 1, b"bb"));
    store.push(&output(1, 1, 2, b"cc"));

    assert_eq!(
        store.poll_cursor(1, &mut cursor),
        Some(TerminalOutputCursorItem::Gap(TerminalOutputGap {
            expected_sequence: 0,
            resume_sequence: 1,
            skipped_events: 1,
            newest_sequence: 2,
            recent_bytes: b"aabbcc".to_vec(),
        }))
    );
}

#[test]
fn drain_cursor_reports_gap_once_then_resumes_at_oldest() {
    let mut store = TerminalOutputStore::with_limits(2, 64);
    let mut cursor = store.cursor_from_oldest(1);
    store.push(&output(1, 1, 0, b"zero"));
    store.push(&output(1, 1, 1, b"one"));
    store.push(&output(1, 1, 2, b"two"));

    let first_batch = store.drain_cursor(1, &mut cursor, 8);
    assert_eq!(
        first_batch,
        vec![TerminalOutputCursorItem::Gap(TerminalOutputGap {
            expected_sequence: 0,
            resume_sequence: 1,
            skipped_events: 1,
            newest_sequence: 2,
            recent_bytes: b"zeroonetwo".to_vec(),
        })]
    );

    let second_batch = store.drain_cursor(1, &mut cursor, 8);
    assert_eq!(
        second_batch,
        vec![
            TerminalOutputCursorItem::Event(TerminalOutputEvent {
                sequence: 1,
                bytes: b"one".to_vec(),
            }),
            TerminalOutputCursorItem::Event(TerminalOutputEvent {
                sequence: 2,
                bytes: b"two".to_vec(),
            }),
        ]
    );
}

#[test]
fn cursor_from_now_skips_already_retained_output() {
    let mut store = TerminalOutputStore::with_limits(4, 64);
    store.push(&output(1, 1, 0, b"old"));
    let mut cursor = store.cursor_from_now(1);
    assert_eq!(store.poll_cursor(1, &mut cursor), None);

    store.push(&output(1, 1, 1, b"new"));
    assert_eq!(
        store.poll_cursor(1, &mut cursor),
        Some(TerminalOutputCursorItem::Event(TerminalOutputEvent {
            sequence: 1,
            bytes: b"new".to_vec(),
        }))
    );
}

#[test]
fn generation_switch_clears_retained_output_and_rejects_stale_output() {
    let mut store = TerminalOutputStore::with_limits(4, 64);
    store.push(&output(1, 1, 0, b"old"));
    store.push(&output(1, 2, 0, b"fresh"));
    assert_eq!(store.push(&output(1, 1, 1, b"stale")), None);
    let mut cursor = store.cursor_from_oldest(1);

    assert_eq!(
        store.poll_cursor(1, &mut cursor),
        Some(TerminalOutputCursorItem::Event(TerminalOutputEvent {
            sequence: 0,
            bytes: b"fresh".to_vec(),
        }))
    );
    assert_eq!(store.poll_cursor(1, &mut cursor), None);
}

#[test]
fn unguarded_output_is_not_retained() {
    let mut store = TerminalOutputStore::with_limits(4, 64);
    assert_eq!(
        store.push(&TerminalOutput::unguarded(1, b"internal".to_vec())),
        None
    );
}

#[test]
fn output_with_only_one_of_generation_and_sequence_is_not_retained() {
    let mut store = TerminalOutputStore::with_limits(4, 64);
    let mut half = output(1, 1, 0, b"half");
    half.sequence = None;
    assert_eq!(store.push(&half), None);
    half.sequence = Some(0);
    half.generation = None;
    assert_eq!(store.push(&half), None);
    let mut cursor = store.cursor_from_oldest(1);
    assert_eq!(store.poll_cursor(1, &mut cursor), None);
}

#[test]
fn repeated_sequence_is_rejected() {
    let mut store = TerminalOutputStore::with_limits(4, 64);
    assert_eq!(store.push(&output(1, 1, 5, b"a")), Some(5));
    assert_eq!(store.push(&output(1, 1, 5, b"b")), None);
    assert_eq!(store.push(&output(1, 1, 4, b"c")), None);
    assert_eq!(store.push(&output(1, 1, 6, b"d")), Some(6));
}

#[test]
fn terminals_are_retained_apart() {
    let mut store = TerminalOutputStore::with_limits(4, 64);
    store.push(&output(1, 1, 0, b"one"));
    store.push(&output(2, 7, 3, b"two"));
    let mut cursor = store.cursor_from_oldest(2);
    assert_eq!(
        store.drain_cursor(2, &mut cursor, 8),
        vec![TerminalOutputCursorItem::Event(TerminalOutputEvent {
            sequence: 3,
            bytes: b"two".to_vec(),
        })]
    );
    let mut cursor = store.cursor_from_oldest(1);
    assert_eq!(store.drain_cursor(1, &mut cursor, 8).len(), 1);
}

#[test]
fn drain_stops_at_its_limit_and_goes_on_there() {
    let mut store = TerminalOutputStore::new();
    for sequence in 0..5u64 {
        store.push(&output(1, 1, sequence, &[sequence as u8]));
    }
    let mut cursor = store.cursor_from_oldest(1);
    assert_eq!(store.drain_cursor(1, &mut cursor, 0), vec![]);
    assert_eq!(store.drain_cursor(1, &mut cursor, 3).len(), 3);
    assert_eq!(
        store.drain_cursor(1, &mut cursor, 3),
        vec![
            TerminalOutputCursorItem::Event(TerminalOutputEvent {
                sequence: 3,
                bytes: vec![3],
            }),
            TerminalOutputCursorItem::Event(TerminalOutputEvent {
                sequence: 4,
                bytes: vec![4],
            }),
        ]
    );
}

#[test]
fn recent_bytes_keep_the_end_of_the_stream() {
    let mut store = TerminalOutputStore::with_limits(1, 3);
    let mut cursor = store.cursor_from_oldest(1);
    store.push(&output(1, 1, 0, b"abcd"));
    store.push(&output(1, 1, 1, b"e"));
    assert_eq!(
        store.poll_cursor(1, &mut cursor),
        Some(TerminalOutputCursorItem::Gap(TerminalOutputGap {
            expected_sequence: 0,
            resume_sequence: 1,
            skipped_events: 1,
            newest_sequence: 1,
            recent_bytes: b"cde".to_vec(),
        }))
    );
}

#[test]
fn cursor_of_an_unknown_terminal_reads_nothing() {
    let store = TerminalOutputStore::new();
    let mut cursor = store.cursor_from_now(9);
    assert_eq!(store.poll_cursor(9, &mut cursor), None);
    assert_eq!(store.drain_cursor(9, &mut cursor, 4), vec![]);
}

#[test]
fn the_tail_of_the_newest_stream_is_retained() {
    let mut store = TerminalOutputStore::with_limits(2, 3);
    for (generation, sequence, bytes) in [
        (1, 0, b"aa"),
        (1, 1, b"bb"),
        (3, 7, b"cc"),
        (2, 8, b"xx"),
        (3, 8, b"dd"),
        (3, 8, b"yy"),
        (3, 9, b"ee"),
    ] {
        store.push(&output(1, generation, sequence, bytes));
    }
    let mut behind = store.cursor_from_oldest(2);
    assert_eq!(
        store.drain_cursor(1, &mut behind, 10),
        vec![TerminalOutputCursorItem::Gap(TerminalOutputGap {
            expected_sequence: 0,
            resume_sequence: 8,
            skipped_events: 8,
            newest_sequence: 9,
            recent_bytes: b"dee".to_vec(),
        })]
    );
    let kept = vec![
        TerminalOutputCursorItem::Event(TerminalOutputEvent {
            sequence: 8,
            bytes: b"dd".to_vec(),
        }),
        TerminalOutputCursorItem::Event(TerminalOutputEvent {
            sequence: 9,
            bytes: b"ee".to_vec(),
        }),
    ];
    assert_eq!(store.drain_cursor(1, &mut behind, 10), kept);
    assert_eq!(store.poll_cursor(1, &mut behind), None);
    let mut cursor = store.cursor_from_oldest(1);
    assert_eq!(store.drain_cursor(1, &mut cursor, 10), kept);
}
