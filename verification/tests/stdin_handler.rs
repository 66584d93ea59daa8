use zellij_windows::keys::{BareKey, KeyModifier, KeyWithModifier};
use zellij_windows::stdin_handler::{
    KittySequenceTrace, NativeKeyDispatch, NativeKittySequenceBuffer,
};

fn key(c: char) -> KeyWithModifier {
    KeyWithModifier::new(BareKey::Char(c))
}

fn push_char(buffer: &mut NativeKittySequenceBuffer, c: char) -> Vec<NativeKeyDispatch> {
    buffer.push(key(c), c.to_string().into_bytes())
}

fn push_all(buffer: &mut NativeKittySequenceBuffer, text: &str) -> Vec<NativeKeyDispatch> {
    let mut dispatches = Vec::new();
    for c in text.chars() {
        dispatches.extend(push_char(buffer, c));
    }
    dispatches
}

#[test]
fn ctrl_dot_csi_u_sequence_emits_one_kitty_key() {
    let mut buffer = NativeKittySequenceBuffer::new(true);
    let mut dispatches = Vec::new();
    for c in "[46;5u".chars() {
        dispatches.extend(push_char(&mut buffer, c));
    }

    assert_eq!(dispatches.len(), 1);
    assert_eq!(
        dispatches[0].key,
        KeyWithModifier::new(BareKey::Char('.')).with_ctrl_modifier()
    );
    assert_eq!(dispatches[0].raw_bytes, b"\x1b[46;5u".to_vec());
    assert!(dispatches[0].is_kitty_keyboard_protocol);
}

#[test]
fn ctrl_q_csi_u_sequence_emits_one_kitty_key() {
    let mut buffer = NativeKittySequenceBuffer::new(true);
    let mut dispatches = Vec::new();
    for c in "[113;5u".chars() {
        dispatches.extend(push_char(&mut buffer, c));
    }

    assert_eq!(dispatches.len(), 1);
    assert_eq!(
        dispatches[0].key,
        KeyWithModifier::new(BareKey::Char('q')).with_ctrl_modifier()
    );
    assert_eq!(dispatches[0].raw_bytes, b"\x1b[113;5u".to_vec());
    assert!(dispatches[0].is_kitty_keyboard_protocol);
}

#[test]
fn regular_character_dispatches_immediately() {
    let mut buffer = NativeKittySequenceBuffer::new(true);

    let dispatches = push_char(&mut buffer, 'a');

    assert_eq!(dispatches.len(), 1);
    assert_eq!(dispatches[0].key, key('a'));
    assert_eq!(dispatches[0].raw_bytes, b"a".to_vec());
    assert!(!dispatches[0].is_kitty_keyboard_protocol);
    assert!(!buffer.has_pending());
}

#[test]
fn literal_open_bracket_flushes_as_regular_key() {
    let mut buffer = NativeKittySequenceBuffer::new(true);

    assert!(push_char(&mut buffer, '[').is_empty());
    let dispatches = buffer.flush_pending("test");

    assert_eq!(dispatches.len(), 1);
    assert_eq!(dispatches[0].key, key('['));
    assert_eq!(dispatches[0].raw_bytes, b"[".to_vec());
    assert!(!dispatches[0].is_kitty_keyboard_protocol);
}

#[test]
fn malformed_sequence_preserves_original_order() {
    let mut buffer = NativeKittySequenceBuffer::new(true);

    assert!(push_char(&mut buffer, '[').is_empty());
    let dispatches = push_char(&mut buffer, 'x');

    assert_eq!(dispatches.len(), 2);
    assert_eq!(dispatches[0].key, key('['));
    assert_eq!(dispatches[0].raw_bytes, b"[".to_vec());
    assert_eq!(dispatches[1].key, key('x'));
    assert_eq!(dispatches[1].raw_bytes, b"x".to_vec());
    assert!(dispatches.iter().all(|d| !d.is_kitty_keyboard_protocol));
}

#[test]
fn disabled_buffer_dispatches_sequence_characters_normally() {
    let mut buffer = NativeKittySequenceBuffer::new(false);

    let dispatches = push_char(&mut buffer, '[');

    assert_eq!(dispatches.len(), 1);
    assert_eq!(dispatches[0].key, key('['));
    assert_eq!(dispatches[0].raw_bytes, b"[".to_vec());
    assert!(!dispatches[0].is_kitty_keyboard_protocol);
    assert!(!buffer.has_pending());
}

#[test]
fn restored_ctrl_modifier_does_not_depend_on_crossterm_modifier_flags() {
    let mut buffer = NativeKittySequenceBuffer::new(true);
    let mut dispatches = Vec::new();
    for c in "[46;5u".chars() {
        dispatches.extend(push_char(&mut buffer, c));
    }

    assert!(dispatches[0].key.key_modifiers.contains(&KeyModifier::Ctrl));
}

#[test]
fn arrow_and_tilde_reports_are_recognised() {
    let mut buffer = NativeKittySequenceBuffer::new(true);
    let dispatches = push_all(&mut buffer, "[1;5A[3~");
    assert_eq!(dispatches.len(), 2);
    assert_eq!(
        dispatches[0].key,
        KeyWithModifier::new(BareKey::Up).with_ctrl_modifier()
    );
    assert_eq!(dispatches[0].raw_bytes, b"\x1b[1;5A".to_vec());
    assert_eq!(dispatches[1].key, KeyWithModifier::new(BareKey::Delete));
    assert!(dispatches[1].is_kitty_keyboard_protocol);
}

#[test]
fn report_that_is_no_key_is_handed_on_as_typed() {
    let mut buffer = NativeKittySequenceBuffer::new(true);
    let dispatches = push_all(&mut buffer, "[9999~");
    let raw: Vec<u8> = dispatches
        .iter()
        .flat_map(|dispatch| dispatch.raw_bytes.clone())
        .collect();
    assert_eq!(raw, b"[9999~".to_vec());
    assert_eq!(dispatches.len(), 6);
    assert!(dispatches.iter().all(|d| !d.is_kitty_keyboard_protocol));
    assert!(!buffer.has_pending());
}

#[test]
fn semicolon_and_end_need_a_digit_before_them() {
    let mut buffer = NativeKittySequenceBuffer::new(true);
    assert!(push_char(&mut buffer, '[').is_empty());
    assert_eq!(push_char(&mut buffer, ';').len(), 2);
    assert!(push_char(&mut buffer, '[').is_empty());
    assert_eq!(push_char(&mut buffer, 'u').len(), 2);
    assert!(!buffer.has_pending());
}

#[test]
fn report_that_is_too_long_is_handed_on_as_typed() {
    let mut buffer = NativeKittySequenceBuffer::new(true);
    let long = format!("[{}", "1".repeat(31));
    assert!(push_all(&mut buffer, &long).is_empty());
    assert_eq!(buffer.pending_raw_bytes(), long.clone().into_bytes());
    let dispatches = push_char(&mut buffer, '1');
    assert_eq!(dispatches.len(), 33);
    assert!(!buffer.has_pending());
}

#[test]
fn bracket_with_a_modifier_does_not_begin_a_report() {
    let mut buffer = NativeKittySequenceBuffer::new(true);
    let dispatches = buffer.push(key('[').with_ctrl_modifier(), b"[".to_vec());
    assert_eq!(dispatches.len(), 1);
    assert!(!buffer.has_pending());
}

#[test]
fn flushing_an_empty_buffer_hands_nothing_on() {
    let mut buffer = NativeKittySequenceBuffer::new(true);
    assert_eq!(buffer.flush_pending("test"), Vec::new());
    assert!(push_all(&mut buffer, "[12;").is_empty());
    assert_eq!(buffer.flush_pending("test").len(), 4);
    assert!(!buffer.has_pending());
}

#[test]
fn typing_loses_no_byte() {
    for text in ["[46;5u[", "[[[12;34;56~x", "a[1b[2;c[", "[1;9999u[;", "]\u{e9}[1A[B"] {
        let mut buffer = NativeKittySequenceBuffer::new(true);
        let mut typed = Vec::new();
        for dispatch in push_all(&mut buffer, text) {
            if dispatch.is_kitty_keyboard_protocol {
                assert_eq!(dispatch.raw_bytes[0], 0x1b);
                typed.extend_from_slice(&dispatch.raw_bytes[1..]);
            } else {
                typed.extend(dispatch.raw_bytes);
            }
        }
        typed.extend(buffer.pending_raw_bytes());
        assert_eq!(typed, text.as_bytes());
    }
}

#[test]
fn buffer_tells_once_what_became_of_a_report() {
    let mut buffer = NativeKittySequenceBuffer::new(true);
    let flush = |reason: &'static str, raw: &str| {
        Some(KittySequenceTrace::Flush {
            reason,
            raw_bytes: raw.as_bytes().to_vec(),
        })
    };

    let dispatches = push_all(&mut buffer, "[46;5u");
    assert_eq!(
        buffer.take_trace(),
        Some(KittySequenceTrace::Complete {
            key: dispatches[0].key.clone(),
            raw_bytes: b"\x1b[46;5u".to_vec(),
        })
    );
    assert_eq!(buffer.take_trace(), None);

    push_all(&mut buffer, "[4x");
    assert_eq!(buffer.take_trace(), flush("invalid_continuation", "[4"));
    let long = format!("[{}", "1".repeat(32));
    push_all(&mut buffer, &long);
    assert_eq!(buffer.take_trace(), flush("too_long", &long));
    push_all(&mut buffer, "[4");
    buffer.flush_pending("timeout");
    assert_eq!(buffer.take_trace(), flush("timeout", "[4"));
    buffer.flush_pending("timeout");
    push_all(&mut buffer, "a");
    assert_eq!(buffer.take_trace(), None);
}
