use zellij_windows::console_mode::{is_usable_handle, vt_input_mode, ConsoleInputMode};
use zellij_windows::console_writer::{
    writes_to_console, ConsoleWriteError, WindowsConsoleWriter,
};
use zellij_windows::utf16::{encode_utf16, to_wide};
use zellij_windows::utf8::split_valid_utf8_prefix;

#[test]
fn utf8_prefix_split_keeps_incomplete_codepoint_pending() {
    let bytes = "a한".as_bytes();
    let split = split_valid_utf8_prefix(&bytes[..bytes.len() - 1]);

    assert_eq!(split.valid, b"a");
    assert_eq!(split.pending, &bytes[1..bytes.len() - 1]);
}

#[test]
fn utf8_prefix_split_accepts_complete_codepoints() {
    let bytes = "a한".as_bytes();
    let split = split_valid_utf8_prefix(bytes);

    assert_eq!(split.valid, bytes);
    assert!(split.pending.is_empty());
}

#[test]
fn console_writer_flush_keeps_split_codepoint_pending() {
    let glyph = "é".as_bytes();
    let mut writer = WindowsConsoleWriter::new(0);
    writer.write(&glyph[..1]).expect("split utf8 is taken");

    writer.flush_pending().expect("split utf8 waits");

    assert_eq!(writer.pending_utf8(), &glyph[..1]);
}

#[test]
fn split_agrees_with_std_on_all_short_inputs() {
    let interesting: [u8; 19] = [
        0x00, 0x41, 0x7f, 0x80, 0x8f, 0x90, 0x9f, 0xa0, 0xbf, 0xc0, 0xc2, 0xdf, 0xe0, 0xed, 0xef,
        0xf0, 0xf4, 0xf5, 0xff,
    ];
    let mut inputs: Vec<Vec<u8>> = vec![Vec::new()];
    let mut all: Vec<Vec<u8>> = inputs.clone();
    for _ in 0..4 {
        let mut longer = Vec::new();
        for input in &inputs {
            for byte in interesting {
                let mut next = input.clone();
                next.push(byte);
                longer.push(next);
            }
        }
        inputs = longer;
        all.extend(inputs.iter().cloned());
    }
    for input in &all {
        let (valid, pending): (&[u8], &[u8]) = match std::str::from_utf8(input) {
            Ok(_) => (input, &[]),
            Err(e) if e.error_len().is_none() => {
                (&input[..e.valid_up_to()], &input[e.valid_up_to()..])
            }
            Err(_) => (input, &[]),
        };
        let split = split_valid_utf8_prefix(input);
        assert_eq!(split.valid, valid);
        assert_eq!(split.pending, pending);
    }
}

fn write_all(writer: &mut WindowsConsoleWriter, bytes: &[u8], step: u32) -> Vec<u16> {
    let mut units = Vec::new();
    assert_eq!(writer.write(bytes), Ok(bytes.len()));
    loop {
        let taken = match writer.next_chunk() {
            Some(chunk) => {
                let taken = chunk.len().min(step as usize);
                units.extend_from_slice(&chunk[..taken]);
                taken
            }
            None => return units,
        };
        writer.chunk_written(taken as u32);
    }
}

#[test]
fn text_is_written_whole_however_it_is_split() {
    let text = "aé한😀z";
    let expected: Vec<u16> = text.encode_utf16().collect();
    for size in 1..=text.len() {
        for step in 1..4 {
            let mut writer = WindowsConsoleWriter::new(7);
            let mut units = Vec::new();
            for piece in text.as_bytes().chunks(size) {
                units.extend(write_all(&mut writer, piece, step));
            }
            assert_eq!(units, expected);
            assert!(writer.pending_utf8().is_empty());
            assert_eq!(writer.handle(), 7);
        }
    }
}

#[test]
fn invalid_bytes_are_refused_and_lost() {
    let mut writer = WindowsConsoleWriter::new(1);
    assert_eq!(writer.write(b"\xe2"), Ok(1));
    assert_eq!(writer.pending_utf8(), b"\xe2");
    assert_eq!(writer.write(b"a"), Err(ConsoleWriteError::InvalidData));
    assert!(writer.pending_utf8().is_empty());
    assert!(writer.next_chunk().is_none());
    assert_eq!(write_all(&mut writer, b"ok", 9), vec![0x6f, 0x6b]);
}

#[test]
fn failed_write_loses_what_was_held() {
    let mut writer = WindowsConsoleWriter::new(1);
    assert_eq!(writer.write(b"ab\xe2"), Ok(3));
    assert_eq!(writer.next_chunk(), Some(&[0x61_u16, 0x62][..]));
    writer.chunk_failed();
    assert!(writer.next_chunk().is_none());
    assert!(writer.pending_utf8().is_empty());
    assert_eq!(writer.flush(), Ok(()));
}

#[test]
fn text_is_written_as_std_writes_it_in_utf16() {
    for text in ["", "plain", "é한", "😀\u{10ffff}", "\u{ffff}\u{10000}"] {
        let expected: Vec<u16> = text.encode_utf16().collect();
        assert_eq!(encode_utf16(text), expected);
        let mut wide = expected.clone();
        wide.push(0);
        assert_eq!(to_wide(text), wide);
    }
}

#[test]
fn session_mode_is_the_or_of_its_flags() {
    assert_eq!(vt_input_mode(), 0x0298);
    assert_eq!(
        vt_input_mode(),
        windows_sys::Win32::System::Console::ENABLE_WINDOW_INPUT
            | windows_sys::Win32::System::Console::ENABLE_MOUSE_INPUT
            | windows_sys::Win32::System::Console::ENABLE_EXTENDED_FLAGS
            | windows_sys::Win32::System::Console::ENABLE_VIRTUAL_TERMINAL_INPUT
    );
}

#[test]
fn first_mode_is_put_back() {
    let mut mode = ConsoleInputMode::new();
    assert_eq!(mode.restore_vt_input(3), None);
    assert_eq!(mode.enable_vt_input(0, Some(1)), None);
    assert_eq!(mode.enable_vt_input(-1, Some(1)), None);
    assert_eq!(mode.enable_vt_input(3, None), None);
    assert_eq!(mode.restore_vt_input(3), None);
    assert_eq!(mode.enable_vt_input(3, Some(0x1f7)), Some(0x0298));
    assert_eq!(mode.enable_vt_input(3, Some(0x0298)), Some(0x0298));
    assert_eq!(mode.restore_vt_input(3), Some(0x1f7));
    assert_eq!(mode.restore_vt_input(0), None);
    assert_eq!(mode.restore_vt_input(-1), None);
}

#[test]
fn null_and_minus_one_are_no_handles() {
    assert!(is_usable_handle(1));
    assert!(is_usable_handle(-2));
    assert!(!is_usable_handle(0));
    assert!(!is_usable_handle(-1));
    assert!(writes_to_console(1, true));
    assert!(!writes_to_console(1, false));
    assert!(!writes_to_console(0, true));
}
