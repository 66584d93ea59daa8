use zellij_windows::input_trace::{env_value_enabled, format_bytes};

#[test]
fn input_trace_env_value_accepts_common_true_values() {
    assert!(env_value_enabled(Some("1")));
    assert!(env_value_enabled(Some("true")));
    assert!(env_value_enabled(Some("YES")));
    assert!(env_value_enabled(Some("on")));
    assert!(!env_value_enabled(Some("0")));
    assert!(!env_value_enabled(Some("false")));
    assert!(!env_value_enabled(None));
}

#[test]
fn input_trace_formats_csi_u_bytes() {
    let formatted = format_bytes(b"\x1b[46;5u");
    assert!(formatted.contains("len=7"));
    assert!(formatted.contains("hex=[1b 5b 34 36 3b 35 75]"));
    assert!(formatted.contains("ascii=\"ESC[46;5u\""));
}

#[test]
fn input_trace_shows_every_kind_of_byte() {
    assert_eq!(
        format_bytes(b"\x1b\r\n\t a~\x7f\x00\xff"),
        "len=10 preview_len=10 hex=[1b 0d 0a 09 20 61 7e 7f 00 ff] \
         ascii=\"ESC\\r\\n\\t a~\\x7f\\x00\\xff\""
    );
    assert_eq!(format_bytes(b""), "len=0 preview_len=0 hex=[] ascii=\"\"");
}

#[test]
fn input_trace_cuts_long_input_off() {
    assert!(!format_bytes(&[b'a'; 128]).contains("truncated"));
    let formatted = format_bytes(&[b'a'; 1290]);
    assert!(formatted.starts_with("len=1290 preview_len=128 hex=[61 61"));
    assert!(formatted.ends_with("aa\" truncated=true"));
}

#[test]
fn input_trace_value_is_compared_without_case_and_exactly() {
    for value in ["TRUE", "tRuE", "Yes", "oN"] {
        assert!(env_value_enabled(Some(value)));
    }
    for value in ["", "11", "true ", "\u{131}", "o\u{6e}\u{301}"] {
        assert!(!env_value_enabled(Some(value)));
    }
}
