use windows_sys::Win32::Foundation::ERROR_INVALID_PARAMETER;
use windows_sys::Win32::System::Threading::{
    CREATE_BREAKAWAY_FROM_JOB, CREATE_SUSPENDED, CREATE_UNICODE_ENVIRONMENT,
    EXTENDED_STARTUPINFO_PRESENT,
};
use zellij_windows::conpty::{
    child_process_creation_flags, conpty_flags_without_passthrough, current_windows_build,
    env_flag, fallback_conpty_flags, is_benign_resize_after_exit_hresult, select_conpty_flags,
    selected_conpty_flags, should_recreate_without_passthrough, ConPtyFlags,
};

#[test]
fn conpty_flags_include_resize_and_win32_input_by_default() {
    let flags = select_conpty_flags(22621, false);

    assert!(flags.contains(ConPtyFlags::resize_quirk()));
    assert!(flags.contains(ConPtyFlags::win32_input_mode()));
    assert!(flags.contains(ConPtyFlags::passthrough_mode()));
}

#[test]
fn conpty_flags_skip_passthrough_on_older_windows_builds() {
    let flags = select_conpty_flags(19045, false);

    assert!(flags.contains(ConPtyFlags::resize_quirk()));
    assert!(flags.contains(ConPtyFlags::win32_input_mode()));
    assert!(!flags.contains(ConPtyFlags::passthrough_mode()));
}

#[test]
fn conpty_flags_allow_passthrough_to_be_disabled() {
    let flags = select_conpty_flags(22621, true);

    assert!(flags.contains(ConPtyFlags::resize_quirk()));
    assert!(flags.contains(ConPtyFlags::win32_input_mode()));
    assert!(!flags.contains(ConPtyFlags::passthrough_mode()));
}

#[test]
fn conpty_flags_fallback_removes_passthrough_first() {
    let flags = ConPtyFlags::resize_quirk()
        | ConPtyFlags::win32_input_mode()
        | ConPtyFlags::passthrough_mode();

    assert_eq!(
        fallback_conpty_flags(flags),
        Some(ConPtyFlags::resize_quirk() | ConPtyFlags::win32_input_mode())
    );
    assert_eq!(
        fallback_conpty_flags(ConPtyFlags::resize_quirk() | ConPtyFlags::win32_input_mode()),
        Some(ConPtyFlags::empty())
    );
    assert_eq!(fallback_conpty_flags(ConPtyFlags::empty()), None);
}

#[test]
fn resize_after_exit_errors_are_benign() {
    assert!(is_benign_resize_after_exit_hresult(0x80070006_u32 as i32));
    assert!(is_benign_resize_after_exit_hresult(0x8007006d_u32 as i32));
    assert!(!is_benign_resize_after_exit_hresult(0x80070057_u32 as i32));
}

#[test]
fn child_process_spawn_flags_start_suspended_and_can_break_away() {
    assert_eq!(
        child_process_creation_flags(false),
        EXTENDED_STARTUPINFO_PRESENT | CREATE_UNICODE_ENVIRONMENT | CREATE_SUSPENDED
    );
    assert_eq!(
        child_process_creation_flags(true),
        EXTENDED_STARTUPINFO_PRESENT
            | CREATE_UNICODE_ENVIRONMENT
            | CREATE_SUSPENDED
            | CREATE_BREAKAWAY_FROM_JOB
    );
}

#[test]
fn passthrough_spawn_invalid_parameter_requests_conpty_recreate() {
    let passthrough = ConPtyFlags::resize_quirk()
        | ConPtyFlags::win32_input_mode()
        | ConPtyFlags::passthrough_mode();
    let no_passthrough = ConPtyFlags::resize_quirk() | ConPtyFlags::win32_input_mode();

    assert!(should_recreate_without_passthrough(
        passthrough,
        std::io::Error::from_raw_os_error(ERROR_INVALID_PARAMETER as i32).raw_os_error()
    ));
    assert!(!should_recreate_without_passthrough(
        no_passthrough,
        std::io::Error::from_raw_os_error(ERROR_INVALID_PARAMETER as i32).raw_os_error()
    ));
    assert!(!should_recreate_without_passthrough(
        passthrough,
        std::io::Error::from_raw_os_error(5).raw_os_error()
    ));
    assert!(!should_recreate_without_passthrough(passthrough, None));
}

#[test]
fn exact_flag_values() {
    assert_eq!(conpty_flags_without_passthrough().bits(), 6);
    assert_eq!(select_conpty_flags(22621, false).bits(), 14);
    assert_eq!(select_conpty_flags(22620, false).bits(), 6);
    assert_eq!(child_process_creation_flags(false), 0x0008_0404);
    assert_eq!(child_process_creation_flags(true), 0x0108_0404);
    assert_eq!(fallback_conpty_flags(ConPtyFlags(1)), Some(ConPtyFlags(0)));
    assert!(ConPtyFlags(8).uses_passthrough());
    assert!(!ConPtyFlags(7).uses_passthrough());
}

#[test]
fn variables_that_are_a_yes() {
    for value in ["1", "true", "TRUE", "yes", "YES"] {
        assert!(env_flag(Some(value)));
    }
    for value in ["", "0", "True", "Yes", "on", " 1", "1 "] {
        assert!(!env_flag(Some(value)));
    }
    assert!(!env_flag(None));
}

#[test]
fn flags_follow_the_variable_and_the_build() {
    assert!(selected_conpty_flags(None, Some(22621)).uses_passthrough());
    assert!(selected_conpty_flags(Some("0"), Some(30000)).uses_passthrough());
    assert!(!selected_conpty_flags(Some("1"), Some(30000)).uses_passthrough());
    assert!(!selected_conpty_flags(None, None).uses_passthrough());
}

#[test]
fn build_is_only_known_where_the_status_is_no_error() {
    assert_eq!(current_windows_build(0, 22621), Ok(22621));
    assert_eq!(current_windows_build(1, 5), Ok(5));
    assert_eq!(current_windows_build(-1, 22621), Err(-1));
}
