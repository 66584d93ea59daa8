//! Constants of the Windows API that the rest of the library decides with.
//!
//! Each function reads one constant out of `windows_sys`; its contract gives
//! the constant's value.
use vstd::prelude::*;

verus! {

/// `windows_sys::Win32::System::Threading::EXTENDED_STARTUPINFO_PRESENT`: the bit that
/// says that extended startup information is passed.
#[verifier::external_body]
pub(crate) fn extended_startupinfo_present() -> (value: u32)
    ensures
        value == 0x0008_0000,
{
    windows_sys::Win32::System::Threading::EXTENDED_STARTUPINFO_PRESENT
}

/// `windows_sys::Win32::System::Threading::CREATE_UNICODE_ENVIRONMENT`: the bit that
/// says that the environment block is UTF-16.
#[verifier::external_body]
pub(crate) fn create_unicode_environment() -> (value: u32)
    ensures
        value == 0x0000_0400,
{
    windows_sys::Win32::System::Threading::CREATE_UNICODE_ENVIRONMENT
}

/// `windows_sys::Win32::System::Threading::CREATE_SUSPENDED`: the bit that
/// starts a process with its main thread suspended.
#[verifier::external_body]
pub(crate) fn create_suspended() -> (value: u32)
    ensures
        value == 0x0000_0004,
{
    windows_sys::Win32::System::Threading::CREATE_SUSPENDED
}

/// `windows_sys::Win32::System::Threading::CREATE_BREAKAWAY_FROM_JOB`: the bit that
/// keeps a process out of its parent's job.
#[verifier::external_body]
pub(crate) fn create_breakaway_from_job() -> (value: u32)
    ensures
        value == 0x0100_0000,
{
    windows_sys::Win32::System::Threading::CREATE_BREAKAWAY_FROM_JOB
}

/// `windows_sys::Win32::Foundation::ERROR_INVALID_PARAMETER`: the error of a call that
/// got a parameter it does not accept.
#[verifier::external_body]
pub(crate) fn error_invalid_parameter() -> (value: u32)
    ensures
        value == 87,
{
    windows_sys::Win32::Foundation::ERROR_INVALID_PARAMETER
}

/// `windows_sys::Win32::Foundation::ERROR_BROKEN_PIPE`: the error of a pipe whose other
/// end is closed.
#[verifier::external_body]
pub(crate) fn error_broken_pipe() -> (value: u32)
    ensures
        value == 109,
{
    windows_sys::Win32::Foundation::ERROR_BROKEN_PIPE
}

/// `windows_sys::Win32::Foundation::ERROR_NO_DATA`: the error of a pipe that is being
/// closed.
#[verifier::external_body]
pub(crate) fn error_no_data() -> (value: u32)
    ensures
        value == 232,
{
    windows_sys::Win32::Foundation::ERROR_NO_DATA
}

/// `windows_sys::Win32::Foundation::S_OK`: the result of a call that went well.
#[verifier::external_body]
pub(crate) fn s_ok() -> (value: i32)
    ensures
        value == 0,
{
    windows_sys::Win32::Foundation::S_OK
}

/// `windows_sys::Win32::Foundation::INVALID_HANDLE_VALUE`: what stands for no
/// handle.
#[verifier::external_body]
pub(crate) fn invalid_handle_value() -> (value: isize)
    ensures
        value == -1,
{
    windows_sys::Win32::Foundation::INVALID_HANDLE_VALUE as isize
}

/// `windows_sys::Win32::System::Console::ENABLE_WINDOW_INPUT`: changes of the
/// window's size are reported.
#[verifier::external_body]
pub(crate) fn enable_window_input() -> (value: u32)
    ensures
        value == 0x0008,
{
    windows_sys::Win32::System::Console::ENABLE_WINDOW_INPUT
}

/// `windows_sys::Win32::System::Console::ENABLE_MOUSE_INPUT`: mouse events are
/// reported.
#[verifier::external_body]
pub(crate) fn enable_mouse_input() -> (value: u32)
    ensures
        value == 0x0010,
{
    windows_sys::Win32::System::Console::ENABLE_MOUSE_INPUT
}

/// `windows_sys::Win32::System::Console::ENABLE_EXTENDED_FLAGS`: quick editing is set
/// or cleared with the mode.
#[verifier::external_body]
pub(crate) fn enable_extended_flags() -> (value: u32)
    ensures
        value == 0x0080,
{
    windows_sys::Win32::System::Console::ENABLE_EXTENDED_FLAGS
}

/// `windows_sys::Win32::System::Console::ENABLE_VIRTUAL_TERMINAL_INPUT`: input comes
/// as escape sequences.
#[verifier::external_body]
pub(crate) fn enable_virtual_terminal_input() -> (value: u32)
    ensures
        value == 0x0200,
{
    windows_sys::Win32::System::Console::ENABLE_VIRTUAL_TERMINAL_INPUT
}

/// `windows_sys::Win32::System::Console::CTRL_C_EVENT`: Ctrl-C was pressed.
#[verifier::external_body]
pub(crate) fn ctrl_c_event() -> (value: u32)
    ensures
        value == 0,
{
    windows_sys::Win32::System::Console::CTRL_C_EVENT
}

/// `windows_sys::Win32::System::Console::CTRL_BREAK_EVENT`: Ctrl-Break was
/// pressed.
#[verifier::external_body]
pub(crate) fn ctrl_break_event() -> (value: u32)
    ensures
        value == 1,
{
    windows_sys::Win32::System::Console::CTRL_BREAK_EVENT
}

/// `windows_sys::Win32::System::Console::CTRL_CLOSE_EVENT`: the console window was
/// closed.
#[verifier::external_body]
pub(crate) fn ctrl_close_event() -> (value: u32)
    ensures
        value == 2,
{
    windows_sys::Win32::System::Console::CTRL_CLOSE_EVENT
}

} // verus!
