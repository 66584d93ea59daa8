//! The input mode of the console, which is set for the session and put back at
//! its end.
use vstd::prelude::*;

verus! {

/// Whether `handle` is one: neither null nor the value that stands for no handle.
pub open spec fn usable(handle: isize) -> bool {
    handle != 0 && handle != -1
}

/// The mode of the session: changes of the window's size and mouse events are
/// reported, and input comes as escape sequences; the extended flags are given,
/// which clears quick editing. No other bit is set, so that input is neither
/// processed nor gathered into lines nor echoed.
pub open spec fn session_mode() -> u32 {
    0x0298
}

/// The mode that is put back at the end, once `handle` was found to have the
/// mode `mode`: the one that was saved before, if any.
pub open spec fn saved_after(saved: Option<u32>, handle: isize, mode: Option<u32>) -> Option<u32> {
    if saved is None && usable(handle) {
        mode
    } else {
        saved
    }
}

/// The mode to set on `handle`, which was found to have the mode `mode`.
pub open spec fn mode_to_set(handle: isize, mode: Option<u32>) -> Option<u32> {
    if usable(handle) && mode is Some {
        Some(session_mode())
    } else {
        None
    }
}

/// The mode to put back on `handle` where `saved` was kept.
pub open spec fn mode_to_put_back(saved: Option<u32>, handle: isize) -> Option<u32> {
    if usable(handle) {
        saved
    } else {
        None
    }
}

/// Whether `handle` is one.
pub fn is_usable_handle(handle: isize) -> (is_usable: bool)
    ensures
        is_usable == usable(handle),
{
    handle != 0 && handle != crate::win32::invalid_handle_value()
}

/// The mode of the session.
pub fn vt_input_mode() -> (mode: u32)
    ensures
        mode == session_mode(),
{
    let window: u32 = crate::win32::enable_window_input();
    let mouse: u32 = crate::win32::enable_mouse_input();
    let extended: u32 = crate::win32::enable_extended_flags();
    let terminal: u32 = crate::win32::enable_virtual_terminal_input();
    assert(0x0008u32 | 0x0010u32 | 0x0080u32 | 0x0200u32 == 0x0298u32) by (bit_vector);
    window | mouse | extended | terminal
}

/// Keeps the mode that the console had before the session.
pub struct ConsoleInputMode {
    original: Option<u32>,
}

impl ConsoleInputMode {
    /// The mode that is put back at the end.
    pub closed spec fn saved(self) -> Option<u32> {
        self.original
    }

    /// Nothing kept yet.
    pub fn new() -> (kept: Self)
        ensures
            kept.saved() is None,
    {
        ConsoleInputMode { original: None }
    }

    /// The mode to set on `handle`, which was found to have the mode `mode`, where
    /// that could be read at all; `None` where nothing is to be set.
    pub fn enable_vt_input(&mut self, handle: isize, mode: Option<u32>) -> (new_mode: Option<u32>)
        ensures
            final(self).saved() == saved_after(old(self).saved(), handle, mode),
            new_mode == if usable(handle) && mode is Some {
                Some(session_mode())
            } else {
                None
            },
            new_mode == mode_to_set(handle, mode),
    {
        if !is_usable_handle(handle) {
            return None;
        }
        match mode {
            None => None,
            Some(mode) => {
                if self.original.is_none() {
                    self.original = Some(mode);
                }
                Some(vt_input_mode())
            },
        }
    }

    /// The mode to put back on `handle`; `None` where there is nothing to put
    /// back.
    pub fn restore_vt_input(&self, handle: isize) -> (mode: Option<u32>)
        ensures
            mode == if usable(handle) {
                self.saved()
            } else {
                None
            },
            mode == mode_to_put_back(self.saved(), handle),
    {
        if is_usable_handle(handle) {
            self.original
        } else {
            None
        }
    }
}

/// The modes that were read one after the other, and the handles they were read
/// from: what is saved after all of them.
pub open spec fn saved_after_all(saved: Option<u32>, reads: Seq<(isize, Option<u32>)>) -> Option<u32>
    decreases reads.len(),
{
    if reads.len() == 0 {
        saved
    } else {
        let last = reads.last();
        saved_after(saved_after_all(saved, reads.drop_last()), last.0, last.1)
    }
}

/// The mode that is put back is the first one that was read: setting the mode of
/// the session again does not replace it.
pub proof fn law_first_mode_is_put_back(
    handle: isize,
    mode: u32,
    reads: Seq<(isize, Option<u32>)>,
)
    requires
        usable(handle),
    ensures
        saved_after_all(saved_after(None, handle, Some(mode)), reads) == Some(mode),
    decreases reads.len(),
{
    if reads.len() > 0 {
        law_first_mode_is_put_back(handle, mode, reads.drop_last());
    }
}

/// The session's mode has exactly its four flags: the ones that process, gather
/// and echo input and the one for quick editing are clear.
pub proof fn law_session_mode_flags()
    ensures
        session_mode() & 0x0008 != 0,
        session_mode() & 0x0010 != 0,
        session_mode() & 0x0080 != 0,
        session_mode() & 0x0200 != 0,
        session_mode() & 0x0001 == 0,
        session_mode() & 0x0002 == 0,
        session_mode() & 0x0004 == 0,
        session_mode() & 0x0040 == 0,
{
    let mode = session_mode();
    assert(mode & 0x0008 != 0 && mode & 0x0010 != 0 && mode & 0x0080 != 0 && mode & 0x0200 != 0
        && mode & 0x0001 == 0 && mode & 0x0002 == 0 && mode & 0x0004 == 0 && mode & 0x0040 == 0)
        by (bit_vector)
        requires
            mode == 0x0298u32,
    ;
}

/// The session's mode is the sum of its four flags, with nothing else.
pub proof fn law_session_mode_is_the_sum_of_its_flags()
    ensures
        session_mode() == 0x8 + 0x10 + 0x80 + 0x200,
{
}

/// Every handle is one but null and the one that stands for none.
pub proof fn law_usable_handles(handle: isize)
    ensures
        !usable(0),
        handle == -1 ==> !usable(handle),
        handle > 0 || handle < -1 ==> usable(handle),
{
}

/// Only a mode that was read from a handle is kept, and once one is, no other
/// takes its place.
pub proof fn law_only_the_first_mode_is_kept(saved: u32, handle: isize, mode: Option<u32>)
    ensures
        saved_after(Some(saved), handle, mode) == Some(saved),
        saved_after(None, 0, mode) is None,
        handle == -1 ==> saved_after(None, handle, mode) is None,
        handle > 0 || handle < -1 ==> saved_after(None, handle, mode) == mode,
{
}

/// The session's mode is set wherever the mode could be read of a handle, whatever it
/// was, and nowhere else.
pub proof fn law_mode_is_set_where_it_was_read(handle: isize, mode: u32)
    ensures
        handle > 0 || handle < -1 ==> mode_to_set(handle, Some(mode)) == Some(
            (0x8 + 0x10 + 0x80 + 0x200) as u32,
        ),
        mode_to_set(handle, None) is None,
        handle == 0 || handle == -1 ==> mode_to_set(handle, Some(mode)) is None,
{
}

/// What was found at first is put back at the end, whatever was set in between: a
/// session leaves the console as it found it.
pub proof fn law_session_leaves_the_console_as_it_was(
    handle: isize,
    mode: u32,
    reads: Seq<(isize, Option<u32>)>,
)
    requires
        handle > 0 || handle < -1,
    ensures
        mode_to_put_back(saved_after_all(saved_after(None, handle, Some(mode)), reads), handle)
            == Some(mode),
        mode_to_put_back(None, handle) is None,
        mode_to_put_back(Some(mode), 0) is None,
{
    law_first_mode_is_put_back(handle, mode, reads);
}

} // verus!
