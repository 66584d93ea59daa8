//! The named pipes that sessions listen on.
use crate::utf16::push_text;
use vstd::prelude::*;

verus! {

/// The path of the pipe `name` on `host`; a dot is the own host.
pub open spec fn pipe_path(name: Seq<char>, host: Option<Seq<char>>) -> Seq<char> {
    let host = match host {
        Some(host) => host,
        None => "."@,
    };
    "\\\\"@ + host + "\\pipe\\zellij\\"@ + name
}

/// The path of the pipe `name` on `host`, all in UTF-16.
pub open spec fn pipe_path_units(name: Seq<u16>, host: Option<Seq<u16>>) -> Seq<u16> {
    let host = match host {
        Some(host) => host,
        None => crate::utf16::units_of("."@),
    };
    crate::utf16::units_of("\\\\"@) + host + crate::utf16::units_of("\\pipe\\zellij\\"@) + name
}

/// The path of the pipe `pipe_name` on `hostname`, with the zero that ends it;
/// without a host, on the own one. Names are those of the system, which are units of
/// UTF-16 that need not make up a text.
pub fn convert_path(pipe_name: &[u16], hostname: Option<&[u16]>) -> (path: Vec<u16>)
    ensures
        path@ == pipe_path_units(
            pipe_name@,
            match hostname {
                Some(hostname) => Some(hostname@),
                None => None,
            },
        ).push(0),
{
    let mut path: Vec<u16> = Vec::new();
    push_text(&mut path, "\\\\");
    match hostname {
        Some(hostname) => {
            path.extend_from_slice(hostname);
        },
        None => {
            push_text(&mut path, ".");
        },
    }
    push_text(&mut path, "\\pipe\\zellij\\");
    path.extend_from_slice(pipe_name);
    path.push(0);
    path
}

/// Whether somebody listens on a pipe that waiting for returned `check_result`.
pub open spec fn listening<E>(check_result: i32, last_error: E) -> Result<bool, E> {
    if check_result == 0 {
        Err(last_error)
    } else {
        Ok(true)
    }
}

/// What is done after an attempt to connect to the pipe for replies.
pub open spec fn step_after(connected: bool) -> ConnectStep {
    if connected {
        ConnectStep::Connected
    } else {
        ConnectStep::Retry { after_millis: 50 }
    }
}

/// Whether somebody listens on a pipe, given what waiting for it returned: zero
/// says that it went wrong, with the error `last_error`.
pub fn is_socket<E>(check_result: i32, last_error: E) -> (listens: Result<bool, E>)
    ensures
        listens == if check_result == 0 {
            Err::<bool, E>(last_error)
        } else {
            Ok::<bool, E>(true)
        },
        listens == listening(check_result, last_error),
{
    if check_result == 0 {
        Err(last_error)
    } else {
        Ok(true)
    }
}

/// What is done about the pipe for replies.
#[derive(Debug, Clone, Copy, PartialEq, Eq, Structural)]
pub enum ConnectStep {
    Connected,
    /// Try again after a while.
    Retry { after_millis: u64 },
}

/// What is done after an attempt to connect to the pipe for replies, which the
/// server may not have made yet.
pub fn setup_ipc(connected: bool) -> (step: ConnectStep)
    ensures
        step == if connected {
            ConnectStep::Connected
        } else {
            ConnectStep::Retry { after_millis: 50 }
        },
        step == step_after(connected),
{
    if connected {
        ConnectStep::Connected
    } else {
        ConnectStep::Retry { after_millis: 50 }
    }
}

/// The path of a pipe whose name and host are texts reads back as itself from
/// UTF-16.
pub proof fn law_pipe_path_reads_back(name: Seq<char>, host: Option<Seq<char>>)
    ensures
        crate::utf16::text_of(
            pipe_path_units(
                crate::utf16::units_of(name),
                match host {
                    Some(host) => Some(crate::utf16::units_of(host)),
                    None => None,
                },
            ),
        ) == Some(pipe_path(name, host)),
{
    let start = "\\\\"@;
    let middle = "\\pipe\\zellij\\"@;
    let host_text = match host {
        Some(host) => host,
        None => "."@,
    };
    crate::utf16::law_utf16_of_joined_text(start, host_text);
    crate::utf16::law_utf16_of_joined_text(start + host_text, middle);
    crate::utf16::law_utf16_of_joined_text(start + host_text + middle, name);
    crate::utf16::law_utf16_reads_back(pipe_path(name, host));
}

/// The path of a pipe of the own host is `\\.\pipe\zellij\` and its name; of another
/// host, the dot is that host.
pub proof fn law_pipe_path_is_host_and_name(name: Seq<char>, host: Seq<char>)
    ensures
        pipe_path(name, None) == "\\\\.\\pipe\\zellij\\"@ + name,
        pipe_path(name, Some("."@)) == pipe_path(name, None),
        pipe_path(name, Some(host)) == seq!['\\', '\\'] + host + "\\pipe\\zellij\\"@ + name,
{
    reveal_strlit("\\\\.\\pipe\\zellij\\");
    reveal_strlit("\\\\");
    reveal_strlit(".");
    reveal_strlit("\\pipe\\zellij\\");
    assert("\\\\"@ =~= seq!['\\', '\\']);
    assert("\\\\"@ + "."@ + "\\pipe\\zellij\\"@ =~= "\\\\.\\pipe\\zellij\\"@);
}

/// Nobody listens on a pipe exactly if waiting for it returned zero, and then the
/// error of the system is given back.
pub proof fn law_zero_says_that_nobody_listens<E>(check_result: i32, last_error: E)
    ensures
        listening(0, last_error) == Err::<bool, E>(last_error),
        check_result != 0 ==> listening(check_result, last_error) == Ok::<bool, E>(true),
{
}

/// The pipe for replies is tried again every 50 milliseconds until it is there.
pub proof fn law_reply_pipe_is_tried_until_it_is_there()
    ensures
        step_after(true) is Connected,
        step_after(false) == (ConnectStep::Retry { after_millis: 50 }),
{
}

/// In UTF-16 as in text, a pipe is found by its host and its name, whatever units
/// these are: the path begins with two backslashes, and between host and name stands
/// `\pipe\zellij\`.
pub proof fn law_pipe_path_keeps_the_units(name: Seq<u16>, host: Seq<u16>)
    ensures
        pipe_path_units(name, Some(host)) == seq![0x5cu16, 0x5cu16] + host
            + crate::utf16::units_of("\\pipe\\zellij\\"@) + name,
        pipe_path_units(name, None) == pipe_path_units(name, Some(seq![0x2eu16])),
{
    reveal_strlit("\\\\");
    reveal_strlit(".");
    let two = seq!['\\', '\\'];
    let one = seq!['\\'];
    let dot = seq!['.'];
    let nothing = Seq::<char>::empty();
    crate::utf16::law_every_character_is_written(nothing);
    crate::utf16::law_every_character_is_written(one);
    assert("\\\\"@ =~= two);
    assert("."@ =~= dot);
    assert(two =~= one.push('\\'));
    assert(one =~= nothing.push('\\'));
    assert(dot =~= nothing.push('.'));
    assert(crate::utf16::units_of(two) =~= seq![0x5cu16, 0x5cu16]);
    assert(crate::utf16::units_of(dot) =~= seq![0x2eu16]);
}

} // verus!
