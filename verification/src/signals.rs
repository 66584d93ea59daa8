//! Signals to the client: the window's size has changed, or the session is to
//! end.
use vstd::prelude::*;

verus! {

/// How often the window's size is looked at while nothing else is awaited.
pub const SIZE_POLL_MILLIS: u64 = 50;

/// How long a note of a change of the size is waited for, and how often the
/// listener looks at the size.
pub const RESIZE_WAIT_MILLIS: u64 = 100;

/// The size that is assumed where it cannot be read.
pub open spec fn default_size() -> (u16, u16) {
    (80, 24)
}

/// A signal.
#[derive(Debug, Clone, Copy, PartialEq, Eq, Structural)]
pub enum SignalEvent {
    Resize,
    Quit,
}

/// What the listener was woken by.
#[derive(Debug, Clone, Copy, PartialEq, Eq)]
pub enum ListenerWakeup {
    /// It is time to look at the size, which is this where it could be read.
    Tick(Option<(u16, u16)>),
    /// A control event came, or (if not `received`) there will be none any more.
    Control { received: bool },
}

/// What the listener makes of it.
#[derive(Debug, Clone, Copy, PartialEq, Eq, Structural)]
pub enum Listened {
    /// There is nothing to report: go on listening.
    Nothing,
    Event(SignalEvent),
    /// There will be no more signals.
    End,
}

/// Whether the window's size, where it could be read, is not the last known one.
pub open spec fn size_changed(last: (u16, u16), size: Option<(u16, u16)>) -> bool {
    match size {
        Some(size) => size != last,
        None => false,
    }
}

/// The last known size, once the size was looked at.
pub open spec fn size_after(last: (u16, u16), size: Option<(u16, u16)>) -> (u16, u16) {
    match size {
        Some(size) => size,
        None => last,
    }
}

fn note_size(last: &mut (u16, u16), size: Option<(u16, u16)>) -> (changed: bool)
    ensures
        changed == size_changed(*old(last), size),
        changed <==> size is Some && size->0 != *old(last),
        *final(last) == size_after(*old(last), size),
{
    match size {
        Some(size) => {
            if size.0 != last.0 || size.1 != last.1 {
                *last = size;
                true
            } else {
                false
            }
        },
        None => false,
    }
}

/// Listens to the console's control events and looks at the window's size from
/// time to time.
pub struct AsyncSignalListener {
    last_size: (u16, u16),
}

impl AsyncSignalListener {
    /// The last known size.
    pub closed spec fn known_size(self) -> (u16, u16) {
        self.last_size
    }

    /// A listener; `size` is the window's size where it could be read.
    pub fn new(size: Option<(u16, u16)>) -> (listener: Self)
        ensures
            listener.known_size() == size_after(default_size(), size),
    {
        AsyncSignalListener {
            last_size: match size {
                Some(size) => size,
                None => (80, 24),
            },
        }
    }

    /// Takes note of what it was woken by.
    pub fn recv(&mut self, wakeup: ListenerWakeup) -> (listened: Listened)
        ensures
            match wakeup {
                ListenerWakeup::Tick(size) => {
                    &&& final(self).known_size() == size_after(old(self).known_size(), size)
                    &&& size is Some && size->0 != old(self).known_size() ==> listened
                        == Listened::Event(SignalEvent::Resize)
                    &&& listened == if size_changed(old(self).known_size(), size) {
                        Listened::Event(SignalEvent::Resize)
                    } else {
                        Listened::Nothing
                    }
                },
                ListenerWakeup::Control { received } => {
                    &&& final(self).known_size() == old(self).known_size()
                    &&& listened == if received {
                        Listened::Event(SignalEvent::Quit)
                    } else {
                        Listened::End
                    }
                },
            },
    {
        match wakeup {
            ListenerWakeup::Tick(size) => {
                if note_size(&mut self.last_size, size) {
                    Listened::Event(SignalEvent::Resize)
                } else {
                    Listened::Nothing
                }
            },
            ListenerWakeup::Control { received } => {
                if received {
                    Listened::Event(SignalEvent::Quit)
                } else {
                    Listened::End
                }
            },
        }
    }
}

/// What a control handler returns for the control event `ctrl_type`.
pub open spec fn handles(ctrl_type: u32) -> i32 {
    if ctrl_type <= 2 {
        1
    } else {
        0
    }
}

/// Whether the session ends at the console control event `ctrl_type`: Ctrl-C,
/// Ctrl-Break and closing the window. The result is the one that a control
/// handler returns, 1 for an event that it handles.
pub fn ctrl_handler(ctrl_type: u32) -> (handled: i32)
    ensures
        handled == if ctrl_type <= 2 {
            1i32
        } else {
            0i32
        },
        handled == handles(ctrl_type),
{
    if ctrl_type == crate::win32::ctrl_c_event() || ctrl_type == crate::win32::ctrl_break_event()
        || ctrl_type == crate::win32::ctrl_close_event() {
        1
    } else {
        0
    }
}

/// What a blocking wait for signals does next.
#[derive(Debug, Clone, Copy, PartialEq, Eq, Structural)]
pub enum SignalStep {
    Yield(SignalEvent),
    /// Wait for a note of a change of the size, at most this long.
    AwaitResize { timeout_millis: u64 },
    /// Look at the size.
    CheckSize,
    /// Do nothing for this long, then go on.
    Sleep { millis: u64 },
    /// Go on.
    Again,
}

/// How waiting for a note of a change of the size went.
#[derive(Debug, Clone, Copy, PartialEq, Eq, Structural)]
pub enum ResizeNote {
    Arrived,
    TimedOut,
    /// Nobody is left to send one.
    Disconnected,
}

/// The state of a blocking wait for signals: the last known size, and whether
/// changes of it are told or have to be looked for.
pub struct SignalWait {
    pub last_size: (u16, u16),
    pub is_told: bool,
}

impl SignalWait {
    /// What is done next.
    pub open spec fn next(self, quit_received: bool) -> SignalStep {
        if quit_received {
            SignalStep::Yield(SignalEvent::Quit)
        } else if self.is_told {
            SignalStep::AwaitResize { timeout_millis: RESIZE_WAIT_MILLIS }
        } else {
            SignalStep::CheckSize
        }
    }

    /// The state after waiting for a note, and what is done next.
    pub open spec fn after_note(self, note: ResizeNote) -> (Self, SignalStep) {
        match note {
            ResizeNote::Arrived => (self, SignalStep::Yield(SignalEvent::Resize)),
            ResizeNote::TimedOut => (self, SignalStep::Again),
            ResizeNote::Disconnected => (
                SignalWait { is_told: false, ..self },
                SignalStep::Again,
            ),
        }
    }

    /// The state after looking at the size, and what is done next.
    pub open spec fn after_size(self, size: Option<(u16, u16)>) -> (Self, SignalStep) {
        (
            SignalWait { last_size: size_after(self.last_size, size), ..self },
            if size_changed(self.last_size, size) {
                SignalStep::Yield(SignalEvent::Resize)
            } else {
                SignalStep::Sleep { millis: SIZE_POLL_MILLIS }
            },
        )
    }
}

/// Waits for signals. Changes of the window's size are told by whoever reads the
/// console's events; where nobody does, the size is looked at from time to time.
pub struct BlockingSignalIterator {
    last_size: (u16, u16),
    is_told: bool,
}

impl View for BlockingSignalIterator {
    type V = SignalWait;

    closed spec fn view(&self) -> SignalWait {
        SignalWait { last_size: self.last_size, is_told: self.is_told }
    }
}

impl BlockingSignalIterator {
    /// A wait for signals; `is_told` if changes of the size are told, and `size`
    /// is the window's size where it could be read.
    pub fn new(is_told: bool, size: Option<(u16, u16)>) -> (signals: Self)
        ensures
            signals@ == (SignalWait { last_size: size_after(default_size(), size), is_told }),
    {
        BlockingSignalIterator {
            last_size: match size {
                Some(size) => size,
                None => (80, 24),
            },
            is_told,
        }
    }

    /// What is done next; `quit_received` if the session is to end.
    pub fn next(&self, quit_received: bool) -> (step: SignalStep)
        ensures
            step == self@.next(quit_received),
    {
        if quit_received {
            SignalStep::Yield(SignalEvent::Quit)
        } else if self.is_told {
            SignalStep::AwaitResize { timeout_millis: RESIZE_WAIT_MILLIS }
        } else {
            SignalStep::CheckSize
        }
    }

    /// Takes note of how waiting for a change of the size went.
    pub fn resize_awaited(&mut self, note: ResizeNote) -> (step: SignalStep)
        ensures
            (final(self)@, step) == old(self)@.after_note(note),
    {
        match note {
            ResizeNote::Arrived => SignalStep::Yield(SignalEvent::Resize),
            ResizeNote::TimedOut => SignalStep::Again,
            ResizeNote::Disconnected => {
                self.is_told = false;
                SignalStep::Again
            },
        }
    }

    /// Takes note of the window's size, where it could be read.
    pub fn size_checked(&mut self, size: Option<(u16, u16)>) -> (step: SignalStep)
        ensures
            (final(self)@, step) == old(self)@.after_size(size),
            size is Some && size->0 != old(self)@.last_size ==> step == SignalStep::Yield(
                SignalEvent::Resize,
            ),
    {
        if note_size(&mut self.last_size, size) {
            SignalStep::Yield(SignalEvent::Resize)
        } else {
            SignalStep::Sleep { millis: SIZE_POLL_MILLIS }
        }
    }
}

/// A change of the size is reported once: looking at the same size again, or not
/// being able to, reports nothing.
pub proof fn law_resize_is_reported_once(wait: SignalWait, size: (u16, u16))
    ensures
        wait.after_size(Some(size)).0.after_size(Some(size)).1 == (SignalStep::Sleep {
            millis: SIZE_POLL_MILLIS,
        }),
        wait.after_size(None) == (wait, SignalStep::Sleep { millis: SIZE_POLL_MILLIS }),
        !size_changed(size_after(wait.last_size, Some(size)), Some(size)),
{
}

/// Once nobody is left to tell of changes, the size is looked at for good.
pub proof fn law_untold_wait_stays_untold(
    wait: SignalWait,
    note: ResizeNote,
    size: Option<(u16, u16)>,
)
    ensures
        !wait.after_note(ResizeNote::Disconnected).0.is_told,
        !wait.is_told ==> wait.next(false) == SignalStep::CheckSize,
        !wait.is_told ==> !wait.after_note(note).0.is_told,
        !wait.is_told ==> !wait.after_size(size).0.is_told,
{
}

/// The end of the session goes before everything else.
pub proof fn law_quit_goes_first(wait: SignalWait)
    ensures
        wait.next(true) == SignalStep::Yield(SignalEvent::Quit),
{
}

/// One thing to do to turn the reporting of mouse events on or off.
#[derive(Debug, Clone, Copy, PartialEq, Eq, Structural)]
pub enum MouseStep {
    /// Let standard output process escape sequences.
    EnableTerminalProcessing,
    /// Write the escape sequences for it.
    WriteSequences,
    Flush,
    /// Go through the console's own interface.
    UseConsoleInterface,
}

/// What turns the reporting of mouse events on or off.
pub open spec fn mouse_steps(terminal_is_named: bool, on: bool) -> Seq<MouseStep> {
    if !terminal_is_named {
        seq![MouseStep::UseConsoleInterface]
    } else if on {
        seq![MouseStep::EnableTerminalProcessing, MouseStep::WriteSequences, MouseStep::Flush]
    } else {
        seq![MouseStep::WriteSequences, MouseStep::Flush]
    }
}

/// What turns the reporting of mouse events on. Where the terminal has a name,
/// the console's own interface would overwrite the input mode, so escape
/// sequences are written.
pub fn enable_mouse_support(terminal_is_named: bool) -> (steps: Vec<MouseStep>)
    ensures
        steps@ == if terminal_is_named {
            seq![MouseStep::EnableTerminalProcessing, MouseStep::WriteSequences, MouseStep::Flush]
        } else {
            seq![MouseStep::UseConsoleInterface]
        },
        steps@ == mouse_steps(terminal_is_named, true),
{
    if terminal_is_named {
        vec![MouseStep::EnableTerminalProcessing, MouseStep::WriteSequences, MouseStep::Flush]
    } else {
        vec![MouseStep::UseConsoleInterface]
    }
}

/// What turns the reporting of mouse events off.
pub fn disable_mouse_support(terminal_is_named: bool) -> (steps: Vec<MouseStep>)
    ensures
        steps@ == if terminal_is_named {
            seq![MouseStep::WriteSequences, MouseStep::Flush]
        } else {
            seq![MouseStep::UseConsoleInterface]
        },
        steps@ == mouse_steps(terminal_is_named, false),
{
    if terminal_is_named {
        vec![MouseStep::WriteSequences, MouseStep::Flush]
    } else {
        vec![MouseStep::UseConsoleInterface]
    }
}

/// Every change of the size is reported, whichever of columns and rows differs and
/// whether the window grew or shrank; the new size is then the known one. Nothing
/// else is reported.
pub proof fn law_every_change_of_size_is_reported(wait: SignalWait, size: (u16, u16))
    ensures
        size.0 != wait.last_size.0 || size.1 != wait.last_size.1 ==> wait.after_size(Some(size)).1
            == SignalStep::Yield(SignalEvent::Resize),
        size.0 == wait.last_size.0 && size.1 == wait.last_size.1 ==> wait.after_size(Some(size)).1
            == (SignalStep::Sleep { millis: 50 }),
        wait.after_size(None).1 == (SignalStep::Sleep { millis: 50 }),
        wait.after_size(Some(size)).0.last_size == size,
        wait.after_size(None).0.last_size == wait.last_size,
        wait.after_size(Some(size)).0.is_told == wait.is_told,
        wait.after_size(None).0.is_told == wait.is_told,
{
}

/// What the listener goes by when it looks at the size: a size is news exactly if
/// its columns or its rows are not the last known ones, and it is the last known
/// one from then on. Where it cannot be read, 80 columns and 24 rows are assumed at
/// first, and nothing is news.
pub proof fn law_any_other_size_is_news(last: (u16, u16), size: (u16, u16))
    ensures
        size_changed(last, Some(size)) <==> !(size.0 == last.0 && size.1 == last.1),
        size_after(last, Some(size)) == size,
        !size_changed(last, None),
        size_after(last, None) == last,
        size_after(default_size(), None).0 == 80 && size_after(default_size(), None).1 == 24,
        size_changed(last, Some(size)) == size_changed(size, Some(last)),
{
}

/// Sizes that are looked at one after the other: what is reported are the places
/// at which one differs from the one before it.
pub proof fn law_resizes_are_reported_where_sizes_differ(
    wait: SignalWait,
    first: (u16, u16),
    second: (u16, u16),
)
    ensures
        (wait.after_size(Some(first)).0.after_size(Some(second)).1 == SignalStep::Yield(
            SignalEvent::Resize,
        )) <==> first != second,
{
}

/// A note of a change is passed on as one and changes nothing else; until one comes
/// it is waited for again and again, for a tenth of a second each.
pub proof fn law_told_changes_are_passed_on(wait: SignalWait)
    ensures
        wait.after_note(ResizeNote::Arrived) == (wait, SignalStep::Yield(SignalEvent::Resize)),
        wait.after_note(ResizeNote::TimedOut) == (wait, SignalStep::Again),
        wait.after_note(ResizeNote::Disconnected).1 == SignalStep::Again,
        wait.after_note(ResizeNote::Disconnected).0.last_size == wait.last_size,
        wait.is_told ==> wait.next(false) == (SignalStep::AwaitResize { timeout_millis: 100 }),
{
}

/// The session ends at Ctrl-C, at Ctrl-Break and when the window is closed, which
/// are the control events 0, 1 and 2, and at no other.
pub proof fn law_three_control_events_are_handled(ctrl_type: u32)
    ensures
        handles(0) == 1 && handles(1) == 1 && handles(2) == 1,
        ctrl_type > 2 ==> handles(ctrl_type) == 0,
{
}

/// The console's own interface is used exactly where the terminal has no name, and
/// nothing else is done there; where it has one, escape sequences are written and
/// flushed in this order, after they were made to be processed if they are to turn
/// the reporting on.
pub proof fn law_named_terminals_keep_their_mode(on: bool)
    ensures
        mouse_steps(false, on).len() == 1 && mouse_steps(false, on)[0]
            == MouseStep::UseConsoleInterface,
        !mouse_steps(true, on).contains(MouseStep::UseConsoleInterface),
        mouse_steps(true, on).len() == if on {
            3int
        } else {
            2
        },
        mouse_steps(true, on)[mouse_steps(true, on).len() - 2] == MouseStep::WriteSequences,
        mouse_steps(true, on)[mouse_steps(true, on).len() - 1] == MouseStep::Flush,
        mouse_steps(true, true)[0] == MouseStep::EnableTerminalProcessing,
{
}

} // verus!
