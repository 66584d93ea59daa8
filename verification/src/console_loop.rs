//! The loop that reads console events and sends instructions, as a machine: it
//! says what to do next and is told how that went.
use crate::keys::KeyWithModifier;
use crate::stdin_handler::{
    KittySequenceTrace, NativeKeyDispatch, NativeKittySequenceBuffer,
    NATIVE_KITTY_SEQUENCE_TIMEOUT_MILLIS,
};
use std::collections::VecDeque;
use vstd::prelude::*;

verus! {

/// What reading one console event gave. `M` is a mouse event.
pub enum ConsoleEvent<M> {
    /// A key: whether it was pressed (and not released or repeated), and the key
    /// and the bytes that it stands for, where it stands for any.
    Key { pressed: bool, cast: Option<(KeyWithModifier, Vec<u8>)> },
    Mouse(M),
    Paste(String),
    Resize,
    /// An event that nothing follows from.
    Other,
    /// There was no event to be had.
    Failed,
}

/// How waiting for a console event went.
#[derive(Debug, Clone, Copy, PartialEq, Eq, Structural)]
pub enum PollOutcome {
    Ready,
    TimedOut,
    Failed,
}

/// An instruction to send.
pub enum ConsoleAction<M> {
    SendKey(NativeKeyDispatch),
    SendMouse(M),
    /// A pasted text, with its bytes.
    SendPaste { text: String, raw_bytes: Vec<u8> },
    /// Tell whoever follows the size of the window that it has changed.
    NotifyResize,
    SendExit,
}

/// What the loop does next.
pub enum LoopWork<M> {
    Perform(ConsoleAction<M>),
    /// Wait for an event, at most this long.
    Poll { timeout_millis: u64 },
    Read,
    Stop,
}

/// An event as a value.
pub enum EventValue<M> {
    Key { pressed: bool, cast: Option<crate::stdin_handler::TypedKey> },
    Mouse(M),
    Paste(Seq<char>),
    Resize,
    Other,
    Failed,
}

/// An instruction as a value.
pub enum Instruction<M> {
    Key(crate::stdin_handler::Dispatch),
    Mouse(M),
    Paste { text: Seq<char>, raw: Seq<u8> },
    Resize,
    Exit,
}

/// What the loop does next, as a value.
pub enum WorkValue<M> {
    Perform(Instruction<M>),
    Poll { timeout_millis: u64 },
    Read,
    Stop,
}

impl<M> View for ConsoleEvent<M> {
    type V = EventValue<M>;

    open spec fn view(&self) -> EventValue<M> {
        match self {
            ConsoleEvent::Key { pressed, cast } => EventValue::Key {
                pressed: *pressed,
                cast: match cast {
                    Some(cast) => Some(
                        crate::stdin_handler::TypedKey { key: cast.0, raw: cast.1@ },
                    ),
                    None => None,
                },
            },
            ConsoleEvent::Mouse(mouse) => EventValue::Mouse(*mouse),
            ConsoleEvent::Paste(text) => EventValue::Paste(text@),
            ConsoleEvent::Resize => EventValue::Resize,
            ConsoleEvent::Other => EventValue::Other,
            ConsoleEvent::Failed => EventValue::Failed,
        }
    }
}

impl<M> View for ConsoleAction<M> {
    type V = Instruction<M>;

    open spec fn view(&self) -> Instruction<M> {
        match self {
            ConsoleAction::SendKey(dispatch) => Instruction::Key(dispatch@),
            ConsoleAction::SendMouse(mouse) => Instruction::Mouse(*mouse),
            ConsoleAction::SendPaste { text, raw_bytes } => Instruction::Paste {
                text: text@,
                raw: raw_bytes@,
            },
            ConsoleAction::NotifyResize => Instruction::Resize,
            ConsoleAction::SendExit => Instruction::Exit,
        }
    }
}

impl<M> View for LoopWork<M> {
    type V = WorkValue<M>;

    open spec fn view(&self) -> WorkValue<M> {
        match self {
            LoopWork::Perform(action) => WorkValue::Perform(action@),
            LoopWork::Poll { timeout_millis } => WorkValue::Poll { timeout_millis: *timeout_millis },
            LoopWork::Read => WorkValue::Read,
            LoopWork::Stop => WorkValue::Stop,
        }
    }
}

/// Where in the loop the machine is.
#[derive(Debug, Clone, Copy, PartialEq, Eq, Structural)]
pub enum LoopPhase {
    /// At the top: a report that has begun is waited for.
    Waiting,
    /// An event is there to be read.
    Reading,
    /// Nothing is read any more.
    Leaving,
}

/// The instructions that hand `dispatches` on.
pub open spec fn key_instructions<M>(dispatches: Seq<crate::stdin_handler::Dispatch>) -> Seq<
    Instruction<M>,
> {
    dispatches.map_values(|dispatch: crate::stdin_handler::Dispatch| Instruction::<M>::Key(dispatch))
}

/// Whether the loop ends where `instruction` cannot be sent.
pub open spec fn must_arrive<M>(instruction: Instruction<M>) -> bool {
    instruction is Key || instruction is Mouse || instruction is Paste
}

/// The state of the loop as a value: the keys that may be a report, the
/// instructions that are still to be sent, and whether the last one that was
/// given out has to arrive.
pub struct LoopState<M> {
    pub buffer: crate::stdin_handler::ReportBuffer,
    pub outbox: Seq<Instruction<M>>,
    pub phase: LoopPhase,
    pub notifies_resize: bool,
    pub in_flight_must_arrive: bool,
}

impl<M> LoopState<M> {
    /// The loop before it has done anything.
    pub open spec fn fresh(enabled: bool, notifies_resize: bool) -> Self {
        LoopState {
            buffer: crate::stdin_handler::ReportBuffer::fresh(enabled),
            outbox: Seq::empty(),
            phase: LoopPhase::Waiting,
            notifies_resize,
            in_flight_must_arrive: false,
        }
    }

    /// What is to be done next, and the state with that given out: first all
    /// instructions, then reading; where a report has begun, an event is waited
    /// for before it is read.
    pub open spec fn next(self) -> (Self, WorkValue<M>) {
        if self.outbox.len() > 0 {
            (
                LoopState {
                    outbox: self.outbox.drop_first(),
                    in_flight_must_arrive: must_arrive(self.outbox[0]),
                    ..self
                },
                WorkValue::Perform(self.outbox[0]),
            )
        } else {
            (
                self,
                match self.phase {
                    LoopPhase::Leaving => WorkValue::Stop,
                    LoopPhase::Reading => WorkValue::Read,
                    LoopPhase::Waiting => if self.buffer.pending.len() > 0 {
                        WorkValue::Poll { timeout_millis: NATIVE_KITTY_SEQUENCE_TIMEOUT_MILLIS }
                    } else {
                        WorkValue::Read
                    },
                },
            )
        }
    }

    /// The state after an instruction was sent, or could not be.
    pub open spec fn after_performing(self, delivered: bool) -> Self {
        if self.in_flight_must_arrive && !delivered {
            LoopState {
                outbox: Seq::empty(),
                phase: LoopPhase::Leaving,
                in_flight_must_arrive: false,
                ..self
            }
        } else {
            LoopState { in_flight_must_arrive: false, ..self }
        }
    }

    /// The state in which the held keys are handed on for `reason`, and `more` after
    /// them.
    pub open spec fn flushing(self, reason: Seq<char>, more: Seq<Instruction<M>>) -> Self {
        LoopState {
            buffer: self.buffer.flushed(reason),
            outbox: self.outbox + key_instructions(
                crate::stdin_handler::all_as_typed(self.buffer.pending),
            ) + more,
            phase: LoopPhase::Waiting,
            ..self
        }
    }

    /// The state in which the loop is given up.
    pub open spec fn giving_up(self) -> Self {
        LoopState {
            outbox: self.outbox.push(Instruction::Exit),
            phase: LoopPhase::Leaving,
            ..self
        }
    }

    /// The state after waiting for an event.
    pub open spec fn after_polling(self, outcome: PollOutcome) -> Self {
        if self.phase == LoopPhase::Leaving {
            self
        } else {
            match outcome {
                PollOutcome::Ready => LoopState { phase: LoopPhase::Reading, ..self },
                PollOutcome::TimedOut => self.flushing("timeout"@, Seq::empty()),
                PollOutcome::Failed => self.giving_up(),
            }
        }
    }

    /// The state after an event was read.
    pub open spec fn after_reading(self, event: EventValue<M>) -> Self {
        if self.phase == LoopPhase::Leaving {
            self
        } else {
            match event {
                EventValue::Key { pressed, cast } => if !pressed {
                    LoopState { phase: LoopPhase::Waiting, ..self }
                } else {
                    match cast {
                        Some(key) => LoopState {
                            buffer: self.buffer.pushed(key).0,
                            outbox: self.outbox + key_instructions(self.buffer.pushed(key).1),
                            phase: LoopPhase::Waiting,
                            ..self
                        },
                        None => self.flushing("uncast_key_event"@, Seq::empty()),
                    }
                },
                EventValue::Mouse(mouse) => self.flushing(
                    "non_key_event"@,
                    seq![Instruction::Mouse(mouse)],
                ),
                EventValue::Paste(text) => self.flushing(
                    "non_key_event"@,
                    seq![Instruction::Paste { text, raw: vstd::utf8::encode_utf8(text) }],
                ),
                EventValue::Resize => self.flushing(
                    "non_key_event"@,
                    if self.notifies_resize {
                        seq![Instruction::Resize]
                    } else {
                        Seq::empty()
                    },
                ),
                EventValue::Other => LoopState { phase: LoopPhase::Waiting, ..self },
                EventValue::Failed => self.giving_up(),
            }
        }
    }
}

/// The loop that reads console events and sends instructions.
pub struct NativeConsoleLoop<M> {
    buffer: NativeKittySequenceBuffer,
    outbox: VecDeque<ConsoleAction<M>>,
    phase: LoopPhase,
    notifies_resize: bool,
    in_flight_must_arrive: bool,
}

spec fn instructions<M>(outbox: Seq<ConsoleAction<M>>) -> Seq<Instruction<M>> {
    outbox.map_values(|action: ConsoleAction<M>| action@)
}

impl<M> View for NativeConsoleLoop<M> {
    type V = LoopState<M>;

    closed spec fn view(&self) -> LoopState<M> {
        LoopState {
            buffer: self.buffer@,
            outbox: instructions(self.outbox@),
            phase: self.phase,
            notifies_resize: self.notifies_resize,
            in_flight_must_arrive: self.in_flight_must_arrive,
        }
    }
}

impl<M> NativeConsoleLoop<M> {
    /// The loop before it has done anything. It looks for typed-out reports
    /// unless they are explicitly disabled, and passes changes of the window's
    /// size on if `notifies_resize`.
    pub fn new(explicitly_disable_kitty_keyboard_protocol: bool, notifies_resize: bool) -> (state:
        Self)
        ensures
            state@ == LoopState::<M>::fresh(
                !explicitly_disable_kitty_keyboard_protocol,
                notifies_resize,
            ),
    {
        let state = NativeConsoleLoop {
            buffer: NativeKittySequenceBuffer::new(!explicitly_disable_kitty_keyboard_protocol),
            outbox: VecDeque::new(),
            phase: LoopPhase::Waiting,
            notifies_resize,
            in_flight_must_arrive: false,
        };
        assert(instructions(state.outbox@) =~= Seq::empty());
        state
    }

    /// What is to be done next.
    pub fn next_work(&mut self) -> (work: LoopWork<M>)
        ensures
            (final(self)@, work@) == old(self)@.next(),
    {
        match self.outbox.pop_front() {
            Some(action) => {
                assert(instructions(self.outbox@) =~= old(self)@.outbox.drop_first());
                self.in_flight_must_arrive = match action {
                    ConsoleAction::SendKey(_) => true,
                    ConsoleAction::SendMouse(_) => true,
                    ConsoleAction::SendPaste { .. } => true,
                    ConsoleAction::NotifyResize => false,
                    ConsoleAction::SendExit => false,
                };
                LoopWork::Perform(action)
            },
            None => match self.phase {
                LoopPhase::Leaving => LoopWork::Stop,
                LoopPhase::Reading => LoopWork::Read,
                LoopPhase::Waiting => {
                    if self.buffer.has_pending() {
                        LoopWork::Poll { timeout_millis: NATIVE_KITTY_SEQUENCE_TIMEOUT_MILLIS }
                    } else {
                        LoopWork::Read
                    }
                },
            },
        }
    }

    /// Takes note of how sending the last instruction went.
    pub fn performed(&mut self, delivered: bool)
        ensures
            final(self)@ == old(self)@.after_performing(delivered),
    {
        if self.in_flight_must_arrive && !delivered {
            self.outbox.clear();
            assert(instructions(self.outbox@) =~= Seq::empty());
            self.phase = LoopPhase::Leaving;
        }
        self.in_flight_must_arrive = false;
    }

    /// Takes note of how waiting for an event went.
    pub fn polled(&mut self, outcome: PollOutcome)
        ensures
            final(self)@ == old(self)@.after_polling(outcome),
    {
        if self.phase == LoopPhase::Leaving {
            return;
        }
        match outcome {
            PollOutcome::Ready => {
                self.phase = LoopPhase::Reading;
            },
            PollOutcome::TimedOut => {
                self.flush("timeout");
            },
            PollOutcome::Failed => {
                self.give_up();
            },
        }
    }

    /// Takes the event that was read.
    pub fn event_read(&mut self, event: ConsoleEvent<M>)
        ensures
            final(self)@ == old(self)@.after_reading(event@),
    {
        if self.phase == LoopPhase::Leaving {
            return;
        }
        match event {
            ConsoleEvent::Key { pressed, cast } => {
                if !pressed {
                    self.phase = LoopPhase::Waiting;
                } else {
                    match cast {
                        Some((key, raw_bytes)) => {
                            let dispatches = self.buffer.push(key, raw_bytes);
                            self.send_all(dispatches);
                            self.phase = LoopPhase::Waiting;
                        },
                        None => {
                            self.flush("uncast_key_event");
                        },
                    }
                }
            },
            ConsoleEvent::Mouse(mouse) => {
                self.flush("non_key_event");
                self.send(ConsoleAction::SendMouse(mouse));
            },
            ConsoleEvent::Paste(text) => {
                self.flush("non_key_event");
                let mut raw_bytes: Vec<u8> = Vec::new();
                raw_bytes.extend_from_slice(text.as_str().as_bytes());
                assert(raw_bytes@ =~= vstd::utf8::encode_utf8(text@));
                self.send(ConsoleAction::SendPaste { text, raw_bytes });
            },
            ConsoleEvent::Resize => {
                self.flush("non_key_event");
                if self.notifies_resize {
                    self.send(ConsoleAction::NotifyResize);
                }
            },
            ConsoleEvent::Other => {
                self.phase = LoopPhase::Waiting;
            },
            ConsoleEvent::Failed => {
                self.give_up();
            },
        }
    }

    /// What became of the last typed-out report, where that was not yet told.
    pub fn take_trace(&mut self) -> (trace: Option<KittySequenceTrace>)
        ensures
            crate::stdin_handler::trace_value(trace) == old(self)@.buffer.trace,
            final(self)@ == (LoopState { buffer: old(self)@.buffer.untraced(), ..old(self)@ }),
    {
        self.buffer.take_trace()
    }

    /// Puts one instruction behind the others.
    fn send(&mut self, action: ConsoleAction<M>)
        ensures
            final(self)@ == (LoopState {
                outbox: old(self)@.outbox + seq![action@],
                ..old(self)@
            }),
    {
        self.outbox.push_back(action);
        assert(instructions(self.outbox@) =~= old(self)@.outbox + seq![action@]);
    }

    /// Puts the keys of `dispatches` behind the other instructions.
    fn send_all(&mut self, dispatches: Vec<NativeKeyDispatch>)
        ensures
            final(self)@ == (LoopState {
                outbox: old(self)@.outbox + key_instructions(
                    crate::stdin_handler::dispatch_values(dispatches@),
                ),
                ..old(self)@
            }),
    {
        let mut rest = dispatches;
        let ghost all = crate::stdin_handler::dispatch_values(dispatches@);
        let ghost before = self@;
        assert(before.outbox =~= before.outbox + key_instructions::<M>(all.take(0)));
        while rest.len() > 0
            invariant
                rest@.len() <= dispatches@.len(),
                rest@ == dispatches@.skip(dispatches@.len() - rest@.len()),
                all == crate::stdin_handler::dispatch_values(dispatches@),
                self@ == (LoopState {
                    outbox: before.outbox + key_instructions(
                        all.take(dispatches@.len() - rest@.len()),
                    ),
                    ..before
                }),
            decreases rest@.len(),
        {
            let ghost done = dispatches@.len() - rest@.len();
            let dispatch = rest.remove(0);
            assert(rest@ =~= dispatches@.skip(done + 1));
            assert(key_instructions::<M>(all.take(done + 1)) =~= key_instructions::<M>(
                all.take(done),
            ) + seq![Instruction::<M>::Key(all[done])]);
            self.send(ConsoleAction::SendKey(dispatch));
            assert(self@.outbox =~= before.outbox + key_instructions::<M>(all.take(done + 1)));
        }
        assert(all.take(all.len() as int) =~= all);
    }

    /// Puts the held keys behind the other instructions.
    fn flush(&mut self, reason: &'static str)
        ensures
            final(self)@ == old(self)@.flushing(reason@, Seq::empty()),
    {
        let dispatches = self.buffer.flush_pending(reason);
        self.send_all(dispatches);
        self.phase = LoopPhase::Waiting;
        assert(self@.outbox =~= self@.outbox + Seq::empty());
    }

    /// Gives the loop up.
    fn give_up(&mut self)
        ensures
            final(self)@ == old(self)@.giving_up(),
    {
        self.send(ConsoleAction::SendExit);
        assert(self@.outbox =~= old(self)@.outbox.push(Instruction::Exit));
        self.phase = LoopPhase::Leaving;
    }
}

/// What the loop is told between two instructions.
pub enum LoopInput<M> {
    Read(EventValue<M>),
    Polled(PollOutcome),
}

impl<M> LoopInput<M> {
    /// Whether there was no event to be had.
    pub open spec fn is_failure(self) -> bool {
        self == LoopInput::<M>::Read(EventValue::Failed) || self == LoopInput::<M>::Polled(
            PollOutcome::Failed,
        )
    }
}

impl<M> LoopState<M> {
    /// The state after `input`.
    pub open spec fn after_input(self, input: LoopInput<M>) -> Self {
        match input {
            LoopInput::Read(event) => self.after_reading(event),
            LoopInput::Polled(outcome) => self.after_polling(outcome),
        }
    }

    /// The state once all instructions were sent.
    pub open spec fn all_sent(self) -> Self {
        LoopState { outbox: Seq::empty(), in_flight_must_arrive: false, ..self }
    }

    /// The state after `inputs`, with all instructions sent after each of them; and
    /// the instructions that were sent.
    pub open spec fn after_inputs(self, inputs: Seq<LoopInput<M>>) -> (Self, Seq<Instruction<M>>)
        decreases inputs.len(),
    {
        if inputs.len() == 0 {
            (self, Seq::empty())
        } else {
            let (before, sent) = self.after_inputs(inputs.drop_last());
            let after = before.after_input(inputs.last());
            (after.all_sent(), sent + after.outbox)
        }
    }

    /// The bytes that were typed or pasted for the instructions that are still to
    /// be sent and for the keys that are held.
    pub open spec fn bytes_inside(self) -> Seq<u8> {
        instruction_bytes(self.outbox) + crate::stdin_handler::bytes_of(self.buffer.pending)
    }
}

/// The bytes that were typed or pasted for `instructions`.
pub open spec fn instruction_bytes<M>(instructions: Seq<Instruction<M>>) -> Seq<u8>
    decreases instructions.len(),
{
    if instructions.len() == 0 {
        Seq::empty()
    } else {
        instruction_bytes(instructions.drop_last()) + match instructions.last() {
            Instruction::Key(dispatch) => crate::stdin_handler::typed_bytes(seq![dispatch]),
            Instruction::Paste { raw, .. } => raw,
            _ => Seq::empty(),
        }
    }
}

/// The bytes that were typed or pasted in `input`.
pub open spec fn typed_in<M>(input: LoopInput<M>) -> Seq<u8> {
    match input {
        LoopInput::Read(EventValue::Key { pressed: true, cast: Some(key) }) => key.raw,
        LoopInput::Read(EventValue::Paste(text)) => vstd::utf8::encode_utf8(text),
        _ => Seq::empty(),
    }
}

/// The bytes that were typed or pasted in `inputs`.
pub open spec fn all_typed_in<M>(inputs: Seq<LoopInput<M>>) -> Seq<u8>
    decreases inputs.len(),
{
    if inputs.len() == 0 {
        Seq::empty()
    } else {
        all_typed_in(inputs.drop_last()) + typed_in(inputs.last())
    }
}

proof fn lemma_instruction_bytes_add<M>(first: Seq<Instruction<M>>, second: Seq<Instruction<M>>)
    ensures
        instruction_bytes(first + second) == instruction_bytes(first) + instruction_bytes(second),
    decreases second.len(),
{
    if second.len() == 0 {
        assert(first + second =~= first);
        assert(instruction_bytes(first) =~= instruction_bytes(first) + instruction_bytes(second));
    } else {
        assert((first + second).drop_last() =~= first + second.drop_last());
        assert((first + second).last() == second.last());
        lemma_instruction_bytes_add(first, second.drop_last());
        assert(instruction_bytes(first + second) =~= instruction_bytes(first) + instruction_bytes(
            second,
        ));
    }
}

proof fn lemma_key_instruction_bytes<M>(dispatches: Seq<crate::stdin_handler::Dispatch>)
    ensures
        instruction_bytes(key_instructions::<M>(dispatches)) == crate::stdin_handler::typed_bytes(
            dispatches,
        ),
    decreases dispatches.len(),
{
    if dispatches.len() > 0 {
        let keys = key_instructions::<M>(dispatches);
        assert(keys.drop_last() =~= key_instructions::<M>(dispatches.drop_last()));
        lemma_key_instruction_bytes::<M>(dispatches.drop_last());
        let last = seq![dispatches.last()];
        assert(last.drop_last() =~= Seq::empty());
        assert(crate::stdin_handler::typed_bytes(last.drop_last()) =~= Seq::empty());
        assert(instruction_bytes(keys) =~= crate::stdin_handler::typed_bytes(dispatches));
    }
}

proof fn lemma_flushing_keeps_bytes<M>(
    state: LoopState<M>,
    reason: Seq<char>,
    more: Seq<Instruction<M>>,
)
    ensures
        state.flushing(reason, more).bytes_inside() == state.bytes_inside() + instruction_bytes(more),
{
    let typed = crate::stdin_handler::all_as_typed(state.buffer.pending);
    lemma_instruction_bytes_add(state.outbox + key_instructions(typed), more);
    lemma_instruction_bytes_add(state.outbox, key_instructions(typed));
    lemma_key_instruction_bytes::<M>(typed);
    crate::stdin_handler::law_flushed_bytes(state.buffer.pending);
    assert(state.flushing(reason, more).bytes_inside() =~= state.bytes_inside()
        + instruction_bytes(more));
}

proof fn lemma_input_keeps_bytes<M>(state: LoopState<M>, input: LoopInput<M>)
    requires
        state.phase != LoopPhase::Leaving,
        state.buffer.well_formed(),
        !input.is_failure(),
    ensures
        state.after_input(input).phase != LoopPhase::Leaving,
        state.after_input(input).buffer.well_formed(),
        state.after_input(input).bytes_inside() == state.bytes_inside() + typed_in(input),
{
    let nothing = Seq::<Instruction<M>>::empty();
    match input {
        LoopInput::Read(EventValue::Key { pressed: true, cast: Some(key) }) => {
            crate::stdin_handler::law_held_keys_begin_a_report(state.buffer, key);
            let outcome = crate::keyboard_parser::outcome_of(state.buffer.report_with(key));
            crate::stdin_handler::law_push_loses_no_key(state.buffer, key, outcome);
            let (after, out) = state.buffer.pushed(key);
            lemma_instruction_bytes_add(state.outbox, key_instructions(out));
            lemma_key_instruction_bytes::<M>(out);
            let sent = instruction_bytes(state.outbox);
            let typed = crate::stdin_handler::typed_bytes(out);
            let held = crate::stdin_handler::bytes_of(after.pending);
            assert(sent + typed + held =~= sent + (typed + held));
            assert(state.after_input(input).bytes_inside() =~= state.bytes_inside() + typed_in(
                input,
            ));
        },
        LoopInput::Read(EventValue::Mouse(mouse)) => {
            let more = seq![Instruction::Mouse(mouse)];
            lemma_flushing_keeps_bytes(state, "non_key_event"@, more);
            assert(more.drop_last() =~= nothing);
            assert(instruction_bytes(more.drop_last()) =~= Seq::empty());
            assert(instruction_bytes(more) =~= typed_in(input));
        },
        LoopInput::Read(EventValue::Paste(text)) => {
            let more = seq![
                Instruction::<M>::Paste { text, raw: vstd::utf8::encode_utf8(text) },
            ];
            lemma_flushing_keeps_bytes(state, "non_key_event"@, more);
            assert(more.drop_last() =~= nothing);
            assert(instruction_bytes(more.drop_last()) =~= Seq::empty());
            assert(instruction_bytes(more) =~= typed_in(input));
        },
        LoopInput::Read(EventValue::Resize) => {
            let more = seq![Instruction::<M>::Resize];
            lemma_flushing_keeps_bytes(state, "non_key_event"@, more);
            lemma_flushing_keeps_bytes(state, "non_key_event"@, nothing);
            assert(more.drop_last() =~= nothing);
            assert(instruction_bytes(more.drop_last()) =~= Seq::empty());
            assert(instruction_bytes(more) =~= typed_in(input));
        },
        LoopInput::Read(EventValue::Key { pressed: true, cast: None }) => {
            lemma_flushing_keeps_bytes(state, "uncast_key_event"@, nothing);
        },
        LoopInput::Polled(PollOutcome::TimedOut) => {
            lemma_flushing_keeps_bytes(state, "timeout"@, nothing);
        },
        _ => {
            assert(state.bytes_inside() + typed_in(input) =~= state.bytes_inside());
        },
    }
}

proof fn lemma_inputs_keep_bytes<M>(state: LoopState<M>, inputs: Seq<LoopInput<M>>)
    requires
        state.phase != LoopPhase::Leaving,
        state.buffer.well_formed(),
        state.outbox.len() == 0,
        forall|i: int| 0 <= i < inputs.len() ==> !(#[trigger] inputs[i]).is_failure(),
    ensures
        ({
            let (after, sent) = state.after_inputs(inputs);
            &&& after.phase != LoopPhase::Leaving
            &&& after.buffer.well_formed()
            &&& after.outbox.len() == 0
            &&& instruction_bytes(sent) + crate::stdin_handler::bytes_of(after.buffer.pending)
                == crate::stdin_handler::bytes_of(state.buffer.pending) + all_typed_in(inputs)
        }),
    decreases inputs.len(),
{
    let start = crate::stdin_handler::bytes_of(state.buffer.pending);
    if inputs.len() == 0 {
        assert(start + all_typed_in(inputs) =~= start);
        assert(instruction_bytes(Seq::<Instruction<M>>::empty()) + start =~= start);
    } else {
        let earlier = inputs.drop_last();
        assert forall|i: int| 0 <= i < earlier.len() implies !(
        #[trigger] earlier[i]).is_failure() by {
            assert(earlier[i] == inputs[i]);
        }
        lemma_inputs_keep_bytes(state, earlier);
        let (before, sent) = state.after_inputs(earlier);
        let last = inputs.last();
        assert(!inputs[inputs.len() - 1].is_failure());
        lemma_input_keeps_bytes(before, last);
        let after = before.after_input(last);
        lemma_instruction_bytes_add(sent, after.outbox);
        let held_before = crate::stdin_handler::bytes_of(before.buffer.pending);
        let held_after = crate::stdin_handler::bytes_of(after.buffer.pending);
        assert(before.outbox =~= Seq::empty());
        assert(before.bytes_inside() =~= held_before);
        assert(instruction_bytes(sent + after.outbox) + held_after =~= instruction_bytes(sent) + (
        held_before + typed_in(last)));
        assert(instruction_bytes(sent) + (held_before + typed_in(last)) =~= (instruction_bytes(sent)
            + held_before) + typed_in(last));
        assert(start + all_typed_in(inputs) =~= (start + all_typed_in(earlier)) + typed_in(last));
    }
}

/// No typed or pasted byte is lost, and none comes out of its order: as long as
/// events can be had and instructions arrive, what was sent and what is still held
/// came as exactly the bytes of the events.
pub proof fn law_no_input_is_lost<M>(
    enabled: bool,
    notifies_resize: bool,
    inputs: Seq<LoopInput<M>>,
)
    requires
        forall|i: int| 0 <= i < inputs.len() ==> !(#[trigger] inputs[i]).is_failure(),
    ensures
        ({
            let (after, sent) = LoopState::<M>::fresh(enabled, notifies_resize).after_inputs(
                inputs,
            );
            instruction_bytes(sent) + crate::stdin_handler::bytes_of(after.buffer.pending)
                == all_typed_in(inputs)
        }),
{
    let fresh = LoopState::<M>::fresh(enabled, notifies_resize);
    lemma_inputs_keep_bytes(fresh, inputs);
    let nothing = crate::stdin_handler::bytes_of(fresh.buffer.pending);
    assert(nothing + all_typed_in(inputs) =~= all_typed_in(inputs));
}

/// Instructions are sent in order, and all of them before the next event is
/// waited for or read.
pub proof fn law_instructions_go_first_and_in_order<M>(state: LoopState<M>)
    ensures
        match state.next().1 {
            WorkValue::Perform(instruction) => seq![instruction] + state.next().0.outbox
                == state.outbox,
            _ => state.outbox.len() == 0 && state.next().0 == state,
        },
        state.next().0.after_performing(true).all_sent() == state.all_sent(),
{
    if state.outbox.len() > 0 {
        assert(seq![state.outbox[0]] + state.outbox.drop_first() =~= state.outbox);
    }
}

/// Keys that were typed before a click or a paste are sent before it, and none
/// of them is held back.
pub proof fn law_held_keys_go_before_other_input<M>(state: LoopState<M>, event: EventValue<M>)
    requires
        state.phase != LoopPhase::Leaving,
        event is Mouse || event is Paste,
    ensures
        state.after_reading(event).buffer.pending.len() == 0,
        state.after_reading(event).outbox.drop_last() == state.outbox + key_instructions(
            crate::stdin_handler::all_as_typed(state.buffer.pending),
        ),
        match event {
            EventValue::Mouse(mouse) => state.after_reading(event).outbox.last()
                == Instruction::Mouse(mouse),
            EventValue::Paste(text) => state.after_reading(event).outbox.last()
                == Instruction::<M>::Paste { text, raw: vstd::utf8::encode_utf8(text) },
            _ => true,
        },
{
    assert(state.after_reading(event).outbox.drop_last() =~= state.outbox + key_instructions(
        crate::stdin_handler::all_as_typed(state.buffer.pending),
    ));
}

/// A key, a click or a paste that cannot be sent ends the loop: nothing that was
/// waiting is sent any more.
pub proof fn law_undelivered_input_ends_the_loop<M>(state: LoopState<M>)
    requires
        state.outbox.len() > 0,
        must_arrive(state.outbox[0]),
    ensures
        state.next().1 == WorkValue::Perform(state.outbox[0]),
        state.next().0.after_performing(false).next().1 == WorkValue::<M>::Stop,
{
}

/// Where no event can be had, the instruction to exit is the last one that is
/// sent, whether or not it arrives.
pub proof fn law_failure_sends_exit_and_ends_the_loop<M>(state: LoopState<M>, delivered: bool)
    requires
        state.phase != LoopPhase::Leaving,
        state.outbox.len() == 0,
    ensures
        state.after_reading(EventValue::Failed) == state.after_polling(PollOutcome::Failed),
        state.after_reading(EventValue::Failed).next().1 == WorkValue::Perform(
            Instruction::<M>::Exit,
        ),
        state.after_reading(EventValue::Failed).next().0.after_performing(delivered).next().1
            == WorkValue::<M>::Stop,
{
    let failed = state.after_reading(EventValue::Failed);
    assert(failed.outbox =~= seq![Instruction::Exit]);
}

/// Once the loop is over it stays over, whatever is still reported to it.
pub proof fn law_stopped_loop_stays_stopped<M>(
    state: LoopState<M>,
    event: EventValue<M>,
    outcome: PollOutcome,
    delivered: bool,
)
    requires
        state.next().1 == WorkValue::<M>::Stop,
    ensures
        state.next().0 == state,
        state.after_reading(event).next().1 == WorkValue::<M>::Stop,
        state.after_polling(outcome).next().1 == WorkValue::<M>::Stop,
        state.after_performing(delivered).next().1 == WorkValue::<M>::Stop,
{
}

/// Whether `after` is `before` with all held keys handed on as they were typed, in
/// order and behind what was waiting, and then `more`; what becomes of the keys is
/// traced with `reason`.
pub open spec fn hands_held_keys_on<M>(
    before: LoopState<M>,
    reason: Seq<char>,
    more: Seq<Instruction<M>>,
    after: LoopState<M>,
) -> bool {
    let waiting = before.outbox.len() as int;
    let held = before.buffer.pending.len() as int;
    &&& after.outbox.len() == waiting + held + more.len()
    &&& forall|i: int| 0 <= i < waiting ==> #[trigger] after.outbox[i] == before.outbox[i]
    &&& forall|j: int|
        0 <= j < held ==> after.outbox[waiting + j] == Instruction::<M>::Key(
            crate::stdin_handler::Dispatch {
                key: (#[trigger] before.buffer.pending[j]).key,
                raw: before.buffer.pending[j].raw,
                kitty: false,
            },
        )
    &&& forall|k: int|
        0 <= k < more.len() ==> after.outbox[waiting + held + k] == #[trigger] more[k]
    &&& after.buffer.pending.len() == 0
    &&& after.buffer.enabled == before.buffer.enabled
    &&& held > 0 ==> after.buffer.trace == Some(
        crate::stdin_handler::SequenceTrace::Flush {
            reason,
            raw: crate::stdin_handler::bytes_of(before.buffer.pending),
        },
    )
    &&& held == 0 ==> after.buffer.trace == before.buffer.trace
    &&& after.phase == LoopPhase::Waiting
    &&& after.notifies_resize == before.notifies_resize
    &&& after.in_flight_must_arrive == before.in_flight_must_arrive
}

proof fn lemma_flushing_hands_held_keys_on<M>(
    state: LoopState<M>,
    reason: Seq<char>,
    more: Seq<Instruction<M>>,
)
    ensures
        hands_held_keys_on(state, reason, more, state.flushing(reason, more)),
{
    let after = state.flushing(reason, more);
    let waiting = state.outbox.len() as int;
    let keys = key_instructions::<M>(crate::stdin_handler::all_as_typed(state.buffer.pending));
    assert forall|j: int| 0 <= j < state.buffer.pending.len() implies after.outbox[waiting + j]
        == Instruction::<M>::Key(
        crate::stdin_handler::Dispatch {
            key: (#[trigger] state.buffer.pending[j]).key,
            raw: state.buffer.pending[j].raw,
            kitty: false,
        },
    ) by {
        assert(after.outbox[waiting + j] == keys[j]);
    }
}

/// Every change of the window's size is passed on once, behind the keys that were
/// typed before it, whether or not any of these were held; where nobody is told of
/// changes, only the keys go.
pub proof fn law_resize_is_passed_on<M>(state: LoopState<M>)
    requires
        state.phase != LoopPhase::Leaving,
    ensures
        state.notifies_resize ==> hands_held_keys_on(
            state,
            "non_key_event"@,
            seq![Instruction::<M>::Resize],
            state.after_reading(EventValue::Resize),
        ),
        !state.notifies_resize ==> hands_held_keys_on(
            state,
            "non_key_event"@,
            Seq::<Instruction<M>>::empty(),
            state.after_reading(EventValue::Resize),
        ),
        state.notifies_resize && state.outbox.len() == 0 && state.buffer.pending.len() == 0
            ==> state.after_reading(EventValue::Resize).next().1 == WorkValue::Perform(
            Instruction::<M>::Resize,
        ),
{
    lemma_flushing_hands_held_keys_on(state, "non_key_event"@, seq![Instruction::<M>::Resize]);
    lemma_flushing_hands_held_keys_on(state, "non_key_event"@, Seq::<Instruction<M>>::empty());
}

/// Every click and every paste is passed on once, behind the keys that were typed
/// before it; a paste comes with the bytes of its text.
pub proof fn law_clicks_and_pastes_are_passed_on<M>(state: LoopState<M>, mouse: M, text: Seq<char>)
    requires
        state.phase != LoopPhase::Leaving,
    ensures
        hands_held_keys_on(
            state,
            "non_key_event"@,
            seq![Instruction::Mouse(mouse)],
            state.after_reading(EventValue::Mouse(mouse)),
        ),
        hands_held_keys_on(
            state,
            "non_key_event"@,
            seq![Instruction::Paste { text, raw: vstd::utf8::encode_utf8(text) }],
            state.after_reading(EventValue::Paste(text)),
        ),
{
    lemma_flushing_hands_held_keys_on(
        state,
        "non_key_event"@,
        seq![Instruction::Mouse(mouse)],
    );
    lemma_flushing_hands_held_keys_on(
        state,
        "non_key_event"@,
        seq![Instruction::Paste { text, raw: vstd::utf8::encode_utf8(text) }],
    );
}

/// Held keys are handed on where nothing more comes in time, and where a key comes
/// that stands for nothing.
pub proof fn law_held_keys_do_not_wait_for_ever<M>(state: LoopState<M>)
    requires
        state.phase != LoopPhase::Leaving,
    ensures
        hands_held_keys_on(
            state,
            "timeout"@,
            Seq::<Instruction<M>>::empty(),
            state.after_polling(PollOutcome::TimedOut),
        ),
        hands_held_keys_on(
            state,
            "uncast_key_event"@,
            Seq::<Instruction<M>>::empty(),
            state.after_reading(EventValue::Key { pressed: true, cast: None }),
        ),
{
    lemma_flushing_hands_held_keys_on(state, "timeout"@, Seq::<Instruction<M>>::empty());
    lemma_flushing_hands_held_keys_on(state, "uncast_key_event"@, Seq::<Instruction<M>>::empty());
}

/// A typed key goes through the buffer of held keys: what that hands on is sent, in
/// order and behind what was waiting, and nothing else is.
pub proof fn law_typed_key_is_sent_as_the_buffer_hands_it_on<M>(
    state: LoopState<M>,
    key: crate::stdin_handler::TypedKey,
)
    requires
        state.phase != LoopPhase::Leaving,
    ensures
        ({
            let after = state.after_reading(EventValue::Key { pressed: true, cast: Some(key) });
            let (buffer, out) = state.buffer.pushed(key);
            let waiting = state.outbox.len() as int;
            &&& after.buffer == buffer
            &&& after.outbox.len() == waiting + out.len()
            &&& forall|i: int| 0 <= i < waiting ==> #[trigger] after.outbox[i] == state.outbox[i]
            &&& forall|j: int|
                0 <= j < out.len() ==> after.outbox[waiting + j] == Instruction::<M>::Key(
                    #[trigger] out[j],
                )
            &&& after.phase == LoopPhase::Waiting
            &&& after.notifies_resize == state.notifies_resize
        }),
{
    let after = state.after_reading(EventValue::Key { pressed: true, cast: Some(key) });
    let out = state.buffer.pushed(key).1;
    let waiting = state.outbox.len() as int;
    assert forall|j: int| 0 <= j < out.len() implies after.outbox[waiting + j] == Instruction::<
        M,
    >::Key(#[trigger] out[j]) by {
        assert(after.outbox[waiting + j] == key_instructions::<M>(out)[j]);
    }
}

/// Keys that are released or repeated, and events that nothing follows from, send
/// nothing and leave what is held as it is, and so does finding that an event is
/// there, which is then read.
pub proof fn law_other_events_send_nothing<M>(
    state: LoopState<M>,
    cast: Option<crate::stdin_handler::TypedKey>,
)
    requires
        state.phase != LoopPhase::Leaving,
    ensures
        state.after_reading(EventValue::Key { pressed: false, cast }) == (LoopState {
            phase: LoopPhase::Waiting,
            ..state
        }),
        state.after_reading(EventValue::Other) == (LoopState {
            phase: LoopPhase::Waiting,
            ..state
        }),
        state.after_polling(PollOutcome::Ready) == (LoopState {
            phase: LoopPhase::Reading,
            ..state
        }),
        state.outbox.len() == 0 ==> state.after_polling(PollOutcome::Ready).next().1
            == WorkValue::<M>::Read,
{
}

/// An event is read at once, unless keys are held: then it is waited for, for 30
/// milliseconds.
pub proof fn law_only_held_keys_set_a_limit_to_waiting<M>(state: LoopState<M>)
    requires
        state.outbox.len() == 0,
        state.phase == LoopPhase::Waiting,
    ensures
        state.buffer.pending.len() == 0 ==> state.next() == (state, WorkValue::<M>::Read),
        state.buffer.pending.len() > 0 ==> state.next() == (
            state,
            WorkValue::<M>::Poll { timeout_millis: 30 },
        ),
{
}

/// What cannot be sent ends the loop where it is a key, a click or a paste, and
/// only there; what was sent leaves everything else as it was.
pub proof fn law_only_undelivered_input_ends_the_loop<M>(state: LoopState<M>, delivered: bool)
    requires
        state.outbox.len() > 0,
        state.phase != LoopPhase::Leaving,
    ensures
        ({
            let first = state.outbox[0];
            let after = state.next().0.after_performing(delivered);
            &&& !delivered && (first is Key || first is Mouse || first is Paste) ==> after.outbox.len()
                == 0 && after.phase == LoopPhase::Leaving
            &&& delivered || first is Resize || first is Exit ==> after == (LoopState {
                outbox: state.outbox.skip(1),
                in_flight_must_arrive: false,
                ..state
            })
        }),
{
    assert(state.outbox.drop_first() =~= state.outbox.skip(1));
}

/// Where no event can be had, the loop sends what was waiting and the instruction to
/// exit, and reads no more.
pub proof fn law_exit_comes_after_what_was_waiting<M>(state: LoopState<M>)
    requires
        state.phase != LoopPhase::Leaving,
    ensures
        state.after_reading(EventValue::Failed).outbox == state.outbox.push(Instruction::Exit),
        state.after_reading(EventValue::Failed).phase == LoopPhase::Leaving,
        state.after_polling(PollOutcome::Failed).outbox == state.outbox.push(Instruction::Exit),
        state.after_polling(PollOutcome::Failed).phase == LoopPhase::Leaving,
{
}

/// The loop begins with nothing held and nothing to send, by reading; it looks for
/// reports and tells of changes of the size exactly if it was told to.
pub proof fn law_loop_begins_by_reading<M>(enabled: bool, notifies_resize: bool)
    ensures
        ({
            let fresh = LoopState::<M>::fresh(enabled, notifies_resize);
            &&& fresh.next() == (fresh, WorkValue::<M>::Read)
            &&& fresh.buffer.enabled == enabled
            &&& fresh.buffer.pending.len() == 0
            &&& fresh.buffer.trace is None
            &&& fresh.notifies_resize == notifies_resize
            &&& fresh.outbox.len() == 0
            &&& fresh.phase == LoopPhase::Waiting
        }),
{
}

/// What is said of events and of what the loop does next is said of what they hold.
pub proof fn law_values_of_events_and_actions<M>(
    key: KeyWithModifier,
    raw_bytes: Vec<u8>,
    pressed: bool,
    mouse: M,
    text: String,
    dispatch: NativeKeyDispatch,
    timeout_millis: u64,
    action: ConsoleAction<M>,
)
    ensures
        (ConsoleEvent::<M>::Key { pressed, cast: Some((key, raw_bytes)) })@ == (EventValue::<
            M,
        >::Key {
            pressed,
            cast: Some(crate::stdin_handler::TypedKey { key, raw: raw_bytes@ }),
        }),
        (ConsoleEvent::<M>::Key { pressed, cast: None })@ == (EventValue::<M>::Key {
            pressed,
            cast: None,
        }),
        ConsoleEvent::Mouse(mouse)@ == EventValue::Mouse(mouse),
        ConsoleEvent::<M>::Paste(text)@ == EventValue::<M>::Paste(text@),
        ConsoleEvent::<M>::Resize@ is Resize,
        ConsoleEvent::<M>::Other@ is Other,
        ConsoleEvent::<M>::Failed@ is Failed,
        ConsoleAction::<M>::SendKey(dispatch)@ == Instruction::<M>::Key(
            crate::stdin_handler::Dispatch {
                key: dispatch.key,
                raw: dispatch.raw_bytes@,
                kitty: dispatch.is_kitty_keyboard_protocol,
            },
        ),
        ConsoleAction::SendMouse(mouse)@ == Instruction::Mouse(mouse),
        (ConsoleAction::<M>::SendPaste { text, raw_bytes })@ == (Instruction::<M>::Paste {
            text: text@,
            raw: raw_bytes@,
        }),
        ConsoleAction::<M>::NotifyResize@ is Resize,
        ConsoleAction::<M>::SendExit@ is Exit,
        LoopWork::Perform(action)@ == WorkValue::Perform(action@),
        (LoopWork::<M>::Poll { timeout_millis })@ == (WorkValue::<M>::Poll { timeout_millis }),
        LoopWork::<M>::Read@ is Read,
        LoopWork::<M>::Stop@ is Stop,
{
}

} // verus!
