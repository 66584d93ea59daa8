//! Output of one terminal on its way from the pseudo terminal to the screen.
use std::sync::atomic::{AtomicBool, AtomicU64};
use std::sync::Arc;
use vstd::prelude::*;

verus! {

/// The generation that the counter holds once it has gone up by one from
/// `generation`; the counter wraps.
pub open spec fn next_generation(generation: u64) -> u64 {
    if generation == u64::MAX {
        0
    } else {
        (generation + 1) as u64
    }
}

/// The generation after `generation`, as the counter itself counts.
pub fn generation_after(generation: u64) -> (next: u64)
    ensures
        next == next_generation(generation),
{
    if generation == u64::MAX {
        0
    } else {
        generation + 1
    }
}

/// Ties one reader of a terminal to a generation of the terminal's stream. The
/// counter is shared by all guards of the terminal: a guard whose generation
/// is no longer the counter's belongs to a stream that has been replaced.
#[derive(Clone, Debug)]
pub struct TerminalStreamGuard {
    current_generation: Arc<AtomicU64>,
    generation: u64,
}

impl TerminalStreamGuard {
    /// The generation that the guard was made for.
    pub closed spec fn spec_generation(self) -> u64 {
        self.generation
    }

    /// The shared counter.
    pub closed spec fn counter(self) -> Arc<AtomicU64> {
        self.current_generation
    }

    /// A guard for the generation `generation` of a stream counted by
    /// `current_generation`.
    pub fn for_generation(current_generation: Arc<AtomicU64>, generation: u64) -> (guard: Self)
        ensures
            guard.spec_generation() == generation,
            guard.counter() == current_generation,
    {
        Self { current_generation, generation }
    }

    /// A guard for the stream that is current now. Which generation that is
    /// depends on the other holders of the counter.
    pub fn new(current_generation: Arc<AtomicU64>) -> (guard: Self)
        ensures
            guard.counter() == current_generation,
    {
        let generation: u64 = current_generation.load(std::sync::atomic::Ordering::Relaxed);
        Self::for_generation(current_generation, generation)
    }

    /// Begins a new generation and returns its guard. Which generation that is
    /// depends on the other holders of the counter: it is the one after the
    /// generation that the counter held.
    pub fn next(current_generation: Arc<AtomicU64>) -> (guard: Self)
        ensures
            guard.counter() == current_generation,
    {
        let previous: u64 = current_generation.fetch_add(
            1,
            std::sync::atomic::Ordering::AcqRel,
        );
        Self::for_generation(current_generation, generation_after(previous))
    }

    /// Moves the counter on, so that no guard made so far is current.
    pub fn invalidate(&self) {
        self.current_generation.fetch_add(1, std::sync::atomic::Ordering::AcqRel);
    }

    /// The generation that the guard was made for.
    pub fn generation(&self) -> (generation: u64)
        ensures
            generation == self.spec_generation(),
    {
        self.generation
    }

    /// Whether the guard is current while the counter reads `current`.
    pub open spec fn is_current_at(self, current: u64) -> bool {
        current == self.spec_generation()
    }

    /// Whether the guard is current while the counter reads `current`.
    pub fn matches_generation(&self, current: u64) -> (matching: bool)
        ensures
            matching == self.is_current_at(current),
    {
        current == self.generation
    }

    /// What the counter reads now; that depends on its other holders.
    pub fn current_generation(&self) -> (current: u64) {
        self.current_generation.load(std::sync::atomic::Ordering::Acquire)
    }

    /// Whether the guard is current for what the counter reads now; that
    /// depends on the counter's other holders.
    pub fn is_current(&self) -> (current: bool) {
        self.matches_generation(self.current_generation())
    }
}

/// A chunk of terminal output. Output that came out of a guarded stream
/// carries the stream's generation and its own place in it.
#[derive(Debug, Clone, PartialEq, Eq)]
pub struct TerminalOutput {
    pub terminal_id: u32,
    pub bytes: Vec<u8>,
    pub generation: Option<u64>,
    pub sequence: Option<u64>,
}

impl TerminalOutput {
    /// The chunk with number `sequence` of the stream `generation`.
    pub fn guarded(terminal_id: u32, bytes: Vec<u8>, generation: u64, sequence: u64) -> (output:
        Self)
        ensures
            output.terminal_id == terminal_id,
            output.bytes == bytes,
            output.generation == Some(generation),
            output.sequence == Some(sequence),
    {
        Self { terminal_id, bytes, generation: Some(generation), sequence: Some(sequence) }
    }

    /// A chunk that belongs to no stream.
    pub fn unguarded(terminal_id: u32, bytes: Vec<u8>) -> (output: Self)
        ensures
            output.terminal_id == terminal_id,
            output.bytes == bytes,
            output.generation == None::<u64>,
            output.sequence == None::<u64>,
    {
        Self { terminal_id, bytes, generation: None, sequence: None }
    }
}

/// How long the screen is left alone between two renders while it is backed up.
pub const RENDER_PAUSE_MILLIS: u64 = 30;

/// How many times longer than the quickest one a render request takes to be sent
/// when the screen is backed up.
pub const BACKED_UP_FACTOR: u64 = 10;

/// What one read from the pseudo terminal brought. No bytes at all means that
/// the stream has ended.
#[derive(Debug, Clone, PartialEq, Eq)]
pub enum PtyRead {
    Bytes(Vec<u8>),
    /// Nothing came while a render was owed.
    TimedOut,
    Failed,
}

/// One thing that the screen is told.
#[derive(Debug, Clone, PartialEq, Eq)]
pub enum ScreenInstruction {
    PtyBytes(TerminalOutput),
    Render,
}

/// What the listener does after a read.
#[derive(Debug, Clone, PartialEq, Eq)]
pub enum ListenStep {
    /// Hand `output` to the screen and read on. With `mark_active` set, mark the
    /// terminal as active first; with `debug` set, write the bytes to the debug
    /// file first; with `render` set, have the screen render right afterwards.
    Forward { output: TerminalOutput, debug: bool, mark_active: bool, render: bool },
    /// Have the screen render, and read on.
    Render,
    /// Read no more.
    Stop,
}

impl ListenStep {
    /// What the screen is told, in order.
    pub open spec fn told(self) -> Seq<ScreenInstruction> {
        match self {
            ListenStep::Forward { output, render, .. } => if render {
                seq![ScreenInstruction::PtyBytes(output), ScreenInstruction::Render]
            } else {
                seq![ScreenInstruction::PtyBytes(output)]
            },
            ListenStep::Render => seq![ScreenInstruction::Render],
            ListenStep::Stop => Seq::empty(),
        }
    }

    /// What the screen is told, in order.
    pub fn screen_instructions(self) -> (instructions: Vec<ScreenInstruction>)
        ensures
            instructions@ == self.told(),
    {
        match self {
            ListenStep::Forward { output, render, .. } => {
                let mut instructions = vec![ScreenInstruction::PtyBytes(output)];
                if render {
                    instructions.push(ScreenInstruction::Render);
                }
                assert(instructions@ =~= self.told());
                instructions
            },
            ListenStep::Render => vec![ScreenInstruction::Render],
            ListenStep::Stop => Vec::new(),
        }
    }
}

/// How often the screen is asked to render: at once after each chunk, unless it is
/// backed up, and then only sparingly. That it is backed up shows in the time
/// that it takes to send it a render request.
#[derive(Debug, Clone, Copy, PartialEq, Eq, Structural)]
pub struct RenderPace {
    /// The shortest time that a render request took so far, in nanoseconds.
    pub quickest_nanos: Option<u64>,
    pub backed_up: bool,
    /// Whether the screen has bytes that it was not asked to render.
    pub render_owed: bool,
}

impl RenderPace {
    /// Nothing was sent yet.
    pub open spec fn fresh() -> Self {
        RenderPace { quickest_nanos: None, backed_up: false, render_owed: false }
    }

    /// Whether a render follows a chunk at once, where the last one was
    /// `millis_since_render` ago.
    pub open spec fn renders(self, millis_since_render: u64) -> bool {
        !self.backed_up || millis_since_render >= RENDER_PAUSE_MILLIS
    }

    /// The pace after a chunk.
    pub open spec fn after_chunk(self, millis_since_render: u64) -> Self {
        RenderPace { render_owed: !self.renders(millis_since_render), ..self }
    }

    /// The shortest time, once a render request took `nanos`.
    pub open spec fn quickest_with(self, nanos: u64) -> u64 {
        match self.quickest_nanos {
            Some(quickest) if quickest < nanos => quickest,
            _ => nanos,
        }
    }

    /// The pace after a render request that took `nanos` to be sent.
    pub open spec fn after_render(self, nanos: u64) -> Self {
        RenderPace {
            quickest_nanos: Some(self.quickest_with(nanos)),
            backed_up: nanos > BACKED_UP_FACTOR * self.quickest_with(nanos),
            render_owed: false,
        }
    }
}

/// The listener of one terminal: it numbers what it reads and stops once its
/// stream has been replaced.
pub struct TerminalBytes {
    terminal_id: u32,
    debug: bool,
    activity_flag: Arc<AtomicBool>,
    stream_guard: TerminalStreamGuard,
    output_sequence: u64,
    render_pace: RenderPace,
}

impl TerminalBytes {
    /// The terminal that is listened to.
    pub closed spec fn spec_terminal_id(self) -> u32 {
        self.terminal_id
    }

    /// Whether the bytes also go to the debug file.
    pub closed spec fn spec_debug(self) -> bool {
        self.debug
    }

    /// The generation of the stream that is listened to.
    pub closed spec fn spec_generation(self) -> u64 {
        self.stream_guard.spec_generation()
    }

    /// The number that the next chunk gets.
    pub closed spec fn spec_output_sequence(self) -> u64 {
        self.output_sequence
    }

    /// The counter of the generations of the stream that is listened to.
    pub closed spec fn counter(self) -> Arc<AtomicU64> {
        self.stream_guard.counter()
    }

    /// The flag that marks the terminal as active.
    pub closed spec fn spec_activity_flag(self) -> Arc<AtomicBool> {
        self.activity_flag
    }

    /// How often the screen is asked to render.
    pub closed spec fn pace(self) -> RenderPace {
        self.render_pace
    }

    /// `self` and `other` listen to the same stream in the same way.
    pub open spec fn same_stream(self, other: Self) -> bool {
        &&& self.spec_terminal_id() == other.spec_terminal_id()
        &&& self.spec_debug() == other.spec_debug()
        &&& self.spec_generation() == other.spec_generation()
        &&& self.counter() == other.counter()
        &&& self.spec_activity_flag() == other.spec_activity_flag()
    }

    /// A listener that has read nothing yet.
    pub fn new_with_stream_guard(
        terminal_id: u32,
        debug: bool,
        activity_flag: Arc<AtomicBool>,
        stream_guard: TerminalStreamGuard,
    ) -> (listener: Self)
        ensures
            listener.spec_terminal_id() == terminal_id,
            listener.spec_debug() == debug,
            listener.spec_generation() == stream_guard.spec_generation(),
            listener.counter() == stream_guard.counter(),
            listener.spec_activity_flag() == activity_flag,
            listener.spec_output_sequence() == 0,
            listener.pace() == RenderPace::fresh(),
    {
        TerminalBytes {
            terminal_id,
            debug,
            activity_flag,
            stream_guard,
            output_sequence: 0,
            render_pace: RenderPace { quickest_nanos: None, backed_up: false, render_owed: false },
        }
    }

    /// The flag that marks the terminal as active.
    pub fn activity_flag(&self) -> (flag: &Arc<AtomicBool>)
        ensures
            *flag == self.spec_activity_flag(),
    {
        &self.activity_flag
    }

    /// Whether `step` passes `bytes` on as the next chunk of this listener, where
    /// the last render was `millis_since_render` ago.
    pub open spec fn forwards(
        self,
        bytes: Seq<u8>,
        millis_since_render: u64,
        step: ListenStep,
    ) -> bool {
        step matches ListenStep::Forward { output, debug, mark_active, render } && {
            &&& output.terminal_id == self.spec_terminal_id()
            &&& output.bytes@ == bytes
            &&& output.generation == Some(self.spec_generation())
            &&& output.sequence == Some(self.spec_output_sequence())
            &&& debug == self.spec_debug()
            &&& mark_active
            &&& render == self.pace().renders(millis_since_render)
        }
    }

    /// Whether `after` is this listener once it has numbered one more chunk.
    pub open spec fn numbered_one_more(self, after: Self) -> bool {
        &&& after.same_stream(self)
        &&& after.spec_output_sequence() == if self.spec_output_sequence() == u64::MAX {
            u64::MAX as int
        } else {
            self.spec_output_sequence() + 1
        }
    }

    /// Whether this listener, where the counter reads `current` and the last render
    /// was `millis_since_render` ago, makes `step` of `read` and is `after` then.
    pub open spec fn takes(
        self,
        read: PtyRead,
        current: u64,
        millis_since_render: u64,
        after: Self,
        step: ListenStep,
    ) -> bool {
        match read {
            PtyRead::Bytes(bytes) if bytes@.len() > 0 && current == self.spec_generation() => {
                &&& self.forwards(bytes@, millis_since_render, step)
                &&& self.numbered_one_more(after)
                &&& after.pace() == self.pace().after_chunk(millis_since_render)
            },
            PtyRead::TimedOut if current == self.spec_generation() => {
                &&& step is Render
                &&& after == self
            },
            _ => {
                &&& step is Stop
                &&& after == self
            },
        }
    }

    /// Whether the listener's stream is the one of the generation `current`.
    pub open spec fn is_listening_at(self, current: u64) -> bool {
        current == self.spec_generation()
    }

    /// How long the next read is waited for.
    pub open spec fn awaits(self) -> Option<u64> {
        if self.pace().render_owed {
            Some(RENDER_PAUSE_MILLIS)
        } else {
            None
        }
    }

    /// Takes what a read brought, where the counter read `current` when the
    /// read came back and the last render was `millis_since_render` ago. Bytes of
    /// a stream that is current are numbered and passed on, and a render that is
    /// owed is made up for; anything else ends the listening.
    pub fn take_read(&mut self, read: PtyRead, current: u64, millis_since_render: u64) -> (step:
        ListenStep)
        ensures
            match read {
                PtyRead::Bytes(bytes) if bytes@.len() > 0 && current
                    == old(self).spec_generation() => {
                    &&& old(self).forwards(bytes@, millis_since_render, step)
                    &&& old(self).numbered_one_more(*final(self))
                    &&& final(self).pace() == old(self).pace().after_chunk(millis_since_render)
                },
                PtyRead::TimedOut if current == old(self).spec_generation() => {
                    &&& step is Render
                    &&& *final(self) == *old(self)
                },
                _ => {
                    &&& step is Stop
                    &&& *final(self) == *old(self)
                },
            },
            old(self).takes(read, current, millis_since_render, *final(self), step),
    {
        match read {
            PtyRead::Failed => ListenStep::Stop,
            PtyRead::TimedOut => {
                if self.stream_guard.matches_generation(current) {
                    ListenStep::Render
                } else {
                    ListenStep::Stop
                }
            },
            PtyRead::Bytes(bytes) => {
                if bytes.len() == 0 || !self.stream_guard.matches_generation(current) {
                    return ListenStep::Stop;
                }
                let output = TerminalOutput::guarded(
                    self.terminal_id,
                    bytes,
                    self.stream_guard.generation(),
                    self.output_sequence,
                );
                self.output_sequence = self.output_sequence.saturating_add(1);
                let render = !self.render_pace.backed_up || millis_since_render
                    >= RENDER_PAUSE_MILLIS;
                self.render_pace.render_owed = !render;
                ListenStep::Forward { output, debug: self.debug, mark_active: true, render }
            },
        }
    }

    /// Takes what a read brought: reads the counter and goes on as `take_read`
    /// says. The end of the stream and a failed read stop the listener whatever
    /// the counter reads.
    pub fn listen(&mut self, read: PtyRead, millis_since_render: u64) -> (step: ListenStep)
        ensures
            match read {
                PtyRead::Bytes(bytes) => {
                    ||| {
                        &&& step is Stop
                        &&& *final(self) == *old(self)
                    }
                    ||| {
                        &&& bytes@.len() > 0
                        &&& old(self).forwards(bytes@, millis_since_render, step)
                        &&& old(self).numbered_one_more(*final(self))
                        &&& final(self).pace() == old(self).pace().after_chunk(millis_since_render)
                    }
                },
                PtyRead::TimedOut => {
                    &&& step is Render || step is Stop
                    &&& *final(self) == *old(self)
                },
                PtyRead::Failed => {
                    &&& step is Stop
                    &&& *final(self) == *old(self)
                },
            },
    {
        let current: u64 = self.stream_guard.current_generation();
        self.take_read(read, current, millis_since_render)
    }

    /// Takes note that a render request was sent, which took `nanos`.
    pub fn render_sent(&mut self, nanos: u64)
        ensures
            final(self).same_stream(*old(self)),
            final(self).spec_output_sequence() == old(self).spec_output_sequence(),
            final(self).pace() == old(self).pace().after_render(nanos),
    {
        let quickest: u64 = match self.render_pace.quickest_nanos {
            Some(quickest) => if quickest < nanos {
                quickest
            } else {
                nanos
            },
            None => nanos,
        };
        self.render_pace = RenderPace {
            quickest_nanos: Some(quickest),
            backed_up: nanos as u128 > BACKED_UP_FACTOR as u128 * quickest as u128,
            render_owed: false,
        };
    }

    /// How long the next read is waited for: for ever, unless a render is owed.
    pub fn read_timeout_millis(&self) -> (timeout: Option<u64>)
        ensures
            timeout == if self.pace().render_owed {
                Some(RENDER_PAUSE_MILLIS)
            } else {
                None
            },
            timeout == self.awaits(),
    {
        if self.render_pace.render_owed {
            Some(RENDER_PAUSE_MILLIS)
        } else {
            None
        }
    }

    /// Whether a listener that has stopped asks the screen to render, where the
    /// counter reads `current`: only if its stream was not replaced.
    pub fn renders_at_end(&self, current: u64) -> (render: bool)
        ensures
            render == (current == self.spec_generation()),
            render == self.is_listening_at(current),
    {
        self.stream_guard.matches_generation(current)
    }

    /// What the counter of the stream's generations reads now; that depends on
    /// its other holders.
    pub fn current_generation(&self) -> (current: u64) {
        self.stream_guard.current_generation()
    }
}

/// A guard is no longer current once a new generation has begun, and the new
/// generation's guard is current until it is invalidated: `stale` was made while
/// the counter read `generation`, and `fresh` by moving the counter on.
pub proof fn law_stale_guard_is_rejected(
    stale: TerminalStreamGuard,
    fresh: TerminalStreamGuard,
    generation: u64,
)
    requires
        stale.spec_generation() == generation,
        fresh.spec_generation() == next_generation(generation),
    ensures
        !stale.is_current_at(next_generation(generation)),
        fresh.is_current_at(next_generation(generation)),
        !fresh.is_current_at(next_generation(next_generation(generation))),
{
}

/// Whether the listener at `k` and the one after it are one listener before and
/// after it has numbered one more chunk.
pub open spec fn numbers_on(listeners: Seq<TerminalBytes>, k: int) -> bool {
    listeners[k].numbered_one_more(listeners[k + 1])
}

/// The chunks that a listener passes on are numbered one after the other: after
/// `i` of them it is still the same stream, and the next number is `i` more than
/// the first one, as long as the numbers last.
pub proof fn law_chunks_are_numbered_in_order(listeners: Seq<TerminalBytes>, i: int)
    requires
        0 <= i < listeners.len(),
        forall|k: int| 0 <= k < listeners.len() - 1 ==> #[trigger] numbers_on(listeners, k),
    ensures
        listeners[i].same_stream(listeners[0]),
        listeners[i].spec_output_sequence() == if listeners[0].spec_output_sequence() + i
            <= u64::MAX {
            listeners[0].spec_output_sequence() + i
        } else {
            u64::MAX as int
        },
    decreases i,
{
    if i > 0 {
        law_chunks_are_numbered_in_order(listeners, i - 1);
        assert(numbers_on(listeners, i - 1));
    }
}

/// What the screen is told in the course of `steps`.
pub open spec fn all_told(steps: Seq<ListenStep>) -> Seq<ScreenInstruction>
    decreases steps.len(),
{
    if steps.len() == 0 {
        Seq::empty()
    } else {
        all_told(steps.drop_last()) + steps.last().told()
    }
}

/// Whether `step` passes a chunk of `listener` on, while the screen is not backed
/// up.
pub open spec fn passes_on_promptly(listener: TerminalBytes, step: ListenStep) -> bool {
    !listener.pace().backed_up && exists|bytes: Seq<u8>, millis_since_render: u64| #[trigger]
        listener.forwards(bytes, millis_since_render, step)
}

/// A render follows each chunk at once while the screen is not backed up: the
/// screen is told of the chunks in order, each with a render right after it.
pub proof fn law_render_follows_each_chunk(
    listeners: Seq<TerminalBytes>,
    steps: Seq<ListenStep>,
)
    requires
        listeners.len() == steps.len(),
        forall|i: int|
            0 <= i < steps.len() ==> #[trigger] passes_on_promptly(listeners[i], steps[i]),
    ensures
        all_told(steps).len() == 2 * steps.len(),
        forall|i: int|
            0 <= i < steps.len() ==> (#[trigger] steps[i] matches ListenStep::Forward {
                output,
                ..
            } && all_told(steps)[2 * i] == ScreenInstruction::PtyBytes(output) && all_told(
                steps,
            )[2 * i + 1] is Render),
    decreases steps.len(),
{
    if steps.len() > 0 {
        let before = steps.drop_last();
        let earlier = listeners.drop_last();
        assert forall|i: int| 0 <= i < before.len() implies #[trigger] passes_on_promptly(
            earlier[i],
            before[i],
        ) by {
            assert(passes_on_promptly(listeners[i], steps[i]));
        }
        law_render_follows_each_chunk(earlier, before);
        let last = steps.len() - 1;
        assert(passes_on_promptly(listeners[last], steps[last]));
        assert forall|i: int| 0 <= i < steps.len() implies (#[trigger] steps[i] matches
            ListenStep::Forward { output, .. } && all_told(steps)[2 * i]
            == ScreenInstruction::PtyBytes(output) && all_told(steps)[2 * i + 1] is Render) by {
            if i < last {
                assert(before[i] == steps[i]);
                assert(all_told(steps)[2 * i] == all_told(before)[2 * i]);
                assert(all_told(steps)[2 * i + 1] == all_told(before)[2 * i + 1]);
            }
        }
    }
}

/// No chunk stays without a render: either one follows it at once, or it is owed,
/// and then the wait for the next read ends with one if that brings nothing.
pub proof fn law_render_follows_or_is_owed(pace: RenderPace, millis_since_render: u64, nanos: u64)
    ensures
        pace.renders(millis_since_render) || pace.after_chunk(millis_since_render).render_owed,
        pace.backed_up && millis_since_render >= RENDER_PAUSE_MILLIS ==> pace.renders(
            millis_since_render,
        ),
        !pace.after_render(nanos).render_owed,
        RenderPace::fresh().renders(millis_since_render),
        !RenderPace::fresh().after_render(nanos).backed_up,
{
}

/// A guard stays out of use however often the counter moves on after it, short
/// of going all the way round.
pub proof fn law_invalidated_guard_stays_invalid(guard: TerminalStreamGuard, steps: nat)
    requires
        0 < steps <= u64::MAX,
    ensures
        !guard.is_current_at(generation_after_steps(guard.spec_generation(), steps)),
{
    lemma_steps_are_addition(guard.spec_generation(), steps);
}

/// The counter after it went up by one `steps` times.
pub open spec fn generation_after_steps(generation: u64, steps: nat) -> u64
    decreases steps,
{
    if steps == 0 {
        generation
    } else {
        next_generation(generation_after_steps(generation, (steps - 1) as nat))
    }
}

proof fn lemma_steps_are_addition(generation: u64, steps: nat)
    requires
        steps <= u64::MAX,
    ensures
        generation_after_steps(generation, steps) == if generation + steps <= u64::MAX {
            generation + steps
        } else {
            generation + steps - u64::MAX - 1
        },
    decreases steps,
{
    if steps > 0 {
        lemma_steps_are_addition(generation, (steps - 1) as nat);
    }
}

/// A chunk that is passed on is the bytes that were read, under the terminal's
/// number, the stream's generation and the next number of the stream; the terminal
/// is marked active, and the screen renders at once unless it is backed up and has
/// rendered less than 30 milliseconds ago.
pub proof fn law_forwarded_chunk_is_what_was_read(
    listener: TerminalBytes,
    bytes: Seq<u8>,
    millis_since_render: u64,
    step: ListenStep,
)
    requires
        listener.forwards(bytes, millis_since_render, step),
    ensures
        step is Forward,
        step->output.bytes@ == bytes,
        step->output.terminal_id == listener.spec_terminal_id(),
        step->output.generation is Some && step->output.generation->0 == listener.spec_generation(),
        step->output.sequence is Some && step->output.sequence->0
            == listener.spec_output_sequence(),
        step->debug == listener.spec_debug(),
        step->mark_active,
        step->render <==> !(listener.pace().backed_up && millis_since_render < 30),
        step.told().len() > 0 && step.told()[0] == ScreenInstruction::PtyBytes(step->output),
        step->render ==> step.told() == seq![
            ScreenInstruction::PtyBytes(step->output),
            ScreenInstruction::Render,
        ],
        !step->render ==> step.told() == seq![ScreenInstruction::PtyBytes(step->output)],
{
}

/// What the screen is told of the other steps: to render, and nothing.
pub proof fn law_other_steps_pass_no_bytes_on()
    ensures
        ListenStep::Render.told() == seq![ScreenInstruction::Render],
        ListenStep::Stop.told() == Seq::<ScreenInstruction>::empty(),
{
}

/// The screen counts as backed up after a render request that took more than ten
/// times as long to send as the quickest one so far, and only then.
pub proof fn law_peak_shows_that_the_screen_is_backed_up(
    pace: RenderPace,
    quickest: u64,
    nanos: u64,
)
    requires
        pace.quickest_nanos is Some ==> quickest <= pace.quickest_nanos->0,
        quickest <= nanos,
        quickest == nanos || pace.quickest_nanos == Some(quickest),
    ensures
        pace.after_render(nanos).quickest_nanos == Some(quickest),
        pace.after_render(nanos).backed_up <==> nanos > 10 * quickest,
        !pace.after_render(nanos).render_owed,
{
}

/// A chunk changes nothing of the pace but whether a render is owed: it is exactly
/// if the chunk was not rendered at once.
pub proof fn law_unrendered_chunk_leaves_a_render_owed(pace: RenderPace, millis_since_render: u64)
    ensures
        pace.after_chunk(millis_since_render).render_owed <==> pace.backed_up
            && millis_since_render < 30,
        pace.after_chunk(millis_since_render).backed_up == pace.backed_up,
        pace.after_chunk(millis_since_render).quickest_nanos == pace.quickest_nanos,
        !RenderPace::fresh().backed_up && !RenderPace::fresh().render_owed
            && RenderPace::fresh().quickest_nanos is None,
{
}

/// A listener that has numbered one more chunk is the same in all else: the number
/// goes up by one, and stays where it is once it is the largest.
pub proof fn law_numbering_changes_the_number_only(before: TerminalBytes, after: TerminalBytes)
    requires
        before.numbered_one_more(after),
    ensures
        after.spec_terminal_id() == before.spec_terminal_id(),
        after.spec_debug() == before.spec_debug(),
        after.spec_generation() == before.spec_generation(),
        after.counter() == before.counter(),
        after.spec_activity_flag() == before.spec_activity_flag(),
        before.spec_output_sequence() < u64::MAX ==> after.spec_output_sequence()
            == before.spec_output_sequence() + 1,
        before.spec_output_sequence() == u64::MAX ==> after.spec_output_sequence() == u64::MAX,
{
}

/// Generations go up by one, and begin again at zero after the largest; a guard is
/// current for its own generation and no other.
pub proof fn law_generations_count_up(guard: TerminalStreamGuard, generation: u64)
    ensures
        generation < u64::MAX ==> next_generation(generation) == generation + 1,
        generation == u64::MAX ==> next_generation(generation) == 0,
        guard.is_current_at(generation) <==> guard.spec_generation() == generation,
{
}

/// What a listener makes of a read. Bytes of the current stream are passed on and
/// numbered; a wait that brought nothing ends with a render; bytes of a stream that
/// was replaced, the end of the stream and a failed read stop the listener, which
/// then stays as it is.
pub proof fn law_listener_passes_on_its_own_stream_only(
    listener: TerminalBytes,
    bytes: Vec<u8>,
    current: u64,
    millis_since_render: u64,
    after: TerminalBytes,
    step: ListenStep,
)
    ensures
        listener.takes(PtyRead::Bytes(bytes), current, millis_since_render, after, step)
            && bytes@.len() > 0 && current == listener.spec_generation() ==> {
            &&& step is Forward
            &&& step->output.bytes@ == bytes@
            &&& step->output.sequence == Some(listener.spec_output_sequence())
            &&& after.same_stream(listener)
            &&& listener.spec_output_sequence() < u64::MAX ==> after.spec_output_sequence()
                == listener.spec_output_sequence() + 1
            &&& after.pace().backed_up == listener.pace().backed_up
            &&& after.pace().render_owed <==> !step->render
        },
        listener.takes(PtyRead::Bytes(bytes), current, millis_since_render, after, step) && (
        bytes@.len() == 0 || current != listener.spec_generation()) ==> step is Stop && after
            == listener,
        listener.takes(PtyRead::Failed, current, millis_since_render, after, step) ==> step is Stop
            && after == listener,
        listener.takes(PtyRead::TimedOut, current, millis_since_render, after, step) ==> after
            == listener && (step is Render <==> current == listener.spec_generation()) && (
        step is Stop <==> current != listener.spec_generation()),
{
}

/// The next read is waited for no longer than 30 milliseconds exactly if a render is
/// owed; and a listener renders in the end exactly if its stream was not replaced.
pub proof fn law_owed_render_limits_the_wait(listener: TerminalBytes, current: u64)
    ensures
        listener.pace().render_owed ==> listener.awaits() == Some(30u64),
        !listener.pace().render_owed ==> listener.awaits() is None,
        listener.is_listening_at(current) <==> listener.spec_generation() == current,
{
}

} // verus!
