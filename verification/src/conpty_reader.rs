//! Reading what a pseudo console writes: a thread reads the pipe and hands chunks
//! on, and whoever awaits them reads the chunks piece by piece.
use crate::dsr::DsrBootstrap;
use std::collections::VecDeque;
use vstd::prelude::*;

verus! {

/// How many bytes are read from the pipe, and handed on, at once.
pub const CONPTY_READ_BUFFER_SIZE: usize = 65536;

/// How many chunks may wait to be read.
pub const CONPTY_OUTPUT_CHANNEL_CAPACITY: usize = 64;

/// What waiting for a chunk gave. `E` is an error.
pub enum ReceivedChunk<E> {
    Chunk(Vec<u8>),
    Failed(E),
    /// There will be no more chunks.
    Closed,
}

/// `buffer` with its first bytes replaced by `bytes`.
pub open spec fn overwritten(buffer: Seq<u8>, bytes: Seq<u8>) -> Seq<u8> {
    bytes + buffer.skip(bytes.len() as int)
}

/// How many of `available` bytes go into `room` bytes.
pub open spec fn fitting(available: nat, room: nat) -> nat {
    if available < room {
        available
    } else {
        room
    }
}

/// The reading end: what is left of the chunk that was read last.
pub struct ConPtyBlockingReader {
    buffered_output: VecDeque<u8>,
}

impl View for ConPtyBlockingReader {
    type V = Seq<u8>;

    closed spec fn view(&self) -> Seq<u8> {
        self.buffered_output@
    }
}

impl ConPtyBlockingReader {
    /// The reading end, with nothing left of a chunk.
    pub fn new() -> (reader: Self)
        ensures
            reader@ == Seq::<u8>::empty(),
    {
        ConPtyBlockingReader { buffered_output: VecDeque::new() }
    }

    /// Reads what is left of the last chunk into `buf`, as much as fits; `None`
    /// where nothing is left, and a chunk has to be waited for.
    pub fn drain_buffered_output(&mut self, buf: &mut [u8]) -> (count: Option<usize>)
        ensures
            match count {
                Some(count) => {
                    &&& old(self)@.len() > 0
                    &&& count == fitting(old(self)@.len(), old(buf)@.len())
                    &&& final(buf)@ == overwritten(old(buf)@, old(self)@.take(count as int))
                    &&& final(self)@ == old(self)@.skip(count as int)
                },
                None => old(self)@.len() == 0 && final(self)@ == old(self)@ && final(buf)@ == old(
                    buf,
                )@,
            },
            count is Some ==> forall|chunks: Seq<Seq<u8>>| #[trigger]
                one_read(old(self)@, chunks, old(buf)@.len()) == (
                    final(buf)@.take(count->0 as int),
                    final(self)@,
                    chunks,
                ),
            final(buf)@.len() == old(buf)@.len(),
    {
        if self.buffered_output.len() == 0 {
            return None;
        }
        let ghost whole = self@;
        let ghost room = buf@;
        let mut count: usize = 0;
        while count < buf.len() && self.buffered_output.len() > 0
            invariant
                count <= room.len(),
                count <= whole.len(),
                buf@.len() == room.len(),
                self@ == whole.skip(count as int),
                buf@ == overwritten(room, whole.take(count as int)),
            decreases whole.len() - count,
        {
            match self.buffered_output.pop_front() {
                Some(byte) => {
                    buf[count] = byte;
                    assert(self@ =~= whole.skip(count + 1));
                    assert(buf@ =~= overwritten(room, whole.take(count + 1)));
                },
                None => {},
            }
            count = count + 1;
        }
        assert(buf@.take(count as int) =~= whole.take(count as int));
        Some(count)
    }

    /// Reads the chunk that was waited for into `buf`, as much as fits, and keeps
    /// the rest.
    pub fn read_received<E>(&mut self, received: ReceivedChunk<E>, buf: &mut [u8]) -> (count: Result<
        usize,
        E,
    >)
        ensures
            match received {
                ReceivedChunk::Chunk(bytes) => {
                    let taken = fitting(bytes@.len(), old(buf)@.len());
                    &&& count is Ok
                    &&& count->Ok_0 == taken
                    &&& final(buf)@ == overwritten(old(buf)@, bytes@.take(taken as int))
                    &&& final(self)@ == old(self)@ + bytes@.skip(taken as int)
                },
                ReceivedChunk::Failed(error) => count == Err::<usize, E>(error) && final(self)@
                    == old(self)@ && final(buf)@ == old(buf)@,
                ReceivedChunk::Closed => count == Ok::<usize, E>(0) && final(self)@ == old(self)@
                    && final(buf)@ == old(buf)@,
            },
            received is Chunk && old(self)@.len() == 0 ==> one_read(
                old(self)@,
                seq![received->Chunk_0@],
                old(buf)@.len(),
            ) == (
                final(buf)@.take(count->Ok_0 as int),
                final(self)@,
                Seq::<Seq<u8>>::empty(),
            ),
            final(buf)@.len() == old(buf)@.len(),
    {
        match received {
            ReceivedChunk::Chunk(bytes) => {
                let ghost room = buf@;
                let ghost before = self@;
                let mut count: usize = 0;
                while count < buf.len() && count < bytes.len()
                    invariant
                        count <= room.len(),
                        count <= bytes@.len(),
                        buf@.len() == room.len(),
                        self@ == before,
                        buf@ == overwritten(room, bytes@.take(count as int)),
                    decreases bytes@.len() - count,
                {
                    buf[count] = bytes[count];
                    assert(buf@ =~= overwritten(room, bytes@.take(count + 1)));
                    count = count + 1;
                }
                let mut rest: usize = count;
                while rest < bytes.len()
                    invariant
                        count <= rest <= bytes@.len(),
                        self@ == before + bytes@.subrange(count as int, rest as int),
                    decreases bytes@.len() - rest,
                {
                    self.buffered_output.push_back(bytes[rest]);
                    assert(self@ =~= before + bytes@.subrange(count as int, rest + 1));
                    rest = rest + 1;
                }
                assert(bytes@.subrange(count as int, rest as int) =~= bytes@.skip(count as int));
                assert(buf@.take(count as int) =~= bytes@.take(count as int));
                assert(seq![bytes@].drop_first() =~= Seq::<Seq<u8>>::empty());
                Ok(count)
            },
            ReceivedChunk::Failed(error) => Err(error),
            ReceivedChunk::Closed => Ok(0),
        }
    }
}

/// The bytes of `chunks`, one after the other.
pub open spec fn chunk_bytes(chunks: Seq<Seq<u8>>) -> Seq<u8>
    decreases chunks.len(),
{
    if chunks.len() == 0 {
        Seq::empty()
    } else {
        chunks[0] + chunk_bytes(chunks.drop_first())
    }
}

/// One read of up to `room` bytes where `left` is left of the last chunk and
/// `chunks` are waiting: the bytes that are read, what is left then, and the
/// chunks that are still waiting.
pub open spec fn one_read(left: Seq<u8>, chunks: Seq<Seq<u8>>, room: nat) -> (
    Seq<u8>,
    Seq<u8>,
    Seq<Seq<u8>>,
) {
    if left.len() > 0 {
        let count = fitting(left.len(), room) as int;
        (left.take(count), left.skip(count), chunks)
    } else if chunks.len() > 0 {
        let count = fitting(chunks[0].len(), room) as int;
        (chunks[0].take(count), left + chunks[0].skip(count), chunks.drop_first())
    } else {
        (Seq::empty(), left, chunks)
    }
}

/// However small the reads are, they give back the chunks in order: what one read
/// gives, followed by all that is still to be read, is what was to be read
/// before. A read that has room gives something as long as the chunks hold
/// something.
pub proof fn law_reads_give_back_the_chunks(left: Seq<u8>, chunks: Seq<Seq<u8>>, room: nat)
    ensures
        ({
            let (read, still_left, waiting) = one_read(left, chunks, room);
            &&& read + still_left + chunk_bytes(waiting) == left + chunk_bytes(chunks)
            &&& read.len() <= room
            &&& room > 0 && (left.len() > 0 || (chunks.len() > 0 && chunks[0].len() > 0))
                ==> read.len() > 0
        }),
{
    let (read, still_left, waiting) = one_read(left, chunks, room);
    assert(read + still_left + chunk_bytes(waiting) =~= left + chunk_bytes(chunks));
}

/// Whether a failed read with the error code `code` only says that the pipe is at
/// its end.
pub open spec fn ends_output(code: Option<i32>) -> bool {
    code == Some(109i32) || code == Some(232i32)
}

/// Whether a failed read with the error code `code` only says that the pipe is at
/// its end: it is broken, or being closed.
pub fn is_end_of_output(code: Option<i32>) -> (end: bool)
    ensures
        end == ends_output(code),
{
    match code {
        Some(code) => code >= 0 && (code as u32 == crate::win32::error_broken_pipe() || code as u32
            == crate::win32::error_no_data()),
        None => false,
    }
}

/// What one read from the pipe gave. `E` is an error, which has a code where it
/// came from the system.
pub enum PipeRead<E> {
    Bytes(Vec<u8>),
    Failed { code: Option<i32>, error: E },
}

/// One thing that the reading thread does for others.
pub enum ReaderAction<E> {
    /// Write `bytes` to the input of the terminal.
    Reply { handle: isize, bytes: Vec<u8> },
    Forward(Vec<u8>),
    ForwardError(E),
}

/// What the reading thread does next.
pub enum ReaderWork<E> {
    Perform(ReaderAction<E>),
    /// Read up to this many bytes from the pipe.
    Read { max_len: usize },
    Stop,
}

/// What one read gave, as a value.
pub enum PipeReadValue<E> {
    Bytes(Seq<u8>),
    Failed { code: Option<i32>, error: E },
}

/// One thing that the reading thread does for others, as a value.
pub enum ReaderActionValue<E> {
    Reply { handle: isize, bytes: Seq<u8> },
    Forward(Seq<u8>),
    ForwardError(E),
}

/// What the reading thread does next, as a value.
pub enum ReaderWorkValue<E> {
    Perform(ReaderActionValue<E>),
    Read { max_len: usize },
    Stop,
}

impl<E> View for PipeRead<E> {
    type V = PipeReadValue<E>;

    open spec fn view(&self) -> PipeReadValue<E> {
        match self {
            PipeRead::Bytes(bytes) => PipeReadValue::Bytes(bytes@),
            PipeRead::Failed { code, error } => PipeReadValue::Failed {
                code: *code,
                error: *error,
            },
        }
    }
}

impl<E> View for ReaderAction<E> {
    type V = ReaderActionValue<E>;

    open spec fn view(&self) -> ReaderActionValue<E> {
        match self {
            ReaderAction::Reply { handle, bytes } => ReaderActionValue::Reply {
                handle: *handle,
                bytes: bytes@,
            },
            ReaderAction::Forward(bytes) => ReaderActionValue::Forward(bytes@),
            ReaderAction::ForwardError(error) => ReaderActionValue::ForwardError(*error),
        }
    }
}

impl<E> View for ReaderWork<E> {
    type V = ReaderWorkValue<E>;

    open spec fn view(&self) -> ReaderWorkValue<E> {
        match self {
            ReaderWork::Perform(action) => ReaderWorkValue::Perform(action@),
            ReaderWork::Read { max_len } => ReaderWorkValue::Read { max_len: *max_len },
            ReaderWork::Stop => ReaderWorkValue::Stop,
        }
    }
}

/// A wait for the query at the start of a shell, the handle for the reply, and
/// when the wait began and how many milliseconds it lasts.
pub struct Bootstrap {
    pub wait: crate::dsr::QueryWait,
    pub handle: isize,
    pub start: std::time::Instant,
    pub timeout: u64,
}

/// The state of the reading thread: the wait for the query, as long as that
/// matters, what is to be done for others before the next read, and whether
/// there will be none.
pub struct ReaderState<E> {
    pub bootstrap: Option<Bootstrap>,
    pub outbox: Seq<ReaderActionValue<E>>,
    pub leaving: bool,
    pub in_flight_must_arrive: bool,
}

impl Bootstrap {
    /// The wait, as long as it matters.
    pub open spec fn kept(self) -> Option<Self> {
        if self.wait.done() {
            None
        } else {
            Some(self)
        }
    }

    /// The reply, where it is due and there is somewhere to write it.
    pub open spec fn reply<E>(self) -> Seq<ReaderActionValue<E>> {
        if self.wait.reply_is_due() && self.handle != 0 {
            seq![
                ReaderActionValue::Reply { handle: self.handle, bytes: crate::dsr::response() },
            ]
        } else {
            Seq::empty()
        }
    }
}

/// Hands `bytes` on, where there are any.
pub open spec fn forwarding<E>(bytes: Seq<u8>) -> Seq<ReaderActionValue<E>> {
    if bytes.len() > 0 {
        seq![ReaderActionValue::Forward(bytes)]
    } else {
        Seq::empty()
    }
}

impl<E> ReaderState<E> {
    /// The thread before it has read anything.
    pub open spec fn fresh(bootstrap: Option<Bootstrap>) -> Self {
        ReaderState {
            bootstrap,
            outbox: Seq::empty(),
            leaving: false,
            in_flight_must_arrive: false,
        }
    }

    /// What is done next, and the state with that given out: first what is due to
    /// others, then what was kept back of the output, then the next read.
    pub open spec fn next(self) -> (Self, ReaderWorkValue<E>) {
        if self.outbox.len() > 0 {
            (
                ReaderState {
                    outbox: self.outbox.drop_first(),
                    in_flight_must_arrive: self.outbox[0] is Forward,
                    ..self
                },
                ReaderWorkValue::Perform(self.outbox[0]),
            )
        } else if self.leaving {
            (self, ReaderWorkValue::Stop)
        } else {
            match self.bootstrap {
                Some(bootstrap) if bootstrap.wait.deferred.len() > 0 => {
                    let (wait, bytes) = bootstrap.wait.drained(CONPTY_READ_BUFFER_SIZE as nat);
                    (
                        ReaderState {
                            bootstrap: Bootstrap { wait, ..bootstrap }.kept(),
                            in_flight_must_arrive: true,
                            ..self
                        },
                        ReaderWorkValue::Perform(ReaderActionValue::Forward(bytes)),
                    )
                },
                _ => (self, ReaderWorkValue::Read { max_len: CONPTY_READ_BUFFER_SIZE }),
            }
        }
    }

    /// The state after something was done, or could not be.
    pub open spec fn after_performing(self, delivered: bool) -> Self {
        if self.in_flight_must_arrive && !delivered {
            ReaderState {
                outbox: Seq::empty(),
                leaving: true,
                in_flight_must_arrive: false,
                ..self
            }
        } else {
            ReaderState { in_flight_must_arrive: false, ..self }
        }
    }

    /// The state after a read; `expired` if the time for the query is over.
    pub open spec fn after_reading(self, expired: bool, read: PipeReadValue<E>) -> Self {
        if self.leaving {
            self
        } else {
            match read {
                PipeReadValue::Bytes(bytes) => if bytes.len() == 0 {
                    ReaderState { leaving: true, ..self }
                } else {
                    match self.bootstrap {
                        None => ReaderState {
                            outbox: self.outbox.push(ReaderActionValue::Forward(bytes)),
                            ..self
                        },
                        Some(bootstrap) => {
                            let (wait, output) = bootstrap.wait.filtered(
                                expired,
                                bytes,
                                CONPTY_READ_BUFFER_SIZE as nat,
                            );
                            ReaderState {
                                bootstrap: Bootstrap { wait: wait.replying(), ..bootstrap }.kept(),
                                outbox: self.outbox + Bootstrap { wait, ..bootstrap }.reply()
                                    + forwarding(output),
                                ..self
                            }
                        },
                    }
                },
                PipeReadValue::Failed { code, error } => if ends_output(code) {
                    ReaderState { leaving: true, ..self }
                } else {
                    ReaderState {
                        outbox: self.outbox.push(ReaderActionValue::ForwardError(error)),
                        leaving: true,
                        ..self
                    }
                },
            }
        }
    }
}

/// The thread that reads the pipe of one pseudo console.
pub struct ConPtyReaderLoop<E> {
    dsr_bootstrap: Option<DsrBootstrap>,
    outbox: VecDeque<ReaderAction<E>>,
    leaving: bool,
    in_flight_must_arrive: bool,
}

spec fn action_values<E>(outbox: Seq<ReaderAction<E>>) -> Seq<ReaderActionValue<E>> {
    outbox.map_values(|action: ReaderAction<E>| action@)
}

/// The value of a wait for the query.
pub open spec fn bootstrap_value(dsr: Option<DsrBootstrap>) -> Option<Bootstrap> {
    match dsr {
        Some(dsr) => Some(
            Bootstrap {
                wait: dsr@,
                handle: dsr.handle(),
                start: dsr.start(),
                timeout: dsr.timeout(),
            },
        ),
        None => None,
    }
}

impl<E> View for ConPtyReaderLoop<E> {
    type V = ReaderState<E>;

    closed spec fn view(&self) -> ReaderState<E> {
        ReaderState {
            bootstrap: bootstrap_value(self.dsr_bootstrap),
            outbox: action_values(self.outbox@),
            leaving: self.leaving,
            in_flight_must_arrive: self.in_flight_must_arrive,
        }
    }
}

impl<E> ConPtyReaderLoop<E> {
    /// The thread before it has read anything; `dsr_bootstrap` if the query at the
    /// start of a shell is waited for.
    pub fn new(dsr_bootstrap: Option<DsrBootstrap>) -> (state: Self)
        ensures
            state@ == ReaderState::<E>::fresh(bootstrap_value(dsr_bootstrap)),
    {
        let state = ConPtyReaderLoop {
            dsr_bootstrap,
            outbox: VecDeque::new(),
            leaving: false,
            in_flight_must_arrive: false,
        };
        assert(action_values(state.outbox@) =~= Seq::empty());
        state
    }

    /// What is done next.
    pub fn next_work(&mut self) -> (work: ReaderWork<E>)
        ensures
            (final(self)@, work@) == old(self)@.next(),
    {
        match self.outbox.pop_front() {
            Some(action) => {
                assert(action_values(self.outbox@) =~= old(self)@.outbox.drop_first());
                self.in_flight_must_arrive = matches!(action, ReaderAction::Forward(_));
                return ReaderWork::Perform(action);
            },
            None => {},
        }
        if self.leaving {
            return ReaderWork::Stop;
        }
        let mut dsr_bootstrap = None;
        std::mem::swap(&mut dsr_bootstrap, &mut self.dsr_bootstrap);
        if let Some(mut dsr) = dsr_bootstrap {
            match dsr.drain_deferred(CONPTY_READ_BUFFER_SIZE) {
                Some(bytes) => {
                    if !dsr.is_done() {
                        self.dsr_bootstrap = Some(dsr);
                    }
                    self.in_flight_must_arrive = true;
                    return ReaderWork::Perform(ReaderAction::Forward(bytes));
                },
                None => {
                    self.dsr_bootstrap = Some(dsr);
                },
            }
        }
        ReaderWork::Read { max_len: CONPTY_READ_BUFFER_SIZE }
    }

    /// Takes note of how the last thing that was done for others went.
    pub fn performed(&mut self, delivered: bool)
        ensures
            final(self)@ == old(self)@.after_performing(delivered),
    {
        if self.in_flight_must_arrive && !delivered {
            self.outbox.clear();
            assert(action_values(self.outbox@) =~= Seq::empty());
            self.leaving = true;
        }
        self.in_flight_must_arrive = false;
    }

    /// Takes what was read, at the time of the call.
    pub fn pipe_read(&mut self, read: PipeRead<E>)
        ensures
            exists|expired: bool|
                final(self)@ == #[trigger] old(self)@.after_reading(expired, read@),
    {
        let expired = match &self.dsr_bootstrap {
            Some(dsr) => dsr.is_expired(),
            None => false,
        };
        self.pipe_read_at(expired, read)
    }

    /// Takes what was read; `expired` if the time for the query is over.
    pub fn pipe_read_at(&mut self, expired: bool, read: PipeRead<E>)
        ensures
            final(self)@ == old(self)@.after_reading(expired, read@),
    {
        let ghost before = self@;
        if self.leaving {
            return;
        }
        match read {
            PipeRead::Bytes(bytes) => {
                if bytes.len() == 0 {
                    self.leaving = true;
                    return;
                }
                let mut dsr_bootstrap = None;
                std::mem::swap(&mut dsr_bootstrap, &mut self.dsr_bootstrap);
                match dsr_bootstrap {
                    None => {
                        self.outbox.push_back(ReaderAction::Forward(bytes));
                        assert(action_values(self.outbox@) =~= before.outbox.push(
                            ReaderActionValue::Forward(bytes@),
                        ));
                    },
                    Some(mut dsr) => {
                        let output = dsr.filter_at(expired, &bytes, CONPTY_READ_BUFFER_SIZE);
                        let ghost filtered = bootstrap_value(Some(dsr))->0;
                        match dsr.write_dsr_response() {
                            Some((handle, reply)) => {
                                self.outbox.push_back(ReaderAction::Reply { handle, bytes: reply });
                                assert(action_values(self.outbox@) =~= before.outbox
                                    + filtered.reply());
                            },
                            None => {
                                assert(action_values(self.outbox@) =~= before.outbox
                                    + filtered.reply());
                            },
                        }
                        if !dsr.is_done() {
                            self.dsr_bootstrap = Some(dsr);
                        }
                        if output.len() > 0 {
                            self.outbox.push_back(ReaderAction::Forward(output));
                        }
                        assert(action_values(self.outbox@) =~= before.outbox + filtered.reply()
                            + forwarding(output@));
                    },
                }
            },
            PipeRead::Failed { code, error } => {
                if !is_end_of_output(code) {
                    self.outbox.push_back(ReaderAction::ForwardError(error));
                    assert(action_values(self.outbox@) =~= before.outbox.push(
                        ReaderActionValue::ForwardError(error),
                    ));
                }
                self.leaving = true;
            },
        }
    }
}

/// The bytes that `action` hands on.
pub open spec fn handed_on<E>(action: ReaderActionValue<E>) -> Seq<u8> {
    match action {
        ReaderActionValue::Forward(bytes) => bytes,
        _ => Seq::empty(),
    }
}

/// The bytes that `actions` hand on, one after the other.
pub open spec fn all_handed_on<E>(actions: Seq<ReaderActionValue<E>>) -> Seq<u8>
    decreases actions.len(),
{
    if actions.len() == 0 {
        Seq::empty()
    } else {
        handed_on(actions[0]) + all_handed_on(actions.drop_first())
    }
}

impl<E> ReaderState<E> {
    /// The output that was kept back because it did not fit.
    pub open spec fn kept_back(self) -> Seq<u8> {
        match self.bootstrap {
            Some(bootstrap) => bootstrap.wait.deferred,
            None => Seq::empty(),
        }
    }

    /// The output that is to be handed on before the next read.
    pub open spec fn owed(self) -> Seq<u8> {
        all_handed_on(self.outbox) + self.kept_back()
    }

    /// The state once all that is owed was handed on.
    pub open spec fn settled(self) -> Self {
        ReaderState {
            bootstrap: match self.bootstrap {
                Some(bootstrap) => Bootstrap {
                    wait: crate::dsr::QueryWait { deferred: Seq::empty(), ..bootstrap.wait },
                    ..bootstrap
                }.kept(),
                None => None,
            },
            outbox: Seq::empty(),
            in_flight_must_arrive: false,
            ..self
        }
    }

    /// The state after `reads`, each with whether the time for the query was over,
    /// with all that was owed handed on after each of them; and the bytes that
    /// were handed on.
    pub open spec fn after_reads(self, reads: Seq<(bool, Seq<u8>)>) -> (Self, Seq<u8>)
        decreases reads.len(),
    {
        if reads.len() == 0 {
            (self, Seq::empty())
        } else {
            let (before, passed) = self.after_reads(reads.drop_last());
            let after = before.after_reading(
                reads.last().0,
                PipeReadValue::Bytes(reads.last().1),
            );
            (after.settled(), passed + after.owed())
        }
    }
}

proof fn lemma_handed_on_add<E>(
    first: Seq<ReaderActionValue<E>>,
    second: Seq<ReaderActionValue<E>>,
)
    ensures
        all_handed_on(first + second) == all_handed_on(first) + all_handed_on(second),
    decreases first.len(),
{
    if first.len() == 0 {
        assert(first + second =~= second);
        assert(all_handed_on(first) + all_handed_on(second) =~= all_handed_on(second));
    } else {
        assert((first + second).drop_first() =~= first.drop_first() + second);
        lemma_handed_on_add(first.drop_first(), second);
        assert(all_handed_on(first + second) =~= all_handed_on(first) + all_handed_on(second));
    }
}

proof fn lemma_one_handed_on<E>(action: ReaderActionValue<E>)
    ensures
        all_handed_on(seq![action]) == handed_on(action),
{
    let one = seq![action];
    assert(one.drop_first() =~= Seq::empty());
    assert(all_handed_on(one.drop_first()) =~= Seq::empty());
    assert(all_handed_on(one) =~= handed_on(action));
}

/// Output is handed on in order, and all of it before the next read: what is
/// handed on next, followed by what is owed then, is what was owed before.
pub proof fn law_owed_output_goes_first_and_in_order<E>(state: ReaderState<E>)
    ensures
        match state.next().1 {
            ReaderWorkValue::Perform(action) => handed_on(action) + state.next().0.owed()
                == state.owed(),
            ReaderWorkValue::Read { max_len } => state.owed().len() == 0 && max_len
                == CONPTY_READ_BUFFER_SIZE && state.next().0 == state,
            ReaderWorkValue::Stop => state.leaving && state.next().0 == state,
        },
        state.settled() == state.next().0.settled(),
{
    let after = state.next().0;
    if state.outbox.len() > 0 {
        assert(handed_on(state.outbox[0]) + after.owed() =~= state.owed());
    } else if !state.leaving && state.kept_back().len() > 0 {
        let bootstrap = state.bootstrap->0;
        let (wait, bytes) = bootstrap.wait.drained(CONPTY_READ_BUFFER_SIZE as nat);
        assert(bytes + wait.deferred =~= bootstrap.wait.deferred);
        if wait.done() {
            assert(bytes + after.owed() =~= state.owed());
            assert(wait.deferred =~= Seq::empty());
        } else {
            assert(bytes + after.owed() =~= state.owed());
        }
        assert(state.settled().outbox =~= after.settled().outbox);
    }
}

/// After a read all output that can be told from the query is owed.
pub proof fn law_read_output_is_owed<E>(state: ReaderState<E>, expired: bool, bytes: Seq<u8>)
    requires
        !state.leaving,
        state.outbox.len() == 0,
        state.kept_back().len() == 0,
        bytes.len() > 0,
    ensures
        state.after_reading(expired, PipeReadValue::Bytes(bytes)).owed() == match state.bootstrap {
            Some(bootstrap) => bootstrap.wait.settled(expired, bytes).1,
            None => bytes,
        },
        state.after_reading(expired, PipeReadValue::Bytes(bytes)).settled().bootstrap
            == match state.bootstrap {
            Some(bootstrap) => (Bootstrap {
                wait: bootstrap.wait.settled(expired, bytes).0.replying(),
                ..bootstrap
            }).kept(),
            None => None,
        },
{
    let after = state.after_reading(expired, PipeReadValue::Bytes(bytes));
    match state.bootstrap {
        None => {
            assert(after.outbox =~= seq![ReaderActionValue::<E>::Forward(bytes)]);
            lemma_one_handed_on(ReaderActionValue::<E>::Forward(bytes));
            assert(after.owed() =~= bytes);
        },
        Some(bootstrap) => {
            let max_len = CONPTY_READ_BUFFER_SIZE as nat;
            let (wait, output) = bootstrap.wait.filtered(expired, bytes, max_len);
            let whole = bootstrap.wait.settled(expired, bytes);
            crate::dsr::law_kept_back_output_follows(bootstrap.wait, expired, bytes, max_len);
            let filtered = Bootstrap { wait, ..bootstrap };
            lemma_handed_on_add(filtered.reply::<E>(), forwarding::<E>(output));
            assert(after.outbox =~= filtered.reply::<E>() + forwarding::<E>(output));
            lemma_one_handed_on(
                ReaderActionValue::<E>::Reply {
                    handle: bootstrap.handle,
                    bytes: crate::dsr::response(),
                },
            );
            lemma_one_handed_on(ReaderActionValue::<E>::Forward(output));
            assert(all_handed_on(after.outbox) =~= output);
            assert(after.owed() =~= output + wait.deferred);
            assert(bootstrap.wait.deferred =~= Seq::empty());
        },
    }
}

/// Whether `wait` is `other` but for the reply, which may have been given out.
spec fn same_but_for_reply(wait: crate::dsr::QueryWait, other: crate::dsr::QueryWait) -> bool {
    wait == (crate::dsr::QueryWait { replied: wait.replied, ..other })
}

proof fn lemma_reads_follow_the_wait<E>(
    bootstrap: Bootstrap,
    reads: Seq<(bool, Seq<u8>)>,
)
    requires
        bootstrap.wait == crate::dsr::QueryWait::fresh(),
        forall|i: int| 0 <= i < reads.len() ==> (#[trigger] reads[i]).1.len() > 0,
    ensures
        ({
            let (state, passed) = ReaderState::<E>::fresh(Some(bootstrap)).after_reads(reads);
            let (wait, all) = crate::dsr::QueryWait::fresh().settled_all(reads);
            &&& passed == all
            &&& !state.leaving
            &&& state.outbox.len() == 0
            &&& wait.deferred.len() == 0
            &&& match state.bootstrap {
                Some(now) => same_but_for_reply(now.wait, wait) && now.handle == bootstrap.handle,
                None => wait.done(),
            }
        }),
    decreases reads.len(),
{
    if reads.len() > 0 {
        let before_reads = reads.drop_last();
        assert forall|i: int| 0 <= i < before_reads.len() implies (
        #[trigger] before_reads[i]).1.len() > 0 by {
            assert(before_reads[i] == reads[i]);
        }
        lemma_reads_follow_the_wait::<E>(bootstrap, before_reads);
        let (before, passed) = ReaderState::<E>::fresh(Some(bootstrap)).after_reads(before_reads);
        let (wait, all) = crate::dsr::QueryWait::fresh().settled_all(before_reads);
        let (expired, bytes) = reads.last();
        assert(reads[reads.len() - 1].1.len() > 0);
        assert(before.kept_back() =~= Seq::empty());
        law_read_output_is_owed(before, expired, bytes);
        match before.bootstrap {
            Some(now) => {},
            None => {
                crate::dsr::law_finished_wait_is_out_of_the_way(wait, expired, bytes);
            },
        }
    }
}

/// However the output is split over reads, the reading thread loses none of it:
/// what it hands on, followed by what may be the beginning of the query, is what
/// was read, or that without the query once the query was found.
pub proof fn law_reading_thread_loses_no_output<E>(
    bootstrap: Bootstrap,
    reads: Seq<(bool, Seq<u8>)>,
)
    requires
        bootstrap.wait == crate::dsr::QueryWait::fresh(),
        forall|i: int| 0 <= i < reads.len() ==> (#[trigger] reads[i]).1.len() > 0,
    ensures
        ({
            let (state, passed) = ReaderState::<E>::fresh(Some(bootstrap)).after_reads(reads);
            let input = crate::dsr::read_bytes(reads);
            let held = match state.bootstrap {
                Some(now) => now.wait.pending,
                None => Seq::empty(),
            };
            &&& held.len() < crate::dsr::query().len()
            &&& {
                ||| passed + held == input
                ||| {
                    &&& crate::dsr::position(input, crate::dsr::query()) is Some
                    &&& passed == crate::dsr::without_query(input)
                    &&& held.len() == 0
                }
            }
        }),
{
    lemma_reads_follow_the_wait::<E>(bootstrap, reads);
    crate::dsr::law_no_output_is_lost(reads);
    let (state, passed) = ReaderState::<E>::fresh(Some(bootstrap)).after_reads(reads);
    let (wait, all) = crate::dsr::QueryWait::fresh().settled_all(reads);
    match state.bootstrap {
        Some(now) => {},
        None => {
            assert(wait.pending =~= Seq::empty());
        },
    }
}

/// How many of `actions` are replies.
pub open spec fn replies_among<E>(actions: Seq<ReaderActionValue<E>>) -> nat
    decreases actions.len(),
{
    if actions.len() == 0 {
        0
    } else if actions.last() is Reply {
        replies_among(actions.drop_last()) + 1
    } else {
        replies_among(actions.drop_last())
    }
}

impl<E> ReaderState<E> {
    /// How many replies are written in the course of `reads`.
    pub open spec fn replies_to(self, reads: Seq<(bool, Seq<u8>)>) -> nat
        decreases reads.len(),
    {
        if reads.len() == 0 {
            0
        } else {
            let before = self.after_reads(reads.drop_last()).0;
            let after = before.after_reading(
                reads.last().0,
                PipeReadValue::Bytes(reads.last().1),
            );
            self.replies_to(reads.drop_last()) + replies_among(after.outbox)
        }
    }
}

proof fn lemma_replies_after_one_read<E>(
    state: ReaderState<E>,
    expired: bool,
    bytes: Seq<u8>,
)
    requires
        !state.leaving,
        state.outbox.len() == 0,
        bytes.len() > 0,
        state.bootstrap matches Some(bootstrap) ==> bootstrap.handle != 0,
    ensures
        replies_among(state.after_reading(expired, PipeReadValue::Bytes(bytes)).outbox)
            == match state.bootstrap {
            Some(bootstrap) => if bootstrap.wait.settled(expired, bytes).0.reply_is_due() {
                1nat
            } else {
                0nat
            },
            None => 0nat,
        },
{
    let outbox = state.after_reading(expired, PipeReadValue::Bytes(bytes)).outbox;
    let nothing = Seq::<ReaderActionValue<E>>::empty();
    assert(state.outbox =~= nothing);
    assert(replies_among(nothing) == 0);
    match state.bootstrap {
        None => {
            assert(outbox.drop_last() =~= nothing);
        },
        Some(bootstrap) => {
            let (wait, output) = bootstrap.wait.filtered(
                expired,
                bytes,
                CONPTY_READ_BUFFER_SIZE as nat,
            );
            let reply = Bootstrap { wait, ..bootstrap }.reply::<E>();
            if wait.reply_is_due() {
                assert(reply.drop_last() =~= nothing);
                assert(replies_among(reply) == 1);
            }
            if output.len() > 0 {
                assert(outbox.drop_last() =~= reply);
            } else {
                assert(outbox =~= reply);
            }
        },
    }
}

proof fn lemma_reply_follows_the_query<E>(bootstrap: Bootstrap, reads: Seq<(bool, Seq<u8>)>)
    requires
        bootstrap.wait == crate::dsr::QueryWait::fresh(),
        bootstrap.handle != 0,
        forall|i: int| 0 <= i < reads.len() ==> (#[trigger] reads[i]).1.len() > 0,
    ensures
        ({
            let start = ReaderState::<E>::fresh(Some(bootstrap));
            let wait = crate::dsr::QueryWait::fresh().settled_all(reads).0;
            &&& start.replies_to(reads) == if wait.answered {
                1nat
            } else {
                0nat
            }
            &&& start.after_reads(reads).0.bootstrap matches Some(now) ==> now.wait.replied
                == wait.answered
        }),
    decreases reads.len(),
{
    if reads.len() > 0 {
        let earlier = reads.drop_last();
        assert forall|i: int| 0 <= i < earlier.len() implies (
        #[trigger] earlier[i]).1.len() > 0 by {
            assert(earlier[i] == reads[i]);
        }
        lemma_reply_follows_the_query::<E>(bootstrap, earlier);
        lemma_reads_follow_the_wait::<E>(bootstrap, earlier);
        let before = ReaderState::<E>::fresh(Some(bootstrap)).after_reads(earlier).0;
        let wait = crate::dsr::QueryWait::fresh().settled_all(earlier).0;
        let (expired, bytes) = reads.last();
        assert(reads[reads.len() - 1].1.len() > 0);
        assert(before.kept_back() =~= Seq::empty());
        lemma_replies_after_one_read(before, expired, bytes);
        law_read_output_is_owed(before, expired, bytes);
        match before.bootstrap {
            Some(now) => {},
            None => {
                crate::dsr::law_finished_wait_is_out_of_the_way(wait, expired, bytes);
            },
        }
    }
}

/// The query is answered once, wherever the output is split, and nothing else is:
/// while the time is not over, the reply is written exactly if the output holds
/// the query.
pub proof fn law_query_is_answered_once<E>(bootstrap: Bootstrap, reads: Seq<(bool, Seq<u8>)>)
    requires
        bootstrap.wait == crate::dsr::QueryWait::fresh(),
        bootstrap.handle != 0,
        forall|i: int| 0 <= i < reads.len() ==> (#[trigger] reads[i]).1.len() > 0,
    ensures
        ReaderState::<E>::fresh(Some(bootstrap)).replies_to(reads) <= 1,
        (forall|i: int| 0 <= i < reads.len() ==> !(#[trigger] reads[i]).0) ==> ReaderState::<
            E,
        >::fresh(Some(bootstrap)).replies_to(reads) == if crate::dsr::position(
            crate::dsr::read_bytes(reads),
            crate::dsr::query(),
        ) is Some {
            1nat
        } else {
            0nat
        },
{
    lemma_reply_follows_the_query::<E>(bootstrap, reads);
    if forall|i: int| 0 <= i < reads.len() ==> !(#[trigger] reads[i]).0 {
        crate::dsr::law_split_query_is_found(reads);
    }
}

/// The thread ends for good at the end of the output, at an error, which is the
/// last thing that it hands on, and where nobody takes the output any more.
pub proof fn law_reading_thread_ends<E>(
    state: ReaderState<E>,
    expired: bool,
    code: Option<i32>,
    error: E,
    delivered: bool,
    read: PipeReadValue<E>,
)
    requires
        !state.leaving,
        state.outbox.len() == 0,
    ensures
        state.after_reading(expired, PipeReadValue::Bytes(Seq::empty())).next().1
            == ReaderWorkValue::<E>::Stop,
        ends_output(code) ==> state.after_reading(
            expired,
            PipeReadValue::Failed { code, error },
        ).next().1 == ReaderWorkValue::<E>::Stop,
        !ends_output(code) ==> state.after_reading(
            expired,
            PipeReadValue::Failed { code, error },
        ).next().1 == ReaderWorkValue::Perform(ReaderActionValue::ForwardError(error)),
        !ends_output(code) ==> state.after_reading(
            expired,
            PipeReadValue::Failed { code, error },
        ).next().0.after_performing(delivered).next().1 == ReaderWorkValue::<E>::Stop,
        state.next().1 matches ReaderWorkValue::Perform(action) && action is Forward
            ==> state.next().0.after_performing(false).next().1 == ReaderWorkValue::<E>::Stop,
        state.after_reading(expired, read).leaving ==> forall|again: PipeReadValue<E>|
            state.after_reading(expired, read).after_reading(expired, again)
                == state.after_reading(expired, read),
{
    let failed = state.after_reading(expired, PipeReadValue::Failed { code, error });
    if !ends_output(code) {
        assert(failed.outbox =~= seq![ReaderActionValue::<E>::ForwardError(error)]);
    }
}

/// As many bytes are read as there are, or as there is room for; they come at the
/// beginning of the buffer, which is otherwise left as it is.
pub proof fn law_buffer_gets_what_fits(buffer: Seq<u8>, bytes: Seq<u8>, i: int)
    ensures
        fitting(bytes.len(), buffer.len()) <= bytes.len(),
        fitting(bytes.len(), buffer.len()) <= buffer.len(),
        fitting(bytes.len(), buffer.len()) == bytes.len() || fitting(bytes.len(), buffer.len())
            == buffer.len(),
        bytes.len() <= buffer.len() ==> overwritten(buffer, bytes).len() == buffer.len(),
        bytes.len() <= buffer.len() && 0 <= i < bytes.len() ==> overwritten(buffer, bytes)[i]
            == bytes[i],
        bytes.len() <= i < buffer.len() ==> overwritten(buffer, bytes)[i] == buffer[i],
{
}

/// What was read of a terminal without a wait for the query is handed on as it is,
/// behind what was to be done before.
pub proof fn law_output_is_handed_on_as_it_is<E>(
    state: ReaderState<E>,
    expired: bool,
    bytes: Seq<u8>,
)
    requires
        !state.leaving,
        state.bootstrap is None,
        bytes.len() > 0,
    ensures
        state.after_reading(expired, PipeReadValue::Bytes(bytes)) == (ReaderState {
            outbox: state.outbox.push(ReaderActionValue::Forward(bytes)),
            ..state
        }),
{
}

/// The query is answered at once: the reply goes to the input of the terminal, where
/// there is one, before any of the output that came with it is handed on.
pub proof fn law_reply_goes_to_the_terminal_first<E>(
    state: ReaderState<E>,
    bootstrap: Bootstrap,
    expired: bool,
    bytes: Seq<u8>,
)
    requires
        !state.leaving,
        state.bootstrap == Some(bootstrap),
        bytes.len() > 0,
    ensures
        ({
            let after = state.after_reading(expired, PipeReadValue::Bytes(bytes));
            let (wait, output) = bootstrap.wait.filtered(expired, bytes, 65536);
            let replies = wait.answered && !wait.replied && bootstrap.handle != 0;
            let before = state.outbox.len() as int;
            &&& forall|i: int| 0 <= i < before ==> #[trigger] after.outbox[i] == state.outbox[i]
            &&& replies ==> after.outbox.len() > before && after.outbox[before]
                == ReaderActionValue::<E>::Reply {
                handle: bootstrap.handle,
                bytes: seq![0x1bu8, 0x5bu8, 0x31u8, 0x3bu8, 0x31u8, 0x52u8],
            }
            &&& after.outbox.len() == before + (if replies {
                1int
            } else {
                0
            }) + (if output.len() > 0 {
                1int
            } else {
                0
            })
            &&& output.len() > 0 ==> after.outbox.last() == ReaderActionValue::<E>::Forward(output)
            &&& !after.leaving
            &&& after.in_flight_must_arrive == state.in_flight_must_arrive
            &&& match after.bootstrap {
                Some(now) => {
                    &&& now.handle == bootstrap.handle
                    &&& now.start == bootstrap.start
                    &&& now.timeout == bootstrap.timeout
                    &&& now.wait.answered ==> now.wait.replied
                    &&& now.wait.pending == wait.pending
                    &&& now.wait.deferred == wait.deferred
                },
                None => wait.completed && wait.pending.len() == 0 && wait.deferred.len() == 0,
            }
        }),
{
}

/// Two errors say no more than that the output has ended: a broken pipe, which is
/// the error 109 of the system, and one that is being closed, which is 232.
pub proof fn law_errors_that_end_the_output(code: Option<i32>)
    ensures
        ends_output(code) <==> code is Some && (code->0 == 109 || code->0 == 232),
{
}

/// What was kept back is handed on in pieces of 65536 bytes, the last of which may
/// be smaller, before anything more is read.
pub proof fn law_kept_back_output_goes_before_the_next_read<E>(
    state: ReaderState<E>,
    bootstrap: Bootstrap,
)
    requires
        !state.leaving,
        state.outbox.len() == 0,
        state.bootstrap == Some(bootstrap),
    ensures
        bootstrap.wait.deferred.len() > 0 ==> state.next().1 == ReaderWorkValue::<E>::Perform(
            ReaderActionValue::Forward(
                if bootstrap.wait.deferred.len() < 65536 {
                    bootstrap.wait.deferred
                } else {
                    bootstrap.wait.deferred.take(65536)
                },
            ),
        ),
        bootstrap.wait.deferred.len() == 0 ==> state.next() == (
            state,
            ReaderWorkValue::<E>::Read { max_len: 65536 },
        ),
{
    let all = bootstrap.wait.deferred;
    assert(all.take(all.len() as int) =~= all);
}

/// Only output that nobody takes ends the thread; whether a reply or an error
/// arrives changes nothing.
pub proof fn law_only_output_has_to_arrive<E>(state: ReaderState<E>, delivered: bool)
    requires
        state.outbox.len() > 0,
    ensures
        ({
            let after = state.next().0.after_performing(delivered);
            &&& state.outbox[0] is Forward && !delivered ==> after.leaving && after.outbox.len()
                == 0
            &&& delivered || !(state.outbox[0] is Forward) ==> after == (ReaderState {
                outbox: state.outbox.skip(1),
                in_flight_must_arrive: false,
                ..state
            })
        }),
{
    assert(state.outbox.drop_first() =~= state.outbox.skip(1));
}

/// A read gives what is left of the last chunk, or else of the next one, from its
/// beginning and as much as fits; the rest is left for the next read, and no other
/// chunk is touched.
pub proof fn law_read_takes_from_one_chunk(left: Seq<u8>, chunks: Seq<Seq<u8>>, room: nat)
    ensures
        ({
            let (read, still_left, waiting) = one_read(left, chunks, room);
            &&& left.len() > 0 ==> read + still_left == left && waiting == chunks
            &&& left.len() == 0 && chunks.len() > 0 ==> read + still_left == chunks[0] && waiting
                == chunks.skip(1)
            &&& left.len() == 0 && chunks.len() == 0 ==> read.len() == 0 && still_left.len() == 0
                && waiting.len() == 0
            &&& read.len() == room || still_left.len() == 0
            &&& read.len() <= room
        }),
{
    let (read, still_left, waiting) = one_read(left, chunks, room);
    if left.len() > 0 {
        assert(read + still_left =~= left);
    } else if chunks.len() > 0 {
        assert(read + still_left =~= chunks[0]);
        assert(waiting =~= chunks.skip(1));
    }
}

/// What is said of reads and of what the thread does next is said of what they hold.
pub proof fn law_values_of_reads_and_actions<E>(
    bytes: Vec<u8>,
    code: Option<i32>,
    error: E,
    handle: isize,
    max_len: usize,
    action: ReaderAction<E>,
)
    ensures
        PipeRead::<E>::Bytes(bytes)@ == PipeReadValue::<E>::Bytes(bytes@),
        (PipeRead::Failed { code, error })@ == (PipeReadValue::Failed { code, error }),
        (ReaderAction::<E>::Reply { handle, bytes })@ == (ReaderActionValue::<E>::Reply {
            handle,
            bytes: bytes@,
        }),
        ReaderAction::<E>::Forward(bytes)@ == ReaderActionValue::<E>::Forward(bytes@),
        ReaderAction::ForwardError(error)@ == ReaderActionValue::ForwardError(error),
        ReaderWork::Perform(action)@ == ReaderWorkValue::Perform(action@),
        (ReaderWork::<E>::Read { max_len })@ == (ReaderWorkValue::<E>::Read { max_len }),
        ReaderWork::<E>::Stop@ is Stop,
{
}

} // verus!
