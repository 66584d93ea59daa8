//! Recent output of each terminal, kept for readers that follow it by cursor.
use crate::terminal_bytes::TerminalOutput;
use std::collections::{HashMap, VecDeque};
use vstd::prelude::*;

verus! {

broadcast use vstd::std_specs::hash::group_hash_axioms;

pub const DEFAULT_EVENT_CAPACITY: usize = 1024;

pub const DEFAULT_RECENT_BYTE_CAPACITY: usize = 1_048_576;

/// One chunk of retained output.
#[derive(Debug, Clone, PartialEq, Eq)]
pub struct TerminalOutputEvent {
    pub sequence: u64,
    pub bytes: Vec<u8>,
}

/// A reader's place in the output of one terminal: the number of the chunk that
/// it reads next.
#[derive(Debug, Clone, Copy, PartialEq, Eq)]
pub struct TerminalOutputCursor {
    next_sequence: u64,
}

/// What a reader is told when chunks that it has not read are gone.
#[derive(Debug, Clone, PartialEq, Eq)]
pub struct TerminalOutputGap {
    pub expected_sequence: u64,
    pub resume_sequence: u64,
    pub skipped_events: u64,
    pub newest_sequence: u64,
    pub recent_bytes: Vec<u8>,
}

/// What a reader gets out of one poll.
#[derive(Debug, Clone, PartialEq, Eq)]
pub enum TerminalOutputCursorItem {
    Event(TerminalOutputEvent),
    Gap(TerminalOutputGap),
}

/// The retained output of all terminals.
#[derive(Debug)]
pub struct TerminalOutputStore {
    terminals: HashMap<u32, TerminalOutputRing>,
    event_capacity: usize,
    recent_byte_capacity: usize,
}

/// The retained output of one terminal.
#[derive(Debug)]
pub struct TerminalOutputRing {
    generation: u64,
    events: VecDeque<TerminalOutputEvent>,
    recent_bytes: VecDeque<u8>,
    recent_byte_capacity: usize,
}

/// The last `n` elements of `s`, or all of them where there are no more.
pub open spec fn last_n<T>(s: Seq<T>, n: nat) -> Seq<T> {
    if s.len() <= n {
        s
    } else {
        s.subrange(s.len() - n, s.len() as int)
    }
}

/// A retained chunk as a value: its number and its bytes.
pub struct Chunk {
    pub sequence: u64,
    pub bytes: Seq<u8>,
}

/// What a poll gives, as a value.
pub enum CursorItem {
    Event(Chunk),
    Gap {
        expected_sequence: u64,
        resume_sequence: u64,
        skipped_events: u64,
        newest_sequence: u64,
        recent_bytes: Seq<u8>,
    },
}

/// The retained output of one terminal as a value: the chunks of the current
/// generation that are still there, oldest first, and the last bytes of that
/// generation.
pub struct Retained {
    pub generation: u64,
    pub chunks: Seq<Chunk>,
    pub recent: Seq<u8>,
    pub recent_capacity: nat,
}

/// The number after `n`; the largest one is followed by itself.
pub open spec fn saturating_next(n: u64) -> u64 {
    if n == u64::MAX {
        n
    } else {
        (n + 1) as u64
    }
}

/// The first of `chunks` that has the number `sequence`.
pub open spec fn chunk_numbered(chunks: Seq<Chunk>, sequence: u64) -> Option<Chunk>
    decreases chunks.len(),
{
    if chunks.len() == 0 {
        None
    } else if chunks[0].sequence == sequence {
        Some(chunks[0])
    } else {
        chunk_numbered(chunks.drop_first(), sequence)
    }
}

impl Retained {
    /// Nothing retained yet of the stream `generation`.
    pub open spec fn fresh(generation: u64, recent_capacity: nat) -> Self {
        Retained { generation, chunks: Seq::empty(), recent: Seq::empty(), recent_capacity }
    }

    /// The chunks' numbers go up, and no more of anything is retained than
    /// allowed.
    pub open spec fn wf(self, event_capacity: nat) -> bool {
        &&& self.chunks.len() <= event_capacity
        &&& self.recent.len() <= self.recent_capacity
        &&& forall|i: int, j: int|
            0 <= i < j < self.chunks.len() ==> self.chunks[i].sequence < self.chunks[j].sequence
    }

    /// The number of the oldest chunk, or zero where there is none.
    pub open spec fn oldest(self) -> u64 {
        if self.chunks.len() == 0 {
            0
        } else {
            self.chunks[0].sequence
        }
    }

    /// The number of the newest chunk, or zero where there is none.
    pub open spec fn newest(self) -> u64 {
        if self.chunks.len() == 0 {
            0
        } else {
            self.chunks.last().sequence
        }
    }

    /// The number that follows the newest chunk's, or zero where there is none.
    pub open spec fn following(self) -> u64 {
        if self.chunks.len() == 0 {
            0
        } else {
            saturating_next(self.chunks.last().sequence)
        }
    }

    /// Whether a chunk with this generation and number is taken: it belongs to
    /// a newer generation, or it comes after all chunks of the current one.
    pub open spec fn accepts(self, generation: u64, sequence: u64) -> bool {
        ||| generation > self.generation
        ||| generation == self.generation && (self.chunks.len() == 0 || sequence
            > self.chunks.last().sequence)
    }

    /// What is left when output of `generation` arrives: everything, unless
    /// that generation is newer.
    pub open spec fn entering(self, generation: u64) -> Self {
        if generation > self.generation {
            Self::fresh(generation, self.recent_capacity)
        } else {
            self
        }
    }

    /// The retained output after a chunk has arrived.
    pub open spec fn pushed(
        self,
        generation: u64,
        sequence: u64,
        bytes: Seq<u8>,
        event_capacity: nat,
    ) -> Self {
        if !self.accepts(generation, sequence) {
            self
        } else {
            let base = self.entering(generation);
            Retained {
                generation: base.generation,
                chunks: last_n(base.chunks.push(Chunk { sequence, bytes }), event_capacity),
                recent: last_n(base.recent + bytes, base.recent_capacity),
                recent_capacity: base.recent_capacity,
            }
        }
    }

    /// One poll by a reader that is at `next`: where the reader is afterwards,
    /// and what it gets.
    pub open spec fn polled(self, next: u64) -> (u64, Option<CursorItem>) {
        if self.chunks.len() == 0 {
            (next, None)
        } else if next < self.oldest() {
            (
                self.oldest(),
                Some(
                    CursorItem::Gap {
                        expected_sequence: next,
                        resume_sequence: self.oldest(),
                        skipped_events: (self.oldest() - next) as u64,
                        newest_sequence: self.newest(),
                        recent_bytes: self.recent,
                    },
                ),
            )
        } else {
            match chunk_numbered(self.chunks, next) {
                Some(chunk) => (saturating_next(next), Some(CursorItem::Event(chunk))),
                None => (next, None),
            }
        }
    }

    /// Polls in a row, at most `limit` of them, up to the first that gives
    /// nothing or a gap: where the reader is afterwards, and what it gets.
    pub open spec fn drained(self, next: u64, limit: nat) -> (u64, Seq<CursorItem>)
        decreases limit,
    {
        if limit == 0 {
            (next, Seq::empty())
        } else {
            let (after, item) = self.polled(next);
            match item {
                None => (after, Seq::empty()),
                Some(CursorItem::Event(chunk)) => {
                    let (end, rest) = self.drained(after, (limit - 1) as nat);
                    (end, seq![CursorItem::Event(chunk)] + rest)
                },
                Some(gap) => (after, seq![gap]),
            }
        }
    }
}

impl View for TerminalOutputEvent {
    type V = Chunk;

    open spec fn view(&self) -> Chunk {
        Chunk { sequence: self.sequence, bytes: self.bytes@ }
    }
}

impl View for TerminalOutputCursorItem {
    type V = CursorItem;

    open spec fn view(&self) -> CursorItem {
        match *self {
            TerminalOutputCursorItem::Event(event) => CursorItem::Event(event@),
            TerminalOutputCursorItem::Gap(gap) => CursorItem::Gap {
                expected_sequence: gap.expected_sequence,
                resume_sequence: gap.resume_sequence,
                skipped_events: gap.skipped_events,
                newest_sequence: gap.newest_sequence,
                recent_bytes: gap.recent_bytes@,
            },
        }
    }
}

impl View for TerminalOutputCursor {
    type V = u64;

    closed spec fn view(&self) -> u64 {
        self.next_sequence
    }
}

impl View for TerminalOutputRing {
    type V = Retained;

    closed spec fn view(&self) -> Retained {
        Retained {
            generation: self.generation,
            chunks: self.events@.map_values(|event: TerminalOutputEvent| event@),
            recent: self.recent_bytes@,
            recent_capacity: self.recent_byte_capacity as nat,
        }
    }
}

impl TerminalOutputRing {
    /// A ring that retains nothing yet.
    pub fn new(generation: u64, recent_byte_capacity: usize) -> (ring: Self)
        ensures
            ring@ == Retained::fresh(generation, recent_byte_capacity as nat),
    {
        let ring = Self {
            generation,
            events: VecDeque::new(),
            recent_bytes: VecDeque::new(),
            recent_byte_capacity,
        };
        assert(ring@.chunks =~= Seq::<Chunk>::empty());
        ring
    }

    /// Takes a chunk, unless it belongs to an older generation or comes too
    /// late in its own. Returns the chunk's number where it was taken.
    pub fn push(
        &mut self,
        generation: u64,
        sequence: u64,
        bytes: Vec<u8>,
        event_capacity: usize,
    ) -> (taken: Option<u64>)
        ensures
            final(self)@ == old(self)@.pushed(
                generation,
                sequence,
                bytes@,
                event_capacity as nat,
            ),
            taken == if old(self)@.accepts(generation, sequence) {
                Some(sequence)
            } else {
                None
            },
    {
        if generation < self.generation {
            return None;
        }
        if generation > self.generation {
            self.generation = generation;
            self.events.clear();
            self.recent_bytes.clear();
            assert(self@.chunks =~= Seq::<Chunk>::empty());
        }
        assert(self@ == old(self)@.entering(generation));
        let count: usize = self.events.len();
        if count > 0 && sequence <= self.events[count - 1].sequence {
            return None;
        }
        let ghost base = self@;
        self.append_recent_bytes(bytes.as_slice());
        self.events.push_back(TerminalOutputEvent { sequence, bytes });
        let ghost all = self.events@;
        assert(all.map_values(|event: TerminalOutputEvent| event@) =~= base.chunks.push(
            Chunk { sequence, bytes: bytes@ },
        ));
        assert(last_n(all, all.len()) =~= all);
        let ghost recent = self.recent_bytes@;
        while self.events.len() > event_capacity
            invariant
                self.events@.len() <= all.len(),
                self.events@ == last_n(all, self.events@.len()),
                self.events@.len() >= event_capacity || self.events@ == all,
                self.recent_bytes@ == recent,
                self.generation == base.generation,
                self.recent_byte_capacity == base.recent_capacity,
            decreases self.events@.len(),
        {
            self.events.pop_front();
            assert(self.events@ =~= last_n(all, self.events@.len()));
        }
        assert(self.events@ == last_n(all, event_capacity as nat));
        assert(self@.chunks =~= last_n(
            base.chunks.push(Chunk { sequence, bytes: bytes@ }),
            event_capacity as nat,
        ));
        Some(sequence)
    }

    /// A cursor at the oldest chunk.
    pub fn cursor_from_oldest(&self) -> (cursor: TerminalOutputCursor)
        ensures
            cursor@ == self@.oldest(),
    {
        TerminalOutputCursor { next_sequence: self.oldest_sequence() }
    }

    /// A cursor at the chunk that comes after the newest one.
    pub fn cursor_from_now(&self) -> (cursor: TerminalOutputCursor)
        ensures
            cursor@ == self@.following(),
    {
        TerminalOutputCursor { next_sequence: self.next_sequence() }
    }

    /// Gives the chunk that the cursor is at and moves the cursor on. A cursor
    /// behind the oldest chunk is moved there, and told what it missed.
    pub fn poll_cursor(&self, cursor: &mut TerminalOutputCursor) -> (item: Option<
        TerminalOutputCursorItem,
    >)
        ensures
            final(cursor)@ == self@.polled(old(cursor)@).0,
            match item {
                Some(item) => self@.polled(old(cursor)@).1 == Some(item@),
                None => self@.polled(old(cursor)@).1 is None,
            },
    {
        if self.events.len() == 0 {
            return None;
        }
        let oldest_sequence: u64 = self.oldest_sequence();
        if cursor.next_sequence < oldest_sequence {
            let expected_sequence: u64 = cursor.next_sequence;
            cursor.next_sequence = oldest_sequence;
            return Some(
                TerminalOutputCursorItem::Gap(
                    TerminalOutputGap {
                        expected_sequence,
                        resume_sequence: oldest_sequence,
                        skipped_events: oldest_sequence.saturating_sub(expected_sequence),
                        newest_sequence: self.newest_sequence(),
                        recent_bytes: self.copy_recent_bytes(),
                    },
                ),
            );
        }
        let next: u64 = cursor.next_sequence;
        let mut i: usize = 0;
        assert(self@.chunks.skip(0) =~= self@.chunks);
        while i < self.events.len()
            invariant
                i <= self.events@.len(),
                self.events@.len() == self@.chunks.len(),
                cursor.next_sequence == next,
                chunk_numbered(self@.chunks, next) == chunk_numbered(
                    self@.chunks.skip(i as int),
                    next,
                ),
                self@.chunks.len() > 0,
                next >= self@.oldest(),
                next == old(cursor)@,
            decreases self.events@.len() - i,
        {
            let event = &self.events[i];
            assert(self@.chunks.skip(i as int)[0] == event@);
            if event.sequence == next {
                cursor.next_sequence = next.saturating_add(1);
                let bytes = event.bytes.clone();
                assert(bytes@ =~= event.bytes@);
                return Some(
                    TerminalOutputCursorItem::Event(
                        TerminalOutputEvent { sequence: event.sequence, bytes },
                    ),
                );
            }
            assert(self@.chunks.skip(i as int).drop_first() =~= self@.chunks.skip(i + 1));
            i = i + 1;
        }
        None
    }

    fn oldest_sequence(&self) -> (sequence: u64)
        ensures
            sequence == self@.oldest(),
    {
        if self.events.len() == 0 {
            0
        } else {
            self.events[0].sequence
        }
    }

    fn next_sequence(&self) -> (sequence: u64)
        ensures
            sequence == self@.following(),
    {
        let count: usize = self.events.len();
        if count == 0 {
            0
        } else {
            self.events[count - 1].sequence.saturating_add(1)
        }
    }

    fn newest_sequence(&self) -> (sequence: u64)
        ensures
            sequence == self@.newest(),
    {
        let count: usize = self.events.len();
        if count == 0 {
            0
        } else {
            self.events[count - 1].sequence
        }
    }

    fn append_recent_bytes(&mut self, bytes: &[u8])
        ensures
            final(self)@ == (Retained {
                recent: last_n(old(self)@.recent + bytes@, old(self)@.recent_capacity),
                ..old(self)@
            }),
            final(self).events == old(self).events,
            final(self).generation == old(self).generation,
            final(self).recent_byte_capacity == old(self).recent_byte_capacity,
    {
        let ghost before = self.recent_bytes@;
        let mut i: usize = 0;
        assert(before =~= before + bytes@.take(0));
        while i < bytes.len()
            invariant
                i <= bytes@.len(),
                self.recent_bytes@ == before + bytes@.take(i as int),
                self.events == old(self).events,
                self.generation == old(self).generation,
                self.recent_byte_capacity == old(self).recent_byte_capacity,
            decreases bytes@.len() - i,
        {
            self.recent_bytes.push_back(bytes[i]);
            i = i + 1;
            assert(self.recent_bytes@ =~= before + bytes@.take(i as int));
        }
        assert(bytes@.take(i as int) =~= bytes@);
        let ghost all = self.recent_bytes@;
        assert(last_n(all, all.len()) =~= all);
        while self.recent_bytes.len() > self.recent_byte_capacity
            invariant
                self.recent_bytes@.len() <= all.len(),
                self.recent_bytes@ == last_n(all, self.recent_bytes@.len()),
                self.recent_bytes@.len() >= self.recent_byte_capacity || self.recent_bytes@ == all,
                self.events == old(self).events,
                self.generation == old(self).generation,
                self.recent_byte_capacity == old(self).recent_byte_capacity,
            decreases self.recent_bytes@.len(),
        {
            self.recent_bytes.pop_front();
            assert(self.recent_bytes@ =~= last_n(all, self.recent_bytes@.len()));
        }
        assert(self.recent_bytes@ == last_n(all, self.recent_byte_capacity as nat));
    }

    fn copy_recent_bytes(&self) -> (bytes: Vec<u8>)
        ensures
            bytes@ == self@.recent,
    {
        let mut bytes: Vec<u8> = Vec::new();
        let mut i: usize = 0;
        while i < self.recent_bytes.len()
            invariant
                i <= self.recent_bytes@.len(),
                bytes@ == self.recent_bytes@.take(i as int),
            decreases self.recent_bytes@.len() - i,
        {
            bytes.push(self.recent_bytes[i]);
            i = i + 1;
            assert(bytes@ =~= self.recent_bytes@.take(i as int));
        }
        assert(self.recent_bytes@.take(i as int) =~= self.recent_bytes@);
        bytes
    }
}

/// The retained output of all terminals as a value.
pub struct Stored {
    pub rings: Map<u32, Retained>,
    pub event_capacity: nat,
    pub recent_capacity: nat,
}

impl Stored {
    /// Nothing is retained yet, of at most `events` chunks, but at least one, and
    /// `bytes` bytes of each terminal.
    pub open spec fn limited(events: nat, bytes: nat) -> Self {
        Stored {
            rings: Map::empty(),
            event_capacity: if events == 0 {
                1
            } else {
                events
            },
            recent_capacity: bytes,
        }
    }

    /// Where a reader begins that reads all that is retained of the terminal `id`.
    pub open spec fn oldest(self, id: u32) -> u64 {
        if self.rings.contains_key(id) {
            self.rings[id].oldest()
        } else {
            0
        }
    }

    /// Where a reader begins that reads what comes of the terminal `id`.
    pub open spec fn following(self, id: u32) -> u64 {
        if self.rings.contains_key(id) {
            self.rings[id].following()
        } else {
            0
        }
    }

    /// At least one chunk can be retained of each terminal, and what is retained
    /// keeps to the limits.
    pub open spec fn wf(self) -> bool {
        &&& self.event_capacity >= 1
        &&& forall|id: u32| #[trigger]
            self.rings.contains_key(id) ==> self.rings[id].wf(self.event_capacity)
                && self.rings[id].recent_capacity == self.recent_capacity
    }

    /// What is retained of the terminal `id` when output of `generation`
    /// arrives for it.
    pub open spec fn ring_for(self, id: u32, generation: u64) -> Retained {
        if self.rings.contains_key(id) {
            self.rings[id]
        } else {
            Retained::fresh(generation, self.recent_capacity)
        }
    }

    /// Whether a chunk is taken: it is numbered, and its terminal accepts it.
    pub open spec fn accepts(
        self,
        id: u32,
        generation: Option<u64>,
        sequence: Option<u64>,
    ) -> bool {
        match (generation, sequence) {
            (Some(generation), Some(sequence)) => self.ring_for(id, generation).accepts(
                generation,
                sequence,
            ),
            _ => false,
        }
    }

    /// The retained output after a chunk has arrived.
    pub open spec fn pushed(
        self,
        id: u32,
        generation: Option<u64>,
        sequence: Option<u64>,
        bytes: Seq<u8>,
    ) -> Self {
        match (generation, sequence) {
            (Some(generation), Some(sequence)) => Stored {
                rings: self.rings.insert(
                    id,
                    self.ring_for(id, generation).pushed(
                        generation,
                        sequence,
                        bytes,
                        self.event_capacity,
                    ),
                ),
                ..self
            },
            _ => self,
        }
    }

    /// One poll of the terminal `id`.
    pub open spec fn polled(self, id: u32, next: u64) -> (u64, Option<CursorItem>) {
        if self.rings.contains_key(id) {
            self.rings[id].polled(next)
        } else {
            (next, None)
        }
    }

    /// Polls in a row of the terminal `id`.
    pub open spec fn drained(self, id: u32, next: u64, limit: nat) -> (u64, Seq<CursorItem>) {
        if self.rings.contains_key(id) {
            self.rings[id].drained(next, limit)
        } else {
            (next, Seq::empty())
        }
    }
}

impl View for TerminalOutputStore {
    type V = Stored;

    closed spec fn view(&self) -> Stored {
        Stored {
            rings: self.terminals@.map_values(|ring: TerminalOutputRing| ring@),
            event_capacity: self.event_capacity as nat,
            recent_capacity: self.recent_byte_capacity as nat,
        }
    }
}

/// The values of a list of items.
pub open spec fn item_values(items: Seq<TerminalOutputCursorItem>) -> Seq<CursorItem> {
    items.map_values(|item: TerminalOutputCursorItem| item@)
}

impl TerminalOutputStore {
    /// A store with the default limits.
    pub fn new() -> (store: Self)
        ensures
            store@ == (Stored {
                rings: Map::empty(),
                event_capacity: DEFAULT_EVENT_CAPACITY as nat,
                recent_capacity: DEFAULT_RECENT_BYTE_CAPACITY as nat,
            }),
            store@.wf(),
    {
        Self::with_limits(DEFAULT_EVENT_CAPACITY, DEFAULT_RECENT_BYTE_CAPACITY)
    }

    /// A store that retains at most `event_capacity` chunks, but at least one,
    /// and the last `recent_byte_capacity` bytes of each terminal.
    pub fn with_limits(event_capacity: usize, recent_byte_capacity: usize) -> (store: Self)
        ensures
            store@ == (Stored {
                rings: Map::empty(),
                event_capacity: if event_capacity == 0 {
                    1
                } else {
                    event_capacity as nat
                },
                recent_capacity: recent_byte_capacity as nat,
            }),
            store@ == Stored::limited(event_capacity as nat, recent_byte_capacity as nat),
            store@.wf(),
    {
        let store = Self {
            terminals: HashMap::new(),
            event_capacity: if event_capacity == 0 {
                1
            } else {
                event_capacity
            },
            recent_byte_capacity,
        };
        assert(store@.rings =~= Map::<u32, Retained>::empty());
        store
    }

    /// Takes a chunk of output and returns its number. Output that belongs to
    /// no stream is not retained, nor is what its terminal does not accept.
    pub fn push(&mut self, output: &TerminalOutput) -> (taken: Option<u64>)
        ensures
            final(self)@ == old(self)@.pushed(
                output.terminal_id,
                output.generation,
                output.sequence,
                output.bytes@,
            ),
            taken == if old(self)@.accepts(
                output.terminal_id,
                output.generation,
                output.sequence,
            ) {
                output.sequence
            } else {
                None
            },
            old(self)@.wf() ==> final(self)@.wf(),
    {
        let generation: u64 = match output.generation {
            Some(generation) => generation,
            None => return None,
        };
        let sequence: u64 = match output.sequence {
            Some(sequence) => sequence,
            None => return None,
        };
        let ghost before = self.terminals@;
        let ring = self.terminals.entry(output.terminal_id).or_insert(
            TerminalOutputRing::new(generation, self.recent_byte_capacity),
        );
        let ghost ring_before = ring@;
        let bytes = output.bytes.clone();
        assert(bytes@ =~= output.bytes@);
        let taken = ring.push(generation, sequence, bytes, self.event_capacity);
        proof {
            assert(ring_before == old(self)@.ring_for(output.terminal_id, generation));
            assert(self@.rings =~= old(self)@.pushed(
                output.terminal_id,
                output.generation,
                output.sequence,
                output.bytes@,
            ).rings);
            if old(self)@.wf() {
                law_push_keeps_limits(
                    ring_before,
                    generation,
                    sequence,
                    output.bytes@,
                    self.event_capacity as nat,
                );
            }
        }
        taken
    }

    /// A cursor at the oldest chunk of a terminal.
    pub fn cursor_from_oldest(&self, terminal_id: u32) -> (cursor: TerminalOutputCursor)
        ensures
            cursor@ == if self@.rings.contains_key(terminal_id) {
                self@.rings[terminal_id].oldest()
            } else {
                0
            },
            cursor@ == self@.oldest(terminal_id),
    {
        match self.terminals.get(&terminal_id) {
            Some(ring) => ring.cursor_from_oldest(),
            None => TerminalOutputCursor { next_sequence: 0 },
        }
    }

    /// A cursor at the chunk that comes after a terminal's newest one.
    pub fn cursor_from_now(&self, terminal_id: u32) -> (cursor: TerminalOutputCursor)
        ensures
            cursor@ == if self@.rings.contains_key(terminal_id) {
                self@.rings[terminal_id].following()
            } else {
                0
            },
            cursor@ == self@.following(terminal_id),
    {
        match self.terminals.get(&terminal_id) {
            Some(ring) => ring.cursor_from_now(),
            None => TerminalOutputCursor { next_sequence: 0 },
        }
    }

    /// Gives the chunk of a terminal that the cursor is at, or tells the cursor
    /// what it missed.
    pub fn poll_cursor(&self, terminal_id: u32, cursor: &mut TerminalOutputCursor) -> (item: Option<
        TerminalOutputCursorItem,
    >)
        ensures
            final(cursor)@ == self@.polled(terminal_id, old(cursor)@).0,
            match item {
                Some(item) => self@.polled(terminal_id, old(cursor)@).1 == Some(item@),
                None => self@.polled(terminal_id, old(cursor)@).1 is None,
            },
    {
        match self.terminals.get(&terminal_id) {
            Some(ring) => ring.poll_cursor(cursor),
            None => None,
        }
    }

    /// Polls until there is nothing to give, a gap has been reported, or
    /// `limit` items have been given.
    pub fn drain_cursor(
        &self,
        terminal_id: u32,
        cursor: &mut TerminalOutputCursor,
        limit: usize,
    ) -> (drained: Vec<TerminalOutputCursorItem>)
        ensures
            final(cursor)@ == self@.drained(terminal_id, old(cursor)@, limit as nat).0,
            item_values(drained@) == self@.drained(terminal_id, old(cursor)@, limit as nat).1,
    {
        let ghost whole = self@.drained(terminal_id, cursor@, limit as nat);
        let mut drained: Vec<TerminalOutputCursorItem> = Vec::new();
        let mut left: usize = limit;
        assert(item_values(drained@) + self@.drained(terminal_id, cursor@, left as nat).1
            =~= whole.1);
        while left > 0
            invariant
                left <= limit,
                whole == self@.drained(terminal_id, old(cursor)@, limit as nat),
                whole.0 == self@.drained(terminal_id, cursor@, left as nat).0,
                whole.1 == item_values(drained@) + self@.drained(
                    terminal_id,
                    cursor@,
                    left as nat,
                ).1,
            decreases left,
        {
            let ghost seen = item_values(drained@);
            let ghost rest = self@.drained(terminal_id, cursor@, left as nat);
            match self.poll_cursor(terminal_id, cursor) {
                None => {
                    assert(whole.1 =~= item_values(drained@));
                    return drained;
                },
                Some(item) => {
                    let is_gap = match &item {
                        TerminalOutputCursorItem::Gap(_) => true,
                        TerminalOutputCursorItem::Event(_) => false,
                    };
                    drained.push(item);
                    left = left - 1;
                    assert(item_values(drained@) =~= seen.push(item@));
                    if is_gap {
                        assert(whole.1 =~= item_values(drained@));
                        return drained;
                    }
                    assert(whole.1 =~= item_values(drained@) + self@.drained(
                        terminal_id,
                        cursor@,
                        left as nat,
                    ).1);
                },
            }
        }
        assert(whole.1 =~= item_values(drained@));
        drained
    }
}

/// Taking a chunk keeps the limits: no more chunks and bytes are retained than
/// allowed, and the chunks' numbers go up.
pub proof fn law_push_keeps_limits(
    ring: Retained,
    generation: u64,
    sequence: u64,
    bytes: Seq<u8>,
    event_capacity: nat,
)
    requires
        ring.wf(event_capacity),
    ensures
        ring.pushed(generation, sequence, bytes, event_capacity).wf(event_capacity),
        ring.pushed(generation, sequence, bytes, event_capacity).recent_capacity
            == ring.recent_capacity,
{
}

/// Output of an older generation changes nothing, and neither does output that
/// does not come after the newest chunk of its own generation.
pub proof fn law_stale_output_is_rejected(
    ring: Retained,
    generation: u64,
    sequence: u64,
    bytes: Seq<u8>,
    event_capacity: nat,
)
    requires
        generation < ring.generation || generation == ring.generation && ring.chunks.len() > 0
            && sequence <= ring.newest(),
    ensures
        !ring.accepts(generation, sequence),
        ring.pushed(generation, sequence, bytes, event_capacity) == ring,
{
}

/// The first output of a newer generation replaces all that was retained.
pub proof fn law_new_generation_clears(
    ring: Retained,
    generation: u64,
    sequence: u64,
    bytes: Seq<u8>,
    event_capacity: nat,
)
    requires
        generation > ring.generation,
        event_capacity >= 1,
    ensures
        ring.accepts(generation, sequence),
        ring.pushed(generation, sequence, bytes, event_capacity).generation == generation,
        ring.pushed(generation, sequence, bytes, event_capacity).chunks == seq![
            Chunk { sequence, bytes },
        ],
        ring.pushed(generation, sequence, bytes, event_capacity).recent == last_n(
            bytes,
            ring.recent_capacity,
        ),
{
    assert(Seq::<Chunk>::empty().push(Chunk { sequence, bytes }) =~= seq![
        Chunk { sequence, bytes },
    ]);
    assert(Seq::<u8>::empty() + bytes =~= bytes);
}

/// A terminal's generation never goes back.
pub proof fn law_generation_never_goes_back(
    ring: Retained,
    generation: u64,
    sequence: u64,
    bytes: Seq<u8>,
    event_capacity: nat,
)
    ensures
        ring.pushed(generation, sequence, bytes, event_capacity).generation >= ring.generation,
{
}

/// Output for one terminal leaves the others alone.
pub proof fn law_terminals_are_independent(
    store: Stored,
    id: u32,
    other: u32,
    generation: Option<u64>,
    sequence: Option<u64>,
    bytes: Seq<u8>,
)
    requires
        id != other,
    ensures
        store.pushed(id, generation, sequence, bytes).rings.contains_key(other)
            == store.rings.contains_key(other),
        store.rings.contains_key(other) ==> store.pushed(
            id,
            generation,
            sequence,
            bytes,
        ).rings[other] == store.rings[other],
{
}

/// Output that belongs to no stream is not retained.
pub proof fn law_unguarded_output_is_not_retained(
    store: Stored,
    id: u32,
    generation: Option<u64>,
    sequence: Option<u64>,
    bytes: Seq<u8>,
)
    requires
        generation is None || sequence is None,
    ensures
        !store.accepts(id, generation, sequence),
        store.pushed(id, generation, sequence, bytes) == store,
{
}

/// A cursor never goes back.
pub proof fn law_cursor_never_goes_back(ring: Retained, next: u64, limit: nat)
    ensures
        ring.polled(next).0 >= next,
        ring.drained(next, limit).0 >= next,
    decreases limit,
{
    if limit > 0 {
        law_cursor_never_goes_back(ring, ring.polled(next).0, (limit - 1) as nat);
    }
}

/// A gap is reported once: the poll after it gives the oldest chunk, and a
/// drain that reports one reports nothing else.
pub proof fn law_gap_is_reported_once(ring: Retained, next: u64, limit: nat)
    requires
        ring.chunks.len() > 0,
        next < ring.oldest(),
        limit > 0,
    ensures
        ring.polled(next).1 matches Some(CursorItem::Gap { .. }),
        ring.drained(next, limit).1 == seq![ring.polled(next).1->0],
        ring.polled(ring.polled(next).0).1 == Some(CursorItem::Event(ring.chunks[0])),
{
}

/// What a drain gives is in order: either it is a single gap, and the cursor is
/// then at the oldest chunk, or it is chunks whose numbers count up from the
/// cursor, which moves past them. Chunks that are fewer than asked for are all
/// that there is: the next poll gives nothing. Of the largest number there is no
/// next one, so a chunk must not have it.
pub proof fn law_drain_is_in_order(ring: Retained, next: u64, limit: nat)
    requires
        forall|i: int|
            0 <= i < ring.chunks.len() ==> #[trigger] ring.chunks[i].sequence < u64::MAX,
    ensures
        ({
            let (end, items) = ring.drained(next, limit);
            ||| {
                &&& limit > 0
                &&& ring.chunks.len() > 0 && next < ring.chunks[0].sequence
                &&& items.len() == 1 && items[0] is Gap
                &&& Some(items[0]) == ring.polled(next).1
                &&& end == ring.chunks[0].sequence
            }
            ||| {
                &&& limit == 0 || ring.chunks.len() == 0 || ring.chunks[0].sequence <= next
                &&& forall|i: int|
                    0 <= i < items.len() ==> (#[trigger] items[i] matches CursorItem::Event(chunk)
                        && chunk.sequence == next + i && ring.chunks.contains(chunk))
                &&& end == next + items.len()
                &&& items.len() < limit ==> ring.polled(end) == (end, None::<CursorItem>)
            }
        }),
        ring.drained(next, limit).1.len() <= limit,
    decreases limit,
{
    if limit > 0 {
        let (after, item) = ring.polled(next);
        if let Some(CursorItem::Event(chunk)) = item {
            lemma_numbered_has_number(ring.chunks, next);
            law_drain_is_in_order(ring, after, (limit - 1) as nat);
            let rest = ring.drained(after, (limit - 1) as nat).1;
            let items = ring.drained(next, limit).1;
            assert(ring.oldest() <= after);
            lemma_no_gap_ahead(ring, after, (limit - 1) as nat);
            assert forall|i: int| 0 <= i < items.len() implies (#[trigger] items[i] matches
                CursorItem::Event(chunk) && chunk.sequence == next + i && ring.chunks.contains(
                chunk,
            )) by {
                if i > 0 {
                    assert(items[i] == rest[i - 1]);
                }
            }
        }
    }
}

proof fn lemma_numbered_has_number(chunks: Seq<Chunk>, sequence: u64)
    ensures
        chunk_numbered(chunks, sequence) matches Some(chunk) ==> chunk.sequence == sequence
            && chunks.contains(chunk),
    decreases chunks.len(),
{
    if chunks.len() > 0 {
        let rest = chunks.drop_first();
        lemma_numbered_has_number(rest, sequence);
        if let Some(chunk) = chunk_numbered(chunks, sequence) {
            if chunks[0].sequence != sequence {
                let at = choose|at: int| 0 <= at < rest.len() && rest[at] == chunk;
                assert(chunks[at + 1] == chunk);
            }
        }
    }
}

proof fn lemma_no_gap_ahead(ring: Retained, next: u64, limit: nat)
    requires
        ring.chunks.len() > 0,
        next >= ring.oldest(),
    ensures
        forall|i: int|
            0 <= i < ring.drained(next, limit).1.len() ==> #[trigger] ring.drained(
                next,
                limit,
            ).1[i] is Event,
    decreases limit,
{
    if limit > 0 {
        let (after, item) = ring.polled(next);
        if let Some(CursorItem::Event(chunk)) = item {
            lemma_no_gap_ahead(ring, after, (limit - 1) as nat);
            let rest = ring.drained(after, (limit - 1) as nat).1;
            assert forall|i: int| 0 <= i < ring.drained(next, limit).1.len() implies #[trigger]
            ring.drained(next, limit).1[i] is Event by {
                if i > 0 {
                    assert(ring.drained(next, limit).1[i] == rest[i - 1]);
                }
            }
        }
    }
}

/// A cursor taken now gives nothing that is retained already, and the next
/// chunk of the stream once that has arrived. The newest chunk must not have
/// the largest number, after which there is none.
pub proof fn law_cursor_from_now_skips_retained(
    ring: Retained,
    bytes: Seq<u8>,
    event_capacity: nat,
)
    requires
        ring.wf(event_capacity),
        event_capacity >= 1,
        ring.chunks.len() > 0,
        ring.newest() < u64::MAX,
    ensures
        ring.polled(ring.following()) == (ring.following(), None::<CursorItem>),
        ring.pushed(ring.generation, ring.following(), bytes, event_capacity).polled(
            ring.following(),
        ).1 == Some(CursorItem::Event(Chunk { sequence: ring.following(), bytes })),
{
    let next = ring.following();
    lemma_not_numbered(ring.chunks, next);
    let after = ring.pushed(ring.generation, next, bytes, event_capacity);
    law_push_keeps_limits(ring, ring.generation, next, bytes, event_capacity);
    lemma_numbered_at(after.chunks, after.chunks.len() - 1);
}

proof fn lemma_not_numbered(chunks: Seq<Chunk>, sequence: u64)
    requires
        forall|i: int| 0 <= i < chunks.len() ==> chunks[i].sequence != sequence,
    ensures
        chunk_numbered(chunks, sequence) is None,
    decreases chunks.len(),
{
    if chunks.len() > 0 {
        lemma_not_numbered(chunks.drop_first(), sequence);
    }
}

proof fn lemma_numbered_at(chunks: Seq<Chunk>, at: int)
    requires
        0 <= at < chunks.len(),
        forall|i: int, j: int| 0 <= i < j < chunks.len() ==> chunks[i].sequence < chunks[j].sequence,
    ensures
        chunk_numbered(chunks, chunks[at].sequence) == Some(chunks[at]),
    decreases at,
{
    if at > 0 {
        assert(chunks[0].sequence < chunks[at].sequence);
        lemma_numbered_at(chunks.drop_first(), at - 1);
    }
}

/// The chunks `bytes` of a stream, numbered from `first` on.
pub open spec fn numbered_chunks(first: u64, bytes: Seq<Seq<u8>>) -> Seq<Chunk> {
    Seq::new(bytes.len(), |i: int| Chunk { sequence: (first + i) as u64, bytes: bytes[i] })
}

/// The retained output after the chunks `bytes` of the stream `generation` have
/// arrived in order, numbered from `first` on.
pub open spec fn after_stream(
    ring: Retained,
    generation: u64,
    first: u64,
    bytes: Seq<Seq<u8>>,
    event_capacity: nat,
) -> Retained
    decreases bytes.len(),
{
    if bytes.len() == 0 {
        ring
    } else {
        after_stream(ring, generation, first, bytes.drop_last(), event_capacity).pushed(
            generation,
            (first + bytes.len() - 1) as u64,
            bytes.last(),
            event_capacity,
        )
    }
}

/// The bytes of a list of chunks, one after the other.
pub open spec fn joined(bytes: Seq<Seq<u8>>) -> Seq<u8>
    decreases bytes.len(),
{
    if bytes.len() == 0 {
        Seq::empty()
    } else {
        joined(bytes.drop_last()) + bytes.last()
    }
}

/// Of a stream whose chunks arrive in order, what is retained is its last
/// chunks and its last bytes.
pub proof fn law_stream_tail_is_retained(
    generation: u64,
    first: u64,
    bytes: Seq<Seq<u8>>,
    event_capacity: nat,
    recent_capacity: nat,
)
    requires
        first + bytes.len() <= u64::MAX,
        event_capacity >= 1,
    ensures
        ({
            let start = Retained::fresh(generation, recent_capacity);
            let end = after_stream(start, generation, first, bytes, event_capacity);
            &&& end.generation == generation
            &&& end.chunks == last_n(numbered_chunks(first, bytes), event_capacity)
            &&& end.recent == last_n(joined(bytes), recent_capacity)
            &&& end.recent_capacity == recent_capacity
        }),
    decreases bytes.len(),
{
    let start = Retained::fresh(generation, recent_capacity);
    let end = after_stream(start, generation, first, bytes, event_capacity);
    if bytes.len() == 0 {
        assert(end.chunks =~= last_n(numbered_chunks(first, bytes), event_capacity));
    } else {
        let init = bytes.drop_last();
        law_stream_tail_is_retained(generation, first, init, event_capacity, recent_capacity);
        let before = after_stream(start, generation, first, init, event_capacity);
        let sequence = (first + bytes.len() - 1) as u64;
        let chunk = Chunk { sequence, bytes: bytes.last() };
        assert(before.accepts(generation, sequence));
        assert(numbered_chunks(first, bytes) =~= numbered_chunks(first, init).push(chunk));
        assert(end.chunks =~= last_n(numbered_chunks(first, bytes), event_capacity));
        assert(end.recent =~= last_n(joined(bytes), recent_capacity));
    }
}

/// Output as it arrives: a chunk and the stream that it belongs to.
pub struct Arrival {
    pub generation: u64,
    pub chunk: Chunk,
}

/// The retained output after `arrivals`, one after the other.
pub open spec fn after_arrivals(
    ring: Retained,
    arrivals: Seq<Arrival>,
    event_capacity: nat,
) -> Retained
    decreases arrivals.len(),
{
    if arrivals.len() == 0 {
        ring
    } else {
        after_arrivals(ring, arrivals.drop_last(), event_capacity).pushed(
            arrivals.last().generation,
            arrivals.last().chunk.sequence,
            arrivals.last().chunk.bytes,
            event_capacity,
        )
    }
}

/// The newest generation among `arrivals`, or `first` where none is newer.
pub open spec fn newest_generation(first: u64, arrivals: Seq<Arrival>) -> u64
    decreases arrivals.len(),
{
    if arrivals.len() == 0 {
        first
    } else {
        let before = newest_generation(first, arrivals.drop_last());
        if arrivals.last().generation > before {
            arrivals.last().generation
        } else {
            before
        }
    }
}

/// The chunks of the stream `generation` among `arrivals`, without those that
/// come too late: whose number is not above that of the one before.
pub open spec fn chunks_of_stream(generation: u64, arrivals: Seq<Arrival>) -> Seq<Chunk>
    decreases arrivals.len(),
{
    if arrivals.len() == 0 {
        Seq::empty()
    } else {
        let before = chunks_of_stream(generation, arrivals.drop_last());
        let chunk = arrivals.last().chunk;
        if arrivals.last().generation == generation && (before.len() == 0 || chunk.sequence
            > before.last().sequence) {
            before.push(chunk)
        } else {
            before
        }
    }
}

/// The bytes of each of `chunks`.
pub open spec fn bytes_of(chunks: Seq<Chunk>) -> Seq<Seq<u8>> {
    chunks.map_values(|chunk: Chunk| chunk.bytes)
}

/// Whatever arrives, and in whatever order, what is retained is the last chunks
/// and the last bytes of the newest stream, less what came too late in it.
pub proof fn law_tail_of_newest_stream_is_retained(
    generation: u64,
    arrivals: Seq<Arrival>,
    event_capacity: nat,
    recent_capacity: nat,
)
    requires
        event_capacity >= 1,
    ensures
        ({
            let start = Retained::fresh(generation, recent_capacity);
            let end = after_arrivals(start, arrivals, event_capacity);
            let stream = chunks_of_stream(newest_generation(generation, arrivals), arrivals);
            &&& end.generation == newest_generation(generation, arrivals)
            &&& end.chunks == last_n(stream, event_capacity)
            &&& end.recent == last_n(joined(bytes_of(stream)), recent_capacity)
            &&& end.recent_capacity == recent_capacity
        }),
    decreases arrivals.len(),
{
    let start = Retained::fresh(generation, recent_capacity);
    let end = after_arrivals(start, arrivals, event_capacity);
    let newest = newest_generation(generation, arrivals);
    let stream = chunks_of_stream(newest, arrivals);
    if arrivals.len() == 0 {
        assert(end.chunks =~= last_n(stream, event_capacity));
        assert(bytes_of(stream) =~= Seq::empty());
        assert(end.recent =~= last_n(joined(bytes_of(stream)), recent_capacity));
    } else {
        let init = arrivals.drop_last();
        let chunk = arrivals.last().chunk;
        law_tail_of_newest_stream_is_retained(generation, init, event_capacity, recent_capacity);
        let before = chunks_of_stream(newest, init);
        if arrivals.last().generation > newest_generation(generation, init) {
            lemma_no_chunks_of_newer_stream(generation, newest, init);
        }
        if stream != before {
            assert(stream == before.push(chunk));
            assert(bytes_of(stream) =~= bytes_of(before).push(chunk.bytes));
            assert(bytes_of(stream).drop_last() =~= bytes_of(before));
            assert(bytes_of(before).len() == 0 ==> joined(bytes_of(before)) == Seq::<u8>::empty());
        }
        assert(end.chunks =~= last_n(stream, event_capacity));
        assert(end.recent =~= last_n(joined(bytes_of(stream)), recent_capacity));
    }
}

proof fn lemma_no_chunks_of_newer_stream(first: u64, generation: u64, arrivals: Seq<Arrival>)
    requires
        generation > newest_generation(first, arrivals),
    ensures
        chunks_of_stream(generation, arrivals) == Seq::<Chunk>::empty(),
    decreases arrivals.len(),
{
    if arrivals.len() > 0 {
        lemma_no_chunks_of_newer_stream(first, generation, arrivals.drop_last());
    }
}

/// A reader that starts at the oldest chunk and drains as much as there is gets
/// every retained chunk, once and in order, where their numbers follow one
/// another, and is then at the end. The newest chunk must not have the largest
/// number, after which there is none.
pub proof fn law_drain_gives_back_what_is_retained(ring: Retained, limit: nat)
    requires
        ring.chunks.len() > 0,
        forall|i: int|
            0 <= i < ring.chunks.len() ==> #[trigger] ring.chunks[i].sequence
                == ring.chunks[0].sequence + i,
        ring.newest() < u64::MAX,
        limit >= ring.chunks.len(),
    ensures
        ring.drained(ring.oldest(), limit).1 == ring.chunks.map_values(
            |chunk: Chunk| CursorItem::Event(chunk),
        ),
        ring.drained(ring.oldest(), limit).0 == ring.following(),
{
    lemma_drain_from(ring, 0, limit);
    assert(ring.chunks.skip(0) =~= ring.chunks);
}

/// Reading gives back what was written: a reader that starts at the oldest
/// chunk of a stream and drains as much as there is gets every retained chunk,
/// once and in order, and is then at the stream's end.
pub proof fn law_drain_gives_back_the_stream(
    generation: u64,
    first: u64,
    bytes: Seq<Seq<u8>>,
    event_capacity: nat,
    recent_capacity: nat,
    limit: nat,
)
    requires
        first + bytes.len() <= u64::MAX,
        event_capacity >= 1,
        limit >= bytes.len(),
        bytes.len() > 0,
    ensures
        ({
            let start = Retained::fresh(generation, recent_capacity);
            let end = after_stream(start, generation, first, bytes, event_capacity);
            let kept = last_n(numbered_chunks(first, bytes), event_capacity);
            &&& end.drained(end.oldest(), limit).1 == kept.map_values(
                |chunk: Chunk| CursorItem::Event(chunk),
            )
            &&& end.drained(end.oldest(), limit).0 == first + bytes.len()
        }),
{
    let start = Retained::fresh(generation, recent_capacity);
    let end = after_stream(start, generation, first, bytes, event_capacity);
    let kept = last_n(numbered_chunks(first, bytes), event_capacity);
    law_stream_tail_is_retained(generation, first, bytes, event_capacity, recent_capacity);
    lemma_drain_from(end, 0, limit);
    assert(kept.skip(0) =~= kept);
}

proof fn lemma_drain_from(ring: Retained, at: int, limit: nat)
    requires
        0 <= at <= ring.chunks.len(),
        ring.chunks.len() > 0,
        forall|i: int|
            0 <= i < ring.chunks.len() ==> #[trigger] ring.chunks[i].sequence
                == ring.chunks[0].sequence + i,
        ring.chunks[0].sequence + ring.chunks.len() <= u64::MAX,
        limit >= ring.chunks.len() - at,
    ensures
        ({
            let (end, items) = ring.drained((ring.chunks[0].sequence + at) as u64, limit);
            &&& items == ring.chunks.skip(at).map_values(|chunk: Chunk| CursorItem::Event(chunk))
            &&& end == ring.chunks[0].sequence + ring.chunks.len()
        }),
    decreases ring.chunks.len() - at,
{
    let next = (ring.chunks[0].sequence + at) as u64;
    let (end, items) = ring.drained(next, limit);
    if at < ring.chunks.len() {
        lemma_numbered_at(ring.chunks, at);
        lemma_drain_from(ring, at + 1, (limit - 1) as nat);
        assert(items =~= ring.chunks.skip(at).map_values(|chunk: Chunk| CursorItem::Event(chunk)));
    } else {
        lemma_not_numbered(ring.chunks, next);
        assert(items =~= ring.chunks.skip(at).map_values(|chunk: Chunk| CursorItem::Event(chunk)));
    }
}

/// A reader that fell behind is told exactly what it missed: the gap reaches from
/// the chunk that it would have read next up to the oldest one that is left, where
/// it goes on. What it has read already, and what is still there, does not count.
pub proof fn law_gap_tells_what_was_missed(ring: Retained, next: u64)
    requires
        ring.chunks.len() > 0,
        next < ring.chunks[0].sequence,
    ensures
        ring.polled(next).0 == ring.chunks[0].sequence,
        ring.polled(next).1 matches Some(
            CursorItem::Gap {
                expected_sequence,
                resume_sequence,
                skipped_events,
                newest_sequence,
                recent_bytes,
            },
        ) && {
            &&& expected_sequence == next
            &&& resume_sequence == ring.chunks[0].sequence
            &&& expected_sequence + skipped_events == resume_sequence
            &&& newest_sequence == ring.chunks[ring.chunks.len() - 1].sequence
            &&& recent_bytes == ring.recent
        },
{
}

/// A poll gives the chunk whose number the cursor is at, and leaves the cursor at
/// the number after it.
pub proof fn law_poll_gives_the_chunk_at_the_cursor(ring: Retained, at: int)
    requires
        0 <= at < ring.chunks.len(),
        forall|i: int, j: int|
            0 <= i < j < ring.chunks.len() ==> ring.chunks[i].sequence < ring.chunks[j].sequence,
    ensures
        ring.polled(ring.chunks[at].sequence).1 == Some(CursorItem::Event(ring.chunks[at])),
        ring.chunks[at].sequence < u64::MAX ==> ring.polled(ring.chunks[at].sequence).0
            == ring.chunks[at].sequence + 1,
        ring.chunks[at].sequence == u64::MAX ==> ring.polled(ring.chunks[at].sequence).0
            == u64::MAX,
{
    lemma_numbered_at(ring.chunks, at);
    if at > 0 {
        assert(ring.chunks[0].sequence < ring.chunks[at].sequence);
    }
}

/// A poll gives nothing, and leaves the cursor where it is, where no chunk has its
/// number and none was missed.
pub proof fn law_poll_gives_nothing_that_is_not_there(ring: Retained, next: u64)
    requires
        ring.chunks.len() > 0 ==> ring.chunks[0].sequence <= next,
        forall|i: int|
            0 <= i < ring.chunks.len() ==> (#[trigger] ring.chunks[i]).sequence != next,
    ensures
        ring.polled(next) == (next, None::<CursorItem>),
{
    if ring.chunks.len() > 0 {
        lemma_not_numbered(ring.chunks, next);
    }
}

/// A cursor is taken at the oldest chunk or after the newest one; where nothing is
/// retained, at the first number.
pub proof fn law_cursors_begin_at_the_ends(ring: Retained)
    ensures
        ring.chunks.len() == 0 ==> ring.oldest() == 0 && ring.following() == 0,
        ring.chunks.len() > 0 ==> ring.oldest() == ring.chunks[0].sequence,
        ring.chunks.len() > 0 && ring.chunks[ring.chunks.len() - 1].sequence < u64::MAX
            ==> ring.following() == ring.chunks[ring.chunks.len() - 1].sequence + 1,
        ring.chunks.len() > 0 && ring.chunks[ring.chunks.len() - 1].sequence == u64::MAX
            ==> ring.following() == u64::MAX,
{
}

/// What is kept of a sequence is its end: as much as there is room for, and
/// nothing of what comes before is kept while something after it is not.
pub proof fn law_the_end_is_kept<T>(s: Seq<T>, n: nat)
    ensures
        last_n(s, n).len() <= n,
        last_n(s, n).len() <= s.len(),
        last_n(s, n).len() == n || last_n(s, n).len() == s.len(),
        forall|i: int|
            0 <= i < last_n(s, n).len() ==> #[trigger] last_n(s, n)[i] == s[s.len() - last_n(
                s,
                n,
            ).len() + i],
{
}

/// A chunk that comes after all others of its stream is taken: it comes behind
/// them, its bytes come behind theirs, and only the oldest of either make room.
pub proof fn law_next_chunk_is_taken(
    ring: Retained,
    sequence: u64,
    bytes: Seq<u8>,
    event_capacity: nat,
)
    requires
        ring.chunks.len() > 0 ==> ring.chunks[ring.chunks.len() - 1].sequence < sequence,
    ensures
        ring.accepts(ring.generation, sequence),
        ({
            let after = ring.pushed(ring.generation, sequence, bytes, event_capacity);
            let all = ring.chunks.push(Chunk { sequence, bytes });
            let text = ring.recent + bytes;
            let gone = all.len() - after.chunks.len();
            let cut = text.len() - after.recent.len();
            &&& after.generation == ring.generation
            &&& after.recent_capacity == ring.recent_capacity
            &&& gone >= 0 && (gone == 0 || after.chunks.len() == event_capacity)
            &&& after.chunks.len() <= event_capacity
            &&& after.chunks =~= all.skip(gone)
            &&& cut >= 0 && (cut == 0 || after.recent.len() == ring.recent_capacity)
            &&& after.recent.len() <= ring.recent_capacity
            &&& after.recent =~= text.skip(cut)
        }),
{
}

/// The first output of a terminal is taken whatever its number, and is all that is
/// retained of that terminal.
pub proof fn law_first_output_of_a_terminal_is_taken(
    store: Stored,
    id: u32,
    generation: u64,
    sequence: u64,
    bytes: Seq<u8>,
)
    requires
        store.event_capacity >= 1,
        !store.rings.contains_key(id),
    ensures
        store.accepts(id, Some(generation), Some(sequence)),
        ({
            let after = store.pushed(id, Some(generation), Some(sequence), bytes);
            let ring = after.rings[id];
            &&& after.rings.contains_key(id)
            &&& after.event_capacity == store.event_capacity
            &&& after.recent_capacity == store.recent_capacity
            &&& ring.generation == generation
            &&& ring.chunks == seq![Chunk { sequence, bytes }]
            &&& ring.recent_capacity == store.recent_capacity
            &&& bytes.len() <= store.recent_capacity ==> ring.recent == bytes
            &&& bytes.len() > store.recent_capacity ==> ring.recent == bytes.skip(
                bytes.len() - store.recent_capacity,
            )
        }),
{
    let after = store.pushed(id, Some(generation), Some(sequence), bytes);
    assert(after.rings[id].chunks =~= seq![Chunk { sequence, bytes }]);
    assert(Seq::<u8>::empty() + bytes =~= bytes);
}

/// What is known of a terminal is what its own ring takes and gives, within the
/// store's limits.
pub proof fn law_store_keeps_a_ring_for_each_terminal(
    store: Stored,
    id: u32,
    generation: u64,
    sequence: u64,
    bytes: Seq<u8>,
    next: u64,
    limit: nat,
)
    ensures
        store.rings.contains_key(id) ==> {
            let ring = store.rings[id];
            let after = store.pushed(id, Some(generation), Some(sequence), bytes);
            &&& store.accepts(id, Some(generation), Some(sequence)) == ring.accepts(
                generation,
                sequence,
            )
            &&& after.rings == store.rings.insert(
                id,
                ring.pushed(generation, sequence, bytes, store.event_capacity),
            )
            &&& after.event_capacity == store.event_capacity
            &&& after.recent_capacity == store.recent_capacity
            &&& store.polled(id, next) == ring.polled(next)
            &&& store.drained(id, next, limit) == ring.drained(next, limit)
        },
        !store.rings.contains_key(id) ==> store.polled(id, next) == (next, None::<CursorItem>)
            && store.drained(id, next, limit) == (next, Seq::<CursorItem>::empty()),
{
}

/// A store begins empty, with the limits that it was given; it can retain at least
/// one chunk of each terminal.
pub proof fn law_store_begins_empty(events: nat, bytes: nat, id: u32)
    ensures
        !Stored::limited(events, bytes).rings.contains_key(id),
        events >= 1 ==> Stored::limited(events, bytes).event_capacity == events,
        Stored::limited(0, bytes).event_capacity == 1,
        Stored::limited(events, bytes).recent_capacity == bytes,
        DEFAULT_EVENT_CAPACITY == 1024,
        DEFAULT_RECENT_BYTE_CAPACITY == 1024 * 1024,
{
}

/// A reader begins at the oldest retained chunk of its terminal or after the newest
/// one, and at the first number where nothing is known of the terminal.
pub proof fn law_readers_begin_at_the_ends_of_their_terminal(store: Stored, id: u32)
    ensures
        !store.rings.contains_key(id) ==> store.oldest(id) == 0 && store.following(id) == 0,
        store.rings.contains_key(id) && store.rings[id].chunks.len() > 0 ==> store.oldest(id)
            == store.rings[id].chunks[0].sequence,
        store.rings.contains_key(id) && store.rings[id].chunks.len() > 0 && store.rings[id].chunks[
        store.rings[id].chunks.len() - 1].sequence < u64::MAX ==> store.following(id)
            == store.rings[id].chunks[store.rings[id].chunks.len() - 1].sequence + 1,
        store.rings.contains_key(id) && store.rings[id].chunks.len() == 0 ==> store.oldest(id) == 0
            && store.following(id) == 0,
{
}

/// What is said of what a reader gets is said of what it holds.
pub proof fn law_values_of_items(
    items: Seq<TerminalOutputCursorItem>,
    i: int,
    event: TerminalOutputEvent,
    gap: TerminalOutputGap,
)
    requires
        0 <= i < items.len(),
    ensures
        item_values(items).len() == items.len(),
        items[i] == TerminalOutputCursorItem::Event(event) ==> item_values(items)[i]
            == CursorItem::Event(Chunk { sequence: event.sequence, bytes: event.bytes@ }),
        items[i] == TerminalOutputCursorItem::Gap(gap) ==> item_values(items)[i]
            == (CursorItem::Gap {
            expected_sequence: gap.expected_sequence,
            resume_sequence: gap.resume_sequence,
            skipped_events: gap.skipped_events,
            newest_sequence: gap.newest_sequence,
            recent_bytes: gap.recent_bytes@,
        }),
{
}

} // verus!
