//! Writing UTF-8 to a console, which takes UTF-16.
use crate::utf16::push_units;
use crate::utf8::{decode, split_valid_utf8_prefix};
use vstd::prelude::*;

verus! {

/// Why bytes cannot be written.
#[derive(Debug, Clone, Copy, PartialEq, Eq, Structural)]
pub enum ConsoleWriteError {
    /// They are no text.
    InvalidData,
}

/// The state of a console that is written to: the beginning of a character whose
/// end is not there yet; while text is being written, what is left of it, and the
/// beginning of the character after it.
pub struct ConsoleText {
    pub pending: Seq<u8>,
    pub outgoing: Seq<u16>,
    pub held: Seq<u8>,
}

impl ConsoleText {
    /// Nothing was written yet.
    pub open spec fn fresh() -> Self {
        ConsoleText { pending: Seq::empty(), outgoing: Seq::empty(), held: Seq::empty() }
    }

    /// The text of what waits and `bytes`, in UTF-16, is to be written. Where that
    /// is no text there is an error, and all of it is lost.
    pub open spec fn writing(self, bytes: Seq<u8>) -> (Self, Option<ConsoleWriteError>) {
        let parts = crate::utf8::split(self.pending + bytes);
        if !vstd::utf8::valid_utf8(parts.valid) {
            (Self::fresh(), Some(ConsoleWriteError::InvalidData))
        } else {
            let units = crate::utf16::units_of(vstd::utf8::decode_utf8(parts.valid));
            (
                ConsoleText {
                    pending: Seq::empty(),
                    outgoing: units,
                    held: parts.pending,
                }.settled(),
                None,
            )
        }
    }

    /// Once nothing is left to be written, what was held waits for its end.
    pub open spec fn settled(self) -> Self {
        if self.outgoing.len() == 0 {
            ConsoleText {
                pending: self.pending + self.held,
                outgoing: Seq::empty(),
                held: Seq::empty(),
            }
        } else {
            self
        }
    }

    /// The state after `count` more units were written.
    pub open spec fn after_chunk(self, count: nat) -> Self {
        if count < self.outgoing.len() {
            ConsoleText { outgoing: self.outgoing.skip(count as int), ..self }
        } else {
            ConsoleText { outgoing: Seq::empty(), ..self }.settled()
        }
    }

    /// The state after units could not be written: what is left of the text is
    /// lost, and so is what was held.
    pub open spec fn after_failure(self) -> Self {
        if self.outgoing.len() == 0 {
            self
        } else {
            ConsoleText { outgoing: Seq::empty(), held: Seq::empty(), ..self }
        }
    }
}

/// A console that is written to.
pub struct WindowsConsoleWriter {
    handle: isize,
    pending_utf8: Vec<u8>,
    outgoing: Vec<u16>,
    offset: usize,
    held: Vec<u8>,
}

impl View for WindowsConsoleWriter {
    type V = ConsoleText;

    closed spec fn view(&self) -> ConsoleText {
        ConsoleText {
            pending: self.pending_utf8@,
            outgoing: if self.offset <= self.outgoing@.len() {
                self.outgoing@.skip(self.offset as int)
            } else {
                Seq::empty()
            },
            held: self.held@,
        }
    }
}

impl WindowsConsoleWriter {
    /// The handle of the console.
    pub closed spec fn console(self) -> isize {
        self.handle
    }

    /// A console that nothing was written to yet.
    pub fn new(handle: isize) -> (writer: Self)
        ensures
            writer@ == ConsoleText::fresh(),
            writer.console() == handle,
    {
        let writer = WindowsConsoleWriter {
            handle,
            pending_utf8: Vec::new(),
            outgoing: Vec::new(),
            offset: 0,
            held: Vec::new(),
        };
        assert(writer@.outgoing =~= Seq::empty());
        writer
    }

    /// The handle of the console.
    pub fn handle(&self) -> (handle: isize)
        ensures
            handle == self.console(),
    {
        self.handle
    }

    /// The beginning of a character whose end is not there yet.
    pub fn pending_utf8(&self) -> (bytes: &[u8])
        ensures
            bytes@ == self@.pending,
    {
        &self.pending_utf8
    }

    /// Takes `buf` and gets its text ready to be written.
    pub fn write(&mut self, buf: &[u8]) -> (count: Result<usize, ConsoleWriteError>)
        ensures
            final(self).console() == old(self).console(),
            final(self)@ == old(self)@.writing(buf@).0,
            match count {
                Ok(count) => old(self)@.writing(buf@).1 is None && count == buf@.len(),
                Err(error) => old(self)@.writing(buf@).1 == Some(error),
            },
    {
        let ghost before = self@;
        let mut all: Vec<u8> = Vec::new();
        std::mem::swap(&mut all, &mut self.pending_utf8);
        all.extend_from_slice(buf);
        assert(all@ =~= before.pending + buf@);
        self.outgoing = Vec::new();
        self.offset = 0;
        self.held = Vec::new();
        let parts = split_valid_utf8_prefix(&all);
        match decode(parts.valid) {
            None => {
                assert(self@.outgoing =~= Seq::empty());
                Err(ConsoleWriteError::InvalidData)
            },
            Some(text) => {
                self.write_utf16(&text);
                self.held.extend_from_slice(parts.pending);
                assert(self.held@ =~= parts@.pending);
                assert(self@.outgoing =~= crate::utf16::units_of(text@));
                self.settle();
                Ok(buf.len())
            },
        }
    }

    /// Gets `text` ready to be written.
    fn write_utf16(&mut self, text: &Vec<char>)
        requires
            old(self).offset == 0,
            old(self).outgoing@.len() == 0,
        ensures
            final(self).offset == 0,
            final(self).outgoing@ == crate::utf16::units_of(text@),
            final(self).pending_utf8 == old(self).pending_utf8,
            final(self).held == old(self).held,
            final(self).handle == old(self).handle,
    {
        let mut units: Vec<u16> = Vec::new();
        let mut i: usize = 0;
        assert(text@.take(0) =~= Seq::empty());
        while i < text.len()
            invariant
                i <= text@.len(),
                units@ == crate::utf16::units_of(text@.take(i as int)),
            decreases text@.len() - i,
        {
            push_units(&mut units, text[i]);
            assert(text@.take(i + 1).drop_last() =~= text@.take(i as int));
            i = i + 1;
        }
        assert(text@.take(i as int) =~= text@);
        self.outgoing = units;
    }

    /// Lets what was held wait for its end, once nothing is left to be written.
    fn settle(&mut self)
        ensures
            final(self).console() == old(self).console(),
            final(self)@ == old(self)@.settled(),
    {
        if self.offset >= self.outgoing.len() {
            let ghost before = self@;
            let mut held: Vec<u8> = Vec::new();
            std::mem::swap(&mut held, &mut self.held);
            self.pending_utf8.extend_from_slice(&held);
            assert(self.pending_utf8@ =~= before.pending + before.held);
            assert(self@.outgoing =~= Seq::empty());
            assert(self@.held =~= Seq::empty());
        }
    }

    /// What is left to be written, where there is anything.
    pub fn next_chunk(&self) -> (chunk: Option<&[u16]>)
        ensures
            match chunk {
                Some(chunk) => chunk@ == self@.outgoing && chunk@.len() > 0,
                None => self@.outgoing.len() == 0,
            },
    {
        if self.offset < self.outgoing.len() {
            Some(
                vstd::slice::slice_subrange(
                    self.outgoing.as_slice(),
                    self.offset,
                    self.outgoing.len(),
                ),
            )
        } else {
            None
        }
    }

    /// Takes note that `written` more units were written.
    pub fn chunk_written(&mut self, written: u32)
        ensures
            final(self).console() == old(self).console(),
            final(self)@ == old(self)@.after_chunk(written as nat),
    {
        let ghost before = self@;
        let left: usize = if self.offset < self.outgoing.len() {
            self.outgoing.len() - self.offset
        } else {
            0
        };
        if (written as u64) < left as u64 {
            self.offset = self.offset + written as usize;
            assert(self@.outgoing =~= before.outgoing.skip(written as int));
        } else {
            self.offset = self.outgoing.len();
            assert(self@.outgoing =~= Seq::empty());
            self.settle();
        }
    }

    /// Takes note that units could not be written.
    pub fn chunk_failed(&mut self)
        ensures
            final(self).console() == old(self).console(),
            final(self)@ == old(self)@.after_failure(),
    {
        if self.offset < self.outgoing.len() {
            self.offset = self.outgoing.len();
            self.held = Vec::new();
            assert(self@.outgoing =~= Seq::empty());
        }
    }

    /// Does nothing: the beginning of a character waits for its end.
    pub fn flush_pending(&mut self) -> (flushed: Result<(), ConsoleWriteError>)
        ensures
            *final(self) == *old(self),
            flushed is Ok,
    {
        Ok(())
    }

    /// Does nothing: text is written as it comes.
    pub fn flush(&mut self) -> (flushed: Result<(), ConsoleWriteError>)
        ensures
            *final(self) == *old(self),
            flushed is Ok,
    {
        self.flush_pending()
    }
}

/// Whether `handle` is a console that can be written to as one.
pub open spec fn is_console(handle: isize, mode_was_read: bool) -> bool {
    crate::console_mode::usable(handle) && mode_was_read
}

/// Whether a console is written to as one: there is a handle, and its mode could
/// be read.
pub fn writes_to_console(handle: isize, mode_was_read: bool) -> (writes: bool)
    ensures
        writes == (crate::console_mode::usable(handle) && mode_was_read),
        writes == is_console(handle, mode_was_read),
{
    crate::console_mode::is_usable_handle(handle) && mode_was_read
}

impl ConsoleText {
    /// The state after `buffers` were written one after the other without a
    /// failure of the console; and the units that were written, or `None` where a
    /// buffer was refused.
    pub open spec fn after_writes(self, buffers: Seq<Seq<u8>>) -> (Self, Option<Seq<u16>>)
        decreases buffers.len(),
    {
        if buffers.len() == 0 {
            (self, Some(Seq::empty()))
        } else {
            let (before, written) = self.after_writes(buffers.drop_last());
            let (during, error) = before.writing(buffers.last());
            (
                during.after_chunk(during.outgoing.len()),
                match (written, error) {
                    (Some(written), None) => Some(written + during.outgoing),
                    _ => None,
                },
            )
        }
    }
}

/// The bytes of `buffers`, one after the other.
pub open spec fn joined(buffers: Seq<Seq<u8>>) -> Seq<u8>
    decreases buffers.len(),
{
    if buffers.len() == 0 {
        Seq::empty()
    } else {
        joined(buffers.drop_last()) + buffers.last()
    }
}

proof fn lemma_cut_off_writes(buffers: Seq<Seq<u8>>, more: Seq<u8>)
    requires
        vstd::utf8::valid_utf8(joined(buffers) + more),
    ensures
        ({
            let bytes = joined(buffers);
            let upto = crate::utf8::valid_up_to(bytes) as int;
            ConsoleText::fresh().after_writes(buffers) == (
                ConsoleText { pending: bytes.skip(upto), ..ConsoleText::fresh() },
                Some(crate::utf16::units_of(vstd::utf8::decode_utf8(bytes.take(upto)))),
            )
        }),
    decreases buffers.len(),
{
    let bytes = joined(buffers);
    let upto = crate::utf8::valid_up_to(bytes) as int;
    let nothing = Seq::<u8>::empty();
    if buffers.len() == 0 {
        assert(bytes.skip(upto) =~= nothing);
        assert(bytes.take(upto) =~= nothing);
        assert(vstd::utf8::decode_utf8(nothing) =~= Seq::empty());
    } else {
        let earlier = joined(buffers.drop_last());
        let last = buffers.last();
        assert(bytes + more =~= earlier + (last + more));
        lemma_cut_off_writes(buffers.drop_last(), last + more);
        let before_upto = crate::utf8::valid_up_to(earlier) as int;
        let whole = earlier.take(before_upto);
        let pending = earlier.skip(before_upto);
        let all = pending + last;
        crate::utf8::lemma_whole_characters(earlier);
        crate::utf8::lemma_after_whole_characters(whole, all);
        assert(whole + all =~= bytes);
        assert(whole + (all + more) =~= bytes + more);
        crate::utf8::lemma_after_whole_characters(whole, all + more);
        crate::utf8::lemma_whole_characters(bytes + more);
        crate::utf8::lemma_whole_characters(all + more);
        crate::utf8::law_cut_off_text_ends_unfinished(all, more);
        crate::utf8::lemma_whole_characters(all);
        let inner = crate::utf8::valid_up_to(all) as int;
        let parts = crate::utf8::split(all);
        crate::utf8::lemma_after_whole_characters(whole, parts.valid);
        assert(bytes.take(upto) =~= whole + parts.valid);
        assert(bytes.skip(upto) =~= parts.pending);
        crate::utf16::law_utf16_of_joined_text(
            vstd::utf8::decode_utf8(whole),
            vstd::utf8::decode_utf8(parts.valid),
        );
        let before = ConsoleText { pending, ..ConsoleText::fresh() };
        let (during, error) = before.writing(last);
        assert(nothing + parts.pending =~= parts.pending);
        assert(parts.pending + nothing =~= parts.pending);
        let after = during.after_chunk(during.outgoing.len());
        assert(after == (ConsoleText { pending: parts.pending, ..ConsoleText::fresh() }));
    }
}

/// Text comes out whole, however its bytes are split over writes: what is written
/// is the text in UTF-16, nothing is refused, and nothing is left over.
pub proof fn law_split_text_is_written_whole(buffers: Seq<Seq<u8>>, text: Seq<char>)
    requires
        joined(buffers) == vstd::utf8::encode_utf8(text),
    ensures
        ConsoleText::fresh().after_writes(buffers) == (
            ConsoleText::fresh(),
            Some(crate::utf16::units_of(text)),
        ),
{
    let bytes = joined(buffers);
    let nothing = Seq::<u8>::empty();
    vstd::utf8::encode_utf8_valid_utf8(text);
    vstd::utf8::encode_utf8_decode_utf8(text);
    assert(bytes + nothing =~= bytes);
    lemma_cut_off_writes(buffers, nothing);
    crate::utf8::lemma_whole_characters(bytes);
    assert(bytes.take(bytes.len() as int) =~= bytes);
    assert(bytes.skip(bytes.len() as int) =~= nothing);
}

/// Between writes no more is kept than the beginning of one character.
pub proof fn law_only_an_unfinished_character_waits(text: ConsoleText, bytes: Seq<u8>)
    ensures
        ({
            let during = text.writing(bytes).0;
            let after = during.after_chunk(during.outgoing.len());
            &&& after.outgoing.len() == 0
            &&& after.held.len() == 0
            &&& after.pending.len() == 0 || crate::utf8::is_unfinished(after.pending)
            &&& during.after_failure().pending.len() == 0 || during.outgoing.len() == 0
        }),
{
    let parts = crate::utf8::split(text.pending + bytes);
    crate::utf8::law_split_loses_no_byte(text.pending + bytes);
    let nothing = Seq::<u8>::empty();
    assert(nothing + parts.pending =~= parts.pending);
    assert(parts.pending + nothing =~= parts.pending);
}

/// Text is written in order, and all of it: what a console took of a chunk and
/// what is left are the chunk, and what was held waits once nothing is left.
pub proof fn law_chunks_are_written_in_order(text: ConsoleText, count: nat)
    requires
        count <= text.outgoing.len(),
    ensures
        text.outgoing.take(count as int) + text.after_chunk(count).outgoing == text.outgoing,
        count == text.outgoing.len() ==> text.after_chunk(count).pending == text.pending
            + text.held,
{
    assert(text.outgoing.take(count as int) + text.after_chunk(count).outgoing =~= text.outgoing);
}

/// Whole characters are ready to be written at once, in UTF-16, and nothing is kept;
/// the beginning of a character behind them is kept for the next write.
pub proof fn law_whole_characters_are_written(
    text: Seq<char>,
    pending: Seq<u8>,
    bytes: Seq<u8>,
    unfinished: Seq<u8>,
)
    requires
        pending + bytes == vstd::utf8::encode_utf8(text) + unfinished,
        unfinished.len() == 0 || crate::utf8::is_unfinished(unfinished),
        text.len() > 0,
    ensures
        ({
            let before = ConsoleText { pending, outgoing: Seq::empty(), held: Seq::empty() };
            let (after, error) = before.writing(bytes);
            &&& error is None
            &&& after.outgoing == crate::utf16::units_of(text)
            &&& after.pending.len() == 0
            &&& after.held == unfinished
        }),
{
    let whole = vstd::utf8::encode_utf8(text);
    let all = pending + bytes;
    vstd::utf8::encode_utf8_valid_utf8(text);
    vstd::utf8::encode_utf8_decode_utf8(text);
    crate::utf8::law_unfinished_end_is_kept_apart(whole, unfinished);
    assert(all == whole + unfinished);
    let units = crate::utf16::units_of(text);
    crate::utf16::law_every_character_is_written(text);
}

/// What is neither text nor the beginning of one is refused, and nothing of it, or
/// of what waited, is written or kept.
pub proof fn law_what_is_no_text_is_refused(text: ConsoleText, bytes: Seq<u8>)
    requires
        !vstd::utf8::valid_utf8(text.pending + bytes),
        forall|more: Seq<u8>| !vstd::utf8::valid_utf8(#[trigger] (text.pending + bytes + more)),
    ensures
        text.writing(bytes).1 == Some(ConsoleWriteError::InvalidData),
        text.writing(bytes).0.pending.len() == 0,
        text.writing(bytes).0.outgoing.len() == 0,
        text.writing(bytes).0.held.len() == 0,
{
    let all = text.pending + bytes;
    let parts = crate::utf8::split(all);
    if vstd::utf8::valid_utf8(parts.valid) {
        crate::utf8::law_split_loses_no_byte(all);
        if parts.pending.len() == 0 {
            assert(parts.valid =~= all);
        } else {
            let more = crate::utf8::law_unfinished_character_can_be_finished(parts.pending);
            crate::utf8::lemma_after_whole_characters(parts.valid, parts.pending + more);
            assert(parts.valid + (parts.pending + more) =~= all + more);
        }
    }
}

/// Units that could not be written are lost, and with them the beginning of the
/// character after them; where nothing was to be written nothing is lost.
pub proof fn law_failure_loses_what_was_being_written(text: ConsoleText)
    ensures
        text.after_failure().outgoing.len() == 0,
        text.after_failure().pending == text.pending,
        text.outgoing.len() > 0 ==> text.after_failure().held.len() == 0,
        text.outgoing.len() == 0 ==> text.after_failure() == text,
{
}

/// What was written is taken off the front, and what is held stays held until all
/// is written; then it waits.
pub proof fn law_written_units_are_taken_off(text: ConsoleText, count: nat)
    ensures
        count < text.outgoing.len() ==> text.after_chunk(count) == (ConsoleText {
            outgoing: text.outgoing.skip(count as int),
            ..text
        }),
        count >= text.outgoing.len() ==> {
            &&& text.after_chunk(count).outgoing.len() == 0
            &&& text.after_chunk(count).held.len() == 0
            &&& text.after_chunk(count).pending == text.pending + text.held
        },
{
}

/// Only a console has a mode that can be read: a handle whose mode was read is
/// written to as one, and nothing else is.
pub proof fn law_console_has_a_mode(handle: isize)
    ensures
        handle > 0 || handle < -1 ==> is_console(handle, true),
        !is_console(handle, false),
        handle == 0 || handle == -1 ==> !is_console(handle, true),
{
}

} // verus!
