//! Console input: keys that a terminal sends as a typed-out kitty report.
use crate::keyboard_parser::{KittyKeyboardParser, KittyParseOutcome};
use crate::keys::{BareKey, KeyWithModifier};
use vstd::prelude::*;

verus! {

/// How long a report that has begun is waited for.
pub const NATIVE_KITTY_SEQUENCE_TIMEOUT_MILLIS: u64 = 30;

/// How many bytes a report may have without its escape.
pub const NATIVE_KITTY_SEQUENCE_MAX_LEN: usize = 32;

/// A key to hand on, with the bytes that it came as.
#[derive(Debug, Clone, PartialEq, Eq)]
pub struct NativeKeyDispatch {
    pub key: KeyWithModifier,
    pub raw_bytes: Vec<u8>,
    pub is_kitty_keyboard_protocol: bool,
}

/// What became of a report that had begun: it stood for a key, or its keys were
/// handed on as they were typed. With the bytes of the report, in the first case
/// with its escape.
#[derive(Debug, Clone, PartialEq, Eq)]
pub enum KittySequenceTrace {
    Complete { key: KeyWithModifier, raw_bytes: Vec<u8> },
    Flush { reason: &'static str, raw_bytes: Vec<u8> },
}

/// What became of a report, as a value.
pub enum SequenceTrace {
    Complete { key: KeyWithModifier, raw: Seq<u8> },
    Flush { reason: Seq<char>, raw: Seq<u8> },
}

impl View for KittySequenceTrace {
    type V = SequenceTrace;

    open spec fn view(&self) -> SequenceTrace {
        match self {
            KittySequenceTrace::Complete { key, raw_bytes } => SequenceTrace::Complete {
                key: *key,
                raw: raw_bytes@,
            },
            KittySequenceTrace::Flush { reason, raw_bytes } => SequenceTrace::Flush {
                reason: reason@,
                raw: raw_bytes@,
            },
        }
    }
}

/// The value of a trace, where there is one.
pub open spec fn trace_value(trace: Option<KittySequenceTrace>) -> Option<SequenceTrace> {
    match trace {
        Some(trace) => Some(trace@),
        None => None,
    }
}

/// A key that was typed, as a value.
pub struct TypedKey {
    pub key: KeyWithModifier,
    pub raw: Seq<u8>,
}

/// A key to hand on, as a value.
pub struct Dispatch {
    pub key: KeyWithModifier,
    pub raw: Seq<u8>,
    pub kitty: bool,
}

impl View for NativeKeyDispatch {
    type V = Dispatch;

    open spec fn view(&self) -> Dispatch {
        Dispatch {
            key: self.key,
            raw: self.raw_bytes@,
            kitty: self.is_kitty_keyboard_protocol,
        }
    }
}

/// The values of some keys to hand on.
pub open spec fn dispatch_values(dispatches: Seq<NativeKeyDispatch>) -> Seq<Dispatch> {
    dispatches.map_values(|dispatch: NativeKeyDispatch| dispatch@)
}

/// A typed key, handed on as it is.
pub open spec fn as_typed(key: TypedKey) -> Dispatch {
    Dispatch { key: key.key, raw: key.raw, kitty: false }
}

/// Typed keys, each handed on as it is.
pub open spec fn all_as_typed(keys: Seq<TypedKey>) -> Seq<Dispatch> {
    keys.map_values(|key: TypedKey| as_typed(key))
}

/// The bytes of `keys`, one key after the other.
pub open spec fn bytes_of(keys: Seq<TypedKey>) -> Seq<u8>
    decreases keys.len(),
{
    if keys.len() == 0 {
        Seq::empty()
    } else {
        bytes_of(keys.drop_last()) + keys.last().raw
    }
}

/// Whether `key` can be the beginning of a report: the bare key `[`.
pub open spec fn starts_report(key: TypedKey) -> bool {
    &&& key.raw == seq![0x5bu8]
    &&& key.key.bare_key == BareKey::Char('[')
    &&& key.key.key_modifiers == crate::keys::KeyModifiers::spec_none()
}

/// Whether a key that came as `raw` can come next in a report of which
/// `pending_len` keys are there: first a digit, later any byte of a report.
pub open spec fn continues_report(raw: Seq<u8>, pending_len: nat) -> bool {
    &&& raw.len() == 1
    &&& crate::keyboard_parser::is_digit(raw[0]) || (pending_len > 1 && (
    crate::keyboard_parser::is_parameter(raw[0]) || crate::keyboard_parser::is_final(raw[0])))
}

/// Whether `bytes` end as a report does.
pub open spec fn ends_report(bytes: Seq<u8>) -> bool {
    bytes.len() > 0 && crate::keyboard_parser::is_final(bytes.last())
}

/// A report as it is written to a terminal: with its escape.
pub open spec fn with_escape(bytes: Seq<u8>) -> Seq<u8> {
    seq![0x1bu8] + bytes
}

/// The keys of a report that has begun, whether reports are looked for, and what
/// became of the last report, where that is still to be told.
pub struct ReportBuffer {
    pub enabled: bool,
    pub pending: Seq<TypedKey>,
    pub trace: Option<SequenceTrace>,
}

impl ReportBuffer {
    /// The buffer before any key has come.
    pub open spec fn fresh(enabled: bool) -> Self {
        ReportBuffer { enabled, pending: Seq::empty(), trace: None }
    }

    /// The buffer with nothing held, after all that was has been handed on for
    /// `reason`.
    pub open spec fn flushed(self, reason: Seq<char>) -> Self {
        ReportBuffer {
            pending: Seq::empty(),
            trace: if self.pending.len() > 0 {
                Some(SequenceTrace::Flush { reason, raw: bytes_of(self.pending) })
            } else {
                self.trace
            },
            ..self
        }
    }

    /// The buffer with nothing held, after what was has turned out to be the report
    /// `raw` of `key`.
    pub open spec fn completed(self, key: KeyWithModifier, raw: Seq<u8>) -> Self {
        ReportBuffer {
            pending: Seq::empty(),
            trace: Some(SequenceTrace::Complete { key, raw }),
            ..self
        }
    }

    /// The buffer with `key` held after what it holds.
    pub open spec fn holding(self, key: TypedKey) -> Self {
        ReportBuffer { pending: self.pending.push(key), ..self }
    }

    /// The buffer once it was told what became of the last report.
    pub open spec fn untraced(self) -> Self {
        ReportBuffer { trace: None, ..self }
    }

    /// The bytes that are looked up once `key` has come: what is held, `key` and
    /// an escape in front.
    pub open spec fn report_with(self, key: TypedKey) -> Seq<u8> {
        with_escape(bytes_of(self.pending.push(key)))
    }

    /// The buffer after `key`, and the keys that are handed on, where the report
    /// that `key` ends amounts to `outcome`.
    pub open spec fn pushed_with(self, key: TypedKey, outcome: KittyParseOutcome) -> (
        Self,
        Seq<Dispatch>,
    ) {
        let held = self.pending.push(key);
        if !self.enabled {
            (self, seq![as_typed(key)])
        } else if self.pending.len() == 0 && starts_report(key) {
            (self.holding(key), Seq::empty())
        } else if self.pending.len() == 0 {
            (self, seq![as_typed(key)])
        } else if !continues_report(key.raw, self.pending.len()) {
            (self.flushed("invalid_continuation"@), all_as_typed(held))
        } else if bytes_of(held).len() > NATIVE_KITTY_SEQUENCE_MAX_LEN {
            (self.holding(key).flushed("too_long"@), all_as_typed(held))
        } else if !ends_report(bytes_of(held)) {
            (self.holding(key), Seq::empty())
        } else {
            match outcome {
                KittyParseOutcome::Complete(reported) => (
                    self.completed(reported, self.report_with(key)),
                    seq![Dispatch { key: reported, raw: self.report_with(key), kitty: true }],
                ),
                KittyParseOutcome::Incomplete => (self.holding(key), Seq::empty()),
                KittyParseOutcome::NoMatch => (
                    self.holding(key).flushed("nomatch"@),
                    all_as_typed(held),
                ),
            }
        }
    }

    /// The buffer after `key`, and the keys that are handed on.
    pub open spec fn pushed(self, key: TypedKey) -> (Self, Seq<Dispatch>) {
        self.pushed_with(key, crate::keyboard_parser::outcome_of(self.report_with(key)))
    }

    /// What is held is the beginning of a report, of at most as many bytes as a
    /// report may have.
    pub open spec fn well_formed(self) -> bool {
        &&& self.pending.len() > 0 ==> self.enabled && starts_report(self.pending[0])
        &&& self.pending.len() <= NATIVE_KITTY_SEQUENCE_MAX_LEN
        &&& self.pending.len() > 1 ==> crate::keyboard_parser::is_digit(self.pending[1].raw[0])
        &&& forall|i: int|
            1 <= i < self.pending.len() ==> (#[trigger] self.pending[i]).raw.len() == 1
                && crate::keyboard_parser::is_parameter(self.pending[i].raw[0])
    }
}

/// Hands `key` on as it was typed.
pub fn native_dispatch(key: KeyWithModifier, raw_bytes: Vec<u8>) -> (dispatch: NativeKeyDispatch)
    ensures
        dispatch@ == as_typed(TypedKey { key, raw: raw_bytes@ }),
{
    NativeKeyDispatch { key, raw_bytes, is_kitty_keyboard_protocol: false }
}

/// Whether the key `key`, which came as `raw_bytes`, can be the beginning of a
/// report.
pub fn is_native_kitty_sequence_start(key: &KeyWithModifier, raw_bytes: &[u8]) -> (start: bool)
    ensures
        start == starts_report(TypedKey { key: *key, raw: raw_bytes@ }),
{
    let open = raw_bytes.len() == 1 && raw_bytes[0] == 0x5b;
    proof {
        if open {
            assert(raw_bytes@ =~= seq![0x5bu8]);
        }
    }
    open && key.bare_key == BareKey::Char('[') && key.key_modifiers.is_empty()
}

/// Whether a key that came as `raw_bytes` can come next in a report of which
/// `pending_len` keys are there.
pub fn is_native_kitty_sequence_continuation(raw_bytes: &[u8], pending_len: usize) -> (next: bool)
    ensures
        next == continues_report(raw_bytes@, pending_len as nat),
{
    if raw_bytes.len() != 1 {
        return false;
    }
    let byte: u8 = raw_bytes[0];
    if 0x30 <= byte && byte <= 0x39 {
        true
    } else if byte == 0x3b || byte == 0x75 || byte == 0x7e || (0x41 <= byte && byte <= 0x5a) {
        pending_len > 1
    } else {
        false
    }
}

/// Whether `bytes` end as a report does.
pub fn is_native_kitty_sequence_complete(bytes: &[u8]) -> (complete: bool)
    ensures
        complete == ends_report(bytes@),
{
    if bytes.len() == 0 {
        return false;
    }
    let byte: u8 = bytes[bytes.len() - 1];
    byte == 0x75 || byte == 0x7e || (0x41 <= byte && byte <= 0x5a)
}

/// Keys that may turn out to be a report: a terminal may hand a report over as
/// single keys, without its escape.
pub struct NativeKittySequenceBuffer {
    enabled: bool,
    pending: Vec<(KeyWithModifier, Vec<u8>)>,
    trace: Option<KittySequenceTrace>,
}

spec fn held_keys(pending: Seq<(KeyWithModifier, Vec<u8>)>) -> Seq<TypedKey> {
    pending.map_values(|held: (KeyWithModifier, Vec<u8>)| TypedKey { key: held.0, raw: held.1@ })
}

impl View for NativeKittySequenceBuffer {
    type V = ReportBuffer;

    closed spec fn view(&self) -> ReportBuffer {
        ReportBuffer {
            enabled: self.enabled,
            pending: held_keys(self.pending@),
            trace: trace_value(self.trace),
        }
    }
}

impl NativeKittySequenceBuffer {
    /// A buffer with nothing held, which looks for reports if `enabled`.
    pub fn new(enabled: bool) -> (buffer: Self)
        ensures
            buffer@ == ReportBuffer::fresh(enabled),
            buffer@.well_formed(),
    {
        let buffer = NativeKittySequenceBuffer { enabled, pending: Vec::new(), trace: None };
        assert(held_keys(buffer.pending@) =~= Seq::empty());
        buffer
    }

    /// Whether a key is held.
    pub fn has_pending(&self) -> (pending: bool)
        ensures
            pending == (self@.pending.len() > 0),
    {
        self.pending.len() != 0
    }

    /// Takes one key and returns the keys that are to be handed on.
    pub fn push(&mut self, key: KeyWithModifier, raw_bytes: Vec<u8>) -> (dispatches: Vec<
        NativeKeyDispatch,
    >)
        ensures
            (final(self)@, dispatch_values(dispatches@)) == old(self)@.pushed(
                TypedKey { key, raw: raw_bytes@ },
            ),
            old(self)@.well_formed() ==> final(self)@.well_formed(),
    {
        let ghost typed = TypedKey { key, raw: raw_bytes@ };
        let ghost before = self@;
        let ghost held = before.pending.push(typed);
        proof {
            if before.well_formed() {
                law_held_keys_begin_a_report(before, typed);
            }
        }
        if !self.enabled {
            let dispatches = vec![native_dispatch(key, raw_bytes)];
            assert(dispatch_values(dispatches@) =~= seq![as_typed(typed)]);
            return dispatches;
        }
        if self.pending.len() == 0 {
            if is_native_kitty_sequence_start(&key, &raw_bytes) {
                self.pending.push((key, raw_bytes));
                let dispatches = Vec::new();
                assert(held_keys(self.pending@) =~= held);
                assert(dispatch_values(dispatches@) =~= Seq::empty());
                return dispatches;
            }
            let dispatches = vec![native_dispatch(key, raw_bytes)];
            assert(dispatch_values(dispatches@) =~= seq![as_typed(typed)]);
            return dispatches;
        }
        if !is_native_kitty_sequence_continuation(&raw_bytes, self.pending.len()) {
            let mut dispatches = self.flush_pending("invalid_continuation");
            let ghost flushed = dispatches@;
            dispatches.push(native_dispatch(key, raw_bytes));
            assert(dispatch_values(dispatches@) =~= dispatch_values(flushed).push(as_typed(typed)));
            assert(all_as_typed(held) =~= all_as_typed(before.pending).push(as_typed(typed)));
            return dispatches;
        }
        self.pending.push((key, raw_bytes));
        assert(held_keys(self.pending@) =~= held);
        let sequence = self.pending_raw_bytes();
        if sequence.len() > NATIVE_KITTY_SEQUENCE_MAX_LEN {
            return self.flush_pending("too_long");
        }
        if !is_native_kitty_sequence_complete(&sequence) {
            let dispatches = Vec::new();
            assert(dispatch_values(dispatches@) =~= Seq::empty());
            return dispatches;
        }
        let mut normalized: Vec<u8> = vec![0x1b];
        normalized.extend_from_slice(&sequence);
        assert(normalized@ =~= before.report_with(typed));
        match KittyKeyboardParser::new().feed(&normalized) {
            KittyParseOutcome::Complete(key) => {
                self.pending.clear();
                assert(held_keys(self.pending@) =~= Seq::empty());
                self.trace = Some(
                    KittySequenceTrace::Complete { key, raw_bytes: normalized.clone() },
                );
                assert(trace_value(self.trace) == Some(
                    SequenceTrace::Complete { key, raw: normalized@ },
                ));
                let dispatches = vec![
                    NativeKeyDispatch {
                        key,
                        raw_bytes: normalized,
                        is_kitty_keyboard_protocol: true,
                    },
                ];
                assert(dispatch_values(dispatches@) =~= before.pushed(typed).1);
                dispatches
            },
            KittyParseOutcome::Incomplete => {
                let dispatches = Vec::new();
                assert(dispatch_values(dispatches@) =~= Seq::empty());
                dispatches
            },
            KittyParseOutcome::NoMatch => self.flush_pending("nomatch"),
        }
    }

    /// Hands all held keys on as they were typed, and keeps in mind for which
    /// reason.
    pub fn flush_pending(&mut self, reason: &'static str) -> (dispatches: Vec<NativeKeyDispatch>)
        ensures
            final(self)@ == old(self)@.flushed(reason@),
            dispatch_values(dispatches@) == all_as_typed(old(self)@.pending),
    {
        if self.has_pending() {
            let raw_bytes = self.pending_raw_bytes();
            self.trace = Some(KittySequenceTrace::Flush { reason, raw_bytes });
        }
        let mut held: Vec<(KeyWithModifier, Vec<u8>)> = Vec::new();
        std::mem::swap(&mut held, &mut self.pending);
        assert(held_keys(self.pending@) =~= Seq::empty());
        let mut dispatches: Vec<NativeKeyDispatch> = Vec::new();
        let mut i: usize = 0;
        while i < held.len()
            invariant
                i <= held@.len(),
                held_keys(held@) == old(self)@.pending,
                dispatch_values(dispatches@) == all_as_typed(held_keys(held@).take(i as int)),
            decreases held@.len() - i,
        {
            let ghost before = dispatches@;
            let raw_bytes: Vec<u8> = held[i].1.clone();
            assert(raw_bytes@ =~= held@[i as int].1@);
            dispatches.push(native_dispatch(held[i].0, raw_bytes));
            assert(dispatch_values(dispatches@) =~= dispatch_values(before).push(
                as_typed(held_keys(held@)[i as int]),
            ));
            assert(all_as_typed(held_keys(held@).take(i + 1)) =~= all_as_typed(
                held_keys(held@).take(i as int),
            ).push(as_typed(held_keys(held@)[i as int])));
            i = i + 1;
        }
        assert(held_keys(held@).take(i as int) =~= held_keys(held@));
        dispatches
    }

    /// What became of the last report, where that was not yet told.
    pub fn take_trace(&mut self) -> (trace: Option<KittySequenceTrace>)
        ensures
            trace_value(trace) == old(self)@.trace,
            final(self)@ == old(self)@.untraced(),
    {
        self.trace.take()
    }

    /// The bytes of the held keys.
    pub fn pending_raw_bytes(&self) -> (bytes: Vec<u8>)
        ensures
            bytes@ == bytes_of(self@.pending),
    {
        let mut bytes: Vec<u8> = Vec::new();
        let mut i: usize = 0;
        while i < self.pending.len()
            invariant
                i <= self.pending@.len(),
                bytes@ == bytes_of(self@.pending.take(i as int)),
            decreases self.pending@.len() - i,
        {
            bytes.extend_from_slice(&self.pending[i].1);
            assert(self@.pending.take(i + 1).drop_last() =~= self@.pending.take(i as int));
            i = i + 1;
        }
        assert(self@.pending.take(i as int) =~= self@.pending);
        bytes
    }
}

/// The bytes of the keys that make up the beginning of a report are as many as
/// the keys.
proof fn lemma_bytes_of_single(keys: Seq<TypedKey>)
    requires
        forall|i: int| 0 <= i < keys.len() ==> (#[trigger] keys[i]).raw.len() == 1,
    ensures
        bytes_of(keys) =~= Seq::new(keys.len(), |i: int| keys[i].raw[0]),
    decreases keys.len(),
{
    if keys.len() > 0 {
        assert(forall|i: int|
            0 <= i < keys.len() - 1 ==> (#[trigger] keys.drop_last()[i]).raw.len() == 1);
        lemma_bytes_of_single(keys.drop_last());
    }
}

/// What the buffer holds is always the beginning of a report.
pub proof fn law_held_keys_begin_a_report(buffer: ReportBuffer, key: TypedKey)
    requires
        buffer.well_formed(),
    ensures
        buffer.pushed(key).0.well_formed(),
        forall|reason: Seq<char>| #[trigger] buffer.flushed(reason).well_formed(),
        buffer.untraced().well_formed(),
{
    let held = buffer.pending.push(key);
    if buffer.enabled && buffer.pending.len() > 0 && continues_report(
        key.raw,
        buffer.pending.len(),
    ) {
        lemma_bytes_of_single(held);
        let report = buffer.report_with(key);
        assert(bytes_of(held).last() == key.raw[0]);
        assert(report.last() == key.raw[0]);
        if ends_report(bytes_of(held)) {
            assert(report.len() == held.len() + 1);
            assert(report.skip(2)[report.len() - 3] == key.raw[0]);
            assert(!crate::keyboard_parser::is_parameter(key.raw[0]));
            assert(!crate::keyboard_parser::all_parameters(report.skip(2)));
        }
    }
}

/// The bytes that were typed for the keys that were handed on: those of a
/// report, without the escape.
pub open spec fn typed_bytes(dispatches: Seq<Dispatch>) -> Seq<u8>
    decreases dispatches.len(),
{
    if dispatches.len() == 0 {
        Seq::empty()
    } else if dispatches.last().kitty {
        typed_bytes(dispatches.drop_last()) + dispatches.last().raw.skip(1)
    } else {
        typed_bytes(dispatches.drop_last()) + dispatches.last().raw
    }
}

proof fn lemma_typed_bytes_add(first: Seq<Dispatch>, second: Seq<Dispatch>)
    ensures
        typed_bytes(first + second) == typed_bytes(first) + typed_bytes(second),
    decreases second.len(),
{
    if second.len() == 0 {
        assert(first + second =~= first);
    } else {
        assert((first + second).drop_last() =~= first + second.drop_last());
        lemma_typed_bytes_add(first, second.drop_last());
        assert((first + second).last() == second.last());
        assert(typed_bytes(first + second) =~= typed_bytes(first) + typed_bytes(second));
    }
}

/// Keys that are handed on as they were typed come as the bytes that were typed.
pub proof fn law_flushed_bytes(keys: Seq<TypedKey>)
    ensures
        typed_bytes(all_as_typed(keys)) == bytes_of(keys),
    decreases keys.len(),
{
    if keys.len() > 0 {
        assert(all_as_typed(keys).drop_last() =~= all_as_typed(keys.drop_last()));
        law_flushed_bytes(keys.drop_last());
    }
}

/// A key that comes is never lost, whatever its report amounts to. Either the
/// keys that are handed on and those that are still held are what was held and
/// the new key, in order and as they were typed; or they are all replaced by the
/// one key that they report, which comes as their bytes after an escape.
pub proof fn law_push_loses_no_key(
    buffer: ReportBuffer,
    key: TypedKey,
    outcome: KittyParseOutcome,
)
    requires
        buffer.well_formed(),
    ensures
        ({
            let (after, out) = buffer.pushed_with(key, outcome);
            ||| out + all_as_typed(after.pending) == all_as_typed(buffer.pending.push(key))
            ||| {
                &&& after.pending.len() == 0
                &&& out.len() == 1
                &&& out[0].kitty
                &&& outcome == KittyParseOutcome::Complete(out[0].key)
                &&& out[0].raw == with_escape(bytes_of(buffer.pending) + key.raw)
            }
        }),
        ({
            let (after, out) = buffer.pushed_with(key, outcome);
            typed_bytes(out) + bytes_of(after.pending) == bytes_of(buffer.pending) + key.raw
        }),
{
    let (after, out) = buffer.pushed_with(key, outcome);
    let held = buffer.pending.push(key);
    assert(held.drop_last() =~= buffer.pending);
    assert(bytes_of(held) == bytes_of(buffer.pending) + key.raw);
    if out.len() == 1 && out[0].kitty {
        assert(out.drop_last() =~= Seq::empty());
        assert(typed_bytes(out.drop_last()) =~= Seq::empty());
        assert(out[0].raw.skip(1) =~= bytes_of(held));
        assert(typed_bytes(out) + bytes_of(after.pending) =~= bytes_of(held));
    } else {
        assert(out + all_as_typed(after.pending) =~= all_as_typed(held));
        lemma_typed_bytes_add(out, all_as_typed(after.pending));
        law_flushed_bytes(after.pending);
        law_flushed_bytes(held);
    }
}

impl ReportBuffer {
    /// The buffer after `keys`, and the keys that are handed on.
    pub open spec fn pushed_all(self, keys: Seq<TypedKey>) -> (Self, Seq<Dispatch>)
        decreases keys.len(),
    {
        if keys.len() == 0 {
            (self, Seq::empty())
        } else {
            let (before, out) = self.pushed_all(keys.drop_last());
            let (after, more) = before.pushed(keys.last());
            (after, out + more)
        }
    }
}

/// Whatever is typed, the bytes that are handed on and those that are still held
/// are the ones that were held and typed, in order.
pub proof fn law_typing_loses_no_byte(buffer: ReportBuffer, keys: Seq<TypedKey>)
    requires
        buffer.well_formed(),
    ensures
        buffer.pushed_all(keys).0.well_formed(),
        typed_bytes(buffer.pushed_all(keys).1) + bytes_of(buffer.pushed_all(keys).0.pending)
            == bytes_of(buffer.pending) + bytes_of(keys),
    decreases keys.len(),
{
    if keys.len() == 0 {
        assert(typed_bytes(Seq::empty()) + bytes_of(buffer.pending) =~= bytes_of(buffer.pending));
        assert(bytes_of(buffer.pending) + bytes_of(keys) =~= bytes_of(buffer.pending));
    } else {
        law_typing_loses_no_byte(buffer, keys.drop_last());
        let (before, out) = buffer.pushed_all(keys.drop_last());
        let (after, more) = before.pushed(keys.last());
        law_held_keys_begin_a_report(before, keys.last());
        law_push_loses_no_key(
            before,
            keys.last(),
            crate::keyboard_parser::outcome_of(before.report_with(keys.last())),
        );
        lemma_typed_bytes_add(out, more);
        let start = bytes_of(buffer.pending);
        let last = keys.last().raw;
        assert(typed_bytes(out + more) + bytes_of(after.pending) =~= typed_bytes(out) + (
        typed_bytes(more) + bytes_of(after.pending)));
        assert(typed_bytes(out) + (bytes_of(before.pending) + last) =~= (typed_bytes(out)
            + bytes_of(before.pending)) + last);
        assert(start + bytes_of(keys.drop_last()) + last =~= start + bytes_of(keys));
    }
}

/// A buffer that does not look for reports hands every key on as it was typed.
pub proof fn law_disabled_buffer_hands_every_key_on(buffer: ReportBuffer, keys: Seq<TypedKey>)
    requires
        !buffer.enabled,
    ensures
        buffer.pushed_all(keys) == (buffer, all_as_typed(keys)),
    decreases keys.len(),
{
    if keys.len() == 0 {
        assert(all_as_typed(keys) =~= Seq::empty());
    } else {
        law_disabled_buffer_hands_every_key_on(buffer, keys.drop_last());
        assert(all_as_typed(keys) =~= all_as_typed(keys.drop_last()).push(as_typed(keys.last())));
    }
}

/// Whether `keys` are what a report comes as: the bare key `[`, a digit, then
/// digits and semicolons, and a last byte, of at most as many bytes as a report
/// may have.
pub open spec fn is_typed_report(keys: Seq<TypedKey>) -> bool {
    &&& 3 <= keys.len() <= NATIVE_KITTY_SEQUENCE_MAX_LEN
    &&& starts_report(keys[0])
    &&& forall|i: int| 1 <= i < keys.len() ==> (#[trigger] keys[i]).raw.len() == 1
    &&& crate::keyboard_parser::is_digit(keys[1].raw[0])
    &&& forall|i: int|
        1 <= i < keys.len() - 1 ==> crate::keyboard_parser::is_parameter(
            (#[trigger] keys[i]).raw[0],
        )
    &&& crate::keyboard_parser::is_final(keys.last().raw[0])
}

proof fn lemma_report_is_held_until_it_ends(keys: Seq<TypedKey>, upto: int)
    requires
        is_typed_report(keys),
        0 <= upto < keys.len(),
    ensures
        ReportBuffer::fresh(true).pushed_all(keys.take(upto)) == (
            (ReportBuffer { pending: keys.take(upto), ..ReportBuffer::fresh(true) }),
            Seq::<Dispatch>::empty(),
        ),
    decreases upto,
{
    let fresh = ReportBuffer::fresh(true);
    if upto == 0 {
        assert(keys.take(upto) =~= Seq::empty());
    } else {
        lemma_report_is_held_until_it_ends(keys, upto - 1);
        let before = ReportBuffer { pending: keys.take(upto - 1), ..fresh };
        let key = keys[upto - 1];
        assert(keys.take(upto).drop_last() =~= keys.take(upto - 1));
        assert(keys.take(upto).last() == key);
        assert(before.pending.push(key) =~= keys.take(upto));
        lemma_bytes_of_single(keys.take(upto));
        assert(bytes_of(keys.take(upto)).last() == key.raw[0]);
        assert(before.pushed(key) == (before.holding(key), Seq::<Dispatch>::empty()));
        assert(Seq::<Dispatch>::empty() + Seq::<Dispatch>::empty() =~= Seq::<Dispatch>::empty());
    }
}

/// A report that is typed out gives the one key that it reports, which comes as
/// the report with its escape; one that reports no key gives the typed keys. Either
/// way nothing is held any more, and what became of the report is kept in mind.
pub proof fn law_typed_report_gives_its_key(keys: Seq<TypedKey>)
    requires
        is_typed_report(keys),
    ensures
        ReportBuffer::fresh(true).pushed_all(keys) == match crate::keyboard_parser::outcome_of(
            with_escape(bytes_of(keys)),
        ) {
            KittyParseOutcome::Complete(key) => (
                ReportBuffer::fresh(true).completed(key, with_escape(bytes_of(keys))),
                seq![Dispatch { key, raw: with_escape(bytes_of(keys)), kitty: true }],
            ),
            _ => (
                (ReportBuffer { pending: keys, ..ReportBuffer::fresh(true) }).flushed(
                    "nomatch"@,
                ),
                all_as_typed(keys),
            ),
        },
{
    let upto = keys.len() - 1;
    lemma_report_is_held_until_it_ends(keys, upto);
    let before = ReportBuffer { pending: keys.take(upto), ..ReportBuffer::fresh(true) };
    let key = keys.last();
    assert(keys.drop_last() =~= keys.take(upto));
    assert(before.pending.push(key) =~= keys);
    lemma_bytes_of_single(keys);
    assert(bytes_of(keys).last() == key.raw[0]);
    let report = before.report_with(key);
    assert(report.skip(2)[report.len() - 3] == key.raw[0]);
    assert(!crate::keyboard_parser::all_parameters(report.skip(2)));
    assert(Seq::<Dispatch>::empty() + before.pushed(key).1 =~= before.pushed(key).1);
}

/// The bytes of keys are those of the first, then those of the second, and so on.
pub proof fn law_bytes_come_key_by_key(keys: Seq<TypedKey>, key: TypedKey)
    ensures
        bytes_of(Seq::empty()) == Seq::<u8>::empty(),
        bytes_of(keys.push(key)) == bytes_of(keys) + key.raw,
{
    assert(keys.push(key).drop_last() =~= keys);
}

/// Whether `out` are `keys` as they were typed, one by one and in order.
pub open spec fn are_as_typed(out: Seq<Dispatch>, keys: Seq<TypedKey>) -> bool {
    &&& out.len() == keys.len()
    &&& forall|i: int|
        0 <= i < keys.len() ==> #[trigger] out[i] == (Dispatch {
            key: keys[i].key,
            raw: keys[i].raw,
            kitty: false,
        })
}

/// Where no report has begun, the bare key `[` is held, and any other key is handed
/// on at once, as it was typed.
pub proof fn law_only_a_bare_bracket_begins_a_report(buffer: ReportBuffer, key: TypedKey)
    requires
        buffer.enabled,
        buffer.pending.len() == 0,
    ensures
        ({
            let bracket = key.raw == seq![0x5bu8] && key.key.bare_key == BareKey::Char('[')
                && !key.key.key_modifiers.ctrl && !key.key.key_modifiers.alt
                && !key.key.key_modifiers.shift && !key.key.key_modifiers.super_key;
            let (after, out) = buffer.pushed(key);
            &&& bracket ==> after.pending == seq![key] && out.len() == 0
            &&& !bracket ==> after == buffer && are_as_typed(out, seq![key])
            &&& after.enabled
            &&& after.trace == buffer.trace
        }),
{
    let (after, out) = buffer.pushed(key);
    assert(buffer.pending.push(key) =~= seq![key]);
}

/// A report goes on with a digit; after its first digit also with a semicolon.
/// Such a key is held as long as the report may get no longer than 32 bytes; beyond
/// that, all of its keys are handed on as they were typed.
pub proof fn law_report_goes_on_with_digits_and_semicolons(buffer: ReportBuffer, key: TypedKey)
    requires
        buffer.enabled,
        buffer.pending.len() > 0,
        key.raw.len() == 1,
        0x30 <= key.raw[0] <= 0x39 || key.raw[0] == 0x3b && buffer.pending.len() > 1,
    ensures
        ({
            let (after, out) = buffer.pushed(key);
            let size = bytes_of(buffer.pending).len() + 1;
            &&& size <= 32 ==> after.pending == buffer.pending.push(key) && out.len() == 0
                && after.trace == buffer.trace
            &&& size > 32 ==> after.pending.len() == 0 && are_as_typed(
                out,
                buffer.pending.push(key),
            ) && after.trace == Some(
                SequenceTrace::Flush {
                    reason: "too_long"@,
                    raw: bytes_of(buffer.pending) + key.raw,
                },
            )
            &&& after.enabled
        }),
{
    let held = buffer.pending.push(key);
    law_bytes_come_key_by_key(buffer.pending, key);
    assert(bytes_of(held).last() == key.raw[0]);
}

/// A key that cannot stand in a report ends it: the held keys are handed on as they
/// were typed, and then that key, which begins no report of its own.
pub proof fn law_key_that_does_not_belong_ends_the_report(buffer: ReportBuffer, key: TypedKey)
    requires
        buffer.enabled,
        buffer.pending.len() > 0,
        ({
            ||| key.raw.len() != 1
            ||| !(0x30 <= key.raw[0] <= 0x39) && buffer.pending.len() == 1
            ||| !(0x30 <= key.raw[0] <= 0x39) && key.raw[0] != 0x3b && key.raw[0] != 0x75
                && key.raw[0] != 0x7e && !(0x41 <= key.raw[0] <= 0x5a)
        }),
    ensures
        ({
            let (after, out) = buffer.pushed(key);
            &&& after.pending.len() == 0
            &&& after.enabled
            &&& are_as_typed(out, buffer.pending.push(key))
            &&& after.trace == Some(
                SequenceTrace::Flush {
                    reason: "invalid_continuation"@,
                    raw: bytes_of(buffer.pending),
                },
            )
        }),
{
}

/// A report ends with `u`, `~` or an upper-case letter, where it is no longer than
/// 32 bytes. If it stands for a key, that comes in its place, with an escape before
/// its bytes; if not, all of its keys are handed on as they were typed.
pub proof fn law_last_key_of_a_report_decides(buffer: ReportBuffer, key: TypedKey)
    requires
        buffer.enabled,
        buffer.pending.len() > 1,
        key.raw.len() == 1,
        key.raw[0] == 0x75 || key.raw[0] == 0x7e || 0x41 <= key.raw[0] <= 0x5a,
        bytes_of(buffer.pending).len() < 32,
    ensures
        ({
            let (after, out) = buffer.pushed(key);
            let report = seq![0x1bu8] + (bytes_of(buffer.pending) + key.raw);
            match crate::keyboard_parser::outcome_of(report) {
                KittyParseOutcome::Complete(reported) => {
                    &&& after.pending.len() == 0
                    &&& out.len() == 1
                    &&& out[0].key == reported && out[0].raw == report && out[0].kitty
                    &&& after.trace == Some(
                        SequenceTrace::Complete { key: reported, raw: report },
                    )
                },
                KittyParseOutcome::NoMatch => {
                    &&& after.pending.len() == 0
                    &&& are_as_typed(out, buffer.pending.push(key))
                    &&& after.trace == Some(
                        SequenceTrace::Flush {
                            reason: "nomatch"@,
                            raw: bytes_of(buffer.pending) + key.raw,
                        },
                    )
                },
                KittyParseOutcome::Incomplete => after.pending == buffer.pending.push(key)
                    && out.len() == 0,
            }
        }),
{
    let held = buffer.pending.push(key);
    law_bytes_come_key_by_key(buffer.pending, key);
    assert(bytes_of(held).last() == key.raw[0]);
}

/// All held keys are handed on as they were typed where the buffer is emptied, and
/// why is kept in mind, unless there were none; it is told once.
pub proof fn law_flush_hands_all_held_keys_on(buffer: ReportBuffer, reason: Seq<char>)
    ensures
        are_as_typed(all_as_typed(buffer.pending), buffer.pending),
        buffer.flushed(reason).pending.len() == 0,
        buffer.flushed(reason).enabled == buffer.enabled,
        buffer.pending.len() > 0 ==> buffer.flushed(reason).trace == Some(
            SequenceTrace::Flush { reason, raw: bytes_of(buffer.pending) },
        ),
        buffer.pending.len() == 0 ==> buffer.flushed(reason).trace == buffer.trace,
        buffer.untraced().trace is None,
        buffer.untraced().pending == buffer.pending,
        buffer.untraced().enabled == buffer.enabled,
{
}

/// The bytes of a report: it begins with the bare key `[`, goes on with a digit,
/// from its third byte on also with a semicolon, `u`, `~` or an upper-case letter,
/// and may end with any of these but a digit and a semicolon.
pub proof fn law_bytes_of_a_report(key: TypedKey, byte: u8, pending_len: nat, more: Seq<u8>)
    ensures
        starts_report(key) ==> key.raw.len() == 1 && key.raw[0] == 0x5b,
        continues_report(seq![byte], pending_len) <==> {
            ||| '0' as u8 <= byte <= '9' as u8
            ||| pending_len >= 2 && (byte == ';' as u8 || byte == 'u' as u8 || byte == '~' as u8
                || 'A' as u8 <= byte <= 'Z' as u8)
        },
        more.len() != 1 ==> !continues_report(more, pending_len),
        ends_report(more.push(byte)) <==> (byte == 'u' as u8 || byte == '~' as u8 || 'A' as u8
            <= byte <= 'Z' as u8),
        !ends_report(Seq::empty()),
{
}

/// What is said of keys to hand on, and of what became of a report, is said of what
/// they hold.
pub proof fn law_values_of_dispatches_and_traces(
    dispatches: Seq<NativeKeyDispatch>,
    i: int,
    key: KeyWithModifier,
    reason: &'static str,
    raw_bytes: Vec<u8>,
)
    requires
        0 <= i < dispatches.len(),
    ensures
        dispatch_values(dispatches).len() == dispatches.len(),
        dispatch_values(dispatches)[i] == (Dispatch {
            key: dispatches[i].key,
            raw: dispatches[i].raw_bytes@,
            kitty: dispatches[i].is_kitty_keyboard_protocol,
        }),
        trace_value(Some(KittySequenceTrace::Complete { key, raw_bytes })) == Some(
            SequenceTrace::Complete { key, raw: raw_bytes@ },
        ),
        trace_value(Some(KittySequenceTrace::Flush { reason, raw_bytes })) == Some(
            SequenceTrace::Flush { reason: reason@, raw: raw_bytes@ },
        ),
        trace_value(None) is None,
{
}

} // verus!
