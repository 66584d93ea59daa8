//! The answer to a shell that asks for the cursor's position when it starts.
//!
//! Such a shell writes a query and waits for the reply. The query is taken out of
//! its output, however that is split over reads, and answered; all other output
//! passes.
use std::collections::VecDeque;
use vstd::prelude::*;

verus! {

/// How long the query is waited for, unless told otherwise.
pub const DEFAULT_DSR_BOOTSTRAP_TIMEOUT_MS: u64 = 200;

pub const MIN_DSR_BOOTSTRAP_TIMEOUT_MS: u64 = 50;

pub const MAX_DSR_BOOTSTRAP_TIMEOUT_MS: u64 = 2_000;

/// The environment variable that says how long the query is waited for.
pub const DSR_BOOTSTRAP_TIMEOUT_ENV: &'static str = "ZELLIJ_DSR_BOOTSTRAP_TIMEOUT_MS";

/// The query: `ESC [ 6 n`.
pub open spec fn query() -> Seq<u8> {
    seq![0x1bu8, 0x5bu8, 0x36u8, 0x6eu8]
}

/// The reply, that the cursor is in the first column of the first line:
/// `ESC [ 1 ; 1 R`.
pub open spec fn response() -> Seq<u8> {
    seq![0x1bu8, 0x5bu8, 0x31u8, 0x3bu8, 0x31u8, 0x52u8]
}

/// The query.
pub fn dsr_query() -> (bytes: Vec<u8>)
    ensures
        bytes@ == query(),
{
    vec![0x1b, 0x5b, 0x36, 0x6e]
}

/// The reply.
pub fn dsr_response() -> (bytes: Vec<u8>)
    ensures
        bytes@ == response(),
{
    vec![0x1b, 0x5b, 0x31, 0x3b, 0x31, 0x52]
}

/// How long the query is waited for where the variable has the value `value`, in
/// milliseconds: the number that it writes, within limits.
pub open spec fn timeout_millis(value: Option<Seq<char>>) -> u64 {
    let millis = match value {
        Some(value) => match crate::text::parsed_u64(value) {
            Some(millis) => millis,
            None => DEFAULT_DSR_BOOTSTRAP_TIMEOUT_MS,
        },
        None => DEFAULT_DSR_BOOTSTRAP_TIMEOUT_MS,
    };
    if millis < MIN_DSR_BOOTSTRAP_TIMEOUT_MS {
        MIN_DSR_BOOTSTRAP_TIMEOUT_MS
    } else if millis > MAX_DSR_BOOTSTRAP_TIMEOUT_MS {
        MAX_DSR_BOOTSTRAP_TIMEOUT_MS
    } else {
        millis
    }
}

/// How long the query is waited for where the variable has the value `value`.
pub fn configured_dsr_bootstrap_timeout(value: Option<&str>) -> (millis: u64)
    ensures
        millis == timeout_millis(
            match value {
                Some(value) => Some(value@),
                None => None,
            },
        ),
{
    let millis: u64 = match value {
        Some(value) => match crate::text::parse_u64(value) {
            Some(millis) => millis,
            None => DEFAULT_DSR_BOOTSTRAP_TIMEOUT_MS,
        },
        None => DEFAULT_DSR_BOOTSTRAP_TIMEOUT_MS,
    };
    if millis < MIN_DSR_BOOTSTRAP_TIMEOUT_MS {
        MIN_DSR_BOOTSTRAP_TIMEOUT_MS
    } else if millis > MAX_DSR_BOOTSTRAP_TIMEOUT_MS {
        MAX_DSR_BOOTSTRAP_TIMEOUT_MS
    } else {
        millis
    }
}

/// Whether `needle` stands in `haystack` at `index`.
pub open spec fn occurs_at(haystack: Seq<u8>, needle: Seq<u8>, index: int) -> bool {
    &&& 0 <= index
    &&& index + needle.len() <= haystack.len()
    &&& haystack.subrange(index, index + needle.len()) == needle
}

/// Where `needle` first stands in `haystack`.
pub open spec fn position(haystack: Seq<u8>, needle: Seq<u8>) -> Option<int>
    decreases haystack.len(),
{
    if haystack.len() < needle.len() || haystack.len() == 0 {
        None
    } else if occurs_at(haystack, needle, 0) {
        Some(0)
    } else {
        match position(haystack.skip(1), needle) {
            Some(index) => Some(index + 1),
            None => None,
        }
    }
}

proof fn lemma_position_is_first(haystack: Seq<u8>, needle: Seq<u8>)
    requires
        needle.len() > 0,
    ensures
        match position(haystack, needle) {
            Some(index) => occurs_at(haystack, needle, index) && forall|j: int|
                j < index ==> !occurs_at(haystack, needle, j),
            None => forall|j: int| !occurs_at(haystack, needle, j),
        },
    decreases haystack.len(),
{
    if haystack.len() < needle.len() || haystack.len() == 0 {
    } else {
        let rest = haystack.skip(1);
        lemma_position_is_first(rest, needle);
        assert forall|j: int| j >= 1 implies occurs_at(haystack, needle, j) == occurs_at(
            rest,
            needle,
            j - 1,
        ) by {
            if j + needle.len() <= haystack.len() {
                assert(haystack.subrange(j, j + needle.len()) =~= rest.subrange(
                    j - 1,
                    j - 1 + needle.len(),
                ));
            }
        }
        match position(rest, needle) {
            Some(index) => {
                assert(occurs_at(haystack, needle, index + 1) == occurs_at(rest, needle, index));
            },
            None => {},
        }
    }
}

proof fn lemma_first_is_position(haystack: Seq<u8>, needle: Seq<u8>, index: int)
    requires
        needle.len() > 0,
        occurs_at(haystack, needle, index),
        forall|j: int| j < index ==> !occurs_at(haystack, needle, j),
    ensures
        position(haystack, needle) == Some(index),
{
    lemma_position_is_first(haystack, needle);
    match position(haystack, needle) {
        Some(first) => {
            if first < index {
                assert(!occurs_at(haystack, needle, first));
            } else if index < first {
                assert(!occurs_at(haystack, needle, index));
            }
        },
        None => {
            assert(!occurs_at(haystack, needle, index));
        },
    }
}

/// Where `needle` first stands in `haystack`.
pub fn find_subslice(haystack: &[u8], needle: &[u8]) -> (index: Option<usize>)
    requires
        needle@.len() > 0,
    ensures
        match index {
            Some(index) => position(haystack@, needle@) == Some(index as int),
            None => position(haystack@, needle@) is None,
        },
{
    let total: usize = haystack.len();
    let mut i: usize = 0;
    while i < total && needle.len() <= total - i
        invariant
            i <= total == haystack@.len(),
            needle@.len() > 0,
            forall|j: int| j < i ==> !occurs_at(haystack@, needle@, j),
        decreases haystack@.len() - i,
    {
        let mut k: usize = 0;
        while k < needle.len() && haystack[i + k] == needle[k]
            invariant
                k <= needle@.len(),
                i + needle@.len() <= total == haystack@.len(),
                forall|j: int| 0 <= j < k ==> haystack@[i + j] == needle@[j],
            decreases needle@.len() - k,
        {
            k = k + 1;
        }
        if k == needle.len() {
            assert(haystack@.subrange(i as int, i + needle@.len()) =~= needle@);
            proof {
                lemma_first_is_position(haystack@, needle@, i as int);
            }
            return Some(i);
        }
        assert(haystack@.subrange(i as int, i + needle@.len())[k as int] != needle@[k as int]);
        i = i + 1;
    }
    proof {
        lemma_position_is_first(haystack@, needle@);
    }
    None
}

/// Whether `bytes` end with `end`.
pub open spec fn ends_with(bytes: Seq<u8>, end: Seq<u8>) -> bool {
    end.len() <= bytes.len() && bytes.skip(bytes.len() - end.len()) == end
}

/// How many bytes at the end of `bytes` may be the beginning of the query: as
/// many as possible, without being all of it.
pub open spec fn query_start_len(bytes: Seq<u8>) -> nat {
    if ends_with(bytes, query().take(3)) {
        3
    } else if ends_with(bytes, query().take(2)) {
        2
    } else if ends_with(bytes, query().take(1)) {
        1
    } else {
        0
    }
}

/// How many bytes at the end of `bytes` may be the beginning of the query.
pub fn partial_dsr_prefix_len(bytes: &[u8]) -> (len: usize)
    ensures
        len == query_start_len(bytes@),
        len <= bytes@.len(),
        len < query().len(),
{
    let n: usize = bytes.len();
    if n >= 3 && bytes[n - 3] == 0x1b && bytes[n - 2] == 0x5b && bytes[n - 1] == 0x36 {
        assert(bytes@.skip(n - 3) =~= query().take(3));
        return 3;
    }
    assert(!ends_with(bytes@, query().take(3))) by {
        if ends_with(bytes@, query().take(3)) {
            assert(bytes@.skip(n - 3)[0] == query().take(3)[0]);
            assert(bytes@.skip(n - 3)[1] == query().take(3)[1]);
            assert(bytes@.skip(n - 3)[2] == query().take(3)[2]);
        }
    }
    if n >= 2 && bytes[n - 2] == 0x1b && bytes[n - 1] == 0x5b {
        assert(bytes@.skip(n - 2) =~= query().take(2));
        return 2;
    }
    assert(!ends_with(bytes@, query().take(2))) by {
        if ends_with(bytes@, query().take(2)) {
            assert(bytes@.skip(n - 2)[0] == query().take(2)[0]);
            assert(bytes@.skip(n - 2)[1] == query().take(2)[1]);
        }
    }
    if n >= 1 && bytes[n - 1] == 0x1b {
        assert(bytes@.skip(n - 1) =~= query().take(1));
        return 1;
    }
    assert(!ends_with(bytes@, query().take(1))) by {
        if ends_with(bytes@, query().take(1)) {
            assert(bytes@.skip(n - 1)[0] == query().take(1)[0]);
        }
    }
    0
}

/// `bytes` with the first query taken out, where there is one.
pub open spec fn without_query(bytes: Seq<u8>) -> Seq<u8> {
    match position(bytes, query()) {
        Some(index) => bytes.take(index) + bytes.skip(index + query().len()),
        None => bytes,
    }
}

/// Takes the first query out of `bytes`; says whether there was one.
pub fn strip_dsr_query_once(bytes: &[u8]) -> (stripped: (Vec<u8>, bool))
    ensures
        stripped.0@ == without_query(bytes@),
        stripped.1 == position(bytes@, query()) is Some,
{
    let needle = dsr_query();
    let total: usize = bytes.len();
    proof {
        lemma_position_is_first(bytes@, query());
    }
    let mut output: Vec<u8> = Vec::new();
    match find_subslice(bytes, &needle) {
        Some(index) => {
            output.extend_from_slice(vstd::slice::slice_subrange(bytes, 0, index));
            output.extend_from_slice(
                vstd::slice::slice_subrange(bytes, index + needle.len(), total),
            );
            assert(output@ =~= without_query(bytes@));
            (output, true)
        },
        None => {
            output.extend_from_slice(bytes);
            assert(output@ =~= bytes@);
            (output, false)
        },
    }
}

/// `std::time::Instant`, a point in time. Nothing is known of one.
#[verifier::external_type_specification]
#[verifier::external_body]
pub struct ExInstant(std::time::Instant);

/// `std::time::Instant::now`: the present. Nothing is claimed of it.
#[verifier::external_body]
fn now() -> (instant: std::time::Instant) {
    std::time::Instant::now()
}

/// `std::time::Instant::elapsed`, in nanoseconds: how long ago `start` was.
/// Nothing is claimed of it.
#[verifier::external_body]
fn nanos_since(start: &std::time::Instant) -> (nanos: u128) {
    start.elapsed().as_nanos()
}

/// The state of the wait for the query: whether it is over, what may be the
/// beginning of the query, what is still to be read of the output, whether the
/// query was found, and whether the reply was given out.
pub struct QueryWait {
    pub completed: bool,
    pub pending: Seq<u8>,
    pub deferred: Seq<u8>,
    pub answered: bool,
    pub replied: bool,
}

impl QueryWait {
    /// The wait before any output.
    pub open spec fn fresh() -> Self {
        QueryWait {
            completed: false,
            pending: Seq::empty(),
            deferred: Seq::empty(),
            answered: false,
            replied: false,
        }
    }

    /// What is kept back, once `output` is read of which no more than `max_len`
    /// bytes fit, and what is read.
    pub open spec fn reading(self, output: Seq<u8>, max_len: nat) -> (Self, Seq<u8>) {
        let len = if max_len < output.len() {
            max_len as int
        } else {
            output.len() as int
        };
        (QueryWait { deferred: self.deferred + output.skip(len), ..self }, output.take(len))
    }

    /// The wait after the output `bytes`, and all that can be read of it; `expired`
    /// if the time is over.
    pub open spec fn settled(self, expired: bool, bytes: Seq<u8>) -> (Self, Seq<u8>) {
        let combined = self.pending + bytes;
        if self.completed || expired {
            (QueryWait { completed: true, pending: Seq::empty(), ..self }, combined)
        } else if position(combined, query()) is Some {
            (
                QueryWait { completed: true, pending: Seq::empty(), answered: true, ..self },
                without_query(combined),
            )
        } else {
            let start = combined.len() - query_start_len(combined);
            (QueryWait { pending: combined.skip(start), ..self }, combined.take(start))
        }
    }

    /// The wait after the output `bytes`, and what is read of it, if no more than
    /// `max_len` bytes fit; `expired` if the time is over.
    pub open spec fn filtered(self, expired: bool, bytes: Seq<u8>, max_len: nat) -> (
        Self,
        Seq<u8>,
    ) {
        let (settled, output) = self.settled(expired, bytes);
        settled.reading(output, max_len)
    }

    /// The wait after up to `max_len` bytes of what was kept back are read.
    pub open spec fn drained(self, max_len: nat) -> (Self, Seq<u8>) {
        let len = if max_len < self.deferred.len() {
            max_len as int
        } else {
            self.deferred.len() as int
        };
        (QueryWait { deferred: self.deferred.skip(len), ..self }, self.deferred.take(len))
    }

    /// Whether the reply is to be written.
    pub open spec fn reply_is_due(self) -> bool {
        self.answered && !self.replied
    }

    /// The wait with the reply given out, if it was due.
    pub open spec fn replying(self) -> Self {
        QueryWait { replied: self.answered || self.replied, ..self }
    }

    /// Whether output passes as it is from here on, with nothing left to read.
    pub open spec fn done(self) -> bool {
        self.completed && self.pending.len() == 0 && self.deferred.len() == 0
    }
}

/// Whether a wait of `timeout_millis` milliseconds is over after `elapsed_nanos`
/// nanoseconds.
pub open spec fn is_over(timeout_millis: u64, elapsed_nanos: nat) -> bool {
    elapsed_nanos > timeout_millis * 1_000_000
}

/// Waits for the query in the output of one terminal.
pub struct DsrBootstrap {
    input_write_handle: isize,
    started: std::time::Instant,
    timeout_millis: u64,
    completed: bool,
    pending: Vec<u8>,
    deferred: VecDeque<u8>,
    answered: bool,
    replied: bool,
}

impl View for DsrBootstrap {
    type V = QueryWait;

    closed spec fn view(&self) -> QueryWait {
        QueryWait {
            completed: self.completed,
            pending: self.pending@,
            deferred: self.deferred@,
            answered: self.answered,
            replied: self.replied,
        }
    }
}

impl DsrBootstrap {
    /// The handle that the reply is written to.
    pub closed spec fn handle(self) -> isize {
        self.input_write_handle
    }

    /// How long the query is waited for.
    pub closed spec fn timeout(self) -> u64 {
        self.timeout_millis
    }

    /// When the wait began.
    pub closed spec fn start(self) -> std::time::Instant {
        self.started
    }

    /// Waits for the query for `timeout_millis` from now on; the reply is to be
    /// written to `input_write_handle`, where that is not null.
    pub fn new(input_write_handle: isize, timeout_millis: u64) -> (dsr: Self)
        ensures
            dsr@ == QueryWait::fresh(),
            dsr.handle() == input_write_handle,
            dsr.timeout() == timeout_millis,
    {
        DsrBootstrap {
            input_write_handle,
            started: now(),
            timeout_millis,
            completed: false,
            pending: Vec::new(),
            deferred: VecDeque::new(),
            answered: false,
            replied: false,
        }
    }

    /// Whether the time is over once `elapsed_nanos` nanoseconds have passed.
    pub fn expires_after(&self, elapsed_nanos: u128) -> (expired: bool)
        ensures
            expired == (elapsed_nanos > self.timeout() * 1_000_000),
            expired == is_over(self.timeout(), elapsed_nanos as nat),
    {
        elapsed_nanos > self.timeout_millis as u128 * 1_000_000
    }

    /// Whether the time is over, at the time of the call. Any answer is possible:
    /// it rests on the clock.
    pub fn is_expired(&self) -> (expired: bool) {
        self.expires_after(nanos_since(&self.started))
    }

    /// Takes the output `bytes` and returns what is read of it, no more than
    /// `max_len` bytes, at the time of the call.
    pub fn filter_to_len(&mut self, bytes: &[u8], max_len: usize) -> (output: Vec<u8>)
        ensures
            exists|expired: bool|
                (final(self)@, output@) == #[trigger] old(self)@.filtered(
                    expired,
                    bytes@,
                    max_len as nat,
                ),
            final(self).handle() == old(self).handle(),
            final(self).timeout() == old(self).timeout(),
            final(self).start() == old(self).start(),
    {
        let expired = self.is_expired();
        self.filter_at(expired, bytes, max_len)
    }

    /// Takes the output `bytes` and returns what is read of it, no more than
    /// `max_len` bytes; `expired` if the time is over.
    pub fn filter_at(&mut self, expired: bool, bytes: &[u8], max_len: usize) -> (output: Vec<u8>)
        ensures
            (final(self)@, output@) == old(self)@.filtered(expired, bytes@, max_len as nat),
            final(self).handle() == old(self).handle(),
            final(self).timeout() == old(self).timeout(),
            final(self).start() == old(self).start(),
    {
        let ghost before = self@;
        let ghost combined_bytes = before.pending + bytes@;
        if self.completed || expired {
            self.completed = true;
            let output = self.emit_with_pending(bytes);
            return self.defer_output_tail(output, max_len);
        }
        let mut combined: Vec<u8> = Vec::new();
        combined.extend_from_slice(&self.pending);
        combined.extend_from_slice(bytes);
        assert(combined@ =~= combined_bytes);
        let (output, found) = strip_dsr_query_once(&combined);
        if found {
            self.completed = true;
            self.pending.clear();
            self.answered = true;
            return self.defer_output_tail(output, max_len);
        }
        let pending_len: usize = partial_dsr_prefix_len(&combined);
        let start: usize = combined.len() - pending_len;
        self.pending.clear();
        self.pending.extend_from_slice(
            vstd::slice::slice_subrange(&combined, start, combined.len()),
        );
        assert(self.pending@ =~= combined_bytes.skip(start as int));
        combined.truncate(start);
        assert(combined@ =~= combined_bytes.take(start as int));
        self.defer_output_tail(combined, max_len)
    }

    /// Takes up to `max_len` bytes of what was kept back, where there is any.
    pub fn drain_deferred(&mut self, max_len: usize) -> (output: Option<Vec<u8>>)
        ensures
            match output {
                Some(output) => old(self)@.deferred.len() > 0 && (final(self)@, output@) == old(
                    self,
                )@.drained(max_len as nat),
                None => old(self)@.deferred.len() == 0 && final(self)@ == old(self)@,
            },
            final(self).handle() == old(self).handle(),
            final(self).timeout() == old(self).timeout(),
            final(self).start() == old(self).start(),
    {
        if self.deferred.len() == 0 {
            return None;
        }
        Some(self.take_deferred(max_len))
    }

    fn take_deferred(&mut self, max_len: usize) -> (output: Vec<u8>)
        ensures
            (final(self)@, output@) == old(self)@.drained(max_len as nat),
            final(self).handle() == old(self).handle(),
            final(self).timeout() == old(self).timeout(),
            final(self).start() == old(self).start(),
    {
        let ghost before = self@;
        let ghost whole = self.deferred@;
        let mut output: Vec<u8> = Vec::new();
        while output.len() < max_len && self.deferred.len() > 0
            invariant
                output@.len() <= max_len,
                whole == before.deferred,
                output@ + self.deferred@ == whole,
                self@ == (QueryWait { deferred: self.deferred@, ..before }),
                self.handle() == old(self).handle(),
                self.timeout() == old(self).timeout(),
                self.start() == old(self).start(),
            decreases self.deferred@.len(),
        {
            let ghost rest = self.deferred@;
            let ghost taken = output@;
            match self.deferred.pop_front() {
                Some(byte) => {
                    output.push(byte);
                    assert(output@ + self.deferred@ =~= taken + rest);
                },
                None => {},
            }
        }
        assert(output@ =~= whole.take(output@.len() as int));
        assert(self.deferred@ =~= whole.skip(output@.len() as int));
        output
    }

    /// Takes the output `bytes` and returns what is read of it, however much.
    pub fn filter(&mut self, bytes: &[u8]) -> (output: Vec<u8>)
        ensures
            exists|expired: bool|
                (final(self)@, output@) == #[trigger] old(self)@.filtered(
                    expired,
                    bytes@,
                    usize::MAX as nat,
                ),
            final(self).handle() == old(self).handle(),
            final(self).timeout() == old(self).timeout(),
            final(self).start() == old(self).start(),
    {
        self.filter_to_len(bytes, usize::MAX)
    }

    /// Takes up to `max_len` bytes of what was kept back.
    pub fn drain_deferred_to_len(&mut self, max_len: usize) -> (output: Vec<u8>)
        ensures
            (final(self)@, output@) == old(self)@.drained(max_len as nat),
            final(self).handle() == old(self).handle(),
            final(self).timeout() == old(self).timeout(),
            final(self).start() == old(self).start(),
    {
        self.take_deferred(max_len)
    }

    /// Puts what may have been the beginning of the query back in front of
    /// `bytes`.
    fn emit_with_pending(&mut self, bytes: &[u8]) -> (output: Vec<u8>)
        ensures
            final(self)@ == (QueryWait { pending: Seq::empty(), ..old(self)@ }),
            output@ == old(self)@.pending + bytes@,
            final(self).handle() == old(self).handle(),
            final(self).timeout() == old(self).timeout(),
            final(self).start() == old(self).start(),
    {
        let mut output: Vec<u8> = Vec::new();
        output.extend_from_slice(&self.pending);
        output.extend_from_slice(bytes);
        self.pending.clear();
        assert(output@ =~= old(self)@.pending + bytes@);
        output
    }

    /// Keeps back what does not fit.
    fn defer_output_tail(&mut self, output: Vec<u8>, max_len: usize) -> (head: Vec<u8>)
        ensures
            (final(self)@, head@) == old(self)@.reading(output@, max_len as nat),
            final(self).handle() == old(self).handle(),
            final(self).timeout() == old(self).timeout(),
            final(self).start() == old(self).start(),
    {
        let len: usize = if max_len < output.len() {
            max_len
        } else {
            output.len()
        };
        let ghost before = self@;
        let mut i: usize = len;
        while i < output.len()
            invariant
                len <= i <= output@.len(),
                self@ == (QueryWait {
                    deferred: before.deferred + output@.subrange(len as int, i as int),
                    ..before
                }),
                self.handle() == old(self).handle(),
                self.timeout() == old(self).timeout(),
                self.start() == old(self).start(),
            decreases output@.len() - i,
        {
            self.deferred.push_back(output[i]);
            assert(self.deferred@ =~= before.deferred + output@.subrange(len as int, i + 1));
            i = i + 1;
        }
        assert(output@.subrange(len as int, i as int) =~= output@.skip(len as int));
        let mut head = output;
        head.truncate(len);
        assert(head@ =~= output@.take(len as int));
        head
    }

    /// The reply that is to be written, and the handle to write it to, once the
    /// query was found; none where there is no handle. It is given out once.
    pub fn write_dsr_response(&mut self) -> (reply: Option<(isize, Vec<u8>)>)
        ensures
            final(self)@ == old(self)@.replying(),
            final(self).handle() == old(self).handle(),
            final(self).timeout() == old(self).timeout(),
            final(self).start() == old(self).start(),
            match reply {
                Some(reply) => old(self)@.reply_is_due() && old(self).handle() != 0 && reply.0
                    == old(self).handle() && reply.1@ == response(),
                None => !old(self)@.reply_is_due() || old(self).handle() == 0,
            },
    {
        let due = self.answered && !self.replied;
        self.replied = self.answered || self.replied;
        if due && self.input_write_handle != 0 {
            Some((self.input_write_handle, dsr_response()))
        } else {
            None
        }
    }

    /// Whether output passes as it is from here on, with nothing left to read.
    pub fn is_done(&self) -> (done: bool)
        ensures
            done == self@.done(),
    {
        self.completed && self.pending.len() == 0 && self.deferred.len() == 0
    }
}

/// What is read at once and what is kept back are all that can be read, in order,
/// and no more than fits is read at once.
pub proof fn law_kept_back_output_follows(
    wait: QueryWait,
    expired: bool,
    bytes: Seq<u8>,
    max_len: nat,
)
    ensures
        ({
            let (after, read) = wait.filtered(expired, bytes, max_len);
            &&& read.len() <= max_len
            &&& wait.deferred.len() == 0 ==> read + after.deferred == wait.settled(
                expired,
                bytes,
            ).1
            &&& after.drained(max_len).1.len() <= max_len
            &&& after.drained(max_len).1 + after.drained(max_len).0.deferred == after.deferred
        }),
{
    let (after, read) = wait.filtered(expired, bytes, max_len);
    let output = wait.settled(expired, bytes).1;
    assert(after.drained(max_len).1 + after.drained(max_len).0.deferred =~= after.deferred);
    if wait.deferred.len() == 0 {
        assert(read + after.deferred =~= output);
    }
}

/// The bytes of some reads, one after the other; each read comes with whether the
/// time was over.
pub open spec fn read_bytes(reads: Seq<(bool, Seq<u8>)>) -> Seq<u8>
    decreases reads.len(),
{
    if reads.len() == 0 {
        Seq::empty()
    } else {
        read_bytes(reads.drop_last()) + reads.last().1
    }
}

impl QueryWait {
    /// The wait after some reads, and all that can be read of them.
    pub open spec fn settled_all(self, reads: Seq<(bool, Seq<u8>)>) -> (Self, Seq<u8>)
        decreases reads.len(),
    {
        if reads.len() == 0 {
            (self, Seq::empty())
        } else {
            let (before, passed) = self.settled_all(reads.drop_last());
            let (after, output) = before.settled(reads.last().0, reads.last().1);
            (after, passed + output)
        }
    }

    /// How a wait that began before any output stands to the bytes `input` that
    /// came since and to the bytes `passed` that could be read of them.
    pub open spec fn accounts_for(self, input: Seq<u8>, passed: Seq<u8>) -> bool {
        if !self.completed {
            &&& !self.answered
            &&& passed + self.pending == input
            &&& position(input, query()) is None
            &&& self.pending.len() == query_start_len(input)
        } else {
            &&& self.pending.len() == 0
            &&& self.answered ==> position(input, query()) is Some && passed == without_query(
                input,
            )
            &&& !self.answered ==> passed == input
        }
    }
}

proof fn lemma_query_start_is_longest(bytes: Seq<u8>, len: int)
    requires
        1 <= len <= 3,
        ends_with(bytes, query().take(len)),
    ensures
        query_start_len(bytes) >= len,
{
}

proof fn lemma_query_start_is_there(bytes: Seq<u8>)
    ensures
        query_start_len(bytes) <= bytes.len(),
        query_start_len(bytes) <= 3,
        query_start_len(bytes) > 0 ==> ends_with(
            bytes,
            query().take(query_start_len(bytes) as int),
        ),
{
    assert(query().take(3).len() == 3);
    assert(query().take(2).len() == 2);
    assert(query().take(1).len() == 1);
}

/// A query that comes with `bytes` does not begin before what may be its
/// beginning.
proof fn lemma_query_is_not_earlier(passed: Seq<u8>, pending: Seq<u8>, bytes: Seq<u8>, j: int)
    requires
        position(passed + pending, query()) is None,
        pending.len() == query_start_len(passed + pending),
        j < passed.len(),
    ensures
        !occurs_at(passed + pending + bytes, query(), j),
{
    let before = passed + pending;
    let whole = before + bytes;
    lemma_position_is_first(before, query());
    if occurs_at(whole, query(), j) {
        if j + 4 <= before.len() {
            assert(before.subrange(j, j + 4) =~= whole.subrange(j, j + 4));
            assert(occurs_at(before, query(), j));
        } else {
            let len = before.len() - j;
            assert(before.skip(j) =~= query().take(len)) by {
                assert forall|k: int| 0 <= k < len implies before[j + k] == query()[k] by {
                    assert(whole.subrange(j, j + 4)[k] == whole[j + k]);
                }
            }
            lemma_query_start_is_longest(before, len);
        }
    }
}

proof fn lemma_query_is_found_in_tail(passed: Seq<u8>, pending: Seq<u8>, bytes: Seq<u8>)
    requires
        position(passed + pending, query()) is None,
        pending.len() == query_start_len(passed + pending),
    ensures
        position(passed + pending + bytes, query()) == match position(pending + bytes, query()) {
            Some(index) => Some(passed.len() + index),
            None => None,
        },
{
    let whole = passed + pending + bytes;
    let tail = pending + bytes;
    lemma_position_is_first(whole, query());
    lemma_position_is_first(tail, query());
    assert forall|j: int| j >= passed.len() implies #[trigger] occurs_at(whole, query(), j)
        == occurs_at(tail, query(), j - passed.len()) by {
        if j + 4 <= whole.len() {
            assert(whole.subrange(j, j + 4) =~= tail.subrange(
                j - passed.len(),
                j - passed.len() + 4,
            ));
        }
    }
    match position(tail, query()) {
        Some(index) => {
            assert(occurs_at(whole, query(), passed.len() + index));
            assert forall|j: int| j < passed.len() + index implies !occurs_at(
                whole,
                query(),
                j,
            ) by {
                if j >= passed.len() {
                    assert(!occurs_at(tail, query(), j - passed.len()));
                } else {
                    lemma_query_is_not_earlier(passed, pending, bytes, j);
                }
            }
            lemma_first_is_position(whole, query(), passed.len() + index);
        },
        None => {
            match position(whole, query()) {
                Some(index) => {
                    assert(occurs_at(whole, query(), index));
                    if index < passed.len() {
                        lemma_query_is_not_earlier(passed, pending, bytes, index);
                    }
                    assert(occurs_at(tail, query(), index - passed.len()));
                },
                None => {},
            }
        },
    }
}

proof fn lemma_query_start_lies_in_tail(
    passed: Seq<u8>,
    pending: Seq<u8>,
    bytes: Seq<u8>,
    len: int,
)
    requires
        pending.len() == query_start_len(passed + pending),
        1 <= len <= 3,
    ensures
        ends_with(passed + pending + bytes, query().take(len)) == ends_with(
            pending + bytes,
            query().take(len),
        ),
{
    let before = passed + pending;
    let whole = before + bytes;
    let tail = pending + bytes;
    let start = query().take(len);
    if len <= tail.len() {
        assert(whole.skip(whole.len() - len) =~= tail.skip(tail.len() - len));
    } else if ends_with(whole, start) {
        let part = len - bytes.len();
        assert(before.skip(before.len() - part) =~= query().take(part)) by {
            assert forall|k: int| 0 <= k < part implies before[before.len() - part + k]
                == query()[k] by {
                assert(whole.skip(whole.len() - len)[k] == start[k]);
            }
        }
        lemma_query_start_is_longest(before, part);
    }
}

/// Later output does not move the first query.
proof fn lemma_query_stays_first(input: Seq<u8>, bytes: Seq<u8>)
    requires
        position(input, query()) is Some,
    ensures
        position(input + bytes, query()) == position(input, query()),
        without_query(input + bytes) == without_query(input) + bytes,
{
    lemma_position_is_first(input, query());
    let index = position(input, query())->0;
    let whole = input + bytes;
    assert forall|j: int| j <= index implies occurs_at(whole, query(), j) == occurs_at(
        input,
        query(),
        j,
    ) by {
        if 0 <= j {
            assert(whole.subrange(j, j + 4) =~= input.subrange(j, j + 4));
        }
    }
    lemma_first_is_position(whole, query(), index);
    assert(without_query(whole) =~= without_query(input) + bytes);
}

proof fn lemma_one_read_is_accounted_for(
    wait: QueryWait,
    input: Seq<u8>,
    passed: Seq<u8>,
    expired: bool,
    bytes: Seq<u8>,
)
    requires
        wait.accounts_for(input, passed),
    ensures
        wait.settled(expired, bytes).0.accounts_for(
            input + bytes,
            passed + wait.settled(expired, bytes).1,
        ),
{
    let (after, output) = wait.settled(expired, bytes);
    let combined = wait.pending + bytes;
    let whole = input + bytes;
    if wait.completed {
        assert(combined =~= bytes);
        if wait.answered {
            lemma_query_stays_first(input, bytes);
        }
    } else if expired {
        assert(passed + combined =~= whole);
    } else {
        lemma_query_is_found_in_tail(passed, wait.pending, bytes);
        lemma_query_start_lies_in_tail(passed, wait.pending, bytes, 1);
        lemma_query_start_lies_in_tail(passed, wait.pending, bytes, 2);
        lemma_query_start_lies_in_tail(passed, wait.pending, bytes, 3);
        lemma_position_is_first(combined, query());
        assert(passed + combined =~= whole);
        match position(combined, query()) {
            Some(index) => {
                assert(passed + output =~= without_query(whole));
            },
            None => {
                lemma_query_start_is_there(combined);
                assert(passed + output + after.pending =~= whole);
            },
        }
    }
}

/// However the output is split over reads, and whenever the time is over: the
/// bytes that can be read and those that may be the beginning of the query are
/// the output, or the output without the query once that was found.
pub proof fn law_no_output_is_lost(reads: Seq<(bool, Seq<u8>)>)
    ensures
        ({
            let (wait, passed) = QueryWait::fresh().settled_all(reads);
            let input = read_bytes(reads);
            &&& wait.accounts_for(input, passed)
            &&& !wait.answered ==> passed + wait.pending == input
            &&& wait.answered ==> passed == without_query(input) && wait.pending.len() == 0
            &&& wait.pending.len() < query().len()
        }),
    decreases reads.len(),
{
    if reads.len() == 0 {
        let nothing = Seq::<u8>::empty();
        assert(position(nothing, query()) is None);
        lemma_query_start_is_there(nothing);
        assert(nothing + nothing =~= nothing);
    } else {
        law_no_output_is_lost(reads.drop_last());
        let (before, passed) = QueryWait::fresh().settled_all(reads.drop_last());
        let last = reads.last();
        lemma_one_read_is_accounted_for(
            before,
            read_bytes(reads.drop_last()),
            passed,
            last.0,
            last.1,
        );
        let (after, all_passed) = QueryWait::fresh().settled_all(reads);
        lemma_query_start_is_there(read_bytes(reads));
        assert(all_passed + after.pending =~= all_passed || !after.completed);
    }
}

/// While the time is not over the query is found wherever the output is split:
/// it counts as found exactly if the output holds it, and that ends the
/// wait.
pub proof fn law_split_query_is_found(reads: Seq<(bool, Seq<u8>)>)
    requires
        forall|i: int| 0 <= i < reads.len() ==> !(#[trigger] reads[i]).0,
    ensures
        ({
            let wait = QueryWait::fresh().settled_all(reads).0;
            &&& wait.answered == position(read_bytes(reads), query()) is Some
            &&& wait.completed == wait.answered
        }),
    decreases reads.len(),
{
    law_no_output_is_lost(reads);
    if reads.len() > 0 {
        let before = reads.drop_last();
        assert forall|i: int| 0 <= i < before.len() implies !(#[trigger] before[i]).0 by {
            assert(before[i] == reads[i]);
        }
        law_split_query_is_found(before);
        assert(!reads[reads.len() - 1].0);
    }
}

/// The reply is given out at most once, and a wait that is over has output pass
/// as it is.
pub proof fn law_finished_wait_is_out_of_the_way(wait: QueryWait, expired: bool, bytes: Seq<u8>)
    requires
        wait.completed,
    ensures
        !wait.replying().reply_is_due(),
        !wait.reply_is_due() ==> !wait.settled(expired, bytes).0.reply_is_due(),
        wait.settled(expired, bytes).0.completed,
        wait.done() ==> wait.settled(expired, bytes) == (wait, bytes),
{
    if wait.done() {
        assert(wait.pending + bytes =~= bytes);
        assert(wait.pending =~= Seq::empty());
    }
}

/// How long the query is waited for always lies within the limits.
pub proof fn law_timeout_is_within_limits(value: Option<Seq<char>>)
    ensures
        MIN_DSR_BOOTSTRAP_TIMEOUT_MS <= timeout_millis(value) <= MAX_DSR_BOOTSTRAP_TIMEOUT_MS,
{
}

/// What is looked for is found where it first stands, byte by byte, and nowhere
/// else; it is not found exactly if it stands nowhere.
pub proof fn law_first_place_is_found(haystack: Seq<u8>, needle: Seq<u8>)
    requires
        needle.len() > 0,
    ensures
        match position(haystack, needle) {
            Some(index) => {
                &&& 0 <= index <= haystack.len() - needle.len()
                &&& forall|k: int|
                    0 <= k < needle.len() ==> haystack[index + k] == #[trigger] needle[k]
                &&& forall|j: int|
                    0 <= j < index ==> #[trigger] haystack.subrange(j, j + needle.len()) != needle
            },
            None => forall|j: int|
                0 <= j <= haystack.len() - needle.len() ==> #[trigger] haystack.subrange(
                    j,
                    j + needle.len(),
                ) != needle,
        },
{
    lemma_position_is_first(haystack, needle);
    match position(haystack, needle) {
        Some(index) => {
            assert(occurs_at(haystack, needle, index));
            let found = haystack.subrange(index, index + needle.len());
            assert forall|k: int| 0 <= k < needle.len() implies haystack[index + k]
                == #[trigger] needle[k] by {
                assert(found[k] == needle[k]);
            }
            assert forall|j: int| 0 <= j < index implies #[trigger] haystack.subrange(
                j,
                j + needle.len(),
            ) != needle by {
                assert(!occurs_at(haystack, needle, j));
            }
        },
        None => {
            assert forall|j: int|
                0 <= j <= haystack.len() - needle.len() implies #[trigger] haystack.subrange(
                j,
                j + needle.len(),
            ) != needle by {
                assert(!occurs_at(haystack, needle, j));
            }
        },
    }
}

/// Of output that holds the query, exactly the first query is taken out; other
/// output stays as it is.
pub proof fn law_only_the_first_query_is_taken_out(before: Seq<u8>, after: Seq<u8>, bytes: Seq<u8>)
    ensures
        ({
            let asked = seq![0x1bu8, 0x5bu8, 0x36u8, 0x6eu8];
            &&& (forall|j: int|
                0 <= j < before.len() ==> #[trigger] (before + asked + after).subrange(j, j + 4)
                    != asked) ==> without_query(before + asked + after) == before + after
            &&& (forall|j: int|
                0 <= j <= bytes.len() - 4 ==> #[trigger] bytes.subrange(j, j + 4) != asked)
                ==> without_query(bytes) == bytes
        }),
{
    let asked = seq![0x1bu8, 0x5bu8, 0x36u8, 0x6eu8];
    let whole = before + asked + after;
    if forall|j: int|
        0 <= j < before.len() ==> #[trigger] whole.subrange(j, j + 4) != asked {
        assert(whole.subrange(before.len() as int, before.len() as int + 4) =~= asked);
        assert(occurs_at(whole, query(), before.len() as int));
        assert forall|j: int| j < before.len() implies !occurs_at(whole, query(), j) by {
            if 0 <= j {
                assert(whole.subrange(j, j + 4) != asked);
            }
        }
        lemma_first_is_position(whole, query(), before.len() as int);
        assert(without_query(whole) =~= before + after);
    }
    if forall|j: int| 0 <= j <= bytes.len() - 4 ==> #[trigger] bytes.subrange(j, j + 4) != asked {
        lemma_position_is_first(bytes, query());
    }
}

/// As much as may be the beginning of the query is waited with, and no more: the
/// longest end of the output that is a beginning of the query, but not all of it.
pub proof fn law_longest_beginning_of_the_query_waits(bytes: Seq<u8>, k: int)
    ensures
        ({
            let asked = seq![0x1bu8, 0x5bu8, 0x36u8, 0x6eu8];
            let len = query_start_len(bytes) as int;
            &&& len <= bytes.len() && len < 4
            &&& bytes.skip(bytes.len() - len) == asked.take(len)
            &&& 0 < k < 4 && k <= bytes.len() && bytes.skip(bytes.len() - k) == asked.take(k) ==> k
                <= len
        }),
{
    assert(bytes.skip(bytes.len() as int) =~= query().take(0));
}

/// While the wait goes on, only what may be the beginning of the query is held
/// back; once the time is over or the wait has ended, nothing is.
pub proof fn law_only_a_beginning_of_the_query_is_held_back(
    wait: QueryWait,
    expired: bool,
    bytes: Seq<u8>,
)
    ensures
        ({
            let (after, passed) = wait.settled(expired, bytes);
            let combined = wait.pending + bytes;
            let asked = seq![0x1bu8, 0x5bu8, 0x36u8, 0x6eu8];
            &&& wait.completed || expired ==> {
                &&& after.completed && after.pending.len() == 0
                &&& passed == combined
                &&& after.answered == wait.answered
            }
            &&& !wait.completed && !expired && position(combined, asked) is Some ==> {
                &&& after.completed && after.answered && after.pending.len() == 0
                &&& passed == without_query(combined)
            }
            &&& !wait.completed && !expired && position(combined, asked) is None ==> {
                &&& !after.completed && after.answered == wait.answered
                &&& passed + after.pending == combined
                &&& after.pending.len() < 4
                &&& after.pending == asked.take(after.pending.len() as int)
                &&& forall|k: int|
                    after.pending.len() < k < 4 && k <= combined.len() ==> #[trigger] combined.skip(
                        combined.len() - k,
                    ) != asked.take(k)
            }
            &&& after.replied == wait.replied
            &&& after.deferred == wait.deferred
        }),
{
    let (after, passed) = wait.settled(expired, bytes);
    let combined = wait.pending + bytes;
    let asked = seq![0x1bu8, 0x5bu8, 0x36u8, 0x6eu8];
    assert(asked =~= query());
    law_longest_beginning_of_the_query_waits(combined, 1);
    if !wait.completed && !expired && position(combined, asked) is None {
        assert(passed + after.pending =~= combined);
        assert forall|k: int|
            after.pending.len() < k < 4 && k <= combined.len() implies #[trigger] combined.skip(
            combined.len() - k,
        ) != asked.take(k) by {
            law_longest_beginning_of_the_query_waits(combined, k);
        }
    }
}

/// As much is read at once as fits, of new output and of what was kept back.
pub proof fn law_reads_are_as_long_as_they_can_be(
    wait: QueryWait,
    expired: bool,
    bytes: Seq<u8>,
    max_len: nat,
)
    ensures
        ({
            let all = wait.settled(expired, bytes).1;
            let (after, read) = wait.filtered(expired, bytes, max_len);
            &&& read.len() == max_len || read.len() == all.len()
            &&& read.len() <= max_len && read.len() <= all.len()
            &&& read == all.take(read.len() as int)
            &&& after.deferred == wait.deferred + all.skip(read.len() as int)
        }),
        ({
            let (after, read) = wait.drained(max_len);
            &&& read.len() == max_len || read.len() == wait.deferred.len()
            &&& read.len() <= max_len && read.len() <= wait.deferred.len()
            &&& read + after.deferred == wait.deferred
            &&& after.pending == wait.pending
            &&& after.completed == wait.completed
            &&& after.answered == wait.answered && after.replied == wait.replied
        }),
{
    let (after, read) = wait.drained(max_len);
    assert(read + after.deferred =~= wait.deferred);
}

/// The reply is due from the query on until it is given out. The wait is out of the
/// way once it has ended and nothing is left to read.
pub proof fn law_reply_is_due_once(wait: QueryWait)
    ensures
        wait.reply_is_due() <==> wait.answered && !wait.replied,
        wait.answered ==> wait.replying().replied,
        !wait.answered ==> wait.replying().replied == wait.replied,
        wait.replying() == (QueryWait { replied: wait.replying().replied, ..wait }),
        wait.done() <==> wait.completed && wait.pending == Seq::<u8>::empty() && wait.deferred
            == Seq::<u8>::empty(),
        !QueryWait::fresh().reply_is_due() && !QueryWait::fresh().done(),
{
    if wait.done() {
        assert(wait.pending =~= Seq::<u8>::empty());
        assert(wait.deferred =~= Seq::<u8>::empty());
    }
}

/// The number that a variable writes is how many milliseconds the query is waited
/// for, from 50 to 2000; a smaller or larger one counts as the nearest of these.
/// Without a number it is 200.
pub proof fn law_timeout_is_the_nearest_allowed(number: u64, value: Seq<char>)
    ensures
        ({
            let millis = timeout_millis(Some(crate::text::decimal_text(number as nat)));
            &&& 50 <= number <= 2000 ==> millis == number
            &&& number < 50 ==> millis == 50
            &&& number > 2000 ==> millis == 2000
        }),
        timeout_millis(None) == 200,
        crate::text::parsed_u64(value) is None ==> timeout_millis(Some(value)) == 200,
{
    crate::text::law_written_number_is_parsed(number);
}

/// A wait is over once more than its time has passed, to the nanosecond, and stays
/// over.
pub proof fn law_wait_is_over_after_its_time(timeout_millis: u64, elapsed_nanos: nat, more: nat)
    ensures
        !is_over(timeout_millis, (timeout_millis * 1000 * 1000) as nat),
        is_over(timeout_millis, (timeout_millis * 1000 * 1000 + 1) as nat),
        is_over(timeout_millis, elapsed_nanos) ==> is_over(timeout_millis, elapsed_nanos + more),
        elapsed_nanos <= timeout_millis * 1000 * 1000 ==> !is_over(timeout_millis, elapsed_nanos),
{
}

} // verus!
