//! Reading UTF-8 that may end in the middle of a character.
use crate::text::char_from_u32;
use vstd::prelude::*;
use vstd::utf8::*;

verus! {

/// How many bytes of `bytes` are whole characters, from the beginning on.
pub open spec fn valid_up_to(bytes: Seq<u8>) -> nat
    decreases bytes.len(),
{
    if bytes.len() > 0 && valid_first_scalar(bytes) {
        (length_of_first_scalar(bytes) + valid_up_to(pop_first_scalar(bytes))) as nat
    } else {
        0
    }
}

/// Whether `bytes` are the beginning of a character, but not all of it: more
/// bytes make it one.
pub open spec fn is_unfinished(bytes: Seq<u8>) -> bool {
    bytes.len() > 0 && exists|more: Seq<u8>|
        valid_first_scalar(#[trigger] (bytes + more))
            && length_of_first_scalar(bytes + more) > bytes.len()
}

/// Whether `first` and `second` can be the first two bytes of a character of
/// three bytes.
spec fn starts_three(first: u8, second: u8) -> bool {
    ||| first == 0xe0 && 0xa0 <= second <= 0xbf
    ||| 0xe1 <= first <= 0xec && 0x80 <= second <= 0xbf
    ||| first == 0xed && 0x80 <= second <= 0x9f
    ||| 0xee <= first <= 0xef && 0x80 <= second <= 0xbf
}

/// Whether `first` and `second` can be the first two bytes of a character of four
/// bytes.
spec fn starts_four(first: u8, second: u8) -> bool {
    ||| first == 0xf0 && 0x90 <= second <= 0xbf
    ||| 0xf1 <= first <= 0xf3 && 0x80 <= second <= 0xbf
    ||| first == 0xf4 && 0x80 <= second <= 0x8f
}

/// The same as `is_unfinished`, byte by byte.
spec fn is_unfinished_by_range(bytes: Seq<u8>) -> bool {
    ||| bytes.len() == 1 && 0xc2 <= bytes[0] <= 0xf4
    ||| bytes.len() == 2 && (starts_three(bytes[0], bytes[1]) || starts_four(bytes[0], bytes[1]))
    ||| bytes.len() == 3 && starts_four(bytes[0], bytes[1]) && 0x80 <= bytes[2] <= 0xbf
}

proof fn lemma_two_bytes(a: u8, b: u8)
    requires
        0xc0 <= a <= 0xdf,
        0x80 <= b <= 0xbf,
    ensures
        0x80 <= codepoint_width_2(a, b) <==> a >= 0xc2,
        codepoint_width_2(a, b) < 0x800,
{
    assert(0xc0 <= a <= 0xdf && 0x80 <= b <= 0xbf ==> (0x80 <= (((a & 0x1f) as u32) << 6) | ((b
        & 0x3f) as u32) <==> a >= 0xc2) && ((((a & 0x1f) as u32) << 6) | ((b & 0x3f) as u32))
        < 0x800) by (bit_vector);
}

proof fn lemma_three_bytes(a: u8, b: u8, c: u8)
    requires
        0xe0 <= a <= 0xef,
        0x80 <= b <= 0xbf,
        0x80 <= c <= 0xbf,
    ensures
        ({
            let point = codepoint_width_3(a, b, c);
            (0x800 <= point && !(0xd800 <= point <= 0xdfff)) <==> starts_three(a, b)
        }),
{
    assert(0xe0 <= a <= 0xef && 0x80 <= b <= 0xbf && 0x80 <= c <= 0xbf ==> ({
        let point = (((a & 0x0f) as u32) << 12) | (((b & 0x3f) as u32) << 6) | ((c & 0x3f) as u32);
        (0x800 <= point && !(0xd800 <= point && point <= 0xdfff)) <==> ((a == 0xe0 && 0xa0 <= b) || (
        0xe1 <= a && a <= 0xec) || (a == 0xed && b <= 0x9f) || 0xee <= a)
    })) by (bit_vector);
}

proof fn lemma_four_bytes(a: u8, b: u8, c: u8, d: u8)
    requires
        0xf0 <= a <= 0xf7,
        0x80 <= b <= 0xbf,
        0x80 <= c <= 0xbf,
        0x80 <= d <= 0xbf,
    ensures
        0x1_0000 <= codepoint_width_4(a, b, c, d) <= 0x10_ffff <==> starts_four(a, b),
{
    assert(0xf0 <= a <= 0xf7 && 0x80 <= b <= 0xbf && 0x80 <= c <= 0xbf && 0x80 <= d <= 0xbf ==> ({
        let point = (((a & 0x07) as u32) << 18) | (((b & 0x3f) as u32) << 12) | (((c & 0x3f) as u32)
            << 6) | ((d & 0x3f) as u32);
        (0x1_0000 <= point && point <= 0x10_ffff) <==> ((a == 0xf0 && 0x90 <= b) || (0xf1 <= a && a
            <= 0xf3) || (a == 0xf4 && b <= 0x8f))
    })) by (bit_vector);
}

/// Whether a character starts at the beginning of `bytes`, by the ranges of its
/// bytes.
proof fn lemma_first_scalar_by_range(bytes: Seq<u8>)
    ensures
        valid_first_scalar(bytes) <==> {
            ||| bytes.len() >= 1 && bytes[0] <= 0x7f
            ||| bytes.len() >= 2 && 0xc2 <= bytes[0] <= 0xdf && 0x80 <= bytes[1] <= 0xbf
            ||| bytes.len() >= 3 && starts_three(bytes[0], bytes[1]) && 0x80 <= bytes[2] <= 0xbf
            ||| bytes.len() >= 4 && starts_four(bytes[0], bytes[1]) && 0x80 <= bytes[2] <= 0xbf
                && 0x80 <= bytes[3] <= 0xbf
        },
        valid_first_scalar(bytes) ==> 1 <= length_of_first_scalar(bytes) <= bytes.len(),
{
    if bytes.len() >= 1 && bytes[0] <= 0x7f {
        let a = bytes[0];
        assert(a <= 0x7f ==> (a & 0x7f) as u32 <= 0x7f) by (bit_vector);
    }
    if bytes.len() >= 2 && 0xc0 <= bytes[0] <= 0xdf && 0x80 <= bytes[1] <= 0xbf {
        lemma_two_bytes(bytes[0], bytes[1]);
    }
    if bytes.len() >= 3 && 0xe0 <= bytes[0] <= 0xef && 0x80 <= bytes[1] <= 0xbf && 0x80 <= bytes[2]
        <= 0xbf {
        lemma_three_bytes(bytes[0], bytes[1], bytes[2]);
    }
    if bytes.len() >= 4 && 0xf0 <= bytes[0] <= 0xf7 && 0x80 <= bytes[1] <= 0xbf && 0x80 <= bytes[2]
        <= 0xbf && 0x80 <= bytes[3] <= 0xbf {
        lemma_four_bytes(bytes[0], bytes[1], bytes[2], bytes[3]);
    }
}

proof fn lemma_unfinished_by_range(bytes: Seq<u8>)
    ensures
        is_unfinished(bytes) == is_unfinished_by_range(bytes),
{
    if is_unfinished_by_range(bytes) {
        let more = if bytes.len() == 1 {
            if bytes[0] <= 0xdf {
                seq![0x80u8]
            } else if bytes[0] == 0xe0 {
                seq![0xa0u8, 0x80u8]
            } else if bytes[0] <= 0xef {
                seq![0x80u8, 0x80u8]
            } else if bytes[0] == 0xf0 {
                seq![0x90u8, 0x80u8, 0x80u8]
            } else {
                seq![0x80u8, 0x80u8, 0x80u8]
            }
        } else if bytes.len() == 2 {
            if bytes[0] <= 0xef {
                seq![0x80u8]
            } else {
                seq![0x80u8, 0x80u8]
            }
        } else {
            seq![0x80u8]
        };
        lemma_first_scalar_by_range(bytes + more);
        assert(valid_first_scalar(bytes + more));
    } else if is_unfinished(bytes) {
        let more = choose|more: Seq<u8>|
            valid_first_scalar(#[trigger] (bytes + more)) && length_of_first_scalar(bytes + more)
                > bytes.len();
        lemma_first_scalar_by_range(bytes + more);
        assert((bytes + more)[0] == bytes[0]);
        if bytes.len() > 1 {
            assert((bytes + more)[1] == bytes[1]);
        }
        if bytes.len() > 2 {
            assert((bytes + more)[2] == bytes[2]);
        }
    }
}

/// What stands at the beginning of some bytes.
enum FirstScalar {
    Whole { len: usize, point: u32 },
    Unfinished,
    Invalid,
}

fn is_continuation(byte: u8) -> (continues: bool)
    ensures
        continues == (0x80 <= byte <= 0xbf),
{
    0x80 <= byte && byte <= 0xbf
}

fn can_start_three(first: u8, second: u8) -> (starts: bool)
    ensures
        starts == starts_three(first, second),
{
    (first == 0xe0 && 0xa0 <= second && second <= 0xbf) || (0xe1 <= first && first <= 0xec
        && is_continuation(second)) || (first == 0xed && 0x80 <= second && second <= 0x9f) || (0xee
        <= first && first <= 0xef && is_continuation(second))
}

fn can_start_four(first: u8, second: u8) -> (starts: bool)
    ensures
        starts == starts_four(first, second),
{
    (first == 0xf0 && 0x90 <= second && second <= 0xbf) || (0xf1 <= first && first <= 0xf3
        && is_continuation(second)) || (first == 0xf4 && 0x80 <= second && second <= 0x8f)
}

/// Looks at what stands in `bytes` at `at`.
fn first_scalar(bytes: &[u8], at: usize) -> (scalar: FirstScalar)
    requires
        at < bytes@.len(),
    ensures
        match scalar {
            FirstScalar::Whole { len, point } => {
                let rest = bytes@.skip(at as int);
                &&& valid_first_scalar(rest)
                &&& len == length_of_first_scalar(rest)
                &&& at + len <= bytes@.len()
                &&& point == decode_first_scalar(rest)
            },
            FirstScalar::Unfinished => !valid_first_scalar(bytes@.skip(at as int))
                && is_unfinished(bytes@.skip(at as int)),
            FirstScalar::Invalid => !valid_first_scalar(bytes@.skip(at as int)) && !is_unfinished(
                bytes@.skip(at as int),
            ),
        },
{
    let ghost rest = bytes@.skip(at as int);
    proof {
        lemma_first_scalar_by_range(rest);
        lemma_unfinished_by_range(rest);
    }
    let left: usize = bytes.len() - at;
    let a: u8 = bytes[at];
    if a <= 0x7f {
        return FirstScalar::Whole { len: 1, point: (a & 0x7f) as u32 };
    }
    if left == 1 {
        return if 0xc2 <= a && a <= 0xf4 {
            FirstScalar::Unfinished
        } else {
            FirstScalar::Invalid
        };
    }
    let b: u8 = bytes[at + 1];
    assert(rest[1] == b);
    if 0xc2 <= a && a <= 0xdf && is_continuation(b) {
        return FirstScalar::Whole {
            len: 2,
            point: (((a & 0x1f) as u32) << 6) | ((b & 0x3f) as u32),
        };
    }
    if left == 2 {
        return if can_start_three(a, b) || can_start_four(a, b) {
            FirstScalar::Unfinished
        } else {
            FirstScalar::Invalid
        };
    }
    let c: u8 = bytes[at + 2];
    assert(rest[2] == c);
    if can_start_three(a, b) && is_continuation(c) {
        return FirstScalar::Whole {
            len: 3,
            point: (((a & 0x0f) as u32) << 12) | (((b & 0x3f) as u32) << 6) | ((c & 0x3f) as u32),
        };
    }
    if left == 3 {
        return if can_start_four(a, b) && is_continuation(c) {
            FirstScalar::Unfinished
        } else {
            FirstScalar::Invalid
        };
    }
    let d: u8 = bytes[at + 3];
    assert(rest[3] == d);
    if can_start_four(a, b) && is_continuation(c) && is_continuation(d) {
        return FirstScalar::Whole {
            len: 4,
            point: (((a & 0x07) as u32) << 18) | (((b & 0x3f) as u32) << 12) | (((c & 0x3f) as u32)
                << 6) | ((d & 0x3f) as u32),
        };
    }
    FirstScalar::Invalid
}

/// A character at the beginning stays one whatever follows.
proof fn lemma_first_scalar_is_local(bytes: Seq<u8>, more: Seq<u8>)
    requires
        valid_first_scalar(bytes),
    ensures
        valid_first_scalar(bytes + more),
        length_of_first_scalar(bytes + more) == length_of_first_scalar(bytes),
        decode_first_scalar(bytes + more) == decode_first_scalar(bytes),
        pop_first_scalar(bytes + more) == pop_first_scalar(bytes) + more,
        pop_first_scalar(bytes).len() < bytes.len(),
{
    lemma_first_scalar_by_range(bytes);
    lemma_first_scalar_by_range(bytes + more);
    assert(pop_first_scalar(bytes + more) =~= pop_first_scalar(bytes) + more);
}

/// What follows whole characters is read on its own.
pub proof fn lemma_after_whole_characters(first: Seq<u8>, second: Seq<u8>)
    requires
        valid_utf8(first),
    ensures
        valid_up_to(first + second) == first.len() + valid_up_to(second),
        valid_utf8(second) ==> valid_utf8(first + second),
        valid_utf8(second) ==> decode_utf8(first + second) == decode_utf8(first) + decode_utf8(
            second,
        ),
    decreases first.len(),
{
    if first.len() == 0 {
        assert(first + second =~= second);
        if valid_utf8(second) {
            assert(decode_utf8(first) + decode_utf8(second) =~= decode_utf8(second));
        }
    } else {
        lemma_first_scalar_is_local(first, second);
        lemma_after_whole_characters(pop_first_scalar(first), second);
        if valid_utf8(second) {
            assert(decode_utf8(first + second) =~= decode_utf8(first) + decode_utf8(second));
        }
    }
}

/// The whole characters at the beginning are valid, and there are no more.
pub proof fn lemma_whole_characters(bytes: Seq<u8>)
    ensures
        valid_up_to(bytes) <= bytes.len(),
        valid_utf8(bytes.take(valid_up_to(bytes) as int)),
        valid_utf8(bytes) <==> valid_up_to(bytes) == bytes.len(),
        valid_up_to(bytes.skip(valid_up_to(bytes) as int)) == 0,
    decreases bytes.len(),
{
    if bytes.len() > 0 && valid_first_scalar(bytes) {
        let nothing = Seq::<u8>::empty();
        lemma_first_scalar_is_local(bytes, nothing);
        lemma_first_scalar_by_range(bytes);
        let rest = pop_first_scalar(bytes);
        lemma_whole_characters(rest);
        let len = length_of_first_scalar(bytes);
        let upto = valid_up_to(bytes) as int;
        let head = bytes.take(upto);
        lemma_first_scalar_by_range(head);
        assert(pop_first_scalar(head) =~= rest.take(valid_up_to(rest) as int));
        assert(valid_first_scalar(head));
        assert(bytes.skip(upto) =~= rest.skip(valid_up_to(rest) as int));
    } else {
        assert(bytes.take(0) =~= Seq::empty());
        assert(bytes.skip(0) =~= bytes);
    }
}

/// Some bytes, taken apart: whole characters, or what is taken for them, and the
/// beginning of one more.
pub struct Utf8Split {
    pub valid: Seq<u8>,
    pub pending: Seq<u8>,
}

/// `bytes`, taken apart: where they are whole characters and then the beginning
/// of one, these two; otherwise nothing is kept apart, whether or not the bytes
/// are valid.
pub open spec fn split(bytes: Seq<u8>) -> Utf8Split {
    let upto = valid_up_to(bytes) as int;
    if is_unfinished(bytes.skip(upto)) {
        Utf8Split { valid: bytes.take(upto), pending: bytes.skip(upto) }
    } else {
        Utf8Split { valid: bytes, pending: Seq::empty() }
    }
}

/// Some bytes, taken apart.
pub struct Utf8PrefixSplit<'a> {
    pub valid: &'a [u8],
    pub pending: &'a [u8],
}

impl<'a> View for Utf8PrefixSplit<'a> {
    type V = Utf8Split;

    open spec fn view(&self) -> Utf8Split {
        Utf8Split { valid: self.valid@, pending: self.pending@ }
    }
}

/// Reads the whole characters at the beginning of `bytes`; says how many bytes
/// they are and whether what follows is the beginning of one more.
fn read_characters(bytes: &[u8]) -> (read: (Vec<char>, usize, bool))
    ensures
        read.1 == valid_up_to(bytes@),
        read.0@ == decode_utf8(bytes@.take(read.1 as int)),
        read.2 == is_unfinished(bytes@.skip(read.1 as int)),
{
    let mut characters: Vec<char> = Vec::new();
    let mut at: usize = 0;
    assert(bytes@.take(0) =~= Seq::empty());
    assert(bytes@.skip(0) =~= bytes@);
    while at < bytes.len()
        invariant
            at <= bytes@.len(),
            valid_utf8(bytes@.take(at as int)),
            characters@ == decode_utf8(bytes@.take(at as int)),
            valid_up_to(bytes@) == at + valid_up_to(bytes@.skip(at as int)),
        decreases bytes@.len() - at,
    {
        let ghost rest = bytes@.skip(at as int);
        match first_scalar(bytes, at) {
            FirstScalar::Whole { len, point } => {
                proof {
                    let first = bytes@.subrange(at as int, at + len);
                    lemma_first_scalar_by_range(rest);
                    lemma_first_scalar_by_range(first);
                    assert(valid_first_scalar(first));
                    assert(pop_first_scalar(first) =~= Seq::empty());
                    assert(valid_utf8(pop_first_scalar(first)));
                    assert(decode_utf8(pop_first_scalar(first)) =~= Seq::empty());
                    assert(valid_utf8(first));
                    assert(decode_first_scalar(first) == point);
                    assert(decode_utf8(first) =~= seq![point as char]);
                    lemma_after_whole_characters(bytes@.take(at as int), first);
                    assert(bytes@.take(at as int) + first =~= bytes@.take(at + len));
                    assert(pop_first_scalar(rest) =~= bytes@.skip(at + len));
                }
                match char_from_u32(point) {
                    Some(character) => {
                        characters.push(character);
                        assert(characters@ =~= decode_utf8(bytes@.take(at + len)));
                    },
                    None => {
                        proof {
                            lemma_scalar_is_character(rest);
                        }
                    },
                }
                at = at + len;
            },
            FirstScalar::Unfinished => {
                return (characters, at, true);
            },
            FirstScalar::Invalid => {
                return (characters, at, false);
            },
        }
    }
    assert(bytes@.skip(at as int) =~= Seq::empty());
    (characters, at, false)
}

/// The number of a character is one.
proof fn lemma_scalar_is_character(bytes: Seq<u8>)
    requires
        valid_first_scalar(bytes),
    ensures
        decode_first_scalar(bytes) <= 0x10_ffff,
        !(0xd800 <= decode_first_scalar(bytes) <= 0xdfff),
{
    lemma_first_scalar_by_range(bytes);
    if bytes[0] <= 0x7f {
        let a = bytes[0];
        assert((a & 0x7f) as u32 <= 0x7f) by (bit_vector);
    } else if 0xc2 <= bytes[0] <= 0xdf {
        lemma_two_bytes(bytes[0], bytes[1]);
    } else if 0xe0 <= bytes[0] <= 0xef {
        let a = bytes[0];
        let b = bytes[1];
        let c = bytes[2];
        assert((((a & 0x0f) as u32) << 12) | (((b & 0x3f) as u32) << 6) | ((c & 0x3f) as u32)
            <= 0xffff) by (bit_vector);
    }
}

/// Takes `bytes` apart.
pub fn split_valid_utf8_prefix<'a>(bytes: &'a [u8]) -> (parts: Utf8PrefixSplit<'a>)
    ensures
        parts@ == split(bytes@),
{
    let (_, upto, unfinished) = read_characters(bytes);
    proof {
        lemma_whole_characters(bytes@);
    }
    if unfinished {
        let parts = Utf8PrefixSplit {
            valid: vstd::slice::slice_subrange(bytes, 0, upto),
            pending: vstd::slice::slice_subrange(bytes, upto, bytes.len()),
        };
        assert(parts.valid@ =~= bytes@.take(upto as int));
        assert(parts.pending@ =~= bytes@.skip(upto as int));
        parts
    } else {
        let parts = Utf8PrefixSplit {
            valid: bytes,
            pending: vstd::slice::slice_subrange(bytes, 0, 0),
        };
        assert(parts.pending@ =~= Seq::empty());
        parts
    }
}

/// The text that `bytes` are, where they are valid.
pub(crate) fn decode(bytes: &[u8]) -> (text: Option<Vec<char>>)
    ensures
        match text {
            Some(text) => valid_utf8(bytes@) && text@ == decode_utf8(bytes@),
            None => !valid_utf8(bytes@),
        },
{
    let (characters, upto, _) = read_characters(bytes);
    proof {
        lemma_whole_characters(bytes@);
    }
    if upto == bytes.len() {
        assert(bytes@.take(upto as int) =~= bytes@);
        Some(characters)
    } else {
        None
    }
}

/// Where valid text is cut off, whole characters remain and then nothing, or the
/// beginning of one more.
pub proof fn law_cut_off_text_ends_unfinished(bytes: Seq<u8>, more: Seq<u8>)
    requires
        valid_utf8(bytes + more),
    ensures
        ({
            let rest = bytes.skip(valid_up_to(bytes) as int);
            rest.len() == 0 || is_unfinished(rest)
        }),
        split(bytes).valid == bytes.take(valid_up_to(bytes) as int),
        split(bytes).pending == bytes.skip(valid_up_to(bytes) as int),
        valid_utf8(split(bytes).valid),
{
    let upto = valid_up_to(bytes) as int;
    let rest = bytes.skip(upto);
    let whole = bytes + more;
    lemma_whole_characters(bytes);
    lemma_after_whole_characters(bytes.take(upto), rest + more);
    assert(bytes.take(upto) + (rest + more) =~= whole);
    lemma_whole_characters(whole);
    lemma_whole_characters(rest + more);
    if rest.len() > 0 {
        assert(valid_first_scalar(rest + more));
        if length_of_first_scalar(rest + more) <= rest.len() {
            lemma_first_scalar_by_range(rest + more);
            lemma_first_scalar_by_range(rest);
            assert(valid_first_scalar(rest));
        }
        assert(is_unfinished(rest));
    } else {
        assert(bytes.take(upto) =~= bytes);
        assert(rest =~= Seq::empty());
    }
}

/// Taking bytes apart loses none of them, and what is kept apart is the beginning
/// of a character, of at most three bytes.
pub proof fn law_split_loses_no_byte(bytes: Seq<u8>)
    ensures
        split(bytes).valid + split(bytes).pending == bytes,
        split(bytes).pending.len() == 0 || is_unfinished(split(bytes).pending),
        split(bytes).pending.len() <= 3,
        valid_utf8(bytes) ==> split(bytes) == (Utf8Split { valid: bytes, pending: Seq::empty() }),
{
    let upto = valid_up_to(bytes) as int;
    lemma_whole_characters(bytes);
    lemma_unfinished_by_range(bytes.skip(upto));
    assert(split(bytes).valid + split(bytes).pending =~= bytes);
    if valid_utf8(bytes) {
        assert(bytes.skip(upto) =~= Seq::empty());
    }
}

/// The beginning of a character behind whole ones is kept apart, and only that.
pub proof fn law_unfinished_end_is_kept_apart(whole: Seq<u8>, unfinished: Seq<u8>)
    requires
        valid_utf8(whole),
        unfinished.len() == 0 || is_unfinished(unfinished),
    ensures
        split(whole + unfinished).valid == whole,
        split(whole + unfinished).pending == unfinished,
{
    let bytes = whole + unfinished;
    lemma_after_whole_characters(whole, unfinished);
    lemma_whole_characters(whole);
    if unfinished.len() > 0 {
        lemma_unfinished_by_range(unfinished);
        lemma_first_scalar_by_range(unfinished);
        assert(valid_up_to(unfinished) == 0);
    }
    assert(bytes.take(whole.len() as int) =~= whole);
    assert(bytes.skip(whole.len() as int) =~= unfinished);
    if unfinished.len() == 0 {
        assert(bytes =~= whole);
        assert(unfinished =~= Seq::empty());
    }
}

/// What counts as the beginning of a character can be made whole by more bytes,
/// which are given.
pub proof fn law_unfinished_character_can_be_finished(bytes: Seq<u8>) -> (more: Seq<u8>)
    requires
        is_unfinished(bytes),
    ensures
        valid_utf8(bytes + more),
{
    let any = choose|more: Seq<u8>|
        valid_first_scalar(#[trigger] (bytes + more)) && length_of_first_scalar(bytes + more)
            > bytes.len();
    let longer = bytes + any;
    lemma_first_scalar_by_range(longer);
    let len = length_of_first_scalar(longer) as int;
    let more = any.take(len - bytes.len());
    let one = bytes + more;
    assert(one =~= longer.take(len));
    lemma_first_scalar_by_range(one);
    assert(valid_first_scalar(one));
    assert(length_of_first_scalar(one) == len);
    assert(pop_first_scalar(one) =~= Seq::empty());
    assert(valid_utf8(pop_first_scalar(one)));
    more
}

} // verus!
