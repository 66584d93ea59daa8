//! Key reports of the kitty keyboard protocol: `ESC [ number ; modifiers u` and
//! its variants that end in `~` or a letter.
use crate::keys::{BareKey, KeyModifiers, KeyWithModifier};
use vstd::prelude::*;

verus! {

/// What a buffer of bytes amounts to.
#[derive(Debug, Clone, Copy, PartialEq, Eq, Structural)]
pub enum KittyParseOutcome {
    /// A whole key report.
    Complete(KeyWithModifier),
    /// The beginning of one.
    Incomplete,
    /// No key report.
    NoMatch,
}

/// Whether `byte` is an ASCII digit.
pub open spec fn is_digit(byte: u8) -> bool {
    0x30 <= byte <= 0x39
}

/// Whether `byte` can stand between the `[` and the last byte of a report: a
/// digit or the semicolon between the two numbers.
pub open spec fn is_parameter(byte: u8) -> bool {
    is_digit(byte) || byte == 0x3b
}

/// Whether `byte` ends a report: `u`, `~` or an upper-case letter.
pub open spec fn is_final(byte: u8) -> bool {
    byte == 0x75 || byte == 0x7e || 0x41 <= byte <= 0x5a
}

/// Whether all of `bytes` are parameters.
pub open spec fn all_parameters(bytes: Seq<u8>) -> bool {
    forall|i: int| 0 <= i < bytes.len() ==> is_parameter(#[trigger] bytes[i])
}

/// Whether `bytes` is the beginning of a report that lacks at least its end.
pub open spec fn is_report_start(bytes: Seq<u8>) -> bool {
    &&& bytes.len() >= 1 ==> bytes[0] == 0x1b
    &&& bytes.len() >= 2 ==> bytes[1] == 0x5b && all_parameters(bytes.skip(2))
}

/// Whether `bytes` has the shape of a whole report.
pub open spec fn is_report(bytes: Seq<u8>) -> bool {
    &&& bytes.len() >= 3
    &&& is_report_start(bytes.drop_last())
    &&& is_final(bytes.last())
}

/// Whether all of `bytes` are digits.
pub open spec fn all_digits(bytes: Seq<u8>) -> bool {
    forall|i: int| 0 <= i < bytes.len() ==> is_digit(#[trigger] bytes[i])
}

/// The number that the decimal digits `digits` write.
pub open spec fn decimal(digits: Seq<u8>) -> nat
    decreases digits.len(),
{
    if digits.len() == 0 {
        0
    } else {
        10 * decimal(digits.drop_last()) + (digits.last() - 0x30) as nat
    }
}

/// What a number in a report says: `Some(None)` where it is left out, `None`
/// where it is no number that a report can hold.
pub open spec fn report_number(digits: Seq<u8>) -> Option<Option<u32>> {
    if !all_digits(digits) || decimal(digits) > u32::MAX {
        None
    } else if digits.len() == 0 {
        Some(None)
    } else {
        Some(Some(decimal(digits) as u32))
    }
}

/// Where the first semicolon of `bytes` is, or their end.
pub open spec fn first_semicolon(bytes: Seq<u8>) -> int
    decreases bytes.len(),
{
    if bytes.len() == 0 || bytes[0] == 0x3b {
        0
    } else {
        1 + first_semicolon(bytes.drop_first())
    }
}

/// The modifiers that the second number of a report stands for: the number is
/// one more than the sum of 1 for Shift, 2 for Alt, 4 for Ctrl and 8 for Super;
/// four more bits stand for keys that are not looked at.
pub open spec fn modifiers_of(number: Option<u32>) -> Option<KeyModifiers> {
    let number: int = match number {
        Some(number) => number as int,
        None => 1,
    };
    if 1 <= number <= 256 {
        let bits = number - 1;
        Some(
            KeyModifiers {
                shift: bits % 2 == 1,
                alt: (bits / 2) % 2 == 1,
                ctrl: (bits / 4) % 2 == 1,
                super_key: (bits / 8) % 2 == 1,
            },
        )
    } else {
        None
    }
}

/// The key of a report that ends in `u`: four control codes, the keys that have
/// a number in the private use area, and the key that types the character with
/// that number.
pub open spec fn key_before_u(number: u32) -> Option<BareKey> {
    if number == 9 {
        Some(BareKey::Tab)
    } else if number == 13 || number == 57414 {
        Some(BareKey::Enter)
    } else if number == 27 {
        Some(BareKey::Esc)
    } else if number == 127 {
        Some(BareKey::Backspace)
    } else if number == 57358 {
        Some(BareKey::CapsLock)
    } else if number == 57359 {
        Some(BareKey::ScrollLock)
    } else if number == 57360 {
        Some(BareKey::NumLock)
    } else if number == 57361 {
        Some(BareKey::PrintScreen)
    } else if number == 57362 {
        Some(BareKey::Pause)
    } else if number == 57363 {
        Some(BareKey::Menu)
    } else if 57399 <= number <= 57408 {
        Some(BareKey::Char(((number - 57399) + 0x30) as char))
    } else if number == 57409 {
        Some(BareKey::Char('.'))
    } else if number == 57410 {
        Some(BareKey::Char('/'))
    } else if number == 57411 {
        Some(BareKey::Char('*'))
    } else if number == 57412 {
        Some(BareKey::Char('-'))
    } else if number == 57413 {
        Some(BareKey::Char('+'))
    } else if number == 57415 {
        Some(BareKey::Char('='))
    } else if number == 57416 {
        Some(BareKey::Char(','))
    } else if number == 57417 {
        Some(BareKey::Left)
    } else if number == 57418 {
        Some(BareKey::Right)
    } else if number == 57419 {
        Some(BareKey::Up)
    } else if number == 57420 {
        Some(BareKey::Down)
    } else if number == 57421 {
        Some(BareKey::PageUp)
    } else if number == 57422 {
        Some(BareKey::PageDown)
    } else if number == 57423 {
        Some(BareKey::Home)
    } else if number == 57424 {
        Some(BareKey::End)
    } else if number == 57425 {
        Some(BareKey::Insert)
    } else if number == 57426 {
        Some(BareKey::Delete)
    } else if 0xe000 <= number <= 0xf8ff || 0xd800 <= number <= 0xdfff || number > 0x10ffff {
        None
    } else {
        Some(BareKey::Char(number as char))
    }
}

/// The key of a report that ends in `~`.
pub open spec fn key_before_tilde(number: u32) -> Option<BareKey> {
    if number == 2 {
        Some(BareKey::Insert)
    } else if number == 3 {
        Some(BareKey::Delete)
    } else if number == 5 {
        Some(BareKey::PageUp)
    } else if number == 6 {
        Some(BareKey::PageDown)
    } else if number == 7 {
        Some(BareKey::Home)
    } else if number == 8 {
        Some(BareKey::End)
    } else if 11 <= number <= 15 {
        Some(BareKey::F((number - 10) as u8))
    } else if 17 <= number <= 21 {
        Some(BareKey::F((number - 11) as u8))
    } else if 23 <= number <= 24 {
        Some(BareKey::F((number - 12) as u8))
    } else {
        None
    }
}

/// The key of a report that ends in a letter.
pub open spec fn key_of_letter(letter: u8) -> Option<BareKey> {
    if letter == 0x41 {
        Some(BareKey::Up)
    } else if letter == 0x42 {
        Some(BareKey::Down)
    } else if letter == 0x43 {
        Some(BareKey::Right)
    } else if letter == 0x44 {
        Some(BareKey::Left)
    } else if letter == 0x46 {
        Some(BareKey::End)
    } else if letter == 0x48 {
        Some(BareKey::Home)
    } else if letter == 0x50 {
        Some(BareKey::F(1))
    } else if letter == 0x51 {
        Some(BareKey::F(2))
    } else if letter == 0x53 {
        Some(BareKey::F(4))
    } else {
        None
    }
}

/// The key that a report's first number and last byte stand for. A report that
/// ends in a letter has 1 for its number, or none.
pub open spec fn key_of(number: Option<u32>, end: u8) -> Option<BareKey> {
    match number {
        Some(number) => if end == 0x75 {
            key_before_u(number)
        } else if end == 0x7e {
            key_before_tilde(number)
        } else if number == 1 {
            key_of_letter(end)
        } else {
            None
        },
        None => if end == 0x75 || end == 0x7e {
            None
        } else {
            key_of_letter(end)
        },
    }
}

/// The key that a report stands for, given what is between its `[` and its last
/// byte, and that byte.
pub open spec fn reported_key(parameters: Seq<u8>, end: u8) -> Option<KeyWithModifier> {
    let split = first_semicolon(parameters);
    let modifiers = if split == parameters.len() {
        Seq::empty()
    } else {
        parameters.skip(split + 1)
    };
    match (report_number(parameters.take(split)), report_number(modifiers)) {
        (Some(number), Some(modifiers)) => match (key_of(number, end), modifiers_of(modifiers)) {
            (Some(bare_key), Some(key_modifiers)) => Some(
                KeyWithModifier { bare_key, key_modifiers },
            ),
            _ => None,
        },
        _ => None,
    }
}

/// What `bytes` amount to.
pub open spec fn outcome_of(bytes: Seq<u8>) -> KittyParseOutcome {
    if is_report_start(bytes) {
        KittyParseOutcome::Incomplete
    } else if is_report(bytes) {
        match reported_key(bytes.subrange(2, bytes.len() - 1), bytes.last()) {
            Some(key) => KittyParseOutcome::Complete(key),
            None => KittyParseOutcome::NoMatch,
        }
    } else {
        KittyParseOutcome::NoMatch
    }
}

fn exec_key_before_u(number: u32) -> (key: Option<BareKey>)
    ensures
        key == key_before_u(number),
{
    match number {
        9 => Some(BareKey::Tab),
        13 => Some(BareKey::Enter),
        57414 => Some(BareKey::Enter),
        27 => Some(BareKey::Esc),
        127 => Some(BareKey::Backspace),
        57358 => Some(BareKey::CapsLock),
        57359 => Some(BareKey::ScrollLock),
        57360 => Some(BareKey::NumLock),
        57361 => Some(BareKey::PrintScreen),
        57362 => Some(BareKey::Pause),
        57363 => Some(BareKey::Menu),
        57409 => Some(BareKey::Char('.')),
        57410 => Some(BareKey::Char('/')),
        57411 => Some(BareKey::Char('*')),
        57412 => Some(BareKey::Char('-')),
        57413 => Some(BareKey::Char('+')),
        57415 => Some(BareKey::Char('=')),
        57416 => Some(BareKey::Char(',')),
        57417 => Some(BareKey::Left),
        57418 => Some(BareKey::Right),
        57419 => Some(BareKey::Up),
        57420 => Some(BareKey::Down),
        57421 => Some(BareKey::PageUp),
        57422 => Some(BareKey::PageDown),
        57423 => Some(BareKey::Home),
        57424 => Some(BareKey::End),
        57425 => Some(BareKey::Insert),
        57426 => Some(BareKey::Delete),
        _ => {
            if 57399 <= number && number <= 57408 {
                let digit: u8 = (number - 57399) as u8 + 0x30;
                Some(BareKey::Char(digit as char))
            } else if 0xe000 <= number && number <= 0xf8ff {
                None
            } else {
                match crate::text::char_from_u32(number) {
                    Some(character) => Some(BareKey::Char(character)),
                    None => None,
                }
            }
        },
    }
}

fn exec_key_before_tilde(number: u32) -> (key: Option<BareKey>)
    ensures
        key == key_before_tilde(number),
{
    match number {
        2 => Some(BareKey::Insert),
        3 => Some(BareKey::Delete),
        5 => Some(BareKey::PageUp),
        6 => Some(BareKey::PageDown),
        7 => Some(BareKey::Home),
        8 => Some(BareKey::End),
        11 => Some(BareKey::F(1)),
        12 => Some(BareKey::F(2)),
        13 => Some(BareKey::F(3)),
        14 => Some(BareKey::F(4)),
        15 => Some(BareKey::F(5)),
        17 => Some(BareKey::F(6)),
        18 => Some(BareKey::F(7)),
        19 => Some(BareKey::F(8)),
        20 => Some(BareKey::F(9)),
        21 => Some(BareKey::F(10)),
        23 => Some(BareKey::F(11)),
        24 => Some(BareKey::F(12)),
        _ => None,
    }
}

fn exec_key_of_letter(letter: u8) -> (key: Option<BareKey>)
    ensures
        key == key_of_letter(letter),
{
    match letter {
        0x41 => Some(BareKey::Up),
        0x42 => Some(BareKey::Down),
        0x43 => Some(BareKey::Right),
        0x44 => Some(BareKey::Left),
        0x46 => Some(BareKey::End),
        0x48 => Some(BareKey::Home),
        0x50 => Some(BareKey::F(1)),
        0x51 => Some(BareKey::F(2)),
        0x53 => Some(BareKey::F(4)),
        _ => None,
    }
}

fn exec_key_of(number: Option<u32>, end: u8) -> (key: Option<BareKey>)
    ensures
        key == key_of(number, end),
{
    match number {
        Some(number) => {
            if end == 0x75 {
                exec_key_before_u(number)
            } else if end == 0x7e {
                exec_key_before_tilde(number)
            } else if number == 1 {
                exec_key_of_letter(end)
            } else {
                None
            }
        },
        None => {
            if end == 0x75 || end == 0x7e {
                None
            } else {
                exec_key_of_letter(end)
            }
        },
    }
}

fn exec_modifiers_of(number: Option<u32>) -> (modifiers: Option<KeyModifiers>)
    ensures
        modifiers == modifiers_of(number),
{
    let number: u32 = match number {
        Some(number) => number,
        None => 1,
    };
    if 1 <= number && number <= 256 {
        let bits: u32 = number - 1;
        Some(
            KeyModifiers {
                shift: bits % 2 == 1,
                alt: (bits / 2) % 2 == 1,
                ctrl: (bits / 4) % 2 == 1,
                super_key: (bits / 8) % 2 == 1,
            },
        )
    } else {
        None
    }
}

proof fn lemma_decimal_grows(digits: Seq<u8>, upto: int)
    requires
        0 <= upto <= digits.len(),
        all_digits(digits),
    ensures
        decimal(digits.take(upto)) <= decimal(digits),
    decreases digits.len() - upto,
{
    if upto < digits.len() {
        let longer = digits.take(upto + 1);
        assert(longer.drop_last() =~= digits.take(upto));
        lemma_decimal_grows(digits, upto + 1);
    } else {
        assert(digits.take(upto) =~= digits);
    }
}

/// Reads the number that `bytes` hold from `start` up to `end`.
fn exec_report_number(bytes: &[u8], start: usize, end: usize) -> (number: Option<Option<u32>>)
    requires
        start <= end <= bytes@.len(),
    ensures
        number == report_number(bytes@.subrange(start as int, end as int)),
{
    let ghost digits = bytes@.subrange(start as int, end as int);
    let mut value: u32 = 0;
    let mut i: usize = start;
    while i < end
        invariant
            start <= i <= end <= bytes@.len(),
            digits == bytes@.subrange(start as int, end as int),
            all_digits(digits.take(i - start)),
            value == decimal(digits.take(i - start)),
        decreases end - i,
    {
        let byte: u8 = bytes[i];
        assert(digits[i - start] == byte);
        if byte < 0x30 || byte > 0x39 {
            return None;
        }
        let ghost longer = digits.take(i + 1 - start);
        assert(longer.drop_last() =~= digits.take(i - start));
        assert forall|k: int| 0 <= k < longer.len() implies is_digit(#[trigger] longer[k]) by {
            if k < i - start {
                assert(longer[k] == digits.take(i - start)[k]);
            }
        }
        let digit: u32 = (byte - 0x30) as u32;
        let wide: u64 = value as u64 * 10 + digit as u64;
        if wide > u32::MAX as u64 {
            proof {
                if all_digits(digits) {
                    lemma_decimal_grows(digits, i + 1 - start);
                }
            }
            return None;
        }
        value = wide as u32;
        i = i + 1;
    }
    assert(digits.take(i - start) =~= digits);
    if start == end {
        Some(None)
    } else {
        Some(Some(value))
    }
}

proof fn lemma_first_semicolon_at(bytes: Seq<u8>, at: int)
    requires
        0 <= at <= bytes.len(),
        forall|i: int| 0 <= i < at ==> bytes[i] != 0x3b,
        at < bytes.len() ==> bytes[at] == 0x3b,
    ensures
        first_semicolon(bytes) == at,
    decreases at,
{
    if at > 0 {
        lemma_first_semicolon_at(bytes.drop_first(), at - 1);
    }
}

fn exec_reported_key(bytes: &[u8]) -> (key: Option<KeyWithModifier>)
    requires
        bytes@.len() >= 3,
    ensures
        key == reported_key(bytes@.subrange(2, bytes@.len() - 1), bytes@.last()),
{
    let last: usize = bytes.len() - 1;
    let ghost parameters = bytes@.subrange(2, last as int);
    let mut split: usize = 2;
    while split < last && bytes[split] != 0x3b
        invariant
            2 <= split <= last < bytes@.len(),
            parameters == bytes@.subrange(2, last as int),
            forall|i: int| 0 <= i < split - 2 ==> #[trigger] parameters[i] != 0x3b,
        decreases last - split,
    {
        assert(parameters[split - 2] == bytes@[split as int]);
        split = split + 1;
    }
    proof {
        if split < last {
            assert(parameters[split - 2] == bytes@[split as int]);
        }
        lemma_first_semicolon_at(parameters, split - 2);
        assert(parameters.take(split - 2) =~= bytes@.subrange(2, split as int));
    }
    let number = exec_report_number(bytes, 2, split);
    let modifiers = if split == last {
        assert(bytes@.subrange(last as int, last as int) =~= Seq::<u8>::empty());
        exec_report_number(bytes, last, last)
    } else {
        assert(parameters.skip(split - 1) =~= bytes@.subrange(split + 1, last as int));
        exec_report_number(bytes, split + 1, last)
    };
    match (number, modifiers) {
        (Some(number), Some(modifiers)) => match (
            exec_key_of(number, bytes[last]),
            exec_modifiers_of(modifiers),
        ) {
            (Some(bare_key), Some(key_modifiers)) => Some(
                KeyWithModifier { bare_key, key_modifiers },
            ),
            _ => None,
        },
        _ => None,
    }
}

/// Reads key reports out of byte buffers.
pub struct KittyKeyboardParser {}

impl KittyKeyboardParser {
    /// A parser.
    pub fn new() -> (parser: Self) {
        KittyKeyboardParser {  }
    }

    /// Tells what `bytes` amount to.
    pub fn feed(&self, bytes: &[u8]) -> (outcome: KittyParseOutcome)
        ensures
            outcome == outcome_of(bytes@),
    {
        let length: usize = bytes.len();
        if length == 0 {
            return KittyParseOutcome::Incomplete;
        }
        if bytes[0] != 0x1b {
            return KittyParseOutcome::NoMatch;
        }
        if length == 1 {
            return KittyParseOutcome::Incomplete;
        }
        if bytes[1] != 0x5b {
            assert(length >= 3 ==> bytes@.drop_last()[1] != 0x5b);
            return KittyParseOutcome::NoMatch;
        }
        let mut i: usize = 2;
        while i < length && (bytes[i] == 0x3b || (0x30 <= bytes[i] && bytes[i] <= 0x39))
            invariant
                2 <= i <= length,
                length == bytes@.len(),
                forall|k: int| 2 <= k < i ==> is_parameter(#[trigger] bytes@[k]),
            decreases length - i,
        {
            i = i + 1;
        }
        if i == length {
            return KittyParseOutcome::Incomplete;
        }
        assert(bytes@.skip(2)[i - 2] == bytes@[i as int]);
        assert(!is_report_start(bytes@));
        let end: u8 = bytes[i];
        if i != length - 1 {
            assert(bytes@.drop_last().skip(2)[i - 2] == bytes@[i as int]);
            return KittyParseOutcome::NoMatch;
        }
        if end != 0x75 && end != 0x7e && (end < 0x41 || end > 0x5a) {
            return KittyParseOutcome::NoMatch;
        }
        assert(is_report(bytes@));
        match exec_reported_key(bytes) {
            Some(key) => KittyParseOutcome::Complete(key),
            None => KittyParseOutcome::NoMatch,
        }
    }
}

/// Digits write a number from left to right: one more digit makes it ten times as
/// much and that digit more.
pub proof fn law_report_digits_write_a_number(digits: Seq<u8>, digit: u8)
    requires
        0x30 <= digit <= 0x39,
    ensures
        decimal(Seq::empty()) == 0,
        decimal(digits.push(digit)) == 10 * decimal(digits) + (digit - 0x30),
{
    assert(digits.push(digit).drop_last() =~= digits);
}

/// A number in a report is what its digits write, where it fits, or left out;
/// anything else is none.
pub proof fn law_report_number_is_what_its_digits_write(digits: Seq<u8>)
    ensures
        digits.len() == 0 ==> report_number(digits) == Some(None::<u32>),
        digits.len() > 0 && (forall|i: int|
            0 <= i < digits.len() ==> 0x30 <= #[trigger] digits[i] <= 0x39) && decimal(digits)
            <= u32::MAX ==> report_number(digits) == Some(Some(decimal(digits) as u32)),
        decimal(digits) > u32::MAX ==> report_number(digits) is None,
        (exists|i: int| 0 <= i < digits.len() && !(0x30 <= #[trigger] digits[i] <= 0x39))
            ==> report_number(digits) is None,
{
    if exists|i: int| 0 <= i < digits.len() && !(0x30 <= #[trigger] digits[i] <= 0x39) {
        let i = choose|i: int| 0 <= i < digits.len() && !(0x30 <= #[trigger] digits[i] <= 0x39);
        assert(!is_digit(digits[i]));
    } else {
        assert forall|i: int| 0 <= i < digits.len() implies is_digit(#[trigger] digits[i]) by {}
    }
}

/// A whole report stands for the key that its number and its last byte name, with
/// the modifiers that its second number names; where either names nothing, it is
/// none.
pub proof fn law_report_names_key_and_modifiers(
    number: Seq<u8>,
    modifiers: Seq<u8>,
    end: u8,
)
    requires
        forall|i: int| 0 <= i < number.len() ==> 0x30 <= #[trigger] number[i] <= 0x39,
        forall|i: int| 0 <= i < modifiers.len() ==> 0x30 <= #[trigger] modifiers[i] <= 0x39,
        decimal(number) <= u32::MAX,
        decimal(modifiers) <= u32::MAX,
        end == 0x75 || end == 0x7e || 0x41 <= end <= 0x5a,
    ensures
        ({
            let first = if number.len() == 0 {
                None
            } else {
                Some(decimal(number) as u32)
            };
            let second = if modifiers.len() == 0 {
                None
            } else {
                Some(decimal(modifiers) as u32)
            };
            let with_modifiers = seq![0x1bu8, 0x5bu8] + number + seq![0x3bu8] + modifiers + seq![
                end,
            ];
            let without = seq![0x1bu8, 0x5bu8] + number + seq![end];
            &&& match (key_of(first, end), modifiers_of(second)) {
                (Some(bare_key), Some(key_modifiers)) => outcome_of(with_modifiers)
                    == KittyParseOutcome::Complete(KeyWithModifier { bare_key, key_modifiers }),
                _ => outcome_of(with_modifiers) == KittyParseOutcome::NoMatch,
            }
            &&& match key_of(first, end) {
                Some(bare_key) => outcome_of(without) == KittyParseOutcome::Complete(
                    KeyWithModifier {
                        bare_key,
                        key_modifiers: KeyModifiers {
                            ctrl: false,
                            alt: false,
                            shift: false,
                            super_key: false,
                        },
                    },
                ),
                None => outcome_of(without) == KittyParseOutcome::NoMatch,
            }
        }),
{
    law_report_number_is_what_its_digits_write(number);
    law_report_number_is_what_its_digits_write(modifiers);
    let with_modifiers = seq![0x1bu8, 0x5bu8] + number + seq![0x3bu8] + modifiers + seq![end];
    let parameters = with_modifiers.subrange(2, with_modifiers.len() - 1);
    let split = number.len() as int;
    assert(parameters =~= number + seq![0x3bu8] + modifiers);
    lemma_whole_report(parameters, end);
    assert(seq![0x1bu8, 0x5bu8] + parameters + seq![end] =~= with_modifiers);
    lemma_first_semicolon_at(parameters, split);
    assert(parameters.take(split) =~= number);
    assert(parameters.skip(split + 1) =~= modifiers);
    let without = seq![0x1bu8, 0x5bu8] + number + seq![end];
    assert(without.subrange(2, without.len() - 1) =~= number);
    lemma_whole_report(number, end);
    lemma_first_semicolon_at(number, split);
    assert(number.take(split) =~= number);
    assert(decimal(Seq::<u8>::empty()) == 0);
    law_report_number_is_what_its_digits_write(Seq::empty());
}

proof fn lemma_whole_report(parameters: Seq<u8>, end: u8)
    requires
        forall|i: int|
            0 <= i < parameters.len() ==> 0x30 <= #[trigger] parameters[i] <= 0x39
                || parameters[i] == 0x3b,
        end == 0x75 || end == 0x7e || 0x41 <= end <= 0x5a,
    ensures
        ({
            let report = seq![0x1bu8, 0x5bu8] + parameters + seq![end];
            &&& !is_report_start(report)
            &&& is_report(report)
            &&& report.last() == end
        }),
{
    let report = seq![0x1bu8, 0x5bu8] + parameters + seq![end];
    assert(report.drop_last().skip(2) =~= parameters);
    assert(report.skip(2)[report.len() - 3] == end);
    assert(!is_parameter(end));
    assert(!all_parameters(report.skip(2)));
    assert forall|i: int| 0 <= i < parameters.len() implies is_parameter(
        #[trigger] parameters[i],
    ) by {}
}

/// The beginning of a report is told from what can never become one: an escape, a
/// bracket, then digits and semicolons.
pub proof fn law_beginning_of_a_report_is_incomplete(parameters: Seq<u8>, bytes: Seq<u8>, at: int)
    ensures
        outcome_of(Seq::empty()) == KittyParseOutcome::Incomplete,
        outcome_of(seq![0x1bu8]) == KittyParseOutcome::Incomplete,
        (forall|i: int|
            0 <= i < parameters.len() ==> 0x30 <= #[trigger] parameters[i] <= 0x39
                || parameters[i] == 0x3b) ==> outcome_of(seq![0x1bu8, 0x5bu8] + parameters)
            == KittyParseOutcome::Incomplete,
        bytes.len() > 0 && bytes[0] != 0x1b ==> outcome_of(bytes) == KittyParseOutcome::NoMatch,
        bytes.len() > 1 && bytes[1] != 0x5b ==> outcome_of(bytes) == KittyParseOutcome::NoMatch,
        2 <= at < bytes.len() - 1 && !(0x30 <= bytes[at] <= 0x39) && bytes[at] != 0x3b
            ==> outcome_of(bytes) == KittyParseOutcome::NoMatch,
        bytes.len() >= 3 && !(0x30 <= bytes.last() <= 0x39) && bytes.last() != 0x3b && bytes.last()
            != 0x75 && bytes.last() != 0x7e && !(0x41 <= bytes.last() <= 0x5a) ==> outcome_of(bytes)
            == KittyParseOutcome::NoMatch,
{
    let begun = seq![0x1bu8, 0x5bu8] + parameters;
    assert(begun.skip(2) =~= parameters);
    if forall|i: int|
        0 <= i < parameters.len() ==> 0x30 <= #[trigger] parameters[i] <= 0x39 || parameters[i]
            == 0x3b {
        assert forall|i: int| 0 <= i < parameters.len() implies is_parameter(
            #[trigger] parameters[i],
        ) by {}
    }
    if bytes.len() > 1 && bytes[1] != 0x5b {
        assert(bytes.len() > 2 ==> bytes.drop_last()[1] == bytes[1]);
    }
    if bytes.len() >= 3 {
        let last = bytes.len() - 3;
        assert(bytes.skip(2)[last] == bytes.last());
        assert(bytes.drop_last()[0] == bytes[0]);
        if 2 <= at < bytes.len() - 1 && !(0x30 <= bytes[at] <= 0x39) && bytes[at] != 0x3b {
            assert(bytes.skip(2)[at - 2] == bytes[at]);
            assert(bytes.drop_last().skip(2)[at - 2] == bytes[at]);
            assert(!is_parameter(bytes[at]));
        }
    }
}

/// The second number of a report is one more than the sum of 1 for Shift, 2 for
/// Alt, 4 for Ctrl, 8 for Super and what four other keys add; left out, it names no
/// modifier.
pub proof fn law_modifiers_add_up(held: KeyModifiers, others: int)
    requires
        0 <= others < 16,
    ensures
        ({
            let sum = (if held.shift {
                1int
            } else {
                0
            }) + (if held.alt {
                2int
            } else {
                0
            }) + (if held.ctrl {
                4int
            } else {
                0
            }) + (if held.super_key {
                8int
            } else {
                0
            }) + 16 * others;
            modifiers_of(Some((sum + 1) as u32)) == Some(held)
        }),
        modifiers_of(None) == Some(
            KeyModifiers { ctrl: false, alt: false, shift: false, super_key: false },
        ),
        modifiers_of(Some(0)) is None,
        forall|number: u32| number > 256 ==> #[trigger] modifiers_of(Some(number)) is None,
{
}

/// A report that ends in `u` names a key by the character that it types; the
/// characters of Tab, Enter, Escape and Backspace name these. No character of the
/// private use area is typed, and a number that is no character names nothing.
pub proof fn law_character_names_its_key(character: char, number: u32)
    ensures
        key_of(Some(9), 0x75) == Some(BareKey::Tab),
        key_of(Some(13), 0x75) == Some(BareKey::Enter),
        key_of(Some(27), 0x75) == Some(BareKey::Esc),
        key_of(Some(127), 0x75) == Some(BareKey::Backspace),
        character as u32 != 9 && character as u32 != 13 && character as u32 != 27
            && character as u32 != 127 && !(0xe000 <= character as u32 <= 0xf8ff) ==> key_of(
            Some(character as u32),
            0x75,
        ) == Some(BareKey::Char(character)),
        number > 0x10ffff || 0xd800 <= number <= 0xdfff ==> key_of(Some(number), 0x75) is None,
        0xe000 <= number < 57358 || 57363 < number < 57399 || 57426 < number <= 0xf8ff ==> key_of(
            Some(number),
            0x75,
        ) is None,
        key_of(None, 0x75) is None,
{
}

/// The numbers of the private use area that name a key: six keys of their own, and
/// the number pad, which types what stands on it.
pub proof fn law_private_numbers_name_their_keys(digit: int)
    requires
        0 <= digit < 10,
    ensures
        ({
            let own = seq![
                BareKey::CapsLock,
                BareKey::ScrollLock,
                BareKey::NumLock,
                BareKey::PrintScreen,
                BareKey::Pause,
                BareKey::Menu,
            ];
            let pad = seq![
                BareKey::Char('.'),
                BareKey::Char('/'),
                BareKey::Char('*'),
                BareKey::Char('-'),
                BareKey::Char('+'),
                BareKey::Enter,
                BareKey::Char('='),
                BareKey::Char(','),
                BareKey::Left,
                BareKey::Right,
                BareKey::Up,
                BareKey::Down,
                BareKey::PageUp,
                BareKey::PageDown,
                BareKey::Home,
                BareKey::End,
                BareKey::Insert,
                BareKey::Delete,
            ];
            &&& forall|i: int|
                0 <= i < own.len() ==> key_of(Some((57358 + i) as u32), 0x75) == Some(
                    #[trigger] own[i],
                )
            &&& forall|i: int|
                0 <= i < pad.len() ==> key_of(Some((57409 + i) as u32), 0x75) == Some(
                    #[trigger] pad[i],
                )
            &&& key_of(Some((57399 + digit) as u32), 0x75) == Some(
                BareKey::Char("0123456789"@[digit]),
            )
        }),
{
    reveal_strlit("0123456789");
}

/// A report that ends in `~` names the six keys above the arrows and the function
/// keys from F1 to F12, between whose numbers 16 and 22 are left out.
pub proof fn law_tilde_names_editing_and_function_keys(n: int, number: u32)
    requires
        1 <= n <= 12,
    ensures
        key_of(
            Some(
                (if n <= 5 {
                    10 + n
                } else if n <= 10 {
                    11 + n
                } else {
                    12 + n
                }) as u32,
            ),
            0x7e,
        ) == Some(BareKey::F(n as u8)),
        key_of(Some(2), 0x7e) == Some(BareKey::Insert),
        key_of(Some(3), 0x7e) == Some(BareKey::Delete),
        key_of(Some(5), 0x7e) == Some(BareKey::PageUp),
        key_of(Some(6), 0x7e) == Some(BareKey::PageDown),
        key_of(Some(7), 0x7e) == Some(BareKey::Home),
        key_of(Some(8), 0x7e) == Some(BareKey::End),
        number < 2 || number == 4 || 8 < number < 11 || number == 16 || number == 22 || number > 24
            ==> key_of(Some(number), 0x7e) is None,
        key_of(None, 0x7e) is None,
{
}

/// A report that ends in an upper-case letter names an arrow, Home, End or one of
/// three function keys by that letter, with the number 1 or none.
pub proof fn law_letter_names_its_key(letter: u8, number: u32)
    requires
        0x41 <= letter <= 0x5a,
    ensures
        key_of(Some(1), letter) == key_of(None, letter),
        number != 1 ==> key_of(Some(number), letter) is None,
        letter == 'A' as u8 ==> key_of(None, letter) == Some(BareKey::Up),
        letter == 'B' as u8 ==> key_of(None, letter) == Some(BareKey::Down),
        letter == 'C' as u8 ==> key_of(None, letter) == Some(BareKey::Right),
        letter == 'D' as u8 ==> key_of(None, letter) == Some(BareKey::Left),
        letter == 'F' as u8 ==> key_of(None, letter) == Some(BareKey::End),
        letter == 'H' as u8 ==> key_of(None, letter) == Some(BareKey::Home),
        letter == 'P' as u8 ==> key_of(None, letter) == Some(BareKey::F(1)),
        letter == 'Q' as u8 ==> key_of(None, letter) == Some(BareKey::F(2)),
        letter == 'S' as u8 ==> key_of(None, letter) == Some(BareKey::F(4)),
        letter == 0x45 || letter == 0x47 || 0x48 < letter < 0x50 || letter == 0x52 || letter > 0x53
            ==> key_of(None, letter) is None,
{
}

/// A report has no more than two numbers, and each fits: with another semicolon, or
/// a number that is too large, it stands for no key.
pub proof fn law_report_has_two_numbers_that_fit(
    number: Seq<u8>,
    rest: Seq<u8>,
    end: u8,
    at: int,
)
    requires
        forall|i: int| 0 <= i < number.len() ==> 0x30 <= #[trigger] number[i] <= 0x39,
        forall|i: int|
            0 <= i < rest.len() ==> 0x30 <= #[trigger] rest[i] <= 0x39 || rest[i] == 0x3b,
        end == 0x75 || end == 0x7e || 0x41 <= end <= 0x5a,
        0 <= at < rest.len() && rest[at] == 0x3b || decimal(number) > u32::MAX || decimal(rest)
            > u32::MAX,
    ensures
        outcome_of(seq![0x1bu8, 0x5bu8] + number + seq![0x3bu8] + rest + seq![end])
            == KittyParseOutcome::NoMatch,
{
    let report = seq![0x1bu8, 0x5bu8] + number + seq![0x3bu8] + rest + seq![end];
    let parameters = report.subrange(2, report.len() - 1);
    let split = number.len() as int;
    assert(parameters =~= number + seq![0x3bu8] + rest);
    lemma_whole_report(parameters, end);
    assert(seq![0x1bu8, 0x5bu8] + parameters + seq![end] =~= report);
    lemma_first_semicolon_at(parameters, split);
    assert(parameters.take(split) =~= number);
    assert(parameters.skip(split + 1) =~= rest);
    law_report_number_is_what_its_digits_write(number);
    law_report_number_is_what_its_digits_write(rest);
    if 0 <= at < rest.len() && rest[at] == 0x3b {
        assert(!is_digit(rest[at]));
    }
}

} // verus!
