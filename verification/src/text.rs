//! Characters, numbers and strings.
use vstd::prelude::*;

verus! {

/// `char::from_u32`: the character with the given number; surrogates and
/// numbers above the last character have none.
#[verifier::external_body]
pub(crate) fn char_from_u32(number: u32) -> (character: Option<char>)
    ensures
        character == if 0xd800 <= number <= 0xdfff || number > 0x10ffff {
            None
        } else {
            Some(number as char)
        },
{
    char::from_u32(number)
}

/// `String::push` appends one character.
pub assume_specification[ String::push ](text: &mut String, character: char)
    ensures
        final(text)@ == old(text)@.push(character),
;

/// The characters of `text`.
pub(crate) fn chars_of(text: &str) -> (characters: Vec<char>)
    ensures
        characters@ == text@,
{
    let mut characters: Vec<char> = Vec::new();
    for character in iter: text.chars()
        invariant
            characters@ == iter.seq().take(iter.index()),
            iter.seq() == text@,
    {
        characters.push(character);
        assert(characters@ =~= iter.seq().take(iter.index() + 1));
    }
    assert(characters@ =~= text@);
    characters
}

/// Whether `characters` are those of `text`.
pub(crate) fn is_text(characters: &[char], text: &str) -> (same: bool)
    ensures
        same == (characters@ == text@),
{
    let other = chars_of(text);
    if characters.len() != other.len() {
        return false;
    }
    let mut i: usize = 0;
    while i < characters.len()
        invariant
            i <= characters@.len(),
            characters@.len() == other@.len(),
            other@ == text@,
            forall|j: int| 0 <= j < i ==> characters@[j] == other@[j],
        decreases characters@.len() - i,
    {
        if characters[i] != other[i] {
            assert(characters@[i as int] != text@[i as int]);
            return false;
        }
        i = i + 1;
    }
    assert(characters@ =~= text@);
    true
}

/// `character` in lower case where it is an ASCII letter.
pub open spec fn ascii_lower(character: char) -> char {
    if 'A' <= character <= 'Z' {
        (character as u32 + 32) as char
    } else {
        character
    }
}

/// `text` with its ASCII letters in lower case.
pub open spec fn ascii_lowercase(text: Seq<char>) -> Seq<char> {
    text.map_values(|character: char| ascii_lower(character))
}

/// `text` with its ASCII letters in lower case.
pub(crate) fn to_ascii_lowercase(text: &str) -> (lower: Vec<char>)
    ensures
        lower@ == ascii_lowercase(text@),
{
    let characters = chars_of(text);
    let mut lower: Vec<char> = Vec::new();
    let mut i: usize = 0;
    while i < characters.len()
        invariant
            i <= characters@.len(),
            characters@ == text@,
            lower@ == ascii_lowercase(text@.take(i as int)),
        decreases characters@.len() - i,
    {
        let character: char = characters[i];
        if 'A' <= character && character <= 'Z' {
            lower.push((character as u8 + 32) as char);
        } else {
            lower.push(character);
        }
        assert(lower@ =~= ascii_lowercase(text@.take(i + 1)));
        i = i + 1;
    }
    assert(text@.take(i as int) =~= text@);
    lower
}

/// The decimal digit `digit`.
pub open spec fn digit_char(digit: nat) -> char {
    (0x30 + digit) as char
}

/// `number` in decimal, without leading zeros.
pub open spec fn decimal_text(number: nat) -> Seq<char>
    decreases number,
{
    if number < 10 {
        seq![digit_char(number)]
    } else {
        decimal_text(number / 10).push(digit_char(number % 10))
    }
}

/// Appends `number` in decimal.
pub(crate) fn push_decimal(text: &mut String, number: u64)
    ensures
        final(text)@ == old(text)@ + decimal_text(number as nat),
    decreases number,
{
    let ghost before = text@;
    if number >= 10 {
        push_decimal(text, number / 10);
    }
    text.push(((number % 10) as u8 + 0x30) as char);
    assert(text@ =~= before + decimal_text(number as nat));
}

/// The hexadecimal digit `digit`, in lower case.
pub open spec fn hex_digit(digit: u8) -> char {
    if digit < 10 {
        (0x30 + digit) as char
    } else {
        (0x57 + digit) as char
    }
}

/// `byte` as two hexadecimal digits.
pub open spec fn hex_text(byte: u8) -> Seq<char> {
    seq![hex_digit(byte / 16), hex_digit(byte % 16)]
}

fn hex_digit_char(digit: u8) -> (character: char)
    requires
        digit < 16,
    ensures
        character == hex_digit(digit),
{
    if digit < 10 {
        (0x30 + digit) as char
    } else {
        (0x57 + digit) as char
    }
}

/// Appends `byte` as two hexadecimal digits.
pub(crate) fn push_hex(text: &mut String, byte: u8)
    ensures
        final(text)@ == old(text)@ + hex_text(byte),
{
    text.push(hex_digit_char(byte / 16));
    text.push(hex_digit_char(byte % 16));
    assert(text@ =~= old(text)@ + hex_text(byte));
}

/// Whether `character` is a decimal digit.
pub open spec fn is_decimal(character: char) -> bool {
    '0' <= character <= '9'
}

/// The number that the decimal digits `digits` write.
pub open spec fn decimal_value(digits: Seq<char>) -> nat
    decreases digits.len(),
{
    if digits.len() == 0 {
        0
    } else {
        10 * decimal_value(digits.drop_last()) + (digits.last() as u32 - 0x30) as nat
    }
}

/// The digits of `text`: what follows a plus sign, if it begins with one.
pub open spec fn unsigned_digits(text: Seq<char>) -> Seq<char> {
    if text.len() > 0 && text[0] == '+' {
        text.skip(1)
    } else {
        text
    }
}

/// The number that `text` writes, where it is one that fits: decimal digits, at
/// least one, perhaps after a plus sign.
pub open spec fn parsed_u64(text: Seq<char>) -> Option<u64> {
    let digits = unsigned_digits(text);
    if digits.len() > 0 && (forall|i: int|
        0 <= i < digits.len() ==> is_decimal(#[trigger] digits[i])) && decimal_value(digits)
        <= u64::MAX {
        Some(decimal_value(digits) as u64)
    } else {
        None
    }
}

proof fn lemma_decimal_value_grows(digits: Seq<char>, upto: int)
    requires
        0 <= upto <= digits.len(),
        forall|i: int| 0 <= i < digits.len() ==> is_decimal(#[trigger] digits[i]),
    ensures
        decimal_value(digits.take(upto)) <= decimal_value(digits),
    decreases digits.len() - upto,
{
    if upto < digits.len() {
        assert(digits.take(upto + 1).drop_last() =~= digits.take(upto));
        lemma_decimal_value_grows(digits, upto + 1);
    } else {
        assert(digits.take(upto) =~= digits);
    }
}

/// The number that `text` writes.
pub(crate) fn parse_u64(text: &str) -> (number: Option<u64>)
    ensures
        number == parsed_u64(text@),
{
    let characters = chars_of(text);
    let start: usize = if characters.len() > 0 && characters[0] == '+' {
        1
    } else {
        0
    };
    let ghost digits = unsigned_digits(text@);
    assert(digits =~= characters@.skip(start as int));
    if start == characters.len() {
        return None;
    }
    let mut number: u64 = 0;
    let mut i: usize = start;
    assert(digits.take(0) =~= Seq::empty());
    while i < characters.len()
        invariant
            start <= i <= characters@.len(),
            digits == unsigned_digits(text@),
            digits == characters@.skip(start as int),
            forall|j: int| 0 <= j < i - start ==> is_decimal(#[trigger] digits[j]),
            number == decimal_value(digits.take(i - start)),
        decreases characters@.len() - i,
    {
        let character: char = characters[i];
        assert(digits[i - start] == character);
        if character < '0' || character > '9' {
            return None;
        }
        let digit: u64 = (character as u8 - 0x30) as u64;
        assert(digits.take(i + 1 - start).drop_last() =~= digits.take(i - start));
        let wide: u128 = number as u128 * 10 + digit as u128;
        if wide > u64::MAX as u128 {
            proof {
                if forall|j: int| 0 <= j < digits.len() ==> is_decimal(#[trigger] digits[j]) {
                    lemma_decimal_value_grows(digits, i + 1 - start);
                }
            }
            return None;
        }
        number = wide as u64;
        i = i + 1;
    }
    assert(digits.take(i - start) =~= digits);
    Some(number)
}

/// A number that is written in decimal reads back as itself: in digits, at least
/// one, the first of which is a zero only in the number zero.
pub proof fn law_decimal_reads_back(number: nat)
    ensures
        decimal_value(decimal_text(number)) == number,
        decimal_text(number).len() > 0,
        forall|i: int|
            0 <= i < decimal_text(number).len() ==> '0' <= #[trigger] decimal_text(number)[i]
                <= '9',
        number > 0 ==> decimal_text(number)[0] != '0',
    decreases number,
{
    let text = decimal_text(number);
    if number < 10 {
        assert(text.drop_last() =~= Seq::empty());
        assert(decimal_value(text.drop_last()) == 0);
    } else {
        law_decimal_reads_back(number / 10);
        let before = decimal_text(number / 10);
        assert(text.drop_last() =~= before);
        assert forall|i: int| 0 <= i < text.len() implies '0' <= #[trigger] text[i] <= '9' by {
            if i < before.len() {
                assert(text[i] == before[i]);
            }
        }
        assert(text[0] == before[0]);
    }
}

/// One more digit behind a number makes it ten times as much and that digit more.
pub proof fn law_digits_count_from_the_right(digits: Seq<char>, digit: char)
    requires
        '0' <= digit <= '9',
    ensures
        decimal_value(Seq::empty()) == 0,
        decimal_value(digits.push(digit)) == 10 * decimal_value(digits) + (digit as u32
            - '0' as u32),
{
    assert(digits.push(digit).drop_last() =~= digits);
}

/// Digits are read as the number that they write where it fits, however many zeros
/// stand in front and whether or not a plus sign does.
pub proof fn law_digits_are_parsed(digits: Seq<char>)
    requires
        digits.len() > 0,
        forall|i: int| 0 <= i < digits.len() ==> '0' <= #[trigger] digits[i] <= '9',
    ensures
        decimal_value(digits) <= u64::MAX ==> parsed_u64(digits) == Some(
            decimal_value(digits) as u64,
        ) && parsed_u64(seq!['+'] + digits) == Some(decimal_value(digits) as u64),
        decimal_value(digits) > u64::MAX ==> parsed_u64(digits) is None && parsed_u64(
            seq!['+'] + digits,
        ) is None,
{
    assert forall|i: int| 0 <= i < digits.len() implies is_decimal(#[trigger] digits[i]) by {}
    assert('0' <= digits[0] <= '9');
    assert((seq!['+'] + digits).skip(1) =~= digits);
}

/// A number that fits is read back from its digits, with or without a plus sign.
pub proof fn law_written_number_is_parsed(number: u64)
    ensures
        parsed_u64(decimal_text(number as nat)) == Some(number),
        parsed_u64(seq!['+'] + decimal_text(number as nat)) == Some(number),
{
    law_decimal_reads_back(number as nat);
    law_digits_are_parsed(decimal_text(number as nat));
}

/// What is no number is not taken for one: nothing at all, anything but digits
/// behind at most one plus sign, and what is too large.
pub proof fn law_other_text_is_no_number(text: Seq<char>, i: int, number: nat)
    ensures
        parsed_u64(Seq::empty()) is None,
        parsed_u64(seq!['+']) is None,
        0 <= i < text.len() && !('0' <= text[i] <= '9') && !(i == 0 && text[0] == '+')
            ==> parsed_u64(text) is None,
        number > u64::MAX ==> parsed_u64(decimal_text(number)) is None,
{
    assert(seq!['+'].skip(1) =~= Seq::<char>::empty());
    let digits = unsigned_digits(text);
    if 0 <= i < text.len() && !('0' <= text[i] <= '9') && !(i == 0 && text[0] == '+') {
        if text[0] == '+' {
            assert(digits[i - 1] == text[i]);
        } else {
            assert(digits[i] == text[i]);
        }
    }
    law_decimal_reads_back(number);
    assert('0' <= decimal_text(number)[0] <= '9');
}

/// Lower case differs from the text only in the 26 letters, and there by the same
/// letter.
pub proof fn law_lower_case_changes_letters_only(text: Seq<char>, i: int)
    requires
        0 <= i < text.len(),
    ensures
        ascii_lowercase(text).len() == text.len(),
        !('A' <= text[i] <= 'Z') ==> ascii_lowercase(text)[i] == text[i],
        'A' <= text[i] <= 'Z' ==> 'a' <= ascii_lowercase(text)[i] <= 'z' && ascii_lowercase(
            text,
        )[i] as u32 - 'a' as u32 == text[i] as u32 - 'A' as u32,
        ascii_lowercase(ascii_lowercase(text)) == ascii_lowercase(text),
{
    assert(ascii_lowercase(ascii_lowercase(text)) =~= ascii_lowercase(text));
}

/// A byte is shown as the two digits that write it to the base sixteen.
pub proof fn law_hex_digits_write_the_byte(byte: u8, high: int, low: int)
    requires
        0 <= high < 16,
        0 <= low < 16,
        byte == 16 * high + low,
    ensures
        hex_text(byte) == seq!["0123456789abcdef"@[high], "0123456789abcdef"@[low]],
{
    reveal_strlit("0123456789abcdef");
    assert(byte / 16 == high && byte % 16 == low);
    assert(hex_text(byte) =~= seq!["0123456789abcdef"@[high], "0123456789abcdef"@[low]]);
}

} // verus!
