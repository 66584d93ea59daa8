//! UTF-16, which Windows takes and gives text in.
use crate::text::chars_of;
use vstd::prelude::*;

verus! {

/// `character` in UTF-16: one unit, or a high and a low surrogate.
pub open spec fn units_of_char(character: char) -> Seq<u16> {
    let number = character as u32;
    if number < 0x1_0000 {
        seq![number as u16]
    } else {
        seq![
            (0xd800 + (number - 0x1_0000) / 0x400) as u16,
            (0xdc00 + (number - 0x1_0000) % 0x400) as u16,
        ]
    }
}

/// `text` in UTF-16.
pub open spec fn units_of(text: Seq<char>) -> Seq<u16>
    decreases text.len(),
{
    if text.len() == 0 {
        Seq::empty()
    } else {
        units_of(text.drop_last()) + units_of_char(text.last())
    }
}

/// Whether `unit` is a high surrogate.
pub open spec fn is_high(unit: u16) -> bool {
    0xd800 <= unit < 0xdc00
}

/// Whether `unit` is a low surrogate.
pub open spec fn is_low(unit: u16) -> bool {
    0xdc00 <= unit < 0xe000
}

/// The text that `units` write in UTF-16, where they write one.
pub open spec fn text_of(units: Seq<u16>) -> Option<Seq<char>>
    decreases units.len(),
{
    if units.len() == 0 {
        Some(Seq::empty())
    } else if !is_high(units[0]) && !is_low(units[0]) {
        match text_of(units.skip(1)) {
            Some(rest) => Some(seq![units[0] as char] + rest),
            None => None,
        }
    } else if is_high(units[0]) && units.len() > 1 && is_low(units[1]) {
        match text_of(units.skip(2)) {
            Some(rest) => Some(
                seq![
                    (0x1_0000 + (units[0] - 0xd800) * 0x400 + (units[1] - 0xdc00)) as char,
                ] + rest,
            ),
            None => None,
        }
    } else {
        None
    }
}

/// Appends `character` in UTF-16.
pub(crate) fn push_units(units: &mut Vec<u16>, character: char)
    ensures
        final(units)@ == old(units)@ + units_of_char(character),
{
    let number: u32 = character as u32;
    if number < 0x1_0000 {
        units.push(number as u16);
    } else {
        let rest: u32 = number - 0x1_0000;
        units.push((0xd800 + rest / 0x400) as u16);
        units.push((0xdc00 + rest % 0x400) as u16);
    }
    assert(units@ =~= old(units)@ + units_of_char(character));
}

/// Appends `text` in UTF-16.
pub(crate) fn push_text(units: &mut Vec<u16>, text: &str)
    ensures
        final(units)@ == old(units)@ + units_of(text@),
{
    let ghost before = units@;
    let characters = chars_of(text);
    let mut i: usize = 0;
    assert(units@ =~= before + units_of(text@.take(0)));
    while i < characters.len()
        invariant
            i <= characters@.len(),
            characters@ == text@,
            units@ == before + units_of(text@.take(i as int)),
        decreases characters@.len() - i,
    {
        push_units(units, characters[i]);
        assert(text@.take(i + 1).drop_last() =~= text@.take(i as int));
        assert(units@ =~= before + units_of(text@.take(i + 1)));
        i = i + 1;
    }
    assert(text@.take(i as int) =~= text@);
}

/// `text` in UTF-16.
pub fn encode_utf16(text: &str) -> (units: Vec<u16>)
    ensures
        units@ == units_of(text@),
{
    let mut units: Vec<u16> = Vec::new();
    push_text(&mut units, text);
    assert(units@ =~= units_of(text@));
    units
}

/// `text` in UTF-16, with the zero that ends it.
pub fn to_wide(text: &str) -> (units: Vec<u16>)
    ensures
        units@ == units_of(text@).push(0),
{
    let mut units = encode_utf16(text);
    units.push(0);
    units
}

proof fn lemma_first_char_is_read(character: char, rest: Seq<u16>)
    ensures
        text_of(units_of_char(character) + rest) == match text_of(rest) {
            Some(text) => Some(seq![character] + text),
            None => None,
        },
{
    let number = character as u32;
    let units = units_of_char(character) + rest;
    if number < 0x1_0000 {
        assert(units[0] == number as u16);
        assert(units.skip(1) =~= rest);
        assert(units[0] as char == character);
    } else {
        let above = number - 0x1_0000;
        assert(units[0] == (0xd800 + above / 0x400) as u16);
        assert(units[1] == (0xdc00 + above % 0x400) as u16);
        assert(above / 0x400 * 0x400 + above % 0x400 == above);
        assert(above < 0x10_0000);
        assert(above / 0x400 < 0x400);
        assert(units.skip(2) =~= rest);
        assert((0x1_0000 + (units[0] - 0xd800) * 0x400 + (units[1] - 0xdc00)) as char == character);
    }
}

proof fn lemma_units_of_first(text: Seq<char>)
    requires
        text.len() > 0,
    ensures
        units_of(text) == units_of_char(text[0]) + units_of(text.skip(1)),
    decreases text.len(),
{
    if text.len() == 1 {
        assert(text.drop_last() =~= Seq::empty());
        assert(text.skip(1) =~= Seq::empty());
        assert(units_of(text) =~= units_of_char(text[0]) + units_of(text.skip(1)));
    } else {
        lemma_units_of_first(text.drop_last());
        assert(text.skip(1).drop_last() =~= text.drop_last().skip(1));
        assert(units_of(text) =~= units_of_char(text[0]) + units_of(text.skip(1)));
    }
}

/// Text that is written in UTF-16 reads back as itself.
pub proof fn law_utf16_reads_back(text: Seq<char>)
    ensures
        text_of(units_of(text)) == Some(text),
    decreases text.len(),
{
    if text.len() > 0 {
        law_utf16_reads_back(text.skip(1));
        lemma_units_of_first(text);
        lemma_first_char_is_read(text[0], units_of(text.skip(1)));
        assert(seq![text[0]] + text.skip(1) =~= text);
    } else {
        assert(text =~= Seq::empty());
    }
}

/// UTF-16 of two texts, one after the other, is that of the joined text.
pub proof fn law_utf16_of_joined_text(first: Seq<char>, second: Seq<char>)
    ensures
        units_of(first + second) == units_of(first) + units_of(second),
    decreases second.len(),
{
    if second.len() == 0 {
        assert(first + second =~= first);
        assert(units_of(first) + units_of(second) =~= units_of(first));
    } else {
        law_utf16_of_joined_text(first, second.drop_last());
        assert((first + second).drop_last() =~= first + second.drop_last());
        assert(units_of(first + second) =~= units_of(first) + units_of(second));
    }
}

proof fn lemma_char_has_no_stray_zero(character: char)
    requires
        character != '\0',
    ensures
        forall|i: int|
            0 <= i < units_of_char(character).len() ==> #[trigger] units_of_char(character)[i] != 0,
        units_of_char(character).len() >= 1,
{
    let number = character as u32;
    assert(number >= 0x1_0000 ==> (number - 0x1_0000) / 0x400 < 0x400);
}

/// Text without the zero character has no zero in UTF-16, so that a zero can end
/// it; and only the empty text is nothing in UTF-16.
pub proof fn law_utf16_has_no_stray_zero(text: Seq<char>)
    requires
        forall|i: int| 0 <= i < text.len() ==> #[trigger] text[i] != '\0',
    ensures
        forall|i: int| 0 <= i < units_of(text).len() ==> #[trigger] units_of(text)[i] != 0,
        units_of(text).len() >= text.len(),
    decreases text.len(),
{
    if text.len() > 0 {
        let before = text.drop_last();
        assert forall|i: int| 0 <= i < before.len() implies #[trigger] before[i] != '\0' by {
            assert(before[i] == text[i]);
        }
        law_utf16_has_no_stray_zero(before);
        let last = units_of_char(text.last());
        assert(text[text.len() - 1] != '\0');
        lemma_char_has_no_stray_zero(text.last());
        assert forall|i: int| 0 <= i < units_of(text).len() implies #[trigger] units_of(text)[i]
            != 0 by {
            if i < units_of(before).len() {
                assert(units_of(text)[i] == units_of(before)[i]);
            } else {
                assert(units_of(text)[i] == last[i - units_of(before).len()]);
            }
        }
    }
}

/// A character of the first plane is one unit, its number; any other is a high and a
/// low surrogate, which hold the upper and the lower ten bits of what its number is
/// above that plane.
pub proof fn law_character_is_one_unit_or_two(character: char)
    ensures
        (character as u32) < 0x1_0000 ==> units_of_char(character).len() == 1 && units_of_char(
            character,
        )[0] == character as u32,
        character as u32 >= 0x1_0000 ==> {
            let units = units_of_char(character);
            &&& units.len() == 2
            &&& 0xd800 <= units[0] <= 0xdbff
            &&& 0xdc00 <= units[1] <= 0xdfff
            &&& 0x1_0000 + 0x400 * (units[0] - 0xd800) + (units[1] - 0xdc00) == character as u32
        },
{
    let number = character as u32;
    if number >= 0x1_0000 {
        let above = number - 0x1_0000;
        assert(above < 0x10_0000);
        assert(above / 0x400 < 0x400);
        assert(above / 0x400 * 0x400 + above % 0x400 == above);
    }
}

/// Text in UTF-16 is that of its characters, one after the other, and each of them
/// leaves something.
pub proof fn law_every_character_is_written(text: Seq<char>)
    ensures
        units_of(Seq::empty()) == Seq::<u16>::empty(),
        units_of(text).len() >= text.len(),
        forall|character: char|
            units_of(#[trigger] text.push(character)) == units_of(text) + units_of_char(character),
    decreases text.len(),
{
    assert forall|character: char| units_of(#[trigger] text.push(character)) == units_of(text)
        + units_of_char(character) by {
        assert(text.push(character).drop_last() =~= text);
    }
    if text.len() > 0 {
        law_every_character_is_written(text.drop_last());
    }
}

} // verus!
