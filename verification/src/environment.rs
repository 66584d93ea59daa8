//! The environment block of a new process.
use crate::text::{chars_of, is_text, push_decimal};
use crate::utf16::push_text;
use vstd::prelude::*;

verus! {

/// The value of some environment variables: their names and values.
pub open spec fn variable_values(variables: Seq<(String, String)>) -> Seq<(Seq<char>, Seq<char>)> {
    variables.map_values(|variable: (String, String)| (variable.0@, variable.1@))
}

/// The entry of the variable `name` with the value `value`.
pub open spec fn entry(name: Seq<char>, value: Seq<char>) -> Seq<char> {
    name + "="@ + value
}

/// The entries of `variables`, but for the one that tells a process which pane it
/// runs in.
pub open spec fn passed_on(variables: Seq<(Seq<char>, Seq<char>)>) -> Seq<Seq<char>>
    decreases variables.len(),
{
    if variables.len() == 0 {
        Seq::empty()
    } else if variables.last().0 == "ZELLIJ_PANE_ID"@ {
        passed_on(variables.drop_last())
    } else {
        passed_on(variables.drop_last()).push(entry(variables.last().0, variables.last().1))
    }
}

/// The entry that tells a process that it runs in the pane `terminal_id`.
pub open spec fn pane_entry(terminal_id: u32) -> Seq<char> {
    entry("ZELLIJ_PANE_ID"@, crate::text::decimal_text(terminal_id as nat))
}

/// The environment of a process in the pane `terminal_id` that gets `variables`.
pub open spec fn environment(variables: Seq<(Seq<char>, Seq<char>)>, terminal_id: u32) -> Seq<
    Seq<char>,
> {
    passed_on(variables).push(pane_entry(terminal_id))
}

/// `entries` in UTF-16, each with a zero after it.
pub open spec fn units_of_entries(entries: Seq<Seq<char>>) -> Seq<u16>
    decreases entries.len(),
{
    if entries.len() == 0 {
        Seq::empty()
    } else {
        units_of_entries(entries.drop_last()) + crate::utf16::units_of(entries.last()).push(0)
    }
}

/// The environment block of a process in the pane `terminal_id` that gets
/// `variables`, in UTF-16. A zero ends each entry, and another one the block.
pub fn build_environment_block(variables: &Vec<(String, String)>, terminal_id: u32) -> (block: Vec<
    u16,
>)
    ensures
        block@ == units_of_entries(environment(variable_values(variables@), terminal_id)).push(0),
{
    let ghost values = variable_values(variables@);
    let mut block: Vec<u16> = Vec::new();
    let mut i: usize = 0;
    while i < variables.len()
        invariant
            i <= variables@.len(),
            values == variable_values(variables@),
            block@ == units_of_entries(passed_on(values.take(i as int))),
        decreases variables@.len() - i,
    {
        let ghost before = block@;
        let ghost kept = passed_on(values.take(i as int));
        assert(values.take(i + 1).drop_last() =~= values.take(i as int));
        assert(values.take(i + 1).last() == (variables@[i as int].0@, variables@[i as int].1@));
        let name = variables[i].0.as_str();
        if !is_text(&chars_of(name), "ZELLIJ_PANE_ID") {
            let value = variables[i].1.as_str();
            let ghost written = entry(name@, value@);
            push_text(&mut block, name);
            push_text(&mut block, "=");
            push_text(&mut block, value);
            block.push(0);
            proof {
                crate::utf16::law_utf16_of_joined_text(name@, "="@);
                crate::utf16::law_utf16_of_joined_text(name@ + "="@, value@);
                assert(kept.push(written).drop_last() =~= kept);
                assert(block@ =~= before + crate::utf16::units_of(written).push(0));
            }
        }
        i = i + 1;
    }
    assert(values.take(i as int) =~= values);
    let ghost before = block@;
    let mut number = String::new();
    push_decimal(&mut number, terminal_id as u64);
    push_text(&mut block, "ZELLIJ_PANE_ID");
    push_text(&mut block, "=");
    push_text(&mut block, number.as_str());
    block.push(0);
    proof {
        let name = "ZELLIJ_PANE_ID"@;
        assert(number@ =~= crate::text::decimal_text(terminal_id as nat));
        crate::utf16::law_utf16_of_joined_text(name, "="@);
        crate::utf16::law_utf16_of_joined_text(name + "="@, number@);
        let kept = passed_on(values);
        assert(kept.push(pane_entry(terminal_id)).drop_last() =~= kept);
        assert(block@ =~= before + crate::utf16::units_of(pane_entry(terminal_id)).push(0));
    }
    block.push(0);
    block
}

/// Where the first zero of `units` is, or their end.
pub open spec fn zero_at(units: Seq<u16>) -> int
    decreases units.len(),
{
    if units.len() == 0 || units[0] == 0 {
        0
    } else {
        1 + zero_at(units.skip(1))
    }
}

/// Reads the entries of a block: each reaches to a zero, and one that would be
/// empty ends the block.
pub open spec fn read_entries(units: Seq<u16>) -> Seq<Seq<u16>>
    decreases units.len(),
{
    let end = zero_at(units);
    if end <= 0 || end >= units.len() {
        Seq::empty()
    } else {
        seq![units.take(end)] + read_entries(units.skip(end + 1))
    }
}

/// Whether `entry` can stand in a block: it is not empty and holds no zero.
pub open spec fn is_entry(entry: Seq<char>) -> bool {
    entry.len() > 0 && forall|i: int| 0 <= i < entry.len() ==> #[trigger] entry[i] != '\0'
}

proof fn lemma_zero_ends(units: Seq<u16>, rest: Seq<u16>)
    requires
        forall|i: int| 0 <= i < units.len() ==> #[trigger] units[i] != 0,
    ensures
        zero_at(units.push(0) + rest) == units.len(),
    decreases units.len(),
{
    let line = units.push(0) + rest;
    if units.len() > 0 {
        let after = units.skip(1);
        assert forall|i: int| 0 <= i < after.len() implies #[trigger] after[i] != 0 by {
            assert(after[i] == units[i + 1]);
        }
        lemma_zero_ends(after, rest);
        assert(line[0] == units[0]);
        assert(line.skip(1) =~= after.push(0) + rest);
    } else {
        assert(line[0] == 0);
    }
}

proof fn lemma_first_entry(entries: Seq<Seq<char>>)
    requires
        entries.len() > 0,
    ensures
        units_of_entries(entries) == crate::utf16::units_of(entries[0]).push(0)
            + units_of_entries(entries.skip(1)),
    decreases entries.len(),
{
    let first = crate::utf16::units_of(entries[0]).push(0);
    if entries.len() == 1 {
        assert(entries.drop_last() =~= Seq::empty());
        assert(entries.skip(1) =~= Seq::empty());
        assert(units_of_entries(entries) =~= first + units_of_entries(entries.skip(1)));
    } else {
        lemma_first_entry(entries.drop_last());
        assert(entries.skip(1).drop_last() =~= entries.drop_last().skip(1));
        assert(units_of_entries(entries) =~= first + units_of_entries(entries.skip(1)));
    }
}

/// An environment block reads back as the entries that it was made of.
pub proof fn law_environment_block_reads_back(entries: Seq<Seq<char>>)
    requires
        forall|i: int| 0 <= i < entries.len() ==> is_entry(#[trigger] entries[i]),
    ensures
        read_entries(units_of_entries(entries).push(0)) == entries.map_values(
            |entry: Seq<char>| crate::utf16::units_of(entry),
        ),
    decreases entries.len(),
{
    let block = units_of_entries(entries).push(0);
    let expected = entries.map_values(|entry: Seq<char>| crate::utf16::units_of(entry));
    if entries.len() == 0 {
        assert(block[0] == 0);
        assert(read_entries(block) =~= expected);
    } else {
        let others = entries.skip(1);
        assert forall|i: int| 0 <= i < others.len() implies is_entry(#[trigger] others[i]) by {
            assert(others[i] == entries[i + 1]);
        }
        law_environment_block_reads_back(others);
        assert(is_entry(entries[0]));
        crate::utf16::law_utf16_has_no_stray_zero(entries[0]);
        lemma_first_entry(entries);
        let first = crate::utf16::units_of(entries[0]);
        let rest = units_of_entries(others).push(0);
        assert(block =~= first.push(0) + rest);
        lemma_zero_ends(first, rest);
        assert(block.take(first.len() as int) =~= first);
        assert(block.skip(first.len() as int + 1) =~= rest);
        assert(read_entries(block) =~= expected);
    }
}

/// Every process is told its own pane, and no other: the entry for it comes once,
/// whatever the variables that are passed on say.
pub proof fn law_pane_is_told_once(variables: Seq<(Seq<char>, Seq<char>)>, terminal_id: u32)
    ensures
        environment(variables, terminal_id).last() == pane_entry(terminal_id),
        forall|i: int|
            0 <= i < passed_on(variables).len() ==> exists|j: int|
                0 <= j < variables.len() && variables[j].0 != "ZELLIJ_PANE_ID"@
                    && #[trigger] passed_on(variables)[i] == entry(
                    (#[trigger] variables[j]).0,
                    variables[j].1,
                ),
    decreases variables.len(),
{
    if variables.len() > 0 {
        let before = variables.drop_last();
        law_pane_is_told_once(before, terminal_id);
        assert forall|i: int| 0 <= i < passed_on(variables).len() implies exists|j: int|
            0 <= j < variables.len() && variables[j].0 != "ZELLIJ_PANE_ID"@
                && #[trigger] passed_on(variables)[i] == entry(
                (#[trigger] variables[j]).0,
                variables[j].1,
            ) by {
            if i < passed_on(before).len() {
                assert(passed_on(variables)[i] == passed_on(before)[i]);
                let j = choose|j: int|
                    0 <= j < before.len() && before[j].0 != "ZELLIJ_PANE_ID"@ && passed_on(
                        before,
                    )[i] == entry((#[trigger] before[j]).0, before[j].1);
                assert(variables[j] == before[j]);
            } else {
                let j = variables.len() - 1;
                assert(passed_on(variables)[i] == entry(variables[j].0, variables[j].1));
            }
        }
    }
}

/// Every variable but the one that tells the pane is passed on, once and in order,
/// and nothing else is: the entries are those of the variables with other names.
pub proof fn law_every_other_variable_is_passed_on(variables: Seq<(Seq<char>, Seq<char>)>)
    ensures
        passed_on(variables) == variables.filter(
            |variable: (Seq<char>, Seq<char>)| variable.0 != "ZELLIJ_PANE_ID"@,
        ).map_values(
            |variable: (Seq<char>, Seq<char>)| variable.0 + seq!['='] + variable.1,
        ),
    decreases variables.len(),
{
    reveal_strlit("=");
    assert("="@ =~= seq!['=']);
    reveal(Seq::filter);
    if variables.len() > 0 {
        law_every_other_variable_is_passed_on(variables.drop_last());
    }
    assert(passed_on(variables) =~= variables.filter(
        |variable: (Seq<char>, Seq<char>)| variable.0 != "ZELLIJ_PANE_ID"@,
    ).map_values(|variable: (Seq<char>, Seq<char>)| variable.0 + seq!['='] + variable.1));
}

/// A process finds every variable that its parent had, whatever comes before or
/// after it in the environment; only the pane is its own.
pub proof fn law_no_variable_is_lost(
    variables: Seq<(Seq<char>, Seq<char>)>,
    terminal_id: u32,
    j: int,
)
    requires
        0 <= j < variables.len(),
        variables[j].0 != "ZELLIJ_PANE_ID"@,
    ensures
        environment(variables, terminal_id).contains(variables[j].0 + seq!['='] + variables[j].1),
    decreases variables.len(),
{
    reveal_strlit("=");
    assert("="@ =~= seq!['=']);
    let all = environment(variables, terminal_id);
    let wanted = variables[j].0 + seq!['='] + variables[j].1;
    if j == variables.len() - 1 {
        assert(all[all.len() - 2] == wanted);
    } else {
        let before = variables.drop_last();
        assert(before[j] == variables[j]);
        law_no_variable_is_lost(before, terminal_id, j);
        let earlier = environment(before, terminal_id);
        let at = choose|at: int| 0 <= at < earlier.len() && earlier[at] == wanted;
        if at < earlier.len() - 1 {
            assert(passed_on(variables)[at] == passed_on(before)[at]);
            assert(all[at] == wanted);
        } else {
            assert(all[all.len() - 1] == wanted);
        }
    }
}

/// Variables are passed on one by one: one more at the end leaves the others as
/// they are, and comes after them, unless it tells a pane.
pub proof fn law_one_more_variable_comes_last(
    variables: Seq<(Seq<char>, Seq<char>)>,
    name: Seq<char>,
    value: Seq<char>,
)
    ensures
        name != "ZELLIJ_PANE_ID"@ ==> passed_on(variables.push((name, value))) == passed_on(
            variables,
        ).push(name + seq!['='] + value),
        name == "ZELLIJ_PANE_ID"@ ==> passed_on(variables.push((name, value))) == passed_on(
            variables,
        ),
{
    reveal_strlit("=");
    assert("="@ =~= seq!['=']);
    assert(variables.push((name, value)).drop_last() =~= variables);
}

/// The last entry tells the pane: its number in decimal.
pub proof fn law_pane_entry_tells_the_number(
    variables: Seq<(Seq<char>, Seq<char>)>,
    terminal_id: u32,
)
    ensures
        ({
            let last = environment(variables, terminal_id).last();
            let name = "ZELLIJ_PANE_ID"@ + seq!['='];
            &&& environment(variables, terminal_id).len() == passed_on(variables).len() + 1
            &&& last.take(name.len() as int) == name
            &&& crate::text::decimal_value(last.skip(name.len() as int)) == terminal_id
            &&& forall|i: int|
                name.len() <= i < last.len() ==> '0' <= #[trigger] last[i] <= '9'
        }),
{
    reveal_strlit("=");
    assert("="@ =~= seq!['=']);
    let digits = crate::text::decimal_text(terminal_id as nat);
    let name = "ZELLIJ_PANE_ID"@ + seq!['='];
    let last = environment(variables, terminal_id).last();
    crate::text::law_decimal_reads_back(terminal_id as nat);
    assert(last =~= name + digits);
    assert(last.take(name.len() as int) =~= name);
    assert(last.skip(name.len() as int) =~= digits);
    assert forall|i: int| name.len() <= i < last.len() implies '0' <= #[trigger] last[i]
        <= '9' by {
        assert(last[i] == digits[i - name.len()]);
    }
}

/// The variables of a process are taken with their names and their values, one by
/// one.
pub proof fn law_values_of_variables(variables: Seq<(String, String)>, i: int)
    requires
        0 <= i < variables.len(),
    ensures
        variable_values(variables).len() == variables.len(),
        variable_values(variables)[i].0 == variables[i].0@,
        variable_values(variables)[i].1 == variables[i].1@,
{
}

/// Entries are written one after the other, each with a zero behind it.
pub proof fn law_entries_are_written_one_by_one(entries: Seq<Seq<char>>, entry: Seq<char>)
    ensures
        units_of_entries(Seq::empty()) == Seq::<u16>::empty(),
        units_of_entries(entries.push(entry)) == units_of_entries(entries)
            + crate::utf16::units_of(entry) + seq![0u16],
{
    assert(entries.push(entry).drop_last() =~= entries);
    assert(units_of_entries(entries.push(entry)) =~= units_of_entries(entries)
        + crate::utf16::units_of(entry) + seq![0u16]);
}

} // verus!
