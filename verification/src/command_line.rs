//! Command lines for new processes.
use crate::text::{chars_of, is_text, to_ascii_lowercase};
use crate::utf16::to_wide;
use vstd::prelude::*;
use vstd::string::StringExecFns;

verus! {

/// A command to run.
#[derive(Debug, Clone, PartialEq, Eq)]
pub struct RunCommand {
    pub command: String,
    pub args: Vec<String>,
    pub cwd: Option<String>,
}

/// The texts of some strings.
pub open spec fn texts(strings: Seq<String>) -> Seq<Seq<char>> {
    strings.map_values(|string: String| string@)
}

/// `count` backslashes.
pub open spec fn backslashes(count: nat) -> Seq<char> {
    Seq::new(count, |i: int| '\\')
}

/// How many backslashes `text` begins with.
pub open spec fn leading_backslashes(text: Seq<char>) -> nat
    decreases text.len(),
{
    if text.len() > 0 && text[0] == '\\' {
        1 + leading_backslashes(text.skip(1))
    } else {
        0
    }
}

/// Whether `character` ends an argument that is not quoted.
pub open spec fn is_blank(character: char) -> bool {
    character == ' ' || character == '\t'
}

/// Whether `argument` has to be quoted: it is empty, or holds a blank or a quote.
pub open spec fn needs_quotes(argument: Seq<char>) -> bool {
    argument.len() == 0 || exists|i: int|
        0 <= i < argument.len() && (is_blank(#[trigger] argument[i]) || argument[i] == '"')
}

/// `argument` as it is written between quotes: a quote has a backslash in front,
/// and backslashes before a quote, or at the end, are doubled.
pub open spec fn escaped(argument: Seq<char>) -> Seq<char>
    decreases argument.len(),
{
    let count = leading_backslashes(argument);
    if count >= argument.len() {
        backslashes(2 * count)
    } else if argument[count as int] == '"' {
        backslashes(2 * count) + seq!['\\', '"'] + escaped(argument.skip(count as int + 1))
    } else {
        backslashes(count) + seq![argument[count as int]] + escaped(argument.skip(count as int + 1))
    }
}

/// `argument` as it is written in a command line.
pub open spec fn quoted(argument: Seq<char>) -> Seq<char> {
    if needs_quotes(argument) {
        seq!['"'] + escaped(argument) + seq!['"']
    } else {
        argument
    }
}

/// `arguments` as they are written in a command line, each after a space.
pub open spec fn quoted_all(arguments: Seq<Seq<char>>) -> Seq<char>
    decreases arguments.len(),
{
    if arguments.len() == 0 {
        Seq::empty()
    } else {
        seq![' '] + quoted(arguments[0]) + quoted_all(arguments.skip(1))
    }
}

/// The command line that runs `command` with `arguments`. The command is always
/// quoted.
pub open spec fn command_line(command: Seq<char>, arguments: Seq<Seq<char>>) -> Seq<char> {
    seq!['"'] + command + seq!['"'] + quoted_all(arguments)
}

fn count_backslashes(characters: &[char], start: usize) -> (count: usize)
    requires
        start <= characters@.len(),
    ensures
        count == leading_backslashes(characters@.skip(start as int)),
        start + count <= characters@.len(),
{
    let mut end: usize = start;
    while end < characters.len() && characters[end] == '\\'
        invariant
            start <= end <= characters@.len(),
            leading_backslashes(characters@.skip(start as int)) == end - start
                + leading_backslashes(characters@.skip(end as int)),
        decreases characters@.len() - end,
    {
        assert(characters@.skip(end as int).skip(1) =~= characters@.skip(end + 1));
        end = end + 1;
    }
    end - start
}

fn push_backslashes(text: &mut String, count: usize)
    ensures
        final(text)@ == old(text)@ + backslashes(count as nat),
{
    let ghost before = text@;
    let mut i: usize = 0;
    assert(text@ =~= before + backslashes(0));
    while i < count
        invariant
            i <= count,
            text@ == before + backslashes(i as nat),
        decreases count - i,
    {
        text.push('\\');
        assert(text@ =~= before + backslashes((i + 1) as nat));
        i = i + 1;
    }
}

proof fn lemma_leading_backslashes(text: Seq<char>)
    ensures
        leading_backslashes(text) <= text.len(),
        text.take(leading_backslashes(text) as int) == backslashes(leading_backslashes(text)),
        leading_backslashes(text) < text.len() ==> text[leading_backslashes(text) as int] != '\\',
    decreases text.len(),
{
    if text.len() > 0 && text[0] == '\\' {
        lemma_leading_backslashes(text.skip(1));
        let count = leading_backslashes(text.skip(1));
        assert forall|i: int| 0 <= i < count + 1 implies text[i] == '\\' by {
            if i > 0 {
                assert(text.skip(1).take(count as int)[i - 1] == backslashes(count)[i - 1]);
            }
        }
        assert(text.take(count as int + 1) =~= backslashes(count + 1));
    } else {
        assert(text.take(0) =~= backslashes(0));
    }
}

fn has_to_be_quoted(characters: &[char]) -> (needs: bool)
    ensures
        needs == needs_quotes(characters@),
{
    if characters.len() == 0 {
        return true;
    }
    let mut i: usize = 0;
    while i < characters.len()
        invariant
            i <= characters@.len(),
            forall|j: int|
                0 <= j < i ==> !is_blank(#[trigger] characters@[j]) && characters@[j] != '"',
        decreases characters@.len() - i,
    {
        let character: char = characters[i];
        if character == ' ' || character == '\t' || character == '"' {
            assert(is_blank(characters@[i as int]) || characters@[i as int] == '"');
            return true;
        }
        i = i + 1;
    }
    false
}

fn push_quoted(text: &mut String, argument: &str)
    ensures
        final(text)@ == old(text)@ + quoted(argument@),
{
    let ghost before = text@;
    let characters = chars_of(argument);
    if !has_to_be_quoted(&characters) {
        text.append(argument);
        return;
    }
    text.push('"');
    let mut i: usize = 0;
    assert(argument@.skip(0) =~= argument@);
    assert(text@ + escaped(argument@.skip(0)) =~= before + seq!['"'] + escaped(argument@));
    let total: usize = characters.len();
    while i < total
        invariant
            i <= total == characters@.len(),
            characters@ == argument@,
            text@ + escaped(argument@.skip(i as int)) == before + seq!['"'] + escaped(argument@),
        decreases total - i,
    {
        let ghost rest = argument@.skip(i as int);
        let ghost written = text@;
        let count: usize = count_backslashes(&characters, i);
        proof {
            lemma_leading_backslashes(rest);
        }
        if i + count == total {
            push_backslashes(text, count);
            push_backslashes(text, count);
            i = total;
            assert(escaped(rest) =~= backslashes(count as nat) + backslashes(count as nat));
            assert(argument@.skip(i as int) =~= Seq::empty());
            assert(escaped(argument@.skip(i as int)) =~= Seq::empty());
            assert(text@ + escaped(argument@.skip(i as int)) =~= written + escaped(rest));
        } else {
            let character: char = characters[i + count];
            assert(rest[count as int] == character);
            assert(rest.skip(count + 1) =~= argument@.skip(i + count + 1));
            if character == '"' {
                push_backslashes(text, count);
                push_backslashes(text, count);
                text.push('\\');
                text.push('"');
                assert(backslashes(2 * count as nat) =~= backslashes(count as nat) + backslashes(
                    count as nat,
                ));
            } else {
                push_backslashes(text, count);
                text.push(character);
            }
            i = i + count + 1;
            assert(text@ + escaped(argument@.skip(i as int)) =~= written + escaped(rest));
        }
    }
    assert(argument@.skip(i as int) =~= Seq::empty());
    assert(escaped(argument@.skip(i as int)) =~= Seq::empty());
    assert(text@ =~= before + seq!['"'] + escaped(argument@));
    text.push('"');
    assert(text@ =~= before + quoted(argument@));
}

/// The command line for `cmd`, in UTF-16 with the zero that ends it. It is the
/// one that `CommandLineToArgvW` takes apart into the command and its arguments.
pub fn build_command_line(cmd: &RunCommand) -> (line: Vec<u16>)
    ensures
        line@ == crate::utf16::units_of(command_line(cmd.command@, texts(cmd.args@))).push(0),
{
    let mut line = String::new();
    line.push('"');
    line.append(cmd.command.as_str());
    line.push('"');
    let ghost arguments = texts(cmd.args@);
    let mut i: usize = 0;
    assert(arguments.skip(0) =~= arguments);
    assert(line@ + quoted_all(arguments.skip(0)) =~= command_line(cmd.command@, arguments));
    while i < cmd.args.len()
        invariant
            i <= cmd.args@.len(),
            arguments == texts(cmd.args@),
            line@ + quoted_all(arguments.skip(i as int)) == command_line(cmd.command@, arguments),
        decreases cmd.args@.len() - i,
    {
        let ghost rest = arguments.skip(i as int);
        let ghost written = line@;
        line.push(' ');
        push_quoted(&mut line, cmd.args[i].as_str());
        assert(rest[0] == arguments[i as int]);
        assert(rest.skip(1) =~= arguments.skip(i + 1));
        assert(line@ + quoted_all(arguments.skip(i + 1)) =~= written + quoted_all(rest));
        i = i + 1;
    }
    assert(arguments.skip(i as int) =~= Seq::empty());
    assert(line@ =~= command_line(cmd.command@, arguments));
    to_wide(line.as_str())
}

/// What is read next of an argument, and where it ends.
pub struct ReadArgument {
    pub argument: Seq<char>,
    pub rest: Seq<char>,
}

/// Reads one argument of a command line by the rules of `CommandLineToArgvW`,
/// where `so_far` is already read of it and `line` is what follows; `in_quotes`
/// if a quote is open. A quote opens or closes, unless an odd number of
/// backslashes stands before it: then it is part of the argument. Of backslashes
/// before a quote, every other one is part of the argument; of other backslashes,
/// all are. A blank ends the argument unless a quote is open. That a quote right
/// after the one that closed is part of the argument is left out: the arguments that
/// `build_command_line` writes have none there.
pub open spec fn read_argument(line: Seq<char>, in_quotes: bool, so_far: Seq<char>) -> ReadArgument
    decreases line.len(),
{
    let count = leading_backslashes(line);
    if count >= line.len() {
        ReadArgument { argument: so_far + backslashes(count), rest: Seq::empty() }
    } else if line[count as int] == '"' && count % 2 == 0 {
        read_argument(
            line.skip(count as int + 1),
            !in_quotes,
            so_far + backslashes(count / 2),
        )
    } else if line[count as int] == '"' {
        read_argument(
            line.skip(count as int + 1),
            in_quotes,
            so_far + backslashes(count / 2) + seq!['"'],
        )
    } else if is_blank(line[count as int]) && !in_quotes {
        ReadArgument { argument: so_far + backslashes(count), rest: line.skip(count as int) }
    } else {
        read_argument(
            line.skip(count as int + 1),
            in_quotes,
            so_far + backslashes(count) + seq![line[count as int]],
        )
    }
}

/// `line` without the blanks at its beginning.
pub open spec fn without_leading_blanks(line: Seq<char>) -> Seq<char>
    decreases line.len(),
{
    if line.len() > 0 && is_blank(line[0]) {
        without_leading_blanks(line.skip(1))
    } else {
        line
    }
}

/// Reads the arguments of a command line by the rules of `CommandLineToArgvW`.
/// Blanks separate them.
pub open spec fn read_arguments(line: Seq<char>) -> Seq<Seq<char>>
    decreases line.len(),
{
    let start = without_leading_blanks(line);
    if start.len() == 0 {
        Seq::empty()
    } else {
        let read = read_argument(start, false, Seq::empty());
        proof {
            lemma_blanks_are_skipped(line);
            lemma_argument_is_read(start, false, Seq::empty());
        }
        seq![read.argument] + read_arguments(read.rest)
    }
}

/// Reads a command line by the rules of `CommandLineToArgvW`, where the command
/// is quoted: it reaches to the next quote, and its backslashes are as they are.
pub open spec fn read_command_line(line: Seq<char>) -> (Seq<char>, Seq<Seq<char>>)
    recommends
        line.len() > 0,
        line[0] == '"',
{
    let end = quote_at(line.skip(1));
    (line.skip(1).take(end), read_arguments(line.skip(1).skip(end + 1)))
}

/// Where the first quote of `line` is, or its end.
pub open spec fn quote_at(line: Seq<char>) -> int
    decreases line.len(),
{
    if line.len() == 0 || line[0] == '"' {
        0
    } else {
        1 + quote_at(line.skip(1))
    }
}

/// Skipping blanks skips all of them.
pub proof fn lemma_blanks_are_skipped(line: Seq<char>)
    ensures
        without_leading_blanks(line).len() <= line.len(),
        without_leading_blanks(line).len() > 0 ==> !is_blank(without_leading_blanks(line)[0]),
    decreases line.len(),
{
    if line.len() > 0 && is_blank(line[0]) {
        lemma_blanks_are_skipped(line.skip(1));
    }
}

/// Reading an argument gets on.
pub proof fn lemma_argument_is_read(line: Seq<char>, in_quotes: bool, so_far: Seq<char>)
    ensures
        read_argument(line, in_quotes, so_far).rest.len() <= line.len(),
        line.len() > 0 && !is_blank(line[0]) ==> read_argument(line, in_quotes, so_far).rest.len()
            < line.len(),
    decreases line.len(),
{
    let count = leading_backslashes(line);
    lemma_leading_backslashes(line);
    if count >= line.len() {
    } else if line[count as int] == '"' && count % 2 == 0 {
        lemma_argument_is_read(
            line.skip(count as int + 1),
            !in_quotes,
            so_far + backslashes(count / 2),
        );
    } else if line[count as int] == '"' {
        lemma_argument_is_read(
            line.skip(count as int + 1),
            in_quotes,
            so_far + backslashes(count / 2) + seq!['"'],
        );
    } else if is_blank(line[count as int]) && !in_quotes {
    } else {
        lemma_argument_is_read(
            line.skip(count as int + 1),
            in_quotes,
            so_far + backslashes(count) + seq![line[count as int]],
        );
    }
}

/// Backslashes in front of something else are counted.
proof fn lemma_backslashes_are_counted(count: nat, rest: Seq<char>)
    requires
        rest.len() > 0 ==> rest[0] != '\\',
    ensures
        leading_backslashes(backslashes(count) + rest) == count,
    decreases count,
{
    let line = backslashes(count) + rest;
    if count == 0 {
        assert(line =~= rest);
    } else {
        lemma_backslashes_are_counted((count - 1) as nat, rest);
        assert(line.skip(1) =~= backslashes((count - 1) as nat) + rest);
    }
}

/// What follows an argument in a command line: nothing, or a blank.
spec fn ends_argument(rest: Seq<char>) -> bool {
    rest.len() > 0 ==> is_blank(rest[0])
}

proof fn lemma_escaped_argument_is_read(argument: Seq<char>, rest: Seq<char>, so_far: Seq<char>)
    requires
        ends_argument(rest),
    ensures
        read_argument(escaped(argument) + seq!['"'] + rest, true, so_far) == (ReadArgument {
            argument: so_far + argument,
            rest,
        }),
    decreases argument.len(),
{
    let count = leading_backslashes(argument);
    let line = escaped(argument) + seq!['"'] + rest;
    lemma_leading_backslashes(argument);
    if count >= argument.len() {
        let tail = seq!['"'] + rest;
        assert(line =~= backslashes(2 * count) + tail);
        lemma_backslashes_are_counted(2 * count, tail);
        assert(line.skip(2 * count as int + 1) =~= rest);
        assert(argument =~= backslashes(count));
        let read = so_far + backslashes(count);
        assert(read + backslashes(0) =~= read);
        assert(leading_backslashes(rest) == 0);
        assert(rest.skip(0) =~= rest);
        if rest.len() == 0 {
            assert(rest =~= Seq::empty());
        }
        assert(read_argument(rest, false, read) == (ReadArgument { argument: read, rest }));
        assert((2 * count) % 2 == 0 && (2 * count) / 2 == count);
    } else {
        let after = argument.skip(count as int + 1);
        let end = escaped(after) + seq!['"'] + rest;
        let head = argument.take(count as int);
        let next = argument[count as int];
        assert(argument =~= head + seq![next] + after);
        if next == '"' {
            let tail = seq!['"'] + end;
            assert(line =~= backslashes(2 * count + 1) + tail);
            lemma_backslashes_are_counted(2 * count + 1, tail);
            assert(line.skip(2 * count as int + 2) =~= end);
            assert((2 * count + 1) / 2 == count);
            let read = so_far + backslashes(count) + seq!['"'];
            lemma_escaped_argument_is_read(after, rest, read);
            assert(read + after =~= so_far + argument);
        } else {
            let tail = seq![next] + end;
            assert(line =~= backslashes(count) + tail);
            lemma_backslashes_are_counted(count, tail);
            assert(line[count as int] == next);
            assert(line.skip(count as int + 1) =~= end);
            let read = so_far + backslashes(count) + seq![next];
            lemma_escaped_argument_is_read(after, rest, read);
            assert(read + after =~= so_far + argument);
        }
    }
}

proof fn lemma_bare_argument_is_read(argument: Seq<char>, rest: Seq<char>, so_far: Seq<char>)
    requires
        forall|i: int|
            0 <= i < argument.len() ==> !is_blank(#[trigger] argument[i]) && argument[i] != '"',
        ends_argument(rest),
    ensures
        read_argument(argument + rest, false, so_far) == (ReadArgument {
            argument: so_far + argument,
            rest,
        }),
    decreases argument.len(),
{
    let count = leading_backslashes(argument);
    let line = argument + rest;
    lemma_leading_backslashes(argument);
    if count >= argument.len() {
        assert(argument =~= backslashes(count));
        lemma_backslashes_are_counted(count, rest);
        assert(line.skip(count as int) =~= rest);
        if rest.len() == 0 {
            assert(rest =~= Seq::empty());
        }
    } else {
        let after = argument.skip(count as int + 1);
        let next = argument[count as int];
        let head = argument.take(count as int);
        assert(argument =~= head + seq![next] + after);
        let tail = seq![next] + after + rest;
        assert(line =~= backslashes(count) + tail);
        lemma_backslashes_are_counted(count, tail);
        assert(line[count as int] == next);
        assert(line.skip(count as int + 1) =~= after + rest);
        assert forall|i: int| 0 <= i < after.len() implies !is_blank(#[trigger] after[i])
            && after[i] != '"' by {
            assert(after[i] == argument[i + count as int + 1]);
        }
        let read = so_far + backslashes(count) + seq![next];
        lemma_bare_argument_is_read(after, rest, read);
        assert(read + after =~= so_far + argument);
    }
}

proof fn lemma_quoted_argument_is_read(argument: Seq<char>, rest: Seq<char>)
    requires
        ends_argument(rest),
    ensures
        read_argument(quoted(argument) + rest, false, Seq::empty()) == (ReadArgument {
            argument,
            rest,
        }),
        quoted(argument).len() > 0,
        !is_blank(quoted(argument)[0]),
{
    let nothing = Seq::<char>::empty();
    assert(nothing + argument =~= argument);
    if needs_quotes(argument) {
        let line = quoted(argument) + rest;
        assert(line[0] == '"');
        assert(line.skip(1) =~= escaped(argument) + seq!['"'] + rest);
        assert(nothing + backslashes(0) =~= nothing);
        lemma_escaped_argument_is_read(argument, rest, nothing);
    } else {
        assert(argument[0] == argument[0]);
        lemma_bare_argument_is_read(argument, rest, nothing);
    }
}

proof fn lemma_quoted_arguments_are_read(arguments: Seq<Seq<char>>)
    ensures
        read_arguments(quoted_all(arguments)) == arguments,
        ends_argument(quoted_all(arguments)),
    decreases arguments.len(),
{
    let line = quoted_all(arguments);
    if arguments.len() == 0 {
        assert(read_arguments(line) =~= arguments);
    } else {
        let others = arguments.skip(1);
        lemma_quoted_arguments_are_read(others);
        lemma_quoted_argument_is_read(arguments[0], quoted_all(others));
        let start = quoted(arguments[0]) + quoted_all(others);
        assert(line.skip(1) =~= start);
        assert(start[0] == quoted(arguments[0])[0]);
        assert(without_leading_blanks(start) == start);
        assert(without_leading_blanks(line) == start);
        assert(read_arguments(line) =~= seq![arguments[0]] + others);
        assert(seq![arguments[0]] + others =~= arguments);
    }
}

proof fn lemma_first_quote(command: Seq<char>, rest: Seq<char>)
    requires
        forall|i: int| 0 <= i < command.len() ==> #[trigger] command[i] != '"',
    ensures
        quote_at(command + seq!['"'] + rest) == command.len(),
    decreases command.len(),
{
    let line = command + seq!['"'] + rest;
    if command.len() > 0 {
        let after = command.skip(1);
        assert forall|i: int| 0 <= i < after.len() implies #[trigger] after[i] != '"' by {
            assert(after[i] == command[i + 1]);
        }
        lemma_first_quote(after, rest);
        assert(line[0] == command[0]);
        assert(line.skip(1) =~= after + seq!['"'] + rest);
    } else {
        assert(line[0] == '"');
    }
}

/// A command line is read back as the command and the arguments that it was made
/// of, whatever quotes, blanks and backslashes the arguments hold. The command
/// itself can hold no quote.
pub proof fn law_command_line_reads_back(command: Seq<char>, arguments: Seq<Seq<char>>)
    requires
        forall|i: int| 0 <= i < command.len() ==> #[trigger] command[i] != '"',
    ensures
        read_command_line(command_line(command, arguments)) == (command, arguments),
{
    let line = command_line(command, arguments);
    let rest = quoted_all(arguments);
    assert(line.skip(1) =~= command + seq!['"'] + rest);
    lemma_first_quote(command, rest);
    assert(line.skip(1).take(command.len() as int) =~= command);
    assert(line.skip(1).skip(command.len() as int + 1) =~= rest);
    lemma_quoted_arguments_are_read(arguments);
}

/// The directory `cwd` in UTF-16 with the zero that ends it, where it is one.
pub open spec fn directory_units(cwd: Option<Seq<char>>, is_directory: bool) -> Option<Seq<u16>> {
    match cwd {
        Some(cwd) => if is_directory {
            Some(crate::utf16::units_of(cwd).push(0))
        } else {
            None
        },
        None => None,
    }
}

/// The directory that `cmd` is to run in, in UTF-16 with the zero that ends it;
/// `None` where it has none, or where that is no directory.
pub fn working_directory(cmd: &RunCommand, is_directory: bool) -> (directory: Option<Vec<u16>>)
    ensures
        match directory {
            Some(directory) => cmd.cwd is Some && is_directory && directory@
                == crate::utf16::units_of(cmd.cwd->0@).push(0),
            None => cmd.cwd is None || !is_directory,
        },
        match directory {
            Some(directory) => directory_units(text_in(cmd.cwd), is_directory) == Some(
                directory@,
            ),
            None => directory_units(text_in(cmd.cwd), is_directory) is None,
        },
{
    match &cmd.cwd {
        Some(cwd) => {
            if is_directory {
                Some(to_wide(cwd.as_str()))
            } else {
                None
            }
        },
        None => None,
    }
}

/// Whether `stem`, the name of a program without its extension, is that of a
/// PowerShell, in upper or lower case.
pub open spec fn is_powershell(stem: Seq<char>) -> bool {
    let lower = crate::text::ascii_lowercase(stem);
    lower == "pwsh"@ || lower == "powershell"@
}

/// Whether `stem`, the name of a program without its extension, is that of a
/// PowerShell.
pub fn is_powershell_stem(stem: &str) -> (powershell: bool)
    ensures
        powershell == is_powershell(stem@),
{
    let lower = to_ascii_lowercase(stem);
    is_text(&lower, "pwsh") || is_text(&lower, "powershell")
}

/// Whether `character` separates directories: a slash does on Unix and on Windows,
/// a backslash only on Windows.
pub open spec fn is_separator(character: char, windows: bool) -> bool {
    character == '/' || windows && character == '\\'
}

/// What stands in `path` behind its last separator.
pub open spec fn last_component(path: Seq<char>, windows: bool) -> Seq<char>
    decreases path.len(),
{
    if path.len() == 0 || is_separator(path.last(), windows) {
        Seq::empty()
    } else {
        last_component(path.drop_last(), windows).push(path.last())
    }
}

/// The name of the file that `path` leads to, where it leads to a named one.
/// Separators and single dots at the end do not count, and two dots name nothing.
pub open spec fn file_name(path: Seq<char>, windows: bool) -> Option<Seq<char>>
    decreases path.len(),
{
    let last = last_component(path, windows);
    if path.len() == 0 || last == seq!['.', '.'] {
        None
    } else if last.len() == 0 || last == seq!['.'] {
        file_name(path.drop_last(), windows)
    } else {
        Some(last)
    }
}

/// Where the last dot stands in `name`, or -1 where there is none.
pub open spec fn last_dot(name: Seq<char>) -> int
    decreases name.len(),
{
    if name.len() == 0 {
        -1
    } else if name.last() == '.' {
        name.len() - 1
    } else {
        last_dot(name.drop_last())
    }
}

/// The file name `name` without its extension, which is what stands behind the
/// last dot, unless the name begins with that dot.
pub open spec fn stem_of(name: Seq<char>) -> Seq<char> {
    if last_dot(name) > 0 {
        name.take(last_dot(name))
    } else {
        name
    }
}

/// The name of the file that `path` leads to, without its extension.
pub open spec fn path_stem(path: Seq<char>, windows: bool) -> Option<Seq<char>> {
    match file_name(path, windows) {
        Some(name) => Some(stem_of(name)),
        None => None,
    }
}

/// Whether `path` begins as a path to another host or a device does on Windows:
/// with two separators.
pub open spec fn begins_as_share(path: Seq<char>) -> bool {
    path.len() >= 2 && is_separator(path[0], true) && is_separator(path[1], true)
}

/// Whether `path` begins as one with a drive does on Windows: with one character,
/// which is no separator, and a colon.
pub open spec fn begins_as_drive(path: Seq<char>) -> bool {
    path.len() >= 2 && !is_separator(path[0], true) && path[1] == ':'
}

/// Whether `stem` is that of `path` on Unix, or on Windows with or without the
/// drive that the path may begin with.
pub open spec fn is_stem_somewhere(path: Seq<char>, stem: Option<Seq<char>>) -> bool {
    ||| stem == path_stem(path, false)
    ||| stem == path_stem(path, true)
    ||| begins_as_drive(path) && stem == path_stem(path.skip(2), true)
}

/// The text in `text`, where there is one.
pub open spec fn text_in(text: Option<String>) -> Option<Seq<char>> {
    match text {
        Some(text) => Some(text@),
        None => None,
    }
}

/// `std::path::Path::file_stem`: the name of the file that `command` leads to,
/// without its extension, where there is one. It is a part of the command. How a
/// command is taken apart depends on the system, so this says that the result is
/// the one of Unix or one of Windows; where these agree, as they do without
/// backslashes and colons, it says which. Of commands that begin with two
/// separators, which Windows takes for hosts and devices, it says only that the
/// result is a part of them.
#[verifier::external_body]
fn file_stem(command: &str) -> (stem: Option<String>)
    ensures
        !begins_as_share(command@) ==> is_stem_somewhere(command@, text_in(stem)),
        stem matches Some(part) ==> exists|start: int, end: int|
            0 <= start < end <= command@.len() && part@ == #[trigger] command@.subrange(start, end),
{
    std::path::Path::new(command).file_stem().and_then(|stem| stem.to_str()).map(
        |stem| stem.to_owned(),
    )
}

/// Whether there is a stem and it is that of a PowerShell.
pub open spec fn names_powershell(stem: Option<Seq<char>>) -> bool {
    stem matches Some(name) && is_powershell(name)
}

/// Whether `cmd` runs a PowerShell: whether the file that its command leads to has
/// the name of one. Where the command leads to depends on the system, so the
/// answer is the one of Unix or one of Windows. Whatever the system, the name of a
/// PowerShell stands in the command that runs one.
pub fn command_uses_powershell(cmd: &RunCommand) -> (powershell: bool)
    ensures
        !begins_as_share(cmd.command@) ==> {
            ||| powershell == names_powershell(path_stem(cmd.command@, false))
            ||| powershell == names_powershell(path_stem(cmd.command@, true))
            ||| begins_as_drive(cmd.command@) && powershell == names_powershell(
                path_stem(cmd.command@.skip(2), true),
            )
        },
        powershell ==> exists|start: int, end: int|
            0 <= start < end <= cmd.command@.len() && is_powershell(
                #[trigger] cmd.command@.subrange(start, end),
            ),
{
    match file_stem(cmd.command.as_str()) {
        Some(stem) => is_powershell_stem(stem.as_str()),
        None => false,
    }
}

proof fn lemma_same_component_without_backslashes(path: Seq<char>)
    requires
        forall|i: int| 0 <= i < path.len() ==> #[trigger] path[i] != '\\',
    ensures
        last_component(path, false) == last_component(path, true),
    decreases path.len(),
{
    if path.len() > 0 {
        assert(path.last() == path[path.len() - 1]);
        lemma_same_component_without_backslashes(path.drop_last());
    }
}

/// Unix and Windows take a path without backslashes apart in the same way. So of a
/// command that begins neither with a drive nor with two slashes,
/// `command_uses_powershell` has one answer.
pub proof fn law_slashes_mean_the_same(path: Seq<char>)
    requires
        forall|i: int| 0 <= i < path.len() ==> #[trigger] path[i] != '\\',
    ensures
        file_name(path, false) == file_name(path, true),
        path_stem(path, false) == path_stem(path, true),
    decreases path.len(),
{
    lemma_same_component_without_backslashes(path);
    if path.len() > 0 {
        law_slashes_mean_the_same(path.drop_last());
    }
}

proof fn lemma_backslashes_lead(count: nat, rest: Seq<char>)
    requires
        rest.len() > 0 ==> rest[0] != '\\',
    ensures
        leading_backslashes(backslashes(count) + rest) == count,
    decreases count,
{
    let text = backslashes(count) + rest;
    if count > 0 {
        assert(text[0] == '\\');
        assert(text.skip(1) =~= backslashes((count - 1) as nat) + rest);
        lemma_backslashes_lead((count - 1) as nat, rest);
    } else {
        assert(text =~= rest);
    }
}

/// An argument is written as it is, unless it is empty or holds a blank or a quote;
/// then it stands in quotes, and only then.
pub proof fn law_only_arguments_that_need_it_are_quoted(argument: Seq<char>, i: int)
    ensures
        argument.len() > 0 && (forall|k: int|
            0 <= k < argument.len() ==> #[trigger] argument[k] != ' ' && argument[k] != '\t'
                && argument[k] != '"') ==> quoted(argument) == argument,
        argument.len() == 0 ==> quoted(argument) == seq!['"', '"'],
        0 <= i < argument.len() && (argument[i] == ' ' || argument[i] == '\t' || argument[i] == '"')
            ==> quoted(argument) == seq!['"'] + escaped(argument) + seq!['"'],
{
    if argument.len() == 0 {
        assert(quoted(argument) =~= seq!['"', '"']);
    }
    if argument.len() > 0 && (forall|k: int|
        0 <= k < argument.len() ==> #[trigger] argument[k] != ' ' && argument[k] != '\t'
            && argument[k] != '"') {
        assert(!needs_quotes(argument));
    }
}

/// Between quotes, backslashes are doubled before a quote and at the end, a quote
/// gets one more, and everything else stands as it is.
pub proof fn law_escapes_before_quotes_only(count: nat, character: char, rest: Seq<char>)
    ensures
        escaped(backslashes(count)) == backslashes(2 * count),
        escaped(backslashes(count) + seq!['"'] + rest) == backslashes(2 * count + 1) + seq!['"']
            + escaped(rest),
        character != '"' && character != '\\' ==> escaped(
            backslashes(count) + seq![character] + rest,
        ) == backslashes(count) + seq![character] + escaped(rest),
{
    let all = backslashes(count);
    lemma_backslashes_lead(count, Seq::empty());
    assert(all + Seq::<char>::empty() =~= all);
    let before_quote = all + seq!['"'] + rest;
    assert(before_quote =~= all + (seq!['"'] + rest));
    lemma_backslashes_lead(count, seq!['"'] + rest);
    assert(before_quote.skip(count as int + 1) =~= rest);
    assert(escaped(before_quote) =~= backslashes(2 * count + 1) + seq!['"'] + escaped(rest));
    if character != '"' && character != '\\' {
        let before_other = all + seq![character] + rest;
        assert(before_other =~= all + (seq![character] + rest));
        lemma_backslashes_lead(count, seq![character] + rest);
        assert(before_other.skip(count as int + 1) =~= rest);
    }
}

/// A command line is the command between quotes, then each argument after a space,
/// in order.
pub proof fn law_arguments_follow_one_by_one(
    command: Seq<char>,
    arguments: Seq<Seq<char>>,
    argument: Seq<char>,
)
    ensures
        command_line(command, Seq::empty()) == seq!['"'] + command + seq!['"'],
        command_line(command, arguments.push(argument)) == command_line(command, arguments) + seq![
            ' ',
        ] + quoted(argument),
{
    assert(command_line(command, Seq::empty()) =~= seq!['"'] + command + seq!['"']);
    lemma_quoted_all_push(arguments, argument);
    assert(command_line(command, arguments.push(argument)) =~= command_line(command, arguments)
        + seq![' '] + quoted(argument));
}

proof fn lemma_quoted_all_push(arguments: Seq<Seq<char>>, argument: Seq<char>)
    ensures
        quoted_all(arguments.push(argument)) == quoted_all(arguments) + seq![' '] + quoted(
            argument,
        ),
    decreases arguments.len(),
{
    let all = arguments.push(argument);
    if arguments.len() == 0 {
        assert(all.skip(1) =~= Seq::empty());
        assert(quoted_all(all.skip(1)) =~= Seq::empty());
        assert(quoted_all(all) =~= quoted_all(arguments) + seq![' '] + quoted(argument));
    } else {
        assert(all.skip(1) =~= arguments.skip(1).push(argument));
        lemma_quoted_all_push(arguments.skip(1), argument);
        assert(quoted_all(all) =~= quoted_all(arguments) + seq![' '] + quoted(argument));
    }
}

/// A PowerShell has one of two names, in any mix of upper and lower case.
pub proof fn law_powershell_has_two_names(stem: Seq<char>, other: Seq<char>)
    ensures
        is_powershell(seq!['p', 'w', 's', 'h']),
        is_powershell(seq!['p', 'o', 'w', 'e', 'r', 's', 'h', 'e', 'l', 'l']),
        crate::text::ascii_lowercase(stem) == crate::text::ascii_lowercase(other) ==> is_powershell(
            stem,
        ) == is_powershell(other),
        is_powershell(stem) ==> crate::text::ascii_lowercase(stem) == seq!['p', 'w', 's', 'h']
            || crate::text::ascii_lowercase(stem) == seq![
            'p',
            'o',
            'w',
            'e',
            'r',
            's',
            'h',
            'e',
            'l',
            'l',
        ],
{
    reveal_strlit("pwsh");
    reveal_strlit("powershell");
    let short = seq!['p', 'w', 's', 'h'];
    let long = seq!['p', 'o', 'w', 'e', 'r', 's', 'h', 'e', 'l', 'l'];
    assert("pwsh"@ =~= short);
    assert("powershell"@ =~= long);
    assert(crate::text::ascii_lowercase(short) =~= short);
    assert(crate::text::ascii_lowercase(long) =~= long);
}

proof fn lemma_component_behind(front: Seq<char>, name: Seq<char>, windows: bool)
    requires
        front.len() > 0 ==> is_separator(front.last(), windows),
        forall|i: int| 0 <= i < name.len() ==> !is_separator(#[trigger] name[i], windows),
    ensures
        last_component(front + name, windows) == name,
    decreases name.len(),
{
    let path = front + name;
    if name.len() == 0 {
        assert(path =~= front);
        assert(last_component(path, windows) =~= name);
    } else {
        let before = name.drop_last();
        assert forall|i: int| 0 <= i < before.len() implies !is_separator(
            #[trigger] before[i],
            windows,
        ) by {
            assert(before[i] == name[i]);
        }
        lemma_component_behind(front, before, windows);
        assert(path.drop_last() =~= front + before);
        assert(path.last() == name[name.len() - 1]);
        assert(before.push(name.last()) =~= name);
    }
}

/// The name of a file is what stands behind the last separator: a slash, and on
/// Windows a backslash too. A separator or a single dot at the end changes nothing,
/// and a path that ends in two dots has no name.
pub proof fn law_name_stands_behind_the_last_separator(
    directory: Seq<char>,
    name: Seq<char>,
    path: Seq<char>,
    windows: bool,
)
    requires
        name.len() > 0,
        forall|i: int|
            0 <= i < name.len() ==> #[trigger] name[i] != '/' && (windows ==> name[i] != '\\'),
        name != seq!['.'],
        name != seq!['.', '.'],
    ensures
        file_name(name, windows) == Some(name),
        file_name(directory + seq!['/'] + name, windows) == Some(name),
        windows ==> file_name(directory + seq!['\\'] + name, windows) == Some(name),
        file_name(path + seq!['/'], windows) == file_name(path, windows),
        file_name(path + seq!['/', '.'], windows) == file_name(path, windows),
        file_name(path + seq!['/', '.', '.'], windows) is None,
        windows ==> file_name(path + seq!['\\'], windows) == file_name(path, windows),
        file_name(Seq::empty(), windows) is None,
        file_name(seq!['.'], windows) is None,
        file_name(seq!['.', '.'], windows) is None,
{
    let nothing = Seq::<char>::empty();
    lemma_component_behind(nothing, name, windows);
    assert(nothing + name =~= name);
    lemma_component_behind(directory + seq!['/'], name, windows);
    if windows {
        lemma_component_behind(directory + seq!['\\'], name, windows);
        let ended = path + seq!['\\'];
        assert(ended.drop_last() =~= path);
    }
    let ended = path + seq!['/'];
    assert(ended.drop_last() =~= path);
    let dotted = path + seq!['/', '.'];
    assert(dotted =~= ended + seq!['.']);
    lemma_component_behind(ended, seq!['.'], windows);
    assert(dotted.drop_last() =~= ended);
    let parent = path + seq!['/', '.', '.'];
    assert(parent =~= ended + seq!['.', '.']);
    lemma_component_behind(ended, seq!['.', '.'], windows);
    lemma_component_behind(nothing, seq!['.'], windows);
    lemma_component_behind(nothing, seq!['.', '.'], windows);
    assert(nothing + seq!['.'] =~= seq!['.']);
    assert(nothing + seq!['.', '.'] =~= seq!['.', '.']);
    assert(seq!['.'].drop_last() =~= nothing);
}

proof fn lemma_last_dot_behind(front: Seq<char>, extension: Seq<char>)
    requires
        front.len() > 0 ==> front.last() == '.',
        forall|i: int| 0 <= i < extension.len() ==> #[trigger] extension[i] != '.',
    ensures
        last_dot(front + extension) == front.len() - 1,
    decreases extension.len(),
{
    let name = front + extension;
    if extension.len() == 0 {
        assert(name =~= front);
    } else {
        let before = extension.drop_last();
        assert forall|i: int| 0 <= i < before.len() implies #[trigger] before[i] != '.' by {
            assert(before[i] == extension[i]);
        }
        lemma_last_dot_behind(front, before);
        assert(name.drop_last() =~= front + before);
        assert(name.last() == extension[extension.len() - 1]);
    }
}

/// A name loses what stands behind its last dot, and that dot; one without a dot,
/// or with none but at its beginning, stays as it is.
pub proof fn law_stem_stands_before_the_last_dot(stem: Seq<char>, extension: Seq<char>)
    requires
        forall|i: int| 0 <= i < extension.len() ==> #[trigger] extension[i] != '.',
    ensures
        stem.len() > 0 ==> stem_of(stem + seq!['.'] + extension) == stem,
        stem_of(extension) == extension,
        stem_of(seq!['.'] + extension) == seq!['.'] + extension,
{
    let nothing = Seq::<char>::empty();
    lemma_last_dot_behind(stem + seq!['.'], extension);
    assert((stem + seq!['.'] + extension).take(stem.len() as int) =~= stem);
    lemma_last_dot_behind(nothing, extension);
    assert(nothing + extension =~= extension);
    lemma_last_dot_behind(seq!['.'], extension);
}

/// The stem of a path is that of its name, and the answer goes by it.
pub proof fn law_path_stem_is_that_of_its_name(path: Seq<char>, windows: bool)
    ensures
        file_name(path, windows) is None ==> path_stem(path, windows) is None
            && !names_powershell(path_stem(path, windows)),
        file_name(path, windows) matches Some(name) ==> path_stem(path, windows) == Some(
            stem_of(name),
        ) && names_powershell(path_stem(path, windows)) == is_powershell(stem_of(name)),
{
}

/// A command runs in its own directory where it has one that exists: that reads back
/// from UTF-16 up to the zero at its end. Otherwise it runs where its parent does.
pub proof fn law_command_runs_in_its_directory(cwd: Seq<char>, is_directory: bool)
    ensures
        directory_units(Some(cwd), true) matches Some(units) && {
            &&& units.len() > 0
            &&& units.last() == 0
            &&& crate::utf16::text_of(units.drop_last()) == Some(cwd)
        },
        directory_units(Some(cwd), false) is None,
        directory_units(None, is_directory) is None,
{
    crate::utf16::law_utf16_reads_back(cwd);
    assert(crate::utf16::units_of(cwd).push(0).drop_last() =~= crate::utf16::units_of(cwd));
}

/// The arguments of a command are taken as their texts, one by one.
pub proof fn law_values_of_arguments(strings: Seq<String>, i: int, text: String)
    requires
        0 <= i < strings.len(),
    ensures
        texts(strings).len() == strings.len(),
        texts(strings)[i] == strings[i]@,
        text_in(Some(text)) == Some(text@),
        text_in(None) is None,
{
}

} // verus!
