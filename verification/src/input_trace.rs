//! Tracing of input: whether it is on, and how bytes are shown.
use crate::text::{is_text, push_decimal, push_hex, to_ascii_lowercase};
use vstd::prelude::*;
use vstd::string::StringExecFns;

verus! {

/// The environment variable that turns tracing on.
pub const INPUT_TRACE_ENV: &'static str = "ZELLIJ_INPUT_TRACE";

/// How many bytes are shown.
pub const MAX_PREVIEW_BYTES: usize = 128;

/// Whether the value `value` of the variable turns tracing on: `1`, `true`,
/// `yes` or `on`, in upper or lower case.
pub open spec fn turns_tracing_on(value: Seq<char>) -> bool {
    let lower = crate::text::ascii_lowercase(value);
    lower == "1"@ || lower == "true"@ || lower == "yes"@ || lower == "on"@
}

/// Whether tracing is on where the variable has the value `value`.
pub fn env_value_enabled(value: Option<&str>) -> (enabled: bool)
    ensures
        enabled == match value {
            Some(value) => turns_tracing_on(value@),
            None => false,
        },
{
    match value {
        Some(value) => {
            let lower = to_ascii_lowercase(value);
            is_text(&lower, "1") || is_text(&lower, "true") || is_text(&lower, "yes") || is_text(
                &lower,
                "on",
            )
        },
        None => false,
    }
}

/// `bytes` in hexadecimal, with a space between two bytes.
pub open spec fn hex_list(bytes: Seq<u8>) -> Seq<char>
    decreases bytes.len(),
{
    if bytes.len() == 0 {
        Seq::empty()
    } else if bytes.len() == 1 {
        crate::text::hex_text(bytes[0])
    } else {
        hex_list(bytes.drop_last()) + " "@ + crate::text::hex_text(bytes.last())
    }
}

/// How `byte` is shown as text: as its character where it has a visible one.
pub open spec fn shown_byte(byte: u8) -> Seq<char> {
    if byte == 0x1b {
        "ESC"@
    } else if byte == 0x0d {
        "\\r"@
    } else if byte == 0x0a {
        "\\n"@
    } else if byte == 0x09 {
        "\\t"@
    } else if 0x20 <= byte <= 0x7e {
        seq![byte as char]
    } else {
        "\\x"@ + crate::text::hex_text(byte)
    }
}

/// How `bytes` are shown as text.
pub open spec fn shown_bytes(bytes: Seq<u8>) -> Seq<char>
    decreases bytes.len(),
{
    if bytes.len() == 0 {
        Seq::empty()
    } else {
        shown_bytes(bytes.drop_last()) + shown_byte(bytes.last())
    }
}

/// The part of `bytes` that is shown.
pub open spec fn preview(bytes: Seq<u8>) -> Seq<u8> {
    if bytes.len() > MAX_PREVIEW_BYTES {
        bytes.take(MAX_PREVIEW_BYTES as int)
    } else {
        bytes
    }
}

/// The line that shows `bytes`: how many there are, how many are shown, and
/// those in hexadecimal and as text.
pub open spec fn formatted(bytes: Seq<u8>) -> Seq<char> {
    "len="@ + crate::text::decimal_text(bytes.len()) + " preview_len="@
        + crate::text::decimal_text(preview(bytes).len()) + " hex=["@ + hex_list(preview(bytes))
        + "] ascii=\""@ + shown_bytes(preview(bytes)) + "\""@ + (if bytes.len()
        > MAX_PREVIEW_BYTES {
        " truncated=true"@
    } else {
        ""@
    })
}

fn push_shown_byte(text: &mut String, byte: u8)
    ensures
        final(text)@ == old(text)@ + shown_byte(byte),
{
    match byte {
        0x1b => text.append("ESC"),
        0x0d => text.append("\\r"),
        0x0a => text.append("\\n"),
        0x09 => text.append("\\t"),
        _ => {
            if 0x20 <= byte && byte <= 0x7e {
                text.push(byte as char);
                assert(text@ =~= old(text)@ + seq![byte as char]);
            } else {
                text.append("\\x");
                push_hex(text, byte);
                assert(text@ =~= old(text)@ + shown_byte(byte));
            }
        },
    }
}

/// Shows `bytes` in one line.
pub fn format_bytes(bytes: &[u8]) -> (text: String)
    ensures
        text@ == formatted(bytes@),
{
    let truncated = bytes.len() > MAX_PREVIEW_BYTES;
    let preview_len: usize = if truncated {
        MAX_PREVIEW_BYTES
    } else {
        bytes.len()
    };
    let ghost shown = preview(bytes@);
    assert(shown =~= bytes@.take(preview_len as int));
    let mut hex = String::new();
    let mut ascii = String::new();
    let mut i: usize = 0;
    while i < preview_len
        invariant
            i <= preview_len <= bytes@.len(),
            shown == bytes@.take(preview_len as int),
            hex@ == hex_list(shown.take(i as int)),
            ascii@ == shown_bytes(shown.take(i as int)),
        decreases preview_len - i,
    {
        let byte: u8 = bytes[i];
        assert(shown.take(i + 1).drop_last() =~= shown.take(i as int));
        assert(shown.take(i + 1).last() == byte);
        if i > 0 {
            hex.append(" ");
        }
        push_hex(&mut hex, byte);
        assert(hex@ =~= hex_list(shown.take(i + 1)));
        push_shown_byte(&mut ascii, byte);
        i = i + 1;
    }
    assert(shown.take(i as int) =~= shown);
    let mut text = String::new();
    text.append("len=");
    push_decimal(&mut text, bytes.len() as u64);
    text.append(" preview_len=");
    push_decimal(&mut text, preview_len as u64);
    text.append(" hex=[");
    text.append(hex.as_str());
    text.append("] ascii=\"");
    text.append(ascii.as_str());
    text.append("\"");
    if truncated {
        text.append(" truncated=true");
    } else {
        text.append("");
    }
    assert(text@ =~= formatted(bytes@));
    text
}

/// Tracing is turned on by four words, in any mix of upper and lower case, and by
/// nothing else.
pub proof fn law_tracing_is_turned_on_by_four_words(value: Seq<char>, other: Seq<char>)
    ensures
        turns_tracing_on("1"@),
        turns_tracing_on("true"@),
        turns_tracing_on("yes"@),
        turns_tracing_on("on"@),
        crate::text::ascii_lowercase(value) == crate::text::ascii_lowercase(other)
            ==> turns_tracing_on(value) == turns_tracing_on(other),
        turns_tracing_on(value) ==> {
            let lower = crate::text::ascii_lowercase(value);
            lower == "1"@ || lower == "true"@ || lower == "yes"@ || lower == "on"@
        },
{
    reveal_strlit("1");
    reveal_strlit("true");
    reveal_strlit("yes");
    reveal_strlit("on");
    assert(crate::text::ascii_lowercase("1"@) =~= "1"@);
    assert(crate::text::ascii_lowercase("true"@) =~= "true"@);
    assert(crate::text::ascii_lowercase("yes"@) =~= "yes"@);
    assert(crate::text::ascii_lowercase("on"@) =~= "on"@);
}

/// The first 128 bytes are shown, or all of them where there are no more.
pub proof fn law_first_bytes_are_shown(bytes: Seq<u8>)
    ensures
        bytes.len() <= 128 ==> preview(bytes) == bytes,
        bytes.len() > 128 ==> preview(bytes) == bytes.take(128),
{
}

/// Bytes in hexadecimal: two digits each, in order, with one space between two.
pub proof fn law_hex_list_shows_each_byte(bytes: Seq<u8>, i: int)
    requires
        0 <= i < bytes.len(),
    ensures
        hex_list(Seq::empty()) == Seq::<char>::empty(),
        hex_list(bytes).len() == 3 * bytes.len() - 1,
        hex_list(bytes)[3 * i] == crate::text::hex_text(bytes[i])[0],
        hex_list(bytes)[3 * i + 1] == crate::text::hex_text(bytes[i])[1],
        i < bytes.len() - 1 ==> hex_list(bytes)[3 * i + 2] == ' ',
    decreases bytes.len(),
{
    reveal_strlit(" ");
    if bytes.len() > 1 {
        let before = bytes.drop_last();
        let all = hex_list(bytes);
        if i < before.len() {
            law_hex_list_shows_each_byte(before, i);
            assert(all[3 * i] == hex_list(before)[3 * i]);
            assert(all[3 * i + 1] == hex_list(before)[3 * i + 1]);
        } else {
            law_hex_list_shows_each_byte(before, 0);
        }
    }
}

/// Bytes as text come one after the other: a visible character as itself, escape,
/// tab and the ends of lines by name, any other byte in hexadecimal.
pub proof fn law_bytes_are_shown_one_by_one(bytes: Seq<u8>, byte: u8)
    ensures
        shown_bytes(Seq::empty()) == Seq::<char>::empty(),
        0x20 <= byte <= 0x7e ==> shown_bytes(bytes.push(byte)) == shown_bytes(bytes) + seq![
            byte as char,
        ],
        byte == 0x1b ==> shown_bytes(bytes.push(byte)) == shown_bytes(bytes) + "ESC"@,
        byte == 0x0d ==> shown_bytes(bytes.push(byte)) == shown_bytes(bytes) + "\\r"@,
        byte == 0x0a ==> shown_bytes(bytes.push(byte)) == shown_bytes(bytes) + "\\n"@,
        byte == 0x09 ==> shown_bytes(bytes.push(byte)) == shown_bytes(bytes) + "\\t"@,
        (byte < 0x20 || byte > 0x7e) && byte != 0x1b && byte != 0x0d && byte != 0x0a && byte != 0x09
            ==> shown_bytes(bytes.push(byte)) == shown_bytes(bytes) + ("\\x"@
            + crate::text::hex_text(byte)),
{
    assert(bytes.push(byte).drop_last() =~= bytes);
}

/// The line begins with how many bytes there are and how many are shown, shows these
/// in both ways, and says in the end whether any were left out.
pub proof fn law_line_tells_what_it_shows(bytes: Seq<u8>, shown: Seq<u8>)
    requires
        shown.len() <= bytes.len(),
        shown == bytes.take(shown.len() as int),
        shown.len() == 128 || shown.len() == bytes.len(),
        shown.len() <= 128,
    ensures
        ({
            let line = "len="@ + crate::text::decimal_text(bytes.len()) + " preview_len="@
                + crate::text::decimal_text(shown.len()) + " hex=["@ + hex_list(shown)
                + "] ascii=\""@ + shown_bytes(shown) + "\""@;
            &&& shown.len() == bytes.len() ==> formatted(bytes) == line
            &&& shown.len() < bytes.len() ==> formatted(bytes) == line + " truncated=true"@
        }),
{
    reveal_strlit("");
    assert(bytes.take(bytes.len() as int) =~= bytes);
    assert(shown =~= preview(bytes));
    let line = "len="@ + crate::text::decimal_text(bytes.len()) + " preview_len="@
        + crate::text::decimal_text(shown.len()) + " hex=["@ + hex_list(shown) + "] ascii=\""@
        + shown_bytes(shown) + "\""@;
    assert(line + ""@ =~= line);
}

} // verus!
