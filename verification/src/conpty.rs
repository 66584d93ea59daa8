//! Pseudo consoles: their flags, what is tried when they refuse one, and which
//! failures matter.
use crate::text::{chars_of, is_text};
use vstd::prelude::*;

verus! {

/// The first build of Windows whose pseudo consoles can pass output through.
pub const PASSTHROUGH_MIN_BUILD: u32 = 22_621;

/// The environment variable that turns passing output through off.
pub const DISABLE_PASSTHROUGH_ENV: &'static str = "ZELLIJ_CONPTY_NO_PASSTHROUGH";

/// The bit of a pseudo console that does not repaint when its size changes.
pub const RESIZE_QUIRK_BIT: u32 = 0x2;

/// The bit of a pseudo console that takes input as whole key events.
pub const WIN32_INPUT_MODE_BIT: u32 = 0x4;

/// The bit of a pseudo console that passes output through.
pub const PASSTHROUGH_MODE_BIT: u32 = 0x8;

/// The flags of a pseudo console.
#[derive(Clone, Copy, Debug, Eq, PartialEq, Structural)]
pub struct ConPtyFlags(pub u32);

/// The flags without the one that passes output through.
pub open spec fn plain_flags() -> ConPtyFlags {
    ConPtyFlags(0x6)
}

/// All flags.
pub open spec fn passthrough_flags() -> ConPtyFlags {
    ConPtyFlags(0xe)
}

impl ConPtyFlags {
    /// Whether all bits of `other` are set.
    pub open spec fn includes(self, other: ConPtyFlags) -> bool {
        self.0 & other.0 == other.0
    }

    /// Whether output is passed through.
    pub open spec fn passes_through(self) -> bool {
        self.includes(ConPtyFlags(PASSTHROUGH_MODE_BIT))
    }

    /// The flag of a pseudo console that does not repaint when its size changes.
    pub fn resize_quirk() -> (flags: ConPtyFlags)
        ensures
            flags == ConPtyFlags(RESIZE_QUIRK_BIT),
    {
        ConPtyFlags(RESIZE_QUIRK_BIT)
    }

    /// The flag of a pseudo console that takes input as whole key events.
    pub fn win32_input_mode() -> (flags: ConPtyFlags)
        ensures
            flags == ConPtyFlags(WIN32_INPUT_MODE_BIT),
    {
        ConPtyFlags(WIN32_INPUT_MODE_BIT)
    }

    /// The flag of a pseudo console that passes output through.
    pub fn passthrough_mode() -> (flags: ConPtyFlags)
        ensures
            flags == ConPtyFlags(PASSTHROUGH_MODE_BIT),
    {
        ConPtyFlags(PASSTHROUGH_MODE_BIT)
    }

    /// No flag.
    pub fn empty() -> (flags: ConPtyFlags)
        ensures
            flags == ConPtyFlags(0),
    {
        ConPtyFlags(0)
    }

    /// The flags as a number.
    pub fn bits(self) -> (bits: u32)
        ensures
            bits == self.0,
    {
        self.0
    }

    /// Whether all bits of `other` are set.
    pub fn contains(self, other: ConPtyFlags) -> (included: bool)
        ensures
            included == self.includes(other),
    {
        self.0 & other.0 == other.0
    }

    /// Whether output is passed through.
    pub fn uses_passthrough(self) -> (passes: bool)
        ensures
            passes == self.passes_through(),
    {
        self.contains(Self::passthrough_mode())
    }
}

impl core::ops::BitOr for ConPtyFlags {
    type Output = ConPtyFlags;

    fn bitor(self, rhs: ConPtyFlags) -> (both: ConPtyFlags) {
        ConPtyFlags(self.0 | rhs.0)
    }
}

impl vstd::std_specs::ops::BitOrSpecImpl for ConPtyFlags {
    open spec fn obeys_bitor_spec() -> bool {
        true
    }

    open spec fn bitor_req(self, rhs: ConPtyFlags) -> bool {
        true
    }

    open spec fn bitor_spec(self, rhs: ConPtyFlags) -> ConPtyFlags {
        ConPtyFlags(self.0 | rhs.0)
    }
}

/// The flags of a pseudo console on the build `windows_build`.
pub open spec fn flags_for(windows_build: u32, passthrough_disabled: bool) -> ConPtyFlags {
    if !passthrough_disabled && windows_build >= PASSTHROUGH_MIN_BUILD {
        passthrough_flags()
    } else {
        plain_flags()
    }
}

/// What is tried after `flags` were refused: all but passing output through, then
/// no flags at all.
pub open spec fn flags_after_refusal(flags: ConPtyFlags) -> Option<ConPtyFlags> {
    if flags.passes_through() {
        Some(plain_flags())
    } else if flags.0 != 0 {
        Some(ConPtyFlags(0))
    } else {
        None
    }
}

/// The flags without the one that passes output through.
pub fn conpty_flags_without_passthrough() -> (flags: ConPtyFlags)
    ensures
        flags == plain_flags(),
{
    assert(0x2u32 | 0x4u32 == 0x6u32) by (bit_vector);
    ConPtyFlags::resize_quirk() | ConPtyFlags::win32_input_mode()
}

/// The flags of a pseudo console on the build `windows_build`.
pub fn select_conpty_flags(windows_build: u32, passthrough_disabled: bool) -> (flags: ConPtyFlags)
    ensures
        flags == flags_for(windows_build, passthrough_disabled),
{
    let flags = conpty_flags_without_passthrough();
    if !passthrough_disabled && windows_build >= PASSTHROUGH_MIN_BUILD {
        assert(0x6u32 | 0x8u32 == 0xeu32) by (bit_vector);
        flags | ConPtyFlags::passthrough_mode()
    } else {
        flags
    }
}

/// Whether the value `value` of an environment variable is a yes.
pub open spec fn is_yes(value: Seq<char>) -> bool {
    value == "1"@ || value == "true"@ || value == "TRUE"@ || value == "yes"@ || value == "YES"@
}

/// Whether an environment variable with the value `value` is a yes.
pub fn env_flag(value: Option<&str>) -> (flag: bool)
    ensures
        flag == match value {
            Some(value) => is_yes(value@),
            None => false,
        },
        value is None ==> !flag,
{
    match value {
        Some(value) => {
            let value = chars_of(value);
            is_text(&value, "1") || is_text(&value, "true") || is_text(&value, "TRUE") || is_text(
                &value,
                "yes",
            ) || is_text(&value, "YES")
        },
        None => false,
    }
}

/// The flags of a pseudo console by the value of a variable and the build of Windows,
/// as far as these are known.
pub open spec fn chosen_flags(disable: Option<Seq<char>>, windows_build: Option<u32>) -> ConPtyFlags {
    flags_for(
        match windows_build {
            Some(build) => build,
            None => 0,
        },
        match disable {
            Some(value) => is_yes(value),
            None => false,
        },
    )
}

/// The flags of a pseudo console where the variable that turns passing output
/// through off has the value `disable`, on the build `windows_build`; where that
/// could not be found out, output is not passed through.
pub fn selected_conpty_flags(disable: Option<&str>, windows_build: Option<u32>) -> (flags:
    ConPtyFlags)
    ensures
        flags == flags_for(
            match windows_build {
                Some(build) => build,
                None => 0,
            },
            match disable {
                Some(value) => is_yes(value@),
                None => false,
            },
        ),
        flags == chosen_flags(
            match disable {
                Some(value) => Some(value@),
                None => None,
            },
            windows_build,
        ),
{
    let build: u32 = match windows_build {
        Some(build) => build,
        None => 0,
    };
    select_conpty_flags(build, env_flag(disable))
}

/// The build of Windows, where it was found out.
pub open spec fn build_of(status: i32, build_number: u32) -> Result<u32, i32> {
    if status < 0 {
        Err(status)
    } else {
        Ok(build_number)
    }
}

/// The build of Windows, where `status` says that it was found out; otherwise the
/// status.
pub fn current_windows_build(status: i32, build_number: u32) -> (build: Result<u32, i32>)
    ensures
        build == if status < 0 {
            Err::<u32, i32>(status)
        } else {
            Ok::<u32, i32>(build_number)
        },
        build == build_of(status, build_number),
{
    if status < 0 {
        Err(status)
    } else {
        Ok(build_number)
    }
}

/// What is tried after `flags` were refused.
pub fn fallback_conpty_flags(flags: ConPtyFlags) -> (fallback: Option<ConPtyFlags>)
    ensures
        fallback == flags_after_refusal(flags),
{
    if flags.contains(ConPtyFlags::passthrough_mode()) {
        Some(conpty_flags_without_passthrough())
    } else if flags.bits() != 0 {
        Some(ConPtyFlags::empty())
    } else {
        None
    }
}

/// Whether the result `hr` of changing the size of a pseudo console only says
/// that its process is gone: its handle is invalid, or its pipe broken.
pub open spec fn is_resize_after_exit(hr: i32) -> bool {
    hr == -2147024890 || hr == -2147024787
}

/// Whether the result `hr` of changing the size of a pseudo console only says
/// that its process is gone.
pub fn is_benign_resize_after_exit_hresult(hr: i32) -> (benign: bool)
    ensures
        benign == is_resize_after_exit(hr),
        benign == (hr as u32 == 0x8007_0006 || hr as u32 == 0x8007_006d),
{
    assert(hr as u32 == 0x8007_0006u32 <==> hr == -2147024890i32) by (bit_vector);
    assert(hr as u32 == 0x8007_006du32 <==> hr == -2147024787i32) by (bit_vector);
    hr == -2147024890 || hr == -2147024787
}

/// Whether a process that could not be started with `flags`, with the error code
/// `code`, is tried again on a pseudo console that does not pass output through.
pub open spec fn wants_plain_console(flags: ConPtyFlags, code: Option<i32>) -> bool {
    flags.passes_through() && code == Some(87i32)
}

/// Whether a process that could not be started with `flags` is tried again on a
/// pseudo console that does not pass output through: the error says that a
/// parameter was not accepted.
pub fn should_recreate_without_passthrough(flags: ConPtyFlags, code: Option<i32>) -> (recreate: bool)
    ensures
        recreate == wants_plain_console(flags, code),
{
    flags.uses_passthrough() && match code {
        Some(code) => code >= 0 && code as u32 == crate::win32::error_invalid_parameter(),
        None => false,
    }
}

/// The flags with which a process is started: its startup information is
/// extended, its environment is UTF-16, and it starts suspended.
pub open spec fn creation_flags(breakaway_from_job: bool) -> u32 {
    if breakaway_from_job {
        0x0108_0404
    } else {
        0x0008_0404
    }
}

/// The flags with which a process is started; `breakaway_from_job` if it is kept
/// out of its parent's job.
pub fn child_process_creation_flags(breakaway_from_job: bool) -> (flags: u32)
    ensures
        flags == creation_flags(breakaway_from_job),
{
    let flags: u32 = crate::win32::extended_startupinfo_present()
        | crate::win32::create_unicode_environment() | crate::win32::create_suspended();
    assert(0x0008_0000u32 | 0x0000_0400u32 | 0x0000_0004u32 == 0x0008_0404u32) by (bit_vector);
    if breakaway_from_job {
        assert(0x0008_0404u32 | 0x0100_0000u32 == 0x0108_0404u32) by (bit_vector);
        flags | crate::win32::create_breakaway_from_job()
    } else {
        flags
    }
}

/// The flags that are tried one after the other, `flags` first, as long as all
/// are refused.
pub open spec fn tried_flags(flags: ConPtyFlags, tries: nat) -> Seq<ConPtyFlags>
    decreases tries,
{
    if tries == 0 {
        Seq::empty()
    } else {
        match flags_after_refusal(flags) {
            None => seq![flags],
            Some(next) => seq![flags] + tried_flags(next, (tries - 1) as nat),
        }
    }
}

/// The facts about the bits of the flags that are used.
pub proof fn law_flag_bits()
    ensures
        passthrough_flags().includes(ConPtyFlags(RESIZE_QUIRK_BIT)),
        passthrough_flags().includes(ConPtyFlags(WIN32_INPUT_MODE_BIT)),
        passthrough_flags().passes_through(),
        plain_flags().includes(ConPtyFlags(RESIZE_QUIRK_BIT)),
        plain_flags().includes(ConPtyFlags(WIN32_INPUT_MODE_BIT)),
        !plain_flags().passes_through(),
        !ConPtyFlags(0).passes_through(),
{
    assert(0xeu32 & 0x2u32 == 0x2u32 && 0xeu32 & 0x4u32 == 0x4u32 && 0xeu32 & 0x8u32 == 0x8u32
        && 0x6u32 & 0x2u32 == 0x2u32 && 0x6u32 & 0x4u32 == 0x4u32 && 0x6u32 & 0x8u32 == 0
        && 0u32 & 0x8u32 == 0) by (bit_vector);
}

/// Every pseudo console does not repaint when its size changes and takes input as
/// whole key events; it passes output through exactly if the build can and nobody
/// turned that off.
pub proof fn law_selected_flags(windows_build: u32, passthrough_disabled: bool)
    ensures
        flags_for(windows_build, passthrough_disabled).includes(ConPtyFlags(RESIZE_QUIRK_BIT)),
        flags_for(windows_build, passthrough_disabled).includes(ConPtyFlags(WIN32_INPUT_MODE_BIT)),
        flags_for(windows_build, passthrough_disabled).passes_through() == (!passthrough_disabled
            && windows_build >= PASSTHROUGH_MIN_BUILD),
{
    law_flag_bits();
}

/// Falling back ends: whatever flags are tried first, after at most three
/// refusals nothing is left to try, passing output through is given up first,
/// and no flags at all are tried last.
pub proof fn law_fallback_ends(flags: ConPtyFlags)
    ensures
        tried_flags(flags, 3) == tried_flags(flags, 4),
        1 <= tried_flags(flags, 3).len() <= 3,
        tried_flags(flags, 3)[0] == flags,
        tried_flags(flags, 3).last() == ConPtyFlags(0),
        forall|i: int|
            1 <= i < tried_flags(flags, 3).len() ==> !(#[trigger] tried_flags(
                flags,
                3,
            )[i]).passes_through(),
{
    reveal_with_fuel(tried_flags, 5);
    law_flag_bits();
    let nothing = ConPtyFlags(0);
    let plain = plain_flags();
    assert(flags_after_refusal(nothing) is None);
    assert(flags_after_refusal(plain) == Some(nothing));
    if flags.passes_through() {
        assert(tried_flags(flags, 3) =~= seq![flags, plain, nothing]);
        assert(tried_flags(flags, 4) =~= seq![flags, plain, nothing]);
    } else if flags.0 != 0 {
        assert(tried_flags(flags, 3) =~= seq![flags, nothing]);
        assert(tried_flags(flags, 4) =~= seq![flags, nothing]);
    } else {
        assert(tried_flags(flags, 3) =~= seq![nothing]);
        assert(tried_flags(flags, 4) =~= seq![nothing]);
    }
}

/// The flags of a pseudo console, bit by bit: 2 and 4 always, 8 exactly from build
/// 22621 on and where nobody turned that off, and no others.
pub proof fn law_selected_bits(windows_build: u32, passthrough_disabled: bool)
    ensures
        windows_build >= 22621 && !passthrough_disabled ==> flags_for(
            windows_build,
            passthrough_disabled,
        ).0 == 2 + 4 + 8,
        windows_build < 22621 || passthrough_disabled ==> flags_for(
            windows_build,
            passthrough_disabled,
        ).0 == 2 + 4,
{
}

/// Whether flags hold others is told bit by bit: those that two flags add up to
/// hold both, none holds everything but itself and nothing, and passing output
/// through is the bit 8.
pub proof fn law_flags_hold_their_bits(first: ConPtyFlags, second: ConPtyFlags)
    ensures
        ConPtyFlags(first.0 | second.0).includes(first),
        ConPtyFlags(first.0 | second.0).includes(second),
        first.includes(ConPtyFlags(0)),
        ConPtyFlags(0).includes(second) <==> second.0 == 0,
        first.includes(second) && second.includes(first) <==> first == second,
        first.passes_through() <==> (first.0 / 8) % 2 == 1,
{
    let a = first.0;
    let b = second.0;
    assert((a | b) & a == a && (a | b) & b == b && a & 0 == 0 && 0 & b == 0) by (bit_vector);
    assert(a & b == b && b & a == a ==> a == b) by (bit_vector);
    assert(a & a == a) by (bit_vector);
    assert(a & 8 == 8 <==> (a / 8) % 2 == 1) by (bit_vector);
}

/// What is tried after a refusal: where output was to be passed through, the same
/// without that; where there were other flags, none; where there were none, nothing.
pub proof fn law_refused_flags_are_given_up(flags: ConPtyFlags)
    ensures
        (flags.0 / 8) % 2 == 1 ==> flags_after_refusal(flags) == Some(ConPtyFlags(6)),
        (flags.0 / 8) % 2 == 0 && flags.0 != 0 ==> flags_after_refusal(flags) == Some(
            ConPtyFlags(0),
        ),
        flags.0 == 0 ==> flags_after_refusal(flags) is None,
{
    law_flags_hold_their_bits(flags, flags);
    law_flag_bits();
}

/// The pseudo console is made anew exactly if output was to be passed through and
/// the error is that a parameter was not accepted, which has the code 87.
pub proof fn law_only_a_refused_parameter_remakes_the_console(
    flags: ConPtyFlags,
    code: Option<i32>,
)
    ensures
        wants_plain_console(flags, code) ==> (flags.0 / 8) % 2 == 1,
        wants_plain_console(flags, code) ==> code == Some(87i32),
        (flags.0 / 8) % 2 == 1 ==> wants_plain_console(flags, Some(87i32)),
{
    law_flags_hold_their_bits(flags, flags);
}

/// A process is started suspended, with a UTF-16 environment and extended startup
/// information; it is kept out of its parent's job exactly if that is asked for.
pub proof fn law_creation_flags_bit_by_bit(breakaway_from_job: bool)
    ensures
        creation_flags(breakaway_from_job) == 0x4 + 0x400 + 0x8_0000 + (if breakaway_from_job {
            0x100_0000int
        } else {
            0
        }),
{
}

/// After the end of a process its pseudo console has an invalid handle or a broken
/// pipe, which are the errors 6 and 109 of the system; no other result is harmless.
pub proof fn law_harmless_results_of_resizing(hr: i32)
    ensures
        is_resize_after_exit(hr) <==> hr + 0x1_0000_0000 == 0x8007_0000 + 6 || hr + 0x1_0000_0000
            == 0x8007_0000 + 109,
{
}

/// A variable says yes in five ways only.
pub proof fn law_yes_is_said_in_five_ways(value: Seq<char>)
    ensures
        is_yes(value) <==> value == seq!['1'] || value == seq!['t', 'r', 'u', 'e'] || value == seq![
            'T',
            'R',
            'U',
            'E',
        ] || value == seq!['y', 'e', 's'] || value == seq!['Y', 'E', 'S'],
{
    reveal_strlit("1");
    reveal_strlit("true");
    reveal_strlit("TRUE");
    reveal_strlit("yes");
    reveal_strlit("YES");
    assert("1"@ =~= seq!['1']);
    assert("true"@ =~= seq!['t', 'r', 'u', 'e']);
    assert("TRUE"@ =~= seq!['T', 'R', 'U', 'E']);
    assert("yes"@ =~= seq!['y', 'e', 's']);
    assert("YES"@ =~= seq!['Y', 'E', 'S']);
}

/// Output is passed through where the build is known and can do it, unless the
/// variable says yes; what else the variable says, or that there is none, changes
/// nothing.
pub proof fn law_passthrough_needs_a_known_build(disable: Seq<char>, windows_build: u32)
    ensures
        chosen_flags(None, Some(windows_build)).0 == 2 + 4 + (if windows_build >= 22621 {
            8int
        } else {
            0
        }),
        !is_yes(disable) ==> chosen_flags(Some(disable), Some(windows_build)) == chosen_flags(
            None,
            Some(windows_build),
        ),
        is_yes(disable) ==> chosen_flags(Some(disable), Some(windows_build)).0 == 2 + 4,
        chosen_flags(None, None).0 == 2 + 4,
        chosen_flags(Some(disable), None).0 == 2 + 4,
{
}

/// The build is known unless asking for it failed, which a negative status says.
pub proof fn law_negative_status_is_a_failure(status: i32, build_number: u32)
    ensures
        status >= 0 ==> build_of(status, build_number) == Ok::<u32, i32>(build_number),
        status < 0 ==> build_of(status, build_number) == Err::<u32, i32>(status),
{
}

} // verus!
