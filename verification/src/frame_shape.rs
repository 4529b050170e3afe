//! What may be shown of a control frame: its shape, and nothing of what it
//! holds.

use vstd::prelude::*;
use vstd::string::*;

use crate::frame::{ControlFrame, Frame};
use crate::process::{LaunchFlags, LaunchMode};
use crate::text::{append_text, chars_of, decimal_digits, digits_of, extend, string_of};

verus! {

pub open spec fn mode_name(mode: LaunchMode) -> Seq<char> {
    match mode {
        LaunchMode::Agent => "Agent"@,
        LaunchMode::Pueue => "Pueue"@,
    }
}

pub open spec fn truth(yes: bool) -> Seq<char> {
    if yes {
        "true"@
    } else {
        "false"@
    }
}

/// The shape of a frame: its mode and flags, how much it holds, and what is
/// there.
pub open spec fn shape_form(
    mode: LaunchMode,
    flags: LaunchFlags,
    arguments: nat,
    entries: nat,
    present: (bool, bool, bool, bool),
) -> Seq<char> {
    "ControlFrame { mode: "@ + mode_name(mode) + ", flags: LaunchFlags("@ + digits_of(
        flags.bits as nat,
    ) + "), argv_count: "@ + digits_of(arguments) + ", environment_count: "@ + digits_of(entries)
        + ", cwd_present: "@ + truth(present.0) + ", target_identity_present: true"@
        + ", project_root_identity_present: "@ + truth(present.1)
        + ", agent_log_identity_present: "@ + truth(present.2)
        + ", pueue_config_identity_present: "@ + truth(present.3) + " }"@
}

pub open spec fn shape_text_of(frame: Frame) -> Seq<char> {
    shape_form(
        frame.mode,
        frame.flags,
        frame.argv.len(),
        frame.environment.len(),
        (
            frame.cwd is Some,
            frame.project_root_identity is Some,
            frame.agent_log_identity is Some,
            frame.pueue_config_identity is Some,
        ),
    )
}

fn append_truth(chars: &mut Vec<char>, yes: bool)
    ensures
        final(chars)@ == old(chars)@ + truth(yes),
{
    if yes {
        append_text(chars, "true");
    } else {
        append_text(chars, "false");
    }
}

fn append_count(chars: &mut Vec<char>, n: u64)
    ensures
        final(chars)@ == old(chars)@ + digits_of(n as nat),
{
    let digits = decimal_digits(n);
    extend(chars, digits.as_slice());
}

impl ControlFrame {
    /// Says what shape the frame has.
    pub fn shape_text(&self) -> (text: String)
        ensures
            text@ == shape_text_of(self@),
    {
        let mut chars = chars_of("ControlFrame { mode: ");
        let mode = match self.mode {
            LaunchMode::Agent => "Agent",
            LaunchMode::Pueue => "Pueue",
        };
        append_text(&mut chars, mode);
        append_text(&mut chars, ", flags: LaunchFlags(");
        append_count(&mut chars, self.flags.bits() as u64);
        append_text(&mut chars, "), argv_count: ");
        append_count(&mut chars, self.argv.len() as u64);
        append_text(&mut chars, ", environment_count: ");
        append_count(&mut chars, self.environment.len() as u64);
        append_text(&mut chars, ", cwd_present: ");
        append_truth(&mut chars, self.cwd.is_some());
        append_text(&mut chars, ", target_identity_present: true");
        append_text(&mut chars, ", project_root_identity_present: ");
        append_truth(&mut chars, self.project_root_identity.is_some());
        append_text(&mut chars, ", agent_log_identity_present: ");
        append_truth(&mut chars, self.agent_log_identity.is_some());
        append_text(&mut chars, ", pueue_config_identity_present: ");
        append_truth(&mut chars, self.pueue_config_identity.is_some());
        append_text(&mut chars, " }");
        string_of(chars.as_slice())
    }
}

/// Two frames of the same shape are shown alike, whatever they hold.
pub proof fn lemma_shape_hides_contents(a: Frame, b: Frame)
    requires
        a.mode == b.mode,
        a.flags == b.flags,
        a.argv.len() == b.argv.len(),
        a.environment.len() == b.environment.len(),
        a.cwd is Some == b.cwd is Some,
        a.project_root_identity is Some == b.project_root_identity is Some,
        a.agent_log_identity is Some == b.agent_log_identity is Some,
        a.pueue_config_identity is Some == b.pueue_config_identity is Some,
    ensures
        shape_text_of(a) == shape_text_of(b),
{
}

/// The shape of a frame tells its mode, its flags, how many arguments and
/// variables it has, and which of its parts are given.
pub proof fn lemma_what_a_shape_tells(frame: Frame)
    ensures
        ({
            let yes = |given: bool|
                if given {
                    "true"@
                } else {
                    "false"@
                };
            shape_text_of(frame) == "ControlFrame { mode: "@ + (if frame.mode is Agent {
                "Agent"@
            } else {
                "Pueue"@
            }) + ", flags: LaunchFlags("@ + digits_of(frame.flags.bits as nat) + "), argv_count: "@
                + digits_of(frame.argv.len()) + ", environment_count: "@ + digits_of(
                frame.environment.len(),
            ) + ", cwd_present: "@ + yes(frame.cwd is Some) + ", target_identity_present: true"@
                + ", project_root_identity_present: "@ + yes(frame.project_root_identity is Some)
                + ", agent_log_identity_present: "@ + yes(frame.agent_log_identity is Some)
                + ", pueue_config_identity_present: "@ + yes(frame.pueue_config_identity is Some)
                + " }"@
        }),
{
}

} // verus!
