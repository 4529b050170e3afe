//! What a name of a group of the task queue may be, and how much the queue may
//! say.

use vstd::prelude::*;

use crate::error::{invalid, AppError};
use crate::models::is_validation_error;
use crate::text::{alphanumeric, chars_of, is_alphanumeric};

verus! {

pub const MAX_PUEUE_OUTPUT_BYTES: usize = 65536;

pub open spec fn is_group_char(c: char) -> bool {
    is_alphanumeric(c) || c == '.' || c == '_' || c == '-'
}

/// The name of a group: at most 128 ASCII letters, digits, dots, underscores and
/// hyphens, led by a letter or a digit.
pub open spec fn is_group(value: Seq<char>) -> bool {
    0 < value.len() <= 128 && is_alphanumeric(value[0]) && forall|i: int|
        0 <= i < value.len() ==> is_group_char(#[trigger] value[i])
}

pub open spec fn bad_group() -> (Seq<char>, Seq<char>) {
    ("pueue_group"@, "has invalid characters or length"@)
}

/// Accepts the name of a group.
pub fn validate_group(value: &str) -> (checked: Result<(), AppError>)
    ensures
        match checked {
            Ok(_) => is_group(value@),
            Err(error) => !is_group(value@) && is_validation_error(error, bad_group()),
        },
{
    let chars = chars_of(value);
    let mut good = chars.len() > 0 && chars.len() <= 128 && alphanumeric(chars[0]);
    let mut at: usize = 0;
    while good && at < chars.len()
        invariant
            at <= chars@.len(),
            chars@ == value@,
            good ==> 0 < value@.len() <= 128 && is_alphanumeric(value@[0]) && forall|i: int|
                0 <= i < at ==> is_group_char(#[trigger] value@[i]),
            !good ==> !is_group(value@),
        decreases chars.len() - at, good as int,
    {
        let c: char = chars[at];
        if alphanumeric(c) || c == '.' || c == '_' || c == '-' {
            at = at + 1;
        } else {
            proof {
                assert(!is_group_char(value@[at as int]));
            }
            good = false;
        }
    }
    if good {
        Ok(())
    } else {
        Err(invalid("pueue_group", "has invalid characters or length"))
    }
}

/// A group has 1 to 128 letters, digits, dots, dashes and underscores, and starts
/// with a letter or a digit.
pub proof fn lemma_which_groups_are_accepted(value: Seq<char>)
    ensures
        is_group(value) <==> 1 <= value.len() <= 128 && ('a' <= value[0] <= 'z' || 'A' <= value[0]
            <= 'Z' || '0' <= value[0] <= '9') && forall|i: int|
            0 <= i < value.len() ==> ('a' <= (#[trigger] value[i]) <= 'z' || 'A' <= value[i] <= 'Z'
                || '0' <= value[i] <= '9' || value[i] == '.' || value[i] == '_' || value[i] == '-'),
{
    assert forall|i: int| 0 <= i < value.len() implies (is_group_char(#[trigger] value[i]) <==> (
    'a' <= value[i] <= 'z' || 'A' <= value[i] <= 'Z' || '0' <= value[i] <= '9' || value[i] == '.'
        || value[i] == '_' || value[i] == '-')) by {
    }
}

} // verus!
