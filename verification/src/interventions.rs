//! Messages that an operator adds while experiments are running.

use vstd::prelude::*;

use crate::error::AppError;
use crate::text::{byte_len, chars_of, measured, trim, trimmed};

pub use crate::states::InterventionStatus;

verus! {

pub const MAX_INTERVENTION_BYTES: usize = 4096;

pub const MAX_INTERVENTIONS_PER_RUN: usize = 16;

pub const MAX_INTERVENTION_BYTES_PER_RUN: usize = 16384;

/// A message of an operator to the next agent run.
#[derive(Debug, Clone, PartialEq, Eq)]
pub struct Intervention {
    pub intervention_id: String,
    pub project_id: String,
    pub message: String,
    pub status: InterventionStatus,
    pub created_at: i64,
    pub reserved_at: Option<i64>,
    pub applied_at: Option<i64>,
    pub agent_run_id: Option<i64>,
    pub attempts: i64,
    pub lease_expires_at: Option<i64>,
    pub reservation_token: Option<String>,
}

/// How many messages a project has in each state.
#[derive(Debug, Clone, PartialEq, Eq)]
pub struct InterventionCounts {
    pub pending: i64,
    pub reserved: i64,
    pub applied: i64,
}

/// The messages that one run has taken.
#[derive(Debug, Clone, PartialEq, Eq)]
pub struct InterventionReservation {
    pub token: String,
    pub items: Vec<Intervention>,
}

/// A message says something and is at most so long.
pub open spec fn is_message(message: Seq<char>) -> bool {
    trimmed(message).len() > 0 && byte_len(message) <= MAX_INTERVENTION_BYTES
}

/// Accepts a message, or names the field that is wrong.
pub fn validate_message(message: &str) -> (checked: Result<(), AppError>)
    ensures
        checked is Ok <==> is_message(message@),
        checked matches Err(error) ==> error == (AppError::Configuration {
            field: "intervention_message",
        }),
{
    let chars = chars_of(message);
    let trimmed_chars = trim(chars.as_slice());
    if trimmed_chars.len() == 0 || measured(message) > MAX_INTERVENTION_BYTES {
        return Err(AppError::Configuration { field: "intervention_message" });
    }
    Ok(())
}

/// A message holds something but blanks, in four kilobytes at most.
pub proof fn lemma_which_messages_are_taken(message: Seq<char>)
    ensures
        is_message(message) <==> trimmed(message).len() > 0 && byte_len(message) <= 4096,
        message.len() > 4096 ==> !is_message(message),
{
    crate::text::lemma_byte_len_bounds(message);
}

} // verus!
