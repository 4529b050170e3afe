//! The errors of the library.

use vstd::prelude::*;
use vstd::string::*;

use crate::execution_policy::PolicyViolation;

verus! {

/// The error of `std::io`.
#[verifier::external_type_specification]
#[verifier::external_body]
pub struct ExIoError(std::io::Error);

/// The kinds of the errors of `std::io`.
#[verifier::external_type_specification]
pub struct ExIoErrorKind(std::io::ErrorKind);

/// The kind that `std::io::Error::kind` gives an error.
pub uninterp spec fn io_kind(error: std::io::Error) -> std::io::ErrorKind;

/// `std::io::Error::kind` gives the kind of an error.
#[verifier::external_body]
pub(crate) fn kind_of(error: &std::io::Error) -> (kind: std::io::ErrorKind)
    ensures
        kind == io_kind(*error),
{
    error.kind()
}

/// `std::io::Error::new` makes an error of a given kind; nothing is claimed of
/// its wording.
#[verifier::external_body]
pub(crate) fn io_error(kind: std::io::ErrorKind, message: &'static str) -> (error: std::io::Error)
    ensures
        io_kind(error) == kind,
{
    std::io::Error::new(kind, message)
}

/// What went wrong when the task queue was asked to do something.
pub enum PueueError {
    /// A command could not be started; the kind is that of the error of the
    /// system, or `Other` where there was none.
    Spawn { operation: &'static str, source_kind: std::io::ErrorKind },
    Timeout { operation: &'static str },
    OutputLimit { operation: &'static str, stream: &'static str },
    Cleanup { operation: &'static str, stage: &'static str },
    CommandFailed {
        operation: &'static str,
        exit_code: Option<i32>,
        stdout: Vec<u8>,
        stderr: Vec<u8>,
    },
    InvalidStatusJson { reason: String },
    InvalidGroupJson { reason: String },
    InvalidStatusTask { reason: &'static str },
    InvalidTaskId { stdout: Vec<u8> },
}

/// Every failure that the supervisor reports.
pub enum AppError {
    Io { operation: &'static str, source: std::io::Error },
    Runtime { operation: &'static str },
    Configuration { field: &'static str },
    Validation { field: &'static str, message: &'static str },
    Message { message: String },
    Serialization { operation: &'static str },
    Database { operation: &'static str },
    PolicyViolation { violation: PolicyViolation },
    Pueue(PueueError),
    UpgradeInProgress,
}

impl From<PolicyViolation> for AppError {
    fn from(violation: PolicyViolation) -> (error: AppError) {
        AppError::PolicyViolation { violation }
    }
}

impl vstd::std_specs::convert::FromSpecImpl<PolicyViolation> for AppError {
    open spec fn obeys_from_spec() -> bool {
        true
    }

    open spec fn from_spec(violation: PolicyViolation) -> AppError {
        AppError::PolicyViolation { violation }
    }
}

/// The error for a field that does not hold what it should.
pub fn invalid(field: &'static str, message: &'static str) -> (error: AppError)
    ensures
        error == (AppError::Validation { field, message }),
{
    AppError::Validation { field, message }
}

pub open spec fn pueue_error_text(error: PueueError) -> Seq<char> {
    match error {
        PueueError::Spawn { operation, source_kind: _ } => "failed to start Pueue `"@ + operation@ + "`"@,
        PueueError::Timeout { operation } => "Pueue `"@ + operation@ + "` timed out"@,
        PueueError::OutputLimit { operation, stream } => "Pueue `"@ + operation@
            + "` exceeded the "@ + stream@ + " output limit"@,
        PueueError::Cleanup { operation, stage } => "Pueue `"@ + operation@
            + "` cleanup failed during "@ + stage@,
        PueueError::CommandFailed { operation, exit_code, stdout: _, stderr: _ } => "Pueue `"@
            + operation@ + "` failed with exit code "@ + (match exit_code {
            Some(code) => "Some("@ + crate::text::decimal(code as int) + ")"@,
            None => "None"@,
        }) + "; inspect captured output"@,
        PueueError::InvalidStatusJson { reason } => "Pueue status JSON is invalid: "@ + reason@,
        PueueError::InvalidGroupJson { reason } => "Pueue group JSON is invalid: "@ + reason@,
        PueueError::InvalidStatusTask { reason } => "Pueue status JSON has an invalid task shape: "@
            + reason@,
        PueueError::InvalidTaskId { stdout: _ } =>
            "Pueue add returned an invalid task ID; inspect captured output"@,
    }
}

pub open spec fn error_text(error: AppError) -> Seq<char> {
    match error {
        AppError::Io { operation, source: _ } => "I/O failed: "@ + operation@,
        AppError::Runtime { operation } => "runtime operation failed: "@ + operation@,
        AppError::Configuration { field } => "invalid configuration: "@ + field@,
        AppError::Validation { field, message } => field@ + " "@ + message@,
        AppError::Message { message } => message@,
        AppError::Serialization { operation } => "serialization failed: "@ + operation@,
        AppError::Database { operation } => "database operation failed: "@ + operation@,
        AppError::PolicyViolation { violation } => "policy_blocked:"@ + violation.code.label(),
        AppError::Pueue(error) => pueue_error_text(error),
        AppError::UpgradeInProgress => "an upgrade is in progress"@,
    }
}

fn phrase(a: &str, b: &str, c: &str) -> (text: String)
    ensures
        text@ == a@ + b@ + c@,
{
    let mut text = a.to_owned();
    text.append(b);
    text.append(c);
    text
}

fn two_parts(a: &str, b: &str) -> (text: String)
    ensures
        text@ == a@ + b@,
{
    let mut text = a.to_owned();
    text.append(b);
    text
}

impl PueueError {
    /// The text that is shown for the error; captured output is not part of it.
    pub fn text(&self) -> (text: String)
        ensures
            text@ == pueue_error_text(*self),
    {
        match self {
            PueueError::Spawn { operation, .. } => phrase("failed to start Pueue `", operation, "`"),
            PueueError::Timeout { operation } => phrase("Pueue `", operation, "` timed out"),
            PueueError::OutputLimit { operation, stream } => {
                let mut text = phrase("Pueue `", operation, "` exceeded the ");
                text.append(stream);
                text.append(" output limit");
                text
            },
            PueueError::Cleanup { operation, stage } => {
                let mut text = phrase("Pueue `", operation, "` cleanup failed during ");
                text.append(stage);
                text
            },
            PueueError::CommandFailed { operation, exit_code, .. } => {
                let mut text = phrase("Pueue `", operation, "` failed with exit code ");
                match exit_code {
                    Some(code) => {
                        let digits = crate::text::decimal_chars(*code as i64);
                        let number = crate::text::string_of(digits.as_slice());
                        let shown = phrase("Some(", number.as_str(), ")");
                        text.append(shown.as_str());
                    },
                    None => {
                        text.append("None");
                    },
                }
                text.append("; inspect captured output");
                text
            },
            PueueError::InvalidStatusJson { reason } => two_parts(
                "Pueue status JSON is invalid: ",
                reason.as_str(),
            ),
            PueueError::InvalidGroupJson { reason } => two_parts(
                "Pueue group JSON is invalid: ",
                reason.as_str(),
            ),
            PueueError::InvalidStatusTask { reason } => two_parts(
                "Pueue status JSON has an invalid task shape: ",
                reason,
            ),
            PueueError::InvalidTaskId { .. } => {
                "Pueue add returned an invalid task ID; inspect captured output".to_owned()
            },
        }
    }
}

impl AppError {
    /// The text that is shown for the error.
    pub fn text(&self) -> (text: String)
        ensures
            text@ == error_text(*self),
    {
        match self {
            AppError::Io { operation, .. } => two_parts("I/O failed: ", operation),
            AppError::Runtime { operation } => two_parts("runtime operation failed: ", operation),
            AppError::Configuration { field } => two_parts("invalid configuration: ", field),
            AppError::Validation { field, message } => phrase(field, " ", message),
            AppError::Message { message } => message.clone(),
            AppError::Serialization { operation } => two_parts("serialization failed: ", operation),
            AppError::Database { operation } => two_parts("database operation failed: ", operation),
            AppError::PolicyViolation { violation } => violation.text(),
            AppError::Pueue(error) => error.text(),
            AppError::UpgradeInProgress => "an upgrade is in progress".to_owned(),
        }
    }
}

} // verus!
