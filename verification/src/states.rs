//! The states and kinds that are kept in the database, each with the text under
//! which it is stored.

use vstd::prelude::*;

use crate::text::same_text;

verus! {

/// A stored text that stands for no variant.
#[derive(Debug, Clone, PartialEq, Eq)]
pub struct ModelEnumParseError {
    pub enum_name: &'static str,
    pub value: String,
}

pub(crate) fn unknown(enum_name: &'static str, value: &str) -> (error: ModelEnumParseError)
    ensures
        error.enum_name == enum_name,
        error.value@ == value@,
{
    ModelEnumParseError { enum_name, value: value.to_owned() }
}

/// What an event reports.
#[derive(Debug, Clone, Copy, PartialEq, Eq, Structural)]
pub enum EventKind {
    TaskFinished,
    TaskFailed,
    Crash,
    Stalled,
    DeepCheck,
    AutoKilled,
    TerminationFailed,
    OperatorWake,
    CampaignDecision,
    HealthDiagnosis,
    CodeChange,
}

impl EventKind {
    /// The text that stands for the variant.
    pub open spec fn label(self) -> Seq<char> {
        match self {
            EventKind::TaskFinished => "task_finished"@,
            EventKind::TaskFailed => "task_failed"@,
            EventKind::Crash => "crash"@,
            EventKind::Stalled => "stalled"@,
            EventKind::DeepCheck => "deep_check"@,
            EventKind::AutoKilled => "auto_killed"@,
            EventKind::TerminationFailed => "termination_failed"@,
            EventKind::OperatorWake => "operator_wake"@,
            EventKind::CampaignDecision => "campaign_decision"@,
            EventKind::HealthDiagnosis => "health_diagnosis"@,
            EventKind::CodeChange => "code_change"@,
        }
    }

    pub fn as_str(self) -> (text: &'static str)
        ensures
            text@ == self.label(),
    {
        match self {
            EventKind::TaskFinished => "task_finished",
            EventKind::TaskFailed => "task_failed",
            EventKind::Crash => "crash",
            EventKind::Stalled => "stalled",
            EventKind::DeepCheck => "deep_check",
            EventKind::AutoKilled => "auto_killed",
            EventKind::TerminationFailed => "termination_failed",
            EventKind::OperatorWake => "operator_wake",
            EventKind::CampaignDecision => "campaign_decision",
            EventKind::HealthDiagnosis => "health_diagnosis",
            EventKind::CodeChange => "code_change",
        }
    }

    /// Reads the variant that a text stands for.
    pub fn from_str(value: &str) -> (parsed: Result<EventKind, ModelEnumParseError>)
        ensures
            forall|variant: EventKind| #[trigger]
                variant.label() == value@ ==> parsed == Ok::<EventKind, ModelEnumParseError>(variant),
            match parsed {
                Ok(variant) => variant.label() == value@,
                Err(error) => error.enum_name@ == "EventKind"@ && error.value@ == value@,
            },
    {
        let parsed = if same_text(value, "task_finished") {
            Ok(EventKind::TaskFinished)
        } else if same_text(value, "task_failed") {
            Ok(EventKind::TaskFailed)
        } else if same_text(value, "crash") {
            Ok(EventKind::Crash)
        } else if same_text(value, "stalled") {
            Ok(EventKind::Stalled)
        } else if same_text(value, "deep_check") {
            Ok(EventKind::DeepCheck)
        } else if same_text(value, "auto_killed") {
            Ok(EventKind::AutoKilled)
        } else if same_text(value, "termination_failed") {
            Ok(EventKind::TerminationFailed)
        } else if same_text(value, "operator_wake") {
            Ok(EventKind::OperatorWake)
        } else if same_text(value, "campaign_decision") {
            Ok(EventKind::CampaignDecision)
        } else if same_text(value, "health_diagnosis") {
            Ok(EventKind::HealthDiagnosis)
        } else if same_text(value, "code_change") {
            Ok(EventKind::CodeChange)
        } else {
            Err(unknown("EventKind", value))
        };
        proof {
            if let Ok(found) = parsed {
                assert forall|variant: EventKind| #[trigger]
                    variant.label() == value@ implies variant == found by {
                    lemma_event_kind_labels_differ(variant, found);
                }
            }
        }
        parsed
    }
}

/// Two variants of [`EventKind`] never share a text.
pub proof fn lemma_event_kind_labels_differ(a: EventKind, b: EventKind)
    requires
        a.label() == b.label(),
    ensures
        a == b,
{
    reveal_strlit("task_finished");
    assert("task_finished"@.len() == 13 && "task_finished"@[0] == 't');
    reveal_strlit("task_failed");
    assert("task_failed"@.len() == 11 && "task_failed"@[0] == 't');
    reveal_strlit("crash");
    assert("crash"@.len() == 5 && "crash"@[0] == 'c');
    reveal_strlit("stalled");
    assert("stalled"@.len() == 7 && "stalled"@[0] == 's');
    reveal_strlit("deep_check");
    assert("deep_check"@.len() == 10 && "deep_check"@[0] == 'd');
    reveal_strlit("auto_killed");
    assert("auto_killed"@.len() == 11 && "auto_killed"@[0] == 'a');
    reveal_strlit("termination_failed");
    assert("termination_failed"@.len() == 18 && "termination_failed"@[0] == 't');
    reveal_strlit("operator_wake");
    assert("operator_wake"@.len() == 13 && "operator_wake"@[0] == 'o');
    reveal_strlit("campaign_decision");
    assert("campaign_decision"@.len() == 17 && "campaign_decision"@[0] == 'c');
    reveal_strlit("health_diagnosis");
    assert("health_diagnosis"@.len() == 16 && "health_diagnosis"@[0] == 'h');
    reveal_strlit("code_change");
    assert("code_change"@.len() == 11 && "code_change"@[0] == 'c');
}

/// Where an event stands on its way to an agent run.
#[derive(Debug, Clone, Copy, PartialEq, Eq, Structural)]
pub enum EventStatus {
    Pending,
    Claimed,
    InFlight,
    Dispatched,
    Completed,
    RetryWait,
    Failed,
    DeadLetter,
}

impl EventStatus {
    /// The text that stands for the variant.
    pub open spec fn label(self) -> Seq<char> {
        match self {
            EventStatus::Pending => "pending"@,
            EventStatus::Claimed => "claimed"@,
            EventStatus::InFlight => "in_flight"@,
            EventStatus::Dispatched => "dispatched"@,
            EventStatus::Completed => "completed"@,
            EventStatus::RetryWait => "retry_wait"@,
            EventStatus::Failed => "failed"@,
            EventStatus::DeadLetter => "dead_letter"@,
        }
    }

    pub fn as_str(self) -> (text: &'static str)
        ensures
            text@ == self.label(),
    {
        match self {
            EventStatus::Pending => "pending",
            EventStatus::Claimed => "claimed",
            EventStatus::InFlight => "in_flight",
            EventStatus::Dispatched => "dispatched",
            EventStatus::Completed => "completed",
            EventStatus::RetryWait => "retry_wait",
            EventStatus::Failed => "failed",
            EventStatus::DeadLetter => "dead_letter",
        }
    }

    /// Reads the variant that a text stands for.
    pub fn from_str(value: &str) -> (parsed: Result<EventStatus, ModelEnumParseError>)
        ensures
            forall|variant: EventStatus| #[trigger]
                variant.label() == value@ ==> parsed == Ok::<EventStatus, ModelEnumParseError>(variant),
            match parsed {
                Ok(variant) => variant.label() == value@,
                Err(error) => error.enum_name@ == "EventStatus"@ && error.value@ == value@,
            },
    {
        let parsed = if same_text(value, "pending") {
            Ok(EventStatus::Pending)
        } else if same_text(value, "claimed") {
            Ok(EventStatus::Claimed)
        } else if same_text(value, "in_flight") {
            Ok(EventStatus::InFlight)
        } else if same_text(value, "dispatched") {
            Ok(EventStatus::Dispatched)
        } else if same_text(value, "completed") {
            Ok(EventStatus::Completed)
        } else if same_text(value, "retry_wait") {
            Ok(EventStatus::RetryWait)
        } else if same_text(value, "failed") {
            Ok(EventStatus::Failed)
        } else if same_text(value, "dead_letter") {
            Ok(EventStatus::DeadLetter)
        } else {
            Err(unknown("EventStatus", value))
        };
        proof {
            if let Ok(found) = parsed {
                assert forall|variant: EventStatus| #[trigger]
                    variant.label() == value@ implies variant == found by {
                    lemma_event_status_labels_differ(variant, found);
                }
            }
        }
        parsed
    }
}

/// Two variants of [`EventStatus`] never share a text.
pub proof fn lemma_event_status_labels_differ(a: EventStatus, b: EventStatus)
    requires
        a.label() == b.label(),
    ensures
        a == b,
{
    reveal_strlit("pending");
    assert("pending"@.len() == 7 && "pending"@[0] == 'p');
    reveal_strlit("claimed");
    assert("claimed"@.len() == 7 && "claimed"@[0] == 'c');
    reveal_strlit("in_flight");
    assert("in_flight"@.len() == 9 && "in_flight"@[0] == 'i');
    reveal_strlit("dispatched");
    assert("dispatched"@.len() == 10 && "dispatched"@[0] == 'd');
    reveal_strlit("completed");
    assert("completed"@.len() == 9 && "completed"@[0] == 'c');
    reveal_strlit("retry_wait");
    assert("retry_wait"@.len() == 10 && "retry_wait"@[0] == 'r');
    reveal_strlit("failed");
    assert("failed"@.len() == 6 && "failed"@[0] == 'f');
    reveal_strlit("dead_letter");
    assert("dead_letter"@.len() == 11 && "dead_letter"@[0] == 'd');
}

/// Where an operator intervention stands.
#[derive(Debug, Clone, Copy, PartialEq, Eq, Structural)]
pub enum InterventionStatus {
    Pending,
    Reserved,
    Applied,
}

impl InterventionStatus {
    /// The text that stands for the variant.
    pub open spec fn label(self) -> Seq<char> {
        match self {
            InterventionStatus::Pending => "pending"@,
            InterventionStatus::Reserved => "reserved"@,
            InterventionStatus::Applied => "applied"@,
        }
    }

    pub fn as_str(self) -> (text: &'static str)
        ensures
            text@ == self.label(),
    {
        match self {
            InterventionStatus::Pending => "pending",
            InterventionStatus::Reserved => "reserved",
            InterventionStatus::Applied => "applied",
        }
    }

    /// Reads the variant that a text stands for.
    pub fn from_str(value: &str) -> (parsed: Result<InterventionStatus, ModelEnumParseError>)
        ensures
            forall|variant: InterventionStatus| #[trigger]
                variant.label() == value@ ==> parsed == Ok::<InterventionStatus, ModelEnumParseError>(variant),
            match parsed {
                Ok(variant) => variant.label() == value@,
                Err(error) => error.enum_name@ == "InterventionStatus"@ && error.value@ == value@,
            },
    {
        let parsed = if same_text(value, "pending") {
            Ok(InterventionStatus::Pending)
        } else if same_text(value, "reserved") {
            Ok(InterventionStatus::Reserved)
        } else if same_text(value, "applied") {
            Ok(InterventionStatus::Applied)
        } else {
            Err(unknown("InterventionStatus", value))
        };
        proof {
            if let Ok(found) = parsed {
                assert forall|variant: InterventionStatus| #[trigger]
                    variant.label() == value@ implies variant == found by {
                    lemma_intervention_status_labels_differ(variant, found);
                }
            }
        }
        parsed
    }
}

/// Two variants of [`InterventionStatus`] never share a text.
pub proof fn lemma_intervention_status_labels_differ(a: InterventionStatus, b: InterventionStatus)
    requires
        a.label() == b.label(),
    ensures
        a == b,
{
    reveal_strlit("pending");
    assert("pending"@.len() == 7 && "pending"@[0] == 'p');
    reveal_strlit("reserved");
    assert("reserved"@.len() == 8 && "reserved"@[0] == 'r');
    reveal_strlit("applied");
    assert("applied"@.len() == 7 && "applied"@[0] == 'a');
}

/// What an event of the integration itself reports.
#[derive(Debug, Clone, Copy, PartialEq, Eq, Structural)]
pub enum IntegrationEventKind {
    UnknownCallbackGroup,
}

impl IntegrationEventKind {
    /// The text that stands for the variant.
    pub open spec fn label(self) -> Seq<char> {
        match self {
            IntegrationEventKind::UnknownCallbackGroup => "unknown_callback_group"@,
        }
    }

    pub fn as_str(self) -> (text: &'static str)
        ensures
            text@ == self.label(),
    {
        match self {
            IntegrationEventKind::UnknownCallbackGroup => "unknown_callback_group",
        }
    }

    /// Reads the variant that a text stands for.
    pub fn from_str(value: &str) -> (parsed: Result<IntegrationEventKind, ModelEnumParseError>)
        ensures
            forall|variant: IntegrationEventKind| #[trigger]
                variant.label() == value@ ==> parsed == Ok::<IntegrationEventKind, ModelEnumParseError>(variant),
            match parsed {
                Ok(variant) => variant.label() == value@,
                Err(error) => error.enum_name@ == "IntegrationEventKind"@ && error.value@ == value@,
            },
    {
        let parsed = if same_text(value, "unknown_callback_group") {
            Ok(IntegrationEventKind::UnknownCallbackGroup)
        } else {
            Err(unknown("IntegrationEventKind", value))
        };
        proof {
            if let Ok(found) = parsed {
                assert forall|variant: IntegrationEventKind| #[trigger]
                    variant.label() == value@ implies variant == found by {
                    lemma_integration_event_kind_labels_differ(variant, found);
                }
            }
        }
        parsed
    }
}

/// Two variants of [`IntegrationEventKind`] never share a text.
pub proof fn lemma_integration_event_kind_labels_differ(a: IntegrationEventKind, b: IntegrationEventKind)
    requires
        a.label() == b.label(),
    ensures
        a == b,
{
    reveal_strlit("unknown_callback_group");
}

/// What an observation did to an incident.
#[derive(Debug, Clone, Copy, PartialEq, Eq, Structural)]
pub enum IncidentTransition {
    Opened,
    Updated,
    Unchanged,
    Resolved,
}

impl IncidentTransition {
    /// The text that stands for the variant.
    pub open spec fn label(self) -> Seq<char> {
        match self {
            IncidentTransition::Opened => "opened"@,
            IncidentTransition::Updated => "updated"@,
            IncidentTransition::Unchanged => "unchanged"@,
            IncidentTransition::Resolved => "resolved"@,
        }
    }

    pub fn as_str(self) -> (text: &'static str)
        ensures
            text@ == self.label(),
    {
        match self {
            IncidentTransition::Opened => "opened",
            IncidentTransition::Updated => "updated",
            IncidentTransition::Unchanged => "unchanged",
            IncidentTransition::Resolved => "resolved",
        }
    }

    /// Reads the variant that a text stands for.
    pub fn from_str(value: &str) -> (parsed: Result<IncidentTransition, ModelEnumParseError>)
        ensures
            forall|variant: IncidentTransition| #[trigger]
                variant.label() == value@ ==> parsed == Ok::<IncidentTransition, ModelEnumParseError>(variant),
            match parsed {
                Ok(variant) => variant.label() == value@,
                Err(error) => error.enum_name@ == "IncidentTransition"@ && error.value@ == value@,
            },
    {
        let parsed = if same_text(value, "opened") {
            Ok(IncidentTransition::Opened)
        } else if same_text(value, "updated") {
            Ok(IncidentTransition::Updated)
        } else if same_text(value, "unchanged") {
            Ok(IncidentTransition::Unchanged)
        } else if same_text(value, "resolved") {
            Ok(IncidentTransition::Resolved)
        } else {
            Err(unknown("IncidentTransition", value))
        };
        proof {
            if let Ok(found) = parsed {
                assert forall|variant: IncidentTransition| #[trigger]
                    variant.label() == value@ implies variant == found by {
                    lemma_incident_transition_labels_differ(variant, found);
                }
            }
        }
        parsed
    }
}

/// Two variants of [`IncidentTransition`] never share a text.
pub proof fn lemma_incident_transition_labels_differ(a: IncidentTransition, b: IncidentTransition)
    requires
        a.label() == b.label(),
    ensures
        a == b,
{
    reveal_strlit("opened");
    assert("opened"@.len() == 6);
    reveal_strlit("updated");
    assert("updated"@.len() == 7);
    reveal_strlit("unchanged");
    assert("unchanged"@.len() == 9);
    reveal_strlit("resolved");
    assert("resolved"@.len() == 8);
}

/// Where an incident stands.
#[derive(Debug, Clone, Copy, PartialEq, Eq, Structural)]
pub enum IncidentStatus {
    Open,
    Acknowledged,
    Resolved,
}

impl IncidentStatus {
    /// The text that stands for the variant.
    pub open spec fn label(self) -> Seq<char> {
        match self {
            IncidentStatus::Open => "open"@,
            IncidentStatus::Acknowledged => "acknowledged"@,
            IncidentStatus::Resolved => "resolved"@,
        }
    }

    pub fn as_str(self) -> (text: &'static str)
        ensures
            text@ == self.label(),
    {
        match self {
            IncidentStatus::Open => "open",
            IncidentStatus::Acknowledged => "acknowledged",
            IncidentStatus::Resolved => "resolved",
        }
    }

    /// Reads the variant that a text stands for.
    pub fn from_str(value: &str) -> (parsed: Result<IncidentStatus, ModelEnumParseError>)
        ensures
            forall|variant: IncidentStatus| #[trigger]
                variant.label() == value@ ==> parsed == Ok::<IncidentStatus, ModelEnumParseError>(variant),
            match parsed {
                Ok(variant) => variant.label() == value@,
                Err(error) => error.enum_name@ == "IncidentStatus"@ && error.value@ == value@,
            },
    {
        let parsed = if same_text(value, "open") {
            Ok(IncidentStatus::Open)
        } else if same_text(value, "acknowledged") {
            Ok(IncidentStatus::Acknowledged)
        } else if same_text(value, "resolved") {
            Ok(IncidentStatus::Resolved)
        } else {
            Err(unknown("IncidentStatus", value))
        };
        proof {
            if let Ok(found) = parsed {
                assert forall|variant: IncidentStatus| #[trigger]
                    variant.label() == value@ implies variant == found by {
                    lemma_incident_status_labels_differ(variant, found);
                }
            }
        }
        parsed
    }
}

/// Two variants of [`IncidentStatus`] never share a text.
pub proof fn lemma_incident_status_labels_differ(a: IncidentStatus, b: IncidentStatus)
    requires
        a.label() == b.label(),
    ensures
        a == b,
{
    reveal_strlit("open");
    assert("open"@.len() == 4);
    reveal_strlit("acknowledged");
    assert("acknowledged"@.len() == 12);
    reveal_strlit("resolved");
    assert("resolved"@.len() == 8);
}

/// Where a submission stands.
#[derive(Debug, Clone, Copy, PartialEq, Eq, Structural)]
pub enum SubmissionStatus {
    Pending,
    Accepted,
    Adopted,
    Unreconciled,
    Failed,
}

impl SubmissionStatus {
    /// The text that stands for the variant.
    pub open spec fn label(self) -> Seq<char> {
        match self {
            SubmissionStatus::Pending => "pending"@,
            SubmissionStatus::Accepted => "accepted"@,
            SubmissionStatus::Adopted => "adopted"@,
            SubmissionStatus::Unreconciled => "unreconciled"@,
            SubmissionStatus::Failed => "failed"@,
        }
    }

    pub fn as_str(self) -> (text: &'static str)
        ensures
            text@ == self.label(),
    {
        match self {
            SubmissionStatus::Pending => "pending",
            SubmissionStatus::Accepted => "accepted",
            SubmissionStatus::Adopted => "adopted",
            SubmissionStatus::Unreconciled => "unreconciled",
            SubmissionStatus::Failed => "failed",
        }
    }

    /// Reads the variant that a text stands for.
    pub fn from_str(value: &str) -> (parsed: Result<SubmissionStatus, ModelEnumParseError>)
        ensures
            forall|variant: SubmissionStatus| #[trigger]
                variant.label() == value@ ==> parsed == Ok::<SubmissionStatus, ModelEnumParseError>(variant),
            match parsed {
                Ok(variant) => variant.label() == value@,
                Err(error) => error.enum_name@ == "SubmissionStatus"@ && error.value@ == value@,
            },
    {
        let parsed = if same_text(value, "pending") {
            Ok(SubmissionStatus::Pending)
        } else if same_text(value, "accepted") {
            Ok(SubmissionStatus::Accepted)
        } else if same_text(value, "adopted") {
            Ok(SubmissionStatus::Adopted)
        } else if same_text(value, "unreconciled") {
            Ok(SubmissionStatus::Unreconciled)
        } else if same_text(value, "failed") {
            Ok(SubmissionStatus::Failed)
        } else {
            Err(unknown("SubmissionStatus", value))
        };
        proof {
            if let Ok(found) = parsed {
                assert forall|variant: SubmissionStatus| #[trigger]
                    variant.label() == value@ implies variant == found by {
                    lemma_submission_status_labels_differ(variant, found);
                }
            }
        }
        parsed
    }
}

/// Two variants of [`SubmissionStatus`] never share a text.
pub proof fn lemma_submission_status_labels_differ(a: SubmissionStatus, b: SubmissionStatus)
    requires
        a.label() == b.label(),
    ensures
        a == b,
{
    reveal_strlit("pending");
    assert("pending"@.len() == 7 && "pending"@[0] == 'p');
    reveal_strlit("accepted");
    assert("accepted"@.len() == 8 && "accepted"@[0] == 'a');
    reveal_strlit("adopted");
    assert("adopted"@.len() == 7 && "adopted"@[0] == 'a');
    reveal_strlit("unreconciled");
    assert("unreconciled"@.len() == 12 && "unreconciled"@[0] == 'u');
    reveal_strlit("failed");
    assert("failed"@.len() == 6 && "failed"@[0] == 'f');
}

/// What a submission is for.
#[derive(Debug, Clone, Copy, PartialEq, Eq, Structural)]
pub enum SubmissionKind {
    Experiment,
    Control,
}

impl SubmissionKind {
    /// The text that stands for the variant.
    pub open spec fn label(self) -> Seq<char> {
        match self {
            SubmissionKind::Experiment => "experiment"@,
            SubmissionKind::Control => "control"@,
        }
    }

    pub fn as_str(self) -> (text: &'static str)
        ensures
            text@ == self.label(),
    {
        match self {
            SubmissionKind::Experiment => "experiment",
            SubmissionKind::Control => "control",
        }
    }

    /// Reads the variant that a text stands for.
    pub fn from_str(value: &str) -> (parsed: Result<SubmissionKind, ModelEnumParseError>)
        ensures
            forall|variant: SubmissionKind| #[trigger]
                variant.label() == value@ ==> parsed == Ok::<SubmissionKind, ModelEnumParseError>(variant),
            match parsed {
                Ok(variant) => variant.label() == value@,
                Err(error) => error.enum_name@ == "SubmissionKind"@ && error.value@ == value@,
            },
    {
        let parsed = if same_text(value, "experiment") {
            Ok(SubmissionKind::Experiment)
        } else if same_text(value, "control") {
            Ok(SubmissionKind::Control)
        } else {
            Err(unknown("SubmissionKind", value))
        };
        proof {
            if let Ok(found) = parsed {
                assert forall|variant: SubmissionKind| #[trigger]
                    variant.label() == value@ implies variant == found by {
                    lemma_submission_kind_labels_differ(variant, found);
                }
            }
        }
        parsed
    }
}

/// Two variants of [`SubmissionKind`] never share a text.
pub proof fn lemma_submission_kind_labels_differ(a: SubmissionKind, b: SubmissionKind)
    requires
        a.label() == b.label(),
    ensures
        a == b,
{
    reveal_strlit("experiment");
    assert("experiment"@.len() == 10);
    reveal_strlit("control");
    assert("control"@.len() == 7);
}

/// Where a batch stands.
#[derive(Debug, Clone, Copy, PartialEq, Eq, Structural)]
pub enum BatchStatus {
    Pending,
    Dispatching,
    Accepted,
    Partial,
    Failed,
    Completed,
}

impl BatchStatus {
    /// The text that stands for the variant.
    pub open spec fn label(self) -> Seq<char> {
        match self {
            BatchStatus::Pending => "pending"@,
            BatchStatus::Dispatching => "dispatching"@,
            BatchStatus::Accepted => "accepted"@,
            BatchStatus::Partial => "partial"@,
            BatchStatus::Failed => "failed"@,
            BatchStatus::Completed => "completed"@,
        }
    }

    pub fn as_str(self) -> (text: &'static str)
        ensures
            text@ == self.label(),
    {
        match self {
            BatchStatus::Pending => "pending",
            BatchStatus::Dispatching => "dispatching",
            BatchStatus::Accepted => "accepted",
            BatchStatus::Partial => "partial",
            BatchStatus::Failed => "failed",
            BatchStatus::Completed => "completed",
        }
    }

    /// Reads the variant that a text stands for.
    pub fn from_str(value: &str) -> (parsed: Result<BatchStatus, ModelEnumParseError>)
        ensures
            forall|variant: BatchStatus| #[trigger]
                variant.label() == value@ ==> parsed == Ok::<BatchStatus, ModelEnumParseError>(variant),
            match parsed {
                Ok(variant) => variant.label() == value@,
                Err(error) => error.enum_name@ == "BatchStatus"@ && error.value@ == value@,
            },
    {
        let parsed = if same_text(value, "pending") {
            Ok(BatchStatus::Pending)
        } else if same_text(value, "dispatching") {
            Ok(BatchStatus::Dispatching)
        } else if same_text(value, "accepted") {
            Ok(BatchStatus::Accepted)
        } else if same_text(value, "partial") {
            Ok(BatchStatus::Partial)
        } else if same_text(value, "failed") {
            Ok(BatchStatus::Failed)
        } else if same_text(value, "completed") {
            Ok(BatchStatus::Completed)
        } else {
            Err(unknown("BatchStatus", value))
        };
        proof {
            if let Ok(found) = parsed {
                assert forall|variant: BatchStatus| #[trigger]
                    variant.label() == value@ implies variant == found by {
                    lemma_batch_status_labels_differ(variant, found);
                }
            }
        }
        parsed
    }
}

/// Two variants of [`BatchStatus`] never share a text.
pub proof fn lemma_batch_status_labels_differ(a: BatchStatus, b: BatchStatus)
    requires
        a.label() == b.label(),
    ensures
        a == b,
{
    reveal_strlit("pending");
    assert("pending"@.len() == 7 && "pending"@[1] == 'e');
    reveal_strlit("dispatching");
    assert("dispatching"@.len() == 11 && "dispatching"@[1] == 'i');
    reveal_strlit("accepted");
    assert("accepted"@.len() == 8 && "accepted"@[1] == 'c');
    reveal_strlit("partial");
    assert("partial"@.len() == 7 && "partial"@[1] == 'a');
    reveal_strlit("failed");
    assert("failed"@.len() == 6 && "failed"@[1] == 'a');
    reveal_strlit("completed");
    assert("completed"@.len() == 9 && "completed"@[1] == 'o');
}

/// Where a job of a batch stands.
#[derive(Debug, Clone, Copy, PartialEq, Eq, Structural)]
pub enum BatchJobStatus {
    Pending,
    Dispatching,
    Accepted,
    Failed,
}

impl BatchJobStatus {
    /// The text that stands for the variant.
    pub open spec fn label(self) -> Seq<char> {
        match self {
            BatchJobStatus::Pending => "pending"@,
            BatchJobStatus::Dispatching => "dispatching"@,
            BatchJobStatus::Accepted => "accepted"@,
            BatchJobStatus::Failed => "failed"@,
        }
    }

    pub fn as_str(self) -> (text: &'static str)
        ensures
            text@ == self.label(),
    {
        match self {
            BatchJobStatus::Pending => "pending",
            BatchJobStatus::Dispatching => "dispatching",
            BatchJobStatus::Accepted => "accepted",
            BatchJobStatus::Failed => "failed",
        }
    }

    /// Reads the variant that a text stands for.
    pub fn from_str(value: &str) -> (parsed: Result<BatchJobStatus, ModelEnumParseError>)
        ensures
            forall|variant: BatchJobStatus| #[trigger]
                variant.label() == value@ ==> parsed == Ok::<BatchJobStatus, ModelEnumParseError>(variant),
            match parsed {
                Ok(variant) => variant.label() == value@,
                Err(error) => error.enum_name@ == "BatchJobStatus"@ && error.value@ == value@,
            },
    {
        let parsed = if same_text(value, "pending") {
            Ok(BatchJobStatus::Pending)
        } else if same_text(value, "dispatching") {
            Ok(BatchJobStatus::Dispatching)
        } else if same_text(value, "accepted") {
            Ok(BatchJobStatus::Accepted)
        } else if same_text(value, "failed") {
            Ok(BatchJobStatus::Failed)
        } else {
            Err(unknown("BatchJobStatus", value))
        };
        proof {
            if let Ok(found) = parsed {
                assert forall|variant: BatchJobStatus| #[trigger]
                    variant.label() == value@ implies variant == found by {
                    lemma_batch_job_status_labels_differ(variant, found);
                }
            }
        }
        parsed
    }
}

/// Two variants of [`BatchJobStatus`] never share a text.
pub proof fn lemma_batch_job_status_labels_differ(a: BatchJobStatus, b: BatchJobStatus)
    requires
        a.label() == b.label(),
    ensures
        a == b,
{
    reveal_strlit("pending");
    assert("pending"@.len() == 7);
    reveal_strlit("dispatching");
    assert("dispatching"@.len() == 11);
    reveal_strlit("accepted");
    assert("accepted"@.len() == 8);
    reveal_strlit("failed");
    assert("failed"@.len() == 6);
}

/// Where an agent run stands.
#[derive(Debug, Clone, Copy, PartialEq, Eq, Structural)]
pub enum AgentRunStatus {
    Starting,
    Running,
    Completed,
    Failed,
    TimedOut,
    Cancelled,
}

impl AgentRunStatus {
    /// The text that stands for the variant.
    pub open spec fn label(self) -> Seq<char> {
        match self {
            AgentRunStatus::Starting => "starting"@,
            AgentRunStatus::Running => "running"@,
            AgentRunStatus::Completed => "completed"@,
            AgentRunStatus::Failed => "failed"@,
            AgentRunStatus::TimedOut => "timed_out"@,
            AgentRunStatus::Cancelled => "cancelled"@,
        }
    }

    pub fn as_str(self) -> (text: &'static str)
        ensures
            text@ == self.label(),
    {
        match self {
            AgentRunStatus::Starting => "starting",
            AgentRunStatus::Running => "running",
            AgentRunStatus::Completed => "completed",
            AgentRunStatus::Failed => "failed",
            AgentRunStatus::TimedOut => "timed_out",
            AgentRunStatus::Cancelled => "cancelled",
        }
    }

    /// Reads the variant that a text stands for.
    pub fn from_str(value: &str) -> (parsed: Result<AgentRunStatus, ModelEnumParseError>)
        ensures
            forall|variant: AgentRunStatus| #[trigger]
                variant.label() == value@ ==> parsed == Ok::<AgentRunStatus, ModelEnumParseError>(variant),
            match parsed {
                Ok(variant) => variant.label() == value@,
                Err(error) => error.enum_name@ == "AgentRunStatus"@ && error.value@ == value@,
            },
    {
        let parsed = if same_text(value, "starting") {
            Ok(AgentRunStatus::Starting)
        } else if same_text(value, "running") {
            Ok(AgentRunStatus::Running)
        } else if same_text(value, "completed") {
            Ok(AgentRunStatus::Completed)
        } else if same_text(value, "failed") {
            Ok(AgentRunStatus::Failed)
        } else if same_text(value, "timed_out") {
            Ok(AgentRunStatus::TimedOut)
        } else if same_text(value, "cancelled") {
            Ok(AgentRunStatus::Cancelled)
        } else {
            Err(unknown("AgentRunStatus", value))
        };
        proof {
            if let Ok(found) = parsed {
                assert forall|variant: AgentRunStatus| #[trigger]
                    variant.label() == value@ implies variant == found by {
                    lemma_agent_run_status_labels_differ(variant, found);
                }
            }
        }
        parsed
    }
}

/// Two variants of [`AgentRunStatus`] never share a text.
pub proof fn lemma_agent_run_status_labels_differ(a: AgentRunStatus, b: AgentRunStatus)
    requires
        a.label() == b.label(),
    ensures
        a == b,
{
    reveal_strlit("starting");
    assert("starting"@.len() == 8 && "starting"@[0] == 's' && "starting"@[1] == 't');
    reveal_strlit("running");
    assert("running"@.len() == 7 && "running"@[0] == 'r' && "running"@[1] == 'u');
    reveal_strlit("completed");
    assert("completed"@.len() == 9 && "completed"@[0] == 'c' && "completed"@[1] == 'o');
    reveal_strlit("failed");
    assert("failed"@.len() == 6 && "failed"@[0] == 'f' && "failed"@[1] == 'a');
    reveal_strlit("timed_out");
    assert("timed_out"@.len() == 9 && "timed_out"@[0] == 't' && "timed_out"@[1] == 'i');
    reveal_strlit("cancelled");
    assert("cancelled"@.len() == 9 && "cancelled"@[0] == 'c' && "cancelled"@[1] == 'a');
}

/// Where a campaign stands.
#[derive(Debug, Clone, Copy, PartialEq, Eq, Structural)]
pub enum CampaignState {
    Active,
    BudgetWaiting,
    GoalReachedPendingReview,
    Paused,
    Degraded,
    Halted,
    Retired,
}

impl CampaignState {
    /// The text that stands for the variant.
    pub open spec fn label(self) -> Seq<char> {
        match self {
            CampaignState::Active => "active"@,
            CampaignState::BudgetWaiting => "budget_waiting"@,
            CampaignState::GoalReachedPendingReview => "goal_reached_pending_review"@,
            CampaignState::Paused => "paused"@,
            CampaignState::Degraded => "degraded"@,
            CampaignState::Halted => "halted"@,
            CampaignState::Retired => "retired"@,
        }
    }

    pub fn as_str(self) -> (text: &'static str)
        ensures
            text@ == self.label(),
    {
        match self {
            CampaignState::Active => "active",
            CampaignState::BudgetWaiting => "budget_waiting",
            CampaignState::GoalReachedPendingReview => "goal_reached_pending_review",
            CampaignState::Paused => "paused",
            CampaignState::Degraded => "degraded",
            CampaignState::Halted => "halted",
            CampaignState::Retired => "retired",
        }
    }

    /// Reads the variant that a text stands for.
    pub fn from_str(value: &str) -> (parsed: Result<CampaignState, ModelEnumParseError>)
        ensures
            forall|variant: CampaignState| #[trigger]
                variant.label() == value@ ==> parsed == Ok::<CampaignState, ModelEnumParseError>(variant),
            match parsed {
                Ok(variant) => variant.label() == value@,
                Err(error) => error.enum_name@ == "CampaignState"@ && error.value@ == value@,
            },
    {
        let parsed = if same_text(value, "active") {
            Ok(CampaignState::Active)
        } else if same_text(value, "budget_waiting") {
            Ok(CampaignState::BudgetWaiting)
        } else if same_text(value, "goal_reached_pending_review") {
            Ok(CampaignState::GoalReachedPendingReview)
        } else if same_text(value, "paused") {
            Ok(CampaignState::Paused)
        } else if same_text(value, "degraded") {
            Ok(CampaignState::Degraded)
        } else if same_text(value, "halted") {
            Ok(CampaignState::Halted)
        } else if same_text(value, "retired") {
            Ok(CampaignState::Retired)
        } else {
            Err(unknown("CampaignState", value))
        };
        proof {
            if let Ok(found) = parsed {
                assert forall|variant: CampaignState| #[trigger]
                    variant.label() == value@ implies variant == found by {
                    lemma_campaign_state_labels_differ(variant, found);
                }
            }
        }
        parsed
    }
}

/// Two variants of [`CampaignState`] never share a text.
pub proof fn lemma_campaign_state_labels_differ(a: CampaignState, b: CampaignState)
    requires
        a.label() == b.label(),
    ensures
        a == b,
{
    reveal_strlit("active");
    assert("active"@.len() == 6 && "active"@[0] == 'a');
    reveal_strlit("budget_waiting");
    assert("budget_waiting"@.len() == 14 && "budget_waiting"@[0] == 'b');
    reveal_strlit("goal_reached_pending_review");
    assert("goal_reached_pending_review"@.len() == 27 && "goal_reached_pending_review"@[0] == 'g');
    reveal_strlit("paused");
    assert("paused"@.len() == 6 && "paused"@[0] == 'p');
    reveal_strlit("degraded");
    assert("degraded"@.len() == 8 && "degraded"@[0] == 'd');
    reveal_strlit("halted");
    assert("halted"@.len() == 6 && "halted"@[0] == 'h');
    reveal_strlit("retired");
    assert("retired"@.len() == 7 && "retired"@[0] == 'r');
}

/// What a proposal asks for.
#[derive(Debug, Clone, Copy, PartialEq, Eq, Structural)]
pub enum ProposalKind {
    Experiment,
    Repair,
    BroaderSearch,
    Recipe,
    CodeChange,
    DataEvaluation,
}

impl ProposalKind {
    /// The text that stands for the variant.
    pub open spec fn label(self) -> Seq<char> {
        match self {
            ProposalKind::Experiment => "experiment"@,
            ProposalKind::Repair => "repair"@,
            ProposalKind::BroaderSearch => "broader_search"@,
            ProposalKind::Recipe => "recipe"@,
            ProposalKind::CodeChange => "code_change"@,
            ProposalKind::DataEvaluation => "data_evaluation"@,
        }
    }

    pub fn as_str(self) -> (text: &'static str)
        ensures
            text@ == self.label(),
    {
        match self {
            ProposalKind::Experiment => "experiment",
            ProposalKind::Repair => "repair",
            ProposalKind::BroaderSearch => "broader_search",
            ProposalKind::Recipe => "recipe",
            ProposalKind::CodeChange => "code_change",
            ProposalKind::DataEvaluation => "data_evaluation",
        }
    }

    /// Reads the variant that a text stands for.
    pub fn from_str(value: &str) -> (parsed: Result<ProposalKind, ModelEnumParseError>)
        ensures
            forall|variant: ProposalKind| #[trigger]
                variant.label() == value@ ==> parsed == Ok::<ProposalKind, ModelEnumParseError>(variant),
            match parsed {
                Ok(variant) => variant.label() == value@,
                Err(error) => error.enum_name@ == "ProposalKind"@ && error.value@ == value@,
            },
    {
        let parsed = if same_text(value, "experiment") {
            Ok(ProposalKind::Experiment)
        } else if same_text(value, "repair") {
            Ok(ProposalKind::Repair)
        } else if same_text(value, "broader_search") {
            Ok(ProposalKind::BroaderSearch)
        } else if same_text(value, "recipe") {
            Ok(ProposalKind::Recipe)
        } else if same_text(value, "code_change") {
            Ok(ProposalKind::CodeChange)
        } else if same_text(value, "data_evaluation") {
            Ok(ProposalKind::DataEvaluation)
        } else {
            Err(unknown("ProposalKind", value))
        };
        proof {
            if let Ok(found) = parsed {
                assert forall|variant: ProposalKind| #[trigger]
                    variant.label() == value@ implies variant == found by {
                    lemma_proposal_kind_labels_differ(variant, found);
                }
            }
        }
        parsed
    }
}

/// Two variants of [`ProposalKind`] never share a text.
pub proof fn lemma_proposal_kind_labels_differ(a: ProposalKind, b: ProposalKind)
    requires
        a.label() == b.label(),
    ensures
        a == b,
{
    reveal_strlit("experiment");
    assert("experiment"@.len() == 10 && "experiment"@[2] == 'p');
    reveal_strlit("repair");
    assert("repair"@.len() == 6 && "repair"@[2] == 'p');
    reveal_strlit("broader_search");
    assert("broader_search"@.len() == 14 && "broader_search"@[2] == 'o');
    reveal_strlit("recipe");
    assert("recipe"@.len() == 6 && "recipe"@[2] == 'c');
    reveal_strlit("code_change");
    assert("code_change"@.len() == 11 && "code_change"@[2] == 'd');
    reveal_strlit("data_evaluation");
    assert("data_evaluation"@.len() == 15 && "data_evaluation"@[2] == 't');
}

/// Where a proposal stands.
#[derive(Debug, Clone, Copy, PartialEq, Eq, Structural)]
pub enum ProposalStatus {
    Pending,
    Accepted,
    Rejected,
}

impl ProposalStatus {
    /// The text that stands for the variant.
    pub open spec fn label(self) -> Seq<char> {
        match self {
            ProposalStatus::Pending => "pending"@,
            ProposalStatus::Accepted => "accepted"@,
            ProposalStatus::Rejected => "rejected"@,
        }
    }

    pub fn as_str(self) -> (text: &'static str)
        ensures
            text@ == self.label(),
    {
        match self {
            ProposalStatus::Pending => "pending",
            ProposalStatus::Accepted => "accepted",
            ProposalStatus::Rejected => "rejected",
        }
    }

    /// Reads the variant that a text stands for.
    pub fn from_str(value: &str) -> (parsed: Result<ProposalStatus, ModelEnumParseError>)
        ensures
            forall|variant: ProposalStatus| #[trigger]
                variant.label() == value@ ==> parsed == Ok::<ProposalStatus, ModelEnumParseError>(variant),
            match parsed {
                Ok(variant) => variant.label() == value@,
                Err(error) => error.enum_name@ == "ProposalStatus"@ && error.value@ == value@,
            },
    {
        let parsed = if same_text(value, "pending") {
            Ok(ProposalStatus::Pending)
        } else if same_text(value, "accepted") {
            Ok(ProposalStatus::Accepted)
        } else if same_text(value, "rejected") {
            Ok(ProposalStatus::Rejected)
        } else {
            Err(unknown("ProposalStatus", value))
        };
        proof {
            if let Ok(found) = parsed {
                assert forall|variant: ProposalStatus| #[trigger]
                    variant.label() == value@ implies variant == found by {
                    lemma_proposal_status_labels_differ(variant, found);
                }
            }
        }
        parsed
    }
}

/// Two variants of [`ProposalStatus`] never share a text.
pub proof fn lemma_proposal_status_labels_differ(a: ProposalStatus, b: ProposalStatus)
    requires
        a.label() == b.label(),
    ensures
        a == b,
{
    reveal_strlit("pending");
    assert("pending"@.len() == 7 && "pending"@[0] == 'p');
    reveal_strlit("accepted");
    assert("accepted"@.len() == 8 && "accepted"@[0] == 'a');
    reveal_strlit("rejected");
    assert("rejected"@.len() == 8 && "rejected"@[0] == 'r');
}

/// Where an experiment stands.
#[derive(Debug, Clone, Copy, PartialEq, Eq, Structural)]
pub enum ExperimentStatus {
    Reserved,
    Submitting,
    Accepted,
    Unreconciled,
    Succeeded,
    Failed,
    Cancelled,
}

impl ExperimentStatus {
    /// The text that stands for the variant.
    pub open spec fn label(self) -> Seq<char> {
        match self {
            ExperimentStatus::Reserved => "reserved"@,
            ExperimentStatus::Submitting => "submitting"@,
            ExperimentStatus::Accepted => "accepted"@,
            ExperimentStatus::Unreconciled => "unreconciled"@,
            ExperimentStatus::Succeeded => "succeeded"@,
            ExperimentStatus::Failed => "failed"@,
            ExperimentStatus::Cancelled => "cancelled"@,
        }
    }

    pub fn as_str(self) -> (text: &'static str)
        ensures
            text@ == self.label(),
    {
        match self {
            ExperimentStatus::Reserved => "reserved",
            ExperimentStatus::Submitting => "submitting",
            ExperimentStatus::Accepted => "accepted",
            ExperimentStatus::Unreconciled => "unreconciled",
            ExperimentStatus::Succeeded => "succeeded",
            ExperimentStatus::Failed => "failed",
            ExperimentStatus::Cancelled => "cancelled",
        }
    }

    /// Reads the variant that a text stands for.
    pub fn from_str(value: &str) -> (parsed: Result<ExperimentStatus, ModelEnumParseError>)
        ensures
            forall|variant: ExperimentStatus| #[trigger]
                variant.label() == value@ ==> parsed == Ok::<ExperimentStatus, ModelEnumParseError>(variant),
            match parsed {
                Ok(variant) => variant.label() == value@,
                Err(error) => error.enum_name@ == "ExperimentStatus"@ && error.value@ == value@,
            },
    {
        let parsed = if same_text(value, "reserved") {
            Ok(ExperimentStatus::Reserved)
        } else if same_text(value, "submitting") {
            Ok(ExperimentStatus::Submitting)
        } else if same_text(value, "accepted") {
            Ok(ExperimentStatus::Accepted)
        } else if same_text(value, "unreconciled") {
            Ok(ExperimentStatus::Unreconciled)
        } else if same_text(value, "succeeded") {
            Ok(ExperimentStatus::Succeeded)
        } else if same_text(value, "failed") {
            Ok(ExperimentStatus::Failed)
        } else if same_text(value, "cancelled") {
            Ok(ExperimentStatus::Cancelled)
        } else {
            Err(unknown("ExperimentStatus", value))
        };
        proof {
            if let Ok(found) = parsed {
                assert forall|variant: ExperimentStatus| #[trigger]
                    variant.label() == value@ implies variant == found by {
                    lemma_experiment_status_labels_differ(variant, found);
                }
            }
        }
        parsed
    }
}

/// Two variants of [`ExperimentStatus`] never share a text.
pub proof fn lemma_experiment_status_labels_differ(a: ExperimentStatus, b: ExperimentStatus)
    requires
        a.label() == b.label(),
    ensures
        a == b,
{
    reveal_strlit("reserved");
    assert("reserved"@.len() == 8 && "reserved"@[0] == 'r');
    reveal_strlit("submitting");
    assert("submitting"@.len() == 10 && "submitting"@[0] == 's');
    reveal_strlit("accepted");
    assert("accepted"@.len() == 8 && "accepted"@[0] == 'a');
    reveal_strlit("unreconciled");
    assert("unreconciled"@.len() == 12 && "unreconciled"@[0] == 'u');
    reveal_strlit("succeeded");
    assert("succeeded"@.len() == 9 && "succeeded"@[0] == 's');
    reveal_strlit("failed");
    assert("failed"@.len() == 6 && "failed"@[0] == 'f');
    reveal_strlit("cancelled");
    assert("cancelled"@.len() == 9 && "cancelled"@[0] == 'c');
}

/// What a budget counts.
#[derive(Debug, Clone, Copy, PartialEq, Eq, Structural)]
pub enum BudgetDimension {
    Experiment,
    AgentRun,
    CodeChange,
}

impl BudgetDimension {
    /// The text that stands for the variant.
    pub open spec fn label(self) -> Seq<char> {
        match self {
            BudgetDimension::Experiment => "experiment"@,
            BudgetDimension::AgentRun => "agent_run"@,
            BudgetDimension::CodeChange => "code_change"@,
        }
    }

    pub fn as_str(self) -> (text: &'static str)
        ensures
            text@ == self.label(),
    {
        match self {
            BudgetDimension::Experiment => "experiment",
            BudgetDimension::AgentRun => "agent_run",
            BudgetDimension::CodeChange => "code_change",
        }
    }

    /// Reads the variant that a text stands for.
    pub fn from_str(value: &str) -> (parsed: Result<BudgetDimension, ModelEnumParseError>)
        ensures
            forall|variant: BudgetDimension| #[trigger]
                variant.label() == value@ ==> parsed == Ok::<BudgetDimension, ModelEnumParseError>(variant),
            match parsed {
                Ok(variant) => variant.label() == value@,
                Err(error) => error.enum_name@ == "BudgetDimension"@ && error.value@ == value@,
            },
    {
        let parsed = if same_text(value, "experiment") {
            Ok(BudgetDimension::Experiment)
        } else if same_text(value, "agent_run") {
            Ok(BudgetDimension::AgentRun)
        } else if same_text(value, "code_change") {
            Ok(BudgetDimension::CodeChange)
        } else {
            Err(unknown("BudgetDimension", value))
        };
        proof {
            if let Ok(found) = parsed {
                assert forall|variant: BudgetDimension| #[trigger]
                    variant.label() == value@ implies variant == found by {
                    lemma_budget_dimension_labels_differ(variant, found);
                }
            }
        }
        parsed
    }
}

/// Two variants of [`BudgetDimension`] never share a text.
pub proof fn lemma_budget_dimension_labels_differ(a: BudgetDimension, b: BudgetDimension)
    requires
        a.label() == b.label(),
    ensures
        a == b,
{
    reveal_strlit("experiment");
    assert("experiment"@.len() == 10);
    reveal_strlit("agent_run");
    assert("agent_run"@.len() == 9);
    reveal_strlit("code_change");
    assert("code_change"@.len() == 11);
}

/// Where a budget reservation stands.
#[derive(Debug, Clone, Copy, PartialEq, Eq, Structural)]
pub enum BudgetReservationStatus {
    Reserved,
    Consumed,
    Released,
}

impl BudgetReservationStatus {
    /// The text that stands for the variant.
    pub open spec fn label(self) -> Seq<char> {
        match self {
            BudgetReservationStatus::Reserved => "reserved"@,
            BudgetReservationStatus::Consumed => "consumed"@,
            BudgetReservationStatus::Released => "released"@,
        }
    }

    pub fn as_str(self) -> (text: &'static str)
        ensures
            text@ == self.label(),
    {
        match self {
            BudgetReservationStatus::Reserved => "reserved",
            BudgetReservationStatus::Consumed => "consumed",
            BudgetReservationStatus::Released => "released",
        }
    }

    /// Reads the variant that a text stands for.
    pub fn from_str(value: &str) -> (parsed: Result<BudgetReservationStatus, ModelEnumParseError>)
        ensures
            forall|variant: BudgetReservationStatus| #[trigger]
                variant.label() == value@ ==> parsed == Ok::<BudgetReservationStatus, ModelEnumParseError>(variant),
            match parsed {
                Ok(variant) => variant.label() == value@,
                Err(error) => error.enum_name@ == "BudgetReservationStatus"@ && error.value@ == value@,
            },
    {
        let parsed = if same_text(value, "reserved") {
            Ok(BudgetReservationStatus::Reserved)
        } else if same_text(value, "consumed") {
            Ok(BudgetReservationStatus::Consumed)
        } else if same_text(value, "released") {
            Ok(BudgetReservationStatus::Released)
        } else {
            Err(unknown("BudgetReservationStatus", value))
        };
        proof {
            if let Ok(found) = parsed {
                assert forall|variant: BudgetReservationStatus| #[trigger]
                    variant.label() == value@ implies variant == found by {
                    lemma_budget_reservation_status_labels_differ(variant, found);
                }
            }
        }
        parsed
    }
}

/// Two variants of [`BudgetReservationStatus`] never share a text.
pub proof fn lemma_budget_reservation_status_labels_differ(a: BudgetReservationStatus, b: BudgetReservationStatus)
    requires
        a.label() == b.label(),
    ensures
        a == b,
{
    reveal_strlit("reserved");
    assert("reserved"@.len() == 8 && "reserved"@[0] == 'r' && "reserved"@[2] == 's');
    reveal_strlit("consumed");
    assert("consumed"@.len() == 8 && "consumed"@[0] == 'c' && "consumed"@[2] == 'n');
    reveal_strlit("released");
    assert("released"@.len() == 8 && "released"@[0] == 'r' && "released"@[2] == 'l');
}

/// Where a termination request stands.
#[derive(Debug, Clone, Copy, PartialEq, Eq, Structural)]
pub enum TerminationRequestStatus {
    Requested,
    Dispatching,
    Sent,
    Confirmed,
    TimedOut,
    Failed,
}

impl TerminationRequestStatus {
    /// The text that stands for the variant.
    pub open spec fn label(self) -> Seq<char> {
        match self {
            TerminationRequestStatus::Requested => "requested"@,
            TerminationRequestStatus::Dispatching => "dispatching"@,
            TerminationRequestStatus::Sent => "sent"@,
            TerminationRequestStatus::Confirmed => "confirmed"@,
            TerminationRequestStatus::TimedOut => "timed_out"@,
            TerminationRequestStatus::Failed => "failed"@,
        }
    }

    pub fn as_str(self) -> (text: &'static str)
        ensures
            text@ == self.label(),
    {
        match self {
            TerminationRequestStatus::Requested => "requested",
            TerminationRequestStatus::Dispatching => "dispatching",
            TerminationRequestStatus::Sent => "sent",
            TerminationRequestStatus::Confirmed => "confirmed",
            TerminationRequestStatus::TimedOut => "timed_out",
            TerminationRequestStatus::Failed => "failed",
        }
    }

    /// Reads the variant that a text stands for.
    pub fn from_str(value: &str) -> (parsed: Result<TerminationRequestStatus, ModelEnumParseError>)
        ensures
            forall|variant: TerminationRequestStatus| #[trigger]
                variant.label() == value@ ==> parsed == Ok::<TerminationRequestStatus, ModelEnumParseError>(variant),
            match parsed {
                Ok(variant) => variant.label() == value@,
                Err(error) => error.enum_name@ == "TerminationRequestStatus"@ && error.value@ == value@,
            },
    {
        let parsed = if same_text(value, "requested") {
            Ok(TerminationRequestStatus::Requested)
        } else if same_text(value, "dispatching") {
            Ok(TerminationRequestStatus::Dispatching)
        } else if same_text(value, "sent") {
            Ok(TerminationRequestStatus::Sent)
        } else if same_text(value, "confirmed") {
            Ok(TerminationRequestStatus::Confirmed)
        } else if same_text(value, "timed_out") {
            Ok(TerminationRequestStatus::TimedOut)
        } else if same_text(value, "failed") {
            Ok(TerminationRequestStatus::Failed)
        } else {
            Err(unknown("TerminationRequestStatus", value))
        };
        proof {
            if let Ok(found) = parsed {
                assert forall|variant: TerminationRequestStatus| #[trigger]
                    variant.label() == value@ implies variant == found by {
                    lemma_termination_request_status_labels_differ(variant, found);
                }
            }
        }
        parsed
    }
}

/// Two variants of [`TerminationRequestStatus`] never share a text.
pub proof fn lemma_termination_request_status_labels_differ(a: TerminationRequestStatus, b: TerminationRequestStatus)
    requires
        a.label() == b.label(),
    ensures
        a == b,
{
    reveal_strlit("requested");
    assert("requested"@.len() == 9 && "requested"@[0] == 'r');
    reveal_strlit("dispatching");
    assert("dispatching"@.len() == 11 && "dispatching"@[0] == 'd');
    reveal_strlit("sent");
    assert("sent"@.len() == 4 && "sent"@[0] == 's');
    reveal_strlit("confirmed");
    assert("confirmed"@.len() == 9 && "confirmed"@[0] == 'c');
    reveal_strlit("timed_out");
    assert("timed_out"@.len() == 9 && "timed_out"@[0] == 't');
    reveal_strlit("failed");
    assert("failed"@.len() == 6 && "failed"@[0] == 'f');
}

} // verus!
