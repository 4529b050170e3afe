//! The records that the supervisor keeps.

use vstd::prelude::*;
use vstd::string::*;

use crate::error::{invalid, AppError};
use crate::fspath::{absolute, is_absolute};
use crate::json::Json;
pub use crate::states::{
    AgentRunStatus, BatchJobStatus, BatchStatus, BudgetDimension, BudgetReservationStatus,
    CampaignState, EventKind, EventStatus, ExperimentStatus, IncidentStatus, IncidentTransition,
    IntegrationEventKind, InterventionStatus, ModelEnumParseError, ProposalKind, ProposalStatus,
    SubmissionKind, SubmissionStatus, TerminationRequestStatus,
};
use crate::states::unknown;
use crate::text::{byte_len, chars_of, control, is_control, measured, same_text, trim, trimmed};

verus! {

pub const MAX_EXECUTABLE_PATH_BYTES: usize = 4096;

pub const MAX_EXECUTABLE_IDENTITY_BYTES: usize = 256;

/// A registered project.
#[derive(Debug, Clone, PartialEq, Eq)]
pub struct Project {
    pub project_id: String,
    pub root_path: String,
    pub pueue_group: String,
    pub config_path: String,
    pub enabled: bool,
    pub paused: bool,
    pub halted_reason: Option<String>,
    pub created_at: i64,
    pub updated_at: i64,
}

/// A project to be registered.
#[derive(Debug, Clone, PartialEq, Eq)]
pub struct NewProject {
    pub project_id: String,
    pub root_path: String,
    pub pueue_group: String,
    pub config_path: String,
    pub enabled: bool,
    pub paused: bool,
    pub created_at: i64,
}

/// Something that has happened in a project and may call for an agent run.
#[derive(Debug)]
pub struct Event {
    pub event_id: i64,
    pub project_id: String,
    pub campaign_id: Option<String>,
    pub experiment_id: Option<String>,
    pub kind: EventKind,
    pub dedup_key: String,
    pub payload: Json,
    pub status: EventStatus,
    pub attempts: i64,
    pub not_before: i64,
    pub lease_until: Option<i64>,
    pub created_at: i64,
    pub completed_at: Option<i64>,
    pub last_error: Option<String>,
}

/// An event to be recorded.
#[derive(Debug)]
pub struct NewEvent {
    pub project_id: String,
    pub kind: EventKind,
    pub dedup_key: String,
    pub payload: Json,
    pub not_before: i64,
    pub created_at: i64,
}

/// An event with the campaign and the experiment that it belongs to, and the
/// status with which it is stored.
#[derive(Debug)]
pub struct LineageEvent {
    pub event: NewEvent,
    pub campaign_id: Option<String>,
    pub experiment_id: Option<String>,
    pub status: EventStatus,
}

/// Something that has happened to the integration itself.
#[derive(Debug)]
pub struct IntegrationEvent {
    pub integration_event_id: i64,
    pub kind: IntegrationEventKind,
    pub dedup_key: String,
    pub payload: Json,
    pub created_at: i64,
}

/// An integration event to be recorded.
#[derive(Debug)]
pub struct NewIntegrationEvent {
    pub kind: IntegrationEventKind,
    pub dedup_key: String,
    pub payload: Json,
    pub created_at: i64,
}

/// A recurring trouble of a project.
#[derive(Debug, Clone, PartialEq, Eq)]
pub struct Incident {
    pub incident_id: i64,
    pub project_id: String,
    pub kind: String,
    pub task_key: Option<String>,
    pub fingerprint: String,
    pub status: IncidentStatus,
    pub first_seen_at: i64,
    pub last_seen_at: i64,
    pub acknowledged_at: Option<i64>,
    pub resolved_at: Option<i64>,
}

/// An incident as it is observed.
#[derive(Debug, Clone, PartialEq, Eq)]
pub struct NewIncident {
    pub project_id: String,
    pub kind: String,
    pub task_key: Option<String>,
    pub fingerprint: String,
    pub seen_at: i64,
}

/// An incident and what an observation did to it.
#[derive(Debug, Clone, PartialEq, Eq)]
pub struct IncidentUpdate {
    pub incident: Incident,
    pub transition: IncidentTransition,
}

/// A command that has been handed to the queue.
#[derive(Debug)]
pub struct Submission {
    pub submission_id: String,
    pub project_id: String,
    pub argv: Vec<String>,
    pub created_at: i64,
    pub pueue_task_id: Option<i64>,
    pub task_signature: Option<String>,
    pub status: SubmissionStatus,
    pub kind: SubmissionKind,
    pub metadata: Json,
    pub origin_agent_run_id: Option<i64>,
}

/// A campaign of experiments towards an objective.
#[derive(Debug, Clone, PartialEq, Eq)]
pub struct Campaign {
    pub campaign_id: String,
    pub project_id: String,
    pub objective_text: String,
    pub objective_digest: String,
    pub initial_argv: Vec<String>,
    pub state: CampaignState,
    pub state_reason: Option<String>,
    pub baseline_experiment_id: Option<String>,
    pub next_eligible_at: Option<i64>,
    pub created_at: i64,
    pub updated_at: i64,
}

/// A proposed next step of a campaign.
#[derive(Debug, Clone, PartialEq, Eq)]
pub struct Proposal {
    pub proposal_id: String,
    pub campaign_id: String,
    pub kind: ProposalKind,
    pub status: ProposalStatus,
    pub hypothesis: String,
    pub source_experiment_id: Option<String>,
    pub argv: Vec<String>,
    pub working_directory: String,
    pub expected_evidence: Vec<String>,
    pub canonical_digest: String,
    pub reject_reason: Option<String>,
    pub created_at: i64,
    pub updated_at: i64,
}

/// One run of a campaign.
#[derive(Debug, Clone, PartialEq, Eq)]
pub struct Experiment {
    pub experiment_id: String,
    pub campaign_id: String,
    pub proposal_id: String,
    pub submission_id: String,
    pub parent_experiment_id: Option<String>,
    pub attempt: i64,
    pub status: ExperimentStatus,
    pub pueue_task_id: Option<i64>,
    pub task_signature: Option<String>,
    pub failure_code: Option<String>,
    pub failure_fingerprint: Option<String>,
    pub created_at: i64,
    pub updated_at: i64,
    pub finished_at: Option<i64>,
}

/// A part of a budget that has been set aside.
#[derive(Debug, Clone, PartialEq, Eq)]
pub struct BudgetReservation {
    pub reservation_id: String,
    pub campaign_id: String,
    pub experiment_id: Option<String>,
    pub dimension: BudgetDimension,
    pub subject_key: String,
    pub status: BudgetReservationStatus,
    pub window_started_at: i64,
    pub window_ends_at: i64,
    pub created_at: i64,
    pub updated_at: i64,
}

/// A submission to be recorded.
#[derive(Debug)]
pub struct NewSubmission {
    pub submission_id: String,
    pub project_id: String,
    pub argv: Vec<String>,
    pub created_at: i64,
    pub status: SubmissionStatus,
    pub kind: SubmissionKind,
    pub metadata: Json,
    pub origin_agent_run_id: Option<i64>,
}

/// A job of a batch.
#[derive(Debug)]
pub struct BatchJob {
    pub request_id: String,
    pub job_id: String,
    pub ordinal: i64,
    pub kind: SubmissionKind,
    pub argv: Vec<String>,
    pub metadata: Json,
    pub status: BatchJobStatus,
    pub pueue_task_id: Option<i64>,
    pub submission_id: Option<String>,
    pub last_error: Option<String>,
}

/// A job of a batch to be recorded.
#[derive(Debug)]
pub struct NewBatchJob {
    pub job_id: String,
    pub ordinal: i64,
    pub kind: SubmissionKind,
    pub argv: Vec<String>,
    pub metadata: Json,
}

/// A request for several jobs.
#[derive(Debug)]
pub struct BatchRequest {
    pub request_id: String,
    pub project_id: String,
    pub manifest_hash: String,
    pub status: BatchStatus,
    pub lease_until: Option<i64>,
    pub lease_token: Option<String>,
    pub created_at: i64,
    pub updated_at: i64,
    pub last_error: Option<String>,
    pub jobs: Vec<BatchJob>,
}

/// A batch to be recorded.
#[derive(Debug)]
pub struct NewBatchRequest {
    pub request_id: String,
    pub project_id: String,
    pub manifest_hash: String,
    pub jobs: Vec<NewBatchJob>,
    pub created_at: i64,
}

/// A run of an agent.
#[derive(Debug, Clone, PartialEq, Eq)]
pub struct AgentRun {
    pub run_id: i64,
    pub project_id: String,
    pub primary_event_id: i64,
    pub pid: Option<i64>,
    pub status: AgentRunStatus,
    pub started_at: i64,
    pub finished_at: Option<i64>,
    pub exit_code: Option<i64>,
    pub log_path: String,
    pub last_error: Option<String>,
    pub launch_gate_state: String,
    pub context_mode: AgentContextMode,
    pub context_session_id: Option<String>,
    pub context_lineage: Vec<String>,
    pub execution_kind: Option<String>,
    pub executable_path: Option<String>,
    pub executable_identity: Option<String>,
    pub policy_code: Option<String>,
    pub failure_stage: Option<String>,
}

/// An agent run to be recorded.
#[derive(Debug, Clone, PartialEq, Eq)]
pub struct NewAgentRun {
    pub project_id: String,
    pub primary_event_id: i64,
    pub pid: Option<i64>,
    pub status: AgentRunStatus,
    pub started_at: i64,
    pub log_path: String,
    pub context_mode: AgentContextMode,
    pub context_session_id: Option<String>,
    pub context_lineage: Vec<String>,
    pub execution: Option<ExecutionProjection>,
}

/// An event that a run was started for.
#[derive(Debug, Clone, PartialEq, Eq)]
pub struct AgentRunEvent {
    pub project_id: String,
    pub run_id: i64,
    pub event_id: i64,
}

/// A request to end a task.
#[derive(Debug, Clone, PartialEq, Eq)]
pub struct TerminationRequest {
    pub request_id: i64,
    pub incident_id: i64,
    pub project_id: String,
    pub task_signature: String,
    pub reason: String,
    pub status: TerminationRequestStatus,
    pub requested_at: i64,
    pub dispatch_lease_until: Option<i64>,
    pub grace_until: Option<i64>,
    pub confirmed_at: Option<i64>,
    pub last_error: Option<String>,
}

/// A termination request to be recorded.
#[derive(Debug, Clone, PartialEq, Eq)]
pub struct NewTerminationRequest {
    pub incident_id: i64,
    pub project_id: String,
    pub task_signature: String,
    pub reason: String,
    pub status: TerminationRequestStatus,
    pub requested_at: i64,
    pub grace_until: Option<i64>,
}

/// What was seen of a task of the queue.
#[derive(Debug, Clone, PartialEq, Eq)]
pub struct TaskObservation {
    pub project_id: String,
    pub task_signature: String,
    pub pueue_task_id: i64,
    pub pueue_group: String,
    pub command: Vec<String>,
    pub state: String,
    pub enqueued_at: Option<i64>,
    pub started_at: Option<i64>,
    pub ended_at: Option<i64>,
    pub result: Option<String>,
    pub observed_at: i64,
}

/// A task observation to be recorded.
#[derive(Debug, Clone, PartialEq, Eq)]
pub struct NewTaskObservation {
    pub project_id: String,
    pub task_signature: String,
    pub pueue_task_id: i64,
    pub pueue_group: String,
    pub command: Vec<String>,
    pub state: String,
    pub enqueued_at: Option<i64>,
    pub started_at: Option<i64>,
    pub ended_at: Option<i64>,
    pub result: Option<String>,
    pub observed_at: i64,
}

impl NewProject {
    /// A project that is enabled and not paused.
    pub fn new(
        project_id: String,
        root_path: String,
        pueue_group: String,
        config_path: String,
        created_at: i64,
    ) -> (record: Self)
        ensures
            record == (NewProject {
                project_id,
                root_path,
                pueue_group,
                config_path,
                enabled: true,
                paused: false,
                created_at,
            }),
    {
        NewProject {
            project_id,
            root_path,
            pueue_group,
            config_path,
            enabled: true,
            paused: false,
            created_at,
        }
    }
}

impl NewEvent {
    /// An event with the given contents.
    pub fn new(
        project_id: String,
        kind: EventKind,
        dedup_key: String,
        payload: Json,
        not_before: i64,
        created_at: i64,
    ) -> (record: Self)
        ensures
            record == (NewEvent {
                project_id,
                kind,
                dedup_key,
                payload,
                not_before,
                created_at,
            }),
    {
        NewEvent {
            project_id,
            kind,
            dedup_key,
            payload,
            not_before,
            created_at,
        }
    }
}

impl NewIntegrationEvent {
    /// An integration event with the given contents.
    pub fn new(
        kind: IntegrationEventKind,
        dedup_key: String,
        payload: Json,
        created_at: i64,
    ) -> (record: Self)
        ensures
            record == (NewIntegrationEvent {
                kind,
                dedup_key,
                payload,
                created_at,
            }),
    {
        NewIntegrationEvent {
            kind,
            dedup_key,
            payload,
            created_at,
        }
    }
}

impl NewIncident {
    /// An incident with the given contents.
    pub fn new(
        project_id: String,
        kind: String,
        task_key: Option<String>,
        fingerprint: String,
        seen_at: i64,
    ) -> (record: Self)
        ensures
            record == (NewIncident {
                project_id,
                kind,
                task_key,
                fingerprint,
                seen_at,
            }),
    {
        NewIncident {
            project_id,
            kind,
            task_key,
            fingerprint,
            seen_at,
        }
    }
}

impl NewSubmission {
    /// A pending submission with the given contents.
    pub fn with_kind_metadata(
        submission_id: String,
        project_id: String,
        argv: Vec<String>,
        created_at: i64,
        kind: SubmissionKind,
        metadata: Json,
        origin_agent_run_id: Option<i64>,
    ) -> (record: Self)
        ensures
            record == (NewSubmission {
                submission_id,
                project_id,
                argv,
                created_at,
                status: SubmissionStatus::Pending,
                kind,
                metadata,
                origin_agent_run_id,
            }),
    {
        NewSubmission {
            submission_id,
            project_id,
            argv,
            created_at,
            status: SubmissionStatus::Pending,
            kind,
            metadata,
            origin_agent_run_id,
        }
    }
}

impl NewSubmission {
    /// A pending experiment without metadata that no agent run asked for.
    pub fn new(
        submission_id: String,
        project_id: String,
        argv: Vec<String>,
        created_at: i64,
    ) -> (record: Self)
        ensures
            record.submission_id == submission_id,
            record.project_id == project_id,
            record.argv == argv,
            record.created_at == created_at,
            record.status == SubmissionStatus::Pending,
            record.kind == SubmissionKind::Experiment,
            record.metadata@ == crate::json::JsonTree::Record(Map::empty()),
            record.origin_agent_run_id == None::<i64>,
    {
        NewSubmission::with_kind_metadata(
            submission_id,
            project_id,
            argv,
            created_at,
            SubmissionKind::Experiment,
            crate::json::empty_record(),
            None,
        )
    }
}

impl NewBatchJob {
    /// A job with the given contents.
    pub fn new(
        job_id: String,
        ordinal: i64,
        kind: SubmissionKind,
        argv: Vec<String>,
        metadata: Json,
    ) -> (record: Self)
        ensures
            record == (NewBatchJob {
                job_id,
                ordinal,
                kind,
                argv,
                metadata,
            }),
    {
        NewBatchJob {
            job_id,
            ordinal,
            kind,
            argv,
            metadata,
        }
    }
}

impl NewBatchRequest {
    /// A batch with the given contents.
    pub fn new(
        request_id: String,
        project_id: String,
        manifest_hash: String,
        jobs: Vec<NewBatchJob>,
        created_at: i64,
    ) -> (record: Self)
        ensures
            record == (NewBatchRequest {
                request_id,
                project_id,
                manifest_hash,
                jobs,
                created_at,
            }),
    {
        NewBatchRequest {
            request_id,
            project_id,
            manifest_hash,
            jobs,
            created_at,
        }
    }
}

impl NewTerminationRequest {
    /// A request that has not been sent yet.
    pub fn new(
        incident_id: i64,
        project_id: String,
        task_signature: String,
        reason: String,
        requested_at: i64,
        grace_until: Option<i64>,
    ) -> (record: Self)
        ensures
            record == (NewTerminationRequest {
                incident_id,
                project_id,
                task_signature,
                reason,
                status: TerminationRequestStatus::Requested,
                requested_at,
                grace_until,
            }),
    {
        NewTerminationRequest {
            incident_id,
            project_id,
            task_signature,
            reason,
            status: TerminationRequestStatus::Requested,
            requested_at,
            grace_until,
        }
    }
}

impl NewTaskObservation {
    /// An observation with the given contents.
    pub fn new(
        project_id: String,
        task_signature: String,
        pueue_task_id: i64,
        pueue_group: String,
        command: Vec<String>,
        state: String,
        enqueued_at: Option<i64>,
        started_at: Option<i64>,
        ended_at: Option<i64>,
        result: Option<String>,
        observed_at: i64,
    ) -> (record: Self)
        ensures
            record == (NewTaskObservation {
                project_id,
                task_signature,
                pueue_task_id,
                pueue_group,
                command,
                state,
                enqueued_at,
                started_at,
                ended_at,
                result,
                observed_at,
            }),
    {
        NewTaskObservation {
            project_id,
            task_signature,
            pueue_task_id,
            pueue_group,
            command,
            state,
            enqueued_at,
            started_at,
            ended_at,
            result,
            observed_at,
        }
    }
}

impl NewAgentRun {
    /// A run in the given context, without execution facts.
    pub fn with_context(
        project_id: String,
        primary_event_id: i64,
        pid: Option<i64>,
        status: AgentRunStatus,
        started_at: i64,
        log_path: String,
        context_mode: AgentContextMode,
        context_session_id: Option<String>,
        context_lineage: Vec<String>,
    ) -> (record: Self)
        ensures
            record == (NewAgentRun {
                project_id,
                primary_event_id,
                pid,
                status,
                started_at,
                log_path,
                context_mode,
                context_session_id,
                context_lineage,
                execution: None,
            }),
    {
        NewAgentRun {
            project_id,
            primary_event_id,
            pid,
            status,
            started_at,
            log_path,
            context_mode,
            context_session_id,
            context_lineage,
            execution: None,
        }
    }
}

impl NewAgentRun {
    /// A run in a fresh context, without execution facts.
    pub fn new(
        project_id: String,
        primary_event_id: i64,
        pid: Option<i64>,
        status: AgentRunStatus,
        started_at: i64,
        log_path: String,
    ) -> (record: Self)
        ensures
            record.project_id == project_id,
            record.primary_event_id == primary_event_id,
            record.pid == pid,
            record.status == status,
            record.started_at == started_at,
            record.log_path == log_path,
            record.context_mode == AgentContextMode::Fresh,
            record.context_session_id is None,
            record.context_lineage@ == Seq::<String>::empty(),
            record.execution is None,
    {
        NewAgentRun::with_context(
            project_id,
            primary_event_id,
            pid,
            status,
            started_at,
            log_path,
            AgentContextMode::Fresh,
            None,
            Vec::new(),
        )
    }

    /// The same run with the given execution facts.
    pub fn with_execution(self, execution: ExecutionProjection) -> (record: Self)
        ensures
            record == (NewAgentRun { execution: Some(execution), ..self }),
    {
        NewAgentRun { execution: Some(execution), ..self }
    }
}

/// How an experiment ended.
#[derive(Debug, Clone, Copy, PartialEq, Eq)]
pub enum ExperimentTerminalOutcome<'a> {
    Succeeded,
    Failed { failure_code: &'a str, failure_fingerprint: &'a str },
    Cancelled,
}

/// The conversation that a run continues, if any.
#[derive(Debug, Clone, PartialEq, Eq)]
pub enum AgentContextMode {
    Fresh,
    Resume { session_id: String },
    ResumeLatest,
}

impl AgentContextMode {
    pub open spec fn label(self) -> Seq<char> {
        match self {
            AgentContextMode::Fresh => "fresh"@,
            AgentContextMode::Resume { session_id: _ } => "resume"@,
            AgentContextMode::ResumeLatest => "resume_latest"@,
        }
    }

    pub fn as_str(&self) -> (text: &'static str)
        ensures
            text@ == self.label(),
    {
        match self {
            AgentContextMode::Fresh => "fresh",
            AgentContextMode::Resume { .. } => "resume",
            AgentContextMode::ResumeLatest => "resume_latest",
        }
    }

    /// The session that is resumed, where it is named.
    pub fn session_id(&self) -> (session: Option<&str>)
        ensures
            match (session, self) {
                (Some(id), AgentContextMode::Resume { session_id }) => id@ == session_id@,
                (None, AgentContextMode::Resume { .. }) => false,
                (Some(_), _) => false,
                (None, _) => true,
            },
    {
        match self {
            AgentContextMode::Resume { session_id } => Some(session_id.as_str()),
            _ => None,
        }
    }

    /// Reads a context from the two columns in which it is stored.
    pub fn from_db_parts(mode: &str, session_id: Option<String>) -> (context: Result<
        Self,
        ModelEnumParseError,
    >)
        ensures
            mode@ == "fresh"@ ==> context == Ok::<AgentContextMode, ModelEnumParseError>(
                AgentContextMode::Fresh,
            ),
            mode@ == "resume"@ && mode@ != "fresh"@ ==> (match session_id {
                Some(id) => if trimmed(id@).len() > 0 {
                    context == Ok::<AgentContextMode, ModelEnumParseError>(
                        AgentContextMode::Resume { session_id: id },
                    )
                } else {
                    context matches Err(error) && error.enum_name@ == "AgentContextMode"@
                        && error.value@ == "resume without session_id"@
                },
                None => context matches Err(error) && error.enum_name@ == "AgentContextMode"@
                    && error.value@ == "resume without session_id"@,
            }),
            mode@ == "resume_latest"@ && mode@ != "fresh"@ && mode@ != "resume"@ ==> context
                == Ok::<AgentContextMode, ModelEnumParseError>(AgentContextMode::ResumeLatest),
            mode@ != "fresh"@ && mode@ != "resume"@ && mode@ != "resume_latest"@ ==> (
            context matches Err(error) && error.enum_name@ == "AgentContextMode"@ && error.value@
                == mode@),
    {
        if same_text(mode, "fresh") {
            Ok(AgentContextMode::Fresh)
        } else if same_text(mode, "resume") {
            match session_id {
                Some(id) => {
                    let chars = chars_of(id.as_str());
                    let kept = trim(chars.as_slice());
                    if kept.len() > 0 {
                        Ok(AgentContextMode::Resume { session_id: id })
                    } else {
                        Err(unknown("AgentContextMode", "resume without session_id"))
                    }
                },
                None => Err(unknown("AgentContextMode", "resume without session_id")),
            }
        } else if same_text(mode, "resume_latest") {
            Ok(AgentContextMode::ResumeLatest)
        } else {
            Err(unknown("AgentContextMode", mode))
        }
    }
}

/// The bounded facts about an execution that are kept with a run: no command
/// line, no prompt and no environment.
#[derive(Debug, Clone, PartialEq, Eq)]
pub struct ExecutionProjection {
    execution_kind: String,
    executable_path: String,
    executable_identity: String,
}

/// A fact that may be kept: not empty, not too long, no control characters.
pub open spec fn is_execution_fact(value: Seq<char>, max_bytes: nat) -> bool {
    &&& value.len() > 0
    &&& byte_len(value) <= max_bytes
    &&& forall|i: int| 0 <= i < value.len() ==> !is_control(#[trigger] value[i])
}

/// Why facts about an execution are refused, if they are.
pub open spec fn projection_error(kind: Seq<char>, path: Seq<char>, identity: Seq<char>) -> Option<
    (Seq<char>, Seq<char>),
> {
    let unfit = "must be non-empty, bounded UTF-8 without control characters"@;
    if kind != "codex"@ && kind != "custom"@ {
        Some(("execution_kind"@, "must be codex or custom"@))
    } else if !is_execution_fact(path, MAX_EXECUTABLE_PATH_BYTES as nat) {
        Some(("executable_path"@, unfit))
    } else if !is_absolute(path) {
        Some(("executable_path"@, "must be an absolute path"@))
    } else if !is_execution_fact(identity, MAX_EXECUTABLE_IDENTITY_BYTES as nat) {
        Some(("executable_identity"@, unfit))
    } else {
        None
    }
}

/// The field and the message of a validation error.
pub open spec fn is_validation_error(error: AppError, reason: (Seq<char>, Seq<char>)) -> bool {
    error matches AppError::Validation { field, message } && field@ == reason.0 && message@
        == reason.1
}

fn execution_fact(value: &str, max_bytes: usize) -> (fit: bool)
    ensures
        fit == is_execution_fact(value@, max_bytes as nat),
{
    let chars = chars_of(value);
    if chars.len() == 0 || measured(value) > max_bytes {
        return false;
    }
    let mut at: usize = 0;
    while at < chars.len()
        invariant
            at <= chars@.len(),
            chars@ == value@,
            forall|i: int| 0 <= i < at ==> !is_control(#[trigger] chars@[i]),
        decreases chars.len() - at,
    {
        if control(chars[at]) {
            return false;
        }
        at = at + 1;
    }
    true
}

impl ExecutionProjection {
    pub closed spec fn kind(self) -> Seq<char> {
        self.execution_kind@
    }

    pub closed spec fn path(self) -> Seq<char> {
        self.executable_path@
    }

    pub closed spec fn identity(self) -> Seq<char> {
        self.executable_identity@
    }

    pub fn new(execution_kind: &str, executable_path: &str, executable_identity: &str) -> (facts:
        Result<Self, AppError>)
        ensures
            match facts {
                Ok(f) => projection_error(
                    execution_kind@,
                    executable_path@,
                    executable_identity@,
                ) is None && f.kind() == execution_kind@ && f.path() == executable_path@
                    && f.identity() == executable_identity@,
                Err(error) => projection_error(
                    execution_kind@,
                    executable_path@,
                    executable_identity@,
                ) matches Some(reason) && is_validation_error(error, reason),
            },
    {
        let unfit = "must be non-empty, bounded UTF-8 without control characters";
        if !same_text(execution_kind, "codex") && !same_text(execution_kind, "custom") {
            return Err(invalid("execution_kind", "must be codex or custom"));
        }
        if !execution_fact(executable_path, MAX_EXECUTABLE_PATH_BYTES) {
            return Err(invalid("executable_path", unfit));
        }
        if !absolute(executable_path) {
            return Err(invalid("executable_path", "must be an absolute path"));
        }
        if !execution_fact(executable_identity, MAX_EXECUTABLE_IDENTITY_BYTES) {
            return Err(invalid("executable_identity", unfit));
        }
        Ok(
            ExecutionProjection {
                execution_kind: execution_kind.to_owned(),
                executable_path: executable_path.to_owned(),
                executable_identity: executable_identity.to_owned(),
            },
        )
    }

    pub fn execution_kind(&self) -> (text: &str)
        ensures
            text@ == self.kind(),
    {
        self.execution_kind.as_str()
    }

    pub fn executable_path(&self) -> (text: &str)
        ensures
            text@ == self.path(),
    {
        self.executable_path.as_str()
    }

    pub fn executable_identity(&self) -> (text: &str)
        ensures
            text@ == self.identity(),
    {
        self.executable_identity.as_str()
    }
}

/// The path of the marker that belongs to a log.
pub fn launch_gate_marker_path(log_path: &str) -> (path: String)
    ensures
        path@ == log_path@ + ".gate-started"@,
{
    let mut path = log_path.to_owned();
    path.append(".gate-started");
    path
}

/// `Debug` of a string: quoted and escaped.
pub uninterp spec fn debug_text(value: Seq<char>) -> Seq<char>;

/// The `Debug` form of `str`.
#[verifier::external_body]
pub(crate) fn debug_quoted(value: &str) -> (text: String)
    ensures
        text@ == debug_text(value@),
{
    format!("{value:?}")
}

impl ModelEnumParseError {
    /// The text that is shown for the error.
    pub fn text(&self) -> (text: String)
        ensures
            text@ == "unknown "@ + self.enum_name@ + " database value "@ + debug_text(self.value@),
    {
        let mut text = "unknown ".to_owned();
        text.append(self.enum_name);
        text.append(" database value ");
        let quoted = debug_quoted(self.value.as_str());
        text.append(quoted.as_str());
        text
    }
}

/// What is recorded of an execution is accepted exactly where it is of a known
/// sort, its path is absolute, plain and of at most 4096 bytes, and its identity
/// is plain and of 1 to 256 bytes.
pub proof fn lemma_which_executions_are_recorded(
    kind: Seq<char>,
    path: Seq<char>,
    identity: Seq<char>,
)
    ensures
        projection_error(kind, path, identity) is None <==> {
            &&& kind == "codex"@ || kind == "custom"@
            &&& path.len() > 0 && path[0] == '/' && byte_len(path) <= 4096
            &&& forall|i: int| 0 <= i < path.len() ==> !is_control(#[trigger] path[i])
            &&& identity.len() > 0 && byte_len(identity) <= 256
            &&& forall|i: int| 0 <= i < identity.len() ==> !is_control(#[trigger] identity[i])
        },
{
}

/// A refusal names its field and its reason, and nothing else does.
pub proof fn lemma_refusals_name_their_field(error: AppError, field: Seq<char>, reason: Seq<char>)
    ensures
        is_validation_error(error, (field, reason)) ==> error is Validation,
        error matches AppError::Validation { field: own, message } ==> (is_validation_error(
            error,
            (field, reason),
        ) <==> own@ == field && message@ == reason),
{
}

} // verus!
