//! How a status of the task queue is brought together with what is known of
//! projects, submissions and experiments.

use vstd::prelude::*;
use vstd::string::*;

use crate::error::{invalid, AppError};
use crate::json::{
    copy_json, field, json_text, optional_int, optional_tree, put, render, text_value, Json,
    JsonTree, Member,
};
use crate::models::{
    is_validation_error, Event, Experiment, LineageEvent, NewEvent, NewTaskObservation, Project,
    Submission,
};
use crate::promotion::{copy_optional, optional_text, same_optional};
use crate::pueue::{is_running_state, is_terminal_state, optional_value, PueueTask};
use crate::states::{EventKind, EventStatus, SubmissionStatus};
use crate::task_identity::{
    accepted_submission_matches_task, command_line, exit_code_of, has_failed, is_accepted_as,
    is_adoptable, signature_of, submission_matches_task, task_signature, terminal_event_kind,
    terminal_exit_code,
};
use crate::text::{
    append_text, chars_of, concat2, lowered, names_text, note_once, same_text, string_of,
};
use crate::timestamps::{instant_of, parse_timestamp};

pub use crate::task_identity::{managed_task_run_signature, task_incident_key};

verus! {

/// What a reconciliation did.
#[derive(Debug)]
pub struct ReconcileReport {
    pub status_task_count: usize,
    pub observed_task_count: usize,
    pub observed_tasks: Vec<PueueTask>,
    pub task_finished_events: usize,
    pub task_failed_events: usize,
    pub recovered_submission_ids: Vec<String>,
    pub unknown_groups: Vec<String>,
}

/// What a reconciliation works with: `P` asks the queue, `L` are the limits of
/// campaigns.
#[derive(Debug)]
pub struct Reconciler<P, L> {
    pub pueue: P,
    pub campaign_limits: L,
}

impl<P, L> Reconciler<P, L> {
    pub fn new(pueue: P, campaign_limits: L) -> (reconciler: Self)
        ensures
            reconciler == (Reconciler { pueue, campaign_limits }),
    {
        Reconciler { pueue, campaign_limits }
    }

    pub fn with_campaign_limits(self, limits: L) -> (reconciler: Self)
        ensures
            reconciler == (Reconciler { campaign_limits: limits, ..self }),
    {
        Reconciler { campaign_limits: limits, ..self }
    }
}

// ---------------------------------------------------------------------------
// Groups
// ---------------------------------------------------------------------------
/// The last of the projects that has this group.
pub open spec fn project_at(projects: Seq<Project>, group: Seq<char>) -> Option<int>
    decreases projects.len(),
{
    if projects.len() == 0 {
        None
    } else if projects.last().pueue_group@ == group {
        Some(projects.len() - 1)
    } else {
        project_at(projects.drop_last(), group)
    }
}

/// The project that a group belongs to.
pub fn project_of_group(projects: &[Project], group: &str) -> (found: Option<usize>)
    ensures
        match found {
            Some(i) => project_at(projects@, group@) == Some(i as int) && i < projects@.len()
                && projects@[i as int].pueue_group@ == group@,
            None => project_at(projects@, group@) is None,
        },
{
    let mut end: usize = projects.len();
    proof {
        assert(projects@.take(projects@.len() as int) =~= projects@);
    }
    while end > 0
        invariant
            end <= projects@.len(),
            projects.len() == projects@.len(),
            project_at(projects@, group@) == project_at(projects@.take(end as int), group@),
        decreases end,
    {
        proof {
            assert(projects@.take(end as int).last() == projects@[end - 1]);
            assert(projects@.take(end as int).drop_last() =~= projects@.take(end - 1));
        }
        if same_text(projects[end - 1].pueue_group.as_str(), group) {
            return Some(end - 1);
        }
        end = end - 1;
    }
    None
}

// ---------------------------------------------------------------------------
// Observations
// ---------------------------------------------------------------------------
pub open spec fn optional_instant(text: Option<Seq<char>>) -> Option<int> {
    match text {
        Some(t) => instant_of(t),
        None => None,
    }
}

pub open spec fn as_int(n: Option<i64>) -> Option<int> {
    match n {
        Some(v) => Some(v as int),
        None => None,
    }
}

fn moment(text: &Option<String>) -> (at: Option<i64>)
    ensures
        as_int(at) == optional_instant(optional_text(*text)),
{
    match text {
        Some(t) => parse_timestamp(t.as_str()),
        None => None,
    }
}

/// The text of the result of a task.
pub open spec fn result_text(result: Option<JsonTree>) -> Option<Seq<char>> {
    match result {
        Some(tree) => Some(json_text(tree)),
        None => None,
    }
}

/// What is recorded of a task that was seen.
pub open spec fn is_observation_of(
    o: NewTaskObservation,
    project_id: Seq<char>,
    task: PueueTask,
    now: i64,
) -> bool {
    &&& o.project_id@ == project_id
    &&& o.task_signature@ == signature_of(task)
    &&& o.pueue_task_id == task.id
    &&& o.pueue_group@ == task.group@
    &&& o.command@.len() == 1
    &&& o.command@[0]@ == task.command@
    &&& o.state@ == task.state@
    &&& as_int(o.enqueued_at) == optional_instant(optional_text(task.enqueued_at))
    &&& as_int(o.started_at) == optional_instant(optional_text(task.started_at))
    &&& as_int(o.ended_at) == optional_instant(optional_text(task.ended_at))
    &&& optional_text(o.result) == result_text(optional_value(task.result))
    &&& o.observed_at == now
}

/// Records a task that was seen.
pub fn task_observation(project_id: &str, task: &PueueTask, now: i64) -> (observation: Result<
    NewTaskObservation,
    AppError,
>)
    ensures
        observation is Ok,
        is_observation_of(observation->Ok_0, project_id@, *task, now),
{
    let result = match &task.result {
        Some(value) => match render(value) {
            Some(text) => Some(text),
            None => {
                return Err(AppError::Serialization { operation: "serialize Pueue task result" });
            },
        },
        None => None,
    };
    let mut command: Vec<String> = Vec::new();
    command.push(task.command.clone());
    Ok(
        NewTaskObservation::new(
            project_id.to_owned(),
            task_signature(task),
            task.id,
            task.group.clone(),
            command,
            task.state.clone(),
            moment(&task.enqueued_at),
            moment(&task.started_at),
            moment(&task.ended_at),
            result,
            now,
        ),
    )
}

/// Two values for the same task.
pub open spec fn same_task(a: PueueTask, b: PueueTask) -> bool {
    &&& a.id == b.id
    &&& a.group@ == b.group@
    &&& a.command@ == b.command@
    &&& a.state@ == b.state@
    &&& optional_text(a.enqueued_at) == optional_text(b.enqueued_at)
    &&& optional_text(a.started_at) == optional_text(b.started_at)
    &&& optional_text(a.ended_at) == optional_text(b.ended_at)
    &&& optional_value(a.result) == optional_value(b.result)
}

fn copy_task(task: &PueueTask) -> (copy: PueueTask)
    ensures
        same_task(copy, *task),
{
    let result = match &task.result {
        Some(value) => Some(copy_json(value)),
        None => None,
    };
    PueueTask {
        id: task.id,
        group: task.group.clone(),
        command: task.command.clone(),
        state: task.state.clone(),
        enqueued_at: copy_optional(&task.enqueued_at),
        started_at: copy_optional(&task.started_at),
        ended_at: copy_optional(&task.ended_at),
        result,
    }
}

impl Default for ReconcileReport {
    /// A report on nothing.
    fn default() -> (report: Self)
        ensures
            report.status_task_count == 0,
            report.observed_task_count == 0,
            report.observed_tasks@.len() == 0,
            report.task_finished_events == 0,
            report.task_failed_events == 0,
            report.recovered_submission_ids@.len() == 0,
            report.unknown_groups@.len() == 0,
    {
        begin_report(0)
    }
}

/// An empty report on a status with so many tasks.
pub fn begin_report(status_task_count: usize) -> (report: ReconcileReport)
    ensures
        report.status_task_count == status_task_count,
        report.observed_task_count == 0,
        report.observed_tasks@.len() == 0,
        report.task_finished_events == 0,
        report.task_failed_events == 0,
        report.recovered_submission_ids@.len() == 0,
        report.unknown_groups@.len() == 0,
{
    ReconcileReport {
        status_task_count,
        observed_task_count: 0,
        observed_tasks: Vec::new(),
        task_finished_events: 0,
        task_failed_events: 0,
        recovered_submission_ids: Vec::new(),
        unknown_groups: Vec::new(),
    }
}

/// What a task of the status leads to.
#[derive(Debug)]
pub enum TaskStep {
    /// Its group belongs to no project.
    Skip,
    /// It is recorded for a project; a running task is watched, and one at its
    /// end is settled.
    Record { project: usize, observation: NewTaskObservation, watch: bool, settle: bool },
}

/// Takes up a task of the status.
pub fn observe_task(
    report: &mut ReconcileReport,
    projects: &[Project],
    task: &PueueTask,
    now: i64,
) -> (step: Result<TaskStep, AppError>)
    requires
        old(report).observed_task_count < usize::MAX,
    ensures
        step is Ok,
        final(report).status_task_count == old(report).status_task_count,
        final(report).task_finished_events == old(report).task_finished_events,
        final(report).task_failed_events == old(report).task_failed_events,
        final(report).recovered_submission_ids == old(report).recovered_submission_ids,
        match step->Ok_0 {
            TaskStep::Skip => {
                &&& project_at(projects@, task.group@) is None
                &&& final(report).observed_task_count == old(report).observed_task_count
                &&& final(report).observed_tasks == old(report).observed_tasks
                &&& names_text(old(report).unknown_groups@, task.group@)
                    ==> final(report).unknown_groups@ == old(report).unknown_groups@
                &&& !names_text(old(report).unknown_groups@, task.group@)
                    ==> final(report).unknown_groups@.len() == old(report).unknown_groups@.len() + 1
                    && final(report).unknown_groups@.drop_last() == old(report).unknown_groups@
                    && final(report).unknown_groups@.last()@ == task.group@
            },
            TaskStep::Record { project, observation, watch, settle } => {
                &&& project_at(projects@, task.group@) == Some(project as int)
                &&& project < projects@.len()
                &&& is_observation_of(observation, projects@[project as int].project_id@, *task, now)
                &&& watch == is_running_state(task.state@)
                &&& settle == is_terminal_state(task.state@)
                &&& final(report).unknown_groups == old(report).unknown_groups
                &&& final(report).observed_task_count == old(report).observed_task_count + 1
                &&& final(report).observed_tasks@.len() == old(report).observed_tasks@.len() + 1
                &&& final(report).observed_tasks@.drop_last() == old(report).observed_tasks@
                &&& same_task(final(report).observed_tasks@.last(), *task)
            },
        },
{
    match project_of_group(projects, task.group.as_str()) {
        None => {
            note_once(&mut report.unknown_groups, task.group.as_str());
            Ok(TaskStep::Skip)
        },
        Some(project) => {
            let observation = task_observation(projects[project].project_id.as_str(), task, now)?;
            report.observed_task_count = report.observed_task_count + 1;
            report.observed_tasks.push(copy_task(task));
            proof {
                assert(report.observed_tasks@.drop_last() =~= old(report).observed_tasks@);
            }
            Ok(
                TaskStep::Record {
                    project,
                    observation,
                    watch: task.is_running(),
                    settle: task.is_terminal(),
                },
            )
        },
    }
}

// ---------------------------------------------------------------------------
// Ends
// ---------------------------------------------------------------------------
/// Whether a task that is at its end was killed on request.
#[derive(Debug, Clone, Copy, PartialEq, Eq, Structural)]
pub enum AutoKillConfirmation {
    Confirmed,
    AlreadyConfirmed,
    NotSent,
}

/// The event of a task at its end.
pub open spec fn event_kind_of(
    confirmation: Option<AutoKillConfirmation>,
    task: PueueTask,
    result_failed: bool,
) -> EventKind {
    match confirmation {
        Some(AutoKillConfirmation::Confirmed) => EventKind::AutoKilled,
        Some(AutoKillConfirmation::AlreadyConfirmed) => EventKind::AutoKilled,
        _ => if has_failed(task, result_failed) {
            EventKind::TaskFailed
        } else {
            EventKind::TaskFinished
        },
    }
}

pub fn confirmed_event_kind(
    confirmation: Option<AutoKillConfirmation>,
    task: &PueueTask,
    result_failed: bool,
) -> (kind: EventKind)
    ensures
        kind == event_kind_of(confirmation, *task, result_failed),
{
    match confirmation {
        Some(AutoKillConfirmation::Confirmed) => EventKind::AutoKilled,
        Some(AutoKillConfirmation::AlreadyConfirmed) => EventKind::AutoKilled,
        _ => terminal_event_kind(task, result_failed),
    }
}

/// Counts the event of a task at its end.
pub fn count_terminal_event(report: &mut ReconcileReport, kind: EventKind)
    requires
        old(report).task_finished_events < usize::MAX,
        old(report).task_failed_events < usize::MAX,
    ensures
        *final(report) == (ReconcileReport {
            task_finished_events: (old(report).task_finished_events + if kind is TaskFinished {
                1int
            } else {
                0int
            }) as usize,
            task_failed_events: (old(report).task_failed_events + if kind is TaskFailed {
                1int
            } else {
                0int
            }) as usize,
            ..*old(report)
        }),
{
    match kind {
        EventKind::TaskFinished => {
            report.task_finished_events = report.task_finished_events + 1;
        },
        EventKind::TaskFailed => {
            report.task_failed_events = report.task_failed_events + 1;
        },
        _ => {},
    }
}

/// The payload of the event of a task at its end.
pub open spec fn terminal_payload(task: PueueTask, signature: Seq<char>) -> JsonTree {
    JsonTree::Record(
        Map::<Seq<char>, JsonTree>::empty().insert(
            "source"@,
            JsonTree::Text("pueue_reconciliation"@),
        ).insert("group"@, JsonTree::Text(task.group@)).insert(
            "task_id"@,
            JsonTree::Int(task.id as int),
        ).insert("task_signature"@, JsonTree::Text(signature)).insert(
            "command"@,
            JsonTree::Text(task.command@),
        ).insert("state"@, JsonTree::Text(task.state@)).insert(
            "enqueued_at"@,
            optional_tree(optional_text(task.enqueued_at)),
        ).insert("started_at"@, optional_tree(optional_text(task.started_at))).insert(
            "ended_at"@,
            optional_tree(optional_text(task.ended_at)),
        ).insert("result"@, value_or_null(optional_value(task.result))),
    )
}

pub open spec fn value_or_null(value: Option<JsonTree>) -> JsonTree {
    match value {
        Some(tree) => tree,
        None => JsonTree::Null,
    }
}

pub open spec fn terminal_key(signature: Seq<char>, result: Option<JsonTree>) -> Seq<char> {
    "pueue-terminal:v1:"@ + signature + ":result="@ + match result {
        Some(tree) => json_text(tree),
        None => "null"@,
    }
}

fn optional_json(text: &Option<String>) -> (json: Json)
    ensures
        json@ == optional_tree(optional_text(*text)),
{
    match text {
        Some(t) => text_value(t.as_str()),
        None => Json::Null,
    }
}

/// The event of a task at its end, once for each state and result of the task.
pub fn terminal_event(
    project_id: &str,
    task: &PueueTask,
    signature: &str,
    kind: EventKind,
    experiment: Option<&Experiment>,
    now: i64,
) -> (event: Result<LineageEvent, AppError>)
    ensures
        event is Ok,
        ({
            let e = event->Ok_0;
            &&& e.event.project_id@ == project_id@
            &&& e.event.kind == kind
            &&& e.event.dedup_key@ == terminal_key(signature@, optional_value(task.result))
            &&& e.event.payload@ == terminal_payload(*task, signature@)
            &&& e.event.not_before == now
            &&& e.event.created_at == now
            &&& e.status == EventStatus::Pending
            &&& match experiment {
                Some(x) => optional_text(e.campaign_id) == Some(x.campaign_id@) && optional_text(
                    e.experiment_id,
                ) == Some(x.experiment_id@),
                None => e.campaign_id is None && e.experiment_id is None,
            }
        }),
{
    let mut key = chars_of("pueue-terminal:v1:");
    append_text(&mut key, signature);
    append_text(&mut key, ":result=");
    let result = match &task.result {
        Some(value) => {
            match render(value) {
                Some(text) => append_text(&mut key, text.as_str()),
                None => {
                    return Err(
                        AppError::Serialization { operation: "serialize Pueue event result" },
                    );
                },
            }
            copy_json(value)
        },
        None => {
            append_text(&mut key, "null");
            Json::Null
        },
    };
    let mut members: Vec<Member> = Vec::new();
    put(&mut members, "source", text_value("pueue_reconciliation"));
    put(&mut members, "group", text_value(task.group.as_str()));
    put(&mut members, "task_id", Json::Int(task.id));
    put(&mut members, "task_signature", text_value(signature));
    put(&mut members, "command", text_value(task.command.as_str()));
    put(&mut members, "state", text_value(task.state.as_str()));
    put(&mut members, "enqueued_at", optional_json(&task.enqueued_at));
    put(&mut members, "started_at", optional_json(&task.started_at));
    put(&mut members, "ended_at", optional_json(&task.ended_at));
    put(&mut members, "result", result);
    let event = NewEvent::new(
        project_id.to_owned(),
        kind,
        string_of(key.as_slice()),
        Json::Record(members),
        now,
        now,
    );
    let (campaign_id, experiment_id) = match experiment {
        Some(x) => (Some(x.campaign_id.clone()), Some(x.experiment_id.clone())),
        None => (None, None),
    };
    Ok(LineageEvent { event, campaign_id, experiment_id, status: EventStatus::Pending })
}

pub open spec fn int_or_null(n: Option<int>) -> JsonTree {
    match n {
        Some(v) => JsonTree::Int(v),
        None => JsonTree::Null,
    }
}

pub open spec fn optional_exit_code(result: Option<JsonTree>) -> Option<int> {
    match result {
        Some(tree) => exit_code_of(tree),
        None => None,
    }
}

/// What a decision about an experiment is told of its task.
pub open spec fn observation_tree(experiment: Experiment, task: PueueTask) -> JsonTree {
    JsonTree::Record(
        Map::<Seq<char>, JsonTree>::empty().insert("task_id"@, JsonTree::Int(task.id as int)).insert(
            "task_signature"@,
            optional_tree(optional_text(experiment.task_signature)),
        ).insert("group"@, JsonTree::Text(task.group@)).insert(
            "state"@,
            JsonTree::Text(task.state@),
        ).insert(
            "enqueued_at"@,
            int_or_null(optional_instant(optional_text(task.enqueued_at))),
        ).insert(
            "started_at"@,
            int_or_null(optional_instant(optional_text(task.started_at))),
        ).insert(
            "ended_at"@,
            int_or_null(optional_instant(optional_text(task.ended_at))),
        ).insert(
            "exit_code"@,
            int_or_null(optional_exit_code(optional_value(task.result))),
        ),
    )
}

/// The payload of the event that asks for a decision.
pub open spec fn decision_tree(experiment: Experiment, task: PueueTask, cycle_id: Seq<char>) -> JsonTree {
    JsonTree::Record(
        Map::<Seq<char>, JsonTree>::empty().insert(
            "source"@,
            JsonTree::Text("terminal_experiment"@),
        ).insert("cycle_id"@, JsonTree::Text(cycle_id)).insert(
            "source_experiment_id"@,
            JsonTree::Text(experiment.experiment_id@),
        ).insert("terminal_observation"@, observation_tree(experiment, task)),
    )
}

/// The event that asks for a decision about an experiment at its end.
pub fn decision_event(
    project_id: &str,
    experiment: &Experiment,
    task: &PueueTask,
    cycle_id: &str,
    now: i64,
) -> (event: LineageEvent)
    ensures
        event.event.project_id@ == project_id@,
        event.event.kind == EventKind::CampaignDecision,
        event.event.dedup_key@ == "campaign-decision:v1:"@ + cycle_id@,
        event.event.payload@ == decision_tree(*experiment, *task, cycle_id@),
        event.event.not_before == now,
        event.event.created_at == now,
        optional_text(event.campaign_id) == Some(experiment.campaign_id@),
        optional_text(event.experiment_id) == Some(experiment.experiment_id@),
        event.status == EventStatus::Pending,
{
    let exit_code: Option<i64> = match &task.result {
        Some(value) => match terminal_exit_code(value) {
            Some(code) => Some(code as i64),
            None => None,
        },
        None => None,
    };
    let mut observation: Vec<Member> = Vec::new();
    put(&mut observation, "task_id", Json::Int(task.id));
    put(&mut observation, "task_signature", optional_json(&experiment.task_signature));
    put(&mut observation, "group", text_value(task.group.as_str()));
    put(&mut observation, "state", text_value(task.state.as_str()));
    put(&mut observation, "enqueued_at", optional_int(moment(&task.enqueued_at)));
    put(&mut observation, "started_at", optional_int(moment(&task.started_at)));
    put(&mut observation, "ended_at", optional_int(moment(&task.ended_at)));
    put(&mut observation, "exit_code", optional_int(exit_code));
    let mut members: Vec<Member> = Vec::new();
    put(&mut members, "source", text_value("terminal_experiment"));
    put(&mut members, "cycle_id", text_value(cycle_id));
    put(&mut members, "source_experiment_id", text_value(experiment.experiment_id.as_str()));
    put(&mut members, "terminal_observation", Json::Record(observation));
    let key = concat2("campaign-decision:v1:", cycle_id);
    let event = NewEvent::new(
        project_id.to_owned(),
        EventKind::CampaignDecision,
        string_of(key.as_slice()),
        Json::Record(members),
        now,
        now,
    );
    LineageEvent {
        event,
        campaign_id: Some(experiment.campaign_id.clone()),
        experiment_id: Some(experiment.experiment_id.clone()),
        status: EventStatus::Pending,
    }
}

/// A decision event that reconciliation writes is one that the decision cycle
/// reads, for an experiment whose task has a signature: the payload is exact
/// and gives back what was observed.
pub proof fn lemma_decision_event_is_exact(experiment: Experiment, task: PueueTask, cycle_id: Seq<char>)
    requires
        experiment.task_signature is Some,
    ensures
        crate::decision_cycle::decision_payload_of(
            decision_tree(experiment, task, cycle_id),
        ) matches Some(payload) && crate::decision_cycle::is_exact_payload(
            payload,
            Some(experiment.experiment_id@),
            cycle_id,
        ) && payload.observation.task_id == task.id && payload.observation.state == task.state@
            && Some(payload.observation.task_signature) == optional_text(experiment.task_signature)
            && payload.observation.group == task.group@ && payload.observation.enqueued_at
            == optional_instant(optional_text(task.enqueued_at)) && payload.observation.started_at
            == optional_instant(optional_text(task.started_at)) && payload.observation.ended_at
            == optional_instant(optional_text(task.ended_at)) && payload.observation.exit_code
            == optional_exit_code(optional_value(task.result)),
{
    lemma_field_names_differ();
    let tree = decision_tree(experiment, task, cycle_id);
    let inner = observation_tree(experiment, task);
    let names = crate::decision_cycle::payload_names();
    let inner_names = crate::decision_cycle::observation_names();
    assert forall|key: Seq<char>| #[trigger] tree->Record_0.contains_key(key) implies names.contains(
        key,
    ) by {
        assert(names[0] == "source"@ && names[1] == "cycle_id"@ && names[2]
            == "source_experiment_id"@ && names[3] == "terminal_observation"@);
    }
    assert forall|key: Seq<char>| #[trigger]
        inner->Record_0.contains_key(key) implies inner_names.contains(key) by {
        assert(inner_names[0] == "task_id"@ && inner_names[1] == "task_signature"@ && inner_names[2]
            == "group"@ && inner_names[3] == "state"@ && inner_names[4] == "enqueued_at"@
            && inner_names[5] == "started_at"@ && inner_names[6] == "ended_at"@ && inner_names[7]
            == "exit_code"@);
    }
    assert(crate::json::holds_fields(tree, names));
    assert(crate::json::holds_fields(inner, inner_names));
    assert(crate::json::slot(tree, names, 3) == Some(inner));
}

/// The names of the fields are different from each other.
proof fn lemma_field_names_differ()
    ensures
        "source"@ != "cycle_id"@,
        "source"@ != "source_experiment_id"@,
        "source"@ != "terminal_observation"@,
        "cycle_id"@ != "source_experiment_id"@,
        "cycle_id"@ != "terminal_observation"@,
        "source_experiment_id"@ != "terminal_observation"@,
        "task_id"@.len() == 7,
        "task_signature"@.len() == 14,
        "group"@.len() == 5 && "group"@[0] == 'g',
        "state"@.len() == 5 && "state"@[0] == 's',
        "enqueued_at"@.len() == 11,
        "started_at"@.len() == 10,
        "ended_at"@.len() == 8,
        "exit_code"@.len() == 9,
{
    reveal_strlit("source");
    reveal_strlit("cycle_id");
    reveal_strlit("source_experiment_id");
    reveal_strlit("terminal_observation");
    reveal_strlit("task_id");
    reveal_strlit("task_signature");
    reveal_strlit("group");
    reveal_strlit("state");
    reveal_strlit("enqueued_at");
    reveal_strlit("started_at");
    reveal_strlit("ended_at");
    reveal_strlit("exit_code");
    assert("source"@.len() == 6 && "cycle_id"@.len() == 8);
    assert("source_experiment_id"@.len() == 20 && "source_experiment_id"@[0] == 's');
    assert("terminal_observation"@.len() == 20 && "terminal_observation"@[0] == 't');
}

// ---------------------------------------------------------------------------
// The event that is there already
// ---------------------------------------------------------------------------
/// What happens to the event of a task at its end.
pub enum TerminalEventStep {
    /// The event that was recorded before stays; a pending callback of the task
    /// that is another event is discarded.
    Keep { event_id: i64, discard: Option<i64> },
    /// The event that was recorded before gets the lineage that was found since.
    Upgrade(i64),
    /// The event takes the place of the callback of the task.
    Replace(i64),
    Insert,
    Refuse(AppError),
}

/// The lineage of an event differs from the one that was found.
pub open spec fn lineage_differs(existing: Event, found: LineageEvent) -> bool {
    found.campaign_id is Some && (optional_text(existing.campaign_id) != optional_text(
        found.campaign_id,
    ) || optional_text(existing.experiment_id) != optional_text(found.experiment_id))
}

pub open spec fn lineage_conflict() -> (Seq<char>, Seq<char>) {
    ("event.lineage"@, "conflicts with the resolved managed experiment lineage"@)
}

pub open spec fn has_lineage(event: Event) -> bool {
    event.campaign_id is Some || event.experiment_id is Some
}

/// What happens to the event of a task at its end, where the event was recorded
/// before or the task called back: a lineage that is lacking is added, one that
/// is there is never changed, and no task leaves two events behind.
pub fn terminal_event_step(existing: Option<&Event>, callback: Option<i64>, found: &LineageEvent) -> (step:
    TerminalEventStep)
    ensures
        match existing {
            Some(event) => if !lineage_differs(*event, *found) {
                step == (TerminalEventStep::Keep {
                    event_id: event.event_id,
                    discard: if callback == Some(event.event_id) {
                        None
                    } else {
                        callback
                    },
                })
            } else if has_lineage(*event) {
                step matches TerminalEventStep::Refuse(error) && is_validation_error(
                    error,
                    lineage_conflict(),
                )
            } else {
                step == TerminalEventStep::Upgrade(event.event_id)
            },
            None => step == match callback {
                Some(event_id) => TerminalEventStep::Replace(event_id),
                None => TerminalEventStep::Insert,
            },
        },
{
    let event = match existing {
        Some(event) => event,
        None => {
            return match callback {
                Some(event_id) => TerminalEventStep::Replace(event_id),
                None => TerminalEventStep::Insert,
            };
        },
    };
    let differs = found.campaign_id.is_some() && (!same_optional(
        &event.campaign_id,
        &found.campaign_id,
    ) || !same_optional(&event.experiment_id, &found.experiment_id));
    if differs {
        if event.campaign_id.is_some() || event.experiment_id.is_some() {
            return TerminalEventStep::Refuse(
                invalid(
                    "event.lineage",
                    "conflicts with the resolved managed experiment lineage",
                ),
            );
        }
        return TerminalEventStep::Upgrade(event.event_id);
    }
    let discard: Option<i64> = match callback {
        Some(event_id) => if event_id == event.event_id {
            None
        } else {
            Some(event_id)
        },
        None => None,
    };
    TerminalEventStep::Keep { event_id: event.event_id, discard }
}

// ---------------------------------------------------------------------------
// Experiments and submissions
// ---------------------------------------------------------------------------
/// How many tasks have this number.
pub open spec fn count_with_id(tasks: Seq<PueueTask>, id: int) -> nat
    decreases tasks.len(),
{
    if tasks.len() == 0 {
        0
    } else {
        count_with_id(tasks.drop_last(), id) + (if tasks.last().id == id {
            1nat
        } else {
            0nat
        })
    }
}

/// Whether exactly one task has this number.
pub fn is_unique_task_id(tasks: &[PueueTask], id: i64) -> (yes: bool)
    ensures
        yes == (count_with_id(tasks@, id as int) == 1),
{
    let mut count: usize = 0;
    let mut at: usize = 0;
    proof {
        assert(tasks@.take(0) =~= Seq::<PueueTask>::empty());
    }
    while at < tasks.len()
        invariant
            at <= tasks@.len(),
            tasks.len() == tasks@.len(),
            count <= at,
            count == count_with_id(tasks@.take(at as int), id as int),
        decreases tasks.len() - at,
    {
        proof {
            assert(tasks@.take(at + 1).drop_last() =~= tasks@.take(at as int));
            assert(tasks@.take(at + 1).last() == tasks@[at as int]);
        }
        if tasks[at].id == id {
            count = count + 1;
        }
        at = at + 1;
    }
    proof {
        assert(tasks@.take(tasks@.len() as int) =~= tasks@);
    }
    count == 1
}

/// How many tasks a submission was accepted as.
pub open spec fn count_accepted(submission: Submission, tasks: Seq<PueueTask>) -> nat
    decreases tasks.len(),
{
    if tasks.len() == 0 {
        0
    } else {
        count_accepted(submission, tasks.drop_last()) + (if is_accepted_as(
            submission,
            tasks.last(),
        ) {
            1nat
        } else {
            0nat
        })
    }
}

/// What an accepted submission is to a task at its end.
#[derive(Debug, Clone, Copy, PartialEq, Eq, Structural)]
pub enum SubmissionMatch {
    /// It was accepted as the task and as no other.
    ThisTask,
    /// It was accepted as another task alone.
    OtherTask,
    /// It was accepted as no task, or as several: its experiment is set aside.
    Mismatch,
}

pub fn match_submission(submission: &Submission, task: &PueueTask, tasks: &[PueueTask]) -> (found:
    SubmissionMatch)
    ensures
        found == (if count_accepted(*submission, tasks@) != 1 {
            SubmissionMatch::Mismatch
        } else if is_accepted_as(*submission, *task) {
            SubmissionMatch::ThisTask
        } else {
            SubmissionMatch::OtherTask
        }),
{
    let mut count: usize = 0;
    let mut at: usize = 0;
    proof {
        assert(tasks@.take(0) =~= Seq::<PueueTask>::empty());
    }
    while at < tasks.len()
        invariant
            at <= tasks@.len(),
            tasks.len() == tasks@.len(),
            count <= at,
            count == count_accepted(*submission, tasks@.take(at as int)),
        decreases tasks.len() - at,
    {
        proof {
            assert(tasks@.take(at + 1).drop_last() =~= tasks@.take(at as int));
            assert(tasks@.take(at + 1).last() == tasks@[at as int]);
        }
        if accepted_submission_matches_task(submission, &tasks[at]) {
            count = count + 1;
        }
        at = at + 1;
    }
    proof {
        assert(tasks@.take(tasks@.len() as int) =~= tasks@);
    }
    if count != 1 {
        SubmissionMatch::Mismatch
    } else if accepted_submission_matches_task(submission, task) {
        SubmissionMatch::ThisTask
    } else {
        SubmissionMatch::OtherTask
    }
}

/// What follows for the experiments of the submissions that were accepted as a
/// task at its end.
#[derive(Debug, Clone, PartialEq, Eq)]
pub struct TerminalResolution {
    /// The submission whose experiment ended with the task.
    pub resolved: Option<usize>,
    /// The submissions whose experiments are set aside as not matching.
    pub mismatched: Vec<usize>,
    /// The submissions whose experiments are set aside as ambiguous.
    pub ambiguous: Vec<usize>,
}

pub open spec fn kind_of(submission: Submission, task: PueueTask, tasks: Seq<PueueTask>) -> SubmissionMatch {
    if count_accepted(submission, tasks) != 1 {
        SubmissionMatch::Mismatch
    } else if is_accepted_as(submission, task) {
        SubmissionMatch::ThisTask
    } else {
        SubmissionMatch::OtherTask
    }
}

/// The places of the submissions that are this to the task.
pub open spec fn places_of(
    submissions: Seq<Submission>,
    task: PueueTask,
    tasks: Seq<PueueTask>,
    kind: SubmissionMatch,
) -> Seq<usize>
    decreases submissions.len(),
{
    if submissions.len() == 0 {
        Seq::empty()
    } else {
        let rest = places_of(submissions.drop_last(), task, tasks, kind);
        if kind_of(submissions.last(), task, tasks) == kind {
            rest.push((submissions.len() - 1) as usize)
        } else {
            rest
        }
    }
}

/// Finds the submission whose experiment ended with a task. Where the number of
/// the task is used twice, all of them are ambiguous; where not exactly one
/// submission is left, those that are left are.
pub fn resolve_terminal_submissions(
    submissions: &[Submission],
    task: &PueueTask,
    tasks: &[PueueTask],
) -> (resolution: TerminalResolution)
    ensures
        ({
            let matched = places_of(submissions@, *task, tasks@, SubmissionMatch::ThisTask);
            let mismatched = places_of(submissions@, *task, tasks@, SubmissionMatch::Mismatch);
            if count_with_id(tasks@, task.id as int) != 1 {
                resolution.resolved is None && resolution.mismatched@.len() == 0
                    && resolution.ambiguous@ == Seq::new(submissions@.len(), |i: int| i as usize)
            } else if matched.len() == 1 {
                resolution.resolved == Some(matched[0]) && resolution.mismatched@ == mismatched
                    && resolution.ambiguous@.len() == 0
            } else {
                resolution.resolved is None && resolution.mismatched@ == mismatched
                    && resolution.ambiguous@ == matched
            }
        }),
{
    let mut matched: Vec<usize> = Vec::new();
    let mut mismatched: Vec<usize> = Vec::new();
    let mut at: usize = 0;
    if !is_unique_task_id(tasks, task.id) {
        while at < submissions.len()
            invariant
                at <= submissions@.len(),
                submissions.len() == submissions@.len(),
                matched@ == Seq::new(at as nat, |i: int| i as usize),
            decreases submissions.len() - at,
        {
            matched.push(at);
            at = at + 1;
            proof {
                assert(matched@ =~= Seq::new(at as nat, |i: int| i as usize));
            }
        }
        return TerminalResolution { resolved: None, mismatched, ambiguous: matched };
    }
    proof {
        assert(submissions@.take(0) =~= Seq::<Submission>::empty());
    }
    while at < submissions.len()
        invariant
            at <= submissions@.len(),
            submissions.len() == submissions@.len(),
            matched@ == places_of(
                submissions@.take(at as int),
                *task,
                tasks@,
                SubmissionMatch::ThisTask,
            ),
            mismatched@ == places_of(
                submissions@.take(at as int),
                *task,
                tasks@,
                SubmissionMatch::Mismatch,
            ),
        decreases submissions.len() - at,
    {
        proof {
            assert(submissions@.take(at + 1).drop_last() =~= submissions@.take(at as int));
            assert(submissions@.take(at + 1).last() == submissions@[at as int]);
        }
        match match_submission(&submissions[at], task, tasks) {
            SubmissionMatch::ThisTask => matched.push(at),
            SubmissionMatch::Mismatch => mismatched.push(at),
            SubmissionMatch::OtherTask => {},
        }
        at = at + 1;
    }
    proof {
        assert(submissions@.take(submissions@.len() as int) =~= submissions@);
    }
    if matched.len() == 1 {
        let only: usize = matched[0];
        TerminalResolution { resolved: Some(only), mismatched, ambiguous: Vec::new() }
    } else {
        TerminalResolution { resolved: None, mismatched, ambiguous: matched }
    }
}

/// What a submission that was never confirmed turns out to be.
#[derive(Debug, Clone, Copy, PartialEq, Eq, Structural)]
pub enum RecoveryStep {
    /// No task, or more than one, can be the one that was meant.
    Leave,
    /// The task that was known by its number is accepted.
    Accept(usize),
    /// The task that was found by its command is adopted.
    Adopt(usize),
}

/// A task of the group that can be the one that a submission gave rise to.
pub open spec fn is_candidate(submission: Submission, group: Seq<char>, task: PueueTask) -> bool {
    task.group@ == group && is_adoptable(submission, task)
}

/// The places of the tasks that can be meant.
pub open spec fn candidates_of(submission: Submission, group: Seq<char>, tasks: Seq<PueueTask>) -> Seq<
    usize,
>
    decreases tasks.len(),
{
    if tasks.len() == 0 {
        Seq::empty()
    } else {
        let rest = candidates_of(submission, group, tasks.drop_last());
        if is_candidate(submission, group, tasks.last()) {
            rest.push((tasks.len() - 1) as usize)
        } else {
            rest
        }
    }
}

/// What recovery does with a submission among the tasks that are listed.
pub open spec fn recovery_of(submission: Submission, group: Seq<char>, tasks: Seq<PueueTask>) -> RecoveryStep {
    let found = candidates_of(submission, group, tasks);
    if found.len() != 1 {
        RecoveryStep::Leave
    } else if submission.pueue_task_id is Some {
        RecoveryStep::Accept(found[0])
    } else {
        RecoveryStep::Adopt(found[0])
    }
}

/// Finds the task that a submission gave rise to, where it is the only one that
/// can be meant.
pub fn recover_submission(submission: &Submission, group: &str, tasks: &[PueueTask]) -> (step:
    RecoveryStep)
    ensures
        step == recovery_of(*submission, group@, tasks@),
        ({
            let found = candidates_of(*submission, group@, tasks@);
            step == (if found.len() != 1 {
                RecoveryStep::Leave
            } else if submission.pueue_task_id is Some {
                RecoveryStep::Accept(found[0])
            } else {
                RecoveryStep::Adopt(found[0])
            })
        }),
{
    let mut found: Vec<usize> = Vec::new();
    let mut at: usize = 0;
    proof {
        assert(tasks@.take(0) =~= Seq::<PueueTask>::empty());
    }
    while at < tasks.len()
        invariant
            at <= tasks@.len(),
            tasks.len() == tasks@.len(),
            found@ == candidates_of(*submission, group@, tasks@.take(at as int)),
        decreases tasks.len() - at,
    {
        proof {
            assert(tasks@.take(at + 1).drop_last() =~= tasks@.take(at as int));
            assert(tasks@.take(at + 1).last() == tasks@[at as int]);
        }
        if same_text(tasks[at].group.as_str(), group) && submission_matches_task(
            submission,
            &tasks[at],
        ) {
            found.push(at);
        }
        at = at + 1;
    }
    proof {
        assert(tasks@.take(tasks@.len() as int) =~= tasks@);
    }
    if found.len() != 1 {
        return RecoveryStep::Leave;
    }
    let only: usize = found[0];
    if submission.pueue_task_id.is_some() {
        RecoveryStep::Accept(only)
    } else {
        RecoveryStep::Adopt(only)
    }
}

/// Notes a submission that was recovered, unless it turned out to have failed.
pub fn note_recovered(report: &mut ReconcileReport, status: SubmissionStatus, submission_id: &str)
    ensures
        status is Failed ==> *final(report) == *old(report),
        !(status is Failed) ==> {
            &&& final(report).recovered_submission_ids@.len() == old(
                report,
            ).recovered_submission_ids@.len() + 1
            &&& final(report).recovered_submission_ids@.drop_last()
                == old(report).recovered_submission_ids@
            &&& final(report).recovered_submission_ids@.last()@ == submission_id@
            &&& *final(report) == (ReconcileReport {
                recovered_submission_ids: final(report).recovered_submission_ids,
                ..*old(report)
            })
        },
{
    match status {
        SubmissionStatus::Failed => {},
        _ => {
            report.recovered_submission_ids.push(submission_id.to_owned());
            proof {
                assert(report.recovered_submission_ids@.drop_last() =~= old(
                    report,
                ).recovered_submission_ids@);
            }
        },
    }
}

/// A task is only taken for a submission whose command line is the task's, and
/// only within ten minutes where its time is known and its number was not.
pub proof fn lemma_recovered_task_was_submitted(submission: Submission, group: Seq<char>, tasks: Seq<PueueTask>)
    requires
        tasks.len() <= usize::MAX,
    ensures
        forall|i: int|
            0 <= i < candidates_of(submission, group, tasks).len() ==> {
                let place = #[trigger] candidates_of(submission, group, tasks)[i] as int;
                0 <= place < tasks.len() && is_candidate(submission, group, tasks[place])
            },
    decreases tasks.len(),
{
    if tasks.len() > 0 {
        let head = tasks.drop_last();
        lemma_recovered_task_was_submitted(submission, group, head);
        let all = candidates_of(submission, group, tasks);
        let rest = candidates_of(submission, group, head);
        assert forall|i: int| 0 <= i < all.len() implies {
            let place = #[trigger] all[i] as int;
            0 <= place < tasks.len() && is_candidate(submission, group, tasks[place])
        } by {
            if i < rest.len() {
                assert(all[i] == rest[i]);
                let place = rest[i] as int;
                assert(head[place] == tasks[place]);
            }
        }
    }
}

/// Every candidate is found, and each is found once, in the order of the list.
proof fn lemma_candidates_are_complete(submission: Submission, group: Seq<char>, tasks: Seq<PueueTask>)
    requires
        tasks.len() <= usize::MAX,
    ensures
        forall|i: int|
            0 <= i < tasks.len() && is_candidate(submission, group, #[trigger] tasks[i])
                ==> candidates_of(submission, group, tasks).contains(i as usize),
        forall|i: int, j: int|
            0 <= i < j < candidates_of(submission, group, tasks).len() ==> (
            #[trigger] candidates_of(submission, group, tasks)[i]) < (#[trigger] candidates_of(
                submission,
                group,
                tasks,
            )[j]),
    decreases tasks.len(),
{
    if tasks.len() > 0 {
        let head = tasks.drop_last();
        let rest = candidates_of(submission, group, head);
        let all = candidates_of(submission, group, tasks);
        lemma_candidates_are_complete(submission, group, head);
        lemma_recovered_task_was_submitted(submission, group, head);
        assert forall|i: int|
            0 <= i < tasks.len() && is_candidate(
                submission,
                group,
                #[trigger] tasks[i],
            ) implies all.contains(i as usize) by {
            if i < head.len() {
                assert(head[i] == tasks[i]);
                let at = choose|at: int| 0 <= at < rest.len() && rest[at] == i as usize;
                assert(all[at] == i as usize);
            } else {
                assert(all[rest.len() as int] == i as usize);
            }
        }
    }
}

/// A submission gets back the one task that can be its own, whatever that task
/// has come to since: the task of its group that runs its command line, that
/// has its number where a number is known, and that was enqueued within ten
/// minutes of it. Where no moment can be read, the number alone decides.
pub proof fn lemma_only_possible_task_is_recovered(
    submission: Submission,
    group: Seq<char>,
    tasks: Seq<PueueTask>,
    at: int,
)
    requires
        tasks.len() <= usize::MAX,
        0 <= at < tasks.len(),
        tasks[at].group@ == group
        && tasks[at].command@ == command_line(submission.argv@)
        && (submission.pueue_task_id matches Some(id) ==> id == tasks[at].id)
        && match optional_instant(optional_text(tasks[at].enqueued_at)) {
            Some(enqueued_at) => -600 <= enqueued_at - submission.created_at <= 600,
            None => submission.pueue_task_id is Some,
        },
        forall|i: int| 0 <= i < tasks.len() && i != at ==> !((#[trigger] tasks[i]).group@ == group
        && (#[trigger] tasks[i]).command@ == command_line(submission.argv@)
        && (submission.pueue_task_id matches Some(id) ==> id == (#[trigger] tasks[i]).id)
        && match optional_instant(optional_text((#[trigger] tasks[i]).enqueued_at)) {
            Some(enqueued_at) => -600 <= enqueued_at - submission.created_at <= 600,
            None => submission.pueue_task_id is Some,
        }),
    ensures
        submission.pueue_task_id is Some ==> recovery_of(submission, group, tasks)
            == RecoveryStep::Accept(at as usize),
        submission.pueue_task_id is None ==> recovery_of(submission, group, tasks)
            == RecoveryStep::Adopt(at as usize),
{
    let found = candidates_of(submission, group, tasks);
    lemma_candidates_are_complete(submission, group, tasks);
    lemma_recovered_task_was_submitted(submission, group, tasks);
    assert(is_candidate(submission, group, tasks[at]));
    let place = choose|place: int| 0 <= place < found.len() && found[place] == at as usize;
    assert forall|i: int| 0 <= i < found.len() implies #[trigger] found[i] == at as usize by {
        let other = found[i] as int;
        assert(is_candidate(submission, group, tasks[other]));
    }
    if found.len() > 1 {
        assert(found[0] < found[1]);
    }
}

/// What recovery hands out is the task of the group that runs the command line
/// of the submission, with its number and near it in time, and no other task of
/// the list is like that.
pub proof fn lemma_recovery_hands_out_no_other_task(
    submission: Submission,
    group: Seq<char>,
    tasks: Seq<PueueTask>,
    at: int,
    other: int,
)
    requires
        tasks.len() <= usize::MAX,
        0 <= at <= usize::MAX,
        recovery_of(submission, group, tasks) == RecoveryStep::Accept(at as usize) || recovery_of(
            submission,
            group,
            tasks,
        ) == RecoveryStep::Adopt(at as usize),
        0 <= other < tasks.len(),
    ensures
        0 <= at < tasks.len(),
        tasks[at].group@ == group
        && tasks[at].command@ == command_line(submission.argv@)
        && (submission.pueue_task_id matches Some(id) ==> id == tasks[at].id)
        && match optional_instant(optional_text(tasks[at].enqueued_at)) {
            Some(enqueued_at) => -600 <= enqueued_at - submission.created_at <= 600,
            None => submission.pueue_task_id is Some,
        },
        other != at ==> !(tasks[other].group@ == group
        && tasks[other].command@ == command_line(submission.argv@)
        && (submission.pueue_task_id matches Some(id) ==> id == tasks[other].id)
        && match optional_instant(optional_text(tasks[other].enqueued_at)) {
            Some(enqueued_at) => -600 <= enqueued_at - submission.created_at <= 600,
            None => submission.pueue_task_id is Some,
        }),
{
    let found = candidates_of(submission, group, tasks);
    lemma_candidates_are_complete(submission, group, tasks);
    lemma_recovered_task_was_submitted(submission, group, tasks);
    assert(found[0] == at as usize);
    assert(is_candidate(submission, group, tasks[at]));
    if is_candidate(submission, group, tasks[other]) {
        let place = choose|place: int| 0 <= place < found.len() && found[place] == other as usize;
        assert(place == 0);
    }
}

/// A group belongs to the last project that has it, and to none exactly where no
/// project has it.
pub proof fn lemma_project_of_a_group(projects: Seq<Project>, group: Seq<char>)
    ensures
        match project_at(projects, group) {
            Some(i) => 0 <= i < projects.len() && projects[i].pueue_group@ == group && forall|j: int|
                i < j < projects.len() ==> (#[trigger] projects[j]).pueue_group@ != group,
            None => forall|j: int|
                0 <= j < projects.len() ==> (#[trigger] projects[j]).pueue_group@ != group,
        },
    decreases projects.len(),
{
    if projects.len() > 0 && projects.last().pueue_group@ != group {
        let head = projects.drop_last();
        lemma_project_of_a_group(head, group);
        assert forall|j: int| 0 <= j < head.len() implies head[j] == #[trigger] projects[j] by {
        }
    }
}

/// What is recorded of a task is what the queue says of it.
pub proof fn lemma_observation_is_faithful(
    o: NewTaskObservation,
    project_id: Seq<char>,
    task: PueueTask,
    now: i64,
)
    requires
        is_observation_of(o, project_id, task, now),
    ensures
        o.project_id@ == project_id,
        o.task_signature@ == signature_of(task),
        o.pueue_task_id == task.id,
        o.pueue_group@ == task.group@,
        o.command@.len() == 1 && o.command@[0]@ == task.command@,
        o.state@ == task.state@,
        o.observed_at == now,
        task.enqueued_at matches Some(text) ==> as_int(o.enqueued_at) == instant_of(text@),
        task.started_at matches Some(text) ==> as_int(o.started_at) == instant_of(text@),
        task.ended_at matches Some(text) ==> as_int(o.ended_at) == instant_of(text@),
        task.enqueued_at is None ==> o.enqueued_at is None,
        task.started_at is None ==> o.started_at is None,
        task.ended_at is None ==> o.ended_at is None,
        task.result matches Some(json) ==> optional_text(o.result) == Some(json_text(json@)),
        task.result is None ==> o.result is None,
{
}

/// A task that was killed by the supervisor ends with an event of its own; every
/// other end is a failure or a finish.
pub proof fn lemma_event_kinds(
    confirmation: Option<AutoKillConfirmation>,
    task: PueueTask,
    result_failed: bool,
)
    ensures
        ({
            let kind = event_kind_of(confirmation, task, result_failed);
            let killed = confirmation == Some(AutoKillConfirmation::Confirmed) || confirmation
                == Some(AutoKillConfirmation::AlreadyConfirmed);
            &&& kind is AutoKilled <==> killed
            &&& kind is TaskFailed <==> !killed && (lowered(task.state@) == "failed"@ || lowered(
                task.state@,
            ) == "killed"@ || (task.result is Some && result_failed))
            &&& kind is AutoKilled || kind is TaskFailed || kind is TaskFinished
        }),
{
}

/// The event of a task at its end tells what the queue says of the task.
pub proof fn lemma_terminal_payload(task: PueueTask, signature: Seq<char>)
    ensures
        ({
            let p = terminal_payload(task, signature);
            &&& field(p, "source"@) == Some(JsonTree::Text("pueue_reconciliation"@))
            &&& field(p, "group"@) == Some(JsonTree::Text(task.group@))
            &&& field(p, "task_id"@) == Some(JsonTree::Int(task.id as int))
            &&& field(p, "task_signature"@) == Some(JsonTree::Text(signature))
            &&& field(p, "command"@) == Some(JsonTree::Text(task.command@))
            &&& field(p, "state"@) == Some(JsonTree::Text(task.state@))
            &&& field(p, "enqueued_at"@) == Some(optional_tree(optional_text(task.enqueued_at)))
            &&& field(p, "started_at"@) == Some(optional_tree(optional_text(task.started_at)))
            &&& field(p, "ended_at"@) == Some(optional_tree(optional_text(task.ended_at)))
            &&& field(p, "result"@) == Some(
                match task.result {
                    Some(json) => json@,
                    None => JsonTree::Null,
                },
            )
        }),
{
    reveal_strlit("source");
    reveal_strlit("group");
    reveal_strlit("task_id");
    reveal_strlit("task_signature");
    reveal_strlit("command");
    reveal_strlit("state");
    reveal_strlit("enqueued_at");
    reveal_strlit("started_at");
    reveal_strlit("ended_at");
    reveal_strlit("result");
    assert("source"@.len() == 6);
    assert("group"@.len() == 5);
    assert("task_id"@.len() == 7);
    assert("task_signature"@.len() == 14);
    assert("command"@.len() == 7);
    assert("state"@.len() == 5);
    assert("enqueued_at"@.len() == 11);
    assert("started_at"@.len() == 10);
    assert("ended_at"@.len() == 8);
    assert("result"@.len() == 6);
    assert("source"@[0] != "result"@[0]);
    assert("group"@[0] != "state"@[0]);
    assert("task_id"@[0] != "command"@[0]);
}

/// A task has one event for one signature and one result: other results, and
/// other signatures, have other keys.
pub proof fn lemma_terminal_keys_differ(
    a: Seq<char>,
    b: Seq<char>,
    x: Option<JsonTree>,
    y: Option<JsonTree>,
)
    ensures
        terminal_key(a, x) == terminal_key(b, x) ==> a == b,
        terminal_key(a, x) == terminal_key(a, y) && x is Some && y is Some ==> json_text(x->0)
            == json_text(y->0),
        terminal_key(a, None) == "pueue-terminal:v1:"@ + a + ":result=null"@,
{
    let prefix = "pueue-terminal:v1:"@;
    let middle = ":result="@;
    let end = match x {
        Some(tree) => json_text(tree),
        None => "null"@,
    };
    let other = match y {
        Some(tree) => json_text(tree),
        None => "null"@,
    };
    if terminal_key(a, x) == terminal_key(b, x) {
        assert(terminal_key(a, x).len() == prefix.len() + a.len() + middle.len() + end.len());
        assert(terminal_key(a, x).subrange(prefix.len() as int, (prefix.len() + a.len()) as int) =~= a);
        assert(terminal_key(b, x).subrange(prefix.len() as int, (prefix.len() + b.len()) as int) =~= b);
    }
    if terminal_key(a, x) == terminal_key(a, y) {
        let n = (prefix.len() + a.len() + middle.len()) as int;
        assert(terminal_key(a, x).skip(n) =~= end);
        assert(terminal_key(a, y).skip(n) =~= other);
    }
    reveal_strlit(":result=");
    reveal_strlit("null");
    reveal_strlit(":result=null");
    assert(":result="@ + "null"@ =~= ":result=null"@);
    assert(terminal_key(a, None) =~= prefix + a + (":result="@ + "null"@));
}

/// An event gets another lineage only where one was found that it does not have,
/// and it has one where either of its two parts is known.
pub proof fn lemma_when_lineages_differ(existing: Event, found: LineageEvent)
    ensures
        found.campaign_id is None ==> !lineage_differs(existing, found),
        optional_text(existing.campaign_id) == optional_text(found.campaign_id) && optional_text(
            existing.experiment_id,
        ) == optional_text(found.experiment_id) ==> !lineage_differs(existing, found),
        found.campaign_id is Some && optional_text(existing.campaign_id) != optional_text(
            found.campaign_id,
        ) ==> lineage_differs(existing, found),
        found.campaign_id is Some && optional_text(existing.experiment_id) != optional_text(
            found.experiment_id,
        ) ==> lineage_differs(existing, found),
        !has_lineage(existing) <==> existing.campaign_id is None && existing.experiment_id is None,
{
}

/// The submissions of a kind are all listed, each once and in order; and each
/// that is listed is of the kind.
pub proof fn lemma_places_are_those_of_the_kind(
    submissions: Seq<Submission>,
    task: PueueTask,
    tasks: Seq<PueueTask>,
    kind: SubmissionMatch,
)
    requires
        submissions.len() <= usize::MAX,
    ensures
        ({
            let places = places_of(submissions, task, tasks, kind);
            &&& forall|i: int|
                0 <= i < submissions.len() ==> (kind_of(#[trigger] submissions[i], task, tasks)
                    == kind <==> places.contains(i as usize))
            &&& forall|k: int| 0 <= k < places.len() ==> (#[trigger] places[k]) < submissions.len()
            &&& forall|k: int, l: int|
                0 <= k < l < places.len() ==> (#[trigger] places[k]) < (#[trigger] places[l])
        }),
    decreases submissions.len(),
{
    if submissions.len() > 0 {
        let head = submissions.drop_last();
        let rest = places_of(head, task, tasks, kind);
        let places = places_of(submissions, task, tasks, kind);
        lemma_places_are_those_of_the_kind(head, task, tasks, kind);
        assert forall|i: int| 0 <= i < submissions.len() implies (kind_of(
            #[trigger] submissions[i],
            task,
            tasks,
        ) == kind <==> places.contains(i as usize)) by {
            if i < head.len() {
                assert(head[i] == submissions[i]);
                if rest.contains(i as usize) {
                    let k = choose|k: int| 0 <= k < rest.len() && rest[k] == i as usize;
                    assert(places[k] == i as usize);
                }
                if places.contains(i as usize) {
                    let k = choose|k: int| 0 <= k < places.len() && places[k] == i as usize;
                    assert(k < rest.len());
                    assert(rest[k] == i as usize);
                }
            } else if kind_of(submissions[i], task, tasks) == kind {
                assert(places[rest.len() as int] == i as usize);
            } else if places.contains(i as usize) {
                let k = choose|k: int| 0 <= k < places.len() && places[k] == i as usize;
                assert(rest[k] < head.len());
            }
        }
    }
}

/// No task has a number exactly where none is counted with it.
pub proof fn lemma_no_task_has_the_number(tasks: Seq<PueueTask>, id: int)
    ensures
        count_with_id(tasks, id) == 0 <==> forall|j: int| 0 <= j < tasks.len() ==> !((#[trigger] tasks[j]).id == id),
    decreases tasks.len(),
{
    if tasks.len() > 0 {
        let head = tasks.drop_last();
        lemma_no_task_has_the_number(head, id);
        assert(tasks[tasks.len() - 1] == tasks.last());
        assert forall|j: int| 0 <= j < head.len() implies (#[trigger] head[j]) == tasks[j] by {
        }
        assert forall|j: int| 0 <= j < head.len() implies (#[trigger] tasks[j]) == head[j] by {
        }
    }
}

/// A number is unique exactly where no other task has it.
pub proof fn lemma_unique_number(tasks: Seq<PueueTask>, id: int, at: int)
    requires
        0 <= at < tasks.len(),
        tasks[at].id == id,
    ensures
        count_with_id(tasks, id) >= 1,
        count_with_id(tasks, id) == 1 <==> forall|j: int|
            0 <= j < tasks.len() && j != at ==> !((#[trigger] tasks[j]).id == id),
    decreases tasks.len(),
{
    let head = tasks.drop_last();
    let n = head.len() as int;
    assert(tasks[n] == tasks.last());
    assert forall|j: int| 0 <= j < n implies (#[trigger] head[j]) == tasks[j] by {
    }
    assert forall|j: int| 0 <= j < n implies (#[trigger] tasks[j]) == head[j] by {
    }
    if at == n {
        lemma_no_task_has_the_number(head, id);
    } else {
        lemma_unique_number(head, id, at);
    }
}

/// A submission was accepted as no task exactly where no task has its number and
/// its signature.
pub proof fn lemma_accepted_as_no_task(submission: Submission, tasks: Seq<PueueTask>)
    ensures
        count_accepted(submission, tasks) == 0 <==> forall|j: int| 0 <= j < tasks.len() ==> !(is_accepted_as(submission, (#[trigger] tasks[j]))),
    decreases tasks.len(),
{
    if tasks.len() > 0 {
        let head = tasks.drop_last();
        lemma_accepted_as_no_task(submission, head);
        assert(tasks[tasks.len() - 1] == tasks.last());
        assert forall|j: int| 0 <= j < head.len() implies (#[trigger] head[j]) == tasks[j] by {
        }
        assert forall|j: int| 0 <= j < head.len() implies (#[trigger] tasks[j]) == head[j] by {
        }
    }
}

/// A submission was accepted as one task alone exactly where no other task has its
/// number and its signature.
pub proof fn lemma_accepted_as_one_task(submission: Submission, tasks: Seq<PueueTask>, at: int)
    requires
        0 <= at < tasks.len(),
        is_accepted_as(submission, tasks[at]),
    ensures
        count_accepted(submission, tasks) >= 1,
        count_accepted(submission, tasks) == 1 <==> forall|j: int|
            0 <= j < tasks.len() && j != at ==> !(is_accepted_as(submission, (#[trigger] tasks[j]))),
    decreases tasks.len(),
{
    let head = tasks.drop_last();
    let n = head.len() as int;
    assert(tasks[n] == tasks.last());
    assert forall|j: int| 0 <= j < n implies (#[trigger] head[j]) == tasks[j] by {
    }
    assert forall|j: int| 0 <= j < n implies (#[trigger] tasks[j]) == head[j] by {
    }
    if at == n {
        lemma_accepted_as_no_task(submission, head);
    } else {
        lemma_accepted_as_one_task(submission, head, at);
    }
}

/// The event that calls for a decision names its source, its cycle and its
/// experiment, and holds what was observed.
pub proof fn lemma_decision_names_its_experiment(
    experiment: Experiment,
    task: PueueTask,
    cycle_id: Seq<char>,
)
    ensures
        ({
            let tree = decision_tree(experiment, task, cycle_id);
            &&& field(tree, "source"@) == Some(JsonTree::Text("terminal_experiment"@))
            &&& field(tree, "cycle_id"@) == Some(JsonTree::Text(cycle_id))
            &&& field(tree, "source_experiment_id"@) == Some(
                JsonTree::Text(experiment.experiment_id@),
            )
            &&& field(tree, "terminal_observation"@) == Some(observation_tree(experiment, task))
        }),
{
    reveal_strlit("source");
    reveal_strlit("cycle_id");
    reveal_strlit("source_experiment_id");
    reveal_strlit("terminal_observation");
    assert("source"@.len() == 6);
    assert("cycle_id"@.len() == 8);
    assert("source_experiment_id"@.len() == 20);
    assert("terminal_observation"@.len() == 20);
    assert("source_experiment_id"@[0] != "terminal_observation"@[0]);
}

/// What is observed of a task at its end are its number, its group, its state,
/// its moments and its exit code as the queue gives them.
pub proof fn lemma_observation_tells_the_task(experiment: Experiment, task: PueueTask)
    ensures
        ({
            let seen = observation_tree(experiment, task);
            &&& field(seen, "task_id"@) == Some(JsonTree::Int(task.id as int))
            &&& field(seen, "group"@) == Some(JsonTree::Text(task.group@))
            &&& field(seen, "state"@) == Some(JsonTree::Text(task.state@))
            &&& field(seen, "task_signature"@) == Some(
                optional_tree(optional_text(experiment.task_signature)),
            )
            &&& field(seen, "enqueued_at"@) == Some(
                match task.enqueued_at {
                    Some(text) => int_or_null(instant_of(text@)),
                    None => JsonTree::Null,
                },
            )
            &&& field(seen, "started_at"@) == Some(
                match task.started_at {
                    Some(text) => int_or_null(instant_of(text@)),
                    None => JsonTree::Null,
                },
            )
            &&& field(seen, "ended_at"@) == Some(
                match task.ended_at {
                    Some(text) => int_or_null(instant_of(text@)),
                    None => JsonTree::Null,
                },
            )
            &&& field(seen, "exit_code"@) == Some(
                match task.result {
                    Some(json) => int_or_null(exit_code_of(json@)),
                    None => JsonTree::Null,
                },
            )
        }),
{
    reveal_strlit("task_id");
    reveal_strlit("task_signature");
    reveal_strlit("group");
    reveal_strlit("state");
    reveal_strlit("enqueued_at");
    reveal_strlit("started_at");
    reveal_strlit("ended_at");
    reveal_strlit("exit_code");
    assert("task_id"@.len() == 7);
    assert("task_signature"@.len() == 14);
    assert("group"@.len() == 5);
    assert("state"@.len() == 5);
    assert("enqueued_at"@.len() == 11);
    assert("started_at"@.len() == 10);
    assert("ended_at"@.len() == 8);
    assert("exit_code"@.len() == 9);
    assert("group"@[0] != "state"@[0]);
}

/// Two tasks that are the same are the same in everything that the queue says of
/// a task, and so give the same observation and the same event.
pub proof fn lemma_same_tasks_give_the_same(a: PueueTask, b: PueueTask, signature: Seq<char>)
    requires
        same_task(a, b),
    ensures
        a.id == b.id,
        a.group@ == b.group@,
        a.command@ == b.command@,
        a.state@ == b.state@,
        signature_of(a) == signature_of(b),
        terminal_payload(a, signature) == terminal_payload(b, signature),
        optional_text(a.enqueued_at) == optional_text(b.enqueued_at),
        optional_text(a.started_at) == optional_text(b.started_at),
        optional_text(a.ended_at) == optional_text(b.ended_at),
        optional_value(a.result) == optional_value(b.result),
{
}

} // verus!
