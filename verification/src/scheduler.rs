//! One pass over the claimed events of all projects.
//!
//! The events are parted by project ([`crate::batches`]), each project goes
//! through the stages of [`crate::dispatch`], and what comes of it is collected
//! in a report.

use vstd::prelude::*;
use vstd::string::*;

use crate::batches::{
    campaign_ids_of, event_ids, ids_of, legacy_of, order_events, ordered, partition_legacy_events,
};
use crate::dispatch::{Reply, SpawnPoint};
use crate::error::{error_text, AppError};
use crate::models::{debug_quoted, debug_text, Event, Project};
use crate::output::{bounded_redacted_text, lemma_shown_text_is_bounded_and_plain, shown};
use crate::execution_policy::{PolicyViolation, PolicyViolationCode};
use crate::states::EventKind;
use crate::text::{
    append_int, append_text, byte_len, chars_of, decimal, decimal_digits, digits_of, extend, same_text,
    string_of,
};
use crate::trust::string_views;

pub use crate::batches::{group_by_project, ProjectBatch};
pub use crate::prompt::build_prompt;

verus! {

/// The time of a pass, how long claims last, and how many events it takes.
#[derive(Debug, Clone, PartialEq, Eq)]
pub struct SchedulerConfig {
    pub now: i64,
    pub lease_seconds: i64,
    pub claim_limit: usize,
}

/// An agent that was started; `H` is the handle of its process.
pub struct StartedAgent<H> {
    pub run_id: i64,
    pub primary_event_id: i64,
    pub mode: String,
    pub event_ids: Vec<i64>,
    pub prompt: String,
    pub handle: H,
}

/// What a pass did; `C` is the handle of a process that is still to be cleaned
/// up.
pub struct SchedulerReport<H, C> {
    pub started: Vec<StartedAgent<H>>,
    pub cleanup: Vec<C>,
    pub paused: Vec<String>,
    pub halted: Vec<String>,
    pub recovered_leases: usize,
}

impl<H, C> SchedulerReport<H, C> {
    /// The report of a pass that has done nothing yet.
    pub fn empty(recovered_leases: usize) -> (report: Self)
        ensures
            report.started@.len() == 0,
            report.cleanup@.len() == 0,
            report.paused@.len() == 0,
            report.halted@.len() == 0,
            report.recovered_leases == recovered_leases,
    {
        SchedulerReport {
            started: Vec::new(),
            cleanup: Vec::new(),
            paused: Vec::new(),
            halted: Vec::new(),
            recovered_leases,
        }
    }

    /// What may be shown of the report: how many agents were started and how
    /// many processes are left, and nothing of what the agents were told.
    pub fn shape_text(&self) -> (text: String)
        ensures
            text@ == report_shape(
                self.started@.len(),
                self.cleanup@.len(),
                string_views(self.paused@),
                string_views(self.halted@),
                self.recovered_leases as nat,
            ),
    {
        let mut chars = chars_of("SchedulerReport { started: ");
        append_count(&mut chars, self.started.len());
        append_text(&mut chars, ", cleanup: ");
        append_count(&mut chars, self.cleanup.len());
        append_text(&mut chars, ", paused: ");
        append_list(&mut chars, self.paused.as_slice());
        append_text(&mut chars, ", halted: ");
        append_list(&mut chars, self.halted.as_slice());
        append_text(&mut chars, ", recovered_leases: ");
        append_count(&mut chars, self.recovered_leases);
        append_text(&mut chars, " }");
        string_of(chars.as_slice())
    }
}

impl<H, C> Default for SchedulerReport<H, C> {
    fn default() -> (report: Self)
        ensures
            report.started@.len() == 0,
            report.cleanup@.len() == 0,
            report.paused@.len() == 0,
            report.halted@.len() == 0,
            report.recovered_leases == 0,
    {
        SchedulerReport::empty(0)
    }
}

/// Texts in quotes, one after the other.
pub open spec fn quoted_items(texts: Seq<Seq<char>>) -> Seq<char>
    decreases texts.len(),
{
    if texts.len() == 0 {
        Seq::empty()
    } else if texts.len() == 1 {
        debug_text(texts[0])
    } else {
        quoted_items(texts.drop_last()) + ", "@ + debug_text(texts.last())
    }
}

pub open spec fn report_shape(
    started: nat,
    cleanup: nat,
    paused: Seq<Seq<char>>,
    halted: Seq<Seq<char>>,
    recovered: nat,
) -> Seq<char> {
    "SchedulerReport { started: "@ + digits_of(started) + ", cleanup: "@ + digits_of(cleanup)
        + ", paused: "@ + ("["@ + quoted_items(paused) + "]"@) + ", halted: "@ + ("["@
        + quoted_items(halted) + "]"@) + ", recovered_leases: "@ + digits_of(recovered) + " }"@
}

fn append_count(chars: &mut Vec<char>, n: usize)
    ensures
        final(chars)@ == old(chars)@ + digits_of(n as nat),
{
    let digits = decimal_digits(n as u64);
    extend(chars, digits.as_slice());
}

fn append_list(chars: &mut Vec<char>, texts: &[String])
    ensures
        final(chars)@ == old(chars)@ + ("["@ + quoted_items(string_views(texts@)) + "]"@),
{
    let ghost before = chars@;
    let ghost all = string_views(texts@);
    append_text(chars, "[");
    let mut at: usize = 0;
    proof {
        assert(all.take(0) =~= Seq::<Seq<char>>::empty());
        assert(before + "["@ + quoted_items(all.take(0)) =~= before + "["@);
    }
    while at < texts.len()
        invariant
            at <= texts@.len(),
            all == string_views(texts@),
            chars@ == before + "["@ + quoted_items(all.take(at as int)),
        decreases texts.len() - at,
    {
        let ghost prior = chars@;
        if at > 0 {
            append_text(chars, ", ");
        }
        let quoted = debug_quoted(texts[at].as_str());
        append_text(chars, quoted.as_str());
        proof {
            let next = all.take(at + 1);
            assert(next.drop_last() =~= all.take(at as int));
            assert(next.last() == texts@[at as int]@);
            assert(chars@ =~= before + "["@ + quoted_items(next));
        }
        at = at + 1;
    }
    append_text(chars, "]");
    proof {
        assert(all.take(all.len() as int) =~= all);
        assert(chars@ =~= before + ("["@ + quoted_items(all) + "]"@));
    }
}

/// A pass that ended early, with what it had done.
pub struct SchedulerTickError<H, C> {
    pub report: SchedulerReport<H, C>,
    pub source: AppError,
}

impl<H, C> SchedulerTickError<H, C> {
    pub fn new(report: SchedulerReport<H, C>, source: AppError) -> (error: Self)
        ensures
            error.report == report,
            error.source == source,
    {
        SchedulerTickError { report, source }
    }

    pub fn into_parts(self) -> (parts: (SchedulerReport<H, C>, AppError))
        ensures
            parts == (self.report, self.source),
    {
        (self.report, self.source)
    }

    /// The text that is shown for the error.
    pub fn text(&self) -> (text: String)
        ensures
            text@ == error_text(self.source),
    {
        self.source.text()
    }
}

/// What a pass works with: `R` launches agents, `L` are the limits of campaigns.
#[derive(Debug)]
pub struct Scheduler<R, L> {
    pub runner: R,
    pub config: SchedulerConfig,
    pub campaign_limits: L,
    pub cleanup_blocked_projects: Vec<String>,
}

pub open spec fn names_project(projects: Seq<String>, project_id: Seq<char>) -> bool {
    exists|i: int| 0 <= i < projects.len() && (#[trigger] projects[i])@ == project_id
}

impl<R, L> Scheduler<R, L> {
    pub fn new(runner: R, config: SchedulerConfig, campaign_limits: L) -> (scheduler: Self)
        ensures
            scheduler.runner == runner,
            scheduler.config == config,
            scheduler.campaign_limits == campaign_limits,
            scheduler.cleanup_blocked_projects@.len() == 0,
    {
        Scheduler { runner, config, campaign_limits, cleanup_blocked_projects: Vec::new() }
    }

    pub fn with_campaign_limits(self, limits: L) -> (scheduler: Self)
        ensures
            scheduler == (Scheduler { campaign_limits: limits, ..self }),
    {
        Scheduler { campaign_limits: limits, ..self }
    }

    pub fn with_cleanup_blocked_projects(self, project_ids: Vec<String>) -> (scheduler: Self)
        ensures
            scheduler == (Scheduler { cleanup_blocked_projects: project_ids, ..self }),
    {
        Scheduler { cleanup_blocked_projects: project_ids, ..self }
    }

    pub fn into_runner(self) -> (runner: R)
        ensures
            runner == self.runner,
    {
        self.runner
    }

    /// How many leases were recovered, of events and of messages together.
    pub fn recover_expired_leases(
        &self,
        recovered_events: usize,
        recovered_interventions: usize,
    ) -> (recovered: usize)
        requires
            recovered_events + recovered_interventions <= usize::MAX,
        ensures
            recovered == recovered_events + recovered_interventions,
    {
        recovered_events + recovered_interventions
    }

    /// When the claims of this pass run out.
    pub fn lease_until(&self) -> (until: i64)
        requires
            i64::MIN <= self.config.now + self.config.lease_seconds <= i64::MAX,
        ensures
            until == self.config.now + self.config.lease_seconds,
    {
        self.config.now + self.config.lease_seconds
    }

    /// Whether a project waits for processes of an earlier run to be cleaned up.
    pub fn is_cleanup_blocked(&self, project_id: &str) -> (yes: bool)
        ensures
            yes == names_project(self.cleanup_blocked_projects@, project_id@),
    {
        let blocked = &self.cleanup_blocked_projects;
        let mut at: usize = 0;
        while at < blocked.len()
            invariant
                at <= blocked@.len(),
                blocked@ == self.cleanup_blocked_projects@,
                forall|i: int| 0 <= i < at ==> (#[trigger] blocked@[i])@ != project_id@,
            decreases blocked.len() - at,
        {
            if same_text(blocked[at].as_str(), project_id) {
                return true;
            }
            at = at + 1;
        }
        false
    }
}

// ---------------------------------------------------------------------------
// A batch before it is worked on
// ---------------------------------------------------------------------------
/// The events of a project that are worked on now, and those that are deferred.
#[derive(Debug)]
pub struct PreparedBatch {
    pub decision: bool,
    pub events: Vec<Event>,
    pub deferred: Vec<i64>,
}

/// The batch is led by the decision of a campaign.
pub open spec fn led_by_decision(events: Seq<Event>) -> bool {
    ordered(events).len() > 0 && ordered(events)[0].kind is CampaignDecision
}

/// Puts the events of a project in order. Where a decision leads, all of them
/// stay together; else those that belong to a decision cycle are deferred. A
/// project that is blocked defers all.
pub fn prepare_batch(events: Vec<Event>, blocked: bool) -> (batch: PreparedBatch)
    ensures
        blocked ==> batch.events@.len() == 0 && batch.deferred@ == ids_of(events@),
        !blocked ==> batch.decision == led_by_decision(events@),
        !blocked && led_by_decision(events@) ==> batch.events@ == ordered(events@)
            && batch.deferred@.len() == 0,
        !blocked && !led_by_decision(events@) ==> batch.events@ == legacy_of(ordered(events@))
            && batch.deferred@ == campaign_ids_of(ordered(events@)),
{
    if blocked {
        let deferred = event_ids(events.as_slice());
        return PreparedBatch { decision: false, events: Vec::new(), deferred };
    }
    let sorted = order_events(events);
    let decision = sorted.len() > 0 && match sorted[0].kind {
        EventKind::CampaignDecision => true,
        _ => false,
    };
    if decision {
        return PreparedBatch { decision, events: sorted, deferred: Vec::new() };
    }
    let (legacy, deferred) = partition_legacy_events(sorted);
    PreparedBatch { decision, events: legacy, deferred }
}

/// A project may be worked on.
pub fn is_ready(project: &Project) -> (yes: bool)
    ensures
        yes == (project.enabled && !project.paused && project.halted_reason is None),
{
    project.enabled && !project.paused && project.halted_reason.is_none()
}

// ---------------------------------------------------------------------------
// Errors
// ---------------------------------------------------------------------------
/// Another process holds the admission lock of the project.
pub open spec fn is_busy(error: AppError) -> bool {
    error matches AppError::Runtime { operation } && (operation@
        == "acquire project pause admission lock"@ || operation@
        == "acquire project halt admission lock"@)
}

pub fn lifecycle_admission_busy(error: &AppError) -> (yes: bool)
    ensures
        yes == is_busy(*error),
{
    match error {
        AppError::Runtime { operation } => same_text(
            operation,
            "acquire project pause admission lock",
        ) || same_text(operation, "acquire project halt admission lock"),
        _ => false,
    }
}

/// The reply for a rule of the policy that stands against a run.
pub fn violation_reply(violation: &PolicyViolation) -> (reply: Reply)
    ensures
        reply == (Reply::Blocked { temp: violation.code is TempUnsafe }),
{
    match violation.code {
        PolicyViolationCode::TempUnsafe => Reply::Blocked { temp: true },
        _ => Reply::Blocked { temp: false },
    }
}

/// The first error is kept.
pub fn keep_first(first: Option<AppError>, more: Option<AppError>) -> (kept: Option<AppError>)
    ensures
        kept == (if first is Some {
            first
        } else {
            more
        }),
{
    match first {
        Some(error) => Some(error),
        None => more,
    }
}

/// How far a launch had come when it failed.
#[derive(Debug, Clone, Copy, PartialEq, Eq, Structural)]
pub enum AgentSpawnStage {
    PreBinding,
    RunBoundPreMarker { run_id: i64, resolved: bool },
    PostMarker { run_id: i64, resolved: bool },
}

impl AgentSpawnStage {
    /// Whether the launch was bound to a run.
    pub fn point(self) -> (point: SpawnPoint)
        ensures
            point == (if self is PreBinding {
                SpawnPoint::PreBinding
            } else {
                SpawnPoint::RunBound
            }),
    {
        match self {
            AgentSpawnStage::PreBinding => SpawnPoint::PreBinding,
            _ => SpawnPoint::RunBound,
        }
    }
}

/// The stage and run of a launch that is not resolved.
pub open spec fn unresolved_point(stage: AgentSpawnStage) -> Option<(Seq<char>, int)> {
    match stage {
        AgentSpawnStage::RunBoundPreMarker { run_id, resolved } => if resolved {
            None
        } else {
            Some(("RunBoundPreMarker"@, run_id as int))
        },
        AgentSpawnStage::PostMarker { run_id, resolved } => if resolved {
            None
        } else {
            Some(("PostMarker"@, run_id as int))
        },
        AgentSpawnStage::PreBinding => None,
    }
}

/// What is said of a launch that is not resolved.
pub open spec fn unresolved_signal(point: (Seq<char>, int), source: AppError) -> Seq<char> {
    shown(
        "agent spawn unresolved: "@ + point.0 + " resolved=false run_id="@ + decimal(point.1)
            + "; source="@ + shown(error_text(source)),
    )
}

/// The error of a failed launch: its own, or a bounded signal where the launch
/// is not resolved.
pub fn unresolved_spawn_error(stage: AgentSpawnStage, source: AppError) -> (error: AppError)
    ensures
        match unresolved_point(stage) {
            None => error == source,
            Some(point) => error matches AppError::Message { message } && message@
                == unresolved_signal(point, source) && byte_len(message@)
                <= crate::output::MAX_OUTPUT_TEXT_BYTES,
        },
{
    let (name, run_id): (&'static str, i64) = match stage {
        AgentSpawnStage::RunBoundPreMarker { run_id, resolved: false } => (
            "RunBoundPreMarker",
            run_id,
        ),
        AgentSpawnStage::PostMarker { run_id, resolved: false } => ("PostMarker", run_id),
        _ => {
            return source;
        },
    };
    let mut signal = chars_of("agent spawn unresolved: ");
    append_text(&mut signal, name);
    append_text(&mut signal, " resolved=false run_id=");
    append_int(&mut signal, run_id);
    append_text(&mut signal, "; source=");
    let reason = source.text();
    let safe = bounded_redacted_text(reason.as_str());
    append_text(&mut signal, safe.as_str());
    proof {
        lemma_shown_text_is_bounded_and_plain(signal@);
    }
    let text = string_of(signal.as_slice());
    AppError::Message { message: bounded_redacted_text(text.as_str()) }
}

/// What is recorded of events whose agent could not be launched.
pub fn spawn_failure_message(error: &AppError) -> (message: String)
    ensures
        message@ == "agent spawn failed: "@ + error_text(*error),
{
    let text = error.text();
    let line = crate::text::concat2("agent spawn failed: ", text.as_str());
    string_of(line.as_slice())
}

/// A batch is a decision's exactly where it holds a decision and nothing more
/// urgent: no failure and nothing that stands still.
pub proof fn lemma_when_a_decision_leads(events: Seq<Event>)
    ensures
        led_by_decision(events) <==> (exists|i: int|
            0 <= i < events.len() && (#[trigger] events[i]).kind is CampaignDecision) && (forall|
            i: int,
        |
            0 <= i < events.len() ==> !((#[trigger] events[i]).kind is Crash || events[i].kind
                is TaskFailed || events[i].kind is AutoKilled || events[i].kind is TerminationFailed
                || events[i].kind is Stalled)),
{
    broadcast use vstd::seq_lib::group_to_multiset_ensures;

    let sorted = ordered(events);
    crate::batches::lemma_ordered(events);
    assert forall|i: int| 0 <= i < events.len() implies sorted.contains(#[trigger] events[i]) by {
        assert(events.contains(events[i]));
        assert(events.to_multiset().count(events[i]) > 0);
        assert(sorted.to_multiset().count(events[i]) > 0);
    }
    assert forall|i: int| 0 <= i < sorted.len() implies events.contains(#[trigger] sorted[i]) by {
        assert(sorted.contains(sorted[i]));
        assert(sorted.to_multiset().count(sorted[i]) > 0);
        assert(events.to_multiset().count(sorted[i]) > 0);
    }
    if sorted.len() > 0 {
        let first = sorted[0];
        assert(events.contains(first));
        assert forall|i: int| 0 <= i < events.len() implies crate::batches::priority_of(first.kind)
            <= crate::batches::priority_of((#[trigger] events[i]).kind) by {
            let k = choose|k: int| 0 <= k < sorted.len() && sorted[k] == events[i];
            if k > 0 {
                assert(!crate::batches::precedes(sorted[k], sorted[0]));
            }
        }
        let at = choose|at: int| 0 <= at < events.len() && events[at] == first;
        assert(events[at].kind == first.kind);
    }
}

/// A project is busy exactly where its lock for pausing or halting could not be
/// had.
pub proof fn lemma_when_a_project_is_busy(error: AppError)
    ensures
        is_busy(error) ==> error is Runtime,
        error matches AppError::Runtime { operation } ==> (is_busy(error) <==> operation@
            == "acquire project pause admission lock"@ || operation@
            == "acquire project halt admission lock"@),
{
}

/// A launch is unresolved exactly where a run was bound and its end is not
/// known; the signal names the point and the run.
pub proof fn lemma_unresolved_launches(run_id: i64, resolved: bool)
    ensures
        unresolved_point(AgentSpawnStage::PreBinding) is None,
        resolved ==> unresolved_point(AgentSpawnStage::RunBoundPreMarker { run_id, resolved })
            is None && unresolved_point(AgentSpawnStage::PostMarker { run_id, resolved }) is None,
        !resolved ==> unresolved_point(AgentSpawnStage::RunBoundPreMarker { run_id, resolved })
            == Some(("RunBoundPreMarker"@, run_id as int)) && unresolved_point(
            AgentSpawnStage::PostMarker { run_id, resolved },
        ) == Some(("PostMarker"@, run_id as int)),
{
}

/// A project is held back for a cleanup exactly where it is on the list.
pub proof fn lemma_which_projects_are_held_back(projects: Seq<String>, more: String, id: Seq<char>)
    ensures
        !names_project(Seq::empty(), id),
        names_project(projects.push(more), id) <==> names_project(projects, id) || more@ == id,
{
    let all = projects.push(more);
    assert(all[projects.len() as int]@ == more@);
    if names_project(projects, id) {
        let i = choose|i: int| 0 <= i < projects.len() && (#[trigger] projects[i])@ == id;
        assert(all[i]@ == id);
    }
    if names_project(all, id) && more@ != id {
        let i = choose|i: int| 0 <= i < all.len() && (#[trigger] all[i])@ == id;
        assert(projects[i]@ == id);
    }
}

} // verus!
