//! The watch over running experiments: which of them are looked at, what the
//! signals in their logs amount to, and when one is under suspicion.

use vstd::prelude::*;
use vstd::string::*;

use crate::fspath::{join_path, joined_path};
use crate::health_diagnosis::RunningHealthRow;
use crate::models::Project;
use crate::promotion::{is_text, optional_text};
use crate::pueue::{is_running_state, PueueTask};
use crate::text::{append_int, append_text, chars_of, decimal, same_text, string_of};

verus! {

pub const MAX_OBSERVATIONS_PER_PASS: usize = 100;

/// What a pass of the watch did.
#[derive(Debug, Clone, Copy, PartialEq, Eq, Structural)]
pub struct HealthReport {
    pub observed: usize,
    pub escalated: usize,
    pub executed_actions: usize,
}

impl Default for HealthReport {
    fn default() -> (report: Self)
        ensures
            report == (HealthReport { observed: 0, escalated: 0, executed_actions: 0 }),
    {
        HealthReport { observed: 0, escalated: 0, executed_actions: 0 }
    }
}

/// The kind of trouble that a signal points to.
#[derive(Debug, Clone, PartialEq, Eq)]
pub enum SignalClass {
    Oom,
    Numerical,
    WorkerLoss,
    Staleness,
    Exception,
    Configured(String),
}

/// Where a signal comes from.
#[derive(Debug, Clone, Copy, PartialEq, Eq, Structural)]
pub enum SignalSource {
    BuiltinProbe,
    ConfigPattern,
    Stall,
}

/// A signal that was found.
#[derive(Debug, Clone, PartialEq, Eq)]
pub struct SignalObservation {
    pub class: SignalClass,
    pub source: SignalSource,
    pub evidence_digest: String,
    pub observed_at: i64,
}

/// A signal as it is kept with an experiment.
#[derive(Debug, Clone, PartialEq, Eq)]
pub struct SignalSummaryEntry {
    pub class: String,
    pub source: String,
    pub evidence_digest: String,
    pub observed_at: i64,
}

pub open spec fn class_text(class: SignalClass) -> Seq<char> {
    match class {
        SignalClass::Oom => "oom"@,
        SignalClass::Numerical => "numerical"@,
        SignalClass::WorkerLoss => "worker_loss"@,
        SignalClass::Staleness => "staleness"@,
        SignalClass::Exception => "exception"@,
        SignalClass::Configured(name) => name@,
    }
}

pub fn class_label(class: &SignalClass) -> (label: String)
    ensures
        label@ == class_text(*class),
{
    match class {
        SignalClass::Oom => "oom".to_owned(),
        SignalClass::Numerical => "numerical".to_owned(),
        SignalClass::WorkerLoss => "worker_loss".to_owned(),
        SignalClass::Staleness => "staleness".to_owned(),
        SignalClass::Exception => "exception".to_owned(),
        SignalClass::Configured(name) => name.clone(),
    }
}

pub open spec fn source_text(source: SignalSource) -> Seq<char> {
    match source {
        SignalSource::BuiltinProbe => "builtin_probe"@,
        SignalSource::ConfigPattern => "config_pattern"@,
        SignalSource::Stall => "stall"@,
    }
}

pub fn source_label(source: SignalSource) -> (label: &'static str)
    ensures
        label@ == source_text(source),
{
    match source {
        SignalSource::BuiltinProbe => "builtin_probe",
        SignalSource::ConfigPattern => "config_pattern",
        SignalSource::Stall => "stall",
    }
}

pub open spec fn is_entry_of(entry: SignalSummaryEntry, signal: SignalObservation) -> bool {
    &&& entry.class@ == class_text(signal.class)
    &&& entry.source@ == source_text(signal.source)
    &&& entry.evidence_digest@ == signal.evidence_digest@
    &&& entry.observed_at == signal.observed_at
}

pub fn summary_entry(signal: &SignalObservation) -> (entry: SignalSummaryEntry)
    ensures
        is_entry_of(entry, *signal),
{
    SignalSummaryEntry {
        class: class_label(&signal.class),
        source: source_label(signal.source).to_owned(),
        evidence_digest: signal.evidence_digest.clone(),
        observed_at: signal.observed_at,
    }
}

// ---------------------------------------------------------------------------
// Which experiments are looked at
// ---------------------------------------------------------------------------
/// The last of the projects with this name.
pub open spec fn project_named(projects: Seq<Project>, id: Seq<char>) -> Option<int>
    decreases projects.len(),
{
    if projects.len() == 0 {
        None
    } else if projects.last().project_id@ == id {
        Some(projects.len() - 1)
    } else {
        project_named(projects.drop_last(), id)
    }
}

fn find_project(projects: &[Project], id: &str) -> (found: Option<usize>)
    ensures
        match found {
            Some(i) => project_named(projects@, id@) == Some(i as int) && i < projects@.len(),
            None => project_named(projects@, id@) is None,
        },
{
    let mut end: usize = projects.len();
    proof {
        assert(projects@.take(projects@.len() as int) =~= projects@);
    }
    while end > 0
        invariant
            end <= projects@.len(),
            projects.len() == projects@.len(),
            project_named(projects@, id@) == project_named(projects@.take(end as int), id@),
        decreases end,
    {
        proof {
            assert(projects@.take(end as int).last() == projects@[end - 1]);
            assert(projects@.take(end as int).drop_last() =~= projects@.take(end - 1));
        }
        if same_text(projects[end - 1].project_id.as_str(), id) {
            return Some(end - 1);
        }
        end = end - 1;
    }
    None
}

/// The last of the tasks with this number.
pub open spec fn task_numbered(tasks: Seq<PueueTask>, id: int) -> Option<int>
    decreases tasks.len(),
{
    if tasks.len() == 0 {
        None
    } else if tasks.last().id == id {
        Some(tasks.len() - 1)
    } else {
        task_numbered(tasks.drop_last(), id)
    }
}

fn find_task(tasks: &[PueueTask], id: i64) -> (found: Option<usize>)
    ensures
        match found {
            Some(i) => task_numbered(tasks@, id as int) == Some(i as int) && i < tasks@.len(),
            None => task_numbered(tasks@, id as int) is None,
        },
{
    let mut end: usize = tasks.len();
    proof {
        assert(tasks@.take(tasks@.len() as int) =~= tasks@);
    }
    while end > 0
        invariant
            end <= tasks@.len(),
            tasks.len() == tasks@.len(),
            task_numbered(tasks@, id as int) == task_numbered(tasks@.take(end as int), id as int),
        decreases end,
    {
        proof {
            assert(tasks@.take(end as int).last() == tasks@[end - 1]);
            assert(tasks@.take(end as int).drop_last() =~= tasks@.take(end - 1));
        }
        if tasks[end - 1].id == id {
            return Some(end - 1);
        }
        end = end - 1;
    }
    None
}

/// A campaign that is paused or halted is left alone.
pub open spec fn defers(state: Option<Seq<char>>) -> bool {
    state == Some("paused"@) || state == Some("halted"@)
}

pub fn campaign_defers(state: &Option<String>) -> (yes: bool)
    ensures
        yes == defers(optional_text(*state)),
{
    is_text(state, "paused") || is_text(state, "halted")
}

/// The project of an experiment that is due, unless the project is not active.
pub open spec fn active_project(row: RunningHealthRow, projects: Seq<Project>) -> Option<int> {
    match project_named(projects, row.project_id@) {
        Some(i) if !projects[i].paused && projects[i].halted_reason is None => Some(i),
        _ => None,
    }
}

/// The task of an experiment that is due, unless it is not running.
pub open spec fn running_task(row: RunningHealthRow, tasks: Seq<PueueTask>) -> Option<int> {
    match task_numbered(tasks, row.pueue_task_id as int) {
        Some(i) if is_running_state(tasks[i].state@) => Some(i),
        _ => None,
    }
}

/// Takes experiments that are due for a look to their projects and tasks.
pub struct HealthEngine;

impl HealthEngine {
    /// The project of an experiment that is due.
    pub fn project_of(row: &RunningHealthRow, projects: &[Project]) -> (found: Option<usize>)
        ensures
            match found {
                Some(i) => active_project(*row, projects@) == Some(i as int) && i < projects@.len(),
                None => active_project(*row, projects@) is None,
            },
    {
        match find_project(projects, row.project_id.as_str()) {
            Some(i) => if projects[i].paused || projects[i].halted_reason.is_some() {
                None
            } else {
                Some(i)
            },
            None => None,
        }
    }

    /// The task of an experiment that is due and whose campaign goes on.
    pub fn task_of(row: &RunningHealthRow, campaign_state: &Option<String>, tasks: &[PueueTask]) -> (found:
        Option<usize>)
        ensures
            match found {
                Some(i) => !defers(optional_text(*campaign_state)) && running_task(*row, tasks@)
                    == Some(i as int) && i < tasks@.len(),
                None => defers(optional_text(*campaign_state)) || running_task(*row, tasks@) is None,
            },
    {
        if campaign_defers(campaign_state) {
            return None;
        }
        match find_task(tasks, row.pueue_task_id) {
            Some(i) => if tasks[i].is_running() {
                Some(i)
            } else {
                None
            },
            None => None,
        }
    }
}

// ---------------------------------------------------------------------------
// Logs
// ---------------------------------------------------------------------------
/// The files in which the log of a task may stand, in the order in which they
/// are tried.
pub fn task_log_candidates(log_dir: &str, task_id: i64) -> (paths: Vec<String>)
    ensures
        paths@.len() == 2,
        paths@[0]@ == joined_path(log_dir@, decimal(task_id as int) + ".log"@),
        paths@[1]@ == joined_path(log_dir@, "task_"@ + decimal(task_id as int) + ".log"@),
{
    let mut plain: Vec<char> = Vec::new();
    append_int(&mut plain, task_id);
    append_text(&mut plain, ".log");
    proof {
        assert(plain@ =~= decimal(task_id as int) + ".log"@);
    }
    let mut prefixed = chars_of("task_");
    append_int(&mut prefixed, task_id);
    append_text(&mut prefixed, ".log");
    let mut paths: Vec<String> = Vec::new();
    paths.push(join_path(log_dir, string_of(plain.as_slice()).as_str()));
    paths.push(join_path(log_dir, string_of(prefixed.as_slice()).as_str()));
    paths
}

/// A log has stalled when it has not changed for so many minutes. A log whose
/// time is not known has not stalled.
pub open spec fn is_stalled(modified_at_nanos: Option<int>, stall_minutes: int, now: int) -> bool {
    match modified_at_nanos {
        Some(nanos) => now >= 0 && {
            let unchanged = if now > nanos / 1_000_000_000 {
                now - nanos / 1_000_000_000
            } else {
                0
            };
            unchanged >= stall_minutes * 60
        },
        None => false,
    }
}

pub fn tail_is_stalled(modified_at_nanos: Option<u128>, stall_minutes: u32, now: i64) -> (yes: bool)
    ensures
        yes == is_stalled(
            match modified_at_nanos {
                Some(n) => Some(n as int),
                None => None,
            },
            stall_minutes as int,
            now as int,
        ),
{
    let nanos: u128 = match modified_at_nanos {
        Some(nanos) => nanos,
        None => {
            return false;
        },
    };
    if now < 0 {
        return false;
    }
    let at: u128 = now as u128;
    let changed: u128 = nanos / 1_000_000_000;
    let unchanged: u128 = if at > changed {
        at - changed
    } else {
        0
    };
    unchanged >= stall_minutes as u128 * 60
}

// ---------------------------------------------------------------------------
// Suspicion
// ---------------------------------------------------------------------------
/// The entry belongs to the last look.
pub open spec fn is_latest(previous: Seq<SignalSummaryEntry>, i: int) -> bool {
    0 <= i < previous.len() && forall|j: int|
        0 <= j < previous.len() ==> (#[trigger] previous[j]).observed_at <= previous[i].observed_at
}

/// The last look found this class too.
pub open spec fn was_seen(previous: Seq<SignalSummaryEntry>, class: Seq<char>) -> bool {
    exists|i: int|
        is_latest(previous, i) && (#[trigger] previous[i]).class@ == class
}

/// A signal other than staleness that the last look found too.
pub open spec fn repeats(previous: Seq<SignalSummaryEntry>, signals: Seq<SignalObservation>) -> bool {
    exists|i: int|
        0 <= i < signals.len() && class_text((#[trigger] signals[i]).class) != "staleness"@
            && was_seen(previous, class_text(signals[i].class))
}

fn latest_moment(previous: &[SignalSummaryEntry]) -> (at: Option<i64>)
    ensures
        match at {
            Some(moment) => (exists|i: int|
                0 <= i < previous@.len() && (#[trigger] previous@[i]).observed_at == moment)
                && forall|j: int|
                0 <= j < previous@.len() ==> (#[trigger] previous@[j]).observed_at <= moment,
            None => previous@.len() == 0,
        },
{
    if previous.len() == 0 {
        return None;
    }
    let mut latest: i64 = previous[0].observed_at;
    let mut next: usize = 1;
    while next < previous.len()
        invariant
            1 <= next <= previous@.len(),
            previous.len() == previous@.len(),
            exists|i: int| 0 <= i < next && (#[trigger] previous@[i]).observed_at == latest,
            forall|j: int| 0 <= j < next ==> (#[trigger] previous@[j]).observed_at <= latest,
        decreases previous.len() - next,
    {
        if previous[next].observed_at > latest {
            latest = previous[next].observed_at;
        }
        proof {
            assert(previous@[next as int].observed_at <= latest);
        }
        next = next + 1;
    }
    Some(latest)
}

fn seen_at(previous: &[SignalSummaryEntry], latest: i64, class: &str) -> (yes: bool)
    requires
        forall|j: int| 0 <= j < previous@.len() ==> (#[trigger] previous@[j]).observed_at <= latest,
        exists|i: int| 0 <= i < previous@.len() && (#[trigger] previous@[i]).observed_at == latest,
    ensures
        yes == was_seen(previous@, class@),
{
    let mut at: usize = 0;
    while at < previous.len()
        invariant
            at <= previous@.len(),
            previous.len() == previous@.len(),
            forall|j: int|
                0 <= j < previous@.len() ==> (#[trigger] previous@[j]).observed_at <= latest,
            forall|i: int|
                0 <= i < at ==> !((#[trigger] previous@[i]).observed_at == latest
                    && previous@[i].class@ == class@),
        decreases previous.len() - at,
    {
        if previous[at].observed_at == latest && same_text(previous[at].class.as_str(), class) {
            proof {
                assert(is_latest(previous@, at as int));
                assert(previous@[at as int].class@ == class@);
            }
            return true;
        }
        at = at + 1;
    }
    proof {
        let top = choose|i: int|
            0 <= i < previous@.len() && (#[trigger] previous@[i]).observed_at == latest;
        assert(previous@[top].observed_at == latest);
        assert forall|i: int| is_latest(previous@, i) implies (#[trigger] previous@[i]).class@
            != class@ by {
            assert(previous@[top].observed_at <= previous@[i].observed_at);
        }
    }
    false
}

/// Whether a signal other than staleness was found by the last look too.
pub fn repeated_non_staleness_class(
    previous: &[SignalSummaryEntry],
    signals: &[SignalObservation],
) -> (yes: bool)
    ensures
        yes == repeats(previous@, signals@),
{
    let latest: i64 = match latest_moment(previous) {
        Some(moment) => moment,
        None => {
            return false;
        },
    };
    let mut at: usize = 0;
    while at < signals.len()
        invariant
            at <= signals@.len(),
            signals.len() == signals@.len(),
            forall|j: int|
                0 <= j < previous@.len() ==> (#[trigger] previous@[j]).observed_at <= latest,
            exists|i: int|
                0 <= i < previous@.len() && (#[trigger] previous@[i]).observed_at == latest,
            forall|i: int|
                0 <= i < at ==> !(class_text((#[trigger] signals@[i]).class) != "staleness"@
                    && was_seen(previous@, class_text(signals@[i].class))),
        decreases signals.len() - at,
    {
        let class = class_label(&signals[at].class);
        if !same_text(class.as_str(), "staleness") && seen_at(previous, latest, class.as_str()) {
            return true;
        }
        at = at + 1;
    }
    false
}

pub open spec fn has_staleness(signals: Seq<SignalObservation>) -> bool {
    exists|i: int| 0 <= i < signals.len() && (#[trigger] signals[i]).class is Staleness
}

fn any_staleness(signals: &[SignalObservation]) -> (yes: bool)
    ensures
        yes == has_staleness(signals@),
{
    let mut at: usize = 0;
    while at < signals.len()
        invariant
            at <= signals@.len(),
            signals.len() == signals@.len(),
            forall|i: int| 0 <= i < at ==> !((#[trigger] signals@[i]).class is Staleness),
        decreases signals.len() - at,
    {
        if let SignalClass::Staleness = signals[at].class {
            return true;
        }
        at = at + 1;
    }
    false
}

/// Whether a look at an experiment puts it under suspicion.
pub open spec fn escalates(
    previous: Seq<SignalSummaryEntry>,
    signals: Seq<SignalObservation>,
    healthy: bool,
) -> bool {
    healthy && (has_staleness(signals) || repeats(previous, signals))
}

/// What a look at an experiment leads to.
#[derive(Debug, Clone, PartialEq, Eq)]
pub struct ObservationPlan {
    /// What is recorded; where there is nothing, only the moment is.
    pub entries: Vec<SignalSummaryEntry>,
    pub mark_observed: bool,
    /// A healthy experiment comes under suspicion.
    pub escalate: bool,
}

/// What a look at an experiment leads to: a stalled log, or trouble that the
/// last look found too, puts a healthy experiment under suspicion.
pub fn plan_observation(
    previous: &[SignalSummaryEntry],
    signals: &[SignalObservation],
    healthy: bool,
) -> (plan: ObservationPlan)
    ensures
        plan.entries@.len() == signals@.len(),
        forall|i: int|
            0 <= i < signals@.len() ==> is_entry_of(#[trigger] plan.entries@[i], signals@[i]),
        plan.mark_observed == (signals@.len() == 0),
        plan.escalate == escalates(previous@, signals@, healthy),
        plan.escalate == (healthy && (has_staleness(signals@) || repeats(previous@, signals@))),
{
    let repeated = repeated_non_staleness_class(previous, signals);
    let mut entries: Vec<SignalSummaryEntry> = Vec::new();
    let mut at: usize = 0;
    while at < signals.len()
        invariant
            at <= signals@.len(),
            signals.len() == signals@.len(),
            entries@.len() == at,
            forall|i: int| 0 <= i < at ==> is_entry_of(#[trigger] entries@[i], signals@[i]),
        decreases signals.len() - at,
    {
        entries.push(summary_entry(&signals[at]));
        at = at + 1;
    }
    let stale = any_staleness(signals);
    ObservationPlan {
        entries,
        mark_observed: signals.len() == 0,
        escalate: healthy && (stale || repeated),
    }
}

/// Counts a look at an experiment.
pub fn count_observation(report: &mut HealthReport, escalated: bool)
    requires
        old(report).observed < usize::MAX,
        old(report).escalated < usize::MAX,
    ensures
        *final(report) == (HealthReport {
            observed: (old(report).observed + 1) as usize,
            escalated: (old(report).escalated + if escalated {
                1int
            } else {
                0int
            }) as usize,
            executed_actions: old(report).executed_actions,
        }),
{
    if escalated {
        report.escalated = report.escalated + 1;
    }
    report.observed = report.observed + 1;
}

/// The first look at an experiment finds nothing repeated: a single sight of
/// trouble other than staleness raises no suspicion.
pub proof fn lemma_first_sight_raises_no_suspicion(signals: Seq<SignalObservation>)
    ensures
        !repeats(Seq::empty(), signals),
{
}

/// Trouble that two looks in a row find is repeated, whatever older looks found.
pub proof fn lemma_trouble_in_two_looks_is_repeated(
    previous: Seq<SignalSummaryEntry>,
    signals: Seq<SignalObservation>,
    i: int,
    j: int,
)
    requires
        is_latest(previous, i),
        0 <= j < signals.len(),
        class_text(signals[j].class) == previous[i].class@,
        previous[i].class@ != "staleness"@,
    ensures
        repeats(previous, signals),
{
    assert(was_seen(previous, class_text(signals[j].class)));
}

/// A signal of staleness alone puts a healthy experiment under suspicion,
/// whatever was seen before.
pub proof fn lemma_staleness_escalates(
    previous: Seq<SignalSummaryEntry>,
    signals: Seq<SignalObservation>,
    i: int,
)
    requires
        0 <= i < signals.len(),
        signals[i].class is Staleness,
    ensures
        escalates(previous, signals, true),
{
}

/// An experiment comes under suspicion exactly where it was healthy and either a
/// signal is one of staleness, or a signal of another class repeats one of the
/// latest entries of the summary before.
pub proof fn lemma_when_a_look_escalates(
    previous: Seq<SignalSummaryEntry>,
    signals: Seq<SignalObservation>,
    healthy: bool,
)
    ensures
        escalates(previous, signals, healthy) <==> {
            &&& healthy
            &&& {
                ||| exists|i: int|
                    0 <= i < signals.len() && (#[trigger] signals[i]).class is Staleness
                ||| exists|i: int, j: int|
                    #![trigger signals[i], previous[j]]
                    0 <= i < signals.len() && 0 <= j < previous.len() && class_text(
                        signals[i].class,
                    ) != "staleness"@ && previous[j].class@ == class_text(signals[i].class) && (
                    forall|k: int|
                        0 <= k < previous.len() ==> (#[trigger] previous[k]).observed_at
                            <= previous[j].observed_at)
            }
        },
{
    if repeats(previous, signals) {
        let i = choose|i: int|
            0 <= i < signals.len() && class_text((#[trigger] signals[i]).class) != "staleness"@
                && was_seen(previous, class_text(signals[i].class));
        let j = choose|j: int|
            is_latest(previous, j) && (#[trigger] previous[j]).class@ == class_text(
                signals[i].class,
            );
        assert(0 <= i < signals.len() && 0 <= j < previous.len());
    }
    assert forall|i: int, j: int|
        #![trigger signals[i], previous[j]]
        0 <= i < signals.len() && 0 <= j < previous.len() && class_text(signals[i].class)
            != "staleness"@ && previous[j].class@ == class_text(signals[i].class) && (forall|k: int|
            0 <= k < previous.len() ==> (#[trigger] previous[k]).observed_at
                <= previous[j].observed_at) implies repeats(previous, signals) by {
        assert(is_latest(previous, j));
        assert(was_seen(previous, class_text(signals[i].class)));
    }
}

/// A project is found by its name and a task by its number; the last of a list
/// counts.
pub proof fn lemma_found_by_name_and_number(
    projects: Seq<Project>,
    id: Seq<char>,
    tasks: Seq<PueueTask>,
    number: int,
)
    ensures
        match project_named(projects, id) {
            Some(i) => 0 <= i < projects.len() && projects[i].project_id@ == id && forall|j: int|
                i < j < projects.len() ==> (#[trigger] projects[j]).project_id@ != id,
            None => forall|j: int|
                0 <= j < projects.len() ==> (#[trigger] projects[j]).project_id@ != id,
        },
        match task_numbered(tasks, number) {
            Some(i) => 0 <= i < tasks.len() && tasks[i].id == number && forall|j: int|
                i < j < tasks.len() ==> (#[trigger] tasks[j]).id != number,
            None => forall|j: int| 0 <= j < tasks.len() ==> (#[trigger] tasks[j]).id != number,
        },
    decreases projects.len() + tasks.len(),
{
    if projects.len() > 0 && projects.last().project_id@ != id {
        let head = projects.drop_last();
        lemma_found_by_name_and_number(head, id, Seq::empty(), number);
        assert forall|j: int| 0 <= j < head.len() implies head[j] == #[trigger] projects[j] by {
        }
    }
    if tasks.len() > 0 && tasks.last().id != number {
        let head = tasks.drop_last();
        lemma_found_by_name_and_number(Seq::empty(), id, head, number);
        assert forall|j: int| 0 <= j < head.len() implies head[j] == #[trigger] tasks[j] by {
        }
    }
}

/// An experiment is looked at exactly where its project is neither paused nor
/// halted, its campaign neither either, and its task is running.
pub proof fn lemma_which_experiments_are_looked_at(
    row: RunningHealthRow,
    projects: Seq<Project>,
    tasks: Seq<PueueTask>,
    state: Option<Seq<char>>,
)
    ensures
        ({
            let named = project_named(projects, row.project_id@);
            active_project(row, projects) == if named is Some && !projects[named->0].paused
                && projects[named->0].halted_reason is None {
                named
            } else {
                None
            }
        }),
        ({
            let numbered = task_numbered(tasks, row.pueue_task_id as int);
            running_task(row, tasks) == if numbered is Some && crate::text::lowered(
                tasks[numbered->0].state@,
            ) == "running"@ {
                numbered
            } else {
                None
            }
        }),
        defers(state) <==> state is Some && (state->0 == "paused"@ || state->0 == "halted"@),
{
}

/// A log is stalled exactly where its last change is known, the clock is sound,
/// and as many minutes as allowed have passed since.
pub proof fn lemma_when_a_log_is_stalled(nanos: int, stall_minutes: int, now: int)
    requires
        nanos >= 0,
        stall_minutes >= 0,
    ensures
        !is_stalled(None, stall_minutes, now),
        is_stalled(Some(nanos), stall_minutes, now) <==> now >= 0 && (stall_minutes == 0 || now
            - nanos / 1_000_000_000 >= 60 * stall_minutes),
{
}

/// What is recorded of a signal is its class, its source, its evidence and its
/// moment, under fixed names.
pub proof fn lemma_recorded_signal(entry: SignalSummaryEntry, signal: SignalObservation)
    requires
        is_entry_of(entry, signal),
    ensures
        signal.class is Oom ==> entry.class@ == "oom"@,
        signal.class is Numerical ==> entry.class@ == "numerical"@,
        signal.class is WorkerLoss ==> entry.class@ == "worker_loss"@,
        signal.class is Staleness ==> entry.class@ == "staleness"@,
        signal.class is Exception ==> entry.class@ == "exception"@,
        signal.class matches SignalClass::Configured(name) ==> entry.class@ == name@,
        signal.source is BuiltinProbe ==> entry.source@ == "builtin_probe"@,
        signal.source is ConfigPattern ==> entry.source@ == "config_pattern"@,
        signal.source is Stall ==> entry.source@ == "stall"@,
        entry.evidence_digest@ == signal.evidence_digest@,
        entry.observed_at == signal.observed_at,
{
}

} // verus!
