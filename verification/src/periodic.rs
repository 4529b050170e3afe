//! When a project with running tasks is looked at in depth.

use vstd::prelude::*;
use vstd::string::*;

use crate::json::{field, put, text_value, Json, JsonTree, Member};
use crate::models::{NewEvent, Project};
use crate::promotion::optional_text;
use crate::pueue::{is_running_state, PueueTask};
use crate::reconcile::{as_int, optional_instant};
use crate::states::EventKind;
use crate::text::{append_int, chars_of, decimal, same_text, string_of};
use crate::timestamps::parse_timestamp;

verus! {

pub const MAX_PERIODIC_TASK_IDS: usize = 64;

/// Plans the deep checks of one moment.
#[derive(Debug, Clone, Copy, PartialEq, Eq)]
pub struct PeriodicDeepCheckScheduler {
    pub now: i64,
}

/// What decides whether a project is due for a deep check.
#[derive(Debug, Clone, Copy, PartialEq, Eq)]
pub struct DeepCheckScheduleInput {
    pub interval_minutes: u32,
    pub now: i64,
    pub oldest_running_task_started_at: Option<i64>,
    pub last_scheduled_at: Option<i64>,
    pub project_active: bool,
    pub has_running_task: bool,
    pub has_active_agent: bool,
    pub has_open_event: bool,
}

/// The moment from which the interval counts.
pub open spec fn anchor_of(input: DeepCheckScheduleInput) -> int {
    match input.last_scheduled_at {
        Some(at) => at as int,
        None => match input.oldest_running_task_started_at {
            Some(at) => at as int,
            None => input.now as int,
        },
    }
}

/// A project is due once the interval has gone by since the last check, or since
/// its oldest running task was started.
pub open spec fn is_due(input: DeepCheckScheduleInput) -> bool {
    &&& input.interval_minutes > 0
    &&& input.project_active
    &&& input.has_running_task
    &&& !input.has_active_agent
    &&& !input.has_open_event
    &&& input.now - anchor_of(input) >= input.interval_minutes * 60
}

pub fn should_schedule_deep_check(input: &DeepCheckScheduleInput) -> (due: bool)
    ensures
        due == is_due(*input),
{
    if input.interval_minutes == 0 || !input.project_active || !input.has_running_task
        || input.has_active_agent || input.has_open_event {
        return false;
    }
    let interval: i64 = input.interval_minutes as i64 * 60;
    let anchor: i64 = match input.last_scheduled_at {
        Some(at) => at,
        None => match input.oldest_running_task_started_at {
            Some(at) => at,
            None => input.now,
        },
    };
    input.now as i128 - anchor as i128 >= interval as i128
}

pub open spec fn at_least_one(n: int) -> int {
    if n < 1 {
        1
    } else {
        n
    }
}

/// The number of the interval that a moment lies in.
pub fn periodic_bucket(now: i64, interval_seconds: i64) -> (bucket: i64)
    ensures
        bucket == now as int / at_least_one(interval_seconds as int),
{
    let interval: i64 = if interval_seconds < 1 {
        1
    } else {
        interval_seconds
    };
    let ghost q = now as int / interval as int;
    let ghost r = now as int % interval as int;
    proof {
        vstd::arithmetic::div_mod::lemma_fundamental_div_mod(now as int, interval as int);
        vstd::arithmetic::div_mod::lemma_mod_bound(now as int, interval as int);
    }
    if now >= 0 {
        now / interval
    } else {
        // Rounds down, where division of machine integers rounds towards zero.
        let positive: i64 = -(now + 1);
        let quotient: i64 = positive / interval;
        proof {
            let p = positive as int;
            let i = interval as int;
            vstd::arithmetic::div_mod::lemma_fundamental_div_mod(p, i);
            vstd::arithmetic::div_mod::lemma_mod_bound(p, i);
            let k = p / i;
            let m = p % i;
            assert(now as int == i * (-k - 1) + (i - 1 - m)) by (nonlinear_arith)
                requires
                    p == i * k + m,
                    p == -(now as int + 1),
            ;
            vstd::arithmetic::div_mod::lemma_fundamental_div_mod_converse(
                now as int,
                i,
                -k - 1,
                i - 1 - m,
            );
        }
        -quotient - 1
    }
}

/// Two moments are in the same bucket only if less than an interval lies between
/// them.
pub proof fn lemma_bucket_is_shorter_than_the_interval(a: int, b: int, interval: int)
    requires
        interval >= 1,
        a <= b,
        a / interval == b / interval,
    ensures
        b - a < interval,
{
    vstd::arithmetic::div_mod::lemma_fundamental_div_mod(a, interval);
    vstd::arithmetic::div_mod::lemma_fundamental_div_mod(b, interval);
    vstd::arithmetic::div_mod::lemma_mod_bound(a, interval);
    vstd::arithmetic::div_mod::lemma_mod_bound(b, interval);
}

/// Moments that lie in the same interval have the same bucket.
pub proof fn lemma_bucket_is_stable(a: int, interval: int, k: int)
    requires
        interval >= 1,
        interval * k <= a < interval * k + interval,
    ensures
        a / interval == k,
{
    assert(a == k * interval + (a - interval * k)) by (nonlinear_arith);
    vstd::arithmetic::div_mod::lemma_fundamental_div_mod_converse(
        a,
        interval,
        k,
        a - interval * k,
    );
}

// ---------------------------------------------------------------------------
// The tasks of a project
// ---------------------------------------------------------------------------
pub open spec fn runs_for(task: PueueTask, group: Seq<char>) -> bool {
    task.group@ == group && is_running_state(task.state@)
}

/// The numbers of the running tasks of a group.
pub open spec fn running_ids(tasks: Seq<PueueTask>, group: Seq<char>) -> Seq<i64>
    decreases tasks.len(),
{
    if tasks.len() == 0 {
        Seq::empty()
    } else {
        let rest = running_ids(tasks.drop_last(), group);
        if runs_for(tasks.last(), group) {
            rest.push(tasks.last().id)
        } else {
            rest
        }
    }
}

/// When a task was started; a task of which that is not known counts as just
/// started.
pub open spec fn started_at_of(task: PueueTask, now: int) -> int {
    match optional_instant(optional_text(task.started_at)) {
        Some(at) => at,
        None => now,
    }
}

/// When the oldest running task of a group was started.
pub open spec fn oldest_start(tasks: Seq<PueueTask>, group: Seq<char>, now: int) -> Option<int>
    decreases tasks.len(),
{
    if tasks.len() == 0 {
        None
    } else {
        let rest = oldest_start(tasks.drop_last(), group, now);
        if runs_for(tasks.last(), group) {
            let at = started_at_of(tasks.last(), now);
            match rest {
                Some(other) if other <= at => Some(other),
                _ => Some(at),
            }
        } else {
            rest
        }
    }
}

/// The running tasks of a group.
#[derive(Debug, Clone, PartialEq, Eq)]
pub struct RunningTasks {
    pub ids: Vec<i64>,
    pub oldest_started_at: Option<i64>,
}

/// Finds the running tasks of a group.
pub fn running_tasks(tasks: &[PueueTask], group: &str, now: i64) -> (running: RunningTasks)
    ensures
        running.ids@ == running_ids(tasks@, group@),
        as_int(running.oldest_started_at) == oldest_start(tasks@, group@, now as int),
{
    let mut ids: Vec<i64> = Vec::new();
    let mut oldest: Option<i64> = None;
    let mut at: usize = 0;
    proof {
        assert(tasks@.take(0) =~= Seq::<PueueTask>::empty());
    }
    while at < tasks.len()
        invariant
            at <= tasks@.len(),
            tasks.len() == tasks@.len(),
            ids@ == running_ids(tasks@.take(at as int), group@),
            as_int(oldest) == oldest_start(tasks@.take(at as int), group@, now as int),
        decreases tasks.len() - at,
    {
        proof {
            assert(tasks@.take(at + 1).drop_last() =~= tasks@.take(at as int));
            assert(tasks@.take(at + 1).last() == tasks@[at as int]);
        }
        let task = &tasks[at];
        if same_text(task.group.as_str(), group) && task.is_running() {
            ids.push(task.id);
            let parsed: Option<i64> = match &task.started_at {
                Some(text) => parse_timestamp(text.as_str()),
                None => None,
            };
            let started: i64 = match parsed {
                Some(moment) => moment,
                None => now,
            };
            oldest = match oldest {
                Some(other) => if other <= started {
                    Some(other)
                } else {
                    Some(started)
                },
                None => Some(started),
            };
        }
        at = at + 1;
    }
    proof {
        assert(tasks@.take(tasks@.len() as int) =~= tasks@);
    }
    RunningTasks { ids, oldest_started_at: oldest }
}

/// Ascending order.
pub open spec fn ascending(ids: Seq<i64>) -> bool {
    forall|i: int, j: int| 0 <= i <= j < ids.len() ==> ids[i] <= ids[j]
}

/// Puts numbers in ascending order.
fn sort(ids: &mut Vec<i64>)
    ensures
        ascending(final(ids)@),
        final(ids)@.to_multiset() == old(ids)@.to_multiset(),
{
    let ghost before = ids@;
    let mut end: usize = 0;
    while end < ids.len()
        invariant
            end <= ids@.len(),
            ids@.len() == before.len(),
            ascending(ids@.take(end as int)),
            ids@.to_multiset() == before.to_multiset(),
        decreases ids.len() - end,
    {
        sink(ids, end);
        end = end + 1;
    }
    proof {
        assert(ids@.take(ids@.len() as int) =~= ids@);
    }
}

/// Moves the number behind an ascending part to its place in it.
fn sink(ids: &mut Vec<i64>, end: usize)
    requires
        end < old(ids)@.len(),
        ascending(old(ids)@.take(end as int)),
    ensures
        final(ids)@.len() == old(ids)@.len(),
        ascending(final(ids)@.take(end + 1)),
        final(ids)@.to_multiset() == old(ids)@.to_multiset(),
{
    let ghost before = ids@;
    let mut at: usize = end;
    proof {
        assert forall|i: int, j: int| 0 <= i <= j < end implies ids@[i] <= ids@[j] by {
            assert(ids@.take(end as int)[i] == ids@[i] && ids@.take(end as int)[j] == ids@[j]);
        }
    }
    while at > 0 && ids[at - 1] > ids[at]
        invariant
            at <= end < ids@.len(),
            ids@.len() == before.len(),
            ids@.to_multiset() == before.to_multiset(),
            forall|i: int, j: int|
                0 <= i <= j <= end && i != at && j != at ==> ids@[i] <= ids@[j],
            forall|j: int| at <= j <= end ==> ids@[at as int] <= ids@[j],
        decreases at,
    {
        let ghost prior = ids@;
        let left: i64 = ids[at - 1];
        let right: i64 = ids[at];
        ids.set(at - 1, right);
        ids.set(at, left);
        proof {
            let swapped = prior.update(at - 1, right).update(at as int, left);
            assert(ids@ =~= swapped);
            broadcast use vstd::seq_lib::group_to_multiset_ensures;

            assert(prior.contains(prior[at - 1]));
            vstd::seq_lib::to_multiset_update(prior, at - 1, right);
            vstd::seq_lib::to_multiset_update(prior.update(at - 1, right), at as int, left);
            assert(ids@.to_multiset() =~= prior.to_multiset());
        }
        at = at - 1;
    }
    proof {
        let sorted = ids@.take(end + 1);
        assert forall|i: int, j: int| 0 <= i <= j < sorted.len() implies sorted[i] <= sorted[j] by {
            assert(sorted[i] == ids@[i] && sorted[j] == ids@[j]);
            if j == at && i < at {
                assert(ids@[i] <= ids@[at - 1]);
            }
        }
    }
}

/// The first numbers of a list in ascending order.
pub open spec fn is_leading(named: Seq<i64>, ids: Seq<i64>) -> bool {
    exists|sorted: Seq<i64>| #[trigger]
        ascending(sorted) && sorted.to_multiset() == ids.to_multiset() && named == sorted.take(
            if sorted.len() < MAX_PERIODIC_TASK_IDS {
                sorted.len() as int
            } else {
                MAX_PERIODIC_TASK_IDS as int
            },
        )
}

fn leading_ids(ids: &Vec<i64>) -> (named: Vec<i64>)
    ensures
        is_leading(named@, ids@),
{
    let mut sorted: Vec<i64> = Vec::new();
    let mut at: usize = 0;
    while at < ids.len()
        invariant
            at <= ids@.len(),
            sorted@ == ids@.take(at as int),
        decreases ids.len() - at,
    {
        sorted.push(ids[at]);
        at = at + 1;
        proof {
            assert(sorted@ =~= ids@.take(at as int));
        }
    }
    proof {
        assert(ids@.take(ids@.len() as int) =~= ids@);
    }
    sort(&mut sorted);
    let ghost all = sorted@;
    let keep: usize = if sorted.len() < MAX_PERIODIC_TASK_IDS {
        sorted.len()
    } else {
        MAX_PERIODIC_TASK_IDS
    };
    let mut named: Vec<i64> = Vec::new();
    let mut next: usize = 0;
    while next < keep
        invariant
            next <= keep <= sorted@.len(),
            named@ == sorted@.take(next as int),
        decreases keep - next,
    {
        named.push(sorted[next]);
        next = next + 1;
        proof {
            assert(named@ =~= sorted@.take(next as int));
        }
    }
    proof {
        assert(ascending(all));
    }
    named
}

// ---------------------------------------------------------------------------
// The plan
// ---------------------------------------------------------------------------
/// The numbers as a list.
pub open spec fn id_list(ids: Seq<i64>) -> JsonTree {
    JsonTree::List(Seq::new(ids.len(), |i: int| JsonTree::Int(ids[i] as int)))
}

fn id_values(ids: &Vec<i64>) -> (json: Json)
    ensures
        json@ == id_list(ids@),
{
    let mut items: Vec<Json> = Vec::new();
    let mut at: usize = 0;
    while at < ids.len()
        invariant
            at <= ids@.len(),
            items@.len() == at,
            forall|i: int| 0 <= i < at ==> (#[trigger] items@[i])@ == JsonTree::Int(ids@[i] as int),
        decreases ids.len() - at,
    {
        items.push(Json::Int(ids[at]));
        at = at + 1;
    }
    let json = Json::List(items);
    proof {
        assert(json@->List_0 =~= id_list(ids@)->List_0);
    }
    json
}

pub open spec fn check_payload(ids: Seq<i64>, count: int, now: int) -> JsonTree {
    JsonTree::Record(
        Map::<Seq<char>, JsonTree>::empty().insert("source"@, JsonTree::Text("periodic"@)).insert(
            "task_ids"@,
            id_list(ids),
        ).insert("task_count"@, JsonTree::Int(count)).insert("scheduled_at"@, JsonTree::Int(now)),
    )
}

/// What is known of a project apart from its tasks.
#[derive(Debug, Clone, Copy, PartialEq, Eq)]
pub struct ProjectFacts {
    pub interval_minutes: u32,
    pub last_scheduled_at: Option<i64>,
    pub has_active_agent: bool,
    pub has_open_event: bool,
}

/// What is asked about a project.
pub open spec fn is_input_of(
    input: DeepCheckScheduleInput,
    project: Project,
    facts: ProjectFacts,
    tasks: Seq<PueueTask>,
    now: i64,
) -> bool {
    &&& input.interval_minutes == facts.interval_minutes
    &&& input.now == now
    &&& as_int(input.oldest_running_task_started_at) == oldest_start(
        tasks,
        project.pueue_group@,
        now as int,
    )
    &&& input.last_scheduled_at == facts.last_scheduled_at
    &&& input.project_active == (!project.paused && project.halted_reason is None)
    &&& input.has_running_task == (running_ids(tasks, project.pueue_group@).len() > 0)
    &&& input.has_active_agent == facts.has_active_agent
    &&& input.has_open_event == facts.has_open_event
}

impl PeriodicDeepCheckScheduler {
    pub fn new(now: i64) -> (scheduler: Self)
        ensures
            scheduler.now == now,
    {
        PeriodicDeepCheckScheduler { now }
    }

    /// Plans the deep check of a project: the event, once for each interval, if
    /// the project is due.
    pub fn schedule(&self, project: &Project, facts: &ProjectFacts, tasks: &[PueueTask]) -> (event:
        Option<NewEvent>)
        ensures
            exists|input: DeepCheckScheduleInput| #[trigger]
                is_input_of(input, *project, *facts, tasks@, self.now) && match event {
                    None => !is_due(input),
                    Some(e) => {
                        &&& is_due(input)
                        &&& e.project_id@ == project.project_id@
                        &&& e.kind == EventKind::DeepCheck
                        &&& e.dedup_key@ == "periodic-deep-check:v1:"@ + decimal(
                            self.now as int / at_least_one(facts.interval_minutes * 60),
                        )
                        &&& exists|named: Seq<i64>| #[trigger]
                            is_leading(named, running_ids(tasks@, project.pueue_group@))
                                && e.payload@ == check_payload(
                                named,
                                running_ids(tasks@, project.pueue_group@).len() as int,
                                self.now as int,
                            )
                        &&& e.not_before == self.now
                        &&& e.created_at == self.now
                    },
                },
    {
        let running = running_tasks(tasks, project.pueue_group.as_str(), self.now);
        let input = DeepCheckScheduleInput {
            interval_minutes: facts.interval_minutes,
            now: self.now,
            oldest_running_task_started_at: running.oldest_started_at,
            last_scheduled_at: facts.last_scheduled_at,
            project_active: !project.paused && project.halted_reason.is_none(),
            has_running_task: running.ids.len() > 0,
            has_active_agent: facts.has_active_agent,
            has_open_event: facts.has_open_event,
        };
        proof {
            assert(is_input_of(input, *project, *facts, tasks@, self.now));
        }
        if !should_schedule_deep_check(&input) {
            return None;
        }
        let named = leading_ids(&running.ids);
        let interval_seconds: i64 = facts.interval_minutes as i64 * 60;
        let mut key = chars_of("periodic-deep-check:v1:");
        append_int(&mut key, periodic_bucket(self.now, interval_seconds));
        let mut members: Vec<Member> = Vec::new();
        put(&mut members, "source", text_value("periodic"));
        put(&mut members, "task_ids", id_values(&named));
        put(&mut members, "task_count", Json::Unsigned(running.ids.len() as u64));
        put(&mut members, "scheduled_at", Json::Int(self.now));
        let event = NewEvent::new(
            project.project_id.clone(),
            EventKind::DeepCheck,
            string_of(key.as_slice()),
            Json::Record(members),
            self.now,
            self.now,
        );
        Some(event)
    }
}

/// A check is due exactly where it is wanted, the project goes on, a task runs,
/// no agent and no open event is in the way, and the interval has passed: since
/// the last check, or else since the oldest running task started.
pub proof fn lemma_when_a_check_is_due(input: DeepCheckScheduleInput)
    ensures
        is_due(input) <==> {
            &&& input.interval_minutes > 0
            &&& input.project_active
            &&& input.has_running_task
            &&& !input.has_active_agent
            &&& !input.has_open_event
            &&& match input.last_scheduled_at {
                Some(at) => input.now - at >= 60 * input.interval_minutes,
                None => match input.oldest_running_task_started_at {
                    Some(at) => input.now - at >= 60 * input.interval_minutes,
                    None => false,
                },
            }
        },
{
}

/// The running tasks of a group are listed in their order, and the oldest of
/// them counts; one whose start cannot be read counts as started now.
pub proof fn lemma_running_tasks_are_found(
    tasks: Seq<PueueTask>,
    task: PueueTask,
    group: Seq<char>,
    now: int,
)
    ensures
        ({
            let runs = task.group@ == group && crate::text::lowered(task.state@) == "running"@;
            let before = oldest_start(tasks, group, now);
            let after = oldest_start(tasks.push(task), group, now);
            let start = match task.started_at {
                Some(text) => match crate::timestamps::instant_of(text@) {
                    Some(at) => at,
                    None => now,
                },
                None => now,
            };
            &&& running_ids(Seq::empty(), group).len() == 0
            &&& oldest_start(Seq::empty(), group, now) is None
            &&& running_ids(tasks.push(task), group) == if runs {
                running_ids(tasks, group).push(task.id)
            } else {
                running_ids(tasks, group)
            }
            &&& !runs ==> after == before
            &&& runs ==> after is Some && after->0 <= start && (before is Some ==> after->0
                <= before->0) && (after->0 == start || after == before)
        }),
{
    assert(tasks.push(task).drop_last() =~= tasks);
}

/// The check names at most 64 tasks, those with the smallest numbers, in order,
/// and counts all.
pub proof fn lemma_named_tasks(named: Seq<i64>, ids: Seq<i64>, count: int, now: int)
    requires
        is_leading(named, ids),
    ensures
        named.len() == if ids.len() < 64 {
            ids.len()
        } else {
            64
        },
        forall|i: int, j: int| 0 <= i <= j < named.len() ==> named[i] <= named[j],
        forall|i: int| 0 <= i < named.len() ==> ids.contains(#[trigger] named[i]),
        field(check_payload(named, count, now), "source"@) == Some(JsonTree::Text("periodic"@)),
        field(check_payload(named, count, now), "task_count"@) == Some(JsonTree::Int(count)),
        field(check_payload(named, count, now), "scheduled_at"@) == Some(JsonTree::Int(now)),
        field(check_payload(named, count, now), "task_ids"@) matches Some(JsonTree::List(items))
            && items.len() == named.len() && forall|i: int|
            0 <= i < named.len() ==> (#[trigger] items[i]) == JsonTree::Int(named[i] as int),
{
    reveal_strlit("source");
    reveal_strlit("task_ids");
    reveal_strlit("task_count");
    reveal_strlit("scheduled_at");
    assert("source"@.len() == 6);
    assert("task_ids"@.len() == 8);
    assert("task_count"@.len() == 10);
    assert("scheduled_at"@.len() == 12);
    broadcast use vstd::seq_lib::group_to_multiset_ensures;

    let sorted = choose|sorted: Seq<i64>| #[trigger]
        ascending(sorted) && sorted.to_multiset() == ids.to_multiset() && named == sorted.take(
            if sorted.len() < MAX_PERIODIC_TASK_IDS {
                sorted.len() as int
            } else {
                MAX_PERIODIC_TASK_IDS as int
            },
        );
    assert(sorted.len() == sorted.to_multiset().len());
    assert(ids.len() == ids.to_multiset().len());
    assert forall|i: int| 0 <= i < named.len() implies ids.contains(#[trigger] named[i]) by {
        assert(named[i] == sorted[i]);
        assert(sorted.contains(sorted[i]));
        assert(sorted.to_multiset().count(sorted[i]) > 0);
        assert(ids.to_multiset().count(sorted[i]) > 0);
    }
}

/// What a check is decided by: the interval and the facts of the project, and the
/// running tasks of its group.
pub proof fn lemma_what_a_check_is_decided_by(
    input: DeepCheckScheduleInput,
    project: Project,
    facts: ProjectFacts,
    tasks: Seq<PueueTask>,
    now: i64,
)
    requires
        is_input_of(input, project, facts, tasks, now),
    ensures
        input.interval_minutes == facts.interval_minutes,
        input.now == now,
        input.last_scheduled_at == facts.last_scheduled_at,
        input.has_active_agent == facts.has_active_agent,
        input.has_open_event == facts.has_open_event,
        input.project_active <==> !project.paused && project.halted_reason is None,
        input.has_running_task <==> running_ids(tasks, project.pueue_group@).len() > 0,
        input.oldest_running_task_started_at matches Some(at) ==> oldest_start(
            tasks,
            project.pueue_group@,
            now as int,
        ) == Some(at as int),
        input.oldest_running_task_started_at is None ==> oldest_start(
            tasks,
            project.pueue_group@,
            now as int,
        ) is None,
{
}

/// An interval of nothing counts as one second.
pub proof fn lemma_shortest_interval(n: int)
    ensures
        n >= 1 ==> at_least_one(n) == n,
        n < 1 ==> at_least_one(n) == 1,
{
}

} // verus!
