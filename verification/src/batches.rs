//! Batches of claimed events: their order, the projects they belong to, and
//! which of them a campaign lets through.

use vstd::prelude::*;
use vstd::string::*;

use crate::error::{invalid, AppError};
use crate::models::{is_validation_error, Campaign, Event};
use crate::promotion::optional_text;
use crate::prompt::deref_campaign;
use crate::states::{CampaignState, EventKind, EventStatus};
use crate::text::{
    chars_of, comes_before, lemma_text_less_irreflexive, lemma_text_less_total,
    lemma_text_less_transitive, same_text, text_less,
};

verus! {

// ---------------------------------------------------------------------------
// Kinds
// ---------------------------------------------------------------------------
/// How urgent an event is; lower numbers come first.
pub open spec fn priority_of(kind: EventKind) -> int {
    match kind {
        EventKind::Crash | EventKind::TaskFailed | EventKind::AutoKilled
        | EventKind::TerminationFailed => 0,
        EventKind::Stalled => 1,
        EventKind::CampaignDecision => 2,
        EventKind::TaskFinished | EventKind::OperatorWake => 3,
        EventKind::DeepCheck | EventKind::HealthDiagnosis => 4,
        EventKind::CodeChange => 5,
    }
}

pub fn event_priority(kind: EventKind) -> (priority: u8)
    ensures
        priority == priority_of(kind),
{
    match kind {
        EventKind::Crash | EventKind::TaskFailed | EventKind::AutoKilled
        | EventKind::TerminationFailed => 0,
        EventKind::Stalled => 1,
        EventKind::CampaignDecision => 2,
        EventKind::TaskFinished | EventKind::OperatorWake => 3,
        EventKind::DeepCheck | EventKind::HealthDiagnosis => 4,
        EventKind::CodeChange => 5,
    }
}

/// The mode of an agent run that an event of this kind starts outside the
/// decision cycle of a campaign.
pub open spec fn dispatch_mode(kind: EventKind) -> Option<Seq<char>> {
    match kind {
        EventKind::Crash | EventKind::AutoKilled | EventKind::TerminationFailed => Some("crash"@),
        EventKind::TaskFailed => Some("failure"@),
        EventKind::Stalled => Some("stalled"@),
        EventKind::TaskFinished => Some("completion"@),
        EventKind::OperatorWake => Some("operator_wake"@),
        EventKind::DeepCheck => Some("deep_check"@),
        EventKind::CampaignDecision | EventKind::HealthDiagnosis | EventKind::CodeChange => None,
    }
}

pub fn legacy_dispatch_mode(kind: EventKind) -> (mode: Option<&'static str>)
    ensures
        match mode {
            Some(text) => dispatch_mode(kind) == Some(text@),
            None => dispatch_mode(kind) is None,
        },
{
    match kind {
        EventKind::Crash | EventKind::AutoKilled | EventKind::TerminationFailed => Some("crash"),
        EventKind::TaskFailed => Some("failure"),
        EventKind::Stalled => Some("stalled"),
        EventKind::TaskFinished => Some("completion"),
        EventKind::OperatorWake => Some("operator_wake"),
        EventKind::CampaignDecision | EventKind::HealthDiagnosis | EventKind::CodeChange => None,
        EventKind::DeepCheck => Some("deep_check"),
    }
}

// ---------------------------------------------------------------------------
// Order
// ---------------------------------------------------------------------------
/// An event comes strictly before another: by priority, then by identifier.
pub open spec fn precedes(a: Event, b: Event) -> bool {
    priority_of(a.kind) < priority_of(b.kind) || (priority_of(a.kind) == priority_of(b.kind)
        && a.event_id < b.event_id)
}

/// Where an event goes among events in order: behind those that it does not
/// precede.
pub open spec fn insertion_point(sorted: Seq<Event>, event: Event) -> int
    decreases sorted.len(),
{
    if sorted.len() > 0 && precedes(event, sorted.last()) {
        insertion_point(sorted.drop_last(), event)
    } else {
        sorted.len() as int
    }
}

/// The events in order; equal ones stay as they were.
pub open spec fn ordered(events: Seq<Event>) -> Seq<Event>
    decreases events.len(),
{
    if events.len() == 0 {
        events
    } else {
        let rest = ordered(events.drop_last());
        rest.insert(insertion_point(rest, events.last()), events.last())
    }
}

pub open spec fn is_ordered(events: Seq<Event>) -> bool {
    forall|i: int, j: int|
        0 <= i < j < events.len() ==> !precedes(#[trigger] events[j], #[trigger] events[i])
}

proof fn lemma_insertion_point(sorted: Seq<Event>, event: Event)
    requires
        is_ordered(sorted),
    ensures
        0 <= insertion_point(sorted, event) <= sorted.len(),
        forall|i: int|
            insertion_point(sorted, event) <= i < sorted.len() ==> precedes(event, #[trigger] sorted[i]),
        forall|i: int|
            0 <= i < insertion_point(sorted, event) ==> !precedes(event, #[trigger] sorted[i]),
    decreases sorted.len(),
{
    if sorted.len() > 0 && precedes(event, sorted.last()) {
        let head = sorted.drop_last();
        assert forall|i: int, j: int| 0 <= i < j < head.len() implies !precedes(
            #[trigger] head[j],
            #[trigger] head[i],
        ) by {
            assert(head[i] == sorted[i] && head[j] == sorted[j]);
        }
        lemma_insertion_point(head, event);
        let at = insertion_point(head, event);
        assert forall|i: int| at <= i < sorted.len() implies precedes(event, #[trigger] sorted[i]) by {
            if i < head.len() {
                assert(head[i] == sorted[i]);
            }
        }
        assert forall|i: int| 0 <= i < at implies !precedes(event, #[trigger] sorted[i]) by {
            assert(head[i] == sorted[i]);
        }
    } else if sorted.len() > 0 {
        assert forall|i: int| 0 <= i < sorted.len() implies !precedes(event, #[trigger] sorted[i]) by {
            if i < sorted.len() - 1 {
                assert(!precedes(sorted[sorted.len() - 1], sorted[i]));
            }
        }
    }
}

/// Putting events in order keeps every event and leaves none before an event
/// that precedes it.
pub proof fn lemma_ordered(events: Seq<Event>)
    ensures
        is_ordered(ordered(events)),
        ordered(events).len() == events.len(),
        ordered(events).to_multiset() == events.to_multiset(),
    decreases events.len(),
{
    broadcast use vstd::seq_lib::group_to_multiset_ensures;

    if events.len() > 0 {
        let head = events.drop_last();
        let event = events.last();
        let rest = ordered(head);
        lemma_ordered(head);
        lemma_insertion_point(rest, event);
        let at = insertion_point(rest, event);
        let all = rest.insert(at, event);
        assert(ordered(events) == all);
        assert forall|i: int, j: int| 0 <= i < j < all.len() implies !precedes(
            #[trigger] all[j],
            #[trigger] all[i],
        ) by {
            let before = |k: int| if k < at { k } else { k - 1 };
            if i != at && j != at {
                assert(all[i] == rest[before(i)] && all[j] == rest[before(j)]);
                assert(!precedes(rest[before(j)], rest[before(i)]));
            } else if i == at {
                assert(all[j] == rest[j - 1]);
                assert(precedes(event, rest[j - 1]));
            } else {
                assert(all[i] == rest[i]);
                assert(!precedes(event, rest[i]));
            }
        }
        assert(events =~= head.push(event));
        assert(all.to_multiset() =~= rest.to_multiset().insert(event));
    } else {
        assert(ordered(events) =~= events);
    }
}

/// Puts events in the order in which they are to be handled.
pub fn order_events(events: Vec<Event>) -> (sorted: Vec<Event>)
    ensures
        sorted@ == ordered(events@),
        sorted@.len() == events@.len(),
{
    let ghost all = events@;
    let mut rest = events;
    let mut sorted: Vec<Event> = Vec::new();
    let ghost mut done: int = 0;
    proof {
        assert(all.take(0) =~= Seq::<Event>::empty());
        assert(all.skip(0) =~= all);
    }
    while rest.len() > 0
        invariant
            0 <= done <= all.len(),
            rest@ == all.skip(done),
            sorted@ == ordered(all.take(done)),
        decreases rest@.len(),
    {
        let event = rest.remove(0);
        proof {
            assert(event == all[done]);
            assert(rest@ =~= all.skip(done + 1));
            assert(all.take(done + 1).drop_last() =~= all.take(done));
            assert(all.take(done + 1).last() == event);
            lemma_ordered(all.take(done));
            lemma_insertion_point(sorted@, event);
            assert(sorted@.take(sorted@.len() as int) =~= sorted@);
        }
        let mut at: usize = sorted.len();
        while at > 0 && comes_first(&event, &sorted[at - 1])
            invariant
                at <= sorted@.len(),
                insertion_point(sorted@, event) == insertion_point(sorted@.take(at as int), event),
            decreases at,
        {
            proof {
                assert(sorted@.take(at as int).drop_last() =~= sorted@.take(at - 1));
                assert(sorted@.take(at as int).last() == sorted@[at - 1]);
            }
            at = at - 1;
        }
        proof {
            if at > 0 {
                assert(sorted@.take(at as int).last() == sorted@[at - 1]);
            }
            assert(insertion_point(sorted@, event) == at);
            done = done + 1;
        }
        sorted.insert(at, event);
    }
    proof {
        assert(all.take(all.len() as int) =~= all);
        lemma_ordered(all);
    }
    sorted
}

fn comes_first(a: &Event, b: &Event) -> (yes: bool)
    ensures
        yes == precedes(*a, *b),
{
    let first: u8 = event_priority(a.kind);
    let second: u8 = event_priority(b.kind);
    first < second || (first == second && a.event_id < b.event_id)
}

pub open spec fn ids_of(events: Seq<Event>) -> Seq<i64> {
    Seq::new(events.len(), |i: int| events[i].event_id)
}

/// The identifiers of events.
pub fn event_ids(events: &[Event]) -> (ids: Vec<i64>)
    ensures
        ids@ == ids_of(events@),
{
    let mut ids: Vec<i64> = Vec::new();
    let mut at: usize = 0;
    while at < events.len()
        invariant
            at <= events@.len(),
            ids@ == ids_of(events@).take(at as int),
        decreases events.len() - at,
    {
        ids.push(events[at].event_id);
        at = at + 1;
        proof {
            assert(ids_of(events@).take(at as int) =~= ids_of(events@).take(at - 1).push(
                events@[at - 1].event_id,
            ));
        }
    }
    proof {
        assert(ids_of(events@).take(events@.len() as int) =~= ids_of(events@));
    }
    ids
}

// ---------------------------------------------------------------------------
// Projects
// ---------------------------------------------------------------------------
/// The events of one project, in the order in which they were claimed.
#[derive(Debug)]
pub struct ProjectBatch {
    pub project_id: String,
    pub events: Vec<Event>,
}

/// The events that belong to a project.
pub open spec fn of_project(events: Seq<Event>, project_id: Seq<char>) -> Seq<Event>
    decreases events.len(),
{
    if events.len() == 0 {
        events
    } else {
        let rest = of_project(events.drop_last(), project_id);
        if events.last().project_id@ == project_id {
            rest.push(events.last())
        } else {
            rest
        }
    }
}

/// Every project with events has one batch, the batches come in the order of
/// the projects' identifiers, and each holds the events of its project.
pub open spec fn is_grouping(batches: Seq<ProjectBatch>, events: Seq<Event>) -> bool {
    &&& forall|i: int, j: int|
        0 <= i < j < batches.len() ==> text_less(
            #[trigger] batches[i].project_id@,
            #[trigger] batches[j].project_id@,
        )
    &&& forall|i: int|
        0 <= i < batches.len() ==> (#[trigger] batches[i]).events@.len() > 0
            && batches[i].events@ == of_project(events, batches[i].project_id@)
    &&& forall|k: int|
        0 <= k < events.len() ==> exists|i: int|
            0 <= i < batches.len() && (#[trigger] batches[i]).project_id@
                == (#[trigger] events[k]).project_id@
}

proof fn lemma_no_events_without_batch(events: Seq<Event>, project_id: Seq<char>)
    requires
        forall|k: int| 0 <= k < events.len() ==> (#[trigger] events[k]).project_id@ != project_id,
    ensures
        of_project(events, project_id).len() == 0,
    decreases events.len(),
{
    if events.len() > 0 {
        lemma_no_events_without_batch(events.drop_last(), project_id);
    }
}

/// Sorts events by the project they belong to.
pub fn group_by_project(events: Vec<Event>) -> (batches: Vec<ProjectBatch>)
    ensures
        is_grouping(batches@, events@),
{
    let ghost all = events@;
    let mut rest = events;
    let mut batches: Vec<ProjectBatch> = Vec::new();
    let ghost mut done: int = 0;
    proof {
        assert(all.skip(0) =~= all);
    }
    while rest.len() > 0
        invariant
            0 <= done <= all.len(),
            rest@ == all.skip(done),
            is_grouping(batches@, all.take(done)),
        decreases rest@.len(),
    {
        let event = rest.remove(0);
        proof {
            assert(event == all[done]);
            assert(rest@ =~= all.skip(done + 1));
        }
        let ghost before = batches@;
        file_event(&mut batches, event, Ghost(all.take(done)));
        proof {
            assert(all.take(done + 1) =~= all.take(done).push(event));
            done = done + 1;
        }
    }
    proof {
        assert(all.take(all.len() as int) =~= all);
    }
    batches
}

/// Puts one more event into the batch of its project.
fn file_event(batches: &mut Vec<ProjectBatch>, event: Event, Ghost(filed): Ghost<Seq<Event>>)
    requires
        is_grouping(old(batches)@, filed),
    ensures
        is_grouping(final(batches)@, filed.push(event)),
{
    let ghost before = batches@;
    let ghost now = filed.push(event);
    let ghost id = event.project_id@;
    let wanted = chars_of(event.project_id.as_str());
    let mut at: usize = 0;
    let mut go_on = true;
    while go_on && at < batches.len()
        invariant
            at <= batches@.len(),
            batches@ == before,
            wanted@ == id,
            forall|i: int| 0 <= i < at ==> text_less(#[trigger] before[i].project_id@, id),
            !go_on ==> at < batches@.len() && !text_less(before[at as int].project_id@, id),
        decreases batches.len() - at, go_on as int,
    {
        let here = chars_of(batches[at].project_id.as_str());
        if comes_before(here.as_slice(), wanted.as_slice()) {
            at = at + 1;
        } else {
            go_on = false;
        }
    }
    proof {
        assert(now.drop_last() =~= filed);
        assert(forall|p: Seq<char>|
            p != id ==> #[trigger] of_project(now, p) == of_project(filed, p));
        assert(of_project(now, id) == of_project(filed, id).push(event));
        assert forall|k: int| 0 <= k < filed.len() implies now[k] == filed[k] by {}
    }
    if at < batches.len() && same_text(
        batches[at].project_id.as_str(),
        event.project_id.as_str(),
    ) {
        let mut batch = batches.remove(at);
        batch.events.push(event);
        batches.insert(at, batch);
        proof {
            let after = batches@;
            assert(after.len() == before.len());
            assert(forall|i: int|
                0 <= i < after.len() && i != at ==> #[trigger] after[i] == before[i]);
            assert(after[at as int].project_id@ == id);
            assert forall|i: int, j: int| 0 <= i < j < after.len() implies text_less(
                #[trigger] after[i].project_id@,
                #[trigger] after[j].project_id@,
            ) by {
                assert(text_less(before[i].project_id@, before[j].project_id@));
            }
            assert forall|i: int| 0 <= i < after.len() implies (#[trigger] after[i]).events@.len() > 0
                && after[i].events@ == of_project(now, after[i].project_id@) by {
                if i != at {
                    if i < at {
                        assert(text_less(before[i].project_id@, before[at as int].project_id@));
                    } else {
                        assert(text_less(before[at as int].project_id@, before[i].project_id@));
                    }
                    lemma_text_less_irreflexive(id);
                    assert(before[i].project_id@ != id);
                }
            }
            assert forall|k: int| 0 <= k < now.len() implies exists|i: int|
                0 <= i < after.len() && (#[trigger] after[i]).project_id@
                    == (#[trigger] now[k]).project_id@ by {
                if k < filed.len() {
                    let i = choose|i: int|
                        0 <= i < before.len() && (#[trigger] before[i]).project_id@
                            == filed[k].project_id@;
                    assert(after[i].project_id@ == now[k].project_id@);
                } else {
                    assert(after[at as int].project_id@ == now[k].project_id@);
                }
            }
        }
    } else {
        let project_id = event.project_id.clone();
        proof {
            if at < before.len() {
                lemma_text_less_total(before[at as int].project_id@, id);
                assert(text_less(id, before[at as int].project_id@));
            }
            assert forall|i: int| at <= i < before.len() implies text_less(
                id,
                #[trigger] before[i].project_id@,
            ) by {
                if i > at {
                    assert(text_less(before[at as int].project_id@, before[i].project_id@));
                    lemma_text_less_transitive(
                        id,
                        before[at as int].project_id@,
                        before[i].project_id@,
                    );
                }
            }
            lemma_text_less_irreflexive(id);
            assert forall|k: int| 0 <= k < filed.len() implies (#[trigger] filed[k]).project_id@ != id by {
                let i = choose|i: int|
                    0 <= i < before.len() && (#[trigger] before[i]).project_id@
                        == filed[k].project_id@;
                assert(text_less(before[i].project_id@, id) || text_less(id, before[i].project_id@));
            }
            lemma_no_events_without_batch(filed, id);
        }
        let mut own: Vec<Event> = Vec::new();
        own.push(event);
        proof {
            assert(own@ =~= of_project(now, id));
        }
        batches.insert(at, ProjectBatch { project_id, events: own });
        proof {
            let after = batches@;
            let old_place = |i: int| if i < at { i } else { i - 1 };
            assert(after.len() == before.len() + 1);
            assert(after[at as int].project_id@ == id);
            assert(forall|i: int|
                0 <= i < after.len() && i != at ==> #[trigger] after[i] == before[old_place(i)]);
            assert forall|i: int, j: int| 0 <= i < j < after.len() implies text_less(
                #[trigger] after[i].project_id@,
                #[trigger] after[j].project_id@,
            ) by {
                if i != at && j != at {
                    assert(text_less(
                        before[old_place(i)].project_id@,
                        before[old_place(j)].project_id@,
                    ));
                }
            }
            assert forall|i: int| 0 <= i < after.len() implies (#[trigger] after[i]).events@.len() > 0
                && after[i].events@ == of_project(now, after[i].project_id@) by {
                if i != at {
                    let b = before[old_place(i)];
                    assert(text_less(b.project_id@, id) || text_less(id, b.project_id@));
                    assert(b.project_id@ != id);
                }
            }
            assert forall|k: int| 0 <= k < now.len() implies exists|i: int|
                0 <= i < after.len() && (#[trigger] after[i]).project_id@
                    == (#[trigger] now[k]).project_id@ by {
                if k < filed.len() {
                    let i = choose|i: int|
                        0 <= i < before.len() && (#[trigger] before[i]).project_id@
                            == filed[k].project_id@;
                    let new_place = if i < at { i } else { i + 1 };
                    assert(old_place(new_place) == i);
                    assert(after[new_place].project_id@ == now[k].project_id@);
                } else {
                    assert(after[at as int].project_id@ == now[k].project_id@);
                }
            }
        }
    }
}

// ---------------------------------------------------------------------------
// Decisions apart from the rest
// ---------------------------------------------------------------------------
/// An event that is handled in the decision cycle of its campaign.
pub open spec fn is_campaign_work(event: Event) -> bool {
    event.kind is CampaignDecision || event.kind is CodeChange
}

/// The events that start an agent run by themselves.
pub open spec fn legacy_of(events: Seq<Event>) -> Seq<Event>
    decreases events.len(),
{
    if events.len() == 0 {
        events
    } else if is_campaign_work(events.last()) {
        legacy_of(events.drop_last())
    } else {
        legacy_of(events.drop_last()).push(events.last())
    }
}

/// The identifiers of the other events.
pub open spec fn campaign_ids_of(events: Seq<Event>) -> Seq<i64>
    decreases events.len(),
{
    if events.len() == 0 {
        Seq::empty()
    } else if is_campaign_work(events.last()) {
        campaign_ids_of(events.drop_last()).push(events.last().event_id)
    } else {
        campaign_ids_of(events.drop_last())
    }
}

/// Parts the events that start an agent run by themselves from those that
/// belong to the decision cycle of a campaign.
pub fn partition_legacy_events(events: Vec<Event>) -> (parts: (Vec<Event>, Vec<i64>))
    ensures
        parts.0@ == legacy_of(events@),
        parts.1@ == campaign_ids_of(events@),
{
    let ghost all = events@;
    let mut rest = events;
    let mut legacy: Vec<Event> = Vec::new();
    let mut campaign_work: Vec<i64> = Vec::new();
    let ghost mut done: int = 0;
    proof {
        assert(all.skip(0) =~= all);
        assert(legacy@ =~= legacy_of(all.take(0)));
        assert(campaign_work@ =~= campaign_ids_of(all.take(0)));
    }
    while rest.len() > 0
        invariant
            0 <= done <= all.len(),
            rest@ == all.skip(done),
            legacy@ == legacy_of(all.take(done)),
            campaign_work@ == campaign_ids_of(all.take(done)),
        decreases rest@.len(),
    {
        let event = rest.remove(0);
        proof {
            assert(event == all[done]);
            assert(rest@ =~= all.skip(done + 1));
            assert(all.take(done + 1).drop_last() =~= all.take(done));
            assert(all.take(done + 1).last() == event);
            done = done + 1;
        }
        match event.kind {
            EventKind::CampaignDecision | EventKind::CodeChange => {
                campaign_work.push(event.event_id);
            },
            _ => {
                legacy.push(event);
            },
        }
    }
    proof {
        assert(all.take(all.len() as int) =~= all);
    }
    (legacy, campaign_work)
}

/// No event is lost by the partition, and none of the first part belongs to a
/// decision cycle.
pub proof fn lemma_partition_keeps_every_event(events: Seq<Event>)
    ensures
        legacy_of(events).len() + campaign_ids_of(events).len() == events.len(),
        forall|i: int|
            0 <= i < legacy_of(events).len() ==> !is_campaign_work(#[trigger] legacy_of(events)[i]),
        forall|k: int|
            0 <= k < events.len() ==> legacy_of(events).contains(#[trigger] events[k])
                || campaign_ids_of(events).contains(events[k].event_id),
    decreases events.len(),
{
    if events.len() > 0 {
        let head = events.drop_last();
        let last = events.last();
        lemma_partition_keeps_every_event(head);
        assert forall|k: int| 0 <= k < events.len() implies legacy_of(events).contains(
            #[trigger] events[k],
        ) || campaign_ids_of(events).contains(events[k].event_id) by {
            if k < head.len() {
                assert(head[k] == events[k]);
                if legacy_of(head).contains(events[k]) {
                    let i = choose|i: int|
                        0 <= i < legacy_of(head).len() && legacy_of(head)[i] == events[k];
                    assert(legacy_of(events)[i] == events[k]);
                } else {
                    let i = choose|i: int|
                        0 <= i < campaign_ids_of(head).len() && campaign_ids_of(head)[i]
                            == events[k].event_id;
                    assert(campaign_ids_of(events)[i] == events[k].event_id);
                }
            } else if is_campaign_work(last) {
                assert(campaign_ids_of(events)[campaign_ids_of(head).len() as int]
                    == last.event_id);
            } else {
                assert(legacy_of(events)[legacy_of(head).len() as int] == last);
            }
        }
    }
}

// ---------------------------------------------------------------------------
// The admission of a campaign
// ---------------------------------------------------------------------------
/// A change of the state of one claimed event.
#[derive(Debug, Clone, Copy, PartialEq, Eq)]
pub struct EventTransition {
    pub event_id: i64,
    pub status: EventStatus,
    pub not_before: Option<i64>,
    pub reason: &'static str,
}

/// A change of the state of an event as mathematics.
pub struct TransitionView {
    pub event_id: int,
    pub status: EventStatus,
    pub not_before: Option<i64>,
    pub reason: Seq<char>,
}

impl View for EventTransition {
    type V = TransitionView;

    open spec fn view(&self) -> TransitionView {
        TransitionView {
            event_id: self.event_id as int,
            status: self.status,
            not_before: self.not_before,
            reason: self.reason@,
        }
    }
}

pub open spec fn transition_views(transitions: Seq<EventTransition>) -> Seq<TransitionView> {
    Seq::new(transitions.len(), |i: int| transitions[i]@)
}

/// What happens to the events that are of the campaign's own line.
pub enum GateVerdict {
    Pass,
    WaitUntil(i64),
    Defer,
    Invalid(AppError),
}

/// What a campaign does to a batch of events.
pub struct GateOutcome {
    pub transitions: Vec<EventTransition>,
    pub eligible: Vec<Event>,
    pub verdict: GateVerdict,
}

/// Why an event does not belong to the campaign that is live now.
pub open spec fn lineage_error(live: Option<Seq<char>>, own: Option<Seq<char>>) -> Option<Seq<char>> {
    if live == own {
        None
    } else if own is Some {
        Some("campaign_lineage_retired"@)
    } else {
        Some("campaign_lineage_missing"@)
    }
}

pub open spec fn live_id(campaign: Option<Campaign>) -> Option<Seq<char>> {
    match campaign {
        Some(c) => Some(c.campaign_id@),
        None => None,
    }
}

/// The events of the line of the live campaign.
pub open spec fn in_line(events: Seq<Event>, live: Option<Seq<char>>) -> Seq<Event>
    decreases events.len(),
{
    if events.len() == 0 {
        events
    } else {
        let rest = in_line(events.drop_last(), live);
        if lineage_error(live, optional_text(events.last().campaign_id)) is None {
            rest.push(events.last())
        } else {
            rest
        }
    }
}

/// What becomes of an event of another line: a decision is tried again later,
/// anything else is closed.
pub open spec fn out_of_line(event: Event, reason: Seq<char>, decision_retry_at: i64) -> TransitionView {
    TransitionView {
        event_id: event.event_id as int,
        status: if event.kind is CampaignDecision {
            EventStatus::RetryWait
        } else {
            EventStatus::Completed
        },
        not_before: if event.kind is CampaignDecision {
            Some(decision_retry_at)
        } else {
            None
        },
        reason,
    }
}

pub open spec fn gate_transitions(events: Seq<Event>, live: Option<Seq<char>>, decision_retry_at: i64) -> Seq<
    TransitionView,
>
    decreases events.len(),
{
    if events.len() == 0 {
        Seq::empty()
    } else {
        let rest = gate_transitions(events.drop_last(), live, decision_retry_at);
        match lineage_error(live, optional_text(events.last().campaign_id)) {
            Some(reason) => rest.push(out_of_line(events.last(), reason, decision_retry_at)),
            None => rest,
        }
    }
}

pub open spec fn missing_wake_time() -> (Seq<char>, Seq<char>) {
    ("campaign.next_eligible_at"@, "budget-waiting campaign must have a finite wake time"@)
}

/// What the state of the campaign says of the events of its line.
pub open spec fn is_gate_verdict(verdict: GateVerdict, campaign: Option<Campaign>, any_in_line: bool) -> bool {
    match campaign {
        Some(c) => if !any_in_line {
            verdict is Pass
        } else {
            match c.state {
                CampaignState::Active => verdict is Pass,
                CampaignState::BudgetWaiting => match c.next_eligible_at {
                    Some(at) => verdict == GateVerdict::WaitUntil(at),
                    None => verdict matches GateVerdict::Invalid(error) && is_validation_error(
                        error,
                        missing_wake_time(),
                    ),
                },
                _ => verdict is Defer,
            }
        },
        None => verdict is Pass,
    }
}

/// Parts a batch by the line of the live campaign, and says what happens to
/// each part.
pub fn gate_campaign_events(
    campaign: Option<&Campaign>,
    events: Vec<Event>,
    decision_retry_at: i64,
) -> (outcome: GateOutcome)
    ensures
        outcome.eligible@ == in_line(events@, live_id(deref_campaign(campaign))),
        transition_views(outcome.transitions@) == gate_transitions(
            events@,
            live_id(deref_campaign(campaign)),
            decision_retry_at,
        ),
        is_gate_verdict(
            outcome.verdict,
            deref_campaign(campaign),
            outcome.eligible@.len() > 0,
        ),
{
    let ghost live = live_id(deref_campaign(campaign));
    let ghost all = events@;
    let mut rest = events;
    let mut eligible: Vec<Event> = Vec::new();
    let mut transitions: Vec<EventTransition> = Vec::new();
    let ghost mut done: int = 0;
    proof {
        assert(all.skip(0) =~= all);
        assert(eligible@ =~= in_line(all.take(0), live));
        assert(transition_views(transitions@) =~= gate_transitions(
            all.take(0),
            live,
            decision_retry_at,
        ));
    }
    while rest.len() > 0
        invariant
            0 <= done <= all.len(),
            rest@ == all.skip(done),
            live == live_id(deref_campaign(campaign)),
            eligible@ == in_line(all.take(done), live),
            transition_views(transitions@) == gate_transitions(
                all.take(done),
                live,
                decision_retry_at,
            ),
        decreases rest@.len(),
    {
        let event = rest.remove(0);
        proof {
            assert(event == all[done]);
            assert(rest@ =~= all.skip(done + 1));
            assert(all.take(done + 1).drop_last() =~= all.take(done));
            assert(all.take(done + 1).last() == event);
            done = done + 1;
        }
        let own_line = match (campaign, &event.campaign_id) {
            (Some(c), Some(id)) => same_text(id.as_str(), c.campaign_id.as_str()),
            (None, None) => true,
            _ => false,
        };
        if own_line {
            eligible.push(event);
        } else {
            let reason: &'static str = if event.campaign_id.is_some() {
                "campaign_lineage_retired"
            } else {
                "campaign_lineage_missing"
            };
            let (status, not_before) = match event.kind {
                EventKind::CampaignDecision => (EventStatus::RetryWait, Some(decision_retry_at)),
                _ => (EventStatus::Completed, None),
            };
            let ghost before = transitions@;
            let transition = EventTransition { event_id: event.event_id, status, not_before, reason };
            transitions.push(transition);
            proof {
                assert(transition@ == out_of_line(event, reason@, decision_retry_at));
                assert(transition_views(transitions@) =~= transition_views(before).push(
                    transition@,
                ));
            }
        }
    }
    proof {
        assert(all.take(all.len() as int) =~= all);
    }
    let verdict = if eligible.len() == 0 {
        GateVerdict::Pass
    } else {
        match campaign {
            None => GateVerdict::Pass,
            Some(c) => match c.state {
                CampaignState::Active => GateVerdict::Pass,
                CampaignState::BudgetWaiting => match c.next_eligible_at {
                    Some(at) => GateVerdict::WaitUntil(at),
                    None => GateVerdict::Invalid(
                        invalid(
                            "campaign.next_eligible_at",
                            "budget-waiting campaign must have a finite wake time",
                        ),
                    ),
                },
                _ => GateVerdict::Defer,
            },
        }
    };
    GateOutcome { transitions, eligible, verdict }
}

/// Every event of a batch either stays or changes its state, and no decision is
/// closed by the admission.
pub proof fn lemma_gate_keeps_every_event(
    events: Seq<Event>,
    live: Option<Seq<char>>,
    decision_retry_at: i64,
)
    ensures
        in_line(events, live).len() + gate_transitions(events, live, decision_retry_at).len()
            == events.len(),
        forall|i: int|
            0 <= i < in_line(events, live).len() ==> optional_text(
                (#[trigger] in_line(events, live)[i]).campaign_id,
            ) == live,
        forall|k: int|
            0 <= k < events.len() && (#[trigger] events[k]).kind is CampaignDecision && optional_text(
                events[k].campaign_id,
            ) != live ==> exists|i: int|
                0 <= i < gate_transitions(events, live, decision_retry_at).len() && (
                #[trigger] gate_transitions(events, live, decision_retry_at)[i]).event_id
                    == events[k].event_id && gate_transitions(
                    events,
                    live,
                    decision_retry_at,
                )[i].status is RetryWait,
    decreases events.len(),
{
    if events.len() > 0 {
        let head = events.drop_last();
        let last = events.last();
        lemma_gate_keeps_every_event(head, live, decision_retry_at);
        let old_moves = gate_transitions(head, live, decision_retry_at);
        let moves = gate_transitions(events, live, decision_retry_at);
        assert forall|k: int|
            0 <= k < events.len() && (#[trigger] events[k]).kind is CampaignDecision
                && optional_text(events[k].campaign_id) != live implies exists|i: int|
            0 <= i < moves.len() && (#[trigger] moves[i]).event_id == events[k].event_id
                && moves[i].status is RetryWait by {
            if k < head.len() {
                assert(head[k] == events[k]);
                let i = choose|i: int|
                    0 <= i < old_moves.len() && (#[trigger] old_moves[i]).event_id
                        == head[k].event_id && old_moves[i].status is RetryWait;
                assert(moves[i] == old_moves[i]);
            } else {
                assert(moves[old_moves.len() as int].event_id == last.event_id);
            }
        }
    }
}

/// Which events come first: what has failed, then what stands still, then
/// decisions, then what has ended or was asked for, then checks, then changes of
/// code.
pub proof fn lemma_urgency_of_events(kind: EventKind)
    ensures
        (kind is Crash || kind is TaskFailed || kind is AutoKilled || kind is TerminationFailed)
            <==> priority_of(kind) == 0,
        kind is Stalled <==> priority_of(kind) == 1,
        kind is CampaignDecision <==> priority_of(kind) == 2,
        (kind is TaskFinished || kind is OperatorWake) <==> priority_of(kind) == 3,
        (kind is DeepCheck || kind is HealthDiagnosis) <==> priority_of(kind) == 4,
        kind is CodeChange <==> priority_of(kind) == 5,
{
}

/// How an agent is told of what it is started for.
pub proof fn lemma_modes_of_events(kind: EventKind)
    ensures
        (kind is Crash || kind is AutoKilled || kind is TerminationFailed) ==> dispatch_mode(kind)
            == Some("crash"@),
        kind is TaskFailed ==> dispatch_mode(kind) == Some("failure"@),
        kind is Stalled ==> dispatch_mode(kind) == Some("stalled"@),
        kind is TaskFinished ==> dispatch_mode(kind) == Some("completion"@),
        kind is OperatorWake ==> dispatch_mode(kind) == Some("operator_wake"@),
        kind is DeepCheck ==> dispatch_mode(kind) == Some("deep_check"@),
        dispatch_mode(kind) is None <==> kind is CampaignDecision || kind is HealthDiagnosis || kind
            is CodeChange,
{
}

/// One more event goes to the work of the campaign where it is a decision or a
/// change of code, and to the rest otherwise; to the batch of its own project,
/// and to no other; and it is let through only where its lineage is the live
/// one.
pub proof fn lemma_one_more_event(
    events: Seq<Event>,
    event: Event,
    project_id: Seq<char>,
    live: Option<Seq<char>>,
)
    ensures
        ({
            let more = events.push(event);
            let campaign_work = event.kind is CampaignDecision || event.kind is CodeChange;
            &&& legacy_of(more) == if campaign_work {
                legacy_of(events)
            } else {
                legacy_of(events).push(event)
            }
            &&& campaign_ids_of(more) == if campaign_work {
                campaign_ids_of(events).push(event.event_id)
            } else {
                campaign_ids_of(events)
            }
            &&& of_project(more, project_id) == if event.project_id@ == project_id {
                of_project(events, project_id).push(event)
            } else {
                of_project(events, project_id)
            }
            &&& in_line(more, live) == if optional_text(event.campaign_id) == live {
                in_line(events, live).push(event)
            } else {
                in_line(events, live)
            }
        }),
        legacy_of(Seq::empty()).len() == 0,
        campaign_ids_of(Seq::empty()).len() == 0,
        of_project(Seq::empty(), project_id).len() == 0,
        in_line(Seq::empty(), live).len() == 0,
{
    assert(events.push(event).drop_last() =~= events);
}

/// An event out of line is completed, unless it is a decision, which waits; and
/// the reason says whether its lineage is another one or missing.
pub proof fn lemma_event_out_of_line(
    events: Seq<Event>,
    event: Event,
    live: Option<Seq<char>>,
    retry_at: i64,
)
    ensures
        gate_transitions(Seq::empty(), live, retry_at).len() == 0,
        optional_text(event.campaign_id) == live ==> gate_transitions(
            events.push(event),
            live,
            retry_at,
        ) == gate_transitions(events, live, retry_at),
        optional_text(event.campaign_id) != live ==> gate_transitions(
            events.push(event),
            live,
            retry_at,
        ) == gate_transitions(events, live, retry_at).push(
            TransitionView {
                event_id: event.event_id as int,
                status: if event.kind is CampaignDecision {
                    EventStatus::RetryWait
                } else {
                    EventStatus::Completed
                },
                not_before: if event.kind is CampaignDecision {
                    Some(retry_at)
                } else {
                    None
                },
                reason: if event.campaign_id is Some {
                    "campaign_lineage_retired"@
                } else {
                    "campaign_lineage_missing"@
                },
            },
        ),
{
    assert(events.push(event).drop_last() =~= events);
}

/// Events of a campaign pass while it is active, wait for its budget until it
/// wakes, and are put off in every other state; without a live campaign, and
/// without an event in line, nothing is held back.
pub proof fn lemma_gate_follows_the_campaign(verdict: GateVerdict, campaign: Campaign)
    ensures
        is_gate_verdict(verdict, None, true) <==> verdict is Pass,
        is_gate_verdict(verdict, Some(campaign), false) <==> verdict is Pass,
        campaign.state is Active ==> (is_gate_verdict(verdict, Some(campaign), true) <==> verdict
            is Pass),
        campaign.state is BudgetWaiting && campaign.next_eligible_at is Some ==> (is_gate_verdict(
            verdict,
            Some(campaign),
            true,
        ) <==> verdict == GateVerdict::WaitUntil(campaign.next_eligible_at->0)),
        campaign.state is BudgetWaiting && campaign.next_eligible_at is None && is_gate_verdict(
            verdict,
            Some(campaign),
            true,
        ) ==> verdict is Invalid,
        !(campaign.state is Active) && !(campaign.state is BudgetWaiting) ==> (is_gate_verdict(
            verdict,
            Some(campaign),
            true,
        ) <==> verdict is Defer),
{
}

/// Each event stands in the batch of its own project and in no other, in its
/// order; there is one batch for each project, and none is empty.
pub proof fn lemma_events_are_grouped(
    batches: Seq<ProjectBatch>,
    events: Seq<Event>,
    k: int,
    i: int,
    j: int,
)
    requires
        is_grouping(batches, events),
        0 <= k < events.len(),
        0 <= i < batches.len(),
        0 <= j < batches.len(),
    ensures
        batches[i].events@.len() > 0,
        batches[i].events@.contains(events[k]) <==> batches[i].project_id@ == events[k].project_id@,
        batches[i].project_id@ == batches[j].project_id@ ==> i == j,
        exists|b: int|
            0 <= b < batches.len() && (#[trigger] batches[b]).events@.contains(events[k]),
        i < j ==> text_less(batches[i].project_id@, batches[j].project_id@),
{
    let project = batches[i].project_id@;
    assert(batches[i].events@ == of_project(events, project));
    lemma_events_of_a_project(events, project, k);
    let b = choose|b: int|
        0 <= b < batches.len() && (#[trigger] batches[b]).project_id@ == events[k].project_id@;
    assert(batches[b].events@ == of_project(events, batches[b].project_id@));
    lemma_events_of_a_project(events, batches[b].project_id@, k);
    if i != j && batches[i].project_id@ == batches[j].project_id@ {
        crate::text::lemma_text_less_irreflexive(batches[i].project_id@);
    }
}

proof fn lemma_events_of_a_project(events: Seq<Event>, project_id: Seq<char>, k: int)
    requires
        0 <= k < events.len(),
    ensures
        of_project(events, project_id).contains(events[k]) <==> events[k].project_id@ == project_id,
        forall|m: int|
            0 <= m < of_project(events, project_id).len() ==> (#[trigger] of_project(
                events,
                project_id,
            )[m]).project_id@ == project_id,
    decreases events.len(),
{
    let head = events.drop_last();
    let rest = of_project(head, project_id);
    let all = of_project(events, project_id);
    if head.len() > 0 {
        let at = if k < head.len() {
            k
        } else {
            0
        };
        lemma_events_of_a_project(head, project_id, at);
    }
    if k < head.len() {
        assert(head[k] == events[k]);
        if rest.contains(events[k]) {
            let m = choose|m: int| 0 <= m < rest.len() && rest[m] == events[k];
            assert(all[m] == events[k]);
        }
    } else if events[k].project_id@ == project_id {
        assert(all[rest.len() as int] == events[k]);
    }
    assert forall|m: int| 0 <= m < all.len() implies (#[trigger] all[m]).project_id@
        == project_id by {
        if m < rest.len() {
            assert(all[m] == rest[m]);
        }
    }
}

} // verus!
