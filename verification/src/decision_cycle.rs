//! The decision cycle of a campaign: which event is due, what it must carry,
//! and the keys under which its budget is kept.

use vstd::bytes::{
    lemma_auto_spec_u64_to_from_le_bytes, spec_u64_to_le_bytes, u64_to_le_bytes,
};
use vstd::prelude::*;
use vstd::relations::{sorted_by, total_ordering};
use vstd::string::*;
use vstd::utf8::encode_utf8;

use crate::digest::{hex, sha256_hex, sha256_of};
use crate::error::{invalid, AppError};
use crate::json::{
    holds_fields, int_in, name_views, optional_int_in, read_int, read_optional_int, read_text, slot,
    text_field, text_in, widened, Json, JsonTree,
};
use crate::models::{is_validation_error, Event};
use crate::promotion::{is_text, optional_text};
use crate::states::{EventKind, EventStatus};
use crate::text::{append_int, append_text, chars_of, decimal, same_text, string_of};
use crate::wire::push_bytes;

verus! {

// ---------------------------------------------------------------------------
// Keys
// ---------------------------------------------------------------------------
/// An event and how often it was tried.
pub open spec fn identities(events: Seq<Event>) -> Seq<(i64, i64)> {
    Seq::new(events.len(), |i: int| (events[i].event_id, events[i].attempts))
}

pub open spec fn pair_le(a: (i64, i64), b: (i64, i64)) -> bool {
    a.0 < b.0 || (a.0 == b.0 && a.1 <= b.1)
}

pub open spec fn pair_order() -> spec_fn((i64, i64), (i64, i64)) -> bool {
    |a: (i64, i64), b: (i64, i64)| pair_le(a, b)
}

proof fn lemma_pair_order()
    ensures
        total_ordering(pair_order()),
{
}

/// The eight bytes of a number, the lowest first.
pub open spec fn le_bytes(n: i64) -> Seq<u8> {
    spec_u64_to_le_bytes(n as u64)
}

pub open spec fn pairs_bytes(pairs: Seq<(i64, i64)>) -> Seq<u8>
    decreases pairs.len(),
{
    if pairs.len() == 0 {
        Seq::empty()
    } else {
        pairs_bytes(pairs.drop_last()) + le_bytes(pairs.last().0) + le_bytes(pairs.last().1)
    }
}

/// What the key of a batch is the digest of.
pub open spec fn decision_message(events: Seq<Event>) -> Seq<u8> {
    encode_utf8("campaign-agent-decision:v1\0"@) + pairs_bytes(
        identities(events).sort_by(pair_order()),
    )
}

fn push_le(bytes: &mut Vec<u8>, n: i64)
    ensures
        final(bytes)@ == old(bytes)@ + le_bytes(n),
{
    let part = u64_to_le_bytes(n as u64);
    push_bytes(bytes, part.as_slice());
}

/// The identities of events in ascending order.
fn sorted_identities(events: &[Event]) -> (pairs: Vec<(i64, i64)>)
    ensures
        pairs@ == identities(events@).sort_by(pair_order()),
{
    let ghost all = identities(events@);
    let mut pairs: Vec<(i64, i64)> = Vec::new();
    let mut at: usize = 0;
    proof {
        assert(all.take(0) =~= pairs@);
    }
    while at < events.len()
        invariant
            at <= events@.len(),
            all == identities(events@),
            sorted_by(pairs@, pair_order()),
            pairs@.len() == at,
            pairs@.to_multiset() == all.take(at as int).to_multiset(),
        decreases events.len() - at,
    {
        let pair = (events[at].event_id, events[at].attempts);
        let mut place: usize = pairs.len();
        while place > 0 && (pair.0 < pairs[place - 1].0 || (pair.0 == pairs[place - 1].0 && pair.1
            < pairs[place - 1].1))
            invariant
                place <= pairs@.len(),
                forall|i: int| place <= i < pairs@.len() ==> pair_le(pair, #[trigger] pairs@[i]),
            decreases place,
        {
            place = place - 1;
        }
        proof {
            broadcast use vstd::seq_lib::group_to_multiset_ensures;

            let order = pair_order();
            let before = pairs@;
            let after = before.insert(place as int, pair);
            assert forall|i: int| 0 <= i < place implies pair_le(#[trigger] before[i], pair) by {
                if i < place - 1 {
                    assert(order(before[i], before[place - 1]));
                }
            }
            assert forall|i: int, j: int| 0 <= i < j < after.len() implies #[trigger] order(
                after[i],
                after[j],
            ) by {
                let source = |k: int| if k < place { k } else { k - 1 };
                if i != place && j != place {
                    assert(order(before[source(i)], before[source(j)]));
                } else if i == place {
                    assert(pair_le(pair, before[j - 1]));
                } else {
                    assert(pair_le(before[i], pair));
                }
            }
            assert(all.take(at + 1) =~= all.take(at as int).push(pair));
            assert(after.to_multiset() =~= before.to_multiset().insert(pair));
            assert(all.take(at + 1).to_multiset() =~= all.take(at as int).to_multiset().insert(
                pair,
            ));
        }
        pairs.insert(place, pair);
        at = at + 1;
    }
    proof {
        assert(all.take(all.len() as int) =~= all);
        lemma_pair_order();
        all.lemma_sort_by_ensures(pair_order());
        vstd::seq_lib::lemma_sorted_unique(
            pairs@,
            all.sort_by(pair_order()),
            pair_order(),
        );
    }
    pairs
}

/// The key of a batch of events: the digest of their identities in order.
pub fn agent_decision_key(events: &[Event]) -> (key: String)
    ensures
        key@ == hex(sha256_of(decision_message(events@))),
{
    let pairs = sorted_identities(events);
    let mut message: Vec<u8> = Vec::new();
    push_bytes(&mut message, "campaign-agent-decision:v1\0".as_bytes());
    let ghost head = message@;
    proof {
        assert(head =~= encode_utf8("campaign-agent-decision:v1\0"@));
        assert(head + pairs_bytes(pairs@.take(0)) =~= head);
    }
    let mut at: usize = 0;
    while at < pairs.len()
        invariant
            at <= pairs@.len(),
            message@ == head + pairs_bytes(pairs@.take(at as int)),
        decreases pairs.len() - at,
    {
        push_le(&mut message, pairs[at].0);
        push_le(&mut message, pairs[at].1);
        proof {
            assert(pairs@.take(at + 1).drop_last() =~= pairs@.take(at as int));
            assert(pairs@.take(at + 1).last() == pairs@[at as int]);
            assert(message@ =~= head + pairs_bytes(pairs@.take(at + 1)));
        }
        at = at + 1;
    }
    proof {
        assert(pairs@.take(pairs@.len() as int) =~= pairs@);
    }
    sha256_hex(message.as_slice())
}

/// The key of a batch does not depend on the order of its events.
pub proof fn lemma_decision_key_ignores_order(a: Seq<Event>, b: Seq<Event>)
    requires
        identities(a).to_multiset() == identities(b).to_multiset(),
    ensures
        decision_message(a) == decision_message(b),
{
    lemma_pair_order();
    identities(a).lemma_sort_by_ensures(pair_order());
    identities(b).lemma_sort_by_ensures(pair_order());
    vstd::seq_lib::lemma_sorted_unique(
        identities(a).sort_by(pair_order()),
        identities(b).sort_by(pair_order()),
        pair_order(),
    );
}

proof fn lemma_le_bytes(a: i64, b: i64)
    ensures
        le_bytes(a).len() == 8,
        le_bytes(a) == le_bytes(b) ==> a == b,
{
    lemma_auto_spec_u64_to_from_le_bytes();
    assert(a as u64 == b as u64 ==> a == b) by (bit_vector);
}

proof fn lemma_pairs_bytes(a: Seq<(i64, i64)>, b: Seq<(i64, i64)>)
    requires
        pairs_bytes(a) == pairs_bytes(b),
    ensures
        a == b,
    decreases a.len(),
{
    lemma_pairs_len(a);
    lemma_pairs_len(b);
    if a.len() == 0 {
        assert(a =~= b);
    } else {
        let x = a.last();
        let y = b.last();
        let head_a = pairs_bytes(a.drop_last());
        let head_b = pairs_bytes(b.drop_last());
        let n = head_a.len() as int;
        let whole = pairs_bytes(a);
        lemma_pairs_len(a.drop_last());
        lemma_pairs_len(b.drop_last());
        lemma_le_bytes(x.0, y.0);
        lemma_le_bytes(x.1, y.1);
        lemma_le_bytes(y.0, x.0);
        lemma_le_bytes(y.1, x.1);
        assert(head_a =~= whole.subrange(0, n));
        assert(head_b =~= pairs_bytes(b).subrange(0, n));
        assert(le_bytes(x.0) =~= whole.subrange(n, n + 8));
        assert(le_bytes(y.0) =~= pairs_bytes(b).subrange(n, n + 8));
        assert(le_bytes(x.1) =~= whole.subrange(n + 8, n + 16));
        assert(le_bytes(y.1) =~= pairs_bytes(b).subrange(n + 8, n + 16));
        lemma_pairs_bytes(a.drop_last(), b.drop_last());
        assert(a =~= a.drop_last().push(x));
        assert(b =~= b.drop_last().push(y));
    }
}

proof fn lemma_pairs_len(a: Seq<(i64, i64)>)
    ensures
        pairs_bytes(a).len() == 16 * a.len(),
    decreases a.len(),
{
    if a.len() > 0 {
        lemma_pairs_len(a.drop_last());
        lemma_le_bytes(a.last().0, a.last().0);
        lemma_le_bytes(a.last().1, a.last().1);
    }
}

/// Batches with different identities have different messages under their keys.
pub proof fn lemma_decision_message_tells_batches_apart(a: Seq<Event>, b: Seq<Event>)
    requires
        decision_message(a) == decision_message(b),
    ensures
        identities(a).to_multiset() == identities(b).to_multiset(),
{
    let prefix = encode_utf8("campaign-agent-decision:v1\0"@);
    let x = identities(a).sort_by(pair_order());
    let y = identities(b).sort_by(pair_order());
    assert(pairs_bytes(x) =~= decision_message(a).skip(prefix.len() as int));
    assert(pairs_bytes(y) =~= decision_message(b).skip(prefix.len() as int));
    lemma_pairs_bytes(x, y);
    lemma_pair_order();
    identities(a).lemma_sort_by_ensures(pair_order());
    identities(b).lemma_sort_by_ensures(pair_order());
}

/// The key under which the budget of one attempt of a cycle is kept.
pub open spec fn attempt_key(cycle_id: Seq<char>, attempt_number: int) -> Seq<char> {
    "campaign-decision-attempt:v1:"@ + cycle_id + ":"@ + decimal(attempt_number)
}

pub fn decision_attempt_budget_key(cycle_id: &str, attempt_number: i64) -> (key: String)
    ensures
        key@ == attempt_key(cycle_id@, attempt_number as int),
{
    let mut key = chars_of("campaign-decision-attempt:v1:");
    append_text(&mut key, cycle_id);
    append_text(&mut key, ":");
    append_int(&mut key, attempt_number);
    string_of(key.as_slice())
}

// ---------------------------------------------------------------------------
// The payload of a decision
// ---------------------------------------------------------------------------
/// What was observed of the task whose end calls for a decision.
#[derive(Debug, Clone, PartialEq, Eq)]
pub struct DecisionPueueTaskProjection {
    pub task_id: i64,
    pub task_signature: String,
    pub group: String,
    pub state: String,
    pub enqueued_at: Option<i64>,
    pub started_at: Option<i64>,
    pub ended_at: Option<i64>,
    pub exit_code: Option<i32>,
}

/// An observation as mathematics.
pub struct ObservationView {
    pub task_id: int,
    pub task_signature: Seq<char>,
    pub group: Seq<char>,
    pub state: Seq<char>,
    pub enqueued_at: Option<int>,
    pub started_at: Option<int>,
    pub ended_at: Option<int>,
    pub exit_code: Option<int>,
}

impl View for DecisionPueueTaskProjection {
    type V = ObservationView;

    open spec fn view(&self) -> ObservationView {
        ObservationView {
            task_id: self.task_id as int,
            task_signature: self.task_signature@,
            group: self.group@,
            state: self.state@,
            enqueued_at: widened(self.enqueued_at),
            started_at: widened(self.started_at),
            ended_at: widened(self.ended_at),
            exit_code: match self.exit_code {
                Some(code) => Some(code as int),
                None => None,
            },
        }
    }
}

pub open spec fn observation_names() -> Seq<Seq<char>> {
    seq![
        "task_id"@,
        "task_signature"@,
        "group"@,
        "state"@,
        "enqueued_at"@,
        "started_at"@,
        "ended_at"@,
        "exit_code"@,
    ]
}

pub open spec fn payload_names() -> Seq<Seq<char>> {
    seq!["source"@, "cycle_id"@, "source_experiment_id"@, "terminal_observation"@]
}

/// The observation that a value holds, where it holds one.
pub open spec fn observation_of(tree: JsonTree) -> Option<ObservationView> {
    let names = observation_names();
    let low = i64::MIN as int;
    let high = i64::MAX as int;
    let task_id = read_int(slot(tree, names, 0), low, high);
    let task_signature = read_text(slot(tree, names, 1));
    let group = read_text(slot(tree, names, 2));
    let state = read_text(slot(tree, names, 3));
    let enqueued_at = read_optional_int(slot(tree, names, 4), low, high);
    let started_at = read_optional_int(slot(tree, names, 5), low, high);
    let ended_at = read_optional_int(slot(tree, names, 6), low, high);
    let exit_code = read_optional_int(slot(tree, names, 7), i32::MIN as int, i32::MAX as int);
    if holds_fields(tree, names) && task_id is Some && task_signature is Some && group is Some
        && state is Some && enqueued_at is Some && started_at is Some && ended_at is Some
        && exit_code is Some {
        Some(
            ObservationView {
                task_id: task_id->0,
                task_signature: task_signature->0,
                group: group->0,
                state: state->0,
                enqueued_at: enqueued_at->0,
                started_at: started_at->0,
                ended_at: ended_at->0,
                exit_code: exit_code->0,
            },
        )
    } else {
        None
    }
}

/// What a decision event carries.
pub struct DecisionPayloadView {
    pub source: Seq<char>,
    pub cycle_id: Seq<char>,
    pub source_experiment_id: Seq<char>,
    pub observation: ObservationView,
}

/// The payload that a value holds, where it is one of a decision event.
pub open spec fn decision_payload_of(tree: JsonTree) -> Option<DecisionPayloadView> {
    let names = payload_names();
    let source = read_text(slot(tree, names, 0));
    let cycle_id = read_text(slot(tree, names, 1));
    let source_experiment_id = read_text(slot(tree, names, 2));
    let observation = match slot(tree, names, 3) {
        Some(inner) => observation_of(inner),
        None => None,
    };
    if holds_fields(tree, names) && source is Some && cycle_id is Some && source_experiment_id is Some
        && observation is Some {
        Some(
            DecisionPayloadView {
                source: source->0,
                cycle_id: cycle_id->0,
                source_experiment_id: source_experiment_id->0,
                observation: observation->0,
            },
        )
    } else {
        None
    }
}

fn observation_in(json: &Json) -> (found: Option<DecisionPueueTaskProjection>)
    ensures
        match found {
            Some(projection) => observation_of(json@) == Some(projection@),
            None => observation_of(json@) is None,
        },
{
    let names: Vec<&str> = vec![
        "task_id",
        "task_signature",
        "group",
        "state",
        "enqueued_at",
        "started_at",
        "ended_at",
        "exit_code",
    ];
    proof {
        assert(name_views(names@) =~= observation_names());
    }
    if !json.holds(&names) {
        return None;
    }
    let task_id = int_in(json.slot_at(&names, 0), i64::MIN, i64::MAX)?;
    let task_signature = text_in(json.slot_at(&names, 1))?;
    let group = text_in(json.slot_at(&names, 2))?;
    let state = text_in(json.slot_at(&names, 3))?;
    let enqueued_at = optional_int_in(json.slot_at(&names, 4), i64::MIN, i64::MAX)?;
    let started_at = optional_int_in(json.slot_at(&names, 5), i64::MIN, i64::MAX)?;
    let ended_at = optional_int_in(json.slot_at(&names, 6), i64::MIN, i64::MAX)?;
    let code = optional_int_in(json.slot_at(&names, 7), i32::MIN as i64, i32::MAX as i64)?;
    let exit_code = match code {
        Some(n) => Some(n as i32),
        None => None,
    };
    Some(
        DecisionPueueTaskProjection {
            task_id,
            task_signature,
            group,
            state,
            enqueued_at,
            started_at,
            ended_at,
            exit_code,
        },
    )
}

pub open spec fn wrong_projection() -> (Seq<char>, Seq<char>) {
    (
        "campaign_decision"@,
        "must carry the exact terminal experiment and decision cycle projection"@,
    )
}

/// A payload that belongs to the event and to the cycle.
pub open spec fn is_exact_payload(
    payload: DecisionPayloadView,
    experiment_id: Option<Seq<char>>,
    cycle_id: Seq<char>,
) -> bool {
    payload.source == "terminal_experiment"@ && Some(payload.source_experiment_id) == experiment_id
        && payload.cycle_id == cycle_id
}

/// The observation that a decision event carries for the cycle that is due.
pub fn campaign_decision_projection(event: &Event, expected_cycle_id: &str) -> (projection: Result<
    DecisionPueueTaskProjection,
    AppError,
>)
    ensures
        match projection {
            Ok(p) => decision_payload_of(event.payload@) matches Some(payload) && is_exact_payload(
                payload,
                optional_text(event.experiment_id),
                expected_cycle_id@,
            ) && p@ == payload.observation,
            Err(AppError::Serialization { operation }) => decision_payload_of(event.payload@) is None
                && operation@ == "parse campaign decision event projection"@,
            Err(error) => decision_payload_of(event.payload@) matches Some(payload)
                && !is_exact_payload(
                payload,
                optional_text(event.experiment_id),
                expected_cycle_id@,
            ) && is_validation_error(error, wrong_projection()),
        },
{
    let names: Vec<&str> = vec!["source", "cycle_id", "source_experiment_id", "terminal_observation"];
    proof {
        assert(name_views(names@) =~= payload_names());
    }
    let unreadable = "parse campaign decision event projection";
    let payload = &event.payload;
    if !payload.holds(&names) {
        return Err(AppError::Serialization { operation: unreadable });
    }
    let source = text_in(payload.slot_at(&names, 0));
    let cycle_id = text_in(payload.slot_at(&names, 1));
    let experiment_id = text_in(payload.slot_at(&names, 2));
    let observation = match payload.slot_at(&names, 3) {
        Some(inner) => observation_in(inner),
        None => None,
    };
    match (source, cycle_id, experiment_id, observation) {
        (Some(source), Some(cycle_id), Some(experiment_id), Some(observation)) => {
            if !same_text(source.as_str(), "terminal_experiment") || !is_text(
                &event.experiment_id,
                experiment_id.as_str(),
            ) || !same_text(cycle_id.as_str(), expected_cycle_id) {
                return Err(
                    invalid(
                        "campaign_decision",
                        "must carry the exact terminal experiment and decision cycle projection",
                    ),
                );
            }
            Ok(observation)
        },
        _ => Err(AppError::Serialization { operation: unreadable }),
    }
}

// ---------------------------------------------------------------------------
// The event that is due
// ---------------------------------------------------------------------------
/// The oldest cycle of a campaign that waits for a decision.
#[derive(Debug, Clone, PartialEq, Eq)]
pub struct DueCycle {
    pub cycle_id: String,
    pub campaign_id: String,
    pub source_experiment_id: String,
}

/// An event that asks for the decision of a cycle.
pub open spec fn asks_for(event: Event, cycle: DueCycle) -> bool {
    optional_text(event.campaign_id) == Some(cycle.campaign_id@) && optional_text(
        event.experiment_id,
    ) == Some(cycle.source_experiment_id@) && text_field(event.payload@, "cycle_id"@) == Some(
        cycle.cycle_id@,
    )
}

fn payload_names_cycle(event: &Event, cycle_id: &str) -> (yes: bool)
    ensures
        yes == (text_field(event.payload@, "cycle_id"@) == Some(cycle_id@)),
{
    match event.payload.get_text("cycle_id") {
        Some(text) => same_text(text.as_str(), cycle_id),
        None => false,
    }
}

fn concerns_cycle(event: &Event, cycle: &DueCycle) -> (yes: bool)
    ensures
        yes == asks_for(*event, *cycle),
{
    is_text(&event.campaign_id, cycle.campaign_id.as_str()) && is_text(
        &event.experiment_id,
        cycle.source_experiment_id.as_str(),
    ) && payload_names_cycle(event, cycle.cycle_id.as_str())
}

/// The first decision event that asks for the decision of the cycle.
pub fn select_due_event(events: &[Event], cycle: &DueCycle) -> (found: Option<usize>)
    ensures
        match found {
            Some(at) => at < events@.len() && events@[at as int].kind is CampaignDecision && asks_for(
                events@[at as int],
                *cycle,
            ) && forall|i: int|
                0 <= i < at ==> !((#[trigger] events@[i]).kind is CampaignDecision && asks_for(
                    events@[i],
                    *cycle,
                )),
            None => forall|i: int|
                0 <= i < events@.len() ==> !((#[trigger] events@[i]).kind is CampaignDecision
                    && asks_for(events@[i], *cycle)),
        },
{
    let mut at: usize = 0;
    while at < events.len()
        invariant
            at <= events@.len(),
            forall|i: int|
                0 <= i < at ==> !((#[trigger] events@[i]).kind is CampaignDecision && asks_for(
                    events@[i],
                    *cycle,
                )),
        decreases events.len() - at,
    {
        let is_decision = match events[at].kind {
            EventKind::CampaignDecision => true,
            _ => false,
        };
        if is_decision && concerns_cycle(&events[at], cycle) {
            return Some(at);
        }
        at = at + 1;
    }
    None
}

/// Whether an event that was read again is still the claimed one that asks for
/// the decision of the cycle.
pub fn is_still_due(event: &Event, project_id: &str, cycle: &DueCycle) -> (yes: bool)
    ensures
        yes == (event.status is Claimed && event.project_id@ == project_id@ && asks_for(
            *event,
            *cycle,
        )),
{
    let claimed = match event.status {
        EventStatus::Claimed => true,
        _ => false,
    };
    claimed && same_text(event.project_id.as_str(), project_id) && concerns_cycle(event, cycle)
}

/// What is known of the cycle that belongs to a decision event.
#[derive(Debug, Clone, PartialEq, Eq)]
pub struct CycleState {
    pub cycle_id: String,
    pub waiting: bool,
    pub next_wake_at: Option<i64>,
}

/// What happens to an event when no cycle is due.
#[derive(Debug, Clone, Copy, PartialEq, Eq, Structural)]
pub enum UnreadyAction {
    /// The event has gone.
    Skip,
    Defer,
    RetryAt(i64),
}

/// The time at which the cycle of an event wakes, where it waits for one that
/// is still to come.
pub open spec fn wake_time(event: Event, cycle: Option<CycleState>, now: int) -> Option<i64> {
    match cycle {
        Some(c) => if c.waiting && text_field(event.payload@, "cycle_id"@) == Some(c.cycle_id@) {
            match c.next_wake_at {
                Some(at) => if at > now {
                    Some(at)
                } else {
                    None
                },
                None => None,
            }
        } else {
            None
        },
        None => None,
    }
}

/// Whether the cycle of an event has to be looked up.
pub fn needs_cycle(event: &Event) -> (yes: bool)
    ensures
        yes == (event.kind is CampaignDecision && event.campaign_id is Some && event.experiment_id
            is Some),
{
    let is_decision = match event.kind {
        EventKind::CampaignDecision => true,
        _ => false,
    };
    is_decision && event.campaign_id.is_some() && event.experiment_id.is_some()
}

/// What happens to one event of a batch when no cycle is due. A decision event
/// was read again; its cycle is given where it has one.
pub fn defer_unready_campaign_decision(
    event: &Event,
    reloaded: Option<&Event>,
    cycle: Option<&CycleState>,
    now: i64,
) -> (action: UnreadyAction)
    ensures
        action == (if !(event.kind is CampaignDecision) {
            UnreadyAction::Defer
        } else {
            match reloaded {
                None => UnreadyAction::Skip,
                Some(e) => if e.campaign_id is None || e.experiment_id is None {
                    UnreadyAction::Defer
                } else {
                    match wake_time(
                        *e,
                        match cycle {
                            Some(c) => Some(*c),
                            None => None,
                        },
                        now as int,
                    ) {
                        Some(at) => UnreadyAction::RetryAt(at),
                        None => UnreadyAction::Defer,
                    }
                },
            }
        }),
{
    let is_decision = match event.kind {
        EventKind::CampaignDecision => true,
        _ => false,
    };
    if !is_decision {
        return UnreadyAction::Defer;
    }
    match reloaded {
        None => UnreadyAction::Skip,
        Some(e) => {
            if e.campaign_id.is_none() || e.experiment_id.is_none() {
                return UnreadyAction::Defer;
            }
            match cycle {
                Some(c) => {
                    if c.waiting && payload_names_cycle(e, c.cycle_id.as_str()) {
                        match c.next_wake_at {
                            Some(at) => if at > now {
                                UnreadyAction::RetryAt(at)
                            } else {
                                UnreadyAction::Defer
                            },
                            None => UnreadyAction::Defer,
                        }
                    } else {
                        UnreadyAction::Defer
                    }
                },
                None => UnreadyAction::Defer,
            }
        },
    }
}

/// An event asks for a cycle exactly where its campaign, its experiment and the
/// cycle that its payload names are those of the cycle.
pub proof fn lemma_which_event_asks_for_a_cycle(event: Event, cycle: DueCycle)
    ensures
        asks_for(event, cycle) <==> {
            &&& event.campaign_id matches Some(id) && id@ == cycle.campaign_id@
            &&& event.experiment_id matches Some(id) && id@ == cycle.source_experiment_id@
            &&& crate::json::field(event.payload@, "cycle_id"@) == Some(
                JsonTree::Text(cycle.cycle_id@),
            )
        },
{
}

/// A payload is exact where it comes from the end of an experiment and names
/// just the experiment and the cycle that are meant.
pub proof fn lemma_which_payload_is_exact(
    payload: DecisionPayloadView,
    experiment: Seq<char>,
    cycle_id: Seq<char>,
)
    ensures
        is_exact_payload(payload, Some(experiment), cycle_id) <==> payload.source
            == "terminal_experiment"@ && payload.source_experiment_id == experiment
            && payload.cycle_id == cycle_id,
        !is_exact_payload(payload, None, cycle_id),
{
}

/// A decision is put off to the moment at which its own cycle wakes, where that
/// cycle waits and the moment is still to come.
pub proof fn lemma_when_a_decision_wakes(event: Event, cycle: CycleState, now: int, at: i64)
    ensures
        wake_time(event, None, now) is None,
        wake_time(event, Some(cycle), now) == Some(at) <==> {
            &&& cycle.waiting
            &&& crate::json::field(event.payload@, "cycle_id"@) == Some(
                JsonTree::Text(cycle.cycle_id@),
            )
            &&& cycle.next_wake_at == Some(at)
            &&& at > now
        },
{
}

/// The key of an attempt tells attempts of one cycle apart, and cycles with one
/// number of attempts.
pub proof fn lemma_attempt_keys_differ(a: Seq<char>, b: Seq<char>, m: int, n: int)
    requires
        i64::MIN <= m <= i64::MAX,
        i64::MIN <= n <= i64::MAX,
    ensures
        attempt_key(a, m) == attempt_key(a, n) ==> m == n,
        attempt_key(a, m) == attempt_key(b, m) ==> a == b,
{
    let prefix = "campaign-decision-attempt:v1:"@;
    let middle = ":"@;
    if attempt_key(a, m) == attempt_key(a, n) {
        let k = (prefix.len() + a.len() + middle.len()) as int;
        assert(attempt_key(a, m).skip(k) =~= decimal(m));
        assert(attempt_key(a, n).skip(k) =~= decimal(n));
        crate::text::lemma_decimal_reads_back(m);
        crate::text::lemma_decimal_reads_back(n);
    }
    if attempt_key(a, m) == attempt_key(b, m) {
        assert(attempt_key(a, m).len() == prefix.len() + a.len() + middle.len() + decimal(m).len());
        let k = prefix.len() as int;
        assert(attempt_key(a, m).subrange(k, k + a.len()) =~= a);
        assert(attempt_key(b, m).subrange(k, k + b.len()) =~= b);
    }
}

/// What is observed of a task is read only where nothing of it is missing or of
/// another sort: the number, the signature, the group and the state are given,
/// the moments and the exit code are numbers or left out, and there is nothing
/// else.
pub proof fn lemma_which_observations_are_read(map: Map<Seq<char>, JsonTree>, key: Seq<char>)
    ensures
        ({
            let tree = JsonTree::Record(map);
            let found = observation_of(tree);
            let text = key == "task_signature"@ || key == "group"@ || key == "state"@;
            let moment = key == "enqueued_at"@ || key == "started_at"@ || key == "ended_at"@;
            &&& text && !(map.contains_key(key) && map[key] is Text) ==> found is None
            &&& key == "task_id"@ && !(map.contains_key(key) && map[key] is Int) ==> found is None
            &&& (moment || key == "exit_code"@) && map.contains_key(key) && !(map[key] is Int)
                && !(map[key] is Null) ==> found is None
            &&& key == "exit_code"@ && map.contains_key(key) && (map[key] matches JsonTree::Int(n)
                && !(i32::MIN <= n <= i32::MAX)) ==> found is None
            &&& map.contains_key(key) && !text && !moment && key != "task_id"@ && key
                != "exit_code"@ ==> found is None
            &&& found matches Some(o) ==> map["task_id"@] == JsonTree::Int(o.task_id)
                && map["task_signature"@] == JsonTree::Text(o.task_signature) && map["group"@]
                == JsonTree::Text(o.group) && map["state"@] == JsonTree::Text(o.state)
        }),
{
    let names = observation_names();
    assert(names[0] == "task_id"@ && names[1] == "task_signature"@ && names[2] == "group"@
        && names[3] == "state"@ && names[4] == "enqueued_at"@ && names[5] == "started_at"@
        && names[6] == "ended_at"@ && names[7] == "exit_code"@);
    assert(names.len() == 8);
    if names.contains(key) {
        let i = choose|i: int| 0 <= i < names.len() && names[i] == key;
        assert(i == 0 || i == 1 || i == 2 || i == 3 || i == 4 || i == 5 || i == 6 || i == 7);
    }
}

/// A payload is read only where it has its source, its cycle, its experiment and
/// an observation that is read, and nothing else.
pub proof fn lemma_which_payloads_are_read(map: Map<Seq<char>, JsonTree>, key: Seq<char>)
    ensures
        ({
            let found = decision_payload_of(JsonTree::Record(map));
            let text = key == "source"@ || key == "cycle_id"@ || key == "source_experiment_id"@;
            &&& text && !(map.contains_key(key) && map[key] is Text) ==> found is None
            &&& map.contains_key(key) && !text && key != "terminal_observation"@ ==> found is None
            &&& !map.contains_key("terminal_observation"@) ==> found is None
            &&& map.contains_key("terminal_observation"@) && observation_of(
                map["terminal_observation"@],
            ) is None ==> found is None
            &&& found matches Some(p) ==> map["source"@] == JsonTree::Text(p.source)
                && map["cycle_id"@] == JsonTree::Text(p.cycle_id) && map["source_experiment_id"@]
                == JsonTree::Text(p.source_experiment_id) && observation_of(
                map["terminal_observation"@],
            ) == Some(p.observation)
        }),
{
    let names = payload_names();
    assert(names[0] == "source"@ && names[1] == "cycle_id"@ && names[2] == "source_experiment_id"@
        && names[3] == "terminal_observation"@);
    assert(names.len() == 4);
    if names.contains(key) {
        let i = choose|i: int| 0 <= i < names.len() && names[i] == key;
        assert(i == 0 || i == 1 || i == 2 || i == 3);
    }
}

} // verus!
