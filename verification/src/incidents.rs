//! What an observation of trouble does to the incidents of a project.

use vstd::prelude::*;
use vstd::string::*;

use crate::error::AppError;
use crate::json::{field, json_text, optional_tree, put, render, text_value, Json, JsonTree, Member};
use crate::models::{Incident, NewIncident};
use crate::promotion::{copy_optional, optional_text};
use crate::states::{IncidentStatus, IncidentTransition};
use crate::text::{chars_of, same_text, string_of};

verus! {

pub const MAX_REASON_EVIDENCE_CHARS: usize = 1024;

/// Whether trouble was seen or is over.
#[derive(Debug, Clone, Copy, PartialEq, Eq, Structural)]
pub enum ObservationState {
    Active,
    Recovered,
}

/// An observation of trouble.
#[derive(Debug, Clone, PartialEq, Eq)]
pub struct Observation {
    pub project_id: String,
    pub kind: String,
    pub state: ObservationState,
    pub task_key: Option<String>,
    pub task_signature: Option<String>,
    pub fingerprint: String,
    pub seen_at: i64,
    pub pattern_name: Option<String>,
    pub action: String,
    pub confirmation_count: u32,
    pub evidence: String,
    pub source_path: Option<String>,
    /// The observation stands for the end of a task.
    pub task_terminal: bool,
}

/// What an observation leads to.
#[derive(Debug, Clone, PartialEq, Eq)]
pub enum IncidentAction {
    /// The incident is opened or seen again; its task may have to be stopped.
    Raise { incident: NewIncident, termination: Option<TerminationRequest> },
    /// All the incidents of a task are over.
    ResolveTask { project_id: String, task_key: String, at: i64 },
    /// One incident is over.
    ResolveOne { at: i64 },
}

/// Why a task has to be stopped.
#[derive(Debug, Clone, PartialEq, Eq)]
pub struct TerminationRequest {
    pub task_signature: String,
    pub reason: String,
}

/// The beginning of a text.
pub open spec fn beginning(s: Seq<char>) -> Seq<char> {
    if s.len() <= MAX_REASON_EVIDENCE_CHARS {
        s
    } else {
        s.take(MAX_REASON_EVIDENCE_CHARS as int)
    }
}

/// Why a task has to be stopped, with the beginning of the evidence.
pub open spec fn reason_tree(observation: Observation) -> JsonTree {
    JsonTree::Record(
        Map::<Seq<char>, JsonTree>::empty().insert("kind"@, JsonTree::Text(observation.kind@)).insert(
            "pattern_name"@,
            optional_tree(optional_text(observation.pattern_name)),
        ).insert("action"@, JsonTree::Text(observation.action@)).insert(
            "confirmation_count"@,
            JsonTree::Int(observation.confirmation_count as int),
        ).insert("evidence"@, JsonTree::Text(beginning(observation.evidence@))).insert(
            "source_path"@,
            optional_tree(optional_text(observation.source_path)),
        ),
    )
}

fn optional_json(text: &Option<String>) -> (json: Json)
    ensures
        json@ == optional_tree(optional_text(*text)),
{
    match text {
        Some(t) => text_value(t.as_str()),
        None => Json::Null,
    }
}

fn bounded(text: &str) -> (begin: String)
    ensures
        begin@ == beginning(text@),
{
    let all = chars_of(text);
    let mut chars: Vec<char> = Vec::new();
    let mut at: usize = 0;
    while at < all.len() && at < MAX_REASON_EVIDENCE_CHARS
        invariant
            at <= all@.len(),
            at <= MAX_REASON_EVIDENCE_CHARS,
            all@ == text@,
            chars@ == text@.take(at as int),
        decreases all.len() - at,
    {
        chars.push(all[at]);
        at = at + 1;
        proof {
            assert(chars@ =~= text@.take(at as int));
        }
    }
    proof {
        assert(chars@ =~= beginning(text@));
    }
    string_of(chars.as_slice())
}

/// Why a task has to be stopped.
pub fn termination_reason(observation: &Observation) -> (reason: String)
    ensures
        reason@ == json_text(reason_tree(*observation)),
{
    let mut members: Vec<Member> = Vec::new();
    put(&mut members, "kind", text_value(observation.kind.as_str()));
    put(&mut members, "pattern_name", optional_json(&observation.pattern_name));
    put(&mut members, "action", text_value(observation.action.as_str()));
    put(
        &mut members,
        "confirmation_count",
        Json::Unsigned(observation.confirmation_count as u64),
    );
    put(&mut members, "evidence", Json::Text(bounded(observation.evidence.as_str())));
    put(&mut members, "source_path", optional_json(&observation.source_path));
    match render(&Json::Record(members)) {
        Some(text) => text,
        None => String::new(),
    }
}

/// The action that an observation leads to.
pub open spec fn is_action(action: IncidentAction, observation: Observation, should_kill: bool) -> bool {
    match action {
        IncidentAction::Raise { incident, termination } => {
            &&& observation.state is Active
            &&& incident.project_id@ == observation.project_id@
            &&& incident.kind@ == observation.kind@
            &&& optional_text(incident.task_key) == optional_text(observation.task_key)
            &&& incident.fingerprint@ == observation.fingerprint@
            &&& incident.seen_at == observation.seen_at
            &&& match termination {
                Some(request) => should_kill && Some(request.task_signature@) == optional_text(
                    observation.task_signature,
                ) && request.reason@ == json_text(reason_tree(observation)),
                None => !should_kill || observation.task_signature is None,
            }
        },
        IncidentAction::ResolveTask { project_id, task_key, at } => {
            &&& observation.state is Recovered
            &&& observation.task_terminal
            &&& project_id@ == observation.project_id@
            &&& Some(task_key@) == optional_text(observation.task_key)
            &&& at == observation.seen_at
        },
        IncidentAction::ResolveOne { at } => {
            &&& observation.state is Recovered
            &&& !observation.task_terminal
            &&& at == observation.seen_at
        },
    }
}

/// An incident is still going on.
pub open spec fn is_going_on(status: IncidentStatus) -> bool {
    status is Open || status is Acknowledged
}

/// The incident that a recovery is about.
pub open spec fn is_meant(incident: Incident, observation: Observation) -> bool {
    &&& incident.project_id@ == observation.project_id@
    &&& incident.kind@ == observation.kind@
    &&& is_going_on(incident.status)
    &&& match observation.task_key {
        Some(key) => optional_text(incident.task_key) == Some(key@),
        None => incident.task_key is None && incident.fingerprint@ == observation.fingerprint@,
    }
}

/// One incident was seen later than another, or is the newer one of two that
/// were seen at once.
pub open spec fn is_later(a: Incident, b: Incident) -> bool {
    a.last_seen_at > b.last_seen_at || (a.last_seen_at == b.last_seen_at && a.incident_id
        > b.incident_id)
}

fn going_on(status: IncidentStatus) -> (yes: bool)
    ensures
        yes == is_going_on(status),
{
    match status {
        IncidentStatus::Open => true,
        IncidentStatus::Acknowledged => true,
        _ => false,
    }
}

fn has_key(incident: &Incident, key: &str) -> (yes: bool)
    ensures
        yes == (optional_text(incident.task_key) == Some(key@)),
{
    match &incident.task_key {
        Some(own) => same_text(own.as_str(), key),
        None => false,
    }
}

fn meant(incident: &Incident, observation: &Observation) -> (yes: bool)
    ensures
        yes == is_meant(*incident, *observation),
{
    if !same_text(incident.project_id.as_str(), observation.project_id.as_str()) || !same_text(
        incident.kind.as_str(),
        observation.kind.as_str(),
    ) || !going_on(incident.status) {
        return false;
    }
    match &observation.task_key {
        Some(key) => has_key(incident, key.as_str()),
        None => incident.task_key.is_none() && same_text(
            incident.fingerprint.as_str(),
            observation.fingerprint.as_str(),
        ),
    }
}

/// The incidents of a project.
pub struct IncidentStore;

impl IncidentStore {
    pub fn new() -> (store: Self)
        ensures
            store == IncidentStore,
    {
        IncidentStore
    }

    /// Decides what an observation leads to.
    pub fn observe(&self, observation: &Observation, should_kill: bool) -> (action: Result<
        IncidentAction,
        AppError,
    >)
        ensures
            match action {
                Ok(a) => is_action(a, *observation, should_kill),
                Err(error) => observation.state is Recovered && observation.task_terminal
                    && observation.task_key is None && (error matches AppError::Runtime {
                    operation,
                } && operation@ == "resolve terminal task incidents"@),
            },
    {
        match observation.state {
            ObservationState::Active => {
                let termination = match &observation.task_signature {
                    Some(signature) => if should_kill {
                        Some(
                            TerminationRequest {
                                task_signature: signature.clone(),
                                reason: termination_reason(observation),
                            },
                        )
                    } else {
                        None
                    },
                    None => None,
                };
                let incident = NewIncident::new(
                    observation.project_id.clone(),
                    observation.kind.clone(),
                    copy_optional(&observation.task_key),
                    observation.fingerprint.clone(),
                    observation.seen_at,
                );
                Ok(IncidentAction::Raise { incident, termination })
            },
            ObservationState::Recovered => {
                if !observation.task_terminal {
                    return Ok(IncidentAction::ResolveOne { at: observation.seen_at });
                }
                match &observation.task_key {
                    Some(key) => Ok(
                        IncidentAction::ResolveTask {
                            project_id: observation.project_id.clone(),
                            task_key: key.clone(),
                            at: observation.seen_at,
                        },
                    ),
                    None => Err(AppError::Runtime { operation: "resolve terminal task incidents" }),
                }
            },
        }
    }

    /// The incident that a recovery is about: of those that go on, the one that
    /// was seen last.
    pub fn incident_to_resolve(&self, incidents: &[Incident], observation: &Observation) -> (found:
        Option<usize>)
        ensures
            match found {
                Some(i) => i < incidents@.len() && is_meant(incidents@[i as int], *observation)
                    && forall|j: int|
                    0 <= j < incidents@.len() && is_meant(#[trigger] incidents@[j], *observation)
                        ==> !is_later(incidents@[j], incidents@[i as int]),
                None => forall|j: int|
                    0 <= j < incidents@.len() ==> !is_meant(#[trigger] incidents@[j], *observation),
            },
    {
        let mut best: Option<usize> = None;
        let mut at: usize = 0;
        while at < incidents.len()
            invariant
                at <= incidents@.len(),
                incidents.len() == incidents@.len(),
                match best {
                    Some(i) => i < at && is_meant(incidents@[i as int], *observation)
                        && forall|j: int|
                        0 <= j < at && is_meant(#[trigger] incidents@[j], *observation)
                            ==> !is_later(incidents@[j], incidents@[i as int]),
                    None => forall|j: int|
                        0 <= j < at ==> !is_meant(#[trigger] incidents@[j], *observation),
                },
            decreases incidents.len() - at,
        {
            let incident = &incidents[at];
            if meant(incident, observation) {
                best = match best {
                    Some(i) => {
                        let other = &incidents[i];
                        if incident.last_seen_at > other.last_seen_at || (incident.last_seen_at
                            == other.last_seen_at && incident.incident_id > other.incident_id) {
                            Some(at)
                        } else {
                            Some(i)
                        }
                    },
                    None => Some(at),
                };
            }
            at = at + 1;
        }
        best
    }

    /// Ends the incidents of a task that go on; the others stay as they are.
    pub fn resolve_task_incidents(
        &self,
        incidents: &mut Vec<Incident>,
        project_id: &str,
        task_key: &str,
        at: i64,
    ) -> (transition: IncidentTransition)
        ensures
            final(incidents)@.len() == old(incidents)@.len(),
            forall|i: int|
                0 <= i < old(incidents)@.len() ==> #[trigger] final(incidents)@[i]
                    == resolved_incident(old(incidents)@[i], project_id@, task_key@, at),
            transition == (if exists|i: int|
                0 <= i < old(incidents)@.len() && ends_with_task(
                    #[trigger] old(incidents)@[i],
                    project_id@,
                    task_key@,
                ) {
                IncidentTransition::Resolved
            } else {
                IncidentTransition::Unchanged
            }),
    {
        let ghost before = incidents@;
        let mut changed = false;
        let mut next: usize = 0;
        while next < incidents.len()
            invariant
                next <= incidents@.len(),
                incidents@.len() == before.len(),
                forall|i: int| next <= i < before.len() ==> #[trigger] incidents@[i] == before[i],
                forall|i: int|
                    0 <= i < next ==> #[trigger] incidents@[i] == resolved_incident(
                        before[i],
                        project_id@,
                        task_key@,
                        at,
                    ),
                changed == (exists|i: int|
                    0 <= i < next && ends_with_task(#[trigger] before[i], project_id@, task_key@)),
            decreases incidents.len() - next,
        {
            let ghost own = incidents@[next as int];
            proof {
                assert(own == before[next as int]);
            }
            if same_text(incidents[next].project_id.as_str(), project_id) && has_key(
                &incidents[next],
                task_key,
            ) && going_on(incidents[next].status) {
                let incident = &mut incidents[next];
                incident.status = IncidentStatus::Resolved;
                incident.resolved_at = Some(at);
                if incident.last_seen_at < at {
                    incident.last_seen_at = at;
                }
                changed = true;
                proof {
                    assert(ends_with_task(before[next as int], project_id@, task_key@));
                }
            }
            next = next + 1;
        }
        if changed {
            IncidentTransition::Resolved
        } else {
            IncidentTransition::Unchanged
        }
    }
}

/// An incident of the task that goes on.
pub open spec fn ends_with_task(incident: Incident, project_id: Seq<char>, task_key: Seq<char>) -> bool {
    incident.project_id@ == project_id && optional_text(incident.task_key) == Some(task_key)
        && is_going_on(incident.status)
}

/// An incident after the end of a task.
pub open spec fn resolved_incident(
    incident: Incident,
    project_id: Seq<char>,
    task_key: Seq<char>,
    at: i64,
) -> Incident {
    if ends_with_task(incident, project_id, task_key) {
        Incident {
            status: IncidentStatus::Resolved,
            resolved_at: Some(at),
            last_seen_at: if incident.last_seen_at < at {
                at
            } else {
                incident.last_seen_at
            },
            ..incident
        }
    } else {
        incident
    }
}

/// After the end of a task none of its incidents goes on, and a second end
/// changes nothing.
pub proof fn lemma_task_end_settles_incidents(
    incident: Incident,
    project_id: Seq<char>,
    task_key: Seq<char>,
    at: i64,
    again: i64,
)
    ensures
        !ends_with_task(
            resolved_incident(incident, project_id, task_key, at),
            project_id,
            task_key,
        ),
        resolved_incident(
            resolved_incident(incident, project_id, task_key, at),
            project_id,
            task_key,
            again,
        ) == resolved_incident(incident, project_id, task_key, at),
{
}

/// What an observation leads to: while the trouble lasts the incident is raised,
/// with a request to stop the task exactly where that is wanted and the task is
/// known; when it is over, the end of a task ends all its incidents, and any
/// other recovery ends one.
pub proof fn lemma_what_an_observation_leads_to(
    action: IncidentAction,
    observation: Observation,
    should_kill: bool,
)
    requires
        is_action(action, observation, should_kill),
    ensures
        action is Raise <==> observation.state is Active,
        action is ResolveTask <==> observation.state is Recovered && observation.task_terminal,
        action is ResolveOne <==> observation.state is Recovered && !observation.task_terminal,
        action matches IncidentAction::Raise { incident, termination } ==> {
            &&& termination is Some <==> should_kill && observation.task_signature is Some
            &&& termination matches Some(request) ==> request.task_signature@
                == observation.task_signature->0@ && request.reason@ == json_text(
                reason_tree(observation),
            )
            &&& incident.project_id@ == observation.project_id@
            &&& incident.kind@ == observation.kind@
            &&& optional_text(incident.task_key) == optional_text(observation.task_key)
            &&& incident.fingerprint@ == observation.fingerprint@
            &&& incident.seen_at == observation.seen_at
        },
        action matches IncidentAction::ResolveTask { project_id, task_key, at } ==> project_id@
            == observation.project_id@ && observation.task_key is Some && task_key@
            == observation.task_key->0@ && at == observation.seen_at,
        action matches IncidentAction::ResolveOne { at } ==> at == observation.seen_at,
{
}

/// A recovery is meant for an incident that is open or acknowledged, of the same
/// project and the same sort, and of the same task; where no task is known, for
/// one without a task and with the same fingerprint.
pub proof fn lemma_which_incident_is_meant(incident: Incident, observation: Observation)
    ensures
        is_meant(incident, observation) <==> {
            &&& incident.project_id@ == observation.project_id@
            &&& incident.kind@ == observation.kind@
            &&& incident.status is Open || incident.status is Acknowledged
            &&& observation.task_key matches Some(key) ==> (incident.task_key matches Some(own)
                && own@ == key@)
            &&& observation.task_key is None ==> incident.task_key is None
                && incident.fingerprint@ == observation.fingerprint@
        },
{
}

/// Of two incidents the later is the one seen last, and of two seen at once the
/// one recorded last; two incidents with different numbers are never equal.
pub proof fn lemma_incidents_are_in_order(a: Incident, b: Incident, c: Incident)
    ensures
        !is_later(a, a),
        is_later(a, b) ==> !is_later(b, a),
        is_later(a, b) && is_later(b, c) ==> is_later(a, c),
        a.last_seen_at > b.last_seen_at ==> is_later(a, b),
        a.last_seen_at == b.last_seen_at && a.incident_id > b.incident_id ==> is_later(a, b),
        a.incident_id != b.incident_id ==> is_later(a, b) || is_later(b, a),
{
}

/// The end of a task resolves its open and acknowledged incidents and touches no
/// other; nothing but the state and the moments changes.
pub proof fn lemma_what_the_end_of_a_task_resolves(
    incident: Incident,
    project_id: Seq<char>,
    task_key: Seq<char>,
    at: i64,
)
    ensures
        ({
            let after = resolved_incident(incident, project_id, task_key, at);
            let own = incident.project_id@ == project_id && (incident.task_key matches Some(key)
                && key@ == task_key) && (incident.status is Open || incident.status
                is Acknowledged);
            &&& !own ==> after == incident
            &&& own ==> after.status is Resolved && after.resolved_at == Some(at)
                && after.last_seen_at >= at && after.last_seen_at >= incident.last_seen_at && (
            after.last_seen_at == at || after.last_seen_at == incident.last_seen_at)
            &&& own ==> after == (Incident {
                status: after.status,
                resolved_at: after.resolved_at,
                last_seen_at: after.last_seen_at,
                ..incident
            })
        }),
{
}

/// The reason for stopping a task tells what was observed, with at most 1024
/// characters of the evidence.
pub proof fn lemma_reason_tells_the_observation(observation: Observation)
    ensures
        ({
            let tree = reason_tree(observation);
            let most = if observation.evidence@.len() <= 1024 {
                observation.evidence@.len() as int
            } else {
                1024
            };
            &&& field(tree, "kind"@) == Some(JsonTree::Text(observation.kind@))
            &&& field(tree, "pattern_name"@) == Some(
                optional_tree(optional_text(observation.pattern_name)),
            )
            &&& field(tree, "action"@) == Some(JsonTree::Text(observation.action@))
            &&& field(tree, "confirmation_count"@) == Some(
                JsonTree::Int(observation.confirmation_count as int),
            )
            &&& field(tree, "evidence"@) == Some(JsonTree::Text(observation.evidence@.take(most)))
            &&& field(tree, "source_path"@) == Some(
                optional_tree(optional_text(observation.source_path)),
            )
        }),
{
    reveal_strlit("kind");
    reveal_strlit("pattern_name");
    reveal_strlit("action");
    reveal_strlit("confirmation_count");
    reveal_strlit("evidence");
    reveal_strlit("source_path");
    assert("kind"@.len() == 4);
    assert("pattern_name"@.len() == 12);
    assert("action"@.len() == 6);
    assert("confirmation_count"@.len() == 18);
    assert("evidence"@.len() == 8);
    assert("source_path"@.len() == 11);
    assert(observation.evidence@.take(observation.evidence@.len() as int)
        =~= observation.evidence@);
}

} // verus!
