//! Read-only diagnosis agents for running experiments that look suspicious.
//!
//! What such an agent writes is taken only if it matches the output schema to
//! the letter; what it is given is bounded evidence.

use vstd::prelude::*;
use vstd::string::*;
use vstd::utf8::encode_utf8;

use crate::digest::{hex, sha256_hex, sha256_of};
use crate::dispatch::SpawnPoint;
use crate::error::{invalid, AppError};
use crate::json::{
    field, int_field, json_parsed, json_read, json_text, name_views, only_names, parse,
    parse_bytes, put, read_text, render, text_in, text_value, value_at, Json, JsonTree, Member,
};
use crate::models::{is_validation_error, Campaign, LineageEvent, NewEvent, Project};
use crate::promotion::optional_text;
use crate::states::{EventKind, EventStatus};
use crate::text::{
    append_int, append_text, byte_len, chars_of, control, decimal, fit, fitting, is_control,
    measured, same_text, string_of,
};

verus! {

pub const MAX_DIAGNOSIS_TAIL_BYTES: usize = 4096;

pub const MAX_DIAGNOSIS_EVIDENCE_BYTES: usize = 131072;

pub const DIAGNOSIS_RETRY_SECONDS: i64 = 60;

/// The schema that the output of a diagnosis agent must match.
pub fn health_diagnosis_schema() -> (text: &'static str)
    ensures
        text@ == "{\n  \"$schema\": \"https://json-schema.org/draft/2020-12/schema\",\n  \"type\": \"object\",\n  \"additionalProperties\": false,\n  \"required\": [\"root_cause_class\", \"confidence\", \"recommended_action\", \"summary\"],\n  \"properties\": {\n    \"root_cause_class\": {\"type\": \"string\", \"minLength\": 1, \"maxLength\": 128},\n    \"confidence\": {\"type\": \"number\", \"minimum\": 0, \"maximum\": 1},\n    \"recommended_action\": {\"enum\": [\"continue\", \"kill_and_resume\", \"kill_and_escalate\"]},\n    \"summary\": {\"type\": \"string\", \"minLength\": 1, \"maxLength\": 512}\n  }\n}"@,
{
    "{\n  \"$schema\": \"https://json-schema.org/draft/2020-12/schema\",\n  \"type\": \"object\",\n  \"additionalProperties\": false,\n  \"required\": [\"root_cause_class\", \"confidence\", \"recommended_action\", \"summary\"],\n  \"properties\": {\n    \"root_cause_class\": {\"type\": \"string\", \"minLength\": 1, \"maxLength\": 128},\n    \"confidence\": {\"type\": \"number\", \"minimum\": 0, \"maximum\": 1},\n    \"recommended_action\": {\"enum\": [\"continue\", \"kill_and_resume\", \"kill_and_escalate\"]},\n    \"summary\": {\"type\": \"string\", \"minLength\": 1, \"maxLength\": 512}\n  }\n}"
}

// ---------------------------------------------------------------------------
// What an agent recommends
// ---------------------------------------------------------------------------
/// What an agent recommends to do with an experiment.
#[derive(Debug, Clone, Copy, PartialEq, Eq, Structural)]
pub enum RecommendedAction {
    Continue,
    KillAndResume,
    KillAndEscalate,
}

impl RecommendedAction {
    /// The text that stands for the variant.
    pub open spec fn label(self) -> Seq<char> {
        match self {
            RecommendedAction::Continue => "continue"@,
            RecommendedAction::KillAndResume => "kill_and_resume"@,
            RecommendedAction::KillAndEscalate => "kill_and_escalate"@,
        }
    }

    pub fn as_str(self) -> (text: &'static str)
        ensures
            text@ == self.label(),
    {
        match self {
            RecommendedAction::Continue => "continue",
            RecommendedAction::KillAndResume => "kill_and_resume",
            RecommendedAction::KillAndEscalate => "kill_and_escalate",
        }
    }
}

/// Two recommendations never share a text.
pub proof fn lemma_recommended_action_labels_differ(a: RecommendedAction, b: RecommendedAction)
    requires
        a.label() == b.label(),
    ensures
        a == b,
{
    reveal_strlit("continue");
    reveal_strlit("kill_and_resume");
    reveal_strlit("kill_and_escalate");
    assert("continue"@.len() == 8);
    assert("kill_and_resume"@.len() == 15);
    assert("kill_and_escalate"@.len() == 17);
}

/// The action that a text stands for.
pub open spec fn action_of(text: Seq<char>) -> Option<RecommendedAction> {
    if text == RecommendedAction::Continue.label() {
        Some(RecommendedAction::Continue)
    } else if text == RecommendedAction::KillAndResume.label() {
        Some(RecommendedAction::KillAndResume)
    } else if text == RecommendedAction::KillAndEscalate.label() {
        Some(RecommendedAction::KillAndEscalate)
    } else {
        None
    }
}

/// A diagnosis that matches the schema. The confidence is held by the bits of
/// its double.
#[derive(Debug, Clone, PartialEq, Eq)]
pub struct ValidatedDiagnosis {
    pub root_cause_class: String,
    pub confidence_bits: u64,
    pub recommended_action: RecommendedAction,
    pub summary: String,
}

/// A diagnosis as mathematics.
pub struct DiagnosisView {
    pub root_cause_class: Seq<char>,
    pub confidence_bits: u64,
    pub recommended_action: RecommendedAction,
    pub summary: Seq<char>,
}

impl View for ValidatedDiagnosis {
    type V = DiagnosisView;

    open spec fn view(&self) -> DiagnosisView {
        DiagnosisView {
            root_cause_class: self.root_cause_class@,
            confidence_bits: self.confidence_bits,
            recommended_action: self.recommended_action,
            summary: self.summary@,
        }
    }
}

/// The bits of the double 1.
pub const ONE_BITS: u64 = 0x3FF0_0000_0000_0000;

/// The bits of the double that is zero with a sign.
pub const NEGATIVE_ZERO_BITS: u64 = 0x8000_0000_0000_0000;

/// The bits of a double from zero to one. Doubles that are not negative are
/// ordered as their bits are.
pub open spec fn is_unit_double(bits: u64) -> bool {
    bits <= ONE_BITS || bits == NEGATIVE_ZERO_BITS
}

/// The confidence that a value stands for: a number from zero to one.
pub open spec fn confidence_of(value: Option<JsonTree>) -> Option<u64> {
    match value {
        Some(JsonTree::Int(n)) => if n == 0 {
            Some(0u64)
        } else if n == 1 {
            Some(ONE_BITS)
        } else {
            None
        },
        Some(JsonTree::Real(bits)) => if is_unit_double(bits) {
            Some(bits)
        } else {
            None
        },
        _ => None,
    }
}

/// A text that is not empty, not too long, and without control characters.
pub open spec fn is_plain(text: Seq<char>, max_bytes: int) -> bool {
    text.len() > 0 && byte_len(text) <= max_bytes && forall|i: int|
        0 <= i < text.len() ==> !is_control(#[trigger] text[i])
}

pub open spec fn diagnosis_names() -> Seq<Seq<char>> {
    seq!["root_cause_class"@, "confidence"@, "recommended_action"@, "summary"@]
}

/// The diagnosis that a value holds, where it matches the schema.
pub open spec fn diagnosis_of(tree: JsonTree) -> Option<DiagnosisView> {
    match tree {
        JsonTree::Record(map) => {
            let class = read_text(field(tree, "root_cause_class"@));
            let confidence = confidence_of(field(tree, "confidence"@));
            let action = read_text(field(tree, "recommended_action"@));
            let summary = read_text(field(tree, "summary"@));
            if only_names(map, diagnosis_names()) && class is Some && is_plain(class->0, 128)
                && confidence is Some && action is Some && action_of(action->0) is Some
                && summary is Some && is_plain(summary->0, 512) {
                Some(
                    DiagnosisView {
                        root_cause_class: class->0,
                        confidence_bits: confidence->0,
                        recommended_action: action_of(action->0)->0,
                        summary: summary->0,
                    },
                )
            } else {
                None
            }
        },
        _ => None,
    }
}

pub open spec fn outside_schema() -> (Seq<char>, Seq<char>) {
    ("diagnosis_output"@, "must match the health diagnosis output schema"@)
}

fn diagnosis_invalid() -> (error: AppError)
    ensures
        is_validation_error(error, outside_schema()),
{
    invalid("diagnosis_output", "must match the health diagnosis output schema")
}

fn plain(text: &str, max_bytes: usize) -> (yes: bool)
    ensures
        yes == is_plain(text@, max_bytes as int),
{
    let chars = chars_of(text);
    if chars.len() == 0 || measured(text) > max_bytes {
        return false;
    }
    let mut at: usize = 0;
    while at < chars.len()
        invariant
            at <= chars@.len(),
            chars@ == text@,
            forall|i: int| 0 <= i < at ==> !is_control(#[trigger] text@[i]),
        decreases chars.len() - at,
    {
        if control(chars[at]) {
            proof {
                assert(is_control(text@[at as int]));
            }
            return false;
        }
        at = at + 1;
    }
    true
}

fn bounded_text(found: Option<&Json>, max_bytes: usize) -> (text: Option<String>)
    ensures
        match text {
            Some(t) => read_text(value_at(found)) == Some(t@) && is_plain(t@, max_bytes as int),
            None => !(read_text(value_at(found)) matches Some(t) && is_plain(t, max_bytes as int)),
        },
{
    match text_in(found) {
        Some(text) => if plain(text.as_str(), max_bytes) {
            Some(text)
        } else {
            None
        },
        None => None,
    }
}

fn confidence_in(found: Option<&Json>) -> (bits: Option<u64>)
    ensures
        bits == confidence_of(value_at(found)),
{
    match found {
        Some(Json::Int(n)) => if *n == 0 {
            Some(0)
        } else if *n == 1 {
            Some(ONE_BITS)
        } else {
            None
        },
        Some(Json::Unsigned(n)) => if *n == 0 {
            Some(0)
        } else if *n == 1 {
            Some(ONE_BITS)
        } else {
            None
        },
        Some(Json::Real(number)) => {
            let bits = number.bits();
            if bits <= ONE_BITS || bits == NEGATIVE_ZERO_BITS {
                Some(bits)
            } else {
                None
            }
        },
        _ => None,
    }
}

fn action_in(found: Option<&Json>) -> (action: Option<RecommendedAction>)
    ensures
        match action {
            Some(a) => read_text(value_at(found)) matches Some(t) && action_of(t) == Some(a),
            None => !(read_text(value_at(found)) matches Some(t) && action_of(t) is Some),
        },
{
    match text_in(found) {
        Some(text) => if same_text(text.as_str(), "continue") {
            Some(RecommendedAction::Continue)
        } else if same_text(text.as_str(), "kill_and_resume") {
            Some(RecommendedAction::KillAndResume)
        } else if same_text(text.as_str(), "kill_and_escalate") {
            Some(RecommendedAction::KillAndEscalate)
        } else {
            None
        },
        None => None,
    }
}

/// Takes a value as a diagnosis if it matches the schema.
pub fn validate_diagnosis(value: &Json) -> (diagnosis: Result<ValidatedDiagnosis, AppError>)
    ensures
        match diagnosis {
            Ok(d) => diagnosis_of(value@) == Some(d@),
            Err(error) => diagnosis_of(value@) is None && is_validation_error(
                error,
                outside_schema(),
            ),
        },
{
    match value {
        Json::Record(_) => {},
        _ => {
            return Err(diagnosis_invalid());
        },
    }
    let names: Vec<&str> = vec!["root_cause_class", "confidence", "recommended_action", "summary"];
    proof {
        assert(name_views(names@) =~= diagnosis_names());
    }
    if !value.holds(&names) {
        return Err(diagnosis_invalid());
    }
    let class = bounded_text(value.get("root_cause_class"), 128);
    let confidence = confidence_in(value.get("confidence"));
    let action = action_in(value.get("recommended_action"));
    let summary = bounded_text(value.get("summary"), 512);
    match (class, confidence, action, summary) {
        (
            Some(root_cause_class),
            Some(confidence_bits),
            Some(recommended_action),
            Some(summary),
        ) => Ok(
            ValidatedDiagnosis { root_cause_class, confidence_bits, recommended_action, summary },
        ),
        _ => Err(diagnosis_invalid()),
    }
}

/// Reads the output of a diagnosis agent and takes it if it matches the schema.
pub fn parse_and_validate_diagnosis(bytes: &[u8]) -> (diagnosis: Result<
    ValidatedDiagnosis,
    AppError,
>)
    ensures
        match diagnosis {
            Ok(d) => json_read(bytes@) matches Some(tree) && diagnosis_of(tree) == Some(d@),
            Err(AppError::Serialization { operation }) => json_read(bytes@) is None && operation@
                == "parse health diagnosis output"@,
            Err(error) => json_read(bytes@) matches Some(tree) && diagnosis_of(tree) is None
                && is_validation_error(error, outside_schema()),
        },
{
    match parse_bytes(bytes) {
        Some(value) => validate_diagnosis(&value),
        None => Err(AppError::Serialization { operation: "parse health diagnosis output" }),
    }
}

/// A diagnosis that is taken has a confidence from zero to one and texts within
/// their bounds.
pub proof fn lemma_diagnosis_is_bounded(tree: JsonTree)
    requires
        diagnosis_of(tree) is Some,
    ensures
        is_unit_double(diagnosis_of(tree)->0.confidence_bits),
        is_plain(diagnosis_of(tree)->0.root_cause_class, 128),
        is_plain(diagnosis_of(tree)->0.summary, 512),
{
}

// ---------------------------------------------------------------------------
// Attempts
// ---------------------------------------------------------------------------
/// How often a diagnosis was tried, as it is kept beside the diagnosis.
pub open spec fn attempt_count(stored: Option<Seq<char>>) -> int {
    match stored {
        Some(text) => match json_parsed(text) {
            Some(tree) => match int_field(tree, "attempt"@) {
                Some(n) => n,
                None => 0,
            },
            None => 0,
        },
        None => 0,
    }
}

pub fn parse_diagnosis_attempt_count(stored: Option<&str>) -> (count: i64)
    ensures
        count == attempt_count(
            match stored {
                Some(text) => Some(text@),
                None => None,
            },
        ),
{
    match stored {
        Some(text) => match parse(text) {
            Some(json) => match json.get_int("attempt") {
                Some(n) => n,
                None => 0,
            },
            None => 0,
        },
        None => 0,
    }
}

// ---------------------------------------------------------------------------
// Evidence
// ---------------------------------------------------------------------------
/// What is known of the health of a running experiment, as far as a diagnosis
/// needs it.
#[derive(Debug, Clone, PartialEq, Eq)]
pub struct RunningHealthRow {
    pub experiment_id: String,
    pub campaign_id: String,
    pub project_id: String,
    pub pueue_task_id: i64,
    pub signal_summary_json: String,
    pub diagnosis_json: Option<String>,
}

/// The evidence for one diagnosis, with its digest.
#[derive(Debug, Clone, PartialEq, Eq)]
pub struct DiagnosisEvidenceBundle {
    pub json: String,
    pub digest: String,
}

/// What the evidence says of the tail of a log.
pub open spec fn tail_tree(excerpt: Option<Seq<char>>) -> JsonTree {
    match excerpt {
        Some(text) => {
            let part = fitting(text, MAX_DIAGNOSIS_TAIL_BYTES as int);
            JsonTree::Record(
                Map::<Seq<char>, JsonTree>::empty().insert(
                    "byte_limit"@,
                    JsonTree::Int(MAX_DIAGNOSIS_TAIL_BYTES as int),
                ).insert("digest"@, JsonTree::Text(hex(sha256_of(encode_utf8(part))))).insert(
                    "excerpt"@,
                    JsonTree::Text(part),
                ),
            )
        },
        None => JsonTree::Null,
    }
}

/// The evidence for one diagnosis.
pub open spec fn evidence_tree(
    row: RunningHealthRow,
    objective_digest: Seq<char>,
    signals: JsonTree,
    excerpt: Option<Seq<char>>,
) -> JsonTree {
    JsonTree::Record(
        Map::<Seq<char>, JsonTree>::empty().insert("schema_version"@, JsonTree::Int(1)).insert(
            "experiment_id"@,
            JsonTree::Text(row.experiment_id@),
        ).insert("campaign_id"@, JsonTree::Text(row.campaign_id@)).insert(
            "project_id"@,
            JsonTree::Text(row.project_id@),
        ).insert("pueue_task_id"@, JsonTree::Int(row.pueue_task_id as int)).insert(
            "objective_digest"@,
            JsonTree::Text(objective_digest),
        ).insert("signal_summary"@, signals).insert("log_tail"@, tail_tree(excerpt)),
    )
}

pub open spec fn oversized_evidence() -> (Seq<char>, Seq<char>) {
    ("diagnosis_evidence"@, "exceeds the serialized evidence limit"@)
}

fn tail_json(excerpt: Option<&str>) -> (json: Json)
    ensures
        json@ == tail_tree(
            match excerpt {
                Some(text) => Some(text@),
                None => None,
            },
        ),
{
    match excerpt {
        Some(text) => {
            let chars = chars_of(text);
            let part = fit(chars.as_slice(), MAX_DIAGNOSIS_TAIL_BYTES);
            let part_text = string_of(part.as_slice());
            let digest = sha256_hex(part_text.as_str().as_bytes());
            let mut members: Vec<Member> = Vec::new();
            put(&mut members, "byte_limit", Json::Int(MAX_DIAGNOSIS_TAIL_BYTES as i64));
            put(&mut members, "digest", Json::Text(digest));
            put(&mut members, "excerpt", Json::Text(part_text));
            Json::Record(members)
        },
        None => Json::Null,
    }
}

/// Builds the evidence around signals that were read already.
pub fn assemble_diagnosis_evidence(
    row: &RunningHealthRow,
    objective_digest: &str,
    signals: Json,
    log_tail_excerpt: Option<&str>,
) -> (bundle: Result<DiagnosisEvidenceBundle, AppError>)
    ensures
        ({
            let text = json_text(
                evidence_tree(
                    *row,
                    objective_digest@,
                    signals@,
                    match log_tail_excerpt {
                        Some(t) => Some(t@),
                        None => None,
                    },
                ),
            );
            match bundle {
                Ok(b) => byte_len(text) <= MAX_DIAGNOSIS_EVIDENCE_BYTES && b.json@ == text
                    && b.digest@ == hex(sha256_of(encode_utf8(text))),
                Err(error) => byte_len(text) > MAX_DIAGNOSIS_EVIDENCE_BYTES && is_validation_error(
                    error,
                    oversized_evidence(),
                ),
            }
        }),
{
    let mut members: Vec<Member> = Vec::new();
    put(&mut members, "schema_version", Json::Int(1));
    put(&mut members, "experiment_id", text_value(row.experiment_id.as_str()));
    put(&mut members, "campaign_id", text_value(row.campaign_id.as_str()));
    put(&mut members, "project_id", text_value(row.project_id.as_str()));
    put(&mut members, "pueue_task_id", Json::Int(row.pueue_task_id));
    put(&mut members, "objective_digest", text_value(objective_digest));
    put(&mut members, "signal_summary", signals);
    put(&mut members, "log_tail", tail_json(log_tail_excerpt));
    let json = match render(&Json::Record(members)) {
        Some(text) => text,
        None => {
            return Err(
                AppError::Serialization { operation: "serialize health diagnosis evidence" },
            );
        },
    };
    if measured(json.as_str()) > MAX_DIAGNOSIS_EVIDENCE_BYTES {
        return Err(invalid("diagnosis_evidence", "exceeds the serialized evidence limit"));
    }
    let digest = sha256_hex(json.as_str().as_bytes());
    Ok(DiagnosisEvidenceBundle { json, digest })
}

/// Builds the evidence for one diagnosis.
pub fn build_diagnosis_evidence(
    row: &RunningHealthRow,
    objective_digest: &str,
    log_tail_excerpt: Option<&str>,
) -> (bundle: Result<DiagnosisEvidenceBundle, AppError>)
    ensures
        match json_parsed(row.signal_summary_json@) {
            None => bundle matches Err(AppError::Serialization { operation }) && operation@
                == "parse stored running health signal summary"@,
            Some(signals) => {
                let text = json_text(
                    evidence_tree(
                        *row,
                        objective_digest@,
                        signals,
                        match log_tail_excerpt {
                            Some(t) => Some(t@),
                            None => None,
                        },
                    ),
                );
                match bundle {
                    Ok(b) => byte_len(text) <= MAX_DIAGNOSIS_EVIDENCE_BYTES && b.json@ == text
                        && b.digest@ == hex(sha256_of(encode_utf8(text))),
                    Err(error) => byte_len(text) > MAX_DIAGNOSIS_EVIDENCE_BYTES
                        && is_validation_error(error, oversized_evidence()),
                }
            },
        },
{
    match parse(row.signal_summary_json.as_str()) {
        Some(signals) => assemble_diagnosis_evidence(
            row,
            objective_digest,
            signals,
            log_tail_excerpt,
        ),
        None => Err(
            AppError::Serialization { operation: "parse stored running health signal summary" },
        ),
    }
}

/// Why a diagnosis cannot go on without its campaign.
pub open spec fn missing_campaign() -> (Seq<char>, Seq<char>) {
    ("campaign_id"@, "running health row references a missing campaign"@)
}

/// The digest of the objective that a diagnosis is told of.
pub fn diagnosed_objective(campaign: Option<&Campaign>) -> (digest: Result<String, AppError>)
    ensures
        match campaign {
            Some(c) => digest matches Ok(text) && text@ == c.objective_digest@,
            None => digest matches Err(error) && is_validation_error(error, missing_campaign()),
        },
{
    match campaign {
        Some(c) => Ok(c.objective_digest.clone()),
        None => Err(
            invalid("campaign_id", "running health row references a missing campaign"),
        ),
    }
}

/// The event under which a diagnosis runs: one for each attempt.
pub fn diagnosis_event(row: &RunningHealthRow, attempt: i64, now: i64) -> (event: LineageEvent)
    ensures
        event.event.project_id@ == row.project_id@,
        event.event.kind == EventKind::HealthDiagnosis,
        event.event.dedup_key@ == "health-diagnosis:v1:"@ + row.experiment_id@ + ":attempt-"@ + decimal(
            attempt as int,
        ),
        event.event.payload@ == JsonTree::Record(
            Map::<Seq<char>, JsonTree>::empty().insert(
                "experiment_id"@,
                JsonTree::Text(row.experiment_id@),
            ).insert("attempt"@, JsonTree::Int(attempt as int)),
        ),
        event.event.not_before == now,
        event.event.created_at == now,
        optional_text(event.campaign_id) == Some(row.campaign_id@),
        optional_text(event.experiment_id) == Some(row.experiment_id@),
        event.status == EventStatus::Pending,
{
    let mut key = chars_of("health-diagnosis:v1:");
    append_text(&mut key, row.experiment_id.as_str());
    append_text(&mut key, ":attempt-");
    append_int(&mut key, attempt);
    let mut members: Vec<Member> = Vec::new();
    put(&mut members, "experiment_id", text_value(row.experiment_id.as_str()));
    put(&mut members, "attempt", Json::Int(attempt));
    let event = NewEvent::new(
        row.project_id.clone(),
        EventKind::HealthDiagnosis,
        string_of(key.as_slice()),
        Json::Record(members),
        now,
        now,
    );
    LineageEvent {
        event,
        campaign_id: Some(row.campaign_id.clone()),
        experiment_id: Some(row.experiment_id.clone()),
        status: EventStatus::Pending,
    }
}

// ---------------------------------------------------------------------------
// One row
// ---------------------------------------------------------------------------
/// A diagnosis that was started; `H` is the handle of its process.
#[derive(Debug)]
pub struct StartedDiagnosis<H> {
    pub run_id: i64,
    pub primary_event_id: i64,
    pub experiment_id: String,
    pub event_ids: Vec<i64>,
    pub handle: H,
}

/// What a pass over suspicious rows did; `C` is the handle of a process that is
/// still to be cleaned up.
#[derive(Debug)]
pub struct DiagnosisPassReport<H, C> {
    pub started: Vec<StartedDiagnosis<H>>,
    pub deferred: usize,
    pub failed_spawns: usize,
    pub cleanups: Vec<C>,
}

impl<H, C> DiagnosisPassReport<H, C> {
    pub fn empty() -> (report: Self)
        ensures
            report.started@.len() == 0,
            report.deferred == 0,
            report.failed_spawns == 0,
            report.cleanups@.len() == 0,
    {
        DiagnosisPassReport {
            started: Vec::new(),
            deferred: 0,
            failed_spawns: 0,
            cleanups: Vec::new(),
        }
    }
}

/// What is asked next for a suspicious row.
#[derive(Debug, Clone, Copy, PartialEq, Eq, Structural)]
pub enum DiagnosisStage {
    /// Is the project there and ready?
    Project,
    /// Does the campaign hold diagnoses back?
    CampaignState,
    /// Read the configuration.
    Config,
    /// Does the execution policy cover the project?
    Policy,
    /// Find the objective, read the tail of the log, build the evidence.
    Evidence,
    /// Record the event and claim it.
    Claim,
    /// Take the guard of run identifiers.
    RunIdGuard,
    /// Take the admission lock of the project.
    ProjectLock,
    /// Mark the row as being diagnosed.
    Mark,
    /// Launch the agent.
    Spawn,
}

/// What comes back.
#[derive(Debug, Clone, Copy, PartialEq, Eq, Structural)]
pub enum DiagnosisReply {
    Yes,
    No,
    SpawnFailed { point: SpawnPoint, cleanup: bool },
    /// Asking failed, which ends the pass.
    Broken,
}

/// How a row is counted.
#[derive(Debug, Clone, Copy, PartialEq, Eq, Structural)]
pub enum DiagnosisCount {
    Started,
    Deferred,
    FailedSpawn,
    /// The pass ends with an error.
    Abort,
}

/// The end of the work on a row, to be carried out in the order of the fields.
#[derive(Debug, Clone, Copy, PartialEq, Eq, Structural)]
pub struct DiagnosisEnding {
    /// Mark the row as suspicious again.
    pub restore: bool,
    /// Let the claimed event be tried again after a minute.
    pub release: bool,
    pub count: DiagnosisCount,
}

#[derive(Debug, Clone, Copy, PartialEq, Eq, Structural)]
pub enum DiagnosisMove {
    Ask(DiagnosisStage),
    End(DiagnosisEnding),
}

pub open spec fn is_diagnosis_reply(stage: DiagnosisStage, reply: DiagnosisReply) -> bool {
    match stage {
        DiagnosisStage::Spawn => !(reply is No),
        DiagnosisStage::Config | DiagnosisStage::Evidence | DiagnosisStage::Mark => reply is Yes
            || reply is Broken,
        _ => !(reply is SpawnFailed),
    }
}

/// A stage can be answered in this way.
pub fn diagnosis_takes(stage: DiagnosisStage, reply: DiagnosisReply) -> (yes: bool)
    ensures
        yes == is_diagnosis_reply(stage, reply),
{
    match stage {
        DiagnosisStage::Spawn => !matches!(reply, DiagnosisReply::No),
        DiagnosisStage::Config | DiagnosisStage::Evidence | DiagnosisStage::Mark => matches!(
            reply,
            DiagnosisReply::Yes
        ) || matches!(reply, DiagnosisReply::Broken),
        _ => !matches!(reply, DiagnosisReply::SpawnFailed { .. }),
    }
}

pub open spec fn stage_behind(stage: DiagnosisStage) -> DiagnosisStage {
    match stage {
        DiagnosisStage::Project => DiagnosisStage::CampaignState,
        DiagnosisStage::CampaignState => DiagnosisStage::Config,
        DiagnosisStage::Config => DiagnosisStage::Policy,
        DiagnosisStage::Policy => DiagnosisStage::Evidence,
        DiagnosisStage::Evidence => DiagnosisStage::Claim,
        DiagnosisStage::Claim => DiagnosisStage::RunIdGuard,
        DiagnosisStage::RunIdGuard => DiagnosisStage::ProjectLock,
        DiagnosisStage::ProjectLock => DiagnosisStage::Mark,
        DiagnosisStage::Mark => DiagnosisStage::Spawn,
        DiagnosisStage::Spawn => DiagnosisStage::Spawn,
    }
}

/// The event of the row is claimed at this stage.
pub open spec fn holds_claim(stage: DiagnosisStage) -> bool {
    stage is RunIdGuard || stage is ProjectLock || stage is Mark || stage is Spawn
}

/// The step that follows a reply.
pub open spec fn diagnosis_next(stage: DiagnosisStage, reply: DiagnosisReply) -> DiagnosisMove {
    match reply {
        DiagnosisReply::Broken => DiagnosisMove::End(
            DiagnosisEnding { restore: false, release: false, count: DiagnosisCount::Abort },
        ),
        DiagnosisReply::Yes => if stage is Spawn {
            DiagnosisMove::End(
                DiagnosisEnding { restore: false, release: false, count: DiagnosisCount::Started },
            )
        } else {
            DiagnosisMove::Ask(stage_behind(stage))
        },
        DiagnosisReply::No => DiagnosisMove::End(
            DiagnosisEnding {
                restore: false,
                release: holds_claim(stage),
                count: DiagnosisCount::Deferred,
            },
        ),
        DiagnosisReply::SpawnFailed { point, cleanup } => DiagnosisMove::End(
            DiagnosisEnding {
                restore: true,
                release: true,
                count: if !cleanup && point is PreBinding {
                    DiagnosisCount::Deferred
                } else {
                    DiagnosisCount::FailedSpawn
                },
            },
        ),
    }
}

/// The step that follows a reply.
pub fn diagnose_row_step(stage: DiagnosisStage, reply: DiagnosisReply) -> (step: DiagnosisMove)
    requires
        is_diagnosis_reply(stage, reply),
    ensures
        step == diagnosis_next(stage, reply),
{
    match reply {
        DiagnosisReply::Broken => DiagnosisMove::End(
            DiagnosisEnding { restore: false, release: false, count: DiagnosisCount::Abort },
        ),
        DiagnosisReply::Yes => match stage {
            DiagnosisStage::Project => DiagnosisMove::Ask(DiagnosisStage::CampaignState),
            DiagnosisStage::CampaignState => DiagnosisMove::Ask(DiagnosisStage::Config),
            DiagnosisStage::Config => DiagnosisMove::Ask(DiagnosisStage::Policy),
            DiagnosisStage::Policy => DiagnosisMove::Ask(DiagnosisStage::Evidence),
            DiagnosisStage::Evidence => DiagnosisMove::Ask(DiagnosisStage::Claim),
            DiagnosisStage::Claim => DiagnosisMove::Ask(DiagnosisStage::RunIdGuard),
            DiagnosisStage::RunIdGuard => DiagnosisMove::Ask(DiagnosisStage::ProjectLock),
            DiagnosisStage::ProjectLock => DiagnosisMove::Ask(DiagnosisStage::Mark),
            DiagnosisStage::Mark => DiagnosisMove::Ask(DiagnosisStage::Spawn),
            DiagnosisStage::Spawn => DiagnosisMove::End(
                DiagnosisEnding {
                    restore: false,
                    release: false,
                    count: DiagnosisCount::Started,
                },
            ),
        },
        DiagnosisReply::No => {
            let release = match stage {
                DiagnosisStage::RunIdGuard | DiagnosisStage::ProjectLock | DiagnosisStage::Mark
                | DiagnosisStage::Spawn => true,
                _ => false,
            };
            DiagnosisMove::End(
                DiagnosisEnding { restore: false, release, count: DiagnosisCount::Deferred },
            )
        },
        DiagnosisReply::SpawnFailed { point, cleanup } => {
            let unbound = match point {
                SpawnPoint::PreBinding => true,
                SpawnPoint::RunBound => false,
            };
            let count = if !cleanup && unbound {
                DiagnosisCount::Deferred
            } else {
                DiagnosisCount::FailedSpawn
            };
            DiagnosisMove::End(DiagnosisEnding { restore: true, release: true, count })
        },
    }
}

/// A claimed event is let go again, unless the agent was started or the pass
/// broke off; and only a launch that failed gives the row back.
pub proof fn lemma_claimed_diagnosis_is_released(stage: DiagnosisStage, reply: DiagnosisReply)
    requires
        is_diagnosis_reply(stage, reply),
        holds_claim(stage),
    ensures
        diagnosis_next(stage, reply) matches DiagnosisMove::End(ending) ==> ending.release
            || ending.count is Started || ending.count is Abort,
        diagnosis_next(stage, reply) matches DiagnosisMove::End(ending) ==> (ending.restore
            <==> reply is SpawnFailed),
{
}

/// Whether a project takes diagnoses now.
pub fn project_takes_diagnoses(project: &Project) -> (yes: bool)
    ensures
        yes == (project.enabled && !project.paused && project.halted_reason is None),
{
    project.enabled && !project.paused && project.halted_reason.is_none()
}

/// When an event that was let go may be tried again.
pub fn release_time(now: i64) -> (at: i64)
    requires
        now <= i64::MAX - DIAGNOSIS_RETRY_SECONDS,
    ensures
        at == now + DIAGNOSIS_RETRY_SECONDS,
{
    now + DIAGNOSIS_RETRY_SECONDS
}

/// The actions that a diagnosis may recommend, by their names.
pub proof fn lemma_recommended_actions(text: Seq<char>)
    ensures
        action_of("continue"@) == Some(RecommendedAction::Continue),
        action_of("kill_and_resume"@) == Some(RecommendedAction::KillAndResume),
        action_of("kill_and_escalate"@) == Some(RecommendedAction::KillAndEscalate),
        text != "continue"@ && text != "kill_and_resume"@ && text != "kill_and_escalate"@
            ==> action_of(text) is None,
{
    reveal_strlit("continue");
    reveal_strlit("kill_and_resume");
    reveal_strlit("kill_and_escalate");
    assert("continue"@.len() == 8);
    assert("kill_and_resume"@.len() == 15);
    assert("kill_and_escalate"@.len() == 17);
}

/// A confidence is zero, one, or a double between them; nothing else is.
pub proof fn lemma_confidence_is_between_zero_and_one(value: Option<JsonTree>, n: int, bits: u64)
    ensures
        confidence_of(None) is None,
        confidence_of(Some(JsonTree::Int(n))) is Some <==> n == 0 || n == 1,
        confidence_of(Some(JsonTree::Int(0))) == Some(0u64),
        confidence_of(Some(JsonTree::Int(1))) == Some(0x3FF0_0000_0000_0000u64),
        confidence_of(Some(JsonTree::Real(bits))) is Some <==> bits <= 0x3FF0_0000_0000_0000u64
            || bits == 0x8000_0000_0000_0000u64,
        confidence_of(Some(JsonTree::Real(bits))) is Some ==> confidence_of(
            Some(JsonTree::Real(bits)),
        ) == Some(bits),
        value is Some && !(value->0 is Int) && !(value->0 is Real) ==> confidence_of(value) is None,
{
}

/// A diagnosis is accepted exactly where it is an object of the four known
/// members: a short plain class, a confidence, a known action and a short plain
/// summary; and it says what they say.
pub proof fn lemma_which_diagnoses_are_accepted(
    map: Map<Seq<char>, JsonTree>,
    class: Seq<char>,
    confidence: JsonTree,
    action: RecommendedAction,
    summary: Seq<char>,
)
    requires
        map == Map::<Seq<char>, JsonTree>::empty().insert(
            "root_cause_class"@,
            JsonTree::Text(class),
        ).insert("confidence"@, confidence).insert(
            "recommended_action"@,
            JsonTree::Text(action.label()),
        ).insert("summary"@, JsonTree::Text(summary)),
    ensures
        ({
            let plain = |text: Seq<char>, most: int|
                text.len() > 0 && byte_len(text) <= most && (forall|i: int|
                    0 <= i < text.len() ==> !is_control(#[trigger] text[i]));
            let found = diagnosis_of(JsonTree::Record(map));
            &&& found is Some <==> plain(class, 128) && plain(summary, 512) && confidence_of(
                Some(confidence),
            ) is Some
            &&& found is Some ==> found->0.root_cause_class == class && found->0.summary == summary
                && found->0.recommended_action == action && Some(found->0.confidence_bits)
                == confidence_of(Some(confidence))
        }),
{
    reveal_strlit("root_cause_class");
    reveal_strlit("confidence");
    reveal_strlit("recommended_action");
    reveal_strlit("summary");
    assert("root_cause_class"@.len() == 16);
    assert("confidence"@.len() == 10);
    assert("recommended_action"@.len() == 18);
    assert("summary"@.len() == 7);
    let names = diagnosis_names();
    assert(names[0] == "root_cause_class"@ && names[1] == "confidence"@ && names[2]
        == "recommended_action"@ && names[3] == "summary"@);
    assert forall|key: Seq<char>| #[trigger] map.contains_key(key) implies names.contains(key) by {
        assert(key == names[0] || key == names[1] || key == names[2] || key == names[3]);
    }
    let tree = JsonTree::Record(map);
    assert(field(tree, "root_cause_class"@) == Some(JsonTree::Text(class)));
    assert(field(tree, "confidence"@) == Some(confidence));
    assert(field(tree, "recommended_action"@) == Some(JsonTree::Text(action.label())));
    assert(field(tree, "summary"@) == Some(JsonTree::Text(summary)));
    assert(action_of(action.label()) == Some(action)) by {
        lemma_recommended_actions(action.label());
    }
}

/// What a diagnosis lacks, or has beyond its four members, refuses it.
pub proof fn lemma_diagnosis_has_no_other_members(
    map: Map<Seq<char>, JsonTree>,
    name: Seq<char>,
)
    ensures
        map.contains_key(name) && name != "root_cause_class"@ && name != "confidence"@ && name
            != "recommended_action"@ && name != "summary"@ ==> diagnosis_of(JsonTree::Record(map))
            is None,
        !map.contains_key(name) && (name == "root_cause_class"@ || name == "confidence"@ || name
            == "recommended_action"@ || name == "summary"@) ==> diagnosis_of(JsonTree::Record(map))
            is None,
{
    let names = diagnosis_names();
    if map.contains_key(name) && names.contains(name) {
        let i = choose|i: int| 0 <= i < names.len() && names[i] == name;
        assert(i == 0 || i == 1 || i == 2 || i == 3);
    }
}

/// An attempt that was stored is counted on; what cannot be read counts as none.
pub proof fn lemma_attempts_are_counted_on(text: Seq<char>, tree: JsonTree, n: int)
    ensures
        attempt_count(None) == 0,
        json_parsed(text) is None ==> attempt_count(Some(text)) == 0,
        json_parsed(text) == Some(tree) && field(tree, "attempt"@) == Some(JsonTree::Int(n))
            && i64::MIN <= n <= i64::MAX ==> attempt_count(Some(text)) == n,
        json_parsed(text) == Some(tree) && field(tree, "attempt"@) is None ==> attempt_count(
            Some(text),
        ) == 0,
{
}

/// The evidence names the experiment, its campaign, its project and its task,
/// with the objective, the signals and at most four kilobytes of the log.
pub proof fn lemma_evidence_names_the_experiment(
    row: RunningHealthRow,
    objective_digest: Seq<char>,
    signals: JsonTree,
    text: Seq<char>,
)
    ensures
        ({
            let tree = evidence_tree(row, objective_digest, signals, Some(text));
            &&& field(tree, "schema_version"@) == Some(JsonTree::Int(1))
            &&& field(tree, "experiment_id"@) == Some(JsonTree::Text(row.experiment_id@))
            &&& field(tree, "campaign_id"@) == Some(JsonTree::Text(row.campaign_id@))
            &&& field(tree, "project_id"@) == Some(JsonTree::Text(row.project_id@))
            &&& field(tree, "pueue_task_id"@) == Some(JsonTree::Int(row.pueue_task_id as int))
            &&& field(tree, "objective_digest"@) == Some(JsonTree::Text(objective_digest))
            &&& field(tree, "signal_summary"@) == Some(signals)
            &&& field(tree, "log_tail"@) == Some(tail_tree(Some(text)))
        }),
        field(evidence_tree(row, objective_digest, signals, None), "log_tail"@) == Some(
            JsonTree::Null,
        ),
{
    reveal_strlit("schema_version");
    reveal_strlit("experiment_id");
    reveal_strlit("campaign_id");
    reveal_strlit("project_id");
    reveal_strlit("pueue_task_id");
    reveal_strlit("objective_digest");
    reveal_strlit("signal_summary");
    reveal_strlit("log_tail");
    assert("schema_version"@.len() == 14);
    assert("experiment_id"@.len() == 13);
    assert("campaign_id"@.len() == 11);
    assert("project_id"@.len() == 10);
    assert("pueue_task_id"@.len() == 13);
    assert("objective_digest"@.len() == 16);
    assert("signal_summary"@.len() == 14);
    assert("log_tail"@.len() == 8);
    assert("schema_version"@[1] != "signal_summary"@[1]);
    assert("experiment_id"@[0] != "pueue_task_id"@[0]);
}

/// The tail of a log is its beginning up to four kilobytes, with the digest of
/// just that.
pub proof fn lemma_tail_is_bounded(text: Seq<char>, part: Seq<char>)
    requires
        part == fitting(text, 4096),
    ensures
        field(tail_tree(Some(text)), "byte_limit"@) == Some(JsonTree::Int(4096)),
        field(tail_tree(Some(text)), "excerpt"@) == Some(JsonTree::Text(part)),
        field(tail_tree(Some(text)), "digest"@) == Some(
            JsonTree::Text(hex(sha256_of(encode_utf8(part)))),
        ),
        byte_len(part) <= 4096,
{
    reveal_strlit("byte_limit");
    reveal_strlit("digest");
    reveal_strlit("excerpt");
    assert("byte_limit"@.len() == 10);
    assert("digest"@.len() == 6);
    assert("excerpt"@.len() == 7);
    crate::text::lemma_fitting(text, 4096);
}

/// How a diagnosis goes on: each step that succeeds leads to the next one, the
/// last starts the agent, a step that declines defers, a failed launch counts as
/// deferred only where nothing was bound and nothing is left to clean up, and a
/// broken step ends the pass.
pub proof fn lemma_diagnosis_goes_on(stage: DiagnosisStage, reply: DiagnosisReply)
    requires
        is_diagnosis_reply(stage, reply),
    ensures
        ({
            let next = diagnosis_next(stage, reply);
            &&& next is Ask <==> reply is Yes && !(stage is Spawn)
            &&& next matches DiagnosisMove::End(e) ==> {
                &&& e.count is Started <==> reply is Yes
                &&& e.count is Abort <==> reply is Broken
                &&& e.count is Deferred <==> reply is No || (
                reply matches DiagnosisReply::SpawnFailed { point, cleanup } && !cleanup && point
                    is PreBinding)
                &&& e.count is FailedSpawn <==> (
                reply matches DiagnosisReply::SpawnFailed { point, cleanup } && (cleanup || !(point
                    is PreBinding)))
                &&& e.restore <==> reply is SpawnFailed
                &&& e.release <==> reply is SpawnFailed || (reply is No && (stage is RunIdGuard
                    || stage is ProjectLock))
            }
        }),
        reply is Yes ==> match stage {
            DiagnosisStage::Project => diagnosis_next(stage, reply) == DiagnosisMove::Ask(
                DiagnosisStage::CampaignState,
            ),
            DiagnosisStage::CampaignState => diagnosis_next(stage, reply) == DiagnosisMove::Ask(
                DiagnosisStage::Config,
            ),
            DiagnosisStage::Config => diagnosis_next(stage, reply) == DiagnosisMove::Ask(
                DiagnosisStage::Policy,
            ),
            DiagnosisStage::Policy => diagnosis_next(stage, reply) == DiagnosisMove::Ask(
                DiagnosisStage::Evidence,
            ),
            DiagnosisStage::Evidence => diagnosis_next(stage, reply) == DiagnosisMove::Ask(
                DiagnosisStage::Claim,
            ),
            DiagnosisStage::Claim => diagnosis_next(stage, reply) == DiagnosisMove::Ask(
                DiagnosisStage::RunIdGuard,
            ),
            DiagnosisStage::RunIdGuard => diagnosis_next(stage, reply) == DiagnosisMove::Ask(
                DiagnosisStage::ProjectLock,
            ),
            DiagnosisStage::ProjectLock => diagnosis_next(stage, reply) == DiagnosisMove::Ask(
                DiagnosisStage::Mark,
            ),
            DiagnosisStage::Mark => diagnosis_next(stage, reply) == DiagnosisMove::Ask(
                DiagnosisStage::Spawn,
            ),
            DiagnosisStage::Spawn => true,
        },
{
}

} // verus!
