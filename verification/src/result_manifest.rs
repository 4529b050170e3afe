//! The result of an experiment, as its task left it in a manifest.
//!
//! A manifest is taken as numbers and identifiers only: what it says of files is
//! never followed.

use vstd::prelude::*;
use vstd::string::*;

use crate::error::{invalid, AppError};
use crate::fspath::{join_path, joined_path};
use crate::json::{
    copy_json, field, int_field, json_read, json_text, lemma_map_of_keys, map_of, parse_bytes,
    render, text_field, Json, JsonTree, Member,
};
use crate::models::is_validation_error;
use crate::promotion::{copy_optional, optional_text};
use crate::text::{
    alphanumeric, append_int, append_text, chars_of, decimal, is_alphanumeric, same_text, string_of,
};

verus! {

pub const MAX_RESULT_MANIFEST_BYTES: usize = 16384;

// ---------------------------------------------------------------------------
// Where a result is looked for
// ---------------------------------------------------------------------------
pub open spec fn results_of(project_root: Seq<char>) -> Seq<char> {
    joined_path(joined_path(project_root, ".pueue-agent"@), "results"@)
}

/// The places where the result of an experiment is looked for, in this order:
/// under the name of the experiment, then under the number of its task.
pub fn result_path_candidates(project_root: &str, experiment_id: &str, pueue_task_id: i64) -> (paths:
    Vec<String>)
    ensures
        paths@.len() == 2,
        paths@[0]@ == joined_path(results_of(project_root@), experiment_id@ + ".json"@),
        paths@[1]@ == joined_path(
            results_of(project_root@),
            decimal(pueue_task_id as int) + ".json"@,
        ),
{
    let service = join_path(project_root, ".pueue-agent");
    let results = join_path(service.as_str(), "results");
    let mut named = chars_of(experiment_id);
    append_text(&mut named, ".json");
    let mut numbered: Vec<char> = Vec::new();
    append_int(&mut numbered, pueue_task_id);
    append_text(&mut numbered, ".json");
    proof {
        assert(numbered@ =~= decimal(pueue_task_id as int) + ".json"@);
    }
    let mut paths: Vec<String> = Vec::new();
    paths.push(join_path(results.as_str(), string_of(named.as_slice()).as_str()));
    paths.push(join_path(results.as_str(), string_of(numbered.as_slice()).as_str()));
    paths
}

pub open spec fn is_id_char(c: char) -> bool {
    is_alphanumeric(c) || c == '_' || c == '-' || c == '.' || c == ':'
}

/// A name that can stand in a path without leading out of its directory.
pub open spec fn is_safe_id(id: Seq<char>) -> bool {
    &&& 0 < id.len() <= 128
    &&& id != "."@
    &&& id != ".."@
    &&& forall|i: int| 0 <= i < id.len() ==> is_id_char(#[trigger] id[i])
}

pub open spec fn unsafe_id() -> (Seq<char>, Seq<char>) {
    ("experiment_id"@, "must be a safe internal identifier"@)
}

pub fn validate_experiment_id(experiment_id: &str) -> (checked: Result<(), AppError>)
    ensures
        match checked {
            Ok(_) => is_safe_id(experiment_id@),
            Err(error) => !is_safe_id(experiment_id@) && is_validation_error(error, unsafe_id()),
        },
{
    let chars = chars_of(experiment_id);
    let mut safe = chars.len() > 0 && chars.len() <= 128 && !same_text(experiment_id, ".")
        && !same_text(experiment_id, "..");
    let mut at: usize = 0;
    while safe && at < chars.len()
        invariant
            at <= chars@.len(),
            chars@ == experiment_id@,
            safe ==> 0 < chars@.len() <= 128 && experiment_id@ != "."@ && experiment_id@ != ".."@
                && forall|i: int| 0 <= i < at ==> is_id_char(#[trigger] experiment_id@[i]),
            !safe ==> !is_safe_id(experiment_id@),
        decreases chars.len() - at + (if safe {
            1int
        } else {
            0int
        }),
    {
        let c = chars[at];
        if alphanumeric(c) || c == '_' || c == '-' || c == '.' || c == ':' {
            at = at + 1;
        } else {
            proof {
                assert(!is_id_char(experiment_id@[at as int]));
            }
            safe = false;
        }
    }
    if safe {
        Ok(())
    } else {
        Err(invalid("experiment_id", "must be a safe internal identifier"))
    }
}

/// The manifest of an experiment with a safe name lies in the directory for
/// results itself, under a name without a separator.
pub proof fn lemma_manifest_lies_in_results(results: Seq<char>, id: Seq<char>)
    requires
        is_safe_id(id),
        results.len() > 0,
        results.last() != '/',
    ensures
        joined_path(results, id + ".json"@) == results + "/"@ + (id + ".json"@),
        !(id + ".json"@).contains('/'),
{
    reveal_strlit(".json");
    let name = id + ".json"@;
    assert(".json"@.len() == 5 && ".json"@[0] == '.' && ".json"@[1] == 'j' && ".json"@[2] == 's'
        && ".json"@[3] == 'o' && ".json"@[4] == 'n');
    assert forall|i: int| 0 <= i < name.len() implies name[i] != '/' by {
        if i < id.len() {
            assert(is_id_char(id[i]));
        }
    }
}

// ---------------------------------------------------------------------------
// What a manifest holds
// ---------------------------------------------------------------------------
/// A metric, as it stands in a manifest.
#[derive(Debug, Clone, Copy, PartialEq, Eq, Structural)]
pub enum MetricNumber {
    Int(i64),
    Unsigned(u64),
    /// The bits of a double.
    Real(u64),
}

impl MetricNumber {
    pub open spec fn tree(self) -> JsonTree {
        match self {
            MetricNumber::Int(n) => JsonTree::Int(n as int),
            MetricNumber::Unsigned(n) => JsonTree::Int(n as int),
            MetricNumber::Real(bits) => JsonTree::Real(bits),
        }
    }
}

pub open spec fn is_number(tree: JsonTree) -> bool {
    tree is Int || tree is Real
}

fn number_of(json: &Json) -> (number: Option<MetricNumber>)
    ensures
        match number {
            Some(n) => is_number(json@) && n.tree() == json@,
            None => !is_number(json@),
        },
{
    match json {
        Json::Int(n) => Some(MetricNumber::Int(*n)),
        Json::Unsigned(n) => Some(MetricNumber::Unsigned(*n)),
        Json::Real(number) => Some(MetricNumber::Real(number.bits())),
        _ => None,
    }
}

pub open spec fn are_numbers(metrics: Map<Seq<char>, JsonTree>) -> bool {
    forall|key: Seq<char>| #[trigger] metrics.contains_key(key) ==> is_number(metrics[key])
}

/// The metrics of a manifest that was written for this experiment.
pub open spec fn metrics_of(manifest: Option<JsonTree>, experiment_id: Seq<char>) -> Option<JsonTree> {
    match manifest {
        Some(tree) => if int_field(tree, "schema_version"@) == Some(1int) && text_field(
            tree,
            "experiment_id"@,
        ) == Some(experiment_id) {
            match field(tree, "metrics"@) {
                Some(JsonTree::Record(metrics)) if are_numbers(metrics) => Some(
                    JsonTree::Record(metrics),
                ),
                _ => None,
            }
        } else {
            None
        },
        None => None,
    }
}

/// What a manifest amounts to.
#[derive(Debug)]
pub enum ManifestOutcome {
    Invalid,
    Valid { metrics: Json, metrics_json: String },
}

pub open spec fn is_outcome(outcome: ManifestOutcome, metrics: Option<JsonTree>) -> bool {
    match outcome {
        ManifestOutcome::Invalid => metrics is None,
        ManifestOutcome::Valid { metrics: own, metrics_json } => metrics == Some(own@)
            && metrics_json@ == json_text(own@),
    }
}

fn all_numbers(metrics: &Json, members: &Vec<Member>) -> (yes: bool)
    requires
        metrics@ == JsonTree::Record(map_of(members@)),
    ensures
        yes == are_numbers(map_of(members@)),
{
    let mut at: usize = 0;
    while at < members.len()
        invariant
            at <= members@.len(),
            metrics@ == JsonTree::Record(map_of(members@)),
            forall|i: int|
                0 <= i < at ==> is_number(map_of(members@)[(#[trigger] members@[i]).key@]),
        decreases members.len() - at,
    {
        proof {
            lemma_map_of_keys(members@, members@[at as int].key@);
            assert(map_of(members@).contains_key(members@[at as int].key@));
        }
        let numeric = match metrics.get(members[at].key.as_str()) {
            Some(value) => number_of(value).is_some(),
            None => false,
        };
        if !numeric {
            return false;
        }
        at = at + 1;
    }
    proof {
        assert forall|key: Seq<char>| #[trigger] map_of(members@).contains_key(key) implies is_number(
            map_of(members@)[key],
        ) by {
            lemma_map_of_keys(members@, key);
            let i = choose|i: int| 0 <= i < members@.len() && (#[trigger] members@[i]).key@ == key;
            assert(is_number(map_of(members@)[members@[i].key@]));
        }
    }
    true
}

/// Judges a manifest that was read, if it could be.
pub fn classify_parsed(manifest: Option<&Json>, experiment_id: &str) -> (outcome: ManifestOutcome)
    ensures
        is_outcome(
            outcome,
            metrics_of(
                match manifest {
                    Some(json) => Some(json@),
                    None => None,
                },
                experiment_id@,
            ),
        ),
{
    let json = match manifest {
        Some(json) => json,
        None => {
            return ManifestOutcome::Invalid;
        },
    };
    let version: Option<i64> = json.get_int("schema_version");
    let versioned = match version {
        Some(n) => n == 1,
        None => false,
    };
    let named = match json.get_text("experiment_id") {
        Some(name) => same_text(name.as_str(), experiment_id),
        None => false,
    };
    if !versioned || !named {
        return ManifestOutcome::Invalid;
    }
    let metrics = match json.get("metrics") {
        Some(metrics) => metrics,
        None => {
            return ManifestOutcome::Invalid;
        },
    };
    match metrics {
        Json::Record(members) => {
            if !all_numbers(metrics, members) {
                return ManifestOutcome::Invalid;
            }
        },
        _ => {
            return ManifestOutcome::Invalid;
        },
    }
    match render(metrics) {
        Some(metrics_json) => ManifestOutcome::Valid { metrics: copy_json(metrics), metrics_json },
        None => ManifestOutcome::Invalid,
    }
}

/// The metrics in the bytes of a manifest.
pub open spec fn metrics_in(bytes: Seq<u8>, experiment_id: Seq<char>) -> Option<JsonTree> {
    if bytes.len() > MAX_RESULT_MANIFEST_BYTES {
        None
    } else {
        metrics_of(json_read(bytes), experiment_id)
    }
}

/// Judges the bytes of a manifest.
pub fn classify_manifest(bytes: &[u8], experiment_id: &str) -> (outcome: ManifestOutcome)
    ensures
        is_outcome(outcome, metrics_in(bytes@, experiment_id@)),
{
    if bytes.len() > MAX_RESULT_MANIFEST_BYTES {
        return ManifestOutcome::Invalid;
    }
    match parse_bytes(bytes) {
        Some(json) => classify_parsed(Some(&json), experiment_id),
        None => classify_parsed(None, experiment_id),
    }
}

// ---------------------------------------------------------------------------
// What is recorded
// ---------------------------------------------------------------------------
/// The metrics of an experiment, or why there are none.
#[derive(Debug, Clone, PartialEq, Eq)]
pub struct ExperimentMetricsRow {
    pub experiment_id: String,
    pub source: String,
    pub primary_metric_name: Option<String>,
    pub primary_metric_value: Option<MetricNumber>,
    pub metrics_json: String,
    pub artifact_defect: Option<String>,
    pub created_at: i64,
    pub updated_at: i64,
    pub evaluated_at: Option<i64>,
}

pub open spec fn is_row_for(row: ExperimentMetricsRow, experiment_id: Seq<char>, now: i64) -> bool {
    &&& row.experiment_id@ == experiment_id
    &&& row.source@ == "manifest"@
    &&& row.created_at == now
    &&& row.updated_at == now
    &&& row.evaluated_at is None
}

/// The row for an experiment without metrics.
pub open spec fn is_defect_row(
    row: ExperimentMetricsRow,
    experiment_id: Seq<char>,
    defect: Seq<char>,
    now: i64,
) -> bool {
    &&& is_row_for(row, experiment_id, now)
    &&& row.primary_metric_name is None
    &&& row.primary_metric_value is None
    &&& row.metrics_json@ == "{}"@
    &&& optional_text(row.artifact_defect) == Some(defect)
}

/// The metric that the objective of a campaign is about.
pub open spec fn primary_metric(metrics: JsonTree, objective: Option<Seq<char>>) -> Option<JsonTree> {
    match objective {
        Some(name) => field(metrics, name),
        None => None,
    }
}

pub open spec fn metric_tree(value: Option<MetricNumber>) -> Option<JsonTree> {
    match value {
        Some(number) => Some(number.tree()),
        None => None,
    }
}

/// The row for an experiment with metrics.
pub open spec fn is_metrics_row(
    row: ExperimentMetricsRow,
    experiment_id: Seq<char>,
    metrics: JsonTree,
    objective: Option<Seq<char>>,
    now: i64,
) -> bool {
    &&& is_row_for(row, experiment_id, now)
    &&& optional_text(row.primary_metric_name) == objective
    &&& metric_tree(row.primary_metric_value) == primary_metric(metrics, objective)
    &&& row.metrics_json@ == json_text(metrics)
    &&& row.artifact_defect is None
}

/// The row for a manifest.
pub open spec fn is_manifest_row(
    row: ExperimentMetricsRow,
    experiment_id: Seq<char>,
    metrics: Option<JsonTree>,
    objective: Option<Seq<char>>,
    now: i64,
) -> bool {
    match metrics {
        Some(tree) => is_metrics_row(row, experiment_id, tree, objective, now),
        None => is_defect_row(row, experiment_id, "result_invalid"@, now),
    }
}

fn defect_row(experiment_id: &str, defect: &str, now: i64) -> (row: ExperimentMetricsRow)
    ensures
        is_defect_row(row, experiment_id@, defect@, now),
{
    ExperimentMetricsRow {
        experiment_id: experiment_id.to_owned(),
        source: "manifest".to_owned(),
        primary_metric_name: None,
        primary_metric_value: None,
        metrics_json: "{}".to_owned(),
        artifact_defect: Some(defect.to_owned()),
        created_at: now,
        updated_at: now,
        evaluated_at: None,
    }
}

/// The row for a manifest that was judged.
pub fn row_from_manifest_outcome(
    outcome: &ManifestOutcome,
    experiment_id: &str,
    objective: &Option<String>,
    now: i64,
) -> (row: ExperimentMetricsRow)
    requires
        outcome matches ManifestOutcome::Valid { metrics, metrics_json } ==> metrics_json@
            == json_text(metrics@) && (metrics@ matches JsonTree::Record(map) && are_numbers(map)),
    ensures
        match *outcome {
            ManifestOutcome::Invalid => is_defect_row(
                row,
                experiment_id@,
                "result_invalid"@,
                now,
            ),
            ManifestOutcome::Valid { metrics, metrics_json } => is_metrics_row(
                row,
                experiment_id@,
                metrics@,
                optional_text(*objective),
                now,
            ),
        },
{
    match outcome {
        ManifestOutcome::Invalid => defect_row(experiment_id, "result_invalid", now),
        ManifestOutcome::Valid { metrics, metrics_json } => {
            let value = match objective {
                Some(name) => match metrics.get(name.as_str()) {
                    Some(found) => number_of(found),
                    None => None,
                },
                None => None,
            };
            ExperimentMetricsRow {
                experiment_id: experiment_id.to_owned(),
                source: "manifest".to_owned(),
                primary_metric_name: copy_optional(objective),
                primary_metric_value: value,
                metrics_json: metrics_json.clone(),
                artifact_defect: None,
                created_at: now,
                updated_at: now,
                evaluated_at: None,
            }
        },
    }
}

/// A result that is not recorded yet. An error of reading is kept beside the row
/// that says that there was one, and comes back once the row is recorded.
pub struct StagedTerminalResult {
    pub row: ExperimentMetricsRow,
    pub read_error: Option<AppError>,
}

/// What a look at one of the places for a manifest gave.
pub enum ManifestRead {
    Missing,
    /// There is something that is no manifest.
    Invalid,
    Bytes(Vec<u8>),
    Failed(AppError),
}

/// The first look that found something.
pub open spec fn first_found(reads: Seq<ManifestRead>) -> Option<ManifestRead>
    decreases reads.len(),
{
    if reads.len() == 0 {
        None
    } else if reads[0] is Missing {
        first_found(reads.drop_first())
    } else {
        Some(reads[0])
    }
}

pub open spec fn is_staged(
    staged: Result<StagedTerminalResult, AppError>,
    found: Option<ManifestRead>,
    experiment_id: Seq<char>,
    objective: Option<Seq<char>>,
    now: i64,
) -> bool {
    match found {
        None => staged matches Ok(s) && s.read_error is None && is_defect_row(
            s.row,
            experiment_id,
            "result_missing"@,
            now,
        ),
        Some(ManifestRead::Bytes(bytes)) => staged matches Ok(s) && s.read_error is None
            && is_manifest_row(
            s.row,
            experiment_id,
            metrics_in(bytes@, experiment_id),
            objective,
            now,
        ),
        Some(ManifestRead::Failed(error)) => match error {
            AppError::Io { operation: _, source: _ } => staged matches Ok(s) && s.read_error
                == Some(error) && is_defect_row(s.row, experiment_id, "result_io_error"@, now),
            _ => staged == Err::<StagedTerminalResult, AppError>(error),
        },
        Some(_) => staged matches Ok(s) && s.read_error is None && is_defect_row(
            s.row,
            experiment_id,
            "result_invalid"@,
            now,
        ),
    }
}

fn first_read(given: Vec<ManifestRead>) -> (found: Option<ManifestRead>)
    ensures
        found == first_found(given@),
{
    let mut reads = given;
    while reads.len() > 0
        invariant
            first_found(reads@) == first_found(given@),
        decreases reads.len(),
    {
        let ghost before = reads@;
        let read = reads.remove(0);
        proof {
            assert(before.drop_first() =~= reads@);
        }
        match read {
            ManifestRead::Missing => {},
            found => {
                return Some(found);
            },
        }
    }
    None
}

/// Stages the result of an experiment from the looks at the places for its
/// manifest: the first that found something decides.
pub fn stage_from_reads(
    reads: Vec<ManifestRead>,
    experiment_id: &str,
    objective: &Option<String>,
    now: i64,
) -> (staged: Result<StagedTerminalResult, AppError>)
    ensures
        if is_safe_id(experiment_id@) {
            is_staged(
                staged,
                first_found(reads@),
                experiment_id@,
                optional_text(*objective),
                now,
            )
        } else {
            staged matches Err(error) && is_validation_error(error, unsafe_id())
        },
{
    validate_experiment_id(experiment_id)?;
    match first_read(reads) {
        None => Ok(
            StagedTerminalResult {
                row: defect_row(experiment_id, "result_missing", now),
                read_error: None,
            },
        ),
        Some(ManifestRead::Bytes(bytes)) => Ok(
            StagedTerminalResult {
                row: row_from_manifest_outcome(
                    &classify_manifest(bytes.as_slice(), experiment_id),
                    experiment_id,
                    objective,
                    now,
                ),
                read_error: None,
            },
        ),
        Some(ManifestRead::Failed(error)) => match error {
            AppError::Io { operation, source } => Ok(
                StagedTerminalResult {
                    row: defect_row(experiment_id, "result_io_error", now),
                    read_error: Some(AppError::Io { operation, source }),
                },
            ),
            other => Err(other),
        },
        Some(_) => Ok(
            StagedTerminalResult {
                row: defect_row(experiment_id, "result_invalid", now),
                read_error: None,
            },
        ),
    }
}

/// Stages a result of which it is known what is wrong with it.
pub fn stage_defect(experiment_id: &str, defect: &str, now: i64) -> (staged: Result<
    StagedTerminalResult,
    AppError,
>)
    ensures
        match staged {
            Ok(s) => is_safe_id(experiment_id@) && s.read_error is None && is_defect_row(
                s.row,
                experiment_id@,
                defect@,
                now,
            ),
            Err(error) => !is_safe_id(experiment_id@) && is_validation_error(error, unsafe_id()),
        },
{
    validate_experiment_id(experiment_id)?;
    Ok(StagedTerminalResult { row: defect_row(experiment_id, defect, now), read_error: None })
}

/// Stages the result in the bytes of a manifest.
pub fn stage_from_bound_manifest(
    bytes: &[u8],
    experiment_id: &str,
    objective: &Option<String>,
    now: i64,
) -> (staged: Result<StagedTerminalResult, AppError>)
    ensures
        match staged {
            Ok(s) => is_safe_id(experiment_id@) && s.read_error is None && is_manifest_row(
                s.row,
                experiment_id@,
                metrics_in(bytes@, experiment_id@),
                optional_text(*objective),
                now,
            ),
            Err(error) => !is_safe_id(experiment_id@) && is_validation_error(error, unsafe_id()),
        },
{
    validate_experiment_id(experiment_id)?;
    Ok(
        StagedTerminalResult {
            row: row_from_manifest_outcome(
                &classify_manifest(bytes, experiment_id),
                experiment_id,
                objective,
                now,
            ),
            read_error: None,
        },
    )
}

/// A row that is staged holds metrics or says what is wrong, never both, and a
/// metric of the objective only where there are metrics.
pub proof fn lemma_row_is_metrics_or_defect(
    staged: StagedTerminalResult,
    found: Option<ManifestRead>,
    experiment_id: Seq<char>,
    objective: Option<Seq<char>>,
    now: i64,
)
    requires
        is_staged(Ok(staged), found, experiment_id, objective, now),
    ensures
        staged.row.artifact_defect is Some ==> staged.row.metrics_json@ == "{}"@
            && staged.row.primary_metric_value is None,
        staged.row.artifact_defect is None <==> exists|bytes: Vec<u8>|
            found == Some(ManifestRead::Bytes(bytes)) && #[trigger] metrics_in(
                bytes@,
                experiment_id,
            ) is Some,
        staged.read_error is Some ==> optional_text(staged.row.artifact_defect) == Some(
            "result_io_error"@,
        ),
{
}

/// An identifier is safe exactly where it has 1 to 128 characters, is no dot and
/// no two dots, and holds only letters, digits and `_`, `-`, `.`, `:`.
pub proof fn lemma_which_identifiers_are_safe(id: Seq<char>)
    ensures
        is_safe_id(id) <==> {
            &&& 1 <= id.len() <= 128
            &&& id != seq!['.']
            &&& id != seq!['.', '.']
            &&& forall|i: int|
                0 <= i < id.len() ==> ('a' <= (#[trigger] id[i]) <= 'z' || 'A' <= id[i] <= 'Z'
                    || '0' <= id[i] <= '9' || id[i] == '_' || id[i] == '-' || id[i] == '.' || id[i]
                    == ':')
        },
{
    reveal_strlit(".");
    reveal_strlit("..");
    assert("."@ =~= seq!['.']);
    assert(".."@ =~= seq!['.', '.']);
    assert forall|i: int| 0 <= i < id.len() implies (is_id_char(#[trigger] id[i]) <==> ('a'
        <= id[i] <= 'z' || 'A' <= id[i] <= 'Z' || '0' <= id[i] <= '9' || id[i] == '_' || id[i]
        == '-' || id[i] == '.' || id[i] == ':')) by {
    }
}

/// A manifest gives metrics exactly where it is of the first version, speaks of
/// the experiment and lists numbers alone; and then it gives those.
pub proof fn lemma_which_manifests_count(
    tree: JsonTree,
    experiment_id: Seq<char>,
    metrics: JsonTree,
)
    ensures
        metrics_of(None, experiment_id) is None,
        metrics_of(Some(tree), experiment_id) == Some(metrics) <==> {
            &&& field(tree, "schema_version"@) == Some(JsonTree::Int(1))
            &&& field(tree, "experiment_id"@) == Some(JsonTree::Text(experiment_id))
            &&& field(tree, "metrics"@) == Some(metrics)
            &&& metrics matches JsonTree::Record(map) && forall|key: Seq<char>| #[trigger]
                map.contains_key(key) ==> map[key] is Int || map[key] is Real
        },
{
    if let JsonTree::Record(map) = metrics {
        assert(are_numbers(map) <==> forall|key: Seq<char>| #[trigger]
            map.contains_key(key) ==> map[key] is Int || map[key] is Real);
    }
}

/// A manifest of more than 16 kilobytes is not read.
pub proof fn lemma_large_manifests_are_not_read(bytes: Seq<u8>, experiment_id: Seq<char>)
    ensures
        bytes.len() > 16384 ==> metrics_in(bytes, experiment_id) is None,
        bytes.len() <= 16384 ==> metrics_in(bytes, experiment_id) == metrics_of(
            json_read(bytes),
            experiment_id,
        ),
{
}

/// The first place at which there is something decides.
pub proof fn lemma_first_manifest_decides(reads: Seq<ManifestRead>, at: int)
    requires
        0 <= at <= reads.len(),
        forall|i: int| 0 <= i < at ==> (#[trigger] reads[i]) is Missing,
        at < reads.len() ==> !(reads[at] is Missing),
    ensures
        first_found(reads) == if at < reads.len() {
            Some(reads[at])
        } else {
            None
        },
    decreases reads.len(),
{
    if at > 0 {
        assert(reads[0] is Missing);
        let rest = reads.drop_first();
        assert forall|i: int| 0 <= i < at - 1 implies (#[trigger] rest[i]) is Missing by {
            assert(rest[i] == reads[i + 1]);
        }
        lemma_first_manifest_decides(rest, at - 1);
    }
}

/// A row of metrics holds all of them, and the value of the objective's own
/// metric apart where the campaign has an objective.
pub proof fn lemma_row_holds_the_metrics(
    row: ExperimentMetricsRow,
    experiment_id: Seq<char>,
    metrics: JsonTree,
    objective: Option<Seq<char>>,
    now: i64,
)
    requires
        is_metrics_row(row, experiment_id, metrics, objective, now),
    ensures
        row.experiment_id@ == experiment_id,
        row.source@ == "manifest"@,
        row.metrics_json@ == json_text(metrics),
        row.created_at == now,
        row.updated_at == now,
        row.evaluated_at is None,
        row.artifact_defect is None,
        optional_text(row.primary_metric_name) == objective,
        objective is None ==> row.primary_metric_value is None,
        objective matches Some(name) ==> match field(metrics, name) {
            Some(value) => row.primary_metric_value matches Some(number) && number.tree() == value,
            None => row.primary_metric_value is None,
        },
{
}

/// What was read, or not, decides the defect of a row.
pub proof fn lemma_defects_of_rows(
    staged: StagedTerminalResult,
    found: Option<ManifestRead>,
    experiment_id: Seq<char>,
    objective: Option<Seq<char>>,
    now: i64,
)
    requires
        is_staged(Ok(staged), found, experiment_id, objective, now),
    ensures
        staged.row.experiment_id@ == experiment_id,
        found is None ==> optional_text(staged.row.artifact_defect) == Some("result_missing"@),
        found == Some(ManifestRead::Invalid) ==> optional_text(staged.row.artifact_defect) == Some(
            "result_invalid"@,
        ),
        found matches Some(ManifestRead::Bytes(bytes)) ==> (metrics_in(bytes@, experiment_id)
            is None <==> optional_text(staged.row.artifact_defect) == Some("result_invalid"@)),
        found matches Some(ManifestRead::Failed(error)) ==> staged.read_error == Some(error)
            && optional_text(staged.row.artifact_defect) == Some("result_io_error"@),
        !(found matches Some(ManifestRead::Failed(_))) ==> staged.read_error is None,
{
}

/// A defect leaves a row without metrics, which names the defect.
pub proof fn lemma_row_of_a_defect(
    row: ExperimentMetricsRow,
    experiment_id: Seq<char>,
    defect: Seq<char>,
    now: i64,
)
    requires
        is_defect_row(row, experiment_id, defect, now),
    ensures
        row.experiment_id@ == experiment_id,
        row.source@ == "manifest"@,
        row.created_at == now,
        row.updated_at == now,
        row.evaluated_at is None,
        row.primary_metric_name is None,
        row.primary_metric_value is None,
        row.metrics_json@ == "{}"@,
        row.artifact_defect matches Some(text) && text@ == defect,
{
}

/// Results lie in a directory of the supervisor's own in the project.
pub proof fn lemma_where_results_lie(root: Seq<char>)
    requires
        root.len() > 0,
        root.last() != '/',
    ensures
        results_of(root) == root + "/.pueue-agent/results"@,
{
    reveal_strlit("/");
    reveal_strlit(".pueue-agent");
    reveal_strlit("results");
    reveal_strlit("/.pueue-agent/results");
    let first = joined_path(root, ".pueue-agent"@);
    assert(".pueue-agent"@[0] == '.');
    assert("results"@[0] == 'r');
    assert(first =~= root + "/"@ + ".pueue-agent"@);
    assert(first.last() == ".pueue-agent"@.last());
    assert(".pueue-agent"@.last() == 't');
    assert("/"@ + ".pueue-agent"@ + "/"@ + "results"@ =~= "/.pueue-agent/results"@);
    assert(results_of(root) =~= root + ("/"@ + ".pueue-agent"@ + "/"@ + "results"@));
}

/// A manifest is valid exactly where it gives metrics, and then it gives those
/// and their text.
pub proof fn lemma_outcome_of_a_manifest(outcome: ManifestOutcome, metrics: Option<JsonTree>)
    requires
        is_outcome(outcome, metrics),
    ensures
        outcome is Invalid <==> metrics is None,
        outcome matches ManifestOutcome::Valid { metrics: own, metrics_json } ==> metrics == Some(
            own@,
        ) && metrics_json@ == json_text(own@),
{
}

} // verus!
