//! What is shown to the operator: bounded and redacted text, and the reports on
//! campaigns, proposals and experiments.

use vstd::prelude::*;

use crate::error::AppError;
use crate::fspath::{absolute, is_absolute};
use crate::json::{
    field, json_text, map_of, optional_int, optional_tree, put, render, text_value, Json, JsonTree,
    Member,
};
use crate::models::{Campaign, Experiment, Proposal};
use crate::promotion::optional_text;
use crate::proposals::text_list;
use crate::redaction::{
    is_plain_text, lemma_redacted_is_plain_text, redact, redacted, strip_control_and_ansi,
    stripped,
};
use crate::text::{
    append_int, append_text, byte_len, chars_of, concat2, control, decimal, decimal_chars, decimal_digits, digits_of, extend, fit, fitting,
    is_control, join, joined, lemma_byte_len_concat, lemma_fitting, lowered, measured, spells,
    string_of, text_less, to_lowered, views,
};

verus! {

pub const MAX_OUTPUT_TEXT_BYTES: usize = 240;

pub const MAX_EXECUTION_PATH_BYTES: usize = 4096;

/// For whom output is written.
#[derive(Debug, Clone, Copy, PartialEq, Eq, Structural)]
pub enum OutputMode {
    Human,
    Json,
}

/// Where output goes.
#[derive(Debug, Clone, Copy, PartialEq, Eq, Structural)]
pub enum OutputTarget {
    Terminal,
    Pipe,
}

impl OutputTarget {
    /// The target, by whether standard output is a terminal.
    pub fn detect(is_terminal: bool) -> (target: Self)
        ensures
            target == (if is_terminal {
                OutputTarget::Terminal
            } else {
                OutputTarget::Pipe
            }),
    {
        if is_terminal {
            OutputTarget::Terminal
        } else {
            OutputTarget::Pipe
        }
    }
}

impl OutputMode {
    /// Whether colours are used; `no_color` says that the operator has asked
    /// for none.
    pub fn uses_ansi(self, target: OutputTarget, no_color: bool) -> (yes: bool)
        ensures
            yes == (self == OutputMode::Human && target == OutputTarget::Terminal && !no_color),
    {
        self == OutputMode::Human && target == OutputTarget::Terminal && !no_color
    }
}

// ---------------------------------------------------------------------------
// Bounded text
// ---------------------------------------------------------------------------
/// The text itself where it is short, else its start and three dots.
pub open spec fn bounded_form(s: Seq<char>) -> Seq<char> {
    if byte_len(s) <= MAX_OUTPUT_TEXT_BYTES {
        s
    } else {
        fitting(s, MAX_OUTPUT_TEXT_BYTES - 3) + "..."@
    }
}

/// A text as it is shown.
pub open spec fn shown(s: Seq<char>) -> Seq<char> {
    bounded_form(redacted(s))
}

pub open spec fn optional_shown(s: Option<Seq<char>>) -> Option<Seq<char>> {
    match s {
        Some(t) => Some(shown(t)),
        None => None,
    }
}

fn bounded_text(value: String) -> (text: String)
    ensures
        text@ == bounded_form(value@),
{
    if measured(value.as_str()) <= MAX_OUTPUT_TEXT_BYTES {
        return value;
    }
    let chars = chars_of(value.as_str());
    let mut prefix = fit(chars.as_slice(), MAX_OUTPUT_TEXT_BYTES - 3);
    append_text(&mut prefix, "...");
    string_of(prefix.as_slice())
}

/// Replaces the secrets and paths of a text.
pub fn redact_sensitive_text(value: &str) -> (text: String)
    ensures
        text@ == redacted(value@),
{
    let chars = chars_of(value);
    let clean = redact(chars.as_slice());
    string_of(clean.as_slice())
}

/// Replaces the secrets and paths of a text and shortens it.
pub fn bounded_redacted_text(value: &str) -> (text: String)
    ensures
        text@ == shown(value@),
{
    bounded_text(redact_sensitive_text(value))
}

/// Takes out control sequences and shortens the text; for text that is known to
/// hold no secret.
pub fn bounded_typed_text(value: &str) -> (text: String)
    ensures
        text@ == bounded_form(stripped(value@)),
{
    let chars = chars_of(value);
    let clean = strip_control_and_ansi(chars.as_slice());
    bounded_text(string_of(clean.as_slice()))
}

/// A path that may be shown as it is.
pub open spec fn is_showable_path(value: Seq<char>) -> bool {
    &&& byte_len(value) <= MAX_EXECUTION_PATH_BYTES
    &&& forall|i: int| 0 <= i < value.len() ==> !is_control(#[trigger] value[i])
    &&& is_absolute(value)
}

/// A stored path that may be shown as it is; nothing where it may not.
pub fn bounded_execution_path(value: &str) -> (path: Option<String>)
    ensures
        match path {
            Some(p) => is_showable_path(value@) && p@ == value@,
            None => !is_showable_path(value@),
        },
{
    if measured(value) > MAX_EXECUTION_PATH_BYTES || !absolute(value) {
        return None;
    }
    let chars = chars_of(value);
    let mut at: usize = 0;
    while at < chars.len()
        invariant
            at <= chars@.len(),
            chars@ == value@,
            forall|i: int| 0 <= i < at ==> !is_control(#[trigger] chars@[i]),
        decreases chars.len() - at,
    {
        if control(chars[at]) {
            return None;
        }
        at = at + 1;
    }
    Some(value.to_owned())
}

/// Whatever is shown is short, and free of control characters and of paths.
pub proof fn lemma_shown_text_is_bounded_and_plain(s: Seq<char>)
    ensures
        byte_len(shown(s)) <= MAX_OUTPUT_TEXT_BYTES,
        is_plain_text(shown(s)),
{
    let clean = redacted(s);
    lemma_redacted_is_plain_text(s);
    lemma_bounded_form(clean);
    if byte_len(clean) > MAX_OUTPUT_TEXT_BYTES {
        let start = fitting(clean, MAX_OUTPUT_TEXT_BYTES - 3);
        lemma_fitting(clean, MAX_OUTPUT_TEXT_BYTES - 3);
        reveal_strlit("...");
        assert forall|i: int| 0 <= i < shown(s).len() implies !is_control(#[trigger] shown(s)[i])
            && shown(s)[i] != '/' && shown(s)[i] != '\\' by {
            if i < start.len() {
                assert(shown(s)[i] == clean[i]);
            } else {
                assert(shown(s)[i] == "..."@[i - start.len()]);
            }
        }
    }
}

/// A bounded text has at most 240 bytes.
pub proof fn lemma_bounded_form(s: Seq<char>)
    ensures
        byte_len(bounded_form(s)) <= MAX_OUTPUT_TEXT_BYTES,
{
    if byte_len(s) > MAX_OUTPUT_TEXT_BYTES {
        let start = fitting(s, MAX_OUTPUT_TEXT_BYTES - 3);
        lemma_fitting(s, MAX_OUTPUT_TEXT_BYTES - 3);
        lemma_byte_len_concat(start, "..."@);
        lemma_dots();
    }
}

proof fn lemma_dots()
    ensures
        byte_len("..."@) == 3,
{
    reveal_strlit("...");
    let dots = "..."@;
    assert(dots =~= seq!['.', '.', '.']);
    reveal_with_fuel(byte_len, 4);
    assert(dots.drop_last() =~= seq!['.', '.']);
    assert(dots.drop_last().drop_last() =~= seq!['.']);
    assert(dots.drop_last().drop_last().drop_last() =~= Seq::<char>::empty());
}

// ---------------------------------------------------------------------------
// Small pieces
// ---------------------------------------------------------------------------
/// `kind=id`.
pub fn render_id(kind: &str, id: &str) -> (text: String)
    ensures
        text@ == kind@ + "="@ + id@,
{
    let mut chars = concat2(kind, "=");
    append_text(&mut chars, id);
    string_of(chars.as_slice())
}

pub open spec fn header_line(command: Seq<char>, project: Seq<char>) -> Seq<char> {
    "pueue-agent "@ + command + " project="@ + shown(project)
}

pub open spec fn summary_line(summary: Seq<char>) -> Seq<char> {
    "summary: "@ + shown(summary)
}

pub fn human_header(command: &str, project_id: &str) -> (text: String)
    ensures
        text@ == header_line(command@, project_id@),
{
    let line = header_chars(command, project_id);
    string_of(line.as_slice())
}

fn header_chars(command: &str, project_id: &str) -> (line: Vec<char>)
    ensures
        line@ == header_line(command@, project_id@),
{
    let mut line = concat2("pueue-agent ", command);
    append_text(&mut line, " project=");
    let id = bounded_redacted_text(project_id);
    append_text(&mut line, id.as_str());
    line
}

pub fn human_summary(summary: &str) -> (text: String)
    ensures
        text@ == summary_line(summary@),
{
    let line = labelled("summary: ", summary);
    string_of(line.as_slice())
}

/// A label and a text as it is shown.
fn labelled(label: &str, value: &str) -> (line: Vec<char>)
    ensures
        line@ == label@ + shown(value@),
{
    let text = bounded_redacted_text(value);
    concat2(label, text.as_str())
}

pub open spec fn or_none(text: Option<Seq<char>>) -> Seq<char> {
    match text {
        Some(t) => t,
        None => "none"@,
    }
}

pub open spec fn int_or_none(n: Option<i64>) -> Seq<char> {
    match n {
        Some(v) => decimal(v as int),
        None => "none"@,
    }
}

/// A label and an optional text as it is shown.
fn labelled_optional(label: &str, value: &Option<String>) -> (line: Vec<char>)
    ensures
        line@ == label@ + or_none(optional_shown(optional_text(*value))),
{
    match value {
        Some(text) => labelled(label, text.as_str()),
        None => concat2(label, "none"),
    }
}

fn append_optional_int(line: &mut Vec<char>, n: Option<i64>)
    ensures
        final(line)@ == old(line)@ + int_or_none(n),
{
    match n {
        Some(v) => append_int(line, v),
        None => append_text(line, "none"),
    }
}

fn safe_optional(value: &Option<String>) -> (json: Json)
    ensures
        json@ == optional_tree(optional_shown(optional_text(*value))),
{
    match value {
        Some(text) => Json::Text(bounded_redacted_text(text.as_str())),
        None => Json::Null,
    }
}

fn safe_text(value: &str) -> (json: Json)
    ensures
        json@ == JsonTree::Text(shown(value@)),
{
    Json::Text(bounded_redacted_text(value))
}

/// The colour code of a state, where it has one.
pub open spec fn state_color(state: Seq<char>) -> Option<Seq<char>> {
    if state == "running"@ || state == "completed"@ || state == "confirmed"@ {
        Some("32"@)
    } else if state == "queued"@ || state == "pending"@ || state == "claimed"@ || state
        == "starting"@ {
        Some("33"@)
    } else if state == "failed"@ || state == "timed_out"@ || state == "cancelled"@ || state
        == "halted"@ {
        Some("31"@)
    } else {
        None
    }
}

/// A state as it is shown: in lower case, and coloured where colours are used.
pub open spec fn state_form(state: Seq<char>, ansi: bool) -> Seq<char> {
    let plain = lowered(state);
    if ansi && state_color(plain) is Some {
        "\x1b["@ + state_color(plain)->0 + "m"@ + plain + "\x1b[0m"@
    } else {
        plain
    }
}

fn state_chars(state: &str, ansi: bool) -> (line: Vec<char>)
    ensures
        line@ == state_form(state@, ansi),
{
    let chars = chars_of(state);
    let plain = to_lowered(chars.as_slice());
    if !ansi {
        return plain;
    }
    let p = plain.as_slice();
    let color = if spells(p, "running") || spells(p, "completed") || spells(p, "confirmed") {
        "32"
    } else if spells(p, "queued") || spells(p, "pending") || spells(p, "claimed") || spells(
        p,
        "starting",
    ) {
        "33"
    } else if spells(p, "failed") || spells(p, "timed_out") || spells(p, "cancelled") || spells(
        p,
        "halted",
    ) {
        "31"
    } else {
        return plain;
    };
    let mut line = concat2("\x1b[", color);
    append_text(&mut line, "m");
    extend(&mut line, p);
    append_text(&mut line, "\x1b[0m");
    line
}

/// A state as it is shown.
pub fn format_state(state: &str, ansi: bool) -> (text: String)
    ensures
        text@ == state_form(state@, ansi),
{
    let line = state_chars(state, ansi);
    string_of(line.as_slice())
}

fn labelled_state(label: &str, state: &str, ansi: bool) -> (line: Vec<char>)
    ensures
        line@ == label@ + state_form(state@, ansi),
{
    let mut line = chars_of(label);
    let shown_state = state_chars(state, ansi);
    extend(&mut line, shown_state.as_slice());
    line
}

// ---------------------------------------------------------------------------
// Reports
// ---------------------------------------------------------------------------
/// A name and how often it occurs.
#[derive(Debug, Clone, PartialEq, Eq)]
pub struct Count {
    pub key: String,
    pub count: i64,
}

/// The counts come in the order of their names, none twice.
pub open spec fn is_in_name_order(counts: Seq<Count>) -> bool {
    forall|i: int, j: int|
        0 <= i < j < counts.len() ==> text_less(
            #[trigger] counts[i].key@,
            #[trigger] counts[j].key@,
        )
}

pub open spec fn total(counts: Seq<Count>) -> int
    decreases counts.len(),
{
    if counts.len() == 0 {
        0
    } else {
        total(counts.drop_last()) + counts.last().count
    }
}

/// Every partial sum of the counts is a 64-bit number.
pub open spec fn sums_fit(counts: Seq<Count>) -> bool {
    forall|n: int|
        0 <= n <= counts.len() ==> i64::MIN <= #[trigger] total(counts.take(n)) <= i64::MAX
}

fn sum_counts(counts: &Vec<Count>) -> (sum: i64)
    requires
        sums_fit(counts@),
    ensures
        sum == total(counts@),
{
    let mut sum: i64 = 0;
    let mut at: usize = 0;
    proof {
        assert(counts@.take(0) =~= Seq::<Count>::empty());
    }
    while at < counts.len()
        invariant
            at <= counts@.len(),
            sums_fit(counts@),
            sum == total(counts@.take(at as int)),
        decreases counts.len() - at,
    {
        proof {
            assert(counts@.take(at + 1).drop_last() =~= counts@.take(at as int));
            assert(counts@.take(at + 1).last() == counts@[at as int]);
            assert(i64::MIN <= total(counts@.take(at + 1)) <= i64::MAX);
        }
        sum = sum + counts[at].count;
        at = at + 1;
    }
    proof {
        assert(counts@.take(counts@.len() as int) =~= counts@);
    }
    sum
}

pub open spec fn count_texts(counts: Seq<Count>) -> Seq<Seq<char>> {
    Seq::new(
        counts.len(),
        |i: int| shown(counts[i].key@) + "="@ + decimal(counts[i].count as int),
    )
}

pub open spec fn counts_line(counts: Seq<Count>) -> Seq<char> {
    if counts.len() == 0 {
        "none"@
    } else {
        joined(count_texts(counts), ","@)
    }
}

pub open spec fn counts_map(counts: Seq<Count>) -> Map<Seq<char>, JsonTree>
    decreases counts.len(),
{
    if counts.len() == 0 {
        Map::empty()
    } else {
        counts_map(counts.drop_last()).insert(
            counts.last().key@,
            JsonTree::Int(counts.last().count as int),
        )
    }
}

fn render_counts(counts: &Vec<Count>) -> (line: Vec<char>)
    ensures
        line@ == counts_line(counts@),
{
    if counts.len() == 0 {
        return chars_of("none");
    }
    let mut parts: Vec<Vec<char>> = Vec::new();
    let mut at: usize = 0;
    proof {
        assert(views(parts@) =~= count_texts(counts@).take(0));
    }
    while at < counts.len()
        invariant
            at <= counts@.len(),
            views(parts@) == count_texts(counts@).take(at as int),
        decreases counts.len() - at,
    {
        let key = bounded_redacted_text(counts[at].key.as_str());
        let mut part = concat2(key.as_str(), "=");
        append_int(&mut part, counts[at].count);
        let ghost before = parts@;
        parts.push(part);
        at = at + 1;
        proof {
            assert(views(parts@) =~= views(before).push(part@));
            assert(count_texts(counts@).take(at as int) =~= count_texts(counts@).take(at - 1).push(
                count_texts(counts@)[at - 1],
            ));
        }
    }
    proof {
        assert(count_texts(counts@).take(counts@.len() as int) =~= count_texts(counts@));
    }
    join(&parts, ",")
}

fn counts_json(counts: &Vec<Count>) -> (json: Json)
    ensures
        json@ == JsonTree::Record(counts_map(counts@)),
{
    let mut members: Vec<Member> = Vec::new();
    let mut at: usize = 0;
    proof {
        assert(counts@.take(0) =~= Seq::<Count>::empty());
    }
    while at < counts.len()
        invariant
            at <= counts@.len(),
            map_of(members@) == counts_map(counts@.take(at as int)),
        decreases counts.len() - at,
    {
        proof {
            assert(counts@.take(at + 1).drop_last() =~= counts@.take(at as int));
            assert(counts@.take(at + 1).last() == counts@[at as int]);
        }
        put(&mut members, counts[at].key.as_str(), Json::Int(counts[at].count));
        at = at + 1;
    }
    proof {
        assert(counts@.take(counts@.len() as int) =~= counts@);
    }
    Json::Record(members)
}

pub open spec fn int_list(ids: Seq<i64>) -> JsonTree {
    JsonTree::List(Seq::new(ids.len(), |i: int| JsonTree::Int(ids[i] as int)))
}

fn ids_json(ids: &Vec<i64>) -> (json: Json)
    ensures
        json@ == int_list(ids@),
{
    let mut items: Vec<Json> = Vec::new();
    let mut at: usize = 0;
    while at < ids.len()
        invariant
            at <= ids@.len(),
            items@.len() == at,
            forall|i: int| 0 <= i < at ==> (#[trigger] items@[i])@ == JsonTree::Int(ids@[i] as int),
        decreases ids.len() - at,
    {
        items.push(Json::Int(ids[at]));
        at = at + 1;
    }
    let json = Json::List(items);
    proof {
        assert(json@->List_0 =~= int_list(ids@)->List_0);
    }
    json
}

pub open spec fn id_texts(ids: Seq<i64>) -> Seq<Seq<char>> {
    Seq::new(ids.len(), |i: int| decimal(ids[i] as int))
}

pub open spec fn ids_line(ids: Seq<i64>) -> Seq<char> {
    if ids.len() == 0 {
        "none"@
    } else {
        joined(id_texts(ids), ","@)
    }
}

fn render_ids(ids: &Vec<i64>) -> (line: Vec<char>)
    ensures
        line@ == ids_line(ids@),
{
    if ids.len() == 0 {
        return chars_of("none");
    }
    let mut parts: Vec<Vec<char>> = Vec::new();
    let mut at: usize = 0;
    proof {
        assert(views(parts@) =~= id_texts(ids@).take(0));
    }
    while at < ids.len()
        invariant
            at <= ids@.len(),
            views(parts@) == id_texts(ids@).take(at as int),
        decreases ids.len() - at,
    {
        let part = decimal_chars(ids[at]);
        let ghost before = parts@;
        parts.push(part);
        at = at + 1;
        proof {
            assert(views(parts@) =~= views(before).push(part@));
            assert(id_texts(ids@).take(at as int) =~= id_texts(ids@).take(at - 1).push(
                decimal(ids@[at - 1] as int),
            ));
        }
    }
    proof {
        assert(id_texts(ids@).take(ids@.len() as int) =~= id_texts(ids@));
    }
    join(&parts, ",")
}

/// Appends a line to lines.
fn add_line(lines: &mut Vec<Vec<char>>, line: Vec<char>)
    ensures
        views(final(lines)@) == views(old(lines)@).push(line@),
{
    let ghost before = lines@;
    lines.push(line);
    proof {
        assert(views(lines@) =~= views(before).push(line@));
    }
}

fn no_lines() -> (lines: Vec<Vec<char>>)
    ensures
        views(lines@) == Seq::<Seq<char>>::empty(),
{
    let lines: Vec<Vec<char>> = Vec::new();
    proof {
        assert(views(lines@) =~= Seq::<Seq<char>>::empty());
    }
    lines
}

fn finish_lines(lines: &Vec<Vec<char>>) -> (text: Result<String, AppError>)
    ensures
        text is Ok,
        text->Ok_0@ == joined(views(lines@), "\n"@),
{
    let all = join(lines, "\n");
    Ok(string_of(all.as_slice()))
}

fn finish_json(members: Vec<Member>, operation: &'static str) -> (text: Result<String, AppError>)
    ensures
        text is Ok,
        text->Ok_0@ == json_text(JsonTree::Record(map_of(members@))),
{
    match render(&Json::Record(members)) {
        Some(text) => Ok(text),
        None => Err(AppError::Serialization { operation }),
    }
}

/// The lines of the report on a campaign.
pub open spec fn campaign_status_lines(
    campaign: Campaign,
    proposal_count: int,
    experiment_counts: Seq<Count>,
    budget_usage: Seq<Count>,
    task_ids: Seq<i64>,
    ansi: bool,
) -> Seq<Seq<char>> {
    seq![
        header_line("campaign status"@, campaign.project_id@),
        "campaign: "@ + shown(campaign.campaign_id@),
        "state: "@ + state_form(campaign.state.label(), ansi),
        "state_reason: "@ + or_none(optional_shown(optional_text(campaign.state_reason))),
        "objective_digest: "@ + shown(campaign.objective_digest@),
        "baseline_experiment: "@ + or_none(
            optional_shown(optional_text(campaign.baseline_experiment_id)),
        ),
        "counts: proposals="@ + decimal(proposal_count) + " experiments="@ + decimal(
            total(experiment_counts),
        ) + " states="@ + counts_line(experiment_counts),
        "budget_usage: "@ + counts_line(budget_usage),
        "task_ids: "@ + ids_line(task_ids),
        "timestamps: created_at="@ + decimal(campaign.created_at as int) + " updated_at="@
            + decimal(campaign.updated_at as int) + " next_eligible_at="@ + int_or_none(
            campaign.next_eligible_at,
        ),
        summary_line("campaign state inspected"@),
    ]
}

pub open spec fn int_tree(n: Option<i64>) -> JsonTree {
    match n {
        Some(v) => JsonTree::Int(v as int),
        None => JsonTree::Null,
    }
}

/// The JSON of the report on a campaign.
pub open spec fn campaign_status_tree(
    campaign: Campaign,
    proposal_count: int,
    experiment_counts: Seq<Count>,
    budget_usage: Seq<Count>,
    task_ids: Seq<i64>,
) -> JsonTree {
    let counts = Map::<Seq<char>, JsonTree>::empty().insert(
        "proposals"@,
        JsonTree::Int(proposal_count),
    ).insert("experiments"@, JsonTree::Int(total(experiment_counts))).insert(
        "experiment_states"@,
        JsonTree::Record(counts_map(experiment_counts)),
    );
    JsonTree::Record(
        Map::<Seq<char>, JsonTree>::empty().insert("schema_version"@, JsonTree::Int(1)).insert(
            "project_id"@,
            JsonTree::Text(shown(campaign.project_id@)),
        ).insert("campaign_id"@, JsonTree::Text(shown(campaign.campaign_id@))).insert(
            "state"@,
            JsonTree::Text(campaign.state.label()),
        ).insert(
            "state_reason"@,
            optional_tree(optional_shown(optional_text(campaign.state_reason))),
        ).insert("objective_digest"@, JsonTree::Text(shown(campaign.objective_digest@))).insert(
            "baseline_experiment_id"@,
            optional_tree(optional_shown(optional_text(campaign.baseline_experiment_id))),
        ).insert("next_eligible_at"@, int_tree(campaign.next_eligible_at)).insert(
            "created_at"@,
            JsonTree::Int(campaign.created_at as int),
        ).insert("updated_at"@, JsonTree::Int(campaign.updated_at as int)).insert(
            "counts"@,
            JsonTree::Record(counts),
        ).insert("budget_usage"@, JsonTree::Record(counts_map(budget_usage))).insert(
            "task_ids"@,
            int_list(task_ids),
        ),
    )
}

/// The report on a campaign.
pub fn render_campaign_status(
    campaign: &Campaign,
    proposal_count: i64,
    experiment_counts: &Vec<Count>,
    budget_usage: &Vec<Count>,
    task_ids: &Vec<i64>,
    json: bool,
    ansi: bool,
) -> (text: Result<String, AppError>)
    requires
        sums_fit(experiment_counts@),
        is_in_name_order(experiment_counts@),
        is_in_name_order(budget_usage@),
    ensures
        text is Ok,
        text->Ok_0@ == (if json {
            json_text(
                campaign_status_tree(
                    *campaign,
                    proposal_count as int,
                    experiment_counts@,
                    budget_usage@,
                    task_ids@,
                ),
            )
        } else {
            joined(
                campaign_status_lines(
                    *campaign,
                    proposal_count as int,
                    experiment_counts@,
                    budget_usage@,
                    task_ids@,
                    ansi,
                ),
                "\n"@,
            )
        }),
{
    let experiment_count: i64 = sum_counts(experiment_counts);
    if json {
        let mut counts: Vec<Member> = Vec::new();
        put(&mut counts, "proposals", Json::Int(proposal_count));
        put(&mut counts, "experiments", Json::Int(experiment_count));
        put(&mut counts, "experiment_states", counts_json(experiment_counts));
        let mut members: Vec<Member> = Vec::new();
        put(&mut members, "schema_version", Json::Int(1));
        put(&mut members, "project_id", safe_text(campaign.project_id.as_str()));
        put(&mut members, "campaign_id", safe_text(campaign.campaign_id.as_str()));
        put(&mut members, "state", text_value(campaign.state.as_str()));
        put(&mut members, "state_reason", safe_optional(&campaign.state_reason));
        put(&mut members, "objective_digest", safe_text(campaign.objective_digest.as_str()));
        put(
            &mut members,
            "baseline_experiment_id",
            safe_optional(&campaign.baseline_experiment_id),
        );
        put(&mut members, "next_eligible_at", optional_int(campaign.next_eligible_at));
        put(&mut members, "created_at", Json::Int(campaign.created_at));
        put(&mut members, "updated_at", Json::Int(campaign.updated_at));
        put(&mut members, "counts", Json::Record(counts));
        put(&mut members, "budget_usage", counts_json(budget_usage));
        put(&mut members, "task_ids", ids_json(task_ids));
        return finish_json(members, "serialize campaign status");
    }
    let mut lines = no_lines();
    add_line(&mut lines, header_chars("campaign status", campaign.project_id.as_str()));
    add_line(&mut lines, labelled("campaign: ", campaign.campaign_id.as_str()));
    add_line(&mut lines, labelled_state("state: ", campaign.state.as_str(), ansi));
    add_line(&mut lines, labelled_optional("state_reason: ", &campaign.state_reason));
    add_line(&mut lines, labelled("objective_digest: ", campaign.objective_digest.as_str()));
    add_line(
        &mut lines,
        labelled_optional("baseline_experiment: ", &campaign.baseline_experiment_id),
    );
    let mut counts = chars_of("counts: proposals=");
    append_int(&mut counts, proposal_count);
    append_text(&mut counts, " experiments=");
    append_int(&mut counts, experiment_count);
    append_text(&mut counts, " states=");
    let states = render_counts(experiment_counts);
    extend(&mut counts, states.as_slice());
    add_line(&mut lines, counts);
    let mut usage = chars_of("budget_usage: ");
    let used = render_counts(budget_usage);
    extend(&mut usage, used.as_slice());
    add_line(&mut lines, usage);
    let mut tasks = chars_of("task_ids: ");
    let ids = render_ids(task_ids);
    extend(&mut tasks, ids.as_slice());
    add_line(&mut lines, tasks);
    let mut stamps = chars_of("timestamps: created_at=");
    append_int(&mut stamps, campaign.created_at);
    append_text(&mut stamps, " updated_at=");
    append_int(&mut stamps, campaign.updated_at);
    append_text(&mut stamps, " next_eligible_at=");
    append_optional_int(&mut stamps, campaign.next_eligible_at);
    add_line(&mut lines, stamps);
    add_line(&mut lines, labelled("summary: ", "campaign state inspected"));
    proof {
        assert(views(lines@) =~= campaign_status_lines(
            *campaign,
            proposal_count as int,
            experiment_counts@,
            budget_usage@,
            task_ids@,
            ansi,
        ));
    }
    finish_lines(&lines)
}

/// The lines of the report on a change of a campaign.
pub open spec fn campaign_mutation_lines(campaign: Campaign, operation: Seq<char>, ansi: bool) -> Seq<
    Seq<char>,
> {
    seq![
        header_line("campaign "@ + operation, campaign.project_id@),
        "campaign: "@ + shown(campaign.campaign_id@),
        "state: "@ + state_form(campaign.state.label(), ansi),
        "state_reason: "@ + or_none(optional_shown(optional_text(campaign.state_reason))),
        "updated_at: "@ + decimal(campaign.updated_at as int),
        summary_line("campaign "@ + operation + " complete"@),
    ]
}

/// The JSON of the report on a change of a campaign.
pub open spec fn campaign_mutation_tree(campaign: Campaign, operation: Seq<char>) -> JsonTree {
    JsonTree::Record(
        Map::<Seq<char>, JsonTree>::empty().insert("schema_version"@, JsonTree::Int(1)).insert(
            "operation"@,
            JsonTree::Text(operation),
        ).insert("project_id"@, JsonTree::Text(shown(campaign.project_id@))).insert(
            "campaign_id"@,
            JsonTree::Text(shown(campaign.campaign_id@)),
        ).insert("state"@, JsonTree::Text(campaign.state.label())).insert(
            "state_reason"@,
            optional_tree(optional_shown(optional_text(campaign.state_reason))),
        ).insert("updated_at"@, JsonTree::Int(campaign.updated_at as int)),
    )
}

/// The report on a change of a campaign.
pub fn render_campaign_mutation(
    campaign: &Campaign,
    operation: &'static str,
    json: bool,
    ansi: bool,
) -> (text: Result<String, AppError>)
    ensures
        text is Ok,
        text->Ok_0@ == (if json {
            json_text(campaign_mutation_tree(*campaign, operation@))
        } else {
            joined(campaign_mutation_lines(*campaign, operation@, ansi), "\n"@)
        }),
{
    if json {
        let mut members: Vec<Member> = Vec::new();
        put(&mut members, "schema_version", Json::Int(1));
        put(&mut members, "operation", text_value(operation));
        put(&mut members, "project_id", safe_text(campaign.project_id.as_str()));
        put(&mut members, "campaign_id", safe_text(campaign.campaign_id.as_str()));
        put(&mut members, "state", text_value(campaign.state.as_str()));
        put(&mut members, "state_reason", safe_optional(&campaign.state_reason));
        put(&mut members, "updated_at", Json::Int(campaign.updated_at));
        return finish_json(members, "serialize campaign mutation");
    }
    let mut lines = no_lines();
    let command = concat2("campaign ", operation);
    let command_text = string_of(command.as_slice());
    add_line(&mut lines, header_chars(command_text.as_str(), campaign.project_id.as_str()));
    add_line(&mut lines, labelled("campaign: ", campaign.campaign_id.as_str()));
    add_line(&mut lines, labelled_state("state: ", campaign.state.as_str(), ansi));
    add_line(&mut lines, labelled_optional("state_reason: ", &campaign.state_reason));
    let mut updated = chars_of("updated_at: ");
    append_int(&mut updated, campaign.updated_at);
    add_line(&mut lines, updated);
    let mut summary = concat2("campaign ", operation);
    append_text(&mut summary, " complete");
    let summary_text = string_of(summary.as_slice());
    add_line(&mut lines, labelled("summary: ", summary_text.as_str()));
    proof {
        assert(views(lines@) =~= campaign_mutation_lines(*campaign, operation@, ansi));
    }
    finish_lines(&lines)
}

// ---------------------------------------------------------------------------
// Proposals
// ---------------------------------------------------------------------------
/// What the list of proposals says of one of them.
pub open spec fn proposal_map(proposal: Proposal) -> Map<Seq<char>, JsonTree> {
    Map::<Seq<char>, JsonTree>::empty().insert(
        "proposal_id"@,
        JsonTree::Text(shown(proposal.proposal_id@)),
    ).insert("campaign_id"@, JsonTree::Text(shown(proposal.campaign_id@))).insert(
        "kind"@,
        JsonTree::Text(proposal.kind.label()),
    ).insert("status"@, JsonTree::Text(proposal.status.label())).insert(
        "source_experiment_id"@,
        optional_tree(optional_shown(optional_text(proposal.source_experiment_id))),
    ).insert(
        "reject_reason"@,
        optional_tree(optional_shown(optional_text(proposal.reject_reason))),
    ).insert("created_at"@, JsonTree::Int(proposal.created_at as int)).insert(
        "updated_at"@,
        JsonTree::Int(proposal.updated_at as int),
    )
}

fn proposal_list_value(proposal: &Proposal) -> (members: Vec<Member>)
    ensures
        map_of(members@) == proposal_map(*proposal),
{
    let mut members: Vec<Member> = Vec::new();
    put(&mut members, "proposal_id", safe_text(proposal.proposal_id.as_str()));
    put(&mut members, "campaign_id", safe_text(proposal.campaign_id.as_str()));
    put(&mut members, "kind", text_value(proposal.kind.as_str()));
    put(&mut members, "status", text_value(proposal.status.as_str()));
    put(&mut members, "source_experiment_id", safe_optional(&proposal.source_experiment_id));
    put(&mut members, "reject_reason", safe_optional(&proposal.reject_reason));
    put(&mut members, "created_at", Json::Int(proposal.created_at));
    put(&mut members, "updated_at", Json::Int(proposal.updated_at));
    members
}

/// The line on a proposal in a list.
pub open spec fn proposal_line(proposal: Proposal, ansi: bool) -> Seq<char> {
    "proposal="@ + shown(proposal.proposal_id@) + " kind="@ + proposal.kind.label() + " state="@
        + state_form(proposal.status.label(), ansi) + " source_experiment="@ + or_none(
        optional_shown(optional_text(proposal.source_experiment_id)),
    ) + " created_at="@ + decimal(proposal.created_at as int) + " updated_at="@ + decimal(
        proposal.updated_at as int,
    )
}

fn append_state(line: &mut Vec<char>, state: &str, ansi: bool)
    ensures
        final(line)@ == old(line)@ + state_form(state@, ansi),
{
    let chars = state_chars(state, ansi);
    extend(line, chars.as_slice());
}

fn append_shown(line: &mut Vec<char>, value: &str)
    ensures
        final(line)@ == old(line)@ + shown(value@),
{
    let text = bounded_redacted_text(value);
    append_text(line, text.as_str());
}

fn append_optional_shown(line: &mut Vec<char>, value: &Option<String>)
    ensures
        final(line)@ == old(line)@ + or_none(optional_shown(optional_text(*value))),
{
    match value {
        Some(text) => append_shown(line, text.as_str()),
        None => append_text(line, "none"),
    }
}

fn proposal_chars(proposal: &Proposal, ansi: bool) -> (line: Vec<char>)
    ensures
        line@ == proposal_line(*proposal, ansi),
{
    let mut line = labelled("proposal=", proposal.proposal_id.as_str());
    append_text(&mut line, " kind=");
    append_text(&mut line, proposal.kind.as_str());
    append_text(&mut line, " state=");
    append_state(&mut line, proposal.status.as_str(), ansi);
    append_text(&mut line, " source_experiment=");
    append_optional_shown(&mut line, &proposal.source_experiment_id);
    append_text(&mut line, " created_at=");
    append_int(&mut line, proposal.created_at);
    append_text(&mut line, " updated_at=");
    append_int(&mut line, proposal.updated_at);
    line
}

pub open spec fn proposal_lines(proposals: Seq<Proposal>, ansi: bool) -> Seq<Seq<char>> {
    Seq::new(proposals.len(), |i: int| proposal_line(proposals[i], ansi))
}

pub open spec fn proposal_trees(proposals: Seq<Proposal>) -> Seq<JsonTree> {
    Seq::new(proposals.len(), |i: int| JsonTree::Record(proposal_map(proposals[i])))
}

/// The JSON of a list that belongs to a campaign.
pub open spec fn campaign_list_tree(campaign: Campaign, key: Seq<char>, items: Seq<JsonTree>) -> JsonTree {
    JsonTree::Record(
        Map::<Seq<char>, JsonTree>::empty().insert("schema_version"@, JsonTree::Int(1)).insert(
            "project_id"@,
            JsonTree::Text(shown(campaign.project_id@)),
        ).insert("campaign_id"@, JsonTree::Text(shown(campaign.campaign_id@))).insert(
            key,
            JsonTree::List(items),
        ),
    )
}

/// The lines of a list that belongs to a campaign.
pub open spec fn campaign_list_lines(
    campaign: Campaign,
    command: Seq<char>,
    items: Seq<Seq<char>>,
    noun: Seq<char>,
) -> Seq<Seq<char>> {
    seq![header_line(command, campaign.project_id@), "campaign: "@ + shown(campaign.campaign_id@)]
        + items + seq![summary_line(digits_of(items.len()) + noun)]
}

/// The list of the proposals of a campaign.
pub fn render_proposal_list(
    campaign: &Campaign,
    proposals: &[Proposal],
    json: bool,
    ansi: bool,
) -> (text: Result<String, AppError>)
    ensures
        text is Ok,
        text->Ok_0@ == (if json {
            json_text(campaign_list_tree(*campaign, "proposals"@, proposal_trees(proposals@)))
        } else {
            joined(
                campaign_list_lines(
                    *campaign,
                    "proposal list"@,
                    proposal_lines(proposals@, ansi),
                    " proposal(s)"@,
                ),
                "\n"@,
            )
        }),
{
    if json {
        let mut items: Vec<Json> = Vec::new();
        let mut at: usize = 0;
        while at < proposals.len()
            invariant
                at <= proposals@.len(),
                items@.len() == at,
                forall|i: int|
                    0 <= i < at ==> (#[trigger] items@[i])@ == JsonTree::Record(
                        proposal_map(proposals@[i]),
                    ),
            decreases proposals.len() - at,
        {
            items.push(Json::Record(proposal_list_value(&proposals[at])));
            at = at + 1;
        }
        let list = Json::List(items);
        proof {
            assert(list@->List_0 =~= proposal_trees(proposals@));
        }
        return list_json(campaign, "proposals", list, "serialize campaign proposal list");
    }
    let mut lines = list_start(campaign, "proposal list");
    let ghost start = views(lines@);
    let mut at: usize = 0;
    while at < proposals.len()
        invariant
            at <= proposals@.len(),
            views(lines@) == start + proposal_lines(proposals@, ansi).take(at as int),
        decreases proposals.len() - at,
    {
        let ghost before = views(lines@);
        add_line(&mut lines, proposal_chars(&proposals[at], ansi));
        proof {
            assert(before.push(proposal_line(proposals@[at as int], ansi)) =~= start
                + proposal_lines(proposals@, ansi).take(at + 1));
        }
        at = at + 1;
    }
    list_end(&mut lines, proposals.len() as u64, " proposal(s)");
    proof {
        assert(views(lines@) =~= campaign_list_lines(
            *campaign,
            "proposal list"@,
            proposal_lines(proposals@, ansi),
            " proposal(s)"@,
        ));
    }
    finish_lines(&lines)
}

fn list_json(
    campaign: &Campaign,
    key: &str,
    list: Json,
    operation: &'static str,
) -> (text: Result<String, AppError>)
    requires
        list@ is List,
    ensures
        text is Ok,
        text->Ok_0@ == json_text(campaign_list_tree(*campaign, key@, list@->List_0)),
{
    let mut members: Vec<Member> = Vec::new();
    put(&mut members, "schema_version", Json::Int(1));
    put(&mut members, "project_id", safe_text(campaign.project_id.as_str()));
    put(&mut members, "campaign_id", safe_text(campaign.campaign_id.as_str()));
    put(&mut members, key, list);
    finish_json(members, operation)
}

fn list_start(campaign: &Campaign, command: &str) -> (lines: Vec<Vec<char>>)
    ensures
        views(lines@) == seq![
            header_line(command@, campaign.project_id@),
            "campaign: "@ + shown(campaign.campaign_id@),
        ],
{
    let mut lines = no_lines();
    add_line(&mut lines, header_chars(command, campaign.project_id.as_str()));
    add_line(&mut lines, labelled("campaign: ", campaign.campaign_id.as_str()));
    lines
}

fn list_end(lines: &mut Vec<Vec<char>>, count: u64, noun: &str)
    ensures
        views(final(lines)@) == views(old(lines)@).push(summary_line(digits_of(count as nat) + noun@)),
{
    let mut summary = decimal_digits(count);
    append_text(&mut summary, noun);
    let text = string_of(summary.as_slice());
    add_line(lines, labelled("summary: ", text.as_str()));
}

pub open spec fn shown_texts(texts: Seq<String>) -> Seq<Seq<char>> {
    Seq::new(texts.len(), |i: int| shown(texts[i]@))
}

pub open spec fn evidence_line(texts: Seq<String>) -> Seq<char> {
    if texts.len() == 0 {
        "none"@
    } else {
        joined(shown_texts(texts), ", "@)
    }
}

fn shown_chars(texts: &Vec<String>) -> (parts: Vec<Vec<char>>)
    ensures
        views(parts@) == shown_texts(texts@),
{
    let mut parts = no_lines();
    let mut at: usize = 0;
    proof {
        assert(shown_texts(texts@).take(0) =~= Seq::<Seq<char>>::empty());
    }
    while at < texts.len()
        invariant
            at <= texts@.len(),
            views(parts@) == shown_texts(texts@).take(at as int),
        decreases texts.len() - at,
    {
        proof {
            assert(shown_texts(texts@).take(at + 1) =~= shown_texts(texts@).take(at as int).push(
                shown(texts@[at as int]@),
            ));
        }
        add_line(&mut parts, labelled("", texts[at].as_str()));
        proof {
            reveal_strlit("");
            assert(""@ + shown(texts@[at as int]@) =~= shown(texts@[at as int]@));
        }
        at = at + 1;
    }
    proof {
        assert(shown_texts(texts@).take(texts@.len() as int) =~= shown_texts(texts@));
    }
    parts
}

fn shown_list(texts: &Vec<String>) -> (json: Json)
    ensures
        json@ == text_list(shown_texts(texts@)),
{
    let mut items: Vec<Json> = Vec::new();
    let mut at: usize = 0;
    while at < texts.len()
        invariant
            at <= texts@.len(),
            items@.len() == at,
            forall|i: int| 0 <= i < at ==> (#[trigger] items@[i])@ == JsonTree::Text(shown(texts@[i]@)),
        decreases texts.len() - at,
    {
        items.push(safe_text(texts[at].as_str()));
        at = at + 1;
    }
    let json = Json::List(items);
    proof {
        assert(json@->List_0 =~= text_list(shown_texts(texts@))->List_0);
    }
    json
}

/// The lines of the report on a proposal.
pub open spec fn proposal_inspection_lines(campaign: Campaign, proposal: Proposal, ansi: bool) -> Seq<
    Seq<char>,
> {
    seq![
        header_line("proposal inspect"@, campaign.project_id@),
        "proposal: "@ + shown(proposal.proposal_id@),
        "campaign: "@ + shown(proposal.campaign_id@),
        "kind: "@ + proposal.kind.label(),
        "state: "@ + state_form(proposal.status.label(), ansi),
        "hypothesis: "@ + shown(proposal.hypothesis@),
        "expected_evidence: "@ + evidence_line(proposal.expected_evidence@),
        "canonical_digest: "@ + shown(proposal.canonical_digest@),
        "timestamps: created_at="@ + decimal(proposal.created_at as int) + " updated_at="@
            + decimal(proposal.updated_at as int),
        summary_line("proposal inspected"@),
    ]
}

/// The JSON of the report on a proposal.
pub open spec fn proposal_inspection_tree(campaign: Campaign, proposal: Proposal) -> JsonTree {
    JsonTree::Record(
        proposal_map(proposal).insert(
            "hypothesis"@,
            JsonTree::Text(shown(proposal.hypothesis@)),
        ).insert(
            "expected_evidence"@,
            text_list(shown_texts(proposal.expected_evidence@)),
        ).insert("canonical_digest"@, JsonTree::Text(shown(proposal.canonical_digest@))).insert(
            "project_id"@,
            JsonTree::Text(shown(campaign.project_id@)),
        ).insert("schema_version"@, JsonTree::Int(1)),
    )
}

/// The report on a proposal.
pub fn render_proposal_inspection(
    campaign: &Campaign,
    proposal: &Proposal,
    json: bool,
    ansi: bool,
) -> (text: Result<String, AppError>)
    ensures
        text is Ok,
        text->Ok_0@ == (if json {
            json_text(proposal_inspection_tree(*campaign, *proposal))
        } else {
            joined(proposal_inspection_lines(*campaign, *proposal, ansi), "\n"@)
        }),
{
    if json {
        let mut members = proposal_list_value(proposal);
        put(&mut members, "hypothesis", safe_text(proposal.hypothesis.as_str()));
        put(&mut members, "expected_evidence", shown_list(&proposal.expected_evidence));
        put(&mut members, "canonical_digest", safe_text(proposal.canonical_digest.as_str()));
        put(&mut members, "project_id", safe_text(campaign.project_id.as_str()));
        put(&mut members, "schema_version", Json::Int(1));
        return finish_json(members, "serialize campaign proposal inspection");
    }
    let mut lines = no_lines();
    add_line(&mut lines, header_chars("proposal inspect", campaign.project_id.as_str()));
    add_line(&mut lines, labelled("proposal: ", proposal.proposal_id.as_str()));
    add_line(&mut lines, labelled("campaign: ", proposal.campaign_id.as_str()));
    add_line(&mut lines, concat2("kind: ", proposal.kind.as_str()));
    add_line(&mut lines, labelled_state("state: ", proposal.status.as_str(), ansi));
    add_line(&mut lines, labelled("hypothesis: ", proposal.hypothesis.as_str()));
    let mut evidence = chars_of("expected_evidence: ");
    if proposal.expected_evidence.len() == 0 {
        append_text(&mut evidence, "none");
    } else {
        let parts = shown_chars(&proposal.expected_evidence);
        let all = join(&parts, ", ");
        extend(&mut evidence, all.as_slice());
    }
    add_line(&mut lines, evidence);
    add_line(&mut lines, labelled("canonical_digest: ", proposal.canonical_digest.as_str()));
    let mut stamps = chars_of("timestamps: created_at=");
    append_int(&mut stamps, proposal.created_at);
    append_text(&mut stamps, " updated_at=");
    append_int(&mut stamps, proposal.updated_at);
    add_line(&mut lines, stamps);
    add_line(&mut lines, labelled("summary: ", "proposal inspected"));
    proof {
        assert(views(lines@) =~= proposal_inspection_lines(*campaign, *proposal, ansi));
    }
    finish_lines(&lines)
}

// ---------------------------------------------------------------------------
// Experiments
// ---------------------------------------------------------------------------
/// What the list of experiments says of one of them.
pub open spec fn experiment_map(experiment: Experiment) -> Map<Seq<char>, JsonTree> {
    Map::<Seq<char>, JsonTree>::empty().insert(
        "experiment_id"@,
        JsonTree::Text(shown(experiment.experiment_id@)),
    ).insert("campaign_id"@, JsonTree::Text(shown(experiment.campaign_id@))).insert(
        "proposal_id"@,
        JsonTree::Text(shown(experiment.proposal_id@)),
    ).insert("submission_id"@, JsonTree::Text(shown(experiment.submission_id@))).insert(
        "parent_experiment_id"@,
        optional_tree(optional_shown(optional_text(experiment.parent_experiment_id))),
    ).insert("attempt"@, JsonTree::Int(experiment.attempt as int)).insert(
        "status"@,
        JsonTree::Text(experiment.status.label()),
    ).insert("pueue_task_id"@, int_tree(experiment.pueue_task_id)).insert(
        "failure_code"@,
        optional_tree(optional_shown(optional_text(experiment.failure_code))),
    ).insert("created_at"@, JsonTree::Int(experiment.created_at as int)).insert(
        "updated_at"@,
        JsonTree::Int(experiment.updated_at as int),
    ).insert("finished_at"@, int_tree(experiment.finished_at))
}

fn experiment_list_value(experiment: &Experiment) -> (members: Vec<Member>)
    ensures
        map_of(members@) == experiment_map(*experiment),
{
    let mut members: Vec<Member> = Vec::new();
    put(&mut members, "experiment_id", safe_text(experiment.experiment_id.as_str()));
    put(&mut members, "campaign_id", safe_text(experiment.campaign_id.as_str()));
    put(&mut members, "proposal_id", safe_text(experiment.proposal_id.as_str()));
    put(&mut members, "submission_id", safe_text(experiment.submission_id.as_str()));
    put(&mut members, "parent_experiment_id", safe_optional(&experiment.parent_experiment_id));
    put(&mut members, "attempt", Json::Int(experiment.attempt));
    put(&mut members, "status", text_value(experiment.status.as_str()));
    put(&mut members, "pueue_task_id", optional_int(experiment.pueue_task_id));
    put(&mut members, "failure_code", safe_optional(&experiment.failure_code));
    put(&mut members, "created_at", Json::Int(experiment.created_at));
    put(&mut members, "updated_at", Json::Int(experiment.updated_at));
    put(&mut members, "finished_at", optional_int(experiment.finished_at));
    members
}

/// The line on an experiment in a list.
pub open spec fn experiment_line(experiment: Experiment, ansi: bool) -> Seq<char> {
    "experiment="@ + shown(experiment.experiment_id@) + " state="@ + state_form(
        experiment.status.label(),
        ansi,
    ) + " proposal="@ + shown(experiment.proposal_id@) + " submission="@ + shown(
        experiment.submission_id@,
    ) + " task_id="@ + int_or_none(experiment.pueue_task_id) + " created_at="@ + decimal(
        experiment.created_at as int,
    ) + " updated_at="@ + decimal(experiment.updated_at as int)
}

fn experiment_chars(experiment: &Experiment, ansi: bool) -> (line: Vec<char>)
    ensures
        line@ == experiment_line(*experiment, ansi),
{
    let mut line = labelled("experiment=", experiment.experiment_id.as_str());
    append_text(&mut line, " state=");
    append_state(&mut line, experiment.status.as_str(), ansi);
    append_text(&mut line, " proposal=");
    append_shown(&mut line, experiment.proposal_id.as_str());
    append_text(&mut line, " submission=");
    append_shown(&mut line, experiment.submission_id.as_str());
    append_text(&mut line, " task_id=");
    append_optional_int(&mut line, experiment.pueue_task_id);
    append_text(&mut line, " created_at=");
    append_int(&mut line, experiment.created_at);
    append_text(&mut line, " updated_at=");
    append_int(&mut line, experiment.updated_at);
    line
}

pub open spec fn experiment_lines(experiments: Seq<Experiment>, ansi: bool) -> Seq<Seq<char>> {
    Seq::new(experiments.len(), |i: int| experiment_line(experiments[i], ansi))
}

pub open spec fn experiment_trees(experiments: Seq<Experiment>) -> Seq<JsonTree> {
    Seq::new(experiments.len(), |i: int| JsonTree::Record(experiment_map(experiments[i])))
}

/// The list of the experiments of a campaign.
pub fn render_experiment_list(
    campaign: &Campaign,
    experiments: &[Experiment],
    json: bool,
    ansi: bool,
) -> (text: Result<String, AppError>)
    ensures
        text is Ok,
        text->Ok_0@ == (if json {
            json_text(campaign_list_tree(*campaign, "experiments"@, experiment_trees(experiments@)))
        } else {
            joined(
                campaign_list_lines(
                    *campaign,
                    "experiment list"@,
                    experiment_lines(experiments@, ansi),
                    " experiment(s)"@,
                ),
                "\n"@,
            )
        }),
{
    if json {
        let mut items: Vec<Json> = Vec::new();
        let mut at: usize = 0;
        while at < experiments.len()
            invariant
                at <= experiments@.len(),
                items@.len() == at,
                forall|i: int|
                    0 <= i < at ==> (#[trigger] items@[i])@ == JsonTree::Record(
                        experiment_map(experiments@[i]),
                    ),
            decreases experiments.len() - at,
        {
            items.push(Json::Record(experiment_list_value(&experiments[at])));
            at = at + 1;
        }
        let list = Json::List(items);
        proof {
            assert(list@->List_0 =~= experiment_trees(experiments@));
        }
        return list_json(campaign, "experiments", list, "serialize campaign experiment list");
    }
    let mut lines = list_start(campaign, "experiment list");
    let ghost start = views(lines@);
    let mut at: usize = 0;
    while at < experiments.len()
        invariant
            at <= experiments@.len(),
            views(lines@) == start + experiment_lines(experiments@, ansi).take(at as int),
        decreases experiments.len() - at,
    {
        let ghost before = views(lines@);
        add_line(&mut lines, experiment_chars(&experiments[at], ansi));
        proof {
            assert(before.push(experiment_line(experiments@[at as int], ansi)) =~= start
                + experiment_lines(experiments@, ansi).take(at + 1));
        }
        at = at + 1;
    }
    list_end(&mut lines, experiments.len() as u64, " experiment(s)");
    proof {
        assert(views(lines@) =~= campaign_list_lines(
            *campaign,
            "experiment list"@,
            experiment_lines(experiments@, ansi),
            " experiment(s)"@,
        ));
    }
    finish_lines(&lines)
}

/// The lines of the report on an experiment.
pub open spec fn experiment_inspection_lines(
    campaign: Campaign,
    experiment: Experiment,
    argv_digest: Seq<char>,
    ansi: bool,
) -> Seq<Seq<char>> {
    seq![
        header_line("experiment inspect"@, campaign.project_id@),
        "experiment: "@ + shown(experiment.experiment_id@),
        "campaign: "@ + shown(experiment.campaign_id@),
        "proposal: "@ + shown(experiment.proposal_id@),
        "submission: "@ + shown(experiment.submission_id@),
        "parent_experiment: "@ + or_none(
            optional_shown(optional_text(experiment.parent_experiment_id)),
        ),
        "attempt: "@ + decimal(experiment.attempt as int),
        "state: "@ + state_form(experiment.status.label(), ansi),
        "task_id: "@ + int_or_none(experiment.pueue_task_id),
        "task_signature: "@ + or_none(optional_shown(optional_text(experiment.task_signature))),
        "argv_digest: "@ + argv_digest,
        "failure_code: "@ + or_none(optional_shown(optional_text(experiment.failure_code))),
        "timestamps: created_at="@ + decimal(experiment.created_at as int) + " updated_at="@
            + decimal(experiment.updated_at as int) + " finished_at="@ + int_or_none(
            experiment.finished_at,
        ),
        summary_line("experiment inspected"@),
    ]
}

/// The JSON of the report on an experiment.
pub open spec fn experiment_inspection_tree(
    campaign: Campaign,
    experiment: Experiment,
    argv_digest: Seq<char>,
) -> JsonTree {
    JsonTree::Record(
        experiment_map(experiment).insert("schema_version"@, JsonTree::Int(1)).insert(
            "project_id"@,
            JsonTree::Text(shown(campaign.project_id@)),
        ).insert("argv_digest"@, JsonTree::Text(argv_digest)).insert(
            "task_signature"@,
            optional_tree(optional_shown(optional_text(experiment.task_signature))),
        ),
    )
}

/// The report on an experiment.
pub fn render_experiment_inspection(
    campaign: &Campaign,
    experiment: &Experiment,
    argv_digest: &str,
    json: bool,
    ansi: bool,
) -> (text: Result<String, AppError>)
    ensures
        text is Ok,
        text->Ok_0@ == (if json {
            json_text(experiment_inspection_tree(*campaign, *experiment, argv_digest@))
        } else {
            joined(
                experiment_inspection_lines(*campaign, *experiment, argv_digest@, ansi),
                "\n"@,
            )
        }),
{
    if json {
        let mut members = experiment_list_value(experiment);
        put(&mut members, "schema_version", Json::Int(1));
        put(&mut members, "project_id", safe_text(campaign.project_id.as_str()));
        put(&mut members, "argv_digest", text_value(argv_digest));
        put(&mut members, "task_signature", safe_optional(&experiment.task_signature));
        return finish_json(members, "serialize campaign experiment inspection");
    }
    let mut lines = no_lines();
    add_line(&mut lines, header_chars("experiment inspect", campaign.project_id.as_str()));
    add_line(&mut lines, labelled("experiment: ", experiment.experiment_id.as_str()));
    add_line(&mut lines, labelled("campaign: ", experiment.campaign_id.as_str()));
    add_line(&mut lines, labelled("proposal: ", experiment.proposal_id.as_str()));
    add_line(&mut lines, labelled("submission: ", experiment.submission_id.as_str()));
    add_line(
        &mut lines,
        labelled_optional("parent_experiment: ", &experiment.parent_experiment_id),
    );
    let mut attempt = chars_of("attempt: ");
    append_int(&mut attempt, experiment.attempt);
    add_line(&mut lines, attempt);
    add_line(&mut lines, labelled_state("state: ", experiment.status.as_str(), ansi));
    let mut task = chars_of("task_id: ");
    append_optional_int(&mut task, experiment.pueue_task_id);
    add_line(&mut lines, task);
    add_line(&mut lines, labelled_optional("task_signature: ", &experiment.task_signature));
    add_line(&mut lines, concat2("argv_digest: ", argv_digest));
    add_line(&mut lines, labelled_optional("failure_code: ", &experiment.failure_code));
    let mut stamps = chars_of("timestamps: created_at=");
    append_int(&mut stamps, experiment.created_at);
    append_text(&mut stamps, " updated_at=");
    append_int(&mut stamps, experiment.updated_at);
    append_text(&mut stamps, " finished_at=");
    append_optional_int(&mut stamps, experiment.finished_at);
    add_line(&mut lines, stamps);
    add_line(&mut lines, labelled("summary: ", "experiment inspected"));
    proof {
        assert(views(lines@) =~= experiment_inspection_lines(
            *campaign,
            *experiment,
            argv_digest@,
            ansi,
        ));
    }
    finish_lines(&lines)
}

/// The status of a campaign tells its own texts as they are shown, its state, its
/// moments, its counts and its tasks.
pub proof fn lemma_status_of_a_campaign(campaign: Campaign, proposal_count: int, experiment_counts: Seq<Count>, budget_usage: Seq<Count>, task_ids: Seq<i64>)
    ensures
        ({
            let tree = campaign_status_tree(campaign, proposal_count, experiment_counts, budget_usage, task_ids);
            &&& field(tree, "schema_version"@) == Some(JsonTree::Int(1))
            &&& field(tree, "project_id"@) == Some(JsonTree::Text(shown(campaign.project_id@)))
            &&& field(tree, "campaign_id"@) == Some(JsonTree::Text(shown(campaign.campaign_id@)))
            &&& field(tree, "state"@) == Some(JsonTree::Text(campaign.state.label()))
            &&& field(tree, "state_reason"@) == Some(optional_tree(optional_shown(optional_text(campaign.state_reason))))
            &&& field(tree, "objective_digest"@) == Some(JsonTree::Text(shown(campaign.objective_digest@)))
            &&& field(tree, "baseline_experiment_id"@) == Some(optional_tree(optional_shown(optional_text(campaign.baseline_experiment_id))))
            &&& field(tree, "next_eligible_at"@) == Some(int_tree(campaign.next_eligible_at))
            &&& field(tree, "created_at"@) == Some(JsonTree::Int(campaign.created_at as int))
            &&& field(tree, "updated_at"@) == Some(JsonTree::Int(campaign.updated_at as int))
            &&& field(tree, "counts"@) == Some(JsonTree::Record(Map::<Seq<char>, JsonTree>::empty().insert("proposals"@, JsonTree::Int(proposal_count)).insert("experiments"@, JsonTree::Int(total(experiment_counts))).insert("experiment_states"@, JsonTree::Record(counts_map(experiment_counts)))))
            &&& field(tree, "budget_usage"@) == Some(JsonTree::Record(counts_map(budget_usage)))
            &&& field(tree, "task_ids"@) == Some(int_list(task_ids))
        }),
{
    reveal_strlit("proposals");
    reveal_strlit("experiments");
    reveal_strlit("experiment_states");
    reveal_strlit("schema_version");
    reveal_strlit("project_id");
    reveal_strlit("campaign_id");
    reveal_strlit("state");
    reveal_strlit("state_reason");
    reveal_strlit("objective_digest");
    reveal_strlit("baseline_experiment_id");
    reveal_strlit("next_eligible_at");
    reveal_strlit("created_at");
    reveal_strlit("updated_at");
    reveal_strlit("counts");
    reveal_strlit("budget_usage");
    reveal_strlit("task_ids");
    assert("proposals"@.len() == 9);
    assert("experiments"@.len() == 11);
    assert("experiment_states"@.len() == 17);
    assert("schema_version"@.len() == 14);
    assert("project_id"@.len() == 10);
    assert("campaign_id"@.len() == 11);
    assert("state"@.len() == 5);
    assert("state_reason"@.len() == 12);
    assert("objective_digest"@.len() == 16);
    assert("baseline_experiment_id"@.len() == 22);
    assert("next_eligible_at"@.len() == 16);
    assert("created_at"@.len() == 10);
    assert("updated_at"@.len() == 10);
    assert("counts"@.len() == 6);
    assert("budget_usage"@.len() == 12);
    assert("task_ids"@.len() == 8);
    assert("experiments"@[0] != "campaign_id"@[0]);
    assert("project_id"@[0] != "created_at"@[0]);
    assert("project_id"@[0] != "updated_at"@[0]);
    assert("state_reason"@[0] != "budget_usage"@[0]);
    assert("objective_digest"@[0] != "next_eligible_at"@[0]);
    assert("created_at"@[0] != "updated_at"@[0]);
}

/// The answer to a change of a campaign tells what was done and what came of it.
pub proof fn lemma_change_of_a_campaign(campaign: Campaign, operation: Seq<char>)
    ensures
        ({
            let tree = campaign_mutation_tree(campaign, operation);
            &&& field(tree, "schema_version"@) == Some(JsonTree::Int(1))
            &&& field(tree, "operation"@) == Some(JsonTree::Text(operation))
            &&& field(tree, "project_id"@) == Some(JsonTree::Text(shown(campaign.project_id@)))
            &&& field(tree, "campaign_id"@) == Some(JsonTree::Text(shown(campaign.campaign_id@)))
            &&& field(tree, "state"@) == Some(JsonTree::Text(campaign.state.label()))
            &&& field(tree, "state_reason"@) == Some(optional_tree(optional_shown(optional_text(campaign.state_reason))))
            &&& field(tree, "updated_at"@) == Some(JsonTree::Int(campaign.updated_at as int))
        }),
{
    reveal_strlit("schema_version");
    reveal_strlit("operation");
    reveal_strlit("project_id");
    reveal_strlit("campaign_id");
    reveal_strlit("state");
    reveal_strlit("state_reason");
    reveal_strlit("updated_at");
    assert("schema_version"@.len() == 14);
    assert("operation"@.len() == 9);
    assert("project_id"@.len() == 10);
    assert("campaign_id"@.len() == 11);
    assert("state"@.len() == 5);
    assert("state_reason"@.len() == 12);
    assert("updated_at"@.len() == 10);
    assert("project_id"@[0] != "updated_at"@[0]);
}

/// A proposal is told by its own texts as they are shown, its kind, its state and
/// its moments.
pub proof fn lemma_record_of_a_proposal(proposal: Proposal)
    ensures
        ({
            let tree = JsonTree::Record(proposal_map(proposal));
            &&& field(tree, "proposal_id"@) == Some(JsonTree::Text(shown(proposal.proposal_id@)))
            &&& field(tree, "campaign_id"@) == Some(JsonTree::Text(shown(proposal.campaign_id@)))
            &&& field(tree, "kind"@) == Some(JsonTree::Text(proposal.kind.label()))
            &&& field(tree, "status"@) == Some(JsonTree::Text(proposal.status.label()))
            &&& field(tree, "source_experiment_id"@) == Some(optional_tree(optional_shown(optional_text(proposal.source_experiment_id))))
            &&& field(tree, "reject_reason"@) == Some(optional_tree(optional_shown(optional_text(proposal.reject_reason))))
            &&& field(tree, "created_at"@) == Some(JsonTree::Int(proposal.created_at as int))
            &&& field(tree, "updated_at"@) == Some(JsonTree::Int(proposal.updated_at as int))
        }),
{
    reveal_strlit("proposal_id");
    reveal_strlit("campaign_id");
    reveal_strlit("kind");
    reveal_strlit("status");
    reveal_strlit("source_experiment_id");
    reveal_strlit("reject_reason");
    reveal_strlit("created_at");
    reveal_strlit("updated_at");
    assert("proposal_id"@.len() == 11);
    assert("campaign_id"@.len() == 11);
    assert("kind"@.len() == 4);
    assert("status"@.len() == 6);
    assert("source_experiment_id"@.len() == 20);
    assert("reject_reason"@.len() == 13);
    assert("created_at"@.len() == 10);
    assert("updated_at"@.len() == 10);
    assert("proposal_id"@[0] != "campaign_id"@[0]);
    assert("created_at"@[0] != "updated_at"@[0]);
}

/// An experiment is told by its own texts as they are shown, its state, its task
/// and its moments.
pub proof fn lemma_record_of_an_experiment(experiment: Experiment)
    ensures
        ({
            let tree = JsonTree::Record(experiment_map(experiment));
            &&& field(tree, "experiment_id"@) == Some(JsonTree::Text(shown(experiment.experiment_id@)))
            &&& field(tree, "campaign_id"@) == Some(JsonTree::Text(shown(experiment.campaign_id@)))
            &&& field(tree, "proposal_id"@) == Some(JsonTree::Text(shown(experiment.proposal_id@)))
            &&& field(tree, "submission_id"@) == Some(JsonTree::Text(shown(experiment.submission_id@)))
            &&& field(tree, "parent_experiment_id"@) == Some(optional_tree(optional_shown(optional_text(experiment.parent_experiment_id))))
            &&& field(tree, "attempt"@) == Some(JsonTree::Int(experiment.attempt as int))
            &&& field(tree, "status"@) == Some(JsonTree::Text(experiment.status.label()))
            &&& field(tree, "pueue_task_id"@) == Some(int_tree(experiment.pueue_task_id))
            &&& field(tree, "failure_code"@) == Some(optional_tree(optional_shown(optional_text(experiment.failure_code))))
            &&& field(tree, "created_at"@) == Some(JsonTree::Int(experiment.created_at as int))
            &&& field(tree, "updated_at"@) == Some(JsonTree::Int(experiment.updated_at as int))
            &&& field(tree, "finished_at"@) == Some(int_tree(experiment.finished_at))
        }),
{
    reveal_strlit("experiment_id");
    reveal_strlit("campaign_id");
    reveal_strlit("proposal_id");
    reveal_strlit("submission_id");
    reveal_strlit("parent_experiment_id");
    reveal_strlit("attempt");
    reveal_strlit("status");
    reveal_strlit("pueue_task_id");
    reveal_strlit("failure_code");
    reveal_strlit("created_at");
    reveal_strlit("updated_at");
    reveal_strlit("finished_at");
    assert("experiment_id"@.len() == 13);
    assert("campaign_id"@.len() == 11);
    assert("proposal_id"@.len() == 11);
    assert("submission_id"@.len() == 13);
    assert("parent_experiment_id"@.len() == 20);
    assert("attempt"@.len() == 7);
    assert("status"@.len() == 6);
    assert("pueue_task_id"@.len() == 13);
    assert("failure_code"@.len() == 12);
    assert("created_at"@.len() == 10);
    assert("updated_at"@.len() == 10);
    assert("finished_at"@.len() == 11);
    assert("experiment_id"@[0] != "submission_id"@[0]);
    assert("experiment_id"@[0] != "pueue_task_id"@[0]);
    assert("campaign_id"@[0] != "proposal_id"@[0]);
    assert("campaign_id"@[0] != "finished_at"@[0]);
    assert("proposal_id"@[0] != "finished_at"@[0]);
    assert("submission_id"@[0] != "pueue_task_id"@[0]);
    assert("created_at"@[0] != "updated_at"@[0]);
}

/// Text of up to 240 bytes is put out whole; of longer text as much as leaves
/// room for three dots, and those.
pub proof fn lemma_long_text_is_cut(s: Seq<char>)
    ensures
        byte_len(s) <= 240 ==> bounded_form(s) == s,
        byte_len(s) > 240 ==> bounded_form(s) == fitting(s, 237) + seq!['.', '.', '.'],
{
    reveal_strlit("...");
    assert("..."@ =~= seq!['.', '.', '.']);
}

/// A path is shown exactly where it is absolute, has at most 4096 bytes and
/// holds no control character.
pub proof fn lemma_which_paths_are_shown(value: Seq<char>)
    ensures
        is_showable_path(value) <==> value.len() > 0 && value[0] == '/' && byte_len(value) <= 4096
            && forall|i: int| 0 <= i < value.len() ==> !is_control(#[trigger] value[i]),
{
}

/// The colours of states: green for what goes well, yellow for what waits, red
/// for what has gone wrong, and none for the rest.
pub proof fn lemma_colours_of_states(state: Seq<char>)
    ensures
        (state == "running"@ || state == "completed"@ || state == "confirmed"@) ==> state_color(
            state,
        ) == Some("32"@),
        (state == "queued"@ || state == "pending"@ || state == "claimed"@ || state == "starting"@)
            ==> state_color(state) == Some("33"@),
        (state == "failed"@ || state == "timed_out"@ || state == "cancelled"@ || state == "halted"@)
            ==> state_color(state) == Some("31"@),
        state_color(state) is None <==> !(state == "running"@ || state == "completed"@ || state
            == "confirmed"@ || state == "queued"@ || state == "pending"@ || state == "claimed"@
            || state == "starting"@ || state == "failed"@ || state == "timed_out"@ || state
            == "cancelled"@ || state == "halted"@),
{
    reveal_strlit("running");
    reveal_strlit("completed");
    reveal_strlit("confirmed");
    reveal_strlit("queued");
    reveal_strlit("pending");
    reveal_strlit("claimed");
    reveal_strlit("starting");
    reveal_strlit("failed");
    reveal_strlit("timed_out");
    reveal_strlit("cancelled");
    reveal_strlit("halted");
    assert("running"@.len() == 7);
    assert("completed"@.len() == 9);
    assert("confirmed"@.len() == 9);
    assert("queued"@.len() == 6);
    assert("pending"@.len() == 7);
    assert("claimed"@.len() == 7);
    assert("starting"@.len() == 8);
    assert("failed"@.len() == 6);
    assert("timed_out"@.len() == 9);
    assert("cancelled"@.len() == 9);
    assert("halted"@.len() == 6);
    assert("running"@[0] != "pending"@[0]);
    assert("running"@[0] != "claimed"@[0]);
    assert("completed"@[2] != "confirmed"@[2]);
    assert("completed"@[0] != "timed_out"@[0]);
    assert("completed"@[1] != "cancelled"@[1]);
    assert("confirmed"@[0] != "timed_out"@[0]);
    assert("confirmed"@[1] != "cancelled"@[1]);
    assert("queued"@[0] != "failed"@[0]);
    assert("queued"@[0] != "halted"@[0]);
    assert("pending"@[0] != "claimed"@[0]);
    assert("failed"@[0] != "halted"@[0]);
    assert("timed_out"@[0] != "cancelled"@[0]);
}

/// A state is shown in small letters, with a colour only where colours are
/// wanted and it has one.
pub proof fn lemma_states_are_shown(state: Seq<char>)
    ensures
        state_form(state, false) == lowered(state),
        state_color(lowered(state)) is None ==> state_form(state, true) == lowered(state),
        state_color(lowered(state)) matches Some(colour) ==> state_form(state, true) == "\x1b["@
            + colour + "m"@ + lowered(state) + "\x1b[0m"@,
{
}

/// A count more adds to the total, to the line of counts and to the record.
pub proof fn lemma_one_more_count(counts: Seq<Count>, count: Count)
    ensures
        total(Seq::empty()) == 0,
        total(counts.push(count)) == total(counts) + count.count,
        counts_line(Seq::empty()) == "none"@,
        counts.len() == 0 ==> counts_line(counts.push(count)) == shown(count.key@) + "="@ + decimal(
            count.count as int,
        ),
        counts.len() > 0 ==> counts_line(counts.push(count)) == counts_line(counts) + ","@ + (shown(
            count.key@,
        ) + "="@ + decimal(count.count as int)),
        counts_map(counts.push(count)) == counts_map(counts).insert(
            count.key@,
            JsonTree::Int(count.count as int),
        ),
{
    assert(counts.push(count).drop_last() =~= counts);
    assert(count_texts(counts.push(count)).drop_last() =~= count_texts(counts));
}

/// What is put out of two campaigns, proposals or experiments that are shown
/// alike is the same: nothing that is not shown gets out.
pub proof fn lemma_only_what_is_shown_gets_out(a: Proposal, b: Proposal, ansi: bool)
    requires
        shown(a.proposal_id@) == shown(b.proposal_id@),
        shown(a.campaign_id@) == shown(b.campaign_id@),
        a.kind == b.kind,
        a.status == b.status,
        optional_shown(optional_text(a.source_experiment_id)) == optional_shown(
            optional_text(b.source_experiment_id),
        ),
        optional_shown(optional_text(a.reject_reason)) == optional_shown(
            optional_text(b.reject_reason),
        ),
        a.created_at == b.created_at,
        a.updated_at == b.updated_at,
    ensures
        proposal_map(a) == proposal_map(b),
        proposal_line(a, ansi) == proposal_line(b, ansi),
{
}

/// The same of two experiments.
pub proof fn lemma_only_what_is_shown_of_an_experiment_gets_out(
    a: Experiment,
    b: Experiment,
    ansi: bool,
)
    requires
        shown(a.experiment_id@) == shown(b.experiment_id@),
        shown(a.campaign_id@) == shown(b.campaign_id@),
        shown(a.proposal_id@) == shown(b.proposal_id@),
        shown(a.submission_id@) == shown(b.submission_id@),
        optional_shown(optional_text(a.parent_experiment_id)) == optional_shown(
            optional_text(b.parent_experiment_id),
        ),
        optional_shown(optional_text(a.failure_code)) == optional_shown(
            optional_text(b.failure_code),
        ),
        a.attempt == b.attempt,
        a.status == b.status,
        a.pueue_task_id == b.pueue_task_id,
        a.created_at == b.created_at,
        a.updated_at == b.updated_at,
        a.finished_at == b.finished_at,
    ensures
        experiment_map(a) == experiment_map(b),
        experiment_line(a, ansi) == experiment_line(b, ansi),
{
}

/// The inspection of a proposal adds its hypothesis, its evidence, its digest and
/// its project.
pub proof fn lemma_inspection_of_a_proposal(campaign: Campaign, proposal: Proposal)
    ensures
        ({
            let tree = proposal_inspection_tree(campaign, proposal);
            &&& field(tree, "hypothesis"@) == Some(JsonTree::Text(shown(proposal.hypothesis@)))
            &&& field(tree, "expected_evidence"@) == Some(text_list(shown_texts(proposal.expected_evidence@)))
            &&& field(tree, "canonical_digest"@) == Some(JsonTree::Text(shown(proposal.canonical_digest@)))
            &&& field(tree, "project_id"@) == Some(JsonTree::Text(shown(campaign.project_id@)))
            &&& field(tree, "schema_version"@) == Some(JsonTree::Int(1))
        }),
{
    reveal_strlit("hypothesis");
    reveal_strlit("expected_evidence");
    reveal_strlit("canonical_digest");
    reveal_strlit("project_id");
    reveal_strlit("schema_version");
    assert("hypothesis"@.len() == 10);
    assert("expected_evidence"@.len() == 17);
    assert("canonical_digest"@.len() == 16);
    assert("project_id"@.len() == 10);
    assert("schema_version"@.len() == 14);
    assert("hypothesis"@[0] != "project_id"@[0]);
}

/// The inspection of an experiment adds its project, the digest of its command
/// and the signature of its run.
pub proof fn lemma_inspection_of_an_experiment(campaign: Campaign, experiment: Experiment, argv_digest: Seq<char>)
    ensures
        ({
            let tree = experiment_inspection_tree(campaign, experiment, argv_digest);
            &&& field(tree, "schema_version"@) == Some(JsonTree::Int(1))
            &&& field(tree, "project_id"@) == Some(JsonTree::Text(shown(campaign.project_id@)))
            &&& field(tree, "argv_digest"@) == Some(JsonTree::Text(argv_digest))
            &&& field(tree, "task_signature"@) == Some(optional_tree(optional_shown(optional_text(experiment.task_signature))))
        }),
{
    reveal_strlit("schema_version");
    reveal_strlit("project_id");
    reveal_strlit("argv_digest");
    reveal_strlit("task_signature");
    assert("schema_version"@.len() == 14);
    assert("project_id"@.len() == 10);
    assert("argv_digest"@.len() == 11);
    assert("task_signature"@.len() == 14);
    assert("schema_version"@[0] != "task_signature"@[0]);
}

/// A list of a campaign names the project and the campaign, as they are shown,
/// and holds the items under its own name.
pub proof fn lemma_list_of_a_campaign(campaign: Campaign, key: Seq<char>, items: Seq<JsonTree>)
    requires
        key == "proposals"@ || key == "experiments"@,
    ensures
        ({
            let tree = campaign_list_tree(campaign, key, items);
            &&& field(tree, "schema_version"@) == Some(JsonTree::Int(1))
            &&& field(tree, "project_id"@) == Some(JsonTree::Text(shown(campaign.project_id@)))
            &&& field(tree, "campaign_id"@) == Some(JsonTree::Text(shown(campaign.campaign_id@)))
            &&& field(tree, key) == Some(JsonTree::List(items))
        }),
{
    reveal_strlit("schema_version");
    reveal_strlit("project_id");
    reveal_strlit("campaign_id");
    reveal_strlit("proposals");
    reveal_strlit("experiments");
    assert("schema_version"@.len() == 14);
    assert("project_id"@.len() == 10);
    assert("campaign_id"@.len() == 11);
    assert("proposals"@.len() == 9);
    assert("experiments"@.len() == 11);
    assert("campaign_id"@[0] != "experiments"@[0]);
}

/// The lines of a status show of a campaign only what is shown of its texts.
pub proof fn lemma_only_what_is_shown_of_a_campaign_gets_out(
    a: Campaign,
    b: Campaign,
    proposals: int,
    states: Seq<Count>,
    usage: Seq<Count>,
    tasks: Seq<i64>,
    operation: Seq<char>,
    ansi: bool,
)
    requires
        shown(a.project_id@) == shown(b.project_id@),
        shown(a.campaign_id@) == shown(b.campaign_id@),
        shown(a.objective_digest@) == shown(b.objective_digest@),
        optional_shown(optional_text(a.state_reason)) == optional_shown(
            optional_text(b.state_reason),
        ),
        optional_shown(optional_text(a.baseline_experiment_id)) == optional_shown(
            optional_text(b.baseline_experiment_id),
        ),
        a.state == b.state,
        a.created_at == b.created_at,
        a.updated_at == b.updated_at,
        a.next_eligible_at == b.next_eligible_at,
    ensures
        campaign_status_lines(a, proposals, states, usage, tasks, ansi) == campaign_status_lines(
            b,
            proposals,
            states,
            usage,
            tasks,
            ansi,
        ),
        campaign_status_tree(a, proposals, states, usage, tasks) == campaign_status_tree(
            b,
            proposals,
            states,
            usage,
            tasks,
        ),
        campaign_mutation_lines(a, operation, ansi) == campaign_mutation_lines(b, operation, ansi),
        campaign_mutation_tree(a, operation) == campaign_mutation_tree(b, operation),
{
}

/// What is missing is told as `none`, and so is an empty list; numbers stand with
/// a comma between two.
pub proof fn lemma_missing_values(ids: Seq<i64>, id: i64, text: Seq<char>)
    ensures
        or_none(None) == "none"@,
        or_none(Some(text)) == text,
        int_or_none(None) == "none"@,
        int_or_none(Some(id)) == decimal(id as int),
        ids_line(Seq::empty()) == "none"@,
        ids.len() == 0 ==> ids_line(ids.push(id)) == decimal(id as int),
        ids.len() > 0 ==> ids_line(ids.push(id)) == ids_line(ids) + ","@ + decimal(id as int),
{
    assert(id_texts(ids.push(id)).drop_last() =~= id_texts(ids));
}

} // verus!
