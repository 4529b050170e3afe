//! What makes a task of the queue the one that was meant: its signatures, its
//! command line, and the fingerprint of its failure.

use vstd::prelude::*;
use vstd::string::*;
use vstd::utf8::encode_utf8;

use crate::digest::{hex, sha256_hex, sha256_of};
use crate::json::{
    field, int_field, is_plain, json_text, optional_tree, put, reads_back, render, text_value, Json,
    JsonTree, Member, PLAIN_DEPTH,
};
use crate::models::Submission;
use crate::promotion::optional_text;
use crate::pueue::{is_word, PueueTask};
use crate::states::EventKind;
use crate::text::{
    alphanumeric, chars_of, concat2, is_alphanumeric, join, joined, lowered, same_text, string_of,
    views,
};
use crate::timestamps::{instant_of, parse_timestamp};

verus! {

// ---------------------------------------------------------------------------
// Command lines
// ---------------------------------------------------------------------------
/// A character that a shell takes as it is.
pub open spec fn is_shell_safe(c: char) -> bool {
    is_alphanumeric(c) || c == '@' || c == '%' || c == '_' || c == '+' || c == '=' || c == ':' || c
        == ',' || c == '.' || c == '/' || c == '-'
}

pub open spec fn is_plain_word(s: Seq<char>) -> bool {
    s.len() > 0 && forall|i: int| 0 <= i < s.len() ==> is_shell_safe(#[trigger] s[i])
}

/// A text inside single quotes: a quote is closed, escaped and opened again.
pub open spec fn escaped(s: Seq<char>) -> Seq<char>
    decreases s.len(),
{
    if s.len() == 0 {
        Seq::empty()
    } else if s[0] == '\'' {
        seq!['\'', '\\', '\'', '\''] + escaped(s.drop_first())
    } else {
        seq![s[0]] + escaped(s.drop_first())
    }
}

/// An argument as a shell reads it.
pub open spec fn quoted(s: Seq<char>) -> Seq<char> {
    if is_plain_word(s) {
        s
    } else {
        seq!['\''] + escaped(s) + seq!['\'']
    }
}

fn shell_quote(argument: &str) -> (text: Vec<char>)
    ensures
        text@ == quoted(argument@),
{
    let chars = chars_of(argument);
    let mut plain = chars.len() > 0;
    let mut at: usize = 0;
    while plain && at < chars.len()
        invariant
            at <= chars@.len(),
            chars@ == argument@,
            plain ==> argument@.len() > 0 && forall|i: int|
                0 <= i < at ==> is_shell_safe(#[trigger] argument@[i]),
            !plain ==> !is_plain_word(argument@),
        decreases chars.len() - at, plain as int,
    {
        let c: char = chars[at];
        if alphanumeric(c) || c == '@' || c == '%' || c == '_' || c == '+' || c == '=' || c == ':'
            || c == ',' || c == '.' || c == '/' || c == '-' {
            at = at + 1;
        } else {
            proof {
                assert(!is_shell_safe(argument@[at as int]));
            }
            plain = false;
        }
    }
    if plain {
        return chars;
    }
    let mut text: Vec<char> = Vec::new();
    text.push('\'');
    let mut from: usize = 0;
    proof {
        assert(chars@.skip(0) =~= chars@);
    }
    while from < chars.len()
        invariant
            from <= chars@.len(),
            chars@ == argument@,
            text@ + escaped(argument@.skip(from as int)) == seq!['\''] + escaped(argument@),
        decreases chars.len() - from,
    {
        let ghost before = text@;
        let ghost rest = argument@.skip(from as int);
        proof {
            assert(rest.drop_first() =~= argument@.skip(from + 1));
            assert(rest[0] == argument@[from as int]);
        }
        if chars[from] == '\'' {
            text.push('\'');
            text.push('\\');
            text.push('\'');
            text.push('\'');
            proof {
                assert(text@ =~= before + seq!['\'', '\\', '\'', '\'']);
                assert(before + escaped(rest) =~= text@ + escaped(rest.drop_first()));
            }
        } else {
            text.push(chars[from]);
            proof {
                assert(text@ =~= before + seq![rest[0]]);
                assert(before + escaped(rest) =~= text@ + escaped(rest.drop_first()));
            }
        }
        from = from + 1;
    }
    proof {
        assert(text@ =~= text@ + escaped(argument@.skip(from as int)));
    }
    text.push('\'');
    proof {
        assert(text@ =~= quoted(argument@));
    }
    text
}

/// What a shell makes of a word: quotes are dropped, and a backslash outside of
/// them takes the next character as it is.
pub open spec fn unquoted(s: Seq<char>, inside: bool) -> Seq<char>
    decreases s.len(),
{
    if s.len() == 0 {
        Seq::empty()
    } else if s[0] == '\'' {
        unquoted(s.drop_first(), !inside)
    } else if !inside && s[0] == '\\' && s.len() > 1 {
        seq![s[1]] + unquoted(s.skip(2), false)
    } else {
        seq![s[0]] + unquoted(s.drop_first(), inside)
    }
}

proof fn lemma_escaped_reads_back(s: Seq<char>)
    ensures
        unquoted(escaped(s) + seq!['\''], true) == s,
    decreases s.len(),
{
    let end = seq!['\''];
    let all = escaped(s) + end;
    if s.len() == 0 {
        assert(all =~= end);
        assert(end.drop_first() =~= Seq::<char>::empty());
        assert(unquoted(end, true) == unquoted(end.drop_first(), false));
        assert(s =~= Seq::<char>::empty());
    } else {
        let tail = escaped(s.drop_first()) + end;
        lemma_escaped_reads_back(s.drop_first());
        assert(s =~= seq![s[0]] + s.drop_first());
        if s[0] == '\'' {
            let one = all.drop_first();
            let two = one.skip(2);
            assert(all =~= seq!['\'', '\\', '\'', '\''] + tail);
            assert(all[0] == '\'');
            assert(one =~= seq!['\\', '\'', '\''] + tail);
            assert(two =~= seq!['\''] + tail);
            assert(two.drop_first() =~= tail);
            assert(unquoted(all, true) == unquoted(one, false));
            assert(unquoted(one, false) == seq![one[1]] + unquoted(two, false));
            assert(unquoted(two, false) == unquoted(tail, true));
        } else {
            assert(all =~= seq![s[0]] + tail);
            assert(all.drop_first() =~= tail);
        }
    }
}

proof fn lemma_plain_word_reads_back(s: Seq<char>)
    requires
        forall|i: int| 0 <= i < s.len() ==> is_shell_safe(#[trigger] s[i]),
    ensures
        unquoted(s, false) == s,
    decreases s.len(),
{
    if s.len() > 0 {
        assert(is_shell_safe(s[0]));
        lemma_plain_word_reads_back(s.drop_first());
        assert(s =~= seq![s[0]] + s.drop_first());
    } else {
        assert(s =~= Seq::<char>::empty());
    }
}

/// A shell reads a quoted argument as the argument itself.
pub proof fn lemma_quoted_argument_reads_back(s: Seq<char>)
    ensures
        unquoted(quoted(s), false) == s,
{
    if is_plain_word(s) {
        lemma_plain_word_reads_back(s);
    } else {
        let all = quoted(s);
        assert(all.drop_first() =~= escaped(s) + seq!['\'']);
        assert(all[0] == '\'');
        lemma_escaped_reads_back(s);
    }
}

/// Different arguments are quoted differently.
pub proof fn lemma_quoting_tells_arguments_apart(a: Seq<char>, b: Seq<char>)
    requires
        quoted(a) == quoted(b),
    ensures
        a == b,
{
    lemma_quoted_argument_reads_back(a);
    lemma_quoted_argument_reads_back(b);
}

pub open spec fn quoted_all(argv: Seq<String>) -> Seq<Seq<char>> {
    Seq::new(argv.len(), |i: int| quoted(argv[i]@))
}

/// A command line as the queue shows it.
pub open spec fn command_line(argv: Seq<String>) -> Seq<char> {
    joined(quoted_all(argv), " "@)
}

pub fn canonical_command_display(argv: &[String]) -> (line: String)
    ensures
        line@ == command_line(argv@),
{
    let ghost all = quoted_all(argv@);
    let mut parts: Vec<Vec<char>> = Vec::new();
    let mut at: usize = 0;
    proof {
        assert(views(parts@) =~= all.take(0));
    }
    while at < argv.len()
        invariant
            at <= argv@.len(),
            all == quoted_all(argv@),
            views(parts@) == all.take(at as int),
        decreases argv.len() - at,
    {
        let ghost before = parts@;
        let part = shell_quote(argv[at].as_str());
        parts.push(part);
        proof {
            assert(views(parts@) =~= views(before).push(part@));
            assert(all.take(at + 1) =~= all.take(at as int).push(all[at as int]));
        }
        at = at + 1;
    }
    proof {
        assert(all.take(all.len() as int) =~= all);
    }
    let line = join(&parts, " ");
    string_of(line.as_slice())
}

// ---------------------------------------------------------------------------
// Signatures
// ---------------------------------------------------------------------------
pub open spec fn record3(
    k0: Seq<char>,
    v0: JsonTree,
    k1: Seq<char>,
    v1: JsonTree,
    k2: Seq<char>,
    v2: JsonTree,
) -> Map<Seq<char>, JsonTree> {
    Map::<Seq<char>, JsonTree>::empty().insert(k0, v0).insert(k1, v1).insert(k2, v2)
}

/// What a task and its start are known by.
pub open spec fn run_map(task: PueueTask) -> Map<Seq<char>, JsonTree> {
    record3(
        "group"@,
        JsonTree::Text(task.group@),
        "id"@,
        JsonTree::Int(task.id as int),
        "enqueued_at"@,
        optional_tree(optional_text(task.enqueued_at)),
    ).insert("started_at"@, optional_tree(optional_text(task.started_at)))
}

/// What a task in one state is known by.
pub open spec fn signature_tree(task: PueueTask) -> JsonTree {
    JsonTree::Record(
        run_map(task).insert("ended_at"@, optional_tree(optional_text(task.ended_at))).insert(
            "state"@,
            JsonTree::Text(task.state@),
        ),
    )
}

pub open spec fn signature_of(task: PueueTask) -> Seq<char> {
    "pueue-task:v1:"@ + json_text(signature_tree(task))
}

/// What a task is known by over all its states.
pub open spec fn incident_key_of(task: PueueTask) -> Seq<char> {
    "pueue-task-incident:v1:"@ + json_text(JsonTree::Record(run_map(task)))
}

fn optional_json(text: &Option<String>) -> (json: Json)
    ensures
        json@ == optional_tree(optional_text(*text)),
{
    match text {
        Some(t) => text_value(t.as_str()),
        None => Json::Null,
    }
}

fn run_members(task: &PueueTask) -> (members: Vec<Member>)
    ensures
        crate::json::map_of(members@) == run_map(*task),
{
    let mut members: Vec<Member> = Vec::new();
    put(&mut members, "group", text_value(task.group.as_str()));
    put(&mut members, "id", Json::Int(task.id));
    put(&mut members, "enqueued_at", optional_json(&task.enqueued_at));
    put(&mut members, "started_at", optional_json(&task.started_at));
    members
}

fn prefixed(prefix: &str, members: Vec<Member>) -> (text: String)
    ensures
        text@ == prefix@ + json_text(JsonTree::Record(crate::json::map_of(members@))),
        is_plain(
            JsonTree::Record(crate::json::map_of(members@)),
            PLAIN_DEPTH as nat,
        ) ==> reads_back(JsonTree::Record(crate::json::map_of(members@))),
{
    let body = match render(&Json::Record(members)) {
        Some(text) => text,
        None => "".to_owned(),
    };
    let all = concat2(prefix, body.as_str());
    string_of(all.as_slice())
}

proof fn lemma_run_is_plain(task: PueueTask)
    ensures
        is_plain(signature_tree(task), PLAIN_DEPTH as nat),
        is_plain(JsonTree::Record(run_map(task)), PLAIN_DEPTH as nat),
{
    let below = (PLAIN_DEPTH - 1) as nat;
    let whole = signature_tree(task)->Record_0;
    assert forall|key: Seq<char>| #[trigger] whole.contains_key(key) implies is_plain(
        whole[key],
        below,
    ) by {}
    let run = run_map(task);
    assert forall|key: Seq<char>| #[trigger] run.contains_key(key) implies is_plain(
        run[key],
        below,
    ) by {}
}

/// The signature of a task in its state. A number that is used again cannot be
/// mistaken as long as a time or the state differs.
pub fn task_signature(task: &PueueTask) -> (signature: String)
    ensures
        signature@ == signature_of(*task),
        reads_back(signature_tree(*task)),
{
    proof {
        lemma_run_is_plain(*task);
    }
    let mut members = run_members(task);
    put(&mut members, "ended_at", optional_json(&task.ended_at));
    put(&mut members, "state", text_value(task.state.as_str()));
    prefixed("pueue-task:v1:", members)
}

/// The key of incidents of a task, the same from its start to its end.
pub fn task_incident_key(task: &PueueTask) -> (key: String)
    ensures
        key@ == incident_key_of(*task),
        reads_back(JsonTree::Record(run_map(*task))),
{
    proof {
        lemma_run_is_plain(*task);
    }
    prefixed("pueue-task-incident:v1:", run_members(task))
}

/// The key of incidents does not change while a task goes from running to its
/// end.
pub proof fn lemma_incident_key_outlives_the_state(before: PueueTask, after: PueueTask)
    requires
        before.group@ == after.group@,
        before.id == after.id,
        optional_text(before.enqueued_at) == optional_text(after.enqueued_at),
        optional_text(before.started_at) == optional_text(after.started_at),
    ensures
        incident_key_of(before) == incident_key_of(after),
{
}

proof fn lemma_run_map_tells_runs_apart(a: PueueTask, b: PueueTask)
    requires
        run_map(a) == run_map(b),
    ensures
        a.group@ == b.group@,
        a.id == b.id,
        optional_text(a.enqueued_at) == optional_text(b.enqueued_at),
        optional_text(a.started_at) == optional_text(b.started_at),
{
    lemma_key_names_differ();
    assert(run_map(a)["group"@] == JsonTree::Text(a.group@));
    assert(run_map(b)["group"@] == JsonTree::Text(b.group@));
    assert(run_map(a)["id"@] == JsonTree::Int(a.id as int));
    assert(run_map(b)["id"@] == JsonTree::Int(b.id as int));
    assert(run_map(a)["enqueued_at"@] == optional_tree(optional_text(a.enqueued_at)));
    assert(run_map(b)["enqueued_at"@] == optional_tree(optional_text(b.enqueued_at)));
    assert(run_map(a)["started_at"@] == optional_tree(optional_text(a.started_at)));
    assert(run_map(b)["started_at"@] == optional_tree(optional_text(b.started_at)));
}

/// Tasks with the same signature agree in their group, their number, all their
/// times and their state: neither a number that is used again nor any text can
/// make two of them look alike.
pub proof fn lemma_signature_tells_tasks_apart(a: PueueTask, b: PueueTask)
    requires
        signature_of(a) == signature_of(b),
        reads_back(signature_tree(a)),
        reads_back(signature_tree(b)),
    ensures
        a.group@ == b.group@,
        a.id == b.id,
        optional_text(a.enqueued_at) == optional_text(b.enqueued_at),
        optional_text(a.started_at) == optional_text(b.started_at),
        optional_text(a.ended_at) == optional_text(b.ended_at),
        a.state@ == b.state@,
{
    let prefix = "pueue-task:v1:"@;
    lemma_same_ending(prefix, json_text(signature_tree(a)), json_text(signature_tree(b)));
    assert(signature_tree(a) == signature_tree(b));
    lemma_key_names_differ();
    let x = signature_tree(a)->Record_0;
    let y = signature_tree(b)->Record_0;
    assert(x["ended_at"@] == y["ended_at"@]);
    assert(x["state"@] == y["state"@]);
    assert(x["group"@] == y["group"@]);
    assert(x["id"@] == y["id"@]);
    assert(x["enqueued_at"@] == y["enqueued_at"@]);
    assert(x["started_at"@] == y["started_at"@]);
}

/// Tasks with the same key of incidents are the same run: they agree in their
/// group, their number, and when they were enqueued and started.
pub proof fn lemma_incident_key_tells_runs_apart(a: PueueTask, b: PueueTask)
    requires
        incident_key_of(a) == incident_key_of(b),
        reads_back(JsonTree::Record(run_map(a))),
        reads_back(JsonTree::Record(run_map(b))),
    ensures
        a.group@ == b.group@,
        a.id == b.id,
        optional_text(a.enqueued_at) == optional_text(b.enqueued_at),
        optional_text(a.started_at) == optional_text(b.started_at),
{
    let prefix = "pueue-task-incident:v1:"@;
    lemma_same_ending(
        prefix,
        json_text(JsonTree::Record(run_map(a))),
        json_text(JsonTree::Record(run_map(b))),
    );
    assert(JsonTree::Record(run_map(a)) == JsonTree::Record(run_map(b)));
    lemma_run_map_tells_runs_apart(a, b);
}

proof fn lemma_same_ending(prefix: Seq<char>, a: Seq<char>, b: Seq<char>)
    requires
        prefix + a == prefix + b,
    ensures
        a == b,
{
    let whole = prefix + a;
    assert(a =~= whole.skip(prefix.len() as int));
    assert(b =~= whole.skip(prefix.len() as int));
}

/// The names of the fields differ.
proof fn lemma_key_names_differ()
    ensures
        "group"@ != "id"@,
        "group"@ != "enqueued_at"@,
        "group"@ != "started_at"@,
        "group"@ != "ended_at"@,
        "group"@ != "state"@,
        "id"@ != "enqueued_at"@,
        "id"@ != "started_at"@,
        "id"@ != "ended_at"@,
        "id"@ != "state"@,
        "enqueued_at"@ != "started_at"@,
        "enqueued_at"@ != "ended_at"@,
        "enqueued_at"@ != "state"@,
        "started_at"@ != "ended_at"@,
        "started_at"@ != "state"@,
        "ended_at"@ != "state"@,
{
    reveal_strlit("group");
    reveal_strlit("id");
    reveal_strlit("enqueued_at");
    reveal_strlit("started_at");
    reveal_strlit("ended_at");
    reveal_strlit("state");
    assert("group"@[0] == 'g');
    assert("state"@[0] == 's');
    assert("group"@.len() == 5);
    assert("id"@.len() == 2);
    assert("enqueued_at"@.len() == 11);
    assert("started_at"@.len() == 10);
    assert("ended_at"@.len() == 8);
    assert("state"@.len() == 5);
}

/// The digest of the text of an object.
pub open spec fn object_digest(map: Map<Seq<char>, JsonTree>) -> Seq<char> {
    hex(sha256_of(encode_utf8(json_text(JsonTree::Record(map)))))
}

fn digest_members(members: Vec<Member>) -> (digest: String)
    ensures
        digest@ == object_digest(crate::json::map_of(members@)),
{
    let body = match render(&Json::Record(members)) {
        Some(text) => text,
        None => "".to_owned(),
    };
    sha256_hex(body.as_str().as_bytes())
}

/// The signature of a managed run: the task, when it was enqueued, and its
/// command. A task without a readable time has none.
pub open spec fn run_signature_of(task: PueueTask) -> Option<Seq<char>> {
    match optional_text(task.enqueued_at) {
        Some(enqueued_at) => if instant_of(enqueued_at) is Some {
            Some(
                "pueue-managed-run:v1:"@ + object_digest(
                    record3(
                        "group"@,
                        JsonTree::Text(task.group@),
                        "id"@,
                        JsonTree::Int(task.id as int),
                        "enqueued_at"@,
                        JsonTree::Text(enqueued_at),
                    ).insert(
                        "command_sha256"@,
                        JsonTree::Text(hex(sha256_of(encode_utf8(task.command@)))),
                    ),
                ),
            )
        } else {
            None
        },
        None => None,
    }
}

pub fn managed_task_run_signature(task: &PueueTask) -> (signature: Option<String>)
    ensures
        match signature {
            Some(text) => run_signature_of(*task) == Some(text@),
            None => run_signature_of(*task) is None,
        },
{
    let enqueued_at = match &task.enqueued_at {
        Some(text) => text,
        None => {
            return None;
        },
    };
    if parse_timestamp(enqueued_at.as_str()).is_none() {
        return None;
    }
    let command = sha256_hex(task.command.as_str().as_bytes());
    let mut members: Vec<Member> = Vec::new();
    put(&mut members, "group", text_value(task.group.as_str()));
    put(&mut members, "id", Json::Int(task.id));
    put(&mut members, "enqueued_at", text_value(enqueued_at.as_str()));
    put(&mut members, "command_sha256", Json::Text(command));
    let digest = digest_members(members);
    let all = concat2("pueue-managed-run:v1:", digest.as_str());
    Some(string_of(all.as_slice()))
}

// ---------------------------------------------------------------------------
// Failures
// ---------------------------------------------------------------------------
/// What is kept of the result of a failed task.
pub open spec fn failure_evidence(result: Option<JsonTree>) -> JsonTree {
    match result {
        Some(JsonTree::Record(map)) => match int_field(JsonTree::Record(map), "Failed"@) {
            Some(code) => JsonTree::Record(
                Map::<Seq<char>, JsonTree>::empty().insert(
                    "class"@,
                    JsonTree::Text("exit_code"@),
                ).insert("exit_code"@, JsonTree::Int(code)),
            ),
            None => class_tree("unclassified"@),
        },
        Some(JsonTree::Text(text)) => if lowered(text) == "failed"@ {
            class_tree("failed"@)
        } else {
            class_tree("unclassified"@)
        },
        _ => class_tree("unclassified"@),
    }
}

pub open spec fn class_tree(class: Seq<char>) -> JsonTree {
    JsonTree::Record(
        Map::<Seq<char>, JsonTree>::empty().insert("class"@, JsonTree::Text(class)),
    )
}

fn class_json(class: &str) -> (json: Json)
    ensures
        json@ == class_tree(class@),
{
    let mut members: Vec<Member> = Vec::new();
    put(&mut members, "class", text_value(class));
    Json::Record(members)
}

fn normalized_failure_evidence(result: &Option<Json>) -> (json: Json)
    ensures
        json@ == failure_evidence(crate::pueue::optional_value(*result)),
{
    match result {
        Some(value) => match value {
            Json::Record(_) => match value.get_int("Failed") {
                Some(code) => {
                    let mut members: Vec<Member> = Vec::new();
                    put(&mut members, "class", text_value("exit_code"));
                    put(&mut members, "exit_code", Json::Int(code));
                    Json::Record(members)
                },
                None => class_json("unclassified"),
            },
            Json::Text(text) => if is_word(text.as_str(), "failed") {
                class_json("failed")
            } else {
                class_json("unclassified")
            },
            _ => class_json("unclassified"),
        },
        None => class_json("unclassified"),
    }
}

/// The fingerprint of the failure of a task: the same for failures of the same
/// kind.
pub open spec fn fingerprint_of(result: Option<JsonTree>, failure_code: Seq<char>) -> Seq<char> {
    object_digest(
        record3(
            "version"@,
            JsonTree::Int(1),
            "failure_code"@,
            JsonTree::Text(failure_code),
            "evidence"@,
            failure_evidence(result),
        ),
    )
}

pub fn failure_fingerprint(task: &PueueTask, failure_code: &str) -> (fingerprint: String)
    ensures
        fingerprint@ == fingerprint_of(crate::pueue::optional_value(task.result), failure_code@),
{
    let mut members: Vec<Member> = Vec::new();
    put(&mut members, "version", Json::Int(1));
    put(&mut members, "failure_code", text_value(failure_code));
    put(&mut members, "evidence", normalized_failure_evidence(&task.result));
    digest_members(members)
}

/// The exit code that a result holds, for a failure before a success.
pub open spec fn exit_code_of(result: JsonTree) -> Option<int> {
    let found = if field(result, "Failed"@) is Some {
        int_field(result, "Failed"@)
    } else {
        int_field(result, "Success"@)
    };
    match found {
        Some(code) => if i32::MIN <= code <= i32::MAX {
            Some(code)
        } else {
            None
        },
        None => None,
    }
}

pub fn terminal_exit_code(result: &Json) -> (code: Option<i32>)
    ensures
        match code {
            Some(n) => exit_code_of(result@) == Some(n as int),
            None => exit_code_of(result@) is None,
        },
{
    let found = if result.get("Failed").is_some() {
        result.get_int("Failed")
    } else {
        result.get_int("Success")
    };
    match found {
        Some(code) => if i32::MIN as i64 <= code && code <= i32::MAX as i64 {
            Some(code as i32)
        } else {
            None
        },
        None => None,
    }
}

/// A task that is at its end has failed: by its state, or by its result.
pub open spec fn has_failed(task: PueueTask, result_failed: bool) -> bool {
    lowered(task.state@) == "failed"@ || lowered(task.state@) == "killed"@ || (task.result is Some
        && result_failed)
}

/// The event that the end of a task gives rise to. `result_failed` says that
/// its result, where it has one, is that of a failure.
pub fn terminal_event_kind(task: &PueueTask, result_failed: bool) -> (kind: EventKind)
    ensures
        kind == (if has_failed(*task, result_failed) {
            EventKind::TaskFailed
        } else {
            EventKind::TaskFinished
        }),
{
    if is_word(task.state.as_str(), "failed") || is_word(task.state.as_str(), "killed") || (
    task.result.is_some() && result_failed) {
        EventKind::TaskFailed
    } else {
        EventKind::TaskFinished
    }
}

/// How an experiment ended with its task.
#[derive(Debug, Clone, PartialEq, Eq)]
pub enum TerminalOutcome {
    Succeeded,
    Failed { failure_code: &'static str, failure_fingerprint: String },
    Cancelled,
}

/// The code of a failure.
pub open spec fn failure_code_of(task: PueueTask) -> Seq<char> {
    if lowered(task.state@) == "failed"@ {
        "pueue_failed"@
    } else {
        "pueue_result_failed"@
    }
}

/// How an experiment ended with its task: a killed task is cancelled.
pub fn terminal_outcome(task: &PueueTask, result_failed: bool) -> (outcome: TerminalOutcome)
    ensures
        match outcome {
            TerminalOutcome::Cancelled => lowered(task.state@) == "killed"@,
            TerminalOutcome::Failed { failure_code, failure_fingerprint } => lowered(task.state@)
                != "killed"@ && has_failed(*task, result_failed) && failure_code@ == failure_code_of(
                *task,
            ) && failure_fingerprint@ == fingerprint_of(
                crate::pueue::optional_value(task.result),
                failure_code_of(*task),
            ),
            TerminalOutcome::Succeeded => lowered(task.state@) != "killed"@ && !has_failed(
                *task,
                result_failed,
            ),
        },
{
    if is_word(task.state.as_str(), "killed") {
        return TerminalOutcome::Cancelled;
    }
    match terminal_event_kind(task, result_failed) {
        EventKind::TaskFailed => {
            let failure_code = if is_word(task.state.as_str(), "failed") {
                "pueue_failed"
            } else {
                "pueue_result_failed"
            };
            TerminalOutcome::Failed {
                failure_code,
                failure_fingerprint: failure_fingerprint(task, failure_code),
            }
        },
        _ => TerminalOutcome::Succeeded,
    }
}

// ---------------------------------------------------------------------------
// Submissions
// ---------------------------------------------------------------------------
/// The task is the one that a submission was accepted as.
pub open spec fn is_accepted_as(submission: Submission, task: PueueTask) -> bool {
    submission.pueue_task_id == Some(task.id) && submission.task_signature is Some
        && run_signature_of(task) == optional_text(submission.task_signature)
}

pub fn accepted_submission_matches_task(submission: &Submission, task: &PueueTask) -> (yes: bool)
    ensures
        yes == is_accepted_as(*submission, *task),
{
    match submission.pueue_task_id {
        Some(id) => if id != task.id {
            return false;
        },
        None => {
            return false;
        },
    }
    match &submission.task_signature {
        Some(stored) => match managed_task_run_signature(task) {
            Some(signature) => same_text(signature.as_str(), stored.as_str()),
            None => false,
        },
        None => false,
    }
}

pub const MAX_ADOPTION_SECONDS: i64 = 600;

/// The task can be the one that a submission gave rise to: the same number, if
/// one is known, the same command line, and a time within ten minutes.
pub open spec fn is_adoptable(submission: Submission, task: PueueTask) -> bool {
    &&& submission.pueue_task_id matches Some(id) ==> id == task.id
    &&& command_line(submission.argv@) == task.command@
    &&& match optional_text(task.enqueued_at) {
        Some(text) => match instant_of(text) {
            Some(enqueued_at) => -MAX_ADOPTION_SECONDS <= enqueued_at - submission.created_at
                <= MAX_ADOPTION_SECONDS,
            None => submission.pueue_task_id is Some,
        },
        None => submission.pueue_task_id is Some,
    }
}

pub fn submission_matches_task(submission: &Submission, task: &PueueTask) -> (yes: bool)
    ensures
        yes == is_adoptable(*submission, *task),
{
    match submission.pueue_task_id {
        Some(id) => if id != task.id {
            return false;
        },
        None => {},
    }
    let line = canonical_command_display(submission.argv.as_slice());
    if !same_text(line.as_str(), task.command.as_str()) {
        return false;
    }
    let enqueued_at = match &task.enqueued_at {
        Some(text) => parse_timestamp(text.as_str()),
        None => None,
    };
    match enqueued_at {
        Some(at) => {
            let apart: i128 = at as i128 - submission.created_at as i128;
            -600 <= apart && apart <= 600
        },
        None => submission.pueue_task_id.is_some(),
    }
}

/// A word of letters, digits and harmless signs stands as it is; every other
/// argument, the empty one too, stands between single quotes.
pub proof fn lemma_harmless_words_stand_bare(s: Seq<char>)
    ensures
        ({
            let harmless = s.len() > 0 && forall|i: int|
                0 <= i < s.len() ==> ('a' <= (#[trigger] s[i]) <= 'z' || 'A' <= s[i] <= 'Z' || '0'
                    <= s[i] <= '9' || s[i] == '@' || s[i] == '%' || s[i] == '_' || s[i] == '+'
                    || s[i] == '=' || s[i] == ':' || s[i] == ',' || s[i] == '.' || s[i] == '/'
                    || s[i] == '-');
            &&& harmless ==> quoted(s) == s
            &&& !harmless ==> quoted(s).len() >= 2 && quoted(s)[0] == '\'' && quoted(s).last()
                == '\''
        }),
{
}

/// A command line is its arguments, quoted, with one blank between two.
pub proof fn lemma_command_line_grows_by_an_argument(argv: Seq<String>, more: String)
    ensures
        argv.len() == 0 ==> command_line(argv).len() == 0 && command_line(argv.push(more))
            == quoted(more@),
        argv.len() > 0 ==> command_line(argv.push(more)) == command_line(argv) + seq![' '] + quoted(
            more@,
        ),
{
    reveal_strlit(" ");
    assert(" "@ =~= seq![' ']);
    let all = quoted_all(argv.push(more));
    assert(all.drop_last() =~= quoted_all(argv));
    assert(all.last() == quoted(more@));
}

/// The signature of a run rests on the group, the number, the moment of
/// enqueueing and the command, and not on what became of the task; without a
/// moment that can be read there is none.
pub proof fn lemma_run_signature_outlives_the_state(before: PueueTask, after: PueueTask)
    requires
        before.group@ == after.group@,
        before.id == after.id,
        optional_text(before.enqueued_at) == optional_text(after.enqueued_at),
        before.command@ == after.command@,
    ensures
        run_signature_of(before) == run_signature_of(after),
        run_signature_of(before) is Some <==> (optional_text(before.enqueued_at) matches Some(text)
            && instant_of(text) is Some),
{
}

/// Two runs with one signature have one group, one number, one moment of
/// enqueueing and one command, unless the digests of different texts are equal.
pub proof fn lemma_run_signature_tells_runs_apart(a: PueueTask, b: PueueTask)
    requires
        run_signature_of(a) is Some,
        run_signature_of(a) == run_signature_of(b),
        a.enqueued_at is Some,
        b.enqueued_at is Some,
        ({
            let x = run_signature_map(a);
            let y = run_signature_map(b);
            &&& reads_back(JsonTree::Record(x))
            &&& reads_back(JsonTree::Record(y))
            &&& object_digest(x) == object_digest(y) ==> json_text(JsonTree::Record(x))
                == json_text(JsonTree::Record(y))
        }),
        hex(sha256_of(encode_utf8(a.command@))) == hex(sha256_of(encode_utf8(b.command@)))
            ==> a.command@ == b.command@,
    ensures
        a.group@ == b.group@,
        a.id == b.id,
        optional_text(a.enqueued_at) == optional_text(b.enqueued_at),
        a.command@ == b.command@,
{
    let prefix = "pueue-managed-run:v1:"@;
    let x = run_signature_map(a);
    let y = run_signature_map(b);
    lemma_same_ending(prefix, object_digest(x), object_digest(y));
    assert(x == y);
    reveal_strlit("group");
    reveal_strlit("id");
    reveal_strlit("enqueued_at");
    reveal_strlit("command_sha256");
    assert("group"@.len() == 5);
    assert("id"@.len() == 2);
    assert("enqueued_at"@.len() == 11);
    assert("command_sha256"@.len() == 14);
    assert(x["group"@] == y["group"@]);
    assert(x["id"@] == y["id"@]);
    assert(x["enqueued_at"@] == y["enqueued_at"@]);
    assert(x["command_sha256"@] == y["command_sha256"@]);
    assert(x["group"@] == JsonTree::Text(a.group@));
    assert(y["group"@] == JsonTree::Text(b.group@));
    assert(x["id"@] == JsonTree::Int(a.id as int));
    assert(y["id"@] == JsonTree::Int(b.id as int));
    assert(x["command_sha256"@] == JsonTree::Text(hex(sha256_of(encode_utf8(a.command@)))));
    assert(y["command_sha256"@] == JsonTree::Text(hex(sha256_of(encode_utf8(b.command@)))));
}

/// What the signature of a run is made of.
pub open spec fn run_signature_map(task: PueueTask) -> Map<Seq<char>, JsonTree> {
    record3(
        "group"@,
        JsonTree::Text(task.group@),
        "id"@,
        JsonTree::Int(task.id as int),
        "enqueued_at"@,
        JsonTree::Text(optional_text(task.enqueued_at)->0),
    ).insert("command_sha256"@, JsonTree::Text(hex(sha256_of(encode_utf8(task.command@)))))
}

/// The exit code of a task is that of its failure; only where nothing is said of
/// a failure is it that of its success.
pub proof fn lemma_exit_code_is_read(result: JsonTree, code: int)
    ensures
        field(result, "Failed"@) == Some(JsonTree::Int(code)) && i32::MIN <= code <= i32::MAX
            ==> exit_code_of(result) == Some(code),
        field(result, "Failed"@) is None && field(result, "Success"@) == Some(JsonTree::Int(code))
            && i32::MIN <= code <= i32::MAX ==> exit_code_of(result) == Some(code),
        field(result, "Failed"@) is Some && !(field(result, "Failed"@)->0 is Int) ==> exit_code_of(
            result,
        ) is None,
        field(result, "Failed"@) is None && field(result, "Success"@) is None ==> exit_code_of(
            result,
        ) is None,
        exit_code_of(result) == Some(code) ==> i32::MIN <= code <= i32::MAX && (field(
            result,
            "Failed"@,
        ) == Some(JsonTree::Int(code)) || field(result, "Success"@) == Some(JsonTree::Int(code))),
{
}

/// A failure is told by its exit code where one is given, as a plain failure
/// where only that is said, and is not classified otherwise.
pub proof fn lemma_failure_is_classified(result: Option<JsonTree>, code: int)
    ensures
        ({
            let evidence = failure_evidence(result);
            &&& result is Some && field(result->0, "Failed"@) == Some(JsonTree::Int(code)) && i64::MIN
                <= code <= i64::MAX ==> field(evidence, "class"@) == Some(JsonTree::Text("exit_code"@)) && field(
                evidence,
                "exit_code"@,
            ) == Some(JsonTree::Int(code))
            &&& (result matches Some(JsonTree::Text(text)) && lowered(text) == "failed"@) ==> field(
                evidence,
                "class"@,
            ) == Some(JsonTree::Text("failed"@)) && field(evidence, "exit_code"@) is None
            &&& !(result matches Some(JsonTree::Text(text)) && lowered(text) == "failed"@) && !(
            result matches Some(JsonTree::Record(map)) && int_field(
                JsonTree::Record(map),
                "Failed"@,
            ) is Some) ==> field(evidence, "class"@) == Some(JsonTree::Text("unclassified"@))
                && field(evidence, "exit_code"@) is None
        }),
{
    reveal_strlit("class");
    reveal_strlit("exit_code");
    assert("class"@.len() == 5);
    assert("exit_code"@.len() == 9);
    if let Some(JsonTree::Record(map)) = result {
        assert(int_field(JsonTree::Record(map), "Failed"@) is Some ==> field(
            JsonTree::Record(map),
            "Failed"@,
        ) is Some);
    }
}

/// A task has failed where its state says failed or killed, in any case, or
/// where it has a result and that result is a failure; its failure is told by
/// its state before its result.
pub proof fn lemma_when_a_task_has_failed(task: PueueTask, result_failed: bool)
    ensures
        lowered(task.state@) == "failed"@ ==> has_failed(task, result_failed) && failure_code_of(
            task,
        ) == "pueue_failed"@,
        lowered(task.state@) == "killed"@ ==> has_failed(task, result_failed),
        lowered(task.state@) != "failed"@ ==> failure_code_of(task) == "pueue_result_failed"@,
        lowered(task.state@) != "failed"@ && lowered(task.state@) != "killed"@ ==> (has_failed(
            task,
            result_failed,
        ) <==> task.result is Some && result_failed),
{
}

/// A submission was accepted as a task exactly where it has its number and the
/// signature of its run.
pub proof fn lemma_accepted_submission(submission: Submission, task: PueueTask)
    ensures
        is_accepted_as(submission, task) <==> {
            &&& submission.pueue_task_id == Some(task.id)
            &&& run_signature_of(task) is Some
            &&& optional_text(submission.task_signature) == run_signature_of(task)
        },
{
}

/// Two failures with one fingerprint have one code and one sort of evidence,
/// unless the digests of different texts are equal; and of a result nothing but
/// that evidence counts.
pub proof fn lemma_fingerprint_tells_failures_apart(
    a: Option<JsonTree>,
    b: Option<JsonTree>,
    x: Seq<char>,
    y: Seq<char>,
)
    requires
        ({
            let p = failure_map(a, x);
            let q = failure_map(b, y);
            &&& reads_back(JsonTree::Record(p))
            &&& reads_back(JsonTree::Record(q))
            &&& object_digest(p) == object_digest(q) ==> json_text(JsonTree::Record(p))
                == json_text(JsonTree::Record(q))
        }),
    ensures
        fingerprint_of(a, x) == fingerprint_of(b, y) <==> x == y && failure_evidence(a)
            == failure_evidence(b),
{
    let p = failure_map(a, x);
    let q = failure_map(b, y);
    if fingerprint_of(a, x) == fingerprint_of(b, y) {
        assert(p == q);
        reveal_strlit("version");
        reveal_strlit("failure_code");
        reveal_strlit("evidence");
        assert("version"@.len() == 7);
        assert("failure_code"@.len() == 12);
        assert("evidence"@.len() == 8);
        assert(p["failure_code"@] == q["failure_code"@]);
        assert(p["evidence"@] == q["evidence"@]);
        assert(p["failure_code"@] == JsonTree::Text(x));
        assert(q["failure_code"@] == JsonTree::Text(y));
        assert(p["evidence"@] == failure_evidence(a));
        assert(q["evidence"@] == failure_evidence(b));
    }
}

/// What the fingerprint of a failure is made of.
pub open spec fn failure_map(
    result: Option<JsonTree>,
    failure_code: Seq<char>,
) -> Map<Seq<char>, JsonTree> {
    record3(
        "version"@,
        JsonTree::Int(1),
        "failure_code"@,
        JsonTree::Text(failure_code),
        "evidence"@,
        failure_evidence(result),
    )
}

/// A submission can be a task exactly where it has its number if it has one, its
/// command line, and a moment within ten minutes of it; without a moment that
/// can be read the number has to be known.
pub proof fn lemma_which_tasks_can_be_adopted(submission: Submission, task: PueueTask)
    ensures
        is_adoptable(submission, task) <==> {
            &&& submission.pueue_task_id is None || submission.pueue_task_id == Some(task.id)
            &&& task.command@ == command_line(submission.argv@)
            &&& if task.enqueued_at is Some && instant_of(task.enqueued_at->0@) is Some {
                -600 <= instant_of(task.enqueued_at->0@)->0 - submission.created_at <= 600
            } else {
                submission.pueue_task_id is Some
            }
        },
{
}

} // verus!
