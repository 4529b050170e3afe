//! What the commands of an operator decide and report.

use vstd::prelude::*;
use vstd::string::*;

use crate::error::{invalid, AppError};
use crate::interventions::Intervention;
use crate::json::{field, json_text, put, render, text_value, Json, JsonTree, Member};
use crate::models::is_validation_error;
use crate::output::{
    bounded_redacted_text, format_state, header_line, human_header, human_summary, shown,
    state_form, summary_line,
};
use crate::text::{
    append_int, append_text, chars_of, concat2, decimal, decimal_digits, digits_of, extend, join,
    joined, same_text, string_of, views,
};
use crate::trust::{is_same_path, same_path};

verus! {

fn rendered(members: Vec<Member>) -> (text: String)
    ensures
        text@ == json_text(JsonTree::Record(crate::json::map_of(members@))),
{
    match render(&Json::Record(members)) {
        Some(text) => text,
        None => String::new(),
    }
}

// ---------------------------------------------------------------------------
// Messages to agents
// ---------------------------------------------------------------------------
pub open spec fn word_views(words: Seq<String>) -> Seq<Seq<char>> {
    Seq::new(words.len(), |i: int| words[i]@)
}

/// The words of a message, one after the other.
pub fn join_message(words: &Vec<String>) -> (message: String)
    ensures
        message@ == joined(word_views(words@), " "@),
{
    let mut parts: Vec<Vec<char>> = Vec::new();
    let mut at: usize = 0;
    while at < words.len()
        invariant
            at <= words@.len(),
            parts@.len() == at,
            forall|i: int| 0 <= i < at ==> (#[trigger] parts@[i])@ == words@[i]@,
        decreases words.len() - at,
    {
        parts.push(chars_of(words[at].as_str()));
        at = at + 1;
    }
    proof {
        assert(views(parts@) =~= word_views(words@));
    }
    let text = join(&parts, " ");
    string_of(text.as_slice())
}

/// A message on one line.
pub open spec fn message_line(message: Intervention) -> Seq<char> {
    message.intervention_id@ + "\t"@ + message.status.label() + "\t"@ + decimal(
        message.created_at as int,
    ) + "\t"@ + shown(message.message@)
}

pub open spec fn message_tree(message: Intervention) -> JsonTree {
    JsonTree::Record(
        Map::<Seq<char>, JsonTree>::empty().insert(
            "intervention_id"@,
            JsonTree::Text(message.intervention_id@),
        ).insert("status"@, JsonTree::Text(message.status.label())).insert(
            "created_at"@,
            JsonTree::Int(message.created_at as int),
        ).insert("message"@, JsonTree::Text(shown(message.message@))),
    )
}

pub open spec fn message_list_tree(project_id: Seq<char>, messages: Seq<Intervention>) -> JsonTree {
    JsonTree::Record(
        Map::<Seq<char>, JsonTree>::empty().insert("schema_version"@, JsonTree::Int(1)).insert(
            "project_id"@,
            JsonTree::Text(project_id),
        ).insert(
            "interventions"@,
            JsonTree::List(Seq::new(messages.len(), |i: int| message_tree(messages[i]))),
        ),
    )
}

fn message_json(message: &Intervention) -> (json: Json)
    ensures
        json@ == message_tree(*message),
{
    let mut members: Vec<Member> = Vec::new();
    put(&mut members, "intervention_id", text_value(message.intervention_id.as_str()));
    put(&mut members, "status", text_value(message.status.as_str()));
    put(&mut members, "created_at", Json::Int(message.created_at));
    put(&mut members, "message", Json::Text(bounded_redacted_text(message.message.as_str())));
    Json::Record(members)
}

fn message_text(message: &Intervention) -> (line: Vec<char>)
    ensures
        line@ == message_line(*message),
{
    let mut line = concat2(message.intervention_id.as_str(), "\t");
    append_text(&mut line, message.status.as_str());
    append_text(&mut line, "\t");
    append_int(&mut line, message.created_at);
    append_text(&mut line, "\t");
    let text = bounded_redacted_text(message.message.as_str());
    append_text(&mut line, text.as_str());
    line
}

/// The lines that list the messages that wait: one for each, or one with all of
/// them.
pub fn render_message_list(project_id: &str, messages: &Vec<Intervention>, json: bool) -> (lines: Vec<
    String,
>)
    ensures
        json ==> lines@.len() == 1 && lines@[0]@ == json_text(
            message_list_tree(project_id@, messages@),
        ),
        !json ==> lines@.len() == messages@.len() && forall|i: int|
            0 <= i < messages@.len() ==> (#[trigger] lines@[i])@ == message_line(messages@[i]),
{
    let mut lines: Vec<String> = Vec::new();
    let mut at: usize = 0;
    if json {
        let mut items: Vec<Json> = Vec::new();
        while at < messages.len()
            invariant
                at <= messages@.len(),
                items@.len() == at,
                forall|i: int|
                    0 <= i < at ==> (#[trigger] items@[i])@ == message_tree(messages@[i]),
            decreases messages.len() - at,
        {
            items.push(message_json(&messages[at]));
            at = at + 1;
        }
        let list = Json::List(items);
        proof {
            let expected = Seq::new(messages@.len(), |i: int| message_tree(messages@[i]));
            assert(list@->List_0 =~= expected);
        }
        let mut members: Vec<Member> = Vec::new();
        put(&mut members, "schema_version", Json::Int(1));
        put(&mut members, "project_id", text_value(project_id));
        put(&mut members, "interventions", list);
        lines.push(rendered(members));
        return lines;
    }
    while at < messages.len()
        invariant
            at <= messages@.len(),
            lines@.len() == at,
            forall|i: int| 0 <= i < at ==> (#[trigger] lines@[i])@ == message_line(messages@[i]),
        decreases messages.len() - at,
    {
        let line = message_text(&messages[at]);
        lines.push(string_of(line.as_slice()));
        at = at + 1;
    }
    lines
}

pub open spec fn queued_tree(message: Intervention) -> JsonTree {
    JsonTree::Record(
        Map::<Seq<char>, JsonTree>::empty().insert("schema_version"@, JsonTree::Int(1)).insert(
            "intervention_id"@,
            JsonTree::Text(message.intervention_id@),
        ).insert("project_id"@, JsonTree::Text(message.project_id@)).insert(
            "status"@,
            JsonTree::Text(message.status.label()),
        ),
    )
}

/// Reports a message that was queued.
pub fn render_message_queued(message: &Intervention, json: bool) -> (text: String)
    ensures
        text@ == (if json {
            json_text(queued_tree(*message))
        } else {
            "queued intervention: "@ + message.intervention_id@
        }),
{
    if json {
        let mut members: Vec<Member> = Vec::new();
        put(&mut members, "schema_version", Json::Int(1));
        put(&mut members, "intervention_id", text_value(message.intervention_id.as_str()));
        put(&mut members, "project_id", text_value(message.project_id.as_str()));
        put(&mut members, "status", text_value(message.status.as_str()));
        return rendered(members);
    }
    let line = concat2("queued intervention: ", message.intervention_id.as_str());
    string_of(line.as_slice())
}

// ---------------------------------------------------------------------------
// Callbacks
// ---------------------------------------------------------------------------
pub open spec fn is_missing_field(error: AppError, name: Seq<char>) -> bool {
    error matches AppError::Configuration { field } && field@ == name
}

/// The task that a callback of the queue is about. Other events are none of
/// ours.
pub fn callback_task(event: &str, task_id: Option<i64>) -> (task: Result<Option<i64>, AppError>)
    ensures
        if event@ != "callback"@ {
            task == Ok::<Option<i64>, AppError>(None)
        } else {
            match task_id {
                Some(id) if id >= 0 => task == Ok::<Option<i64>, AppError>(Some(id)),
                _ => task matches Err(error) && is_missing_field(error, "callback.task_id"@),
            }
        },
{
    if !same_text(event, "callback") {
        return Ok(None);
    }
    match task_id {
        Some(id) => if id < 0 {
            Err(AppError::Configuration { field: "callback.task_id" })
        } else {
            Ok(Some(id))
        },
        None => Err(AppError::Configuration { field: "callback.task_id" }),
    }
}

/// Accepts the group that a callback turned out to belong to.
pub fn check_callback_group(registered: bool) -> (checked: Result<(), AppError>)
    ensures
        checked is Ok <==> registered,
        checked matches Err(error) ==> is_validation_error(
            error,
            ("callback.group"@, "is not registered in the configured Pueue profile"@),
        ),
{
    if registered {
        Ok(())
    } else {
        Err(invalid("callback.group", "is not registered in the configured Pueue profile"))
    }
}

/// A task is submitted by hand only where no campaign is going on.
pub fn check_submission(live_campaign: bool) -> (checked: Result<(), AppError>)
    ensures
        checked is Ok <==> !live_campaign,
        checked matches Err(error) ==> is_validation_error(
            error,
            ("submit"@, "a managed campaign is active; use pueue-agent steer"@),
        ),
{
    if live_campaign {
        Err(invalid("submit", "a managed campaign is active; use pueue-agent steer"))
    } else {
        Ok(())
    }
}

/// Accepts the number of events to list.
pub fn validate_event_limit(limit: usize, max: usize) -> (checked: Result<usize, AppError>)
    ensures
        match checked {
            Ok(n) => n == limit && 1 <= limit <= max,
            Err(error) => !(1 <= limit <= max) && (error matches AppError::Message { message }
                && message@ == "diagnostic event limit must be between 1 and "@ + digits_of(
                max as nat,
            )),
        },
{
    if 1 <= limit && limit <= max {
        return Ok(limit);
    }
    let mut message = chars_of("diagnostic event limit must be between 1 and ");
    let digits = decimal_digits(max as u64);
    extend(&mut message, digits.as_slice());
    Err(AppError::Message { message: string_of(message.as_slice()) })
}

// ---------------------------------------------------------------------------
// Reports
// ---------------------------------------------------------------------------
/// The report on a project that was disabled.
pub fn render_disabled(project_id: &str, group: &str, removed: bool) -> (text: String)
    ensures
        text@ == (if removed {
            "removed: "@ + shown(project_id@) + " (group released: "@ + shown(group@) + ")"@
        } else {
            "disabled: "@ + shown(project_id@) + " (group reserved: "@ + shown(group@) + ")"@
        }),
{
    let id = bounded_redacted_text(project_id);
    let name = bounded_redacted_text(group);
    let mut line = if removed {
        concat2("removed: ", id.as_str())
    } else {
        concat2("disabled: ", id.as_str())
    };
    if removed {
        append_text(&mut line, " (group released: ");
    } else {
        append_text(&mut line, " (group reserved: ");
    }
    append_text(&mut line, name.as_str());
    append_text(&mut line, ")");
    string_of(line.as_slice())
}

pub open spec fn wake_tree(event_id: int, project_id: Seq<char>) -> JsonTree {
    JsonTree::Record(
        Map::<Seq<char>, JsonTree>::empty().insert("schema_version"@, JsonTree::Int(1)).insert(
            "event_id"@,
            JsonTree::Int(event_id),
        ).insert("project_id"@, JsonTree::Text(project_id)).insert(
            "kind"@,
            JsonTree::Text("operator_wake"@),
        ).insert("status"@, JsonTree::Text("pending"@)),
    )
}

pub open spec fn wake_lines(event_id: int, project_id: Seq<char>, ansi: bool) -> Seq<Seq<char>> {
    seq![
        header_line("wake"@, project_id),
        "event="@ + decimal(event_id) + " kind=operator_wake state="@ + state_form(
            "pending"@,
            ansi,
        ),
        summary_line("operator wake queued"@),
    ]
}

/// Reports that an agent was woken.
pub fn render_wake(event_id: i64, project_id: &str, json: bool, ansi: bool) -> (text: String)
    ensures
        text@ == (if json {
            json_text(wake_tree(event_id as int, project_id@))
        } else {
            joined(wake_lines(event_id as int, project_id@, ansi), "\n"@)
        }),
{
    if json {
        let mut members: Vec<Member> = Vec::new();
        put(&mut members, "schema_version", Json::Int(1));
        put(&mut members, "event_id", Json::Int(event_id));
        put(&mut members, "project_id", text_value(project_id));
        put(&mut members, "kind", text_value("operator_wake"));
        put(&mut members, "status", text_value("pending"));
        return rendered(members);
    }
    let mut event = chars_of("event=");
    append_int(&mut event, event_id);
    append_text(&mut event, " kind=operator_wake state=");
    let state = format_state("pending", ansi);
    append_text(&mut event, state.as_str());
    let header = human_header("wake", project_id);
    let summary = human_summary("operator wake queued");
    let mut lines: Vec<Vec<char>> = Vec::new();
    lines.push(chars_of(header.as_str()));
    lines.push(event);
    lines.push(chars_of(summary.as_str()));
    proof {
        assert(views(lines@) =~= wake_lines(event_id as int, project_id@, ansi));
    }
    let text = join(&lines, "\n");
    string_of(text.as_slice())
}

/// What was done to the service.
#[derive(Debug, Clone, Copy, PartialEq, Eq, Structural)]
pub enum ServiceOperation {
    Start,
    Stop,
}

impl ServiceOperation {
    pub open spec fn label(self) -> Seq<char> {
        match self {
            ServiceOperation::Start => "start"@,
            ServiceOperation::Stop => "stop"@,
        }
    }

    pub open spec fn state(self) -> Seq<char> {
        match self {
            ServiceOperation::Start => "running"@,
            ServiceOperation::Stop => "stopped"@,
        }
    }

    pub open spec fn summary(self) -> Seq<char> {
        match self {
            ServiceOperation::Start => "service started"@,
            ServiceOperation::Stop => "service stopped"@,
        }
    }
}

pub open spec fn service_tree(operation: ServiceOperation) -> JsonTree {
    JsonTree::Record(
        Map::<Seq<char>, JsonTree>::empty().insert("schema_version"@, JsonTree::Int(1)).insert(
            "operation"@,
            JsonTree::Text(operation.label()),
        ).insert("service"@, JsonTree::Text(operation.state())),
    )
}

pub open spec fn service_lines(operation: ServiceOperation, ansi: bool) -> Seq<Seq<char>> {
    seq![
        "pueue-agent "@ + operation.label(),
        "service: "@ + state_form(operation.state(), ansi),
        summary_line(operation.summary()),
    ]
}

/// Reports that the service was started or stopped.
pub fn render_service_lifecycle(operation: ServiceOperation, json: bool, ansi: bool) -> (text: String)
    ensures
        text@ == (if json {
            json_text(service_tree(operation))
        } else {
            joined(service_lines(operation, ansi), "\n"@)
        }),
{
    let (label, state, done) = match operation {
        ServiceOperation::Start => ("start", "running", "service started"),
        ServiceOperation::Stop => ("stop", "stopped", "service stopped"),
    };
    if json {
        let mut members: Vec<Member> = Vec::new();
        put(&mut members, "schema_version", Json::Int(1));
        put(&mut members, "operation", text_value(label));
        put(&mut members, "service", text_value(state));
        return rendered(members);
    }
    let state_text = format_state(state, ansi);
    let summary = human_summary(done);
    let mut lines: Vec<Vec<char>> = Vec::new();
    lines.push(concat2("pueue-agent ", label));
    lines.push(concat2("service: ", state_text.as_str()));
    lines.push(chars_of(summary.as_str()));
    proof {
        assert(views(lines@) =~= service_lines(operation, ansi));
    }
    let text = join(&lines, "\n");
    string_of(text.as_slice())
}

/// The error of an upgrade, with a hint at what to look at next.
pub fn upgrade_diagnostic_error(error: &str) -> (mapped: AppError)
    ensures
        mapped matches AppError::Message { message } && message@ == shown(error@)
            + "; next diagnostic: pueue-agent version"@,
{
    let text = bounded_redacted_text(error);
    let message = concat2(text.as_str(), "; next diagnostic: pueue-agent version");
    AppError::Message { message: string_of(message.as_slice()) }
}

/// A path is one of those in a list, however it is spelled.
pub open spec fn names_path(paths: Seq<String>, path: Seq<char>) -> bool {
    exists|i: int| 0 <= i < paths.len() && is_same_path((#[trigger] paths[i])@, path)
}

/// Adds the root of a project to those that are known, once.
pub fn add_project_root(roots: &mut Vec<String>, root: &str)
    ensures
        names_path(old(roots)@, root@) ==> final(roots)@ == old(roots)@,
        !names_path(old(roots)@, root@) ==> final(roots)@.len() == old(roots)@.len() + 1
            && final(roots)@.drop_last() == old(roots)@ && final(roots)@.last()@ == root@,
{
    let ghost known = roots@;
    let mut at: usize = 0;
    while at < roots.len()
        invariant
            at <= roots@.len(),
            roots@ == known,
            forall|i: int| 0 <= i < at ==> !is_same_path((#[trigger] known[i])@, root@),
        decreases roots.len() - at,
    {
        if same_path(roots[at].as_str(), root) {
            proof {
                assert(is_same_path(known[at as int]@, root@));
            }
            return;
        }
        at = at + 1;
    }
    roots.push(root.to_owned());
    proof {
        assert(roots@.drop_last() =~= known);
    }
}

/// A message of the operator is told by its name, its state, its moment and its
/// text as it is shown.
pub proof fn lemma_record_of_a_message(message: Intervention)
    ensures
        ({
            let tree = message_tree(message);
            &&& field(tree, "intervention_id"@) == Some(JsonTree::Text(message.intervention_id@))
            &&& field(tree, "status"@) == Some(JsonTree::Text(message.status.label()))
            &&& field(tree, "created_at"@) == Some(JsonTree::Int(message.created_at as int))
            &&& field(tree, "message"@) == Some(JsonTree::Text(shown(message.message@)))
        }),
{
    reveal_strlit("intervention_id");
    reveal_strlit("status");
    reveal_strlit("created_at");
    reveal_strlit("message");
    assert("intervention_id"@.len() == 15);
    assert("status"@.len() == 6);
    assert("created_at"@.len() == 10);
    assert("message"@.len() == 7);
}

/// A message that was queued is told by its name, its project and its state.
pub proof fn lemma_record_of_a_queued_message(message: Intervention)
    ensures
        ({
            let tree = queued_tree(message);
            &&& field(tree, "schema_version"@) == Some(JsonTree::Int(1))
            &&& field(tree, "intervention_id"@) == Some(JsonTree::Text(message.intervention_id@))
            &&& field(tree, "project_id"@) == Some(JsonTree::Text(message.project_id@))
            &&& field(tree, "status"@) == Some(JsonTree::Text(message.status.label()))
        }),
{
    reveal_strlit("schema_version");
    reveal_strlit("intervention_id");
    reveal_strlit("project_id");
    reveal_strlit("status");
    assert("schema_version"@.len() == 14);
    assert("intervention_id"@.len() == 15);
    assert("project_id"@.len() == 10);
    assert("status"@.len() == 6);
}

/// A wake is told as an event that is pending.
pub proof fn lemma_record_of_a_wake(event_id: int, project_id: Seq<char>)
    ensures
        ({
            let tree = wake_tree(event_id, project_id);
            &&& field(tree, "schema_version"@) == Some(JsonTree::Int(1))
            &&& field(tree, "event_id"@) == Some(JsonTree::Int(event_id))
            &&& field(tree, "project_id"@) == Some(JsonTree::Text(project_id))
            &&& field(tree, "kind"@) == Some(JsonTree::Text("operator_wake"@))
            &&& field(tree, "status"@) == Some(JsonTree::Text("pending"@))
        }),
{
    reveal_strlit("schema_version");
    reveal_strlit("event_id");
    reveal_strlit("project_id");
    reveal_strlit("kind");
    reveal_strlit("status");
    assert("schema_version"@.len() == 14);
    assert("event_id"@.len() == 8);
    assert("project_id"@.len() == 10);
    assert("kind"@.len() == 4);
    assert("status"@.len() == 6);
}

/// A list of messages names the project and tells each message.
pub proof fn lemma_list_of_messages(project_id: Seq<char>, messages: Seq<Intervention>)
    ensures
        ({
            let tree = message_list_tree(project_id, messages);
            &&& field(tree, "schema_version"@) == Some(JsonTree::Int(1))
            &&& field(tree, "project_id"@) == Some(JsonTree::Text(project_id))
            &&& field(tree, "interventions"@) == Some(JsonTree::List(Seq::new(messages.len(), |i: int| message_tree(messages[i]))))
        }),
{
    reveal_strlit("schema_version");
    reveal_strlit("project_id");
    reveal_strlit("interventions");
    assert("schema_version"@.len() == 14);
    assert("project_id"@.len() == 10);
    assert("interventions"@.len() == 13);
}

/// A message is listed by its name, its state, its moment and its text as it is
/// shown, with a tab between two; nothing of the text that is not shown gets
/// out.
pub proof fn lemma_line_of_a_message(a: Intervention, b: Intervention)
    requires
        a.intervention_id@ == b.intervention_id@,
        a.status == b.status,
        a.created_at == b.created_at,
        shown(a.message@) == shown(b.message@),
    ensures
        message_line(a) == message_line(b),
        message_tree(a) == message_tree(b),
        message_line(a) == a.intervention_id@ + "\t"@ + a.status.label() + "\t"@ + decimal(
            a.created_at as int,
        ) + "\t"@ + shown(a.message@),
{
}

/// The service runs once it was started and is stopped once it was stopped.
pub proof fn lemma_service_is_what_was_asked(operation: ServiceOperation)
    ensures
        field(service_tree(operation), "operation"@) == Some(
            JsonTree::Text(
                if operation is Start {
                    "start"@
                } else {
                    "stop"@
                },
            ),
        ),
        field(service_tree(operation), "service"@) == Some(
            JsonTree::Text(
                if operation is Start {
                    "running"@
                } else {
                    "stopped"@
                },
            ),
        ),
{
    reveal_strlit("schema_version");
    reveal_strlit("operation");
    reveal_strlit("service");
    assert("schema_version"@.len() == 14);
    assert("operation"@.len() == 9);
    assert("service"@.len() == 7);
}

/// A root is known exactly where a root of the list is the same path.
pub proof fn lemma_which_roots_are_known(paths: Seq<String>, path: Seq<char>)
    ensures
        names_path(paths, path) <==> exists|i: int|
            0 <= i < paths.len() && crate::fspath::components((#[trigger] paths[i])@)
                == crate::fspath::components(path),
{
    if names_path(paths, path) {
        let i = choose|i: int| 0 <= i < paths.len() && is_same_path((#[trigger] paths[i])@, path);
        assert(crate::fspath::components(paths[i]@) == crate::fspath::components(path));
    }
    assert forall|i: int|
        0 <= i < paths.len() && crate::fspath::components((#[trigger] paths[i])@)
            == crate::fspath::components(path) implies names_path(paths, path) by {
        assert(is_same_path(paths[i]@, path));
    }
}

/// A missing value is told by the name of its field.
pub proof fn lemma_missing_fields_are_named(error: AppError, name: Seq<char>)
    ensures
        is_missing_field(error, name) ==> error is Configuration,
        error matches AppError::Configuration { field } ==> (is_missing_field(error, name)
            <==> field@ == name),
{
}

} // verus!
