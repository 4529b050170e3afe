//! The task queue: what it says, and how its tasks are told apart.

use pueue_agent::digest::{hex_text, sha256_hex};
use pueue_agent::error::PueueError;
use pueue_agent::json::{self, Json, Member};
use pueue_agent::models::{Experiment, Project, Submission};
use pueue_agent::pueue::{
    add_argv, added_task_id, group_added, group_exists, group_looked_again, status_tasks,
    task_argument, task_from_raw, GroupStep, PueueTask, RawTask, RawTaskId,
};
use pueue_agent::pueue_process::{
    accept_output, broken_off_error, cleanup_error, map_spawn_error, operation_name,
    prepare_command, take_chunk, BoundedOutput, Collection, CollectionEvent, CollectionFailure,
    CollectionStep, PueueProcessRunner, ReadFailure, Stream,
};
use pueue_agent::pueue_security::validate_group;
use pueue_agent::reconcile::{
    begin_report, confirmed_event_kind, count_terminal_event, decision_event, is_unique_task_id,
    match_submission, note_recovered, observe_task, project_of_group, recover_submission,
    resolve_terminal_submissions, terminal_event, terminal_event_step, AutoKillConfirmation,
    RecoveryStep, SubmissionMatch, TaskStep, TerminalEventStep,
};
use pueue_agent::settling::{SettleMove, SettleReply, SettleStage, Settling};
use pueue_agent::states::{
    EventKind, EventStatus, ExperimentStatus, SubmissionKind, SubmissionStatus,
};
use pueue_agent::task_identity::{
    accepted_submission_matches_task, canonical_command_display, failure_fingerprint,
    managed_task_run_signature, submission_matches_task, task_incident_key, task_signature,
    terminal_event_kind, terminal_exit_code, terminal_outcome, TerminalOutcome,
};
use pueue_agent::timestamps::{days_from_civil, parse_timestamp};
use pueue_agent::AppError;

const ENQUEUED: &str = "2026-07-24T00:00:00Z";
const ENQUEUED_SECONDS: i64 = 1784851200;
const RUN_SIGNATURE: &str =
    "pueue-managed-run:v1:308a01ad99cd12dd5d939939fbd73571c31cb58b0593094dc97824f4ac8ef8f8";

fn task(id: i64, state: &str) -> PueueTask {
    PueueTask {
        id,
        group: "g".to_owned(),
        command: "python train.py".to_owned(),
        state: state.to_owned(),
        enqueued_at: Some(ENQUEUED.to_owned()),
        started_at: None,
        ended_at: None,
        result: None,
    }
}

fn parsed(text: &str) -> Json {
    json::parse(text).unwrap()
}

fn raw(id: RawTaskId, status: &str) -> RawTask {
    RawTask { id, group: "g".to_owned(), command: "c".to_owned(), status: parsed(status) }
}

fn submission(id: Option<i64>, signature: Option<&str>, created_at: i64) -> Submission {
    Submission {
        submission_id: "s-1".to_owned(),
        project_id: "p".to_owned(),
        argv: vec!["python".to_owned(), "train.py".to_owned()],
        created_at,
        pueue_task_id: id,
        task_signature: signature.map(str::to_owned),
        status: SubmissionStatus::Pending,
        kind: SubmissionKind::Experiment,
        metadata: Json::Null,
        origin_agent_run_id: None,
    }
}

fn project(id: &str, group: &str) -> Project {
    Project {
        project_id: id.to_owned(),
        root_path: "/p".to_owned(),
        pueue_group: group.to_owned(),
        config_path: "/p/.pueue-agent/config.toml".to_owned(),
        enabled: true,
        paused: false,
        halted_reason: None,
        created_at: 1,
        updated_at: 1,
    }
}

fn experiment() -> Experiment {
    Experiment {
        experiment_id: "e-1".to_owned(),
        campaign_id: "c-1".to_owned(),
        proposal_id: "q-1".to_owned(),
        submission_id: "s-1".to_owned(),
        parent_experiment_id: None,
        attempt: 1,
        status: ExperimentStatus::Accepted,
        pueue_task_id: Some(7),
        task_signature: None,
        failure_code: None,
        failure_fingerprint: None,
        created_at: 1,
        updated_at: 1,
        finished_at: None,
    }
}

fn status_reason(error: PueueError) -> &'static str {
    match error {
        PueueError::InvalidStatusTask { reason } => reason,
        _ => "",
    }
}

#[test]
fn digests_are_those_of_sha_256() {
    assert_eq!(
        sha256_hex(b"abc"),
        "ba7816bf8f01cfea414140de5dae2223b00361a396177a9cb410ff61f20015ad"
    );
    assert_eq!(hex_text(&[0, 15, 16, 255]), "000f10ff");
}

#[test]
fn json_is_written_with_sorted_keys_and_read_back() {
    let members = vec![
        Member { key: "b".to_owned(), value: Json::Int(2) },
        Member { key: "a".to_owned(), value: Json::Text("x\n".to_owned()) },
    ];
    let text = json::render(&Json::Record(members)).unwrap();
    assert_eq!(text, "{\"a\":\"x\\n\",\"b\":2}");
    let back = parsed(&text);
    assert_eq!(back.get_int("b"), Some(2));
    assert_eq!(back.get_text("a").map(String::as_str), Some("x\n"));
    assert!(back.get("c").is_none());
    assert!(json::parse("{").is_none());
    assert!(json::read_bytes(b"{").is_err());
    assert!(json::parse_bytes(&[0xff]).is_none());
}

#[test]
fn ordered_objects_keep_the_order_of_their_keys() {
    let members = vec![
        Member { key: "b".to_owned(), value: Json::Bool(true) },
        Member { key: "a".to_owned(), value: Json::Null },
    ];
    assert_eq!(json::render_ordered(&members).unwrap(), "{\"b\":true,\"a\":null}");
    let mut repeated = members;
    repeated.push(json::Member { key: "b".to_owned(), value: json::Json::Int(7) });
    let text = json::render_ordered(&repeated).unwrap();
    assert_eq!(text, "{\"b\":true,\"a\":null,\"b\":7}");
    assert_eq!(json::parse(&text).unwrap().get_int("b"), Some(7));
}

#[test]
fn numbers_keep_their_kind() {
    match parsed("[1,-1,18446744073709551615,0.5]") {
        Json::List(items) => {
            assert!(matches!(items[0], Json::Int(1)));
            assert!(matches!(items[1], Json::Int(-1)));
            assert!(matches!(items[2], Json::Unsigned(18446744073709551615)));
            match &items[3] {
                Json::Real(number) => assert_eq!(f64::from_bits(number.bits()), 0.5),
                _ => panic!("a fraction"),
            }
        }
        _ => panic!("a list"),
    }
}

#[test]
fn days_are_counted_from_1970() {
    assert_eq!(days_from_civil(1970, 1, 1), Some(0));
    assert_eq!(days_from_civil(1969, 12, 31), Some(-1));
    assert_eq!(days_from_civil(2024, 2, 29), Some(19782));
    assert_eq!(days_from_civil(2026, 7, 24), Some(20658));
    assert_eq!(days_from_civil(2024, 13, 1), None);
    assert_eq!(days_from_civil(2024, 1, 32), None);
    assert_eq!(days_from_civil(i64::MAX, 1, 1), None);
}

#[test]
fn timestamps_are_seconds_or_dates() {
    assert_eq!(parse_timestamp("1784851200"), Some(1784851200));
    assert_eq!(parse_timestamp("-5"), Some(-5));
    assert_eq!(parse_timestamp(ENQUEUED), Some(ENQUEUED_SECONDS));
    assert_eq!(parse_timestamp("2024-02-29T12:30:45.123456Z"), Some(1709209845));
    assert_eq!(parse_timestamp("2024-02-29T14:30:45+02:00"), Some(1709209845));
    assert_eq!(parse_timestamp("2024-02-29T07:00:45-05:30"), Some(1709209845));
    for text in ["", "soon", "2024-02-29", "2024-02-29T25:00:00Z", "2024-02-29T12:30:45"] {
        assert_eq!(parse_timestamp(text), None);
    }
}

#[test]
fn command_lines_are_quoted_for_a_shell() {
    let argv = ["python", "a b", "", "it's", "x=1,2/3"].map(str::to_owned);
    assert_eq!(canonical_command_display(&argv), "python 'a b' '' 'it'\\''s' x=1,2/3");
    assert_eq!(canonical_command_display(&[]), "");
}

#[test]
fn a_task_is_known_by_its_signatures() {
    let mut running = task(7, "Running");
    running.started_at = Some("t".to_owned());
    assert_eq!(
        task_signature(&running),
        "pueue-task:v1:{\"ended_at\":null,\"enqueued_at\":\"2026-07-24T00:00:00Z\",\
         \"group\":\"g\",\"id\":7,\"started_at\":\"t\",\"state\":\"Running\"}"
    );
    let key = task_incident_key(&running);
    assert_eq!(
        key,
        "pueue-task-incident:v1:{\"enqueued_at\":\"2026-07-24T00:00:00Z\",\"group\":\"g\",\
         \"id\":7,\"started_at\":\"t\"}"
    );
    let mut done = task(7, "Done");
    done.started_at = Some("t".to_owned());
    done.ended_at = Some("u".to_owned());
    assert_eq!(task_incident_key(&done), key);
    assert_ne!(task_signature(&done), task_signature(&running));
    assert_eq!(managed_task_run_signature(&done).as_deref(), Some(RUN_SIGNATURE));
    done.enqueued_at = Some("soon".to_owned());
    assert_eq!(managed_task_run_signature(&done), None);
    done.enqueued_at = None;
    assert_eq!(managed_task_run_signature(&done), None);
}

#[test]
fn failures_of_one_kind_share_a_fingerprint() {
    let mut failed = task(7, "Failed");
    failed.result = Some(parsed("{\"Failed\":2}"));
    let by_code = "bc749cb4dccd1c260f1c073937f0eeeeabe8526a37e8953ec97c78e21b214262";
    assert_eq!(failure_fingerprint(&failed, "pueue_failed"), by_code);
    let mut done = task(8, "Done");
    done.result = Some(parsed("\"FAILED\""));
    let by_word = "9d869f468ad2cf02d93c0ea1b5492fdb3313821aede6cdef76740e05f806a281";
    assert_eq!(failure_fingerprint(&done, "pueue_result_failed"), by_word);
    done.result = None;
    let unclassified = "1dcd2a2c7fdd64401f9c2c4086b55f7678e478304ff8463a77b8b5b2bdae9d16";
    assert_eq!(failure_fingerprint(&done, "x"), unclassified);
}

#[test]
fn the_end_of_a_task_is_classified() {
    let mut ended = task(7, "Done");
    ended.result = Some(parsed("\"Success\""));
    assert_eq!(terminal_event_kind(&ended, false), EventKind::TaskFinished);
    assert_eq!(terminal_event_kind(&ended, true), EventKind::TaskFailed);
    assert_eq!(terminal_outcome(&ended, false), TerminalOutcome::Succeeded);
    assert!(matches!(
        terminal_outcome(&ended, true),
        TerminalOutcome::Failed { failure_code: "pueue_result_failed", .. }
    ));
    assert_eq!(terminal_event_kind(&task(7, "KILLED"), false), EventKind::TaskFailed);
    assert_eq!(terminal_outcome(&task(7, "KILLED"), false), TerminalOutcome::Cancelled);
    assert!(matches!(
        terminal_outcome(&task(7, "failed"), false),
        TerminalOutcome::Failed { failure_code: "pueue_failed", .. }
    ));
    assert_eq!(terminal_exit_code(&parsed("{\"Failed\":3}")), Some(3));
    assert_eq!(terminal_exit_code(&parsed("{\"Success\":0}")), Some(0));
    assert_eq!(terminal_exit_code(&parsed("{\"Failed\":3000000000}")), None);
    assert_eq!(terminal_exit_code(&parsed("{\"Failed\":null,\"Success\":0}")), None);
    assert_eq!(terminal_exit_code(&parsed("\"Success\"")), None);
}

#[test]
fn states_are_read_in_any_case() {
    assert!(task(1, "RUNNING").is_running());
    assert!(!task(1, "Running").is_terminal());
    for state in ["done", "Failed", "KILLED", "finished", "Success"] {
        assert!(task(1, state).is_terminal());
        assert!(!task(1, state).is_running());
    }
    assert!(!task(1, "Queued").is_terminal());
}

#[test]
fn tasks_of_the_status_are_read() {
    let status = "{\"Done\":{\"enqueued_at\":\"a\",\"start\":\"b\",\"end\":\"c\",\
                  \"result\":{\"Failed\":1}}}";
    let read = task_from_raw(raw(RawTaskId::Text("12".to_owned()), status)).ok().unwrap();
    assert_eq!(read.id, 12);
    assert_eq!(read.state, "Done");
    assert_eq!(read.enqueued_at.as_deref(), Some("a"));
    assert_eq!(read.started_at.as_deref(), Some("b"));
    assert_eq!(read.ended_at.as_deref(), Some("c"));
    assert_eq!(read.result.unwrap().get_int("Failed"), Some(1));
    let sparse = task_from_raw(raw(RawTaskId::Integer(0), "{\"Queued\":{\"start\":null}}"));
    let sparse = sparse.ok().unwrap();
    assert_eq!(sparse.started_at, None);
    assert!(sparse.result.is_none());
    for (id, status, reason) in [
        (RawTaskId::Integer(1), "[]", "status must be an object"),
        (RawTaskId::Integer(1), "{}", "status must contain exactly one state"),
        (RawTaskId::Integer(1), "{\"A\":{},\"B\":{}}", "status must contain exactly one state"),
        (RawTaskId::Integer(1), "{\"A\":1}", "state details must be an object"),
        (RawTaskId::Integer(-1), "{\"A\":{}}", "task ID must be a non-negative integer"),
        (
            RawTaskId::Text("x".to_owned()),
            "{\"A\":{}}",
            "task ID must be a non-negative integer",
        ),
        (
            RawTaskId::Integer(1),
            "{\"A\":{\"enqueued_at\":1}}",
            "enqueued_at timestamp must be a string when present",
        ),
        (
            RawTaskId::Integer(1),
            "{\"A\":{\"start\":1}}",
            "start timestamp must be a string when present",
        ),
        (
            RawTaskId::Integer(1),
            "{\"A\":{\"end\":1}}",
            "end timestamp must be a string when present",
        ),
    ] {
        assert_eq!(status_reason(task_from_raw(raw(id, status)).unwrap_err()), reason);
    }
    let one = raw(RawTaskId::Integer(3), "{\"A\":{}}");
    let two = raw(RawTaskId::Integer(4), "{\"B\":{}}");
    let tasks = status_tasks(vec![two, one]).ok().unwrap();
    assert_eq!(tasks.iter().map(|task| task.id).collect::<Vec<i64>>(), [3, 4]);
}

#[test]
fn the_answer_to_an_added_task_is_its_number() {
    assert_eq!(added_task_id(b" 42\n".to_vec()).ok(), Some(42));
    for output in [b"".to_vec(), b"-1".to_vec(), b"x".to_vec(), vec![0xff]] {
        assert!(matches!(added_task_id(output), Err(PueueError::InvalidTaskId { .. })));
    }
    assert_eq!(task_argument(42), "42");
    let words = |list: &[&str]| list.iter().map(|word| word.as_bytes().to_vec()).collect();
    let plain: Vec<Vec<u8>> = words(&["echo", "a"]);
    let expected: Vec<Vec<u8>> = words(&["--print-task-id", "--escape", "echo", "a"]);
    assert_eq!(add_argv(&plain), expected);
    let parted: Vec<Vec<u8>> = words(&["--group", "g", "--", "echo", "--"]);
    let expected: Vec<Vec<u8>> =
        words(&["--print-task-id", "--group", "g", "--escape", "--", "echo", "--"]);
    assert_eq!(add_argv(&parted), expected);
}

#[test]
fn groups_are_found_by_name() {
    let listed = b"{\"default\":{},\"g\":{}}";
    assert_eq!(group_exists(listed, "g").ok(), Some(true));
    assert_eq!(group_exists(listed, "h").ok(), Some(false));
    assert!(matches!(group_exists(b"{", "g"), Err(PueueError::InvalidGroupJson { .. })));
    assert!(matches!(group_added(Ok(())), GroupStep::Done));
    let failed = || {
        AppError::Pueue(PueueError::CommandFailed {
            operation: "group",
            exit_code: Some(1),
            stdout: vec![],
            stderr: vec![],
        })
    };
    assert!(matches!(group_added(Err(failed())), GroupStep::LookAgain(_)));
    assert!(group_looked_again(failed(), Ok(true)).is_ok());
    assert!(matches!(
        group_looked_again(failed(), Ok(false)),
        Err(AppError::Pueue(PueueError::CommandFailed { .. }))
    ));
}

#[test]
fn group_names_are_plain() {
    assert!(validate_group("pueue-agent_1.x").is_ok());
    for name in ["", "a b", "a/b", "-g", "\u{e9}"] {
        assert!(validate_group(name).is_err(), "{name}");
    }
}

#[test]
fn only_known_operations_are_run() {
    assert_eq!(operation_name(b"status"), Some("status"));
    assert_eq!(operation_name(b"reset"), None);
    let command = prepare_command(&[b"add".to_vec(), b"x".to_vec()]).ok().unwrap();
    assert_eq!(command.operation, "add");
    assert!(command.argv.ends_with(&[b"add".to_vec(), b"x".to_vec()]));
    assert!(matches!(
        prepare_command(&[]),
        Err(AppError::Validation { field: "pueue_operation", message: "must not be empty" })
    ));
    assert!(matches!(
        prepare_command(&[b"reset".to_vec()]),
        Err(AppError::Validation { field: "pueue_operation", message: "is not supported" })
    ));
    let runner = PueueProcessRunner::new();
    assert_eq!((runner.timeout_millis, runner.output_limit), (30000, 65536));
    assert_eq!(PueueProcessRunner::with_limits(5, 6).output_limit, 6);
    assert_eq!(PueueProcessRunner::default(), runner);
}

#[test]
fn output_is_limited() {
    let mut bytes = Vec::new();
    assert_eq!(take_chunk(&mut bytes, b"abc", 4), Ok(()));
    assert_eq!(bytes, b"abc");
    assert_eq!(take_chunk(&mut bytes, b"de", 4), Err(ReadFailure::Limit));
    assert_eq!(take_chunk(&mut Vec::new(), b"", 0), Ok(()));
}

#[test]
fn a_command_is_over_when_it_and_its_streams_are() {
    let mut state = Collection::begin();
    for event in [CollectionEvent::StreamEnded(Stream::Stderr), CollectionEvent::Exited] {
        state = match state.hear(event) {
            CollectionStep::Continue(next) => next,
            _ => panic!("a stream is open"),
        };
    }
    assert_eq!(
        state.hear(CollectionEvent::StreamEnded(Stream::Stdout)),
        CollectionStep::Complete
    );
    for (event, failure) in [
        (CollectionEvent::DeadlinePassed, CollectionFailure::Timeout),
        (CollectionEvent::WaitFailed, CollectionFailure::Wait),
        (
            CollectionEvent::StreamFailed(Stream::Stdout, ReadFailure::Limit),
            CollectionFailure::OutputLimit(Stream::Stdout),
        ),
        (
            CollectionEvent::StreamFailed(Stream::Stderr, ReadFailure::Io),
            CollectionFailure::Reader(Stream::Stderr),
        ),
        (CollectionEvent::ReaderLost(Stream::Stdout), CollectionFailure::Reader(Stream::Stdout)),
    ] {
        assert_eq!(Collection::begin().hear(event), CollectionStep::Fail(failure));
    }
}

#[test]
fn failures_of_a_command_are_told() {
    assert_eq!(
        CollectionFailure::Timeout.into_app_error("status").text(),
        "Pueue `status` timed out"
    );
    assert_eq!(
        CollectionFailure::OutputLimit(Stream::Stderr).into_app_error("status").text(),
        "Pueue `status` exceeded the stderr output limit"
    );
    let lost = || AppError::Runtime { operation: "lost" };
    assert_eq!(cleanup_error("add", lost(), Ok(())).text(), "runtime operation failed: lost");
    assert!(cleanup_error("add", lost(), Err(lost()))
        .text()
        .starts_with("Pueue `add` cleanup failed during "));
    assert_eq!(
        broken_off_error("add", CollectionFailure::Timeout, Ok(()), None).text(),
        "Pueue `add` timed out"
    );
    assert!(matches!(
        map_spawn_error("add", lost()),
        AppError::Pueue(PueueError::Spawn { operation: "add", source_kind: std::io::ErrorKind::Other })
    ));
    let source = std::io::Error::from(std::io::ErrorKind::NotFound);
    let kind = std::io::ErrorKind::NotFound;
    assert!(matches!(
        map_spawn_error("add", AppError::Io { operation: "spawn", source }),
        AppError::Pueue(PueueError::Spawn { operation: "add", source_kind }) if source_kind == kind
    ));
    let good = BoundedOutput { exit_code: Some(0), stdout: b"1".to_vec(), stderr: vec![] };
    assert!(accept_output("add", good.clone()).is_ok());
    let bad = BoundedOutput { exit_code: Some(3), ..good };
    match accept_output("add", bad) {
        Err(error) => assert_eq!(
            error.text(),
            "Pueue `add` failed with exit code Some(3); inspect captured output"
        ),
        Ok(_) => panic!("the command failed"),
    }
}

#[test]
fn submissions_are_matched_with_tasks() {
    let queued = task(7, "Queued");
    let accepted = submission(Some(7), Some(RUN_SIGNATURE), 0);
    assert!(accepted_submission_matches_task(&accepted, &queued));
    assert!(!accepted_submission_matches_task(&accepted, &task(8, "Queued")));
    assert!(!accepted_submission_matches_task(&submission(Some(7), None, 0), &queued));
    for (created_at, near) in [
        (ENQUEUED_SECONDS - 600, true),
        (ENQUEUED_SECONDS + 600, true),
        (ENQUEUED_SECONDS - 601, false),
        (ENQUEUED_SECONDS + 601, false),
        (i64::MIN, false),
    ] {
        assert_eq!(submission_matches_task(&submission(None, None, created_at), &queued), near);
    }
    let mut other = task(7, "Queued");
    other.command = "python other.py".to_owned();
    assert!(!submission_matches_task(&submission(None, None, ENQUEUED_SECONDS), &other));
    let mut timeless = task(7, "Queued");
    timeless.enqueued_at = None;
    assert!(submission_matches_task(&submission(Some(7), None, 0), &timeless));
    assert!(!submission_matches_task(&submission(None, None, 0), &timeless));
    assert!(!submission_matches_task(&submission(Some(8), None, ENQUEUED_SECONDS), &queued));
}

#[test]
fn pending_submissions_are_recovered() {
    let tasks = [task(7, "Queued"), task(8, "Queued")];
    let mut far = task(9, "Queued");
    far.group = "h".to_owned();
    let bound = submission(Some(7), Some(RUN_SIGNATURE), ENQUEUED_SECONDS);
    assert!(is_unique_task_id(&tasks, 7));
    assert!(!is_unique_task_id(&[task(7, "A"), task(7, "B")], 7));
    assert_eq!(match_submission(&bound, &tasks[0], &tasks), SubmissionMatch::ThisTask);
    assert_eq!(
        recover_submission(&submission(None, None, ENQUEUED_SECONDS), "g", &tasks),
        RecoveryStep::Leave
    );
    assert_eq!(
        recover_submission(&submission(None, None, ENQUEUED_SECONDS), "g", &tasks[..1]),
        RecoveryStep::Adopt(0)
    );
    assert_eq!(
        recover_submission(&submission(None, None, ENQUEUED_SECONDS), "g", &[far]),
        RecoveryStep::Leave
    );
    let mut report = begin_report(2);
    note_recovered(&mut report, SubmissionStatus::Adopted, "s-1");
    note_recovered(&mut report, SubmissionStatus::Failed, "s-2");
    assert_eq!(report.recovered_submission_ids, ["s-1"]);
    let resolution = resolve_terminal_submissions(&[bound], &tasks[0], &tasks);
    assert_eq!(resolution.resolved, Some(0));
    assert!(resolution.mismatched.is_empty() && resolution.ambiguous.is_empty());
}

#[test]
fn tasks_of_unknown_groups_are_noted() {
    let projects = [project("p-1", "h"), project("p-2", "g")];
    assert_eq!(project_of_group(&projects, "g"), Some(1));
    assert_eq!(project_of_group(&projects, "x"), None);
    let mut report = begin_report(3);
    match observe_task(&mut report, &projects, &task(7, "Running"), 50).ok().unwrap() {
        TaskStep::Record { project, observation, watch, settle } => {
            assert_eq!((project, watch, settle), (1, true, false));
            assert_eq!(observation.project_id, "p-2");
            assert_eq!(observation.enqueued_at, Some(ENQUEUED_SECONDS));
            assert_eq!(observation.observed_at, 50);
        }
        TaskStep::Skip => panic!("the group is known"),
    }
    let mut strange = task(8, "Done");
    strange.group = "x".to_owned();
    assert!(matches!(
        observe_task(&mut report, &projects, &strange, 50).ok().unwrap(),
        TaskStep::Skip
    ));
    observe_task(&mut report, &projects, &strange, 50).ok().unwrap();
    assert_eq!(report.unknown_groups, ["x"]);
    assert_eq!(report.observed_task_count, 1);
    assert_eq!(report.status_task_count, 3);
    count_terminal_event(&mut report, EventKind::TaskFailed);
    count_terminal_event(&mut report, EventKind::TaskFinished);
    count_terminal_event(&mut report, EventKind::AutoKilled);
    assert_eq!(report.task_finished_events, 1);
}

#[test]
fn the_end_of_a_task_becomes_an_event() {
    let mut ended = task(7, "Done");
    ended.result = Some(parsed("\"Success\""));
    let event = terminal_event("p", &ended, "sig", EventKind::TaskFinished, None, 9);
    let event = event.ok().unwrap();
    assert_eq!(event.event.dedup_key, "pueue-terminal:v1:sig:result=\"Success\"");
    assert_eq!(event.campaign_id, None);
    assert_eq!(event.event.payload.get_text("source").unwrap(), "pueue_reconciliation");
    assert_eq!(event.event.payload.get_int("task_id"), Some(7));
    assert_eq!((event.event.not_before, event.event.created_at), (9, 9));
    ended.result = None;
    let bound = terminal_event("p", &ended, "sig", EventKind::TaskFailed, Some(&experiment()), 9);
    let bound = bound.ok().unwrap();
    assert_eq!(bound.event.dedup_key, "pueue-terminal:v1:sig:result=null");
    assert_eq!(bound.campaign_id.as_deref(), Some("c-1"));
    assert_eq!(bound.experiment_id.as_deref(), Some("e-1"));
    let decision = decision_event("p", &experiment(), &ended, "cycle", 9);
    assert_eq!(decision.event.dedup_key, "campaign-decision:v1:cycle");
    assert_eq!(decision.event.kind, EventKind::CampaignDecision);

    assert!(matches!(terminal_event_step(None, None, &event), TerminalEventStep::Insert));
    assert!(matches!(terminal_event_step(None, Some(4), &event), TerminalEventStep::Replace(4)));
    let stored = |campaign: Option<&str>| pueue_agent::models::Event {
        event_id: 3,
        project_id: "p".to_owned(),
        campaign_id: campaign.map(str::to_owned),
        experiment_id: None,
        kind: EventKind::TaskFinished,
        dedup_key: "k".to_owned(),
        payload: Json::Null,
        status: EventStatus::Pending,
        attempts: 0,
        not_before: 0,
        lease_until: None,
        created_at: 0,
        completed_at: None,
        last_error: None,
    };
    assert!(matches!(
        terminal_event_step(Some(&stored(None)), Some(4), &event),
        TerminalEventStep::Keep { event_id: 3, discard: Some(4) }
    ));
    assert!(matches!(
        terminal_event_step(Some(&stored(None)), Some(3), &event),
        TerminalEventStep::Keep { event_id: 3, discard: None }
    ));
    assert!(matches!(
        terminal_event_step(Some(&stored(None)), None, &bound),
        TerminalEventStep::Upgrade(3)
    ));
    assert!(matches!(
        terminal_event_step(Some(&stored(Some("c-2"))), None, &bound),
        TerminalEventStep::Refuse(AppError::Validation { field: "event.lineage", .. })
    ));
}

#[test]
fn a_confirmed_kill_is_told_as_one() {
    let killed = task(7, "Killed");
    assert_eq!(
        confirmed_event_kind(Some(AutoKillConfirmation::Confirmed), &killed, true),
        EventKind::AutoKilled
    );
    assert_eq!(confirmed_event_kind(None, &killed, true), EventKind::TaskFailed);
}

fn settle(experiment: bool, objective: bool) -> Vec<SettleStage> {
    let (mut settling, mut stage) = Settling::begin();
    let mut order = vec![stage];
    loop {
        let found = |yes: bool| if yes { SettleReply::Found } else { SettleReply::Absent };
        let reply = match stage {
            SettleStage::FindKill => SettleReply::Absent,
            SettleStage::FindExperiment => found(experiment),
            SettleStage::FindObjective => found(objective),
            _ => SettleReply::Done,
        };
        assert!(settling.takes(stage, reply));
        match settling.step(stage, reply) {
            SettleMove::Next(next) => stage = next,
            SettleMove::Settled => return order,
            SettleMove::Abort => panic!("nothing failed"),
        }
        order.push(stage);
    }
}

#[test]
fn the_end_of_a_task_is_settled_in_order() {
    assert_eq!(
        settle(false, true),
        [
            SettleStage::FindKill,
            SettleStage::FindExperiment,
            SettleStage::StoreEvent,
            SettleStage::SettleIncidents,
        ]
    );
    assert_eq!(
        settle(true, true),
        [
            SettleStage::FindKill,
            SettleStage::FindExperiment,
            SettleStage::ProjectOutcome,
            SettleStage::FindObjective,
            SettleStage::IngestResult,
            SettleStage::StoreEvent,
            SettleStage::PublishDecision,
            SettleStage::SettleIncidents,
        ]
    );
    let (mut settling, stage) = Settling::begin();
    assert_eq!(settling.step(stage, SettleReply::Broken), SettleMove::Abort);
    assert!(!settling.takes(stage, SettleReply::Done));
}
