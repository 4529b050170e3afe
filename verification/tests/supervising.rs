//! Retries, deep checks, runs and the way of events to agents.

use pueue_agent::batches::{legacy_dispatch_mode, partition_legacy_events};
use pueue_agent::json::Json;
use pueue_agent::models::Event;
use pueue_agent::periodic::{
    periodic_bucket, should_schedule_deep_check, DeepCheckScheduleInput,
};
use pueue_agent::pueue_process::{cleanup_stage, BoundedOutput};
use pueue_agent::result_manifest::{stage_from_reads, ManifestRead};
use pueue_agent::retry::{retry_backoff_seconds, retry_decision, RetryDecision, RetryPolicy};
use pueue_agent::runs::{
    collect_fresh, render_human, summarize_run, validate_limit, FollowCursor, RunLineage,
    RunLineageCursor, SubmissionLineage,
};
use pueue_agent::scheduler::{unresolved_spawn_error, AgentSpawnStage};
use pueue_agent::states::{EventKind, EventStatus, SubmissionKind, SubmissionStatus};
use pueue_agent::AppError;

#[test]
fn retry_policy_uses_attempt_number_and_zero_retry_is_dead_letter() {
    assert_eq!(
        retry_decision(1, 1_000, RetryPolicy { max_retries: 0 }),
        RetryDecision::DeadLetter
    );
    assert_eq!(
        retry_decision(1, 1_000, RetryPolicy { max_retries: 2 }),
        RetryDecision::Retry { not_before: 1_060 }
    );
    assert_eq!(
        retry_decision(2, 1_000, RetryPolicy { max_retries: 2 }),
        RetryDecision::Retry { not_before: 1_120 }
    );
    assert_eq!(
        retry_decision(3, 1_000, RetryPolicy { max_retries: 2 }),
        RetryDecision::DeadLetter
    );
    assert_eq!(retry_backoff_seconds(20), 3_840);
}

#[test]
fn periodic_check_requires_active_running_task_and_enabled_interval() {
    let input = DeepCheckScheduleInput {
        interval_minutes: 30,
        now: 3_601,
        oldest_running_task_started_at: Some(1_801),
        last_scheduled_at: None,
        project_active: true,
        has_running_task: true,
        has_active_agent: false,
        has_open_event: false,
    };

    assert!(should_schedule_deep_check(&input));
    assert!(!should_schedule_deep_check(&DeepCheckScheduleInput {
        has_running_task: false,
        ..input
    }));
}

#[test]
fn periodic_check_waits_for_interval_and_skips_active_or_open_work() {
    let base = DeepCheckScheduleInput {
        interval_minutes: 30,
        now: 2_000,
        oldest_running_task_started_at: Some(1_000),
        last_scheduled_at: Some(1_900),
        project_active: true,
        has_running_task: true,
        has_active_agent: false,
        has_open_event: false,
    };

    assert!(!should_schedule_deep_check(&base));
    assert!(!should_schedule_deep_check(&DeepCheckScheduleInput {
        has_active_agent: true,
        ..base
    }));
    assert!(!should_schedule_deep_check(&DeepCheckScheduleInput {
        has_open_event: true,
        ..base
    }));
    assert!(should_schedule_deep_check(&DeepCheckScheduleInput { now: 3_701, ..base }));
}

#[test]
fn periodic_bucket_is_stable_for_the_same_interval() {
    assert_eq!(periodic_bucket(3_599, 1_800), 1);
    assert_eq!(periodic_bucket(3_600, 1_800), 2);
}

#[test]
fn buckets_round_down_and_take_no_empty_interval() {
    assert_eq!(periodic_bucket(-1, 1_800), -1);
    assert_eq!(periodic_bucket(-1_800, 1_800), -1);
    assert_eq!(periodic_bucket(-1_801, 1_800), -2);
    assert_eq!(periodic_bucket(7, 0), 7);
    assert_eq!(periodic_bucket(7, -5), 7);
    assert_eq!(periodic_bucket(i64::MIN, 1), i64::MIN);
}

fn lineage(run_id: i64, started_at: i64, submission_ids: &[&str]) -> RunLineage {
    RunLineage {
        event_id: Some(run_id),
        event_kind: None,
        event_status: None,
        run_id: Some(run_id),
        mode: None,
        run_status: None,
        started_at,
        submissions: submission_ids
            .iter()
            .map(|submission_id| SubmissionLineage {
                submission_id: (*submission_id).to_owned(),
                kind: SubmissionKind::Experiment,
                status: SubmissionStatus::Pending,
                pueue_task_id: None,
            })
            .collect(),
    }
}

#[test]
fn collect_fresh_consumes_pending_cursors_in_order_and_limit_batches() {
    let first = lineage(1, 10, &["sub-a", "sub-b"]);
    let second = lineage(2, 20, &["sub-c"]);
    let mut cursor = FollowCursor::default();

    let first_batch = collect_fresh(vec![second.clone(), first.clone()], &mut cursor, 2);
    assert_eq!(first_batch.len(), 1);
    assert_eq!(first_batch[0].run_id, Some(1));
    assert_eq!(first_batch[0].submissions[0].submission_id, "sub-a");

    let second_batch = collect_fresh(vec![second.clone(), first.clone()], &mut cursor, 2);
    assert_eq!(second_batch.len(), 2);
    assert_eq!(second_batch[0].run_id, Some(1));
    assert_eq!(second_batch[0].submissions[0].submission_id, "sub-b");
    assert_eq!(second_batch[1].run_id, Some(2));
    assert!(second_batch[1].submissions.is_empty());

    let third_batch = collect_fresh(vec![second.clone(), first], &mut cursor, 2);
    assert_eq!(third_batch.len(), 1);
    assert_eq!(third_batch[0].run_id, Some(2));
    assert_eq!(third_batch[0].submissions[0].submission_id, "sub-c");

    assert!(collect_fresh(vec![second], &mut cursor, 2).is_empty());
}

#[test]
fn calls_on_one_cursor_show_each_entry_once() {
    let all = vec![lineage(3, 30, &["x", "y", "z"]), lineage(1, 10, &["b", "a"]), lineage(2, 10, &[])];
    let mut cursor = FollowCursor::default();
    let mut shown = Vec::new();
    for limit in [1, 3, 2, 5, 4] {
        let fresh = collect_fresh(all.clone(), &mut cursor, limit);
        let submissions: usize = fresh.iter().map(|run| run.submissions.len()).sum();
        assert!(fresh.len() <= limit && submissions <= limit);
        let keys: Vec<_> = fresh.iter().map(|run| (run.started_at, run.run_id)).collect();
        assert!(keys.windows(2).all(|pair| pair[0] < pair[1]));
        for run in fresh {
            if run.submissions.is_empty() {
                shown.push((run.run_id, None));
            }
            for submission in run.submissions {
                shown.push((run.run_id, Some(submission.submission_id)));
            }
        }
    }
    let count = shown.len();
    shown.sort();
    shown.dedup();
    assert_eq!(shown.len(), count);
    assert_eq!(shown.iter().filter(|(_, submission)| submission.is_some()).count(), 5);
}

#[test]
fn a_cursor_hands_out_each_entry_once_and_in_order() {
    let mut cursor = FollowCursor::default();
    let late = RunLineageCursor::new(20, 1, None, None);
    let early = RunLineageCursor::new(10, 9, Some("b".to_owned()), None);
    let first = RunLineageCursor::new(10, 9, Some("a".to_owned()), Some(4));
    let run = RunLineageCursor::new(10, 9, None, None);
    for entry in [&late, &early, &first, &run] {
        assert!(cursor.observe(entry));
        assert!(!cursor.observe(entry));
    }
    assert_eq!(cursor.take_ordered(3), [run.clone(), first, early]);
    assert!(!cursor.observe(&run));
    assert_eq!(cursor.take_ordered(3), [late]);
    assert!(cursor.take_ordered(3).is_empty());
}

#[test]
fn the_number_of_runs_is_limited() {
    assert_eq!(validate_limit(1).ok(), Some(1));
    assert_eq!(validate_limit(128).ok(), Some(128));
    for limit in [0, 129] {
        match validate_limit(limit) {
            Err(AppError::Message { message }) => {
                assert_eq!(message, "runs limit must be between 1 and 128");
            }
            _ => panic!("the limit is out of bounds"),
        }
    }
}

#[test]
fn runs_are_listed_one_to_a_line() {
    let mut run = lineage(7, 10, &["sub-a"]);
    run.event_kind = Some(EventKind::TaskFinished);
    run.event_status = Some(EventStatus::Completed);
    run.submissions[0].pueue_task_id = Some(41);
    let empty = RunLineage { run_id: None, event_id: None, ..lineage(0, 5, &[]) };
    assert_eq!(
        render_human("project", &vec![run.clone(), empty], false),
        "pueue-agent runs project=project showing=2\n\
         RUN EVENT EVENT_KIND EVENT_STATE MODE RUN_STATE SUBMISSION TASK\n\
         run=7 event=7 event_kind=task_finished event_state=completed mode=none run_state=none \
         sub=sub-a sub_kind=experiment sub_state=pending task=41\n\
         run=none event=none event_kind=none event_state=none mode=none run_state=none \
         sub=none task=none"
    );
    let summary = summarize_run(&run);
    let event = summary.event.unwrap();
    assert_eq!((event.event_id, event.kind.as_str()), (7, "task_finished"));
    assert_eq!(event.status, "completed");
    assert_eq!(summary.submissions[0].task_id, Some(41));
    let unknown = summarize_run(&lineage(7, 10, &[]));
    assert_eq!(unknown.event.unwrap().kind, "unknown");
}

fn event(event_id: i64, kind: EventKind) -> Event {
    Event {
        event_id,
        project_id: "project-a".to_owned(),
        campaign_id: None,
        experiment_id: None,
        kind,
        dedup_key: format!("event-{event_id}"),
        payload: Json::Record(Vec::new()),
        status: EventStatus::Claimed,
        attempts: 0,
        not_before: 100,
        lease_until: Some(200),
        created_at: 100,
        completed_at: None,
        last_error: None,
    }
}

#[test]
fn mixed_batch_partitions_campaign_decisions_out_of_legacy_dispatch() {
    let (legacy, deferred) = partition_legacy_events(vec![
        event(1, EventKind::TaskFinished),
        event(2, EventKind::CampaignDecision),
    ]);
    assert_eq!(legacy.iter().map(|event| event.event_id).collect::<Vec<_>>(), vec![1]);
    assert_eq!(deferred, vec![2]);
}

#[test]
fn campaign_decision_is_not_a_legacy_agent_dispatch_mode() {
    assert_eq!(legacy_dispatch_mode(EventKind::CampaignDecision), None);
}

#[test]
fn unresolved_error_signal_wraps_only_unresolved_stages() {
    let resolved = unresolved_spawn_error(
        AgentSpawnStage::PostMarker { run_id: 7, resolved: true },
        AppError::Runtime { operation: "finish agent run" },
    );
    assert!(matches!(resolved, AppError::Runtime { .. }));

    let unresolved = unresolved_spawn_error(
        AgentSpawnStage::PostMarker { run_id: 7, resolved: false },
        AppError::Runtime { operation: "finish agent run" },
    );
    let message = unresolved.text();
    assert!(message.contains("PostMarker resolved=false run_id=7"));
    assert!(message.len() <= 240);
}

#[test]
fn cleanup_stage_only_classifies_core_reap_operations_as_reap() {
    let reap_io = AppError::Io {
        operation: "reap terminated verified child",
        source: std::io::Error::other("fixture"),
    };
    let reap_timeout =
        AppError::Runtime { operation: "reap terminated verified child before timeout" };
    let terminate = AppError::Io {
        operation: "signal verified process group",
        source: std::io::Error::other("fixture"),
    };
    let unrelated_runtime = AppError::Runtime { operation: "unrelated runtime failure" };

    assert_eq!(cleanup_stage(&reap_io), "reap");
    assert_eq!(cleanup_stage(&reap_timeout), "reap");
    assert_eq!(cleanup_stage(&terminate), "terminate");
    assert_eq!(cleanup_stage(&unrelated_runtime), "terminate");
}

#[test]
fn bounded_output_debug_reports_lengths_without_captured_bytes() {
    let sentinel = b"captured-output-SENTINEL";
    let output = BoundedOutput {
        exit_code: Some(0),
        stdout: sentinel.to_vec(),
        stderr: sentinel.to_vec(),
    };

    let debug = output.shape_text();
    assert!(!debug.contains("captured-output-SENTINEL"));
    assert!(debug.contains(&format!("stdout_len: {}", sentinel.len())));
    assert!(debug.contains(&format!("stderr_len: {}", sentinel.len())));
}

#[test]
fn stage_from_verified_root_rejects_unsafe_experiment_ids() {
    for experiment_id in ["", "foo/bar", "foo\\bar", ".", "..", "\0"] {
        assert!(
            stage_from_reads(vec![ManifestRead::Missing], experiment_id, &None, 100).is_err(),
            "unsafe experiment id was accepted: {experiment_id:?}"
        );
    }
    assert!(
        stage_from_reads(vec![ManifestRead::Missing], &"a".repeat(129), &None, 100).is_err()
    );
    assert!(stage_from_reads(vec![ManifestRead::Missing], &"a".repeat(128), &None, 100).is_ok());
}
