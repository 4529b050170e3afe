//! What an operator is shown.

use pueue_agent::commands::{
    add_project_root, callback_task, check_callback_group, check_submission, join_message,
    render_disabled, render_message_list, render_message_queued, render_service_lifecycle,
    render_wake, upgrade_diagnostic_error, validate_event_limit, ServiceOperation,
};
use pueue_agent::interventions::{validate_message, Intervention, InterventionStatus};
use pueue_agent::models::{Campaign, Experiment, Proposal};
use pueue_agent::output::{
    bounded_execution_path, bounded_redacted_text, bounded_typed_text, format_state, human_header,
    human_summary, redact_sensitive_text, render_campaign_mutation, render_campaign_status,
    render_experiment_inspection, render_experiment_list, render_id, render_proposal_inspection,
    render_proposal_list, Count, OutputMode, OutputTarget,
};
use pueue_agent::states::{CampaignState, ExperimentStatus, ProposalKind, ProposalStatus};
use pueue_agent::AppError;

#[test]
fn secrets_and_paths_are_redacted() {
    for (text, shown) in [
        ("plain words stay", "plain words stay"),
        ("open /etc/passwd now", "open [path] now"),
        ("API_TOKEN=abc rest", "API_TOKEN=[REDACTED]"),
        ("--api-key abc --verbose", "--api-key [REDACTED] --verbose"),
        ("--api-key=abc next", "--api-key=[REDACTED]"),
        ("--prompt=abc next", "--prompt=[REDACTED] next"),
        ("bearer abc next", "bearer [REDACTED] next"),
        ("\u{1b}[31mred\u{1b}[0m", "red"),
    ] {
        assert_eq!(redact_sensitive_text(text), shown);
    }
}

#[test]
fn text_is_cut_at_its_limit() {
    let long = "a".repeat(300);
    let cut = bounded_redacted_text(&long);
    assert_eq!(cut.len(), 240);
    assert!(cut.ends_with("..."));
    assert_eq!(bounded_redacted_text(&"a".repeat(30)), "a".repeat(30));
    let wide = "\u{e9}".repeat(200);
    let typed = bounded_typed_text(&wide);
    assert_eq!(typed, format!("{}...", "\u{e9}".repeat(118)));
    assert_eq!(bounded_typed_text("/keeps/paths"), "/keeps/paths");
}

#[test]
fn only_clean_absolute_paths_are_shown() {
    assert_eq!(bounded_execution_path("/usr/bin/codex").as_deref(), Some("/usr/bin/codex"));
    for path in ["", "relative", "/with\ncontrol"] {
        assert_eq!(bounded_execution_path(path), None);
    }
    assert_eq!(bounded_execution_path(&format!("/{}", "a".repeat(4096))), None);
}

#[test]
fn states_are_coloured_on_a_terminal_only() {
    assert_eq!(format_state("Running", false), "running");
    assert_eq!(format_state("Running", true), "\u{1b}[32mrunning\u{1b}[0m");
    assert_eq!(format_state("pending", true), "\u{1b}[33mpending\u{1b}[0m");
    assert_eq!(format_state("failed", true), "\u{1b}[31mfailed\u{1b}[0m");
    assert_eq!(format_state("other", true), "other");
    assert!(OutputMode::Human.uses_ansi(OutputTarget::Terminal, false));
    assert!(!OutputMode::Human.uses_ansi(OutputTarget::Terminal, true));
    assert!(!OutputMode::Json.uses_ansi(OutputTarget::Terminal, false));
    assert_eq!(OutputTarget::detect(false), OutputTarget::Pipe);
    assert_eq!(human_header("runs", "p"), "pueue-agent runs project=p");
    assert_eq!(human_summary("done"), "summary: done");
    assert_eq!(render_id("event", "7"), "event=7");
}

fn campaign() -> Campaign {
    Campaign {
        campaign_id: "campaign-a".to_owned(),
        project_id: "project-a".to_owned(),
        objective_text: "objective".to_owned(),
        objective_digest: "digest".to_owned(),
        initial_argv: Vec::new(),
        state: CampaignState::Active,
        state_reason: None,
        baseline_experiment_id: Some("exp-0".to_owned()),
        next_eligible_at: None,
        created_at: 100,
        updated_at: 200,
    }
}

fn counts(all: &[(&str, i64)]) -> Vec<Count> {
    all.iter().map(|(key, count)| Count { key: (*key).to_owned(), count: *count }).collect()
}

#[test]
fn a_campaign_is_reported_for_readers_and_for_programs() {
    let states = counts(&[("failed", 1), ("running", 2)]);
    let none = counts(&[]);
    assert_eq!(
        render_campaign_status(&campaign(), 3, &states, &none, &vec![4, 5], false, false).ok().unwrap(),
        "pueue-agent campaign status project=project-a\n\
         campaign: campaign-a\n\
         state: active\n\
         state_reason: none\n\
         objective_digest: digest\n\
         baseline_experiment: exp-0\n\
         counts: proposals=3 experiments=3 states=failed=1,running=2\n\
         budget_usage: none\n\
         task_ids: 4,5\n\
         timestamps: created_at=100 updated_at=200 next_eligible_at=none\n\
         summary: campaign state inspected"
    );
    assert_eq!(
        render_campaign_status(&campaign(), 3, &states, &none, &vec![4], true, false).ok().unwrap(),
        "{\"baseline_experiment_id\":\"exp-0\",\"budget_usage\":{},\"campaign_id\":\"campaign-a\",\
         \"counts\":{\"experiment_states\":{\"failed\":1,\"running\":2},\"experiments\":3,\
         \"proposals\":3},\"created_at\":100,\"next_eligible_at\":null,\
         \"objective_digest\":\"digest\",\"project_id\":\"project-a\",\"schema_version\":1,\
         \"state\":\"active\",\"state_reason\":null,\"task_ids\":[4],\"updated_at\":200}"
    );
    assert_eq!(
        render_campaign_mutation(&campaign(), "pause", false, false).ok().unwrap(),
        "pueue-agent campaign pause project=project-a\n\
         campaign: campaign-a\n\
         state: active\n\
         state_reason: none\n\
         updated_at: 200\n\
         summary: campaign pause complete"
    );
}

fn proposal() -> Proposal {
    Proposal {
        proposal_id: "proposal-a".to_owned(),
        campaign_id: "campaign-a".to_owned(),
        kind: ProposalKind::Repair,
        status: ProposalStatus::Accepted,
        hypothesis: "smaller steps".to_owned(),
        source_experiment_id: None,
        argv: Vec::new(),
        working_directory: ".".to_owned(),
        expected_evidence: vec!["loss".to_owned(), "time".to_owned()],
        canonical_digest: "d1".to_owned(),
        reject_reason: None,
        created_at: 1,
        updated_at: 2,
    }
}

#[test]
fn proposals_are_listed_and_inspected() {
    assert_eq!(
        render_proposal_list(&campaign(), &[proposal()], false, false).ok().unwrap(),
        "pueue-agent proposal list project=project-a\n\
         campaign: campaign-a\n\
         proposal=proposal-a kind=repair state=accepted source_experiment=none created_at=1 \
         updated_at=2\n\
         summary: 1 proposal(s)"
    );
    assert_eq!(
        render_proposal_inspection(&campaign(), &proposal(), false, false).ok().unwrap(),
        "pueue-agent proposal inspect project=project-a\n\
         proposal: proposal-a\n\
         campaign: campaign-a\n\
         kind: repair\n\
         state: accepted\n\
         hypothesis: smaller steps\n\
         expected_evidence: loss, time\n\
         canonical_digest: d1\n\
         timestamps: created_at=1 updated_at=2\n\
         summary: proposal inspected"
    );
    assert_eq!(
        render_proposal_inspection(&campaign(), &proposal(), true, false).ok().unwrap(),
        "{\"campaign_id\":\"campaign-a\",\"canonical_digest\":\"d1\",\"created_at\":1,\
         \"expected_evidence\":[\"loss\",\"time\"],\"hypothesis\":\"smaller steps\",\
         \"kind\":\"repair\",\"project_id\":\"project-a\",\"proposal_id\":\"proposal-a\",\
         \"reject_reason\":null,\"schema_version\":1,\"source_experiment_id\":null,\
         \"status\":\"accepted\",\"updated_at\":2}"
    );
}

fn experiment() -> Experiment {
    Experiment {
        experiment_id: "exp-1".to_owned(),
        campaign_id: "campaign-a".to_owned(),
        proposal_id: "proposal-a".to_owned(),
        submission_id: "sub-1".to_owned(),
        parent_experiment_id: None,
        attempt: 1,
        status: ExperimentStatus::Accepted,
        pueue_task_id: Some(41),
        task_signature: None,
        failure_code: None,
        failure_fingerprint: None,
        created_at: 1,
        updated_at: 2,
        finished_at: None,
    }
}

#[test]
fn experiments_are_listed_and_inspected() {
    assert_eq!(
        render_experiment_list(&campaign(), &[experiment()], false, false).ok().unwrap(),
        "pueue-agent experiment list project=project-a\n\
         campaign: campaign-a\n\
         experiment=exp-1 state=accepted proposal=proposal-a submission=sub-1 task_id=41 \
         created_at=1 updated_at=2\n\
         summary: 1 experiment(s)"
    );
    assert_eq!(
        render_experiment_inspection(&campaign(), &experiment(), "argv", false, false).ok().unwrap(),
        "pueue-agent experiment inspect project=project-a\n\
         experiment: exp-1\n\
         campaign: campaign-a\n\
         proposal: proposal-a\n\
         submission: sub-1\n\
         parent_experiment: none\n\
         attempt: 1\n\
         state: accepted\n\
         task_id: 41\n\
         task_signature: none\n\
         argv_digest: argv\n\
         failure_code: none\n\
         timestamps: created_at=1 updated_at=2 finished_at=none\n\
         summary: experiment inspected"
    );
}

fn message(id: &str, text: &str) -> Intervention {
    Intervention {
        intervention_id: id.to_owned(),
        project_id: "project-a".to_owned(),
        message: text.to_owned(),
        status: InterventionStatus::Pending,
        created_at: 7,
        reserved_at: None,
        applied_at: None,
        agent_run_id: None,
        attempts: 0,
        lease_expires_at: None,
        reservation_token: None,
    }
}

#[test]
fn messages_are_joined_checked_and_listed() {
    let words = vec!["use".to_owned(), "less".to_owned(), "memory".to_owned()];
    assert_eq!(join_message(&words), "use less memory");
    assert!(validate_message("use less memory").is_ok());
    for refused in ["", "  \n", &"x".repeat(4097)] {
        assert!(matches!(
            validate_message(refused),
            Err(AppError::Configuration { field: "intervention_message" })
        ));
    }
    let all = vec![message("m1", "use less memory"), message("m2", "look at /etc/hosts")];
    assert_eq!(
        render_message_list("project-a", &all, false),
        ["m1\tpending\t7\tuse less memory", "m2\tpending\t7\tlook at [path]"]
    );
    assert_eq!(
        render_message_list("project-a", &all[..1].to_vec(), true),
        ["{\"interventions\":[{\"created_at\":7,\"intervention_id\":\"m1\",\
          \"message\":\"use less memory\",\"status\":\"pending\"}],\"project_id\":\"project-a\",\
          \"schema_version\":1}"]
    );
    assert_eq!(render_message_queued(&all[0], false), "queued intervention: m1");
    assert_eq!(
        render_message_queued(&all[0], true),
        "{\"intervention_id\":\"m1\",\"project_id\":\"project-a\",\"schema_version\":1,\
         \"status\":\"pending\"}"
    );
}

#[test]
fn callbacks_name_their_task() {
    assert_eq!(callback_task("other", None).ok(), Some(None));
    assert_eq!(callback_task("callback", Some(4)).ok(), Some(Some(4)));
    for task in [None, Some(-1)] {
        assert!(matches!(
            callback_task("callback", task),
            Err(AppError::Configuration { field: "callback.task_id" })
        ));
    }
    assert!(check_callback_group(true).is_ok());
    assert!(matches!(
        check_callback_group(false),
        Err(AppError::Validation { field: "callback.group", .. })
    ));
    assert!(check_submission(false).is_ok());
    assert!(matches!(check_submission(true), Err(AppError::Validation { field: "submit", .. })));
}

#[test]
fn commands_report_what_they_did() {
    assert_eq!(render_disabled("p", "g", false), "disabled: p (group reserved: g)");
    assert_eq!(render_disabled("p", "g", true), "removed: p (group released: g)");
    assert_eq!(
        render_wake(3, "p", false, false),
        "pueue-agent wake project=p\nevent=3 kind=operator_wake state=pending\n\
         summary: operator wake queued"
    );
    assert_eq!(
        render_wake(3, "p", true, false),
        "{\"event_id\":3,\"kind\":\"operator_wake\",\"project_id\":\"p\",\"schema_version\":1,\
         \"status\":\"pending\"}"
    );
    assert_eq!(
        render_service_lifecycle(ServiceOperation::Start, false, false),
        "pueue-agent start\nservice: running\nsummary: service started"
    );
    assert_eq!(
        render_service_lifecycle(ServiceOperation::Stop, true, false),
        "{\"operation\":\"stop\",\"schema_version\":1,\"service\":\"stopped\"}"
    );
    match upgrade_diagnostic_error("no source") {
        AppError::Message { message } => {
            assert_eq!(message, "no source; next diagnostic: pueue-agent version");
        }
        _ => panic!("the error is a message"),
    }
    assert_eq!(validate_event_limit(5, 50).ok(), Some(5));
    match validate_event_limit(51, 50) {
        Err(AppError::Message { message }) => {
            assert_eq!(message, "diagnostic event limit must be between 1 and 50");
        }
        _ => panic!("the limit is out of bounds"),
    }
    let mut roots = vec!["/a".to_owned()];
    add_project_root(&mut roots, "/b");
    add_project_root(&mut roots, "/a");
    add_project_root(&mut roots, "/b/");
    assert_eq!(roots, ["/a", "/b"]);
}
