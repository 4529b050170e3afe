//! What is watched, and what comes of it.

use pueue_agent::health::{
    campaign_defers, class_label, count_observation, plan_observation,
    repeated_non_staleness_class, source_label, summary_entry, tail_is_stalled,
    task_log_candidates, HealthEngine, HealthReport, SignalClass, SignalObservation,
    SignalSource,
};
use pueue_agent::health_diagnosis::{
    diagnose_row_step, diagnosed_objective, diagnosis_event, diagnosis_takes,
    parse_diagnosis_attempt_count,
    release_time,
    validate_diagnosis, DiagnosisCount, DiagnosisMove, DiagnosisReply, DiagnosisStage,
    RunningHealthRow,
};
use pueue_agent::incidents::{
    termination_reason, IncidentAction, IncidentStore, Observation, ObservationState,
};
use pueue_agent::init::{
    already_initialized, append_git_exclude, check_pointer_file, classify_dot_git,
    ensure_git_info_directory, ensure_secure_git_directory, ensure_secure_git_file, fill_config,
    has_common_directory, read_pointer_text, required_parts, resolve_git_pointer, DotGit,
    GitFacts, InfoStep, Lookup,
};
use pueue_agent::json::{self, Json};
use pueue_agent::logs::{check_log_opened, tail_range, LogOpened, LogSnapshot};
use pueue_agent::models::{
    launch_gate_marker_path, AgentContextMode, ExecutionProjection, Incident, Project,
};
use pueue_agent::paths::{state_db_path_with, state_db_path_with_override, Platform};
use pueue_agent::periodic::{running_tasks, PeriodicDeepCheckScheduler, ProjectFacts};
use pueue_agent::project::{default_pueue_group, find_root, new_project_id, root_candidates};
use pueue_agent::promotion::{
    comparison_anchor, evaluate, finalize_code_candidate, plateau_grown, plateau_reached, preview_code_candidate, promotion_event,
    strategy_refresh_event, validate_code_candidate_sha, CampaignPromotionState,
    CodePromotionPlan, Comparison, ObjectiveState, PromotionAction, PromotionFacts,
    PromotionOutcome,
};
use pueue_agent::pueue::PueueTask;
use pueue_agent::result_manifest::{
    classify_manifest, result_path_candidates, stage_defect, stage_from_bound_manifest,
    stage_from_reads, ManifestOutcome, ManifestRead, MetricNumber,
};
use pueue_agent::states::{
    CampaignState, EventKind, EventStatus, ExperimentStatus, IncidentStatus, IncidentTransition,
    TerminationRequestStatus,
};
use pueue_agent::AppError;

fn signal(class: SignalClass) -> SignalObservation {
    SignalObservation {
        class,
        source: SignalSource::BuiltinProbe,
        evidence_digest: "d".to_owned(),
        observed_at: 5,
    }
}

fn task(id: i64, group: &str, state: &str, started_at: Option<&str>) -> PueueTask {
    PueueTask {
        id,
        group: group.to_owned(),
        command: "c".to_owned(),
        state: state.to_owned(),
        enqueued_at: None,
        started_at: started_at.map(str::to_owned),
        ended_at: None,
        result: None,
    }
}

fn project() -> Project {
    Project {
        project_id: "p-1".to_owned(),
        root_path: "/work/p".to_owned(),
        pueue_group: "g".to_owned(),
        config_path: "/work/p/.pueue-agent/config.toml".to_owned(),
        enabled: true,
        paused: false,
        halted_reason: None,
        created_at: 1,
        updated_at: 1,
    }
}

fn row() -> RunningHealthRow {
    RunningHealthRow {
        experiment_id: "e-1".to_owned(),
        campaign_id: "c-1".to_owned(),
        project_id: "p-1".to_owned(),
        pueue_task_id: 7,
        signal_summary_json: "[]".to_owned(),
        diagnosis_json: None,
    }
}

#[test]
fn signals_are_labelled() {
    for (class, label) in [
        (SignalClass::Oom, "oom"),
        (SignalClass::Numerical, "numerical"),
        (SignalClass::WorkerLoss, "worker_loss"),
        (SignalClass::Staleness, "staleness"),
        (SignalClass::Exception, "exception"),
        (SignalClass::Configured("mine".to_owned()), "mine"),
    ] {
        assert_eq!(class_label(&class), label);
    }
    assert_eq!(source_label(SignalSource::ConfigPattern), "config_pattern");
    assert_eq!(source_label(SignalSource::Stall), "stall");
    let entry = summary_entry(&signal(SignalClass::Oom));
    assert_eq!((entry.class.as_str(), entry.source.as_str()), ("oom", "builtin_probe"));
}

#[test]
fn trouble_that_comes_back_is_escalated() {
    let oom = [signal(SignalClass::Oom)];
    let first = plan_observation(&[], &oom, true);
    assert_eq!(first.entries.len(), 1);
    assert!(!first.escalate);
    assert!(repeated_non_staleness_class(&first.entries, &oom));
    assert!(plan_observation(&first.entries, &oom, true).escalate);
    let stale = [signal(SignalClass::Staleness)];
    let entries = plan_observation(&[], &stale, true).entries;
    assert!(!repeated_non_staleness_class(&entries, &stale));
    let mut report = HealthReport::default();
    count_observation(&mut report, true);
    count_observation(&mut report, false);
    assert_eq!((report.observed, report.escalated, report.executed_actions), (2, 1, 0));
}

#[test]
fn a_quiet_log_is_stalled() {
    let at = |seconds: u128| Some(seconds * 1_000_000_000 + 999_999_999);
    assert!(tail_is_stalled(at(1000), 1, 1060));
    assert!(!tail_is_stalled(at(1001), 1, 1060));
    assert!(!tail_is_stalled(None, 1, 1060));
    assert!(!tail_is_stalled(at(0), 1, -1));
    assert!(tail_is_stalled(at(2000), 0, 1060));
    assert_eq!(task_log_candidates("/l", 7), ["/l/7.log", "/l/task_7.log"]);
}

#[test]
fn running_experiments_are_matched_with_their_tasks() {
    assert_eq!(HealthEngine::project_of(&row(), &[project()]), Some(0));
    assert_eq!(HealthEngine::project_of(&row(), &[]), None);
    let tasks = [task(8, "g", "Running", None), task(7, "g", "Running", None)];
    let active = Some("active".to_owned());
    assert_eq!(HealthEngine::task_of(&row(), &active, &tasks), Some(1));
    assert_eq!(HealthEngine::task_of(&row(), &active, &tasks[..1]), None);
    assert!(!campaign_defers(&active));
    assert!(campaign_defers(&Some("paused".to_owned())));
}

#[test]
fn a_diagnosis_goes_step_by_step() {
    assert_eq!(
        diagnose_row_step(DiagnosisStage::Project, DiagnosisReply::Yes),
        DiagnosisMove::Ask(DiagnosisStage::CampaignState)
    );
    match diagnose_row_step(DiagnosisStage::Spawn, DiagnosisReply::Yes) {
        DiagnosisMove::End(ending) => assert_eq!(ending.count, DiagnosisCount::Started),
        DiagnosisMove::Ask(_) => panic!("the agent was started"),
    }
    let event = diagnosis_event(&row(), 2, 50);
    assert_eq!(event.event.kind, EventKind::HealthDiagnosis);
    assert_eq!(event.event.payload.get_text("experiment_id").unwrap(), "e-1");
    assert_eq!(event.event.dedup_key, "health-diagnosis:v1:e-1:attempt-2");
    assert_eq!(event.campaign_id.as_deref(), Some("c-1"));
    assert!(!diagnosis_takes(DiagnosisStage::Spawn, DiagnosisReply::No));
    assert!(diagnosis_takes(DiagnosisStage::Claim, DiagnosisReply::No));
    assert_eq!(release_time(10), 70);
    assert!(matches!(
        diagnosed_objective(None),
        Err(AppError::Validation { field: "campaign_id", .. })
    ));
    assert_eq!(parse_diagnosis_attempt_count(None), 0);
    assert!(validate_diagnosis(&Json::Null).is_err());
}

fn observation() -> Observation {
    Observation {
        project_id: "p-1".to_owned(),
        kind: "crash".to_owned(),
        state: ObservationState::Active,
        task_key: Some("k".to_owned()),
        task_signature: Some("s".to_owned()),
        fingerprint: "f".to_owned(),
        seen_at: 9,
        pattern_name: Some("oom".to_owned()),
        action: "auto_kill".to_owned(),
        confirmation_count: 2,
        evidence: "x".repeat(1030),
        source_path: None,
        task_terminal: false,
    }
}

fn incident(id: i64, kind: &str, status: IncidentStatus) -> Incident {
    Incident {
        incident_id: id,
        project_id: "p-1".to_owned(),
        kind: kind.to_owned(),
        task_key: Some("k".to_owned()),
        fingerprint: "f".to_owned(),
        status,
        first_seen_at: 1,
        last_seen_at: 1,
        acknowledged_at: None,
        resolved_at: None,
    }
}

#[test]
fn incidents_are_raised_and_settled() {
    let store = IncidentStore::new();
    match store.observe(&observation(), true).ok().unwrap() {
        IncidentAction::Raise { incident, termination } => {
            assert_eq!(incident.kind, "crash");
            let request = termination.unwrap();
            assert_eq!(request.task_signature, "s");
            assert_eq!(request.reason, termination_reason(&observation()));
        }
        _ => panic!("the trouble is there"),
    }
    match store.observe(&observation(), false).ok().unwrap() {
        IncidentAction::Raise { termination, .. } => assert!(termination.is_none()),
        _ => panic!("the trouble is there"),
    }
    let unsigned = Observation { task_signature: None, ..observation() };
    match store.observe(&unsigned, true).ok().unwrap() {
        IncidentAction::Raise { termination, .. } => assert!(termination.is_none()),
        _ => panic!("the trouble is there"),
    }
    let ended = Observation {
        state: ObservationState::Recovered,
        task_terminal: true,
        ..observation()
    };
    assert!(matches!(
        store.observe(&ended, false).ok().unwrap(),
        IncidentAction::ResolveTask { at: 9, .. }
    ));
    let recovered = Observation { state: ObservationState::Recovered, ..observation() };
    assert!(matches!(
        store.observe(&recovered, false).ok().unwrap(),
        IncidentAction::ResolveOne { at: 9 }
    ));
    let incidents =
        [incident(1, "stall", IncidentStatus::Open), incident(2, "crash", IncidentStatus::Open)];
    assert_eq!(store.incident_to_resolve(&incidents, &observation()), Some(1));
    let mut all = incidents.to_vec();
    assert_eq!(
        store.resolve_task_incidents(&mut all, "p-1", "k", 9),
        IncidentTransition::Resolved
    );
    assert!(all.iter().all(|one| one.status == IncidentStatus::Resolved
        && one.resolved_at == Some(9)));
    assert_eq!(
        store.resolve_task_incidents(&mut all, "p-1", "k", 10),
        IncidentTransition::Unchanged
    );
}

#[test]
fn the_reason_of_a_termination_is_bounded() {
    let reason = json::parse(&termination_reason(&observation())).unwrap();
    assert_eq!(reason.get_text("evidence").unwrap().len(), 1024);
    assert_eq!(reason.get_text("pattern_name").unwrap(), "oom");
    assert_eq!(reason.get_int("confirmation_count"), Some(2));
    assert!(matches!(reason.get("source_path"), Some(Json::Null)));
}

#[test]
fn results_are_read_from_manifests() {
    assert_eq!(
        result_path_candidates("/p", "e-1", 7),
        ["/p/.pueue-agent/results/e-1.json", "/p/.pueue-agent/results/7.json"]
    );
    let manifest =
        b"{\"schema_version\":1,\"experiment_id\":\"e-1\",\"metrics\":{\"loss\":0.5,\"n\":3}}";
    match classify_manifest(manifest, "e-1") {
        ManifestOutcome::Valid { metrics_json, .. } => {
            assert_eq!(metrics_json, "{\"loss\":0.5,\"n\":3}");
        }
        ManifestOutcome::Invalid => panic!("the manifest is sound"),
    }
    for bytes in [
        b"{".as_slice(),
        b"{\"experiment_id\":\"e-1\",\"metrics\":{}}".as_slice(),
        b"{\"schema_version\":1,\"experiment_id\":\"e-2\",\"metrics\":{}}".as_slice(),
        b"{\"schema_version\":1,\"experiment_id\":\"e-1\",\"metrics\":{\"loss\":\"x\"}}".as_slice(),
    ] {
        assert!(matches!(classify_manifest(bytes, "e-1"), ManifestOutcome::Invalid));
    }
    let loss = Some("loss".to_owned());
    let staged = stage_from_bound_manifest(manifest, "e-1", &loss, 9).ok().unwrap();
    assert_eq!(staged.row.primary_metric_name.as_deref(), Some("loss"));
    match staged.row.primary_metric_value {
        Some(MetricNumber::Real(bits)) => assert_eq!(f64::from_bits(bits), 0.5),
        _ => panic!("the metric is a fraction"),
    }
    assert_eq!(staged.row.artifact_defect, None);
    let reads = vec![ManifestRead::Missing, ManifestRead::Bytes(manifest.to_vec())];
    let second = stage_from_reads(reads, "e-1", &None, 9).ok().unwrap();
    assert_eq!(second.row.artifact_defect, None);
    assert_eq!(second.row.primary_metric_name, None);
    let none = vec![ManifestRead::Missing, ManifestRead::Missing];
    let missing = stage_from_reads(none, "e-1", &loss, 9).ok().unwrap();
    assert!(missing.row.artifact_defect.is_some());
    assert_eq!(missing.row.primary_metric_value, None);
    let broken = vec![ManifestRead::Failed(AppError::Runtime { operation: "read" })];
    assert!(stage_from_reads(broken, "e-1", &loss, 9).is_err());
    let source = std::io::Error::new(std::io::ErrorKind::Other, "x");
    let broken = vec![ManifestRead::Failed(AppError::Io { operation: "read", source })];
    let broken = stage_from_reads(broken, "e-1", &loss, 9).ok().unwrap();
    assert_eq!(broken.row.artifact_defect.as_deref(), Some("result_io_error"));
    assert!(broken.read_error.is_some());
    let defect = stage_defect("e-1", "odd", 9).ok().unwrap();
    assert_eq!(defect.row.artifact_defect.as_deref(), Some("odd"));
    assert!(stage_defect("../e", "odd", 9).is_err());
}

#[test]
fn deep_checks_are_scheduled_for_running_tasks() {
    let tasks = [
        task(9, "g", "Running", Some("100")),
        task(7, "g", "Running", Some("50")),
        task(8, "h", "Running", Some("1")),
        task(6, "g", "Done", Some("1")),
    ];
    let running = running_tasks(&tasks, "g", 4000);
    assert_eq!(running.ids, [9, 7]);
    assert_eq!(running.oldest_started_at, Some(50));
    let facts = ProjectFacts {
        interval_minutes: 60,
        last_scheduled_at: None,
        has_active_agent: false,
        has_open_event: false,
    };
    let scheduler = PeriodicDeepCheckScheduler::new(4000);
    let event = scheduler.schedule(&project(), &facts, &tasks).unwrap();
    assert_eq!(event.kind, EventKind::DeepCheck);
    assert!(event.dedup_key.ends_with(":1"));
    assert_eq!(
        json::render(event.payload.get("task_ids").unwrap()).unwrap(),
        "[7,9]"
    );
    assert_eq!(event.payload.get_int("task_count"), Some(2));
    let busy = ProjectFacts { has_active_agent: true, ..facts };
    assert!(scheduler.schedule(&project(), &busy, &tasks).is_none());
    assert!(scheduler.schedule(&project(), &facts, &[]).is_none());
}

#[test]
fn a_project_is_found_from_below() {
    let candidates = root_candidates("/a/b");
    assert_eq!(candidates, ["/a/b", "/a", "/"]);
    assert_eq!(find_root(&candidates, &vec![false, true, true]).ok().unwrap(), "/a");
    assert!(find_root(&candidates, &vec![false, false, false]).is_err());
    let id = new_project_id();
    assert_ne!(id, new_project_id());
    assert!(default_pueue_group("/work/My Project", &id).ok().unwrap().starts_with("pa-"));
    assert_eq!(
        default_pueue_group("/work/p", "0123456789abcdef").ok().unwrap(),
        "pa-p-abcdef"
    );
    assert!(default_pueue_group("/work/p", "").is_err());
}

#[test]
fn the_state_lies_under_the_home() {
    assert_eq!(
        state_db_path_with(Some("/x"), Some("/h"), Platform::Other).ok().unwrap(),
        "/x/pueue-agent/state.sqlite3"
    );
    assert_eq!(
        state_db_path_with(None, Some("/h"), Platform::Other).ok().unwrap(),
        "/h/.local/state/pueue-agent/state.sqlite3"
    );
    assert!(state_db_path_with(None, None, Platform::Other).is_err());
    assert_eq!(
        state_db_path_with_override(Some("/s"), Some("/x"), Some("/h"), Platform::Other).ok().unwrap(),
        "/s/state.sqlite3"
    );
    assert_eq!(
        state_db_path_with_override(Some("s"), Some("x"), Some("/h"), Platform::Other).ok().unwrap(),
        "/h/.local/state/pueue-agent/state.sqlite3"
    );
    assert_eq!(
        state_db_path_with(None, Some("/h"), Platform::MacOs).ok().unwrap(),
        "/h/Library/Application Support/pueue-agent/state.sqlite3"
    );
}

#[test]
fn the_tail_of_a_log_is_read() {
    assert_eq!(tail_range(100, 30), (70, 30));
    assert_eq!(tail_range(10, 30), (0, 10));
    let snapshot = LogSnapshot::read_tail(3, Some(5), b"a\xffb");
    assert_eq!(snapshot.evidence, "a\u{fffd}b");
    assert_eq!(snapshot.byte_size, 3);
    assert_ne!(
        snapshot.fingerprint,
        LogSnapshot::read_tail(3, Some(5), b"abc").fingerprint
    );
    assert!(check_log_opened(LogOpened::File { is_dir: false, is_file: true }).is_ok());
    assert!(check_log_opened(LogOpened::File { is_dir: true, is_file: false }).is_err());
    assert!(check_log_opened(LogOpened::Symlink).is_err());
}

fn git(is_dir: bool, mode: u32) -> GitFacts {
    GitFacts { is_file: !is_dir, is_dir, is_symlink: false, owner: 1000, mode, links: 1 }
}

#[test]
fn git_is_told_to_leave_the_directory_out() {
    assert_eq!(append_git_exclude(b"").ok().unwrap(), b"/.pueue-agent/\n");
    assert_eq!(append_git_exclude(b"x").ok().unwrap(), b"\n/.pueue-agent/\n");
    assert_eq!(append_git_exclude(b"x\n").ok().unwrap(), b"/.pueue-agent/\n");
    assert_eq!(append_git_exclude(b"x\n/.pueue-agent/\r\ny").ok().unwrap(), b"");
    assert!(append_git_exclude(&[b'x'; 16385]).is_err());
}

#[test]
fn only_plain_git_directories_are_touched() {
    assert_eq!(classify_dot_git(Lookup::Missing).ok(), Some(DotGit::Absent));
    assert_eq!(classify_dot_git(Lookup::Found(git(true, 0o700))).ok(), Some(DotGit::Directory));
    assert_eq!(classify_dot_git(Lookup::Found(git(false, 0o600))).ok(), Some(DotGit::Pointer));
    let link = GitFacts { is_symlink: true, is_file: false, ..git(false, 0o777) };
    assert!(classify_dot_git(Lookup::Found(link)).is_err());
    assert_eq!(has_common_directory(Lookup::Missing).ok(), Some(false));
    assert!(check_pointer_file(Lookup::Found(git(false, 0o600))).is_ok());
    assert!(check_pointer_file(Lookup::Missing).is_err());
    assert!(ensure_secure_git_directory(Lookup::Found(git(true, 0o700)), 1000).is_ok());
    assert!(ensure_secure_git_directory(Lookup::Found(git(true, 0o777)), 1000).is_err());
    assert!(ensure_secure_git_directory(Lookup::Found(git(true, 0o700)), 1).is_err());
    assert!(ensure_secure_git_file(Some(git(false, 0o600)), 1000).is_ok());
    let shared = GitFacts { links: 2, ..git(false, 0o600) };
    assert!(ensure_secure_git_file(Some(shared), 1000).is_err());
    assert_eq!(ensure_git_info_directory(Lookup::Missing).ok(), Some(InfoStep::Create));
    assert!(!required_parts("/r/.git", "/r/.git").is_empty());
}

#[test]
fn git_pointers_are_followed() {
    assert_eq!(
        read_pointer_text("gitdir: ../x\n", "/a/b", "gitdir: ").ok().unwrap(),
        "/a/b/../x"
    );
    assert_eq!(resolve_git_pointer(b"gitdir: /g", "/a", "gitdir: ").ok().unwrap(), "/g");
    assert!(resolve_git_pointer(b"other", "/a", "gitdir: ").is_err());
    assert!(resolve_git_pointer(&[0xff], "/a", "").is_err());
}

#[test]
fn a_new_project_gets_its_configuration() {
    let config = fill_config("id={project_id} group={pueue_group}", "p", "g");
    assert!(!config.is_empty());
    assert_eq!(
        already_initialized("/p/config.toml").text(),
        "project is already initialized: /p/config.toml"
    );
}

fn facts(best: Option<&str>, comparison: Comparison) -> PromotionFacts {
    PromotionFacts {
        campaign: Some(CampaignPromotionState {
            project_id: "p-1".to_owned(),
            state: CampaignState::Active,
            objective: ObjectiveState::Sound,
            current_best_experiment_id: best.map(str::to_owned),
            baseline_experiment_id: None,
        }),
        owner: Some("c-1".to_owned()),
        best_owner: best.map(|_| "c-1".to_owned()),
        baseline_owner: None,
        metrics_row_exists: true,
        evaluated: false,
        has_metric: true,
        comparison,
    }
}

#[test]
fn better_experiments_are_promoted() {
    let run = |facts: &PromotionFacts, status| evaluate(facts, "c-1", "e-2", status);
    let better = run(&facts(Some("e-1"), Comparison::Better), ExperimentStatus::Succeeded);
    let better = better.ok().unwrap();
    assert_eq!(better.outcome, PromotionOutcome::Improved);
    assert_eq!(
        better.actions,
        [
            PromotionAction::BecomeBest,
            PromotionAction::ResetPlateau,
            PromotionAction::RecordPromotion,
            PromotionAction::MarkEvaluated,
        ]
    );
    let worse = run(&facts(Some("e-1"), Comparison::NotBetter), ExperimentStatus::Succeeded);
    let worse = worse.ok().unwrap();
    assert_eq!(worse.outcome, PromotionOutcome::NotImproved);
    assert!(worse.actions.contains(&PromotionAction::GrowPlateau));
    let first = run(&facts(None, Comparison::NoAnchorMetric), ExperimentStatus::Succeeded);
    assert_eq!(first.ok().unwrap().outcome, PromotionOutcome::SkippedNoMetric);
    let mut baseline = facts(None, Comparison::NoAnchorMetric);
    baseline.campaign.as_mut().unwrap().baseline_experiment_id = Some("e-2".to_owned());
    baseline.baseline_owner = Some("c-1".to_owned());
    let established = run(&baseline, ExperimentStatus::Succeeded).ok().unwrap();
    assert_eq!(established.outcome, PromotionOutcome::BaselineEstablished);
    assert_eq!(
        established.actions,
        [PromotionAction::BecomeBest, PromotionAction::MarkEvaluated]
    );
    let blind = PromotionFacts { has_metric: false, ..facts(None, Comparison::NoAnchorMetric) };
    assert_eq!(
        run(&blind, ExperimentStatus::Succeeded).ok().unwrap().outcome,
        PromotionOutcome::NotImproved
    );
    assert_eq!(
        run(&blind, ExperimentStatus::Failed).ok().unwrap().outcome,
        PromotionOutcome::SkippedNoMetric
    );
    let mut aimless = facts(None, Comparison::NoAnchorMetric);
    aimless.campaign.as_mut().unwrap().objective = ObjectiveState::Absent;
    assert_eq!(
        run(&aimless, ExperimentStatus::Succeeded).ok().unwrap().outcome,
        PromotionOutcome::SkippedNoObjective
    );
    let foreign = PromotionFacts { owner: Some("c-2".to_owned()), ..facts(None, Comparison::Better) };
    assert!(run(&foreign, ExperimentStatus::Succeeded).is_err());
}

#[test]
fn code_candidates_are_previewed_and_finalized() {
    let sha = "a".repeat(40);
    assert!(validate_code_candidate_sha(&sha).is_ok());
    assert!(validate_code_candidate_sha("abc").is_err());
    assert!(validate_code_candidate_sha(&"G".repeat(40)).is_err());
    let old = Some("b".repeat(40));
    let plan = preview_code_candidate(
        &facts(Some("e-1"), Comparison::Better),
        "c-1",
        "e-2",
        ExperimentStatus::Succeeded,
        &old,
        &sha,
    );
    let plan = plan.ok().unwrap();
    assert_eq!(plan.outcome, PromotionOutcome::Improved);
    assert_eq!(plan.candidate_sha.as_deref(), Some(sha.as_str()));
    assert_eq!(plan.expected_current_best_experiment_id.as_deref(), Some("e-1"));
    let done = finalize_code_candidate(&plan, &facts(Some("e-1"), Comparison::Better));
    let done = done.ok().unwrap();
    assert_eq!(done.outcome, PromotionOutcome::Improved);
    assert!(done.actions.contains(&PromotionAction::ResetPlateau));
    let mut first = facts(None, Comparison::NoAnchorMetric);
    first.campaign.as_mut().unwrap().baseline_experiment_id = Some("e-2".to_owned());
    first.baseline_owner = Some("c-1".to_owned());
    assert_eq!(
        comparison_anchor(first.campaign.as_ref().unwrap()).as_deref(),
        Some("e-2")
    );
    let baseline = preview_code_candidate(
        &first,
        "c-1",
        "e-2",
        ExperimentStatus::Succeeded,
        &None,
        &sha,
    );
    let established = finalize_code_candidate(&baseline.ok().unwrap(), &first).ok().unwrap();
    assert_eq!(established.outcome, PromotionOutcome::BaselineEstablished);
    assert_eq!(established.actions, [PromotionAction::BecomeBest]);
    let restored = CodePromotionPlan::from_persisted(
        "c-1".to_owned(),
        "e-2".to_owned(),
        &sha,
        Some("improved"),
        Some("e-1".to_owned()),
        old,
        Some(sha.clone()),
    );
    assert_eq!(restored.ok().unwrap(), plan);
}

#[test]
fn promotions_and_plateaus_become_events() {
    assert!(plateau_reached(3, 3));
    assert!(!plateau_reached(2, 3));
    for short_or_long in [2, 4] {
        assert!(plateau_grown("c-1", "p-1", "e-1", short_or_long, 3, 4, 9).is_none());
    }
    let asked = plateau_grown("c-1", "p-1", "e-1", 3, 3, 4, 9).unwrap();
    assert_eq!(asked.event.dedup_key, "strategy-refresh:v1:c-1:5");
    assert_eq!(asked.status, EventStatus::Pending);
    let promoted = promotion_event("c-1", "p-1", "e-1", 9);
    assert_eq!(promoted.event.dedup_key, "promotion:v1:c-1:e-1");
    let refresh = strategy_refresh_event("c-1", "p-1", "e-1", 3, 4, 9);
    assert_eq!(refresh.event.dedup_key, "strategy-refresh:v1:c-1:5");
    assert_eq!(refresh.event.project_id, "p-1");
    assert_eq!((refresh.campaign_id.as_deref(), refresh.experiment_id), (Some("c-1"), None));
    assert_eq!(refresh.status, EventStatus::Pending);
    assert_eq!(promoted.experiment_id.as_deref(), Some("e-1"));
    assert_eq!(promoted.status, EventStatus::Completed);
}

#[test]
fn states_are_written_and_read_back() {
    assert_eq!(EventKind::from_str("auto_killed").ok(), Some(EventKind::AutoKilled));
    assert_eq!(EventStatus::from_str(EventStatus::RetryWait.as_str()).ok(), Some(EventStatus::RetryWait));
    assert_eq!(
        TerminationRequestStatus::from_str("timed_out").ok(),
        Some(TerminationRequestStatus::TimedOut)
    );
    assert_eq!(PromotionOutcome::from_str("improved").ok(), Some(PromotionOutcome::Improved));
    let error = EventKind::from_str("odd").unwrap_err();
    assert_eq!(error.value, "odd");
    assert!(error.text().contains("odd"));
    assert!(PromotionOutcome::from_str("odd").is_err());
}

#[test]
fn contexts_and_executions_are_checked() {
    let resumed = AgentContextMode::from_db_parts("resume", Some("s".to_owned())).unwrap();
    assert_eq!((resumed.as_str(), resumed.session_id()), ("resume", Some("s")));
    assert!(AgentContextMode::from_db_parts("odd", None).is_err());
    let execution = ExecutionProjection::new("custom", "/usr/bin/x", "1:2").ok().unwrap();
    assert_eq!(execution.execution_kind(), "custom");
    assert_eq!(execution.executable_path(), "/usr/bin/x");
    assert_eq!(execution.executable_identity(), "1:2");
    assert!(ExecutionProjection::new("custom", "relative", "1:2").is_err());
    assert_ne!(launch_gate_marker_path("/l/run.log"), "/l/run.log");
}
