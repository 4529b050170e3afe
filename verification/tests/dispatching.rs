//! From events to agents.

use pueue_agent::batches::{
    event_ids, event_priority, gate_campaign_events, group_by_project, legacy_dispatch_mode,
    order_events, GateVerdict,
};
use pueue_agent::decision_cycle::{
    agent_decision_key, campaign_decision_projection, decision_attempt_budget_key,
    defer_unready_campaign_decision, is_still_due, needs_cycle, select_due_event, CycleState,
    DueCycle, UnreadyAction,
};
use pueue_agent::dispatch::{Dispatch, Disposition, Move, Outcome, Reply, SpawnPoint, Stage};
use pueue_agent::execution_policy::{PolicyViolation, PolicyViolationCode, PolicyViolationStage};
use pueue_agent::guardrails::{
    DispatchDecision, GuardrailStep, Guardrails, GuardrailsConfig,
};
use pueue_agent::interventions::{Intervention, InterventionStatus};
use pueue_agent::json;
use pueue_agent::models::{Campaign, Event, Project};
use pueue_agent::prompt::{
    build_prompt, build_prompt_with_campaign, plan_delivery, prompt_budget,
    prompt_event_evidence, reservation_token, select_interventions, truncate_to_prompt_budget,
};
use pueue_agent::scheduler::{
    is_ready, keep_first, lifecycle_admission_busy, prepare_batch, spawn_failure_message,
    violation_reply, AgentSpawnStage, Scheduler, SchedulerConfig, SchedulerReport, StartedAgent,
    SchedulerTickError,
};
use pueue_agent::states::{CampaignState, EventKind, EventStatus};
use pueue_agent::AppError;

fn event(event_id: i64, kind: EventKind, payload: &str) -> Event {
    Event {
        event_id,
        project_id: "p-1".to_owned(),
        campaign_id: None,
        experiment_id: None,
        kind,
        dedup_key: format!("event-{event_id}"),
        payload: json::parse(payload).unwrap(),
        status: EventStatus::Claimed,
        attempts: 0,
        not_before: 100,
        lease_until: Some(200),
        created_at: 100,
        completed_at: None,
        last_error: None,
    }
}

fn project() -> Project {
    Project {
        project_id: "p-1".to_owned(),
        root_path: "/work/p".to_owned(),
        pueue_group: "g".to_owned(),
        config_path: "/work/p/.pueue-agent/config.toml".to_owned(),
        enabled: true,
        paused: false,
        halted_reason: None,
        created_at: 1,
        updated_at: 1,
    }
}

fn campaign(state: CampaignState, next_eligible_at: Option<i64>) -> Campaign {
    Campaign {
        campaign_id: "c-1".to_owned(),
        project_id: "p-1".to_owned(),
        objective_text: "a \"goal\"".to_owned(),
        objective_digest: "digest".to_owned(),
        initial_argv: vec![],
        state,
        state_reason: None,
        baseline_experiment_id: None,
        next_eligible_at,
        created_at: 1,
        updated_at: 1,
    }
}

fn message(text: &str) -> Intervention {
    Intervention {
        intervention_id: "i".to_owned(),
        project_id: "p-1".to_owned(),
        message: text.to_owned(),
        status: InterventionStatus::Pending,
        created_at: 1,
        reserved_at: None,
        applied_at: None,
        agent_run_id: None,
        attempts: 0,
        lease_expires_at: None,
        reservation_token: None,
    }
}

const LIMITS: GuardrailsConfig =
    GuardrailsConfig { max_agent_runs: 5, max_experiments: 7, max_consecutive_failures: 3 };

#[test]
fn guardrails_stop_a_project_at_its_limits() {
    let guardrails = Guardrails::new(77);
    let check = |runs, experiments, failures| {
        guardrails.check(&project(), &LIMITS, runs, experiments, failures)
    };
    assert_eq!(check(4, 6, 2), DispatchDecision::Allow);
    assert_eq!(
        check(5, 9, 9),
        DispatchDecision::Halt("max_agent_runs reached: 5/5".to_owned())
    );
    assert_eq!(
        check(4, 8, 9),
        DispatchDecision::Pause("max_experiments reached: 8/7".to_owned())
    );
    assert_eq!(
        check(4, 6, 3),
        DispatchDecision::Halt("max_consecutive_failures reached: 3/3 at 77".to_owned())
    );
    let paused = Project { paused: true, ..project() };
    assert_eq!(
        guardrails.check(&paused, &LIMITS, 0, 0, 0),
        DispatchDecision::Pause("project is paused".to_owned())
    );
    let halted = Project { halted_reason: Some("broken".to_owned()), ..paused };
    assert_eq!(
        guardrails.check(&halted, &LIMITS, 0, 0, 0),
        DispatchDecision::Halt("broken".to_owned())
    );
}

#[test]
fn guardrails_ask_for_one_count_after_the_other() {
    let guardrails = Guardrails::new(77);
    assert_eq!(guardrails.begin(&project()), GuardrailStep::CountAgentRuns);
    assert_eq!(guardrails.agent_runs_counted(&LIMITS, 4), GuardrailStep::CountExperiments);
    assert_eq!(
        guardrails.experiments_counted(&LIMITS, 6, 2),
        GuardrailStep::CountConsecutiveFailures { limit: 6 }
    );
    let below = GuardrailsConfig { max_consecutive_failures: -5, ..LIMITS };
    assert_eq!(
        guardrails.experiments_counted(&below, 6, 2),
        GuardrailStep::CountConsecutiveFailures { limit: usize::MAX - 1 }
    );
    assert_eq!(guardrails.failures_counted(&LIMITS, 2), DispatchDecision::Allow);
    let halt = guardrails.apply_halt("p-1", "why");
    assert_eq!((halt.halt_reason.as_deref(), halt.at), (Some("why"), 77));
    assert_eq!(guardrails.apply_pause("p-1").halt_reason, None);
}

#[test]
fn urgent_events_come_first() {
    assert_eq!(event_priority(EventKind::Crash), 0);
    assert_eq!(event_priority(EventKind::Stalled), 1);
    assert_eq!(event_priority(EventKind::CampaignDecision), 2);
    assert_eq!(event_priority(EventKind::OperatorWake), 3);
    assert_eq!(event_priority(EventKind::DeepCheck), 4);
    assert_eq!(event_priority(EventKind::CodeChange), 5);
    assert_eq!(legacy_dispatch_mode(EventKind::Crash), Some("crash"));
    assert_eq!(legacy_dispatch_mode(EventKind::TaskFailed), Some("failure"));
    assert_eq!(legacy_dispatch_mode(EventKind::Stalled), Some("stalled"));
    let ordered = order_events(vec![
        event(3, EventKind::DeepCheck, "{}"),
        event(2, EventKind::Crash, "{}"),
        event(1, EventKind::DeepCheck, "{}"),
    ]);
    assert_eq!(event_ids(&ordered), [2, 1, 3]);
}

#[test]
fn events_are_grouped_by_project() {
    let mut other = event(1, EventKind::Crash, "{}");
    other.project_id = "a".to_owned();
    let batches = group_by_project(vec![
        event(3, EventKind::Crash, "{}"),
        other,
        event(2, EventKind::Crash, "{}"),
    ]);
    let shown: Vec<(&str, Vec<i64>)> = batches
        .iter()
        .map(|batch| (batch.project_id.as_str(), event_ids(&batch.events)))
        .collect();
    assert_eq!(shown, [("a", vec![1]), ("p-1", vec![3, 2])]);
}

#[test]
fn a_campaign_takes_only_its_own_events() {
    let mut own = event(1, EventKind::TaskFinished, "{}");
    own.campaign_id = Some("c-1".to_owned());
    let mut foreign = event(2, EventKind::TaskFinished, "{}");
    foreign.campaign_id = Some("c-2".to_owned());
    let active = campaign(CampaignState::Active, None);
    let outcome = gate_campaign_events(
        Some(&active),
        vec![own, foreign, event(3, EventKind::Crash, "{}")],
        500,
    );
    assert_eq!(event_ids(&outcome.eligible), [1]);
    assert_eq!(outcome.transitions.len(), 2);
    assert!(matches!(outcome.verdict, GateVerdict::Pass));
    let alone = gate_campaign_events(None, vec![event(3, EventKind::Crash, "{}")], 500);
    assert_eq!(event_ids(&alone.eligible), [3]);
    assert!(alone.transitions.is_empty());

    let verdict = |state, next| {
        let mut own = event(1, EventKind::TaskFinished, "{}");
        own.campaign_id = Some("c-1".to_owned());
        gate_campaign_events(Some(&campaign(state, next)), vec![own], 500).verdict
    };
    assert!(matches!(verdict(CampaignState::Paused, None), GateVerdict::Defer));
    assert!(matches!(
        verdict(CampaignState::BudgetWaiting, Some(900)),
        GateVerdict::WaitUntil(900)
    ));
    assert!(matches!(verdict(CampaignState::BudgetWaiting, None), GateVerdict::Invalid(_)));
}

const DECISION: &str = "{\"source\":\"terminal_experiment\",\"cycle_id\":\"y\",\
    \"source_experiment_id\":\"e\",\"terminal_observation\":{\"task_id\":7,\
    \"task_signature\":\"s\",\"group\":\"g\",\"state\":\"Done\",\"enqueued_at\":1,\
    \"started_at\":null,\"ended_at\":3,\"exit_code\":0}}";

fn decision(payload: &str) -> Event {
    let mut event = event(4, EventKind::CampaignDecision, payload);
    event.campaign_id = Some("c-1".to_owned());
    event.experiment_id = Some("e".to_owned());
    event
}

#[test]
fn decisions_carry_what_they_are_about() {
    let projection = campaign_decision_projection(&decision(DECISION), "y").ok().unwrap();
    assert_eq!(projection.task_id, 7);
    assert_eq!(projection.task_signature, "s");
    assert_eq!((projection.enqueued_at, projection.started_at), (Some(1), None));
    assert_eq!(projection.exit_code, Some(0));
    assert!(matches!(
        campaign_decision_projection(&decision(DECISION), "z"),
        Err(AppError::Validation { field: "campaign_decision", .. })
    ));
    for payload in ["{}".to_owned(), DECISION.replace("\"task_id\":7", "\"task_id\":\"7\"")] {
        assert!(matches!(
            campaign_decision_projection(&decision(&payload), "y"),
            Err(AppError::Serialization { .. })
        ));
    }
    let more = DECISION.replace("{\"source\"", "{\"more\":1,\"source\"");
    assert!(matches!(
        campaign_decision_projection(&decision(&more), "y"),
        Err(AppError::Serialization { .. })
    ));
}

#[test]
fn due_cycles_pick_their_event() {
    let cycle = DueCycle {
        cycle_id: "y".to_owned(),
        campaign_id: "c-1".to_owned(),
        source_experiment_id: "e".to_owned(),
    };
    let events = [event(1, EventKind::Crash, "{}"), decision(DECISION)];
    assert_eq!(select_due_event(&events, &cycle), Some(1));
    assert!(is_still_due(&events[1], "p-1", &cycle));
    assert!(!is_still_due(&events[1], "p-2", &cycle));
    assert!(needs_cycle(&events[1]));
    let waiting = CycleState { cycle_id: "y".to_owned(), waiting: true, next_wake_at: Some(90) };
    let defer = |cycle: Option<&CycleState>, now| {
        defer_unready_campaign_decision(&events[1], Some(&events[1]), cycle, now)
    };
    assert_eq!(defer(Some(&waiting), 80), UnreadyAction::RetryAt(90));
    assert_eq!(defer(Some(&waiting), 90), UnreadyAction::Defer);
    assert_eq!(defer(None, 80), UnreadyAction::Defer);
    assert_eq!(
        defer_unready_campaign_decision(&events[1], None, None, 80),
        UnreadyAction::Skip
    );
    assert_eq!(decision_attempt_budget_key("y", 2), "campaign-decision-attempt:v1:y:2");
}

#[test]
fn the_key_of_a_decision_does_not_depend_on_the_order() {
    let mut first = event(9, EventKind::Crash, "{}");
    let mut second = event(3, EventKind::Crash, "{}");
    second.attempts = 1;
    let key = agent_decision_key(&[first, second]);
    assert_eq!(key, "4bb128830819eaa133c905aa045571666d9fcaca79b2fdc905a401e55844575f");
    first = event(9, EventKind::Crash, "{}");
    second = event(3, EventKind::Crash, "{}");
    second.attempts = 1;
    assert_eq!(agent_decision_key(&[second, first]), key);
}

#[test]
fn prompts_hold_the_events() {
    let payload = "{\"task_id\":7,\"source\":\" s \",\"metadata\":{\"state\":\"Done\"},\
                   \"reason\":\"/etc/x\"}";
    let evidence = prompt_event_evidence(&event(1, EventKind::Crash, payload));
    assert_eq!(evidence, "task_id=7 source=s action=crash state=Done reason=[path]");
    let events = [event(1, EventKind::Crash, "{}")];
    let prompt = build_prompt(&project(), "crash", &events, &[]).ok().unwrap();
    assert!(prompt.starts_with(
        "Dispatch mode: crash\nProject ID: p-1\nProject root: /work/p\n\nContext references:\n"
    ));
    assert!(prompt.contains(
        "- event_id=1 kind=crash attempts=0 created_at=100 evidence=action=crash\n"
    ));
    let live = campaign(CampaignState::Active, None);
    let with_campaign =
        build_prompt_with_campaign(&project(), "crash", &events, &[message("look")], Some(&live));
    let with_campaign = with_campaign.ok().unwrap();
    assert!(with_campaign.contains("- Objective text (JSON string): \"a \\\"goal\\\"\"\n"));
    assert!(with_campaign.ends_with("1. look\n"));
    assert_eq!(prompt_budget(false), 16384);
    assert_eq!(prompt_budget(true), 49152);
}

#[test]
fn prompts_keep_to_their_budget() {
    assert_eq!(truncate_to_prompt_budget("short", 16), "short");
    let cut = truncate_to_prompt_budget(&"\u{e9}".repeat(100), 51);
    assert!(cut.len() <= 51 && cut.starts_with('\u{e9}'));
    assert!(truncate_to_prompt_budget(&"a".repeat(100), 2).len() == 2);
    let pending: Vec<Intervention> = (0..12).map(|_| message(&"m".repeat(10))).collect();
    let all = select_interventions(100, 16384, &pending).unwrap();
    assert_eq!((all.max_count, all.message_bytes), (12, 120));
    let two = select_interventions(16384 - 64, 16384, &pending).map(|s| s.max_count);
    assert!(two.unwrap_or(0) < 12);
    assert!(select_interventions(16384, 16384, &pending).is_none());
    assert!(select_interventions(100, 16384, &[]).is_none());
    let plan = plan_delivery(&project(), "crash", &[], None, &pending[..1]).ok().unwrap();
    assert_eq!(plan.selection.unwrap().max_count, 1);
    assert!(plan.base_prompt.starts_with("Dispatch mode: crash\n"));
    assert_ne!(reservation_token(), reservation_token());
}

fn answer(dispatch: Dispatch, replies: &[(Stage, Reply)]) -> Move {
    let mut next = dispatch.begin();
    for (stage, reply) in replies {
        match next {
            Move::Ask(asked) => assert_eq!(asked, *stage),
            Move::End(_) => panic!("the dispatch went on"),
        }
        next = dispatch.step(*stage, *reply);
    }
    next
}

fn until_asked(dispatch: Dispatch, wanted: Stage) -> Move {
    let mut next = dispatch.begin();
    for _ in 0..40 {
        let stage = match next {
            Move::Ask(stage) if stage == wanted => return next,
            Move::Ask(stage) => stage,
            Move::End(_) => panic!("the stage comes up"),
        };
        let reply = match stage {
            Stage::ActiveRun | Stage::LockedActiveRun => Reply::No,
            _ => Reply::Yes,
        };
        next = dispatch.step(stage, reply);
    }
    panic!("the stage comes up")
}

#[test]
fn a_project_with_a_running_agent_is_left_alone() {
    let dispatch = Dispatch { decision: false, campaign: false, mode: true };
    match answer(dispatch, &[(Stage::ActiveRun, Reply::Yes)]) {
        Move::End(ending) => {
            assert_eq!(ending.outcome, Outcome::Next);
            assert!(!ending.release);
        }
        Move::Ask(_) => panic!("nothing is started"),
    }
}

#[test]
fn an_agent_is_started_after_every_check() {
    let dispatch = Dispatch { decision: false, campaign: false, mode: true };
    let changed = dispatch.relocked(true, false);
    assert_eq!(changed, Dispatch { decision: false, campaign: true, mode: false });
    assert!(dispatch.takes(Stage::Guardrails, Reply::Halt));
    assert!(!dispatch.takes(Stage::Guardrails, Reply::No));
    until_asked(dispatch, Stage::Guardrails);
    until_asked(dispatch, Stage::ProjectLock);
    until_asked(dispatch, Stage::Spawn);
    match dispatch.step(Stage::Spawn, Reply::Yes) {
        Move::End(ending) => assert_eq!(ending.outcome, Outcome::Started),
        Move::Ask(_) => panic!("the agent was started"),
    }
    let failed = Reply::SpawnFailed {
        point: SpawnPoint::PreBinding,
        upgrade: true,
        policy: false,
        cleanup: false,
    };
    match dispatch.step(Stage::Spawn, failed) {
        Move::End(ending) => assert_ne!(ending.outcome, Outcome::Started),
        Move::Ask(_) => panic!("the agent was not started"),
    }
    match dispatch.step(Stage::ProjectLock, Reply::Busy) {
        Move::End(ending) => assert!(matches!(
            ending.events,
            Disposition::Defer | Disposition::DeferIfPossible | Disposition::DeferUnready
        )),
        Move::Ask(_) => panic!("the project is locked"),
    }
}

#[test]
fn batches_are_prepared_for_dispatch() {
    let mixed = || {
        vec![event(3, EventKind::DeepCheck, "{}"), decision(DECISION)]
    };
    let batch = prepare_batch(mixed(), false);
    assert!(batch.decision);
    let legacy = prepare_batch(vec![event(3, EventKind::DeepCheck, "{}")], false);
    assert!(!legacy.decision);
    assert_eq!(event_ids(&legacy.events), [3]);
    assert!(is_ready(&project()));
    assert!(!is_ready(&Project { enabled: false, ..project() }));
}

#[test]
fn errors_of_a_tick_are_told() {
    let busy = AppError::Runtime { operation: "acquire project pause admission lock" };
    assert!(lifecycle_admission_busy(&busy));
    assert!(!lifecycle_admission_busy(&AppError::Runtime { operation: "other" }));
    assert_eq!(spawn_failure_message(&AppError::UpgradeInProgress), "agent spawn failed: an upgrade is in progress");
    let violation =
        PolicyViolation::new(PolicyViolationCode::TempUnsafe, PolicyViolationStage::PreBinding);
    assert_eq!(violation_reply(&violation), Reply::Blocked { temp: true });
    let kept = keep_first(Some(busy), Some(AppError::UpgradeInProgress)).unwrap();
    assert!(matches!(kept, AppError::Runtime { .. }));
    assert!(matches!(
        keep_first(None, Some(AppError::UpgradeInProgress)),
        Some(AppError::UpgradeInProgress)
    ));
    let report: SchedulerReport<(), ()> = SchedulerReport::empty(2);
    let error = SchedulerTickError::new(report, AppError::UpgradeInProgress);
    assert!(error.text().contains("an upgrade is in progress"));
    let (report, source) = error.into_parts();
    assert_eq!(report.recovered_leases, 2);
    let told = StartedAgent {
        run_id: 1,
        primary_event_id: 2,
        mode: "decision".to_owned(),
        event_ids: vec![2],
        prompt: "do not show".to_owned(),
        handle: (),
    };
    let shown = SchedulerReport {
        started: vec![told],
        paused: vec!["a".to_owned(), "b\"".to_owned()],
        ..report
    };
    assert_eq!(
        shown.shape_text(),
        "SchedulerReport { started: 1, cleanup: 0, paused: [\"a\", \"b\\\"\"], halted: [], \
         recovered_leases: 2 }"
    );
    let nothing: SchedulerReport<(), ()> = SchedulerReport::default();
    assert_eq!(nothing.recovered_leases, 0);
    assert!(matches!(source, AppError::UpgradeInProgress));
    assert_eq!(AgentSpawnStage::PreBinding.point(), SpawnPoint::PreBinding);
}

#[test]
fn a_scheduler_knows_its_limits() {
    let config = SchedulerConfig { now: 100, lease_seconds: 20, claim_limit: 5 };
    let scheduler = Scheduler::new("runner", config, 1u8)
        .with_campaign_limits(2u8)
        .with_cleanup_blocked_projects(vec!["p-9".to_owned()]);
    assert_eq!(scheduler.campaign_limits, 2);
    assert_eq!(scheduler.lease_until(), 120);
    assert_eq!(scheduler.recover_expired_leases(2, 3), 5);
    assert!(scheduler.is_cleanup_blocked("p-9"));
    assert!(!scheduler.is_cleanup_blocked("p-1"));
    assert_eq!(scheduler.into_runner(), "runner");
}
