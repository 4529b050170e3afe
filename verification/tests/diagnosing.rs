//! Diagnoses of running experiments.

use pueue_agent::health_diagnosis::{
    build_diagnosis_evidence, parse_and_validate_diagnosis, parse_diagnosis_attempt_count,
    RecommendedAction, RunningHealthRow, MAX_DIAGNOSIS_EVIDENCE_BYTES, MAX_DIAGNOSIS_TAIL_BYTES,
};
use pueue_agent::AppError;

fn diagnosis(class: &str, confidence: &str, action: &str, summary: &str) -> Vec<u8> {
    format!(
        "{{\"root_cause_class\":\"{class}\",\"confidence\":{confidence},\
         \"recommended_action\":\"{action}\",\"summary\":\"{summary}\"}}"
    )
    .into_bytes()
}

#[test]
fn valid_diagnosis_outputs_parse_with_all_actions() {
    for action in ["continue", "kill_and_resume", "kill_and_escalate"] {
        let parsed =
            parse_and_validate_diagnosis(&diagnosis("oom", "0.9", action, "gpu exhausted"))
                .ok()
                .unwrap();
        assert_eq!(parsed.root_cause_class, "oom");
        assert_eq!(f64::from_bits(parsed.confidence_bits), 0.9);
        assert_eq!(parsed.summary, "gpu exhausted");
        assert_eq!(parsed.recommended_action.as_str(), action);
    }
}

#[test]
fn validated_diagnosis_persists_recommended_actions_in_snake_case() {
    let parsed = parse_and_validate_diagnosis(&diagnosis(
        "oom",
        "0.9",
        "kill_and_resume",
        "gpu exhausted",
    ))
    .ok()
    .unwrap();
    assert_eq!(parsed.recommended_action.as_str(), "kill_and_resume");
    for (action, expected) in [
        (RecommendedAction::Continue, "continue"),
        (RecommendedAction::KillAndResume, "kill_and_resume"),
        (RecommendedAction::KillAndEscalate, "kill_and_escalate"),
    ] {
        assert_eq!(action.as_str(), expected);
    }
}

#[test]
fn diagnosis_outputs_outside_the_schema_are_rejected() {
    let long = "x".repeat(513);
    let malformed = [
        b"{\"root_cause_class\":\"oom\",\"confidence\":0.9,\"recommended_action\":\"kill_and_resume\"}"
            .to_vec(),
        diagnosis("", "0.9", "kill_and_resume", "s"),
        diagnosis("oom", "1.5", "kill_and_resume", "s"),
        diagnosis("oom", "0.9", "restart", "s"),
        diagnosis("oom", "0.9", "kill_and_resume", ""),
        diagnosis("oom", "0.9", "kill_and_resume", &long),
        b"{\"extra\":true}".to_vec(),
    ];
    for value in malformed {
        assert!(matches!(
            parse_and_validate_diagnosis(&value),
            Err(AppError::Validation { .. })
        ));
    }
    assert!(matches!(
        parse_and_validate_diagnosis(b"{malformed"),
        Err(AppError::Serialization { .. })
    ));
}

#[test]
fn confidence_may_be_a_whole_number_within_its_bounds() {
    for confidence in ["0", "1", "0.0", "1.0"] {
        assert!(
            parse_and_validate_diagnosis(&diagnosis("oom", confidence, "continue", "s")).is_ok()
        );
    }
    for confidence in ["-0.1", "-1", "2", "1.0000001", "\"0.9\"", "null"] {
        assert!(
            parse_and_validate_diagnosis(&diagnosis("oom", confidence, "continue", "s")).is_err()
        );
    }
}

#[test]
fn attempt_counts_survive_wrapper_storage_round_trip() {
    assert_eq!(parse_diagnosis_attempt_count(None), 0);
    assert_eq!(parse_diagnosis_attempt_count(Some("null")), 0);
    assert_eq!(parse_diagnosis_attempt_count(Some(r#"{"attempt":2}"#)), 2);
}

#[test]
fn evidence_bundles_are_bounded_digest_only_persistence_inputs() {
    let row = RunningHealthRow {
        experiment_id: "experiment".to_owned(),
        campaign_id: "campaign".to_owned(),
        project_id: "project".to_owned(),
        pueue_task_id: 41,
        signal_summary_json: r#"[{"class":"oom","source":"builtin_probe","evidence_digest":"d1","observed_at":90}]"#
            .to_owned(),
        diagnosis_json: None,
    };
    let bundle = build_diagnosis_evidence(&row, "objective-digest", Some("tail line\n")).ok().unwrap();
    let value: serde_json::Value = serde_json::from_str(&bundle.json).unwrap();
    assert_eq!(value["schema_version"], 1);
    assert_eq!(value["experiment_id"], "experiment");
    assert_eq!(value["objective_digest"], "objective-digest");
    assert_eq!(value["log_tail"]["excerpt"], "tail line\n");
    assert_eq!(value["log_tail"]["byte_limit"], MAX_DIAGNOSIS_TAIL_BYTES);
    assert!(bundle.json.len() <= MAX_DIAGNOSIS_EVIDENCE_BYTES);
    assert_eq!(bundle.digest.len(), 64);

    let long_tail = "x".repeat(MAX_DIAGNOSIS_TAIL_BYTES * 2);
    let bounded = build_diagnosis_evidence(&row, "objective-digest", Some(&long_tail)).ok().unwrap();
    let value: serde_json::Value = serde_json::from_str(&bounded.json).unwrap();
    assert_eq!(
        value["log_tail"]["excerpt"].as_str().unwrap().len(),
        MAX_DIAGNOSIS_TAIL_BYTES
    );
}

#[test]
fn evidence_with_a_broken_summary_is_refused() {
    let row = RunningHealthRow {
        experiment_id: "experiment".to_owned(),
        campaign_id: "campaign".to_owned(),
        project_id: "project".to_owned(),
        pueue_task_id: 41,
        signal_summary_json: "[".to_owned(),
        diagnosis_json: None,
    };
    assert!(matches!(
        build_diagnosis_evidence(&row, "objective-digest", None),
        Err(AppError::Serialization { operation: "parse stored running health signal summary" })
    ));
}
