//! Proposals of experiments.

use pueue_agent::process::MAX_FIELD_SIZE;
use pueue_agent::proposals::{validate, validate_initial_baseline, ProposalInput};
use pueue_agent::states::ProposalKind;
use pueue_agent::AppError;

fn input(kind: ProposalKind) -> ProposalInput {
    ProposalInput {
        kind,
        hypothesis: "Reduce learning rate after the baseline".to_owned(),
        source_experiment_id: Some("exp-baseline".to_owned()),
        argv: vec![
            "python".to_owned(),
            "train.py".to_owned(),
            "--lr".to_owned(),
            "0.001".to_owned(),
        ],
        working_directory: ".".to_owned(),
        expected_evidence: vec!["validation loss".to_owned()],
    }
}

#[test]
fn validates_initial_baseline_proposal() {
    let mut baseline = input(ProposalKind::Experiment);
    baseline.source_experiment_id = None;

    let proposal = validate_initial_baseline(baseline, "objective-digest").ok().unwrap();

    assert_eq!(proposal.kind(), ProposalKind::Experiment);
    assert_eq!(proposal.source_experiment_id(), None);
    assert_eq!(proposal.working_directory(), ".");
}

#[test]
fn validates_repair_proposal_with_source_experiment() {
    let proposal = validate(input(ProposalKind::Repair), "objective-digest").ok().unwrap();

    assert_eq!(proposal.kind(), ProposalKind::Repair);
    assert_eq!(proposal.source_experiment_id(), Some("exp-baseline"));
}

#[test]
fn validates_code_change_proposal_with_source_experiment() {
    let proposal = validate(input(ProposalKind::CodeChange), "objective-digest").ok().unwrap();

    assert_eq!(proposal.kind(), ProposalKind::CodeChange);
    assert_eq!(proposal.argv(), ["python", "train.py", "--lr", "0.001"]);
}

#[test]
fn rejects_empty_argv() {
    let mut proposal = input(ProposalKind::Experiment);
    proposal.argv.clear();

    assert!(validate(proposal, "objective-digest").is_err());
}

#[test]
fn rejects_absolute_or_parent_traversing_working_directory() {
    for working_directory in ["/tmp", "../other", "nested/../../other", "nested/./other"] {
        let mut proposal = input(ProposalKind::Experiment);
        proposal.working_directory = working_directory.to_owned();

        assert!(validate(proposal, "objective-digest").is_err());
    }
}

#[test]
fn rejects_control_characters() {
    let mut proposal = input(ProposalKind::Experiment);
    proposal.hypothesis.push('\n');

    assert!(validate(proposal, "objective-digest").is_err());
}

#[test]
fn rejects_too_many_or_too_large_evidence_items() {
    let mut too_many = input(ProposalKind::Experiment);
    too_many.expected_evidence = (0..17).map(|index| format!("evidence-{index}")).collect();
    assert!(validate(too_many, "objective-digest").is_err());

    let mut too_large = input(ProposalKind::Experiment);
    too_large.expected_evidence = vec!["x".repeat(513)];
    assert!(validate(too_large, "objective-digest").is_err());
}

#[test]
fn rejects_hypothesis_over_four_kib() {
    let mut proposal = input(ProposalKind::Experiment);
    proposal.hypothesis = "x".repeat(4_097);

    assert!(validate(proposal, "objective-digest").is_err());
}

#[test]
fn rejects_argv_item_over_native_field_limit() {
    let mut proposal = input(ProposalKind::Experiment);
    proposal.argv = vec!["x".repeat(MAX_FIELD_SIZE + 1)];

    assert!(validate(proposal, "objective-digest").is_err());
}

#[test]
fn repair_code_change_and_data_evaluation_require_source_experiment() {
    for kind in [ProposalKind::Repair, ProposalKind::CodeChange, ProposalKind::DataEvaluation] {
        let mut proposal = input(kind);
        proposal.source_experiment_id = None;

        assert!(validate(proposal, "objective-digest").is_err());
    }
}

#[test]
fn initial_baseline_rejects_source_experiment() {
    assert!(
        validate_initial_baseline(input(ProposalKind::Experiment), "objective-digest").is_err()
    );
}

#[test]
fn semantically_identical_proposals_have_one_digest() {
    let input = input(ProposalKind::Experiment);
    assert_eq!(
        validate(input.clone(), "objective-digest").ok().unwrap().canonical_digest(),
        validate(input, "objective-digest").ok().unwrap().canonical_digest(),
    );
}

#[test]
fn objective_digest_changes_canonical_identity() {
    let input = input(ProposalKind::Experiment);
    let first = validate(input.clone(), "objective-digest-one").ok().unwrap();
    let second = validate(input, "objective-digest-two").ok().unwrap();

    assert_ne!(first.canonical_digest(), second.canonical_digest());
    assert_eq!(first.canonical_digest().len(), 64);
    assert!(first
        .canonical_digest()
        .chars()
        .all(|c| c.is_ascii_digit() || ('a'..='f').contains(&c)));
}

#[test]
fn every_field_changes_the_canonical_identity() {
    let digest = |change: fn(&mut ProposalInput)| {
        let mut proposal = input(ProposalKind::Experiment);
        change(&mut proposal);
        validate(proposal, "objective-digest").ok().unwrap().canonical_digest().to_owned()
    };
    let mut digests = vec![
        digest(|_| ()),
        digest(|p| p.kind = ProposalKind::Recipe),
        digest(|p| p.hypothesis.push('\"')),
        digest(|p| p.source_experiment_id = Some("null".to_owned())),
        digest(|p| p.argv.push(String::new())),
        digest(|p| p.argv = vec!["a\",\"b".to_owned()]),
        digest(|p| p.argv = vec!["a".to_owned(), "b".to_owned()]),
        digest(|p| p.working_directory = "inner".to_owned()),
        digest(|p| p.expected_evidence.clear()),
    ];
    let count = digests.len();
    digests.sort();
    digests.dedup();
    assert_eq!(digests.len(), count);
}

#[test]
fn nested_working_directories_are_kept() {
    let mut proposal = input(ProposalKind::Experiment);
    proposal.working_directory = "nested/inner".to_owned();
    let accepted = validate(proposal, "objective-digest").ok().unwrap();
    assert_eq!(accepted.working_directory(), "nested/inner");
    assert_eq!(accepted.hypothesis(), "Reduce learning rate after the baseline");
    assert_eq!(accepted.expected_evidence(), ["validation loss"]);
}

#[test]
fn the_field_that_is_wrong_is_named() {
    let mut proposal = input(ProposalKind::Experiment);
    proposal.working_directory = "../other".to_owned();
    match validate(proposal, "objective-digest") {
        Err(AppError::Validation { field, .. }) => assert_eq!(field, "working_directory"),
        _ => panic!("the directory lies outside"),
    }
}
