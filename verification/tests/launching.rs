//! The launch of agents behind their gate.

use pueue_agent::execution_policy::{
    LogUnsafeReason, PolicyViolation, PolicyViolationCode, PolicyViolationDetail,
    PolicyViolationStage,
};
use pueue_agent::native_launcher::{
    marker_failure_error, native_gate_error_with_fallback, pre_marker_revalidation_error,
    wait_step, AgentGate, AuthorizationMove, AuthorizationReply, AuthorizationStage,
    NativeLauncher, TerminalObservation, WaitStep,
};
use pueue_agent::project_logs::{
    check_marker, classify_marker_create_error, directory_made, directory_open_failed, gate_names,
    map_component_open_error, map_existing_log_error, map_required_component_open_error,
    marker_bytes, private_marker_failed, private_marker_name, publish_step, relative_components,
    result_final_failed, result_final_opened, result_parent_failed, revalidate_published,
    revalidate_retained, same_gate_directory, startup_inspection, startup_marker_name,
    validate_directory, validate_owner_only_file, validate_readable_log, DirectoryStep,
    LogFileIdentity, MarkerMove, MarkerReply, MarkerRun, NameStep, OpenErrno, ResultManifestOpen,
    StartupGateMarkerInspection,
};
use pueue_agent::AppError;

fn policy_stage(error: AppError) -> Option<PolicyViolationStage> {
    match error {
        AppError::PolicyViolation { violation } => Some(violation.stage),
        _ => None,
    }
}

fn reason(error: AppError) -> Option<LogUnsafeReason> {
    match error {
        AppError::PolicyViolation { violation } => match violation.detail {
            PolicyViolationDetail::LogUnsafe(reason) => Some(reason),
            PolicyViolationDetail::NoDetail => None,
        },
        _ => None,
    }
}

fn fixture() -> std::io::Error {
    std::io::Error::new(std::io::ErrorKind::Other, "fixture failure")
}

fn file() -> LogFileIdentity {
    LogFileIdentity { device: 1, inode: 2, owner: 1000, mode: 0o100600 }
}

fn directory() -> LogFileIdentity {
    LogFileIdentity { device: 1, inode: 3, owner: 1000, mode: 0o040700 }
}

#[test]
fn marker_inspection_failure_is_conservatively_post_marker() {
    let inspection =
        Err(AppError::Io { operation: "inspect marker fixture", source: fixture() });
    assert_eq!(
        policy_stage(marker_failure_error(
            AppError::Runtime { operation: "create gate marker fixture" },
            inspection,
        )),
        Some(PolicyViolationStage::PostMarker)
    );
}

#[test]
fn absent_marker_preserves_the_original_unsafe_policy_failure() {
    let creation_error: AppError = PolicyViolation::new(
        PolicyViolationCode::LogUnsafe,
        PolicyViolationStage::NativeGate,
    )
    .into();
    let classified = marker_failure_error(creation_error, Ok(None));
    match classified {
        AppError::PolicyViolation { violation } => {
            assert_eq!(violation.code, PolicyViolationCode::LogUnsafe);
            assert_eq!(violation.stage, PolicyViolationStage::NativeGate);
        }
        _ => panic!("unsafe marker failure lost its policy classification"),
    }
}

#[test]
fn absent_marker_preserves_the_original_retryable_creation_failure() {
    let creation_error = AppError::Io { operation: "write gate marker", source: fixture() };
    assert!(matches!(
        marker_failure_error(creation_error, Ok(None)),
        AppError::Io { operation: "write gate marker", .. }
    ));
}

#[test]
fn gate_log_and_marker_must_share_the_fixed_secure_parent() {
    assert!(gate_names(
        ".pueue-agent/logs/fixture.log",
        ".pueue-agent/other/fixture.authorized",
    )
    .is_err());
    assert!(gate_names(".pueue-agent/logs/fixture.log", ".pueue-agent/logs/fixture.log").is_err());
    let names = gate_names(
        ".pueue-agent/logs/fixture.log",
        ".pueue-agent/logs/fixture.authorized",
    )
    .ok()
    .unwrap();
    assert_eq!(names.log_name, "fixture.log");
    assert_eq!(names.marker_name, "fixture.authorized");
}

#[test]
fn a_marker_that_was_published_is_conservatively_post_marker() {
    assert_eq!(
        policy_stage(marker_failure_error(
            AppError::Runtime { operation: "create gate marker fixture" },
            Ok(Some(file())),
        )),
        Some(PolicyViolationStage::PostMarker)
    );
}

#[test]
fn errors_around_the_marker_keep_what_they_may() {
    let before: AppError = PolicyViolation::with_detail(
        PolicyViolationCode::LogUnsafe,
        PolicyViolationStage::NativeGate,
        PolicyViolationDetail::LogUnsafe(LogUnsafeReason::RootChanged),
    )
    .into();
    let mapped = pre_marker_revalidation_error(before);
    match &mapped {
        AppError::PolicyViolation { violation } => {
            assert_eq!(violation.code, PolicyViolationCode::LogUnsafe);
            assert_eq!(violation.stage, PolicyViolationStage::RunBoundPreMarker);
        }
        _ => panic!("a refusal stays one"),
    }
    assert_eq!(reason(mapped), Some(LogUnsafeReason::RootChanged));
    let runtime = AppError::Runtime { operation: "x" };
    assert!(matches!(pre_marker_revalidation_error(runtime), AppError::Runtime { .. }));

    let late: AppError = PolicyViolation::new(
        PolicyViolationCode::LogUnsafe,
        PolicyViolationStage::PostMarker,
    )
    .into();
    match native_gate_error_with_fallback(late, PolicyViolationStage::PostMarker) {
        AppError::PolicyViolation { violation } => {
            assert_eq!(violation.code, PolicyViolationCode::LogUnsafe);
        }
        _ => panic!("a refusal stays one"),
    }
    match native_gate_error_with_fallback(
        AppError::Runtime { operation: "x" },
        PolicyViolationStage::PostMarker,
    ) {
        AppError::PolicyViolation { violation } => {
            assert_eq!(violation.code, PolicyViolationCode::NativeGateFailed);
            assert_eq!(violation.stage, PolicyViolationStage::PostMarker);
        }
        _ => panic!("the launch gate failed"),
    }
}

#[test]
fn authorization_publishes_before_it_releases() {
    let mut gate = AgentGate::new();
    let mut order = Vec::new();
    let mut next = gate.begin_authorization();
    loop {
        let stage = match next {
            AuthorizationMove::Next(stage) => stage,
            AuthorizationMove::Authorized => break,
            AuthorizationMove::Terminate(_) => panic!("nothing failed"),
        };
        order.push(match &stage {
            AuthorizationStage::Revalidate => "Revalidate",
            AuthorizationStage::Publish => "Publish",
            AuthorizationStage::RevalidatePublished(_) => "RevalidatePublished",
            AuthorizationStage::Release => "Release",
            AuthorizationStage::ConfirmExec => "ConfirmExec",
            AuthorizationStage::AwaitAcknowledgement => "AwaitAcknowledgement",
            _ => panic!("nothing failed"),
        });
        let reply = match &stage {
            AuthorizationStage::Publish => AuthorizationReply::Published(file()),
            _ => AuthorizationReply::Done,
        };
        next = gate.authorize_step(stage, reply);
    }
    assert_eq!(
        order,
        [
            "Revalidate",
            "Publish",
            "RevalidatePublished",
            "Release",
            "ConfirmExec",
            "AwaitAcknowledgement"
        ]
    );
    assert!(gate.is_authorized());
    assert!(matches!(gate.begin_authorization(), AuthorizationMove::Terminate(_)));
}

#[test]
fn a_failed_authorization_is_classified_by_the_marker() {
    let mut gate = AgentGate::new();
    let failed = AppError::Io { operation: "write gate marker", source: fixture() };
    let next = gate.authorize_step(AuthorizationStage::Publish, AuthorizationReply::Failed(failed));
    let stage = match next {
        AuthorizationMove::Next(stage) => stage,
        _ => panic!("the marker is looked for"),
    };
    match gate.authorize_step(stage, AuthorizationReply::Inspected(Ok(None))) {
        AuthorizationMove::Terminate(AppError::Io { operation, .. }) => {
            assert_eq!(operation, "write gate marker");
        }
        _ => panic!("the failure stays what it was"),
    }
    match gate.authorize_step(
        AuthorizationStage::Release,
        AuthorizationReply::Failed(AppError::Runtime { operation: "release" }),
    ) {
        AuthorizationMove::Terminate(error) => {
            assert_eq!(policy_stage(error), Some(PolicyViolationStage::PostMarker));
        }
        _ => panic!("the agent is terminated"),
    }
    assert!(!gate.is_authorized());
    gate.note_termination(false);
    assert!(gate.termination_uncertain && !gate.termination_completed);
    gate.note_termination(true);
    assert!(!gate.termination_uncertain && gate.termination_completed);
}

#[test]
fn a_start_needs_a_free_gate_and_a_directory_within_the_project() {
    assert!(NativeLauncher::check_gate(None).is_ok());
    assert_eq!(
        policy_stage(NativeLauncher::check_gate(Some(file())).unwrap_err()),
        Some(PolicyViolationStage::PostMarker)
    );
    assert!(NativeLauncher::check_working_directory("/p", Some("/p/inner")).is_ok());
    assert!(NativeLauncher::check_working_directory("/p", Some("/p")).is_ok());
    for outside in [Some("/q"), Some("inner"), Some("/pp"), None] {
        assert_eq!(
            policy_stage(
                NativeLauncher::check_working_directory("/p", outside).unwrap_err()
            ),
            Some(PolicyViolationStage::NativeGate)
        );
    }
}

#[test]
fn waiting_lets_go_of_what_is_not_ours() {
    assert_eq!(wait_step(TerminalObservation::Running), WaitStep::LookAgain);
    assert_eq!(wait_step(TerminalObservation::Terminal), WaitStep::Reap);
    assert_eq!(wait_step(TerminalObservation::OwnershipLost), WaitStep::LetGo);
}

#[test]
fn files_and_directories_of_the_gate_are_private() {
    assert!(validate_owner_only_file(file(), 1000).is_ok());
    assert!(file().is_regular_owner_only(1000));
    assert!(!file().is_regular_owner_only(1001));
    let open = LogFileIdentity { mode: 0o100640, ..file() };
    let cases = [
        (directory(), 1000, LogUnsafeReason::Directory),
        (LogFileIdentity { mode: 0o010600, ..file() }, 1000, LogUnsafeReason::Device),
        (file(), 1001, LogUnsafeReason::WrongOwner),
        (open, 1000, LogUnsafeReason::WeakPermissions),
    ];
    for (identity, uid, expected) in cases {
        assert_eq!(
            reason(validate_owner_only_file(identity, uid).unwrap_err()),
            Some(expected)
        );
    }
    assert!(validate_readable_log(open).is_ok());
    assert!(validate_directory(directory(), 1000).is_ok());
    let shared = LogFileIdentity { mode: 0o040755, ..directory() };
    assert!(validate_directory(shared, 1000).is_ok());
    let writable = LogFileIdentity { mode: 0o040722, ..directory() };
    assert_eq!(
        reason(validate_directory(writable, 1000).unwrap_err()),
        Some(LogUnsafeReason::WeakPermissions)
    );
    assert_eq!(
        reason(validate_directory(file(), 1000).unwrap_err()),
        Some(LogUnsafeReason::Device)
    );
    assert!(LogFileIdentity { mode: 0o120777, ..file() }.is_symlink());
}

#[test]
fn only_paths_that_lead_down_are_taken() {
    assert_eq!(relative_components("a/b/c.log").ok().unwrap(), ["a", "b", "c.log"]);
    for (path, expected) in [
        ("", LogUnsafeReason::EmptyPath),
        ("/a", LogUnsafeReason::AbsolutePath),
        ("./a", LogUnsafeReason::CurDir),
        ("a/../b", LogUnsafeReason::ParentTraversal),
    ] {
        assert_eq!(reason(relative_components(path).unwrap_err()), Some(expected));
    }
    assert_eq!(startup_marker_name(".pueue-agent/logs/m").ok().unwrap(), "m");
    assert_eq!(
        reason(startup_marker_name(".pueue-agent/m").unwrap_err()),
        Some(LogUnsafeReason::RootChanged)
    );
}

#[test]
fn failures_of_opening_are_told_apart() {
    assert_eq!(
        reason(map_component_open_error(OpenErrno::NotDirectory, true, fixture())),
        Some(LogUnsafeReason::Symlink)
    );
    assert_eq!(
        reason(map_component_open_error(OpenErrno::NotDirectory, false, fixture())),
        Some(LogUnsafeReason::Directory)
    );
    assert!(matches!(
        map_component_open_error(OpenErrno::Missing, false, fixture()),
        AppError::Io { operation: "open project log path", .. }
    ));
    assert_eq!(
        reason(map_required_component_open_error(OpenErrno::Missing, false, fixture())),
        Some(LogUnsafeReason::Missing)
    );
    let io = AppError::Io { operation: "open project log path", source: fixture() };
    assert_eq!(
        reason(map_existing_log_error(OpenErrno::Missing, io)),
        Some(LogUnsafeReason::Missing)
    );
    let taken = AppError::Io { operation: "publish gate marker", source: fixture() };
    assert_eq!(
        reason(classify_marker_create_error(taken, OpenErrno::Exists, true)),
        Some(LogUnsafeReason::Symlink)
    );
    let taken = AppError::Io { operation: "publish gate marker", source: fixture() };
    assert!(matches!(
        classify_marker_create_error(taken, OpenErrno::Exists, false),
        AppError::Io { operation: "publish gate marker", .. }
    ));
}

#[test]
fn manifests_are_missing_invalid_or_usable() {
    assert!(matches!(
        result_parent_failed(OpenErrno::Missing, false, fixture()),
        Ok(ResultManifestOpen::Missing)
    ));
    assert_eq!(
        reason(result_parent_failed(OpenErrno::Loop, true, fixture()).unwrap_err()),
        Some(LogUnsafeReason::Symlink)
    );
    assert!(matches!(
        result_final_failed(OpenErrno::Loop, Some(directory()), fixture()),
        Ok(ResultManifestOpen::Invalid)
    ));
    assert!(matches!(
        result_final_failed(OpenErrno::Other, Some(file()), fixture()),
        Err(AppError::Io { operation: "open result manifest", .. })
    ));
    assert!(matches!(result_final_opened(file()), ResultManifestOpen::Usable));
    assert!(matches!(result_final_opened(directory()), ResultManifestOpen::Invalid));
}

#[test]
fn a_directory_is_made_a_few_times_at_most() {
    assert!(matches!(
        directory_open_failed(0, OpenErrno::Missing, false, fixture()),
        DirectoryStep::Create(0)
    ));
    assert!(matches!(directory_made(0, None), DirectoryStep::Open(1)));
    assert!(matches!(
        directory_made(1, Some((OpenErrno::Exists, fixture()))),
        DirectoryStep::Open(2)
    ));
    let taken = std::io::ErrorKind::AlreadyExists;
    assert!(matches!(
        directory_made(3, None),
        DirectoryStep::Exhausted(AppError::Io { operation: "create agent log directory", source })
            if source.kind() == taken
    ));
    assert!(matches!(
        directory_made(0, Some((OpenErrno::Other, fixture()))),
        DirectoryStep::GiveUp(AppError::Io { operation: "create agent log directory", .. })
    ));
    assert!(matches!(
        private_marker_failed(0, OpenErrno::Exists, fixture()),
        NameStep::Again(1)
    ));
    assert!(matches!(
        private_marker_failed(31, OpenErrno::Exists, fixture()),
        NameStep::Exhausted(AppError::Io { operation: "create private gate marker", source })
            if source.kind() == taken
    ));
    assert!(matches!(
        private_marker_failed(0, OpenErrno::Other, fixture()),
        NameStep::GiveUp(AppError::Io { operation: "create private gate marker", .. })
    ));
    assert_eq!(
        private_marker_name(17, 255, 1, 2),
        ".pueue-agent-marker-17-00000000000000ff-00000000000000010000000000000002"
    );
}

fn publish(fail_at: usize) -> (usize, MarkerMove) {
    let mut run = MarkerRun::Identify;
    let mut step = 0;
    loop {
        let reply = if step == fail_at {
            MarkerReply::Failed(fixture())
        } else if step == 0 {
            MarkerReply::Identity(file())
        } else {
            MarkerReply::Done
        };
        match publish_step(run, reply, 1000) {
            MarkerMove::Next(next) => run = next,
            end => return (step, end),
        }
        step += 1;
    }
}

#[test]
fn a_marker_is_cleaned_up_only_before_it_is_published() {
    for (fail_at, operation) in [
        (0, "read gate marker metadata"),
        (1, "write gate marker"),
        (2, "sync gate marker"),
        (3, "publish gate marker"),
    ] {
        match publish(fail_at) {
            (step, MarkerMove::CleanUp(AppError::Io { operation: told, .. })) => {
                assert_eq!((step, told), (fail_at, operation));
            }
            _ => panic!("the private file is removed"),
        }
    }
    for (fail_at, operation) in
        [(4, "remove private gate marker"), (5, "sync gate marker directory")]
    {
        match publish(fail_at) {
            (step, MarkerMove::Finished(Err(AppError::Io { operation: told, .. }))) => {
                assert_eq!((step, told), (5, operation));
            }
            _ => panic!("the marker stays"),
        }
    }
    match publish(9) {
        (step, MarkerMove::Finished(Ok(identity))) => assert_eq!((step, identity), (5, file())),
        _ => panic!("nothing failed"),
    }
    match publish_step(MarkerRun::Identify, MarkerReply::Identity(directory()), 1000) {
        MarkerMove::CleanUp(error) => {
            assert_eq!(reason(error), Some(LogUnsafeReason::Directory));
        }
        _ => panic!("a directory is no marker"),
    }
}

#[test]
fn markers_are_judged_by_identity_and_contents() {
    assert_eq!(marker_bytes(), b"authorized\n");
    assert!(check_marker(file(), 1000, b"authorized\n").is_ok());
    assert_eq!(
        reason(check_marker(file(), 1000, b"authorized").unwrap_err()),
        Some(LogUnsafeReason::InvalidContents)
    );
    assert_eq!(
        reason(check_marker(file(), 0, b"authorized\n").unwrap_err()),
        Some(LogUnsafeReason::WrongOwner)
    );
    assert_eq!(startup_inspection(&Ok(None)), StartupGateMarkerInspection::Absent);
    assert_eq!(startup_inspection(&Ok(Some(file()))), StartupGateMarkerInspection::Valid);
    assert_eq!(
        startup_inspection(&Err(AppError::Runtime { operation: "x" })),
        StartupGateMarkerInspection::Indeterminate
    );
}

#[test]
fn another_generation_of_the_directory_is_refused() {
    let other = LogFileIdentity { inode: 99, ..directory() };
    assert!(same_gate_directory(directory(), directory(), directory()).is_ok());
    assert!(same_gate_directory(directory(), other, directory()).is_err());
    assert!(same_gate_directory(directory(), directory(), other).is_err());
    assert!(revalidate_retained(directory(), directory(), file(), Some(file()), 1000).is_ok());
    let moved = LogFileIdentity { inode: 98, ..file() };
    for (parent, log, expected) in [
        (other, Some(file()), LogUnsafeReason::RootChanged),
        (directory(), None, LogUnsafeReason::Missing),
        (directory(), Some(moved), LogUnsafeReason::RootChanged),
        (directory(), Some(directory()), LogUnsafeReason::Directory),
    ] {
        assert_eq!(
            reason(revalidate_retained(directory(), parent, file(), log, 1000).unwrap_err()),
            Some(expected)
        );
    }
    assert!(revalidate_published(file(), Some(file())).is_ok());
    assert_eq!(
        reason(revalidate_published(file(), None).unwrap_err()),
        Some(LogUnsafeReason::Missing)
    );
    assert_eq!(
        reason(revalidate_published(file(), Some(moved)).unwrap_err()),
        Some(LogUnsafeReason::RootChanged)
    );
}
