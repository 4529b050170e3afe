//! The control frame and the bootstrap that it goes with.

use pueue_agent::bootstrap::{
    accept_frame, accept_packet, announced_size, helper_failed_record, helper_ready_record,
    prepare_packet, readiness_step, readiness_verdict, right_position, validate_role, Access,
    BootstrapError, DescriptorFacts, FileType, PacketFacts, ProcessLaunchError, ReadEnd,
    ReadinessStep,
};
use pueue_agent::execution_policy::ExecutableIdentity;
use pueue_agent::frame_read::decode_environment;
use pueue_agent::process::{
    bootstrap_right_slots, bootstrap_slots, decode_control_frame, encode_control_frame,
    run_internal_launch, CodecError, ControlFrame, FixedFdContract, FixedSlotState,
    FixedSlotTracker, LaunchFlags, LaunchMode, FIELD_AGENT_LOG_IDENTITY,
    FIELD_PROJECT_ROOT_IDENTITY, FIELD_PUEUE_CONFIG_IDENTITY, HEADER_SIZE, MAX_ARGV, MAX_ENV,
    MAX_FIELD_SIZE, MAX_FRAME_SIZE,
};
use pueue_agent::reception::{
    install_step, right_step, CloseOnExec, InstallMove, InstallStage, Reception, ReceptionStep,
    RightStep,
};

fn identity() -> ExecutableIdentity {
    ExecutableIdentity { device: 1, inode: 2, owner: 3, mode: 0o755 }
}

fn bytes(text: &str) -> Vec<u8> {
    text.as_bytes().to_vec()
}

fn flags(all: &[LaunchFlags]) -> LaunchFlags {
    let mut joined = LaunchFlags::none();
    for flag in all {
        joined = joined.union(*flag);
    }
    joined
}

fn frame() -> ControlFrame {
    ControlFrame {
        mode: LaunchMode::Agent,
        flags: flags(&[
            LaunchFlags::project_root(),
            LaunchFlags::agent_log(),
            LaunchFlags::process_group(),
        ]),
        argv: vec![bytes("codex"), bytes("prompt")],
        environment: vec![(bytes("LANG"), bytes("C"))],
        cwd: Some(bytes("/trusted/project")),
        target_identity: identity(),
        project_root_identity: Some(identity()),
        agent_log_identity: Some(identity()),
        pueue_config_identity: None,
    }
}

fn pueue_frame() -> ControlFrame {
    let mut pueue = frame();
    pueue.mode = LaunchMode::Pueue;
    pueue.flags = flags(&[LaunchFlags::pueue_config(), LaunchFlags::process_group()]);
    pueue.project_root_identity = None;
    pueue.agent_log_identity = None;
    pueue.pueue_config_identity = Some(identity());
    pueue
}

fn failure(frame: &ControlFrame) -> Option<CodecError> {
    frame.encode().err()
}

fn refusal(bytes: &[u8]) -> Option<CodecError> {
    ControlFrame::decode(bytes).err()
}

#[test]
fn round_trip_preserves_frame() {
    let original = frame();
    let encoded = original.encode().unwrap();
    assert!(ControlFrame::decode(&encoded).unwrap() == original);
    assert!(decode_control_frame(&encode_control_frame(&original).unwrap()).unwrap() == original);
}

#[test]
fn round_trip_preserves_non_utf8_os_strings() {
    let mut original = frame();
    original.argv = vec![vec![b'a', 0xff, b'b']];
    original.environment = vec![(vec![b'K', 0xfe], vec![0xfd])];
    original.cwd = Some(vec![b'/', 0xfc, b'c']);
    assert!(ControlFrame::decode(&original.encode().unwrap()).unwrap() == original);
}

#[test]
fn rejects_unknown_mode_flags_fields_and_trailing_bytes() {
    let encoded = frame().encode().unwrap();
    let mut mode = encoded.clone();
    mode[5] = 9;
    assert_eq!(refusal(&mode), Some(CodecError::UnknownMode));
    let mut flags = encoded.clone();
    flags[6] = 0x80;
    assert_eq!(refusal(&flags), Some(CodecError::UnknownFlags));
    let mut trailing = encoded.clone();
    trailing.push(0);
    assert_eq!(refusal(&trailing), Some(CodecError::TrailingBytes));
    let mut unknown = encoded.clone();
    let field_count_offset = HEADER_SIZE;
    assert_eq!(
        u32::from_be_bytes(
            unknown[field_count_offset..field_count_offset + 4].try_into().unwrap()
        ),
        6
    );
    let offset = HEADER_SIZE + 4;
    unknown[offset] = 99;
    assert!(matches!(ControlFrame::decode(&unknown), Err(CodecError::UnknownField(99))));
}

#[test]
fn rejects_nul_duplicates_and_boundaries() {
    let mut nul = frame();
    nul.argv[0] = bytes("a\0b");
    assert_eq!(failure(&nul), Some(CodecError::NulByte));
    let mut duplicate = frame();
    duplicate.environment.push((bytes("LANG"), bytes("en")));
    assert_eq!(failure(&duplicate), Some(CodecError::DuplicateEnvironmentName));
    let mut invalid_name = frame();
    invalid_name.environment[0].0 = bytes("BAD=NAME");
    assert_eq!(failure(&invalid_name), Some(CodecError::InvalidEnvironmentName));
    let mut too_many = frame();
    too_many.argv = (0..=MAX_ARGV).map(|_| bytes("x")).collect();
    assert_eq!(failure(&too_many), Some(CodecError::TooManyArguments));
    let mut too_many_env = frame();
    too_many_env.environment =
        (0..=MAX_ENV).map(|index| (bytes(&format!("K{index}")), bytes("v"))).collect();
    assert_eq!(failure(&too_many_env), Some(CodecError::TooManyEnvironmentEntries));
    let mut too_long = frame();
    too_long.argv = vec![vec![b'x'; MAX_FIELD_SIZE + 1]];
    assert_eq!(failure(&too_long), Some(CodecError::FieldTooLarge));
    let mut bad_cwd = frame();
    bad_cwd.cwd = Some(bytes("bad\0cwd"));
    assert_eq!(failure(&bad_cwd), Some(CodecError::NulByte));
}

#[test]
fn decoder_enforces_u32_count_and_frame_limits() {
    let encoded = frame().encode().unwrap();
    let mut argv_count = encoded.clone();
    let argv_count_offset = HEADER_SIZE + 4 + 5;
    argv_count[argv_count_offset..argv_count_offset + 4]
        .copy_from_slice(&((MAX_ARGV as u32) + 1).to_be_bytes());
    assert_eq!(refusal(&argv_count), Some(CodecError::TooManyArguments));

    let mut oversized = vec![0; HEADER_SIZE];
    oversized[..4].copy_from_slice(b"PAEX");
    oversized[4] = 1;
    oversized[5] = LaunchMode::Agent.code();
    oversized[8..12].copy_from_slice(&(MAX_FRAME_SIZE as u32).to_be_bytes());
    assert_eq!(refusal(&oversized), Some(CodecError::FrameTooLarge));
}

#[test]
fn container_may_exceed_leaf_limit_but_frame_still_has_a_one_mib_cap() {
    let mut aggregate = frame();
    aggregate.argv = vec![vec![b'x'; 40 * 1024], vec![b'y'; 40 * 1024]];
    let encoded = aggregate.encode().unwrap();
    assert!(encoded.len() > MAX_FIELD_SIZE);
    assert!(ControlFrame::decode(&encoded).unwrap() == aggregate);

    let mut oversized = frame();
    oversized.argv = (0..20).map(|_| vec![b'z'; MAX_FIELD_SIZE]).collect();
    assert_eq!(failure(&oversized), Some(CodecError::FrameTooLarge));
}

#[test]
fn oversized_environment_rejects_after_borrowed_preflight() {
    let mut oversized = frame();
    oversized.environment = (0..MAX_ENV)
        .map(|index| (bytes(&format!("KEY_{index}")), vec![b'v'; MAX_FIELD_SIZE]))
        .collect();
    assert_eq!(failure(&oversized), Some(CodecError::FrameTooLarge));
}

#[test]
fn optional_descriptor_flags_must_match_identity_fields() {
    let mut missing = frame();
    missing.project_root_identity = None;
    assert_eq!(failure(&missing), Some(CodecError::MissingField(FIELD_PROJECT_ROOT_IDENTITY)));
    let mut unexpected = frame();
    unexpected.flags = flags(&[LaunchFlags::agent_log(), LaunchFlags::process_group()]);
    assert_eq!(failure(&unexpected), Some(CodecError::MissingField(FIELD_PROJECT_ROOT_IDENTITY)));
}

#[test]
fn mode_and_descriptor_matrix_is_closed() {
    let root = LaunchFlags::project_root();
    let log = LaunchFlags::agent_log();
    let config = LaunchFlags::pueue_config();
    let group = LaunchFlags::process_group();
    let mut agent = frame();
    assert!(agent.encode().is_ok());
    agent.flags = flags(&[root, group]);
    assert_eq!(failure(&agent), Some(CodecError::MissingField(FIELD_AGENT_LOG_IDENTITY)));
    agent.flags = flags(&[root, log, config, group]);
    assert_eq!(failure(&agent), Some(CodecError::UnexpectedField(FIELD_PUEUE_CONFIG_IDENTITY)));
    agent.mode = LaunchMode::Pueue;
    agent.flags = flags(&[config, group]);
    agent.project_root_identity = None;
    agent.agent_log_identity = None;
    agent.pueue_config_identity = Some(identity());
    assert!(agent.encode().is_ok());
    agent.flags = group;
    assert_eq!(failure(&agent), Some(CodecError::MissingField(FIELD_PUEUE_CONFIG_IDENTITY)));
    agent.flags = flags(&[config, root, group]);
    assert_eq!(failure(&agent), Some(CodecError::UnexpectedField(FIELD_PROJECT_ROOT_IDENTITY)));
    agent.flags = flags(&[config, log, group]);
    assert_eq!(failure(&agent), Some(CodecError::UnexpectedField(FIELD_AGENT_LOG_IDENTITY)));
    agent.flags = flags(&[root, log]);
    agent.mode = LaunchMode::Agent;
    agent.project_root_identity = Some(identity());
    agent.agent_log_identity = Some(identity());
    agent.pueue_config_identity = None;
    assert_eq!(failure(&agent), Some(CodecError::MissingProcessGroup));
}

#[test]
fn debug_is_redacted_to_shape_only() {
    let mut value = frame();
    value.argv = vec![bytes("secret-argv")];
    value.environment = vec![(bytes("FIXTURE_NAME"), bytes("fixture-value"))];
    value.cwd = Some(bytes("secret-cwd"));
    let debug = value.shape_text();
    assert!(debug.contains("argv_count"));
    assert!(debug.contains("environment_count"));
    assert!(!debug.contains("secret-argv"));
    assert!(!debug.contains("FIXTURE_NAME"));
    assert!(!debug.contains("fixture-value"));
    assert!(!debug.contains("secret-cwd"));
    assert_eq!(
        debug,
        "ControlFrame { mode: Agent, flags: LaunchFlags(11), argv_count: 1, \
         environment_count: 1, cwd_present: true, target_identity_present: true, \
         project_root_identity_present: true, agent_log_identity_present: true, \
         pueue_config_identity_present: false }"
    );
}

#[test]
fn decoder_rejects_nul_and_duplicate_environment_names() {
    let mut nul = Vec::new();
    nul.extend_from_slice(&1u32.to_be_bytes());
    nul.extend_from_slice(&1u32.to_be_bytes());
    nul.push(b'A');
    let nul_value = b"bad\0value";
    nul.extend_from_slice(&(nul_value.len() as u32).to_be_bytes());
    nul.extend_from_slice(nul_value);
    assert_eq!(decode_environment(&nul), Err(CodecError::NulByte));
    let mut duplicate = Vec::new();
    duplicate.extend_from_slice(&2u32.to_be_bytes());
    for value in [b"one".as_slice(), b"two".as_slice()] {
        duplicate.extend_from_slice(&1u32.to_be_bytes());
        duplicate.push(b'A');
        duplicate.extend_from_slice(&(value.len() as u32).to_be_bytes());
        duplicate.extend_from_slice(value);
    }
    assert_eq!(decode_environment(&duplicate), Err(CodecError::DuplicateEnvironmentName));
}

#[test]
fn fixed_descriptor_contract_is_immutable() {
    let fds = FixedFdContract::standard();
    assert!(fds.is_standard());
    assert_eq!(fds.control, 3);
    assert_eq!(fds.release, 4);
    assert_eq!(fds.exec_status, 5);
    assert_eq!(fds.target, 6);
    assert_eq!(fds.project_root, 7);
    assert_eq!(fds.agent_log, 8);
    assert_eq!(fds.pueue_config, 9);
    assert_eq!(fds.release_ack, 10);
}

#[test]
fn bootstrap_role_matrix_has_exact_optional_slots() {
    assert_eq!(bootstrap_slots(&frame()).unwrap(), vec![3, 4, 5, 6, 7, 8, 10]);
    assert_eq!(bootstrap_slots(&pueue_frame()).unwrap(), vec![3, 4, 5, 6, 9, 10]);
}

#[test]
fn fixed_slot_tracker_closes_each_synthetic_slot_once() {
    assert!(FixedSlotTracker::with_range(5, 4, vec![5], vec![5]).states.is_empty());
    let mut tracker = FixedSlotTracker::with_range(100, 102, vec![100, 101], vec![100]);
    let mut closed = tracker.close_unused();
    assert_eq!(closed, [102]);
    assert_eq!(
        tracker.states,
        [FixedSlotState::OwnedOriginal, FixedSlotState::NeverOwned, FixedSlotState::Closed]
    );
    tracker.mark_original_released(100);
    tracker.mark_installed(100);
    tracker.mark_installed(101);
    closed.extend(tracker.finish_failure());
    assert_eq!(tracker.states, [FixedSlotState::Closed; 3]);
    assert_eq!(closed, [102, 100, 101]);
    closed.extend(tracker.finish_failure());
    assert_eq!(tracker.states, [FixedSlotState::Closed; 3]);
    assert_eq!(closed, [102, 100, 101]);
}

fn facts() -> PacketFacts {
    PacketFacts {
        received: 1,
        truncated: false,
        ancillary_count: 1,
        invalid_ancillary: false,
        rights: 6,
    }
}

fn receive(stream: &[u8], rights: usize, chunk: usize) -> Result<ControlFrame, BootstrapError> {
    let begin = PacketFacts { rights, ..facts() };
    let mut reception = Reception::begin(stream[0], begin)?;
    let mut rest = &stream[1..];
    loop {
        let count = reception.wanted().min(chunk).min(rest.len());
        let (now, later) = rest.split_at(count);
        rest = later;
        match reception.take(now) {
            ReceptionStep::More(next) => reception = next,
            ReceptionStep::Ended(end) => return end,
        }
    }
}

#[test]
fn a_packet_is_received_whatever_the_chunks() {
    let original = frame();
    let rights = bootstrap_right_slots(&original).unwrap().len();
    assert_eq!(rights, 6);
    let sent = prepare_packet(&original, rights).unwrap();
    for chunk in [1, 2, 7, 64, 4096] {
        assert!(receive(&sent, rights, chunk).ok() == Some(original.clone()));
    }
}

#[test]
fn a_stream_that_is_cut_or_runs_on_is_refused() {
    let original = frame();
    let sent = prepare_packet(&original, 6).unwrap();
    for cut in [1, 11, 12, 13, sent.len() - 1] {
        assert!(matches!(receive(&sent[..cut], 6, 5), Err(BootstrapError::TruncatedPacket)));
    }
    let mut longer = sent.clone();
    longer.push(0);
    assert!(matches!(
        receive(&longer, 6, 5),
        Err(BootstrapError::Codec(CodecError::TrailingBytes))
    ));
    let mut magic = sent.clone();
    magic[1] = b'X';
    assert!(matches!(
        receive(&magic, 6, 5),
        Err(BootstrapError::Codec(CodecError::InvalidMagic))
    ));
    let mut large = sent.clone();
    large[8..12].copy_from_slice(&(MAX_FRAME_SIZE as u32).to_be_bytes());
    assert!(matches!(
        receive(&large, 6, 5),
        Err(BootstrapError::Codec(CodecError::FrameTooLarge))
    ));
    assert!(matches!(receive(&sent, 5, 5), Err(BootstrapError::WrongRightCount)));
}

#[test]
fn what_comes_with_the_first_byte_is_checked() {
    assert!(accept_packet(facts()).is_ok());
    let with = |change: fn(&mut PacketFacts)| {
        let mut own = facts();
        change(&mut own);
        accept_packet(own).err().map(|error| error.text())
    };
    assert_eq!(with(|f| f.received = 0).unwrap(), "bootstrap packet was empty");
    assert_eq!(with(|f| f.truncated = true).unwrap(), "bootstrap packet was truncated");
    assert_eq!(
        with(|f| f.ancillary_count = 2).unwrap(),
        "bootstrap packet had unexpected ancillary data"
    );
    assert_eq!(
        with(|f| f.invalid_ancillary = true).unwrap(),
        "bootstrap packet had unexpected ancillary data"
    );
    assert_eq!(with(|f| f.rights = 0).unwrap(), "bootstrap packet had no descriptor rights");
    assert_eq!(
        with(|f| f.rights = 8).unwrap(),
        "bootstrap packet had the wrong descriptor count"
    );
}

#[test]
fn a_packet_is_prepared_for_its_descriptors_only() {
    assert!(matches!(prepare_packet(&frame(), 5), Err(BootstrapError::WrongRightCount)));
    let mut broken = frame();
    broken.cwd = Some(bytes("bad\0cwd"));
    assert!(matches!(
        prepare_packet(&broken, 6),
        Err(BootstrapError::Codec(CodecError::NulByte))
    ));
    let sent = prepare_packet(&pueue_frame(), 5).unwrap();
    assert!(accept_frame(&sent, 5).ok() == Some(pueue_frame()));
    assert_eq!(announced_size(&sent[..HEADER_SIZE]).ok(), Some(sent.len()));
}

#[test]
fn descriptors_are_accepted_once_they_close_on_exec() {
    assert!(matches!(right_step(CloseOnExec::Given, false), RightStep::Accept));
    assert!(matches!(right_step(CloseOnExec::Lacking, false), RightStep::SetFlag));
    assert!(matches!(
        right_step(CloseOnExec::Lacking, true),
        RightStep::Refuse(BootstrapError::DescriptorNotCloseOnExec)
    ));
    assert!(matches!(
        right_step(CloseOnExec::Unknown, true),
        RightStep::Refuse(BootstrapError::DescriptorNotCloseOnExec)
    ));
}

#[test]
fn installation_fills_every_slot_before_it_checks_one() {
    let mut stage = InstallStage::Place(0);
    let mut order = Vec::new();
    loop {
        order.push(stage);
        match install_step(2, stage, true) {
            InstallMove::Next(next) => stage = next,
            InstallMove::Installed => break,
            InstallMove::CloseAll(_) => panic!("nothing failed"),
        }
    }
    assert_eq!(
        order,
        [
            InstallStage::Place(0),
            InstallStage::Place(1),
            InstallStage::Check(0),
            InstallStage::Check(1)
        ]
    );
    assert!(matches!(
        install_step(2, InstallStage::Check(0), false),
        InstallMove::CloseAll(BootstrapError::BootstrapCorrupt)
    ));
}

#[test]
fn the_helper_reports_on_the_right_descriptor() {
    let ready = run_internal_launch(Ok(()), 11);
    assert!(ready.result.is_ok());
    assert_eq!(ready.record, Some((3, helper_ready_record())));
    let failed = run_internal_launch(Err(BootstrapError::GateClosed), 11);
    assert!(matches!(failed.result, Err(BootstrapError::GateClosed)));
    assert_eq!(failed.record, Some((11, helper_failed_record())));
    let silent = run_internal_launch(Err(BootstrapError::GateClosed), -1);
    assert_eq!(silent.record, None);
}

#[test]
fn readiness_needs_the_whole_record_and_nothing_after_it() {
    let record = helper_ready_record();
    assert_eq!(record, b"PAER\x01\0\0\0");
    assert!(readiness_verdict(&record, ReadEnd::Bytes(0)).is_ok());
    assert!(matches!(
        readiness_verdict(&record, ReadEnd::Bytes(1)),
        Err(ProcessLaunchError::ReadinessRejected)
    ));
    assert!(matches!(
        readiness_verdict(&record, ReadEnd::Failed),
        Err(ProcessLaunchError::Io)
    ));
    assert!(matches!(
        readiness_verdict(&helper_failed_record(), ReadEnd::Bytes(0)),
        Err(ProcessLaunchError::ReadinessRejected)
    ));
    assert!(matches!(readiness_step(3, ReadEnd::Bytes(5)), ReadinessStep::CheckTrailing));
    assert!(matches!(readiness_step(3, ReadEnd::Bytes(2)), ReadinessStep::ReadMore));
    assert!(matches!(readiness_step(3, ReadEnd::Bytes(0)), ReadinessStep::Reject));
    assert!(matches!(readiness_step(3, ReadEnd::Interrupted), ReadinessStep::ReadMore));
    assert!(matches!(readiness_step(3, ReadEnd::Failed), ReadinessStep::Fail));
}

#[test]
fn roles_are_checked_against_the_frame() {
    let frame = frame();
    let target = DescriptorFacts {
        file_type: FileType::Regular,
        access: Access::ReadOnly,
        readable: false,
        identity: identity(),
    };
    let other = DescriptorFacts {
        identity: ExecutableIdentity { inode: 9, ..identity() },
        ..target
    };
    assert!(validate_role(6, target, &frame).is_ok());
    assert!(matches!(
        validate_role(6, other, &frame),
        Err(BootstrapError::IdentityMismatch)
    ));
    let gate = DescriptorFacts { file_type: FileType::Pipe, ..target };
    assert!(validate_role(4, gate, &frame).is_ok());
    assert!(matches!(
        validate_role(4, DescriptorFacts { readable: true, ..gate }, &frame),
        Err(BootstrapError::GateClosed)
    ));
    assert!(matches!(
        validate_role(9, target, &frame),
        Err(BootstrapError::WrongRightCount)
    ));
    assert_eq!(right_position(&vec![4, 5, 6], 6), Some(2));
    assert_eq!(right_position(&vec![4, 5, 6], 9), None);
}
