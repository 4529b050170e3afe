//! What the service trusts: paths, programs and its policy.

use pueue_agent::environment::{StartupEnvironment, Variable};
use pueue_agent::execution_policy::{
    ExecutableIdentity, PolicyViolation, PolicyViolationCode, PolicyViolationStage,
};
use pueue_agent::fspath::{absolute, dotted, join_path, within};
use pueue_agent::models::Project;
use pueue_agent::policy_load::{
    canonical_project_roots, check_policy_contents, check_policy_file, check_policy_version,
    default_policy, parse_environment_names, parse_network, policy_filename, policy_opened,
    policy_published, resolve_policy, resolve_policy_executable, resolve_project_policy,
    temporary_created, trusted_path_entries, validate_service_directory, AgentKind, CreateReply,
    CreateStep, NetworkMode, PolicyOpenReply, PolicyOpenStep, ProgramFacts, PublishStep,
    RawPolicy, RawProjectPolicy, ResolutionFacts, ResolvedExecutionPolicy,
};
use pueue_agent::trust::{
    extend_fingerprint, inside_any_root, look_up, path_steps, program_search, same_path,
    secure_component_metadata, secure_metadata, validate_opened_trusted_directory, walk_step,
    Candidate,
    ChildOpen, ExecutableAnchor, FileFacts, Opened, ProgramSearch, ProjectRootAnchor,
    PueueConfigAnchor,
};

const UID: u32 = 1000;

fn facts(is_dir: bool, owner: u32, mode: u32) -> FileFacts {
    FileFacts {
        is_file: !is_dir,
        is_dir,
        identity: ExecutableIdentity { device: 1, inode: 2, owner, mode },
    }
}

fn opened(path: &str, facts: FileFacts) -> Opened {
    Opened {
        canonical_path: path.to_owned(),
        resolution_fingerprint: format!("way to {path}"),
        facts: Some(facts),
    }
}

fn program(path: &str) -> Opened {
    opened(path, facts(false, UID, 0o755))
}

fn folder(path: &str) -> Opened {
    opened(path, facts(true, UID, 0o700))
}

fn roots() -> Vec<String> {
    vec!["/work/p".to_owned()]
}

fn code<T>(result: Result<T, PolicyViolation>) -> Option<PolicyViolationCode> {
    result.err().map(|violation| violation.code)
}

#[test]
fn paths_are_compared_by_component() {
    assert!(within("/work/p/x", "/work/p"));
    assert!(within("/work/p", "/work/p"));
    assert!(!within("/work/pp", "/work/p"));
    assert!(inside_any_root("/work/p/bin/tool", &roots()));
    assert!(!inside_any_root("/usr/bin/tool", &roots()));
    assert!(same_path("/a//b/", "/a/b"));
    assert!(!same_path("/a/b", "/a/c"));
    assert!(absolute("/a") && !absolute("a"));
    assert!(dotted("a/../b") && !dotted("a/b"));
    assert_eq!(join_path("/a", "b/c"), "/a/b/c");
    assert_eq!(path_steps("/usr/bin/x"), Some(vec!["usr", "bin", "x"].into_iter().map(str::to_owned).collect()));
    assert_eq!(path_steps("usr/bin"), None);
    assert_eq!(path_steps("/usr/../bin"), None);
}

#[test]
fn others_may_not_write_what_is_trusted() {
    assert!(secure_metadata(&facts(false, UID, 0o755), UID));
    assert!(!secure_metadata(&facts(false, 0, 0o755), UID));
    assert!(!secure_metadata(&facts(false, UID, 0o775), UID));
    assert!(!secure_metadata(&facts(false, UID, 0o757), UID));
    assert!(secure_component_metadata(&facts(true, 7, 0o755)));
    assert!(secure_component_metadata(&facts(true, 0, 0o1777)));
    assert!(!secure_component_metadata(&facts(true, UID, 0o1777)));
    assert!(!secure_component_metadata(&facts(true, 0, 0o777)));
}

#[test]
fn a_fingerprint_names_every_component() {
    let identity = ExecutableIdentity { device: 255, inode: 16, owner: 0, mode: 0o755 };
    assert_eq!(extend_fingerprint("", "\"usr\"", &identity), "\"usr\":ff:10:0:1ed;");
    assert_eq!(extend_fingerprint("x;", "\"y\"", &identity), "x;\"y\":ff:10:0:1ed;");
    assert_eq!(
        walk_step("", "\"y\"", &facts(true, 0, 0o755)).as_deref(),
        Some("\"y\":1:2:0:1ed;")
    );
    assert_eq!(walk_step("", "\"y\"", &facts(true, UID, 0o777)), None);
}

#[test]
fn programs_are_searched_by_their_form() {
    assert_eq!(program_search("/usr/bin/codex"), ProgramSearch::Absolute);
    assert_eq!(program_search("codex"), ProgramSearch::Lookup);
    assert_eq!(program_search("bin/codex"), ProgramSearch::Refused);
    assert_eq!(program_search(""), ProgramSearch::Refused);
    let children =
        [ChildOpen::NotFound, ChildOpen::Found(program("/b/x")), ChildOpen::Found(program("/c/x"))];
    assert_eq!(look_up(&children).map(|found| found.canonical_path.as_str()), Some("/b/x"));
    assert!(look_up(&[ChildOpen::NotFound]).is_none());
}

#[test]
fn unsafe_programs_are_not_anchored() {
    let anchor = ExecutableAnchor::from_absolute(Some(&program("/usr/bin/x")), &roots(), UID);
    let anchor = anchor.unwrap();
    assert_eq!(anchor.canonical_path, "/usr/bin/x");
    assert_eq!(anchor.resolution_fingerprint, "way to /usr/bin/x");
    for (found, expected) in [
        (None, PolicyViolationCode::AnchorMissing),
        (Some(program("/work/p/x")), PolicyViolationCode::ProjectRootExecutable),
        (Some(folder("/usr/bin")), PolicyViolationCode::AnchorMissing),
        (
            Some(opened("/usr/bin/x", facts(false, UID, 0o777))),
            PolicyViolationCode::TrustedPathUnsafe,
        ),
        (
            Some(opened("/usr/bin/x", facts(false, UID, 0o644))),
            PolicyViolationCode::TrustedPathUnsafe,
        ),
    ] {
        let refused = ExecutableAnchor::from_absolute(found.as_ref(), &roots(), UID);
        assert_eq!(code(refused), Some(expected));
    }
    assert!(anchor.verify_identity(Some(&program("/usr/bin/x")), UID).is_ok());
    let mut moved = program("/usr/bin/x");
    moved.facts = Some(FileFacts {
        identity: ExecutableIdentity { device: 1, inode: 3, owner: UID, mode: 0o755 },
        ..facts(false, UID, 0o755)
    });
    assert_eq!(
        code(anchor.verify_identity(Some(&moved), UID)),
        Some(PolicyViolationCode::AnchorReplaced)
    );
    assert!(anchor.verify_identity(None, UID).is_err());
}

#[test]
fn a_program_is_looked_up_in_trusted_directories() {
    let candidates = [
        Candidate { directory: Some(folder("/a")), child: ChildOpen::NotFound },
        Candidate { directory: Some(folder("/b")), child: ChildOpen::Found(program("/b/x")) },
    ];
    let anchor = ExecutableAnchor::resolve("x", None, &candidates, &roots(), UID).unwrap();
    assert_eq!(anchor.canonical_path, "/b/x");
    let refused = ExecutableAnchor::resolve("a/x", None, &candidates, &roots(), UID);
    assert!(refused.is_err());
    assert!(validate_opened_trusted_directory(&folder("/a"), &roots(), UID).is_ok());
    assert_eq!(
        code(validate_opened_trusted_directory(&folder("/work/p/bin"), &roots(), UID)),
        Some(PolicyViolationCode::TrustedPathUnsafe)
    );
}

#[test]
fn roots_and_configurations_are_anchored() {
    let root = ProjectRootAnchor::resolve(Some(&folder("/work/p")), UID).unwrap();
    assert!(root.verify_identity(Some(&folder("/work/p")), UID).is_ok());
    assert_eq!(
        code(root.verify_identity(Some(&folder("/work/q")), UID)),
        Some(PolicyViolationCode::RootChanged)
    );
    assert_eq!(
        code(ProjectRootAnchor::resolve(Some(&program("/work/p")), UID)),
        Some(PolicyViolationCode::RootChanged)
    );
    let file = opened("/home/u/pueue.yml", facts(false, UID, 0o600));
    let config = PueueConfigAnchor::from_absolute(Some(&file), &roots(), UID).unwrap();
    assert!(config.verify_identity(Some(&file), &roots(), UID).is_ok());
    let inside = opened("/work/p/pueue.yml", facts(false, UID, 0o600));
    assert_eq!(
        code(PueueConfigAnchor::from_absolute(Some(&inside), &roots(), UID)),
        Some(PolicyViolationCode::TrustedPathUnsafe)
    );
}

#[test]
fn the_policy_file_is_created_once() {
    assert_eq!(policy_filename(), "execution-policy.toml");
    assert!(default_policy().starts_with("version = 1\n"));
    assert_eq!(policy_opened(PolicyOpenReply::Opened, false), PolicyOpenStep::Use);
    assert_eq!(policy_opened(PolicyOpenReply::NotFound, true), PolicyOpenStep::Create);
    for (reply, expected) in [
        (PolicyOpenReply::NotFound, PolicyViolationCode::PolicyMissing),
        (PolicyOpenReply::Link, PolicyViolationCode::PolicyWeakPermissions),
        (PolicyOpenReply::Failed, PolicyViolationCode::PolicyUnreadable),
    ] {
        match policy_opened(reply, false) {
            PolicyOpenStep::Refuse(violation) => {
                assert_eq!(violation.code, expected);
                assert_eq!(violation.stage, PolicyViolationStage::Startup);
            }
            _ => panic!("the policy was not opened"),
        }
    }
    assert_eq!(temporary_created(0, CreateReply::Done), CreateStep::Write);
    assert_eq!(temporary_created(30, CreateReply::AlreadyExists), CreateStep::TryAnotherName);
    assert!(matches!(
        temporary_created(31, CreateReply::AlreadyExists),
        CreateStep::Refuse(_)
    ));
    assert_eq!(policy_published(CreateReply::Done), PublishStep::Finish { sync: true });
    assert_eq!(policy_published(CreateReply::AlreadyExists), PublishStep::Finish { sync: false });
}

#[test]
fn the_policy_file_is_private_and_has_the_right_version() {
    assert!(check_policy_file(Some(&facts(false, UID, 0o600)), UID).is_ok());
    assert_eq!(
        code(check_policy_file(Some(&facts(false, UID, 0o640)), UID)),
        Some(PolicyViolationCode::PolicyWeakPermissions)
    );
    assert_eq!(
        code(check_policy_file(None, UID)),
        Some(PolicyViolationCode::PolicyUnreadable)
    );
    assert!(check_policy_contents(Some("x")).is_ok());
    assert!(check_policy_contents(None).is_err());
    assert!(check_policy_contents(Some(&"x".repeat(1048577))).is_err());
    assert!(check_policy_version(Some(&raw())).is_ok());
    assert_eq!(
        code(check_policy_version(Some(&RawPolicy { version: Some(2), ..raw() }))),
        Some(PolicyViolationCode::PolicyUnknownField)
    );
    assert!(check_policy_version(None).is_err());
}

#[test]
fn fields_of_the_policy_are_read() {
    assert_eq!(parse_network(None), Ok(NetworkMode::Enabled));
    assert_eq!(parse_network(Some("disabled")), Ok(NetworkMode::Disabled));
    assert_eq!(code(parse_network(Some("off"))), Some(PolicyViolationCode::PolicyUnknownField));
    let names = ["B_2", "A", "B_2"].map(str::to_owned);
    assert_eq!(parse_environment_names(&names).unwrap(), ["A", "B_2"]);
    for name in ["", "lower", "2A", "A-B"] {
        assert_eq!(
            code(parse_environment_names(&[name.to_owned()])),
            Some(PolicyViolationCode::EnvironmentName)
        );
    }
    assert_eq!(
        trusted_path_entries(Some("/a:/b"), b"/c").unwrap(),
        [b"/a".to_vec(), b"/b".to_vec()]
    );
    assert_eq!(trusted_path_entries(None, b"/c").unwrap(), [b"/c".to_vec()]);
    assert!(trusted_path_entries(Some("/a::/b"), b"").is_err());
}

fn raw() -> RawPolicy {
    RawPolicy {
        version: Some(1),
        trusted_path: Some("/usr/bin".to_owned()),
        network: None,
        codex: "codex".to_owned(),
        pueue: "/usr/bin/pueue".to_owned(),
        projects: vec![RawProjectPolicy {
            project_id: "p-1".to_owned(),
            custom_agent: Some("/opt/agent".to_owned()),
            agent_environment_allow: vec!["A".to_owned()],
            task_environment_allow: vec![],
        }],
    }
}

fn resolution() -> ResolutionFacts {
    ResolutionFacts {
        trusted: vec![Some(folder("/usr/bin"))],
        codex: ProgramFacts {
            opened: None,
            children: vec![ChildOpen::Found(program("/usr/bin/codex"))],
        },
        pueue: ProgramFacts {
            opened: Some(program("/usr/bin/pueue")),
            children: vec![ChildOpen::NotFound],
        },
        launcher: Some(program("/usr/bin/pueue-agent")),
        pueue_config: Some(opened("/home/u/pueue.yml", facts(false, UID, 0o600))),
        custom_agents: vec![Some(program("/opt/agent"))],
    }
}

fn project(id: &str) -> Project {
    Project {
        project_id: id.to_owned(),
        root_path: "/work/p".to_owned(),
        pueue_group: "g".to_owned(),
        config_path: "/work/p/.pueue-agent/config.toml".to_owned(),
        enabled: true,
        paused: false,
        halted_reason: None,
        created_at: 1,
        updated_at: 1,
    }
}

fn started_with() -> StartupEnvironment {
    let variable = Variable { name: b"PATH".to_vec(), value: b"/usr/bin".to_vec() };
    StartupEnvironment::from_pairs(vec![variable])
}

fn resolve(
    raw: &RawPolicy,
    facts: &ResolutionFacts,
    codex_home: &str,
) -> Result<ResolvedExecutionPolicy, PolicyViolation> {
    resolve_policy(raw, facts, roots(), started_with(), codex_home.to_owned(), UID)
}

#[test]
fn a_policy_is_resolved_for_its_projects() {
    let policy = resolve(&raw(), &resolution(), "/home/u/.codex").ok().unwrap();
    assert_eq!(policy.startup_environment.get("PATH"), Some(b"/usr/bin".as_slice()));
    assert!(StartupEnvironment::default().names().is_empty());
    assert_eq!(policy.codex_anchor.canonical_path, "/usr/bin/codex");
    assert_eq!(policy.pueue_anchor.canonical_path, "/usr/bin/pueue");
    assert_eq!(policy.trusted_path, ["/usr/bin"]);
    assert_eq!(policy.default_network, NetworkMode::Enabled);
    let root = folder("/work/p");
    let custom = resolve_project_policy(
        &policy,
        &project("p-1"),
        "/opt/agent",
        NetworkMode::Disabled,
        Some(&root),
        UID,
    )
    .unwrap();
    assert_eq!(custom.agent_kind, AgentKind::Custom);
    assert_eq!(custom.agent_anchor.canonical_path, "/opt/agent");
    assert_eq!(custom.agent_environment_allow, ["A"]);
    assert_eq!(custom.network, NetworkMode::Disabled);
    let built_in = resolve_project_policy(
        &policy,
        &project("p-2"),
        "codex",
        NetworkMode::Enabled,
        Some(&root),
        UID,
    )
    .unwrap();
    assert_eq!(built_in.agent_kind, AgentKind::BuiltInCodex);
    assert!(built_in.agent_environment_allow.is_empty());
    let stranger = resolve_project_policy(
        &policy,
        &project("p-2"),
        "/opt/agent",
        NetworkMode::Enabled,
        Some(&root),
        UID,
    );
    assert_eq!(code(stranger), Some(PolicyViolationCode::CustomAgentNotEnrolled));
}

#[test]
fn a_policy_with_unsafe_parts_is_refused() {
    let with = |change: fn(&mut ResolutionFacts)| {
        let mut facts = resolution();
        change(&mut facts);
        code(resolve(&raw(), &facts, "/c"))
    };
    assert_eq!(with(|_| ()), None);
    assert_eq!(with(|f| f.launcher = None), Some(PolicyViolationCode::AnchorMissing));
    assert_eq!(
        with(|f| f.trusted = vec![Some(folder("/work/p/bin"))]),
        Some(PolicyViolationCode::TrustedPathUnsafe)
    );
    assert_eq!(
        with(|f| f.codex.children = vec![ChildOpen::NotFound]),
        Some(PolicyViolationCode::AnchorMissing)
    );
    assert_eq!(
        with(|f| f.pueue.opened = Some(program("/work/p/pueue"))),
        Some(PolicyViolationCode::ProjectRootExecutable)
    );
    let anchor = resolve_policy_executable("codex", &resolution().codex, &roots(), UID).unwrap();
    assert_eq!(anchor.canonical_path, "/usr/bin/codex");
}

#[test]
fn directories_of_the_service_are_its_own() {
    assert_eq!(
        canonical_project_roots(&[Some(folder("/a")), Some(folder("/b"))], UID).unwrap(),
        ["/a", "/b"]
    );
    assert_eq!(
        code(canonical_project_roots(&[Some(folder("/a")), None], UID)),
        Some(PolicyViolationCode::RootChanged)
    );
    assert!(validate_service_directory(Some(&folder("/s")), &roots(), UID).is_ok());
    for (found, expected) in [
        (None, PolicyViolationCode::PolicyUnreadable),
        (Some(folder("/work/p/s")), PolicyViolationCode::TrustedPathUnsafe),
        (
            Some(opened("/s", facts(true, UID, 0o777))),
            PolicyViolationCode::PolicyWeakPermissions,
        ),
    ] {
        assert_eq!(
            code(validate_service_directory(found.as_ref(), &roots(), UID)),
            Some(expected)
        );
    }
}

#[test]
fn the_environment_is_sorted_and_its_values_stay_hidden() {
    let pair = |name: &str, value: &str| Variable {
        name: name.as_bytes().to_vec(),
        value: value.as_bytes().to_vec(),
    };
    let environment =
        StartupEnvironment::from_pairs(vec![pair("B", "1"), pair("A", "x"), pair("B", "2")]);
    assert_eq!(environment.names(), [b"A".to_vec(), b"B".to_vec()]);
    assert_eq!(environment.get("B"), Some(b"2".as_slice()));
    assert_eq!(environment.get("C"), None);
    assert!(!environment.text().contains('x'));
}

#[test]
fn violations_are_shown_by_their_code() {
    let violation =
        PolicyViolation::new(PolicyViolationCode::AnchorReplaced, PolicyViolationStage::NativeGate);
    assert_eq!(violation.text(), "policy_blocked:anchor_replaced");
    assert_eq!(PolicyViolationStage::RunBoundPreMarker.as_str(), "run_bound_pre_marker");
}
