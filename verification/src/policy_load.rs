//! The loading of the execution policy: the order of the checks, what each of
//! them refuses, and the policy that comes out.

use vstd::prelude::*;
use vstd::string::*;

use crate::environment::StartupEnvironment;
use crate::execution_policy::{PolicyViolation, PolicyViolationCode};
use crate::fspath::{absolute, dotted, has_dots, is_absolute, is_within, within};
use crate::models::Project;
use crate::promotion::optional_text;
use crate::text::{
    byte_len, chars_of, comes_before, lemma_text_less_total, lemma_text_less_transitive, same_text,
    text_less,
};
use crate::trust::{
    anchor_of, at_startup, before_binding, config_violation, deref_opened, inside_any_root,
    is_anchoring, is_bad_directory, is_inside_any, is_own_directory, is_same_path, is_secure,
    look_up, lookup_outcome, opened_violation, pre_binding_violation, program_search, same_path,
    search_for, secure_metadata, startup_violation, string_views, validate_opened_trusted_directory,
    ChildOpen, ExecutableAnchor, FileFacts, Opened, ProgramSearch, ProjectRootAnchor,
    PueueConfigAnchor,
};

verus! {

pub const POLICY_VERSION: u32 = 1;

pub const MAX_POLICY_BYTES: usize = 1048576;

pub const MAX_CREATE_ATTEMPTS: u32 = 32;

/// The name of the policy file in the state directory.
pub fn policy_filename() -> (name: &'static str)
    ensures
        name@ == "execution-policy.toml"@,
{
    "execution-policy.toml"
}

/// What is written where there is no policy yet.
pub fn default_policy() -> (text: &'static str)
    ensures
        text@
            == "version = 1\n\n[defaults]\nnetwork = \"enabled\"\n\n[executables]\ncodex = \"codex\"\npueue = \"pueue\"\n"@,
{
    "version = 1\n\n[defaults]\nnetwork = \"enabled\"\n\n[executables]\ncodex = \"codex\"\npueue = \"pueue\"\n"
}

/// Whether an agent may use the network.
#[derive(Debug, Clone, Copy, PartialEq, Eq, Structural)]
pub enum NetworkMode {
    Enabled,
    Disabled,
}

/// Which kind of agent a project runs.
#[derive(Debug, Clone, Copy, PartialEq, Eq, Structural)]
pub enum AgentKind {
    BuiltInCodex,
    Custom,
}

/// The rules of a project as they are written in the policy file.
#[derive(Debug, Clone, PartialEq, Eq)]
pub struct RawProjectPolicy {
    pub project_id: String,
    pub custom_agent: Option<String>,
    pub agent_environment_allow: Vec<String>,
    pub task_environment_allow: Vec<String>,
}

/// The policy as it is written in its file, the projects in the order of their
/// identifiers.
#[derive(Debug, Clone, PartialEq, Eq)]
pub struct RawPolicy {
    pub version: Option<u32>,
    pub trusted_path: Option<String>,
    pub network: Option<String>,
    pub codex: String,
    pub pueue: String,
    pub projects: Vec<RawProjectPolicy>,
}

/// The rules of a project that hold.
#[derive(Debug, Clone, PartialEq, Eq)]
pub struct ProjectRules {
    pub project_id: String,
    pub custom_agent: Option<ExecutableAnchor>,
    pub agent_environment_allow: Vec<String>,
    pub task_environment_allow: Vec<String>,
}

/// The policy of the service.
#[derive(Clone, PartialEq, Eq)]
pub struct ResolvedExecutionPolicy {
    pub codex_anchor: ExecutableAnchor,
    pub pueue_anchor: ExecutableAnchor,
    pub launcher_anchor: ExecutableAnchor,
    pub trusted_path: Vec<String>,
    pub project_roots: Vec<String>,
    pub pueue_config_anchor: PueueConfigAnchor,
    pub startup_environment: StartupEnvironment,
    pub codex_home: String,
    pub default_network: NetworkMode,
    pub projects: Vec<ProjectRules>,
}

/// The policy of one project.
#[derive(Debug, Clone, PartialEq, Eq)]
pub struct ResolvedProjectExecutionPolicy {
    pub project_id: String,
    pub root_anchor: ProjectRootAnchor,
    pub agent_anchor: ExecutableAnchor,
    pub agent_kind: AgentKind,
    pub network: NetworkMode,
    pub agent_environment_allow: Vec<String>,
    pub task_environment_allow: Vec<String>,
    pub codex_home: String,
    pub trusted_path: Vec<String>,
    pub private_temp_relative_root: String,
}

// ---------------------------------------------------------------------------
// Directories
// ---------------------------------------------------------------------------
/// The canonical paths of the project roots.
pub fn canonical_project_roots(opened: &[Option<Opened>], uid: u32) -> (roots: Result<
    Vec<String>,
    PolicyViolation,
>)
    ensures
        match roots {
            Ok(paths) => paths@.len() == opened@.len() && forall|i: int|
                0 <= i < opened@.len() ==> is_own_directory(#[trigger] opened@[i], uid)
                    && paths@[i]@ == opened@[i]->0.canonical_path@,
            Err(violation) => violation == at_startup(PolicyViolationCode::RootChanged) && exists|
                i: int,
            |
                0 <= i < opened@.len() && !is_own_directory(#[trigger] opened@[i], uid),
        },
{
    let mut paths: Vec<String> = Vec::new();
    let mut at: usize = 0;
    while at < opened.len()
        invariant
            at <= opened@.len(),
            paths@.len() == at,
            forall|i: int|
                0 <= i < at ==> is_own_directory(#[trigger] opened@[i], uid) && paths@[i]@
                    == opened@[i]->0.canonical_path@,
        decreases opened.len() - at,
    {
        let root = match &opened[at] {
            Some(o) => match &o.facts {
                Some(facts) => if facts.is_dir && secure_metadata(facts, uid) {
                    Some(o.canonical_path.clone())
                } else {
                    None
                },
                None => None,
            },
            None => None,
        };
        match root {
            Some(path) => paths.push(path),
            None => {
                proof {
                    assert(!is_own_directory(opened@[at as int], uid));
                }
                return Err(startup_violation(PolicyViolationCode::RootChanged));
            },
        }
        at = at + 1;
    }
    Ok(paths)
}

/// Why a directory of the service is refused.
pub open spec fn service_directory_violation(
    opened: Option<Opened>,
    roots: Seq<Seq<char>>,
    uid: u32,
) -> Option<PolicyViolationCode> {
    match opened {
        None => Some(PolicyViolationCode::PolicyUnreadable),
        Some(o) => if is_inside_any(o.canonical_path@, roots) {
            Some(PolicyViolationCode::TrustedPathUnsafe)
        } else {
            match o.facts {
                None => Some(PolicyViolationCode::PolicyUnreadable),
                Some(facts) => if !facts.is_dir || !is_secure(facts.identity, uid) {
                    Some(PolicyViolationCode::PolicyWeakPermissions)
                } else {
                    None
                },
            }
        },
    }
}

/// Refuses a directory of the service that is not safe.
pub fn validate_service_directory(opened: Option<&Opened>, roots: &[String], uid: u32) -> (checked:
    Result<(), PolicyViolation>)
    ensures
        checked == (match service_directory_violation(
            deref_opened(opened),
            string_views(roots@),
            uid,
        ) {
            Some(code) => Err::<(), PolicyViolation>(at_startup(code)),
            None => Ok::<(), PolicyViolation>(()),
        }),
{
    match opened {
        None => Err(startup_violation(PolicyViolationCode::PolicyUnreadable)),
        Some(o) => {
            if inside_any_root(o.canonical_path.as_str(), roots) {
                return Err(startup_violation(PolicyViolationCode::TrustedPathUnsafe));
            }
            match &o.facts {
                None => Err(startup_violation(PolicyViolationCode::PolicyUnreadable)),
                Some(facts) => if !facts.is_dir || !secure_metadata(facts, uid) {
                    Err(startup_violation(PolicyViolationCode::PolicyWeakPermissions))
                } else {
                    Ok(())
                },
            }
        },
    }
}

// ---------------------------------------------------------------------------
// The policy file
// ---------------------------------------------------------------------------
/// What came of opening the policy file.
#[derive(Debug, Clone, Copy, PartialEq, Eq, Structural)]
pub enum PolicyOpenReply {
    Opened,
    NotFound,
    /// The name is that of a symbolic link.
    Link,
    Failed,
}

/// What follows.
#[derive(Debug, Clone, Copy, PartialEq, Eq, Structural)]
pub enum PolicyOpenStep {
    Use,
    Create,
    Refuse(PolicyViolation),
}

/// What follows from opening the policy file.
pub fn policy_opened(reply: PolicyOpenReply, create_missing: bool) -> (step: PolicyOpenStep)
    ensures
        step == (match reply {
            PolicyOpenReply::Opened => PolicyOpenStep::Use,
            PolicyOpenReply::NotFound => if create_missing {
                PolicyOpenStep::Create
            } else {
                PolicyOpenStep::Refuse(at_startup(PolicyViolationCode::PolicyMissing))
            },
            PolicyOpenReply::Link => PolicyOpenStep::Refuse(
                at_startup(PolicyViolationCode::PolicyWeakPermissions),
            ),
            PolicyOpenReply::Failed => PolicyOpenStep::Refuse(
                at_startup(PolicyViolationCode::PolicyUnreadable),
            ),
        }),
{
    match reply {
        PolicyOpenReply::Opened => PolicyOpenStep::Use,
        PolicyOpenReply::NotFound => if create_missing {
            PolicyOpenStep::Create
        } else {
            PolicyOpenStep::Refuse(startup_violation(PolicyViolationCode::PolicyMissing))
        },
        PolicyOpenReply::Link => PolicyOpenStep::Refuse(
            startup_violation(PolicyViolationCode::PolicyWeakPermissions),
        ),
        PolicyOpenReply::Failed => PolicyOpenStep::Refuse(
            startup_violation(PolicyViolationCode::PolicyUnreadable),
        ),
    }
}

/// The policy file is one that the service owns and nobody else may touch.
pub open spec fn is_private_file(facts: FileFacts, uid: u32) -> bool {
    facts.is_file && is_secure(facts.identity, uid) && facts.identity.mode & 0o077u32 == 0
}

/// Refuses a policy file by what the file system says of it.
pub fn check_policy_file(facts: Option<&FileFacts>, uid: u32) -> (checked: Result<
    (),
    PolicyViolation,
>)
    ensures
        checked == (match facts {
            None => Err::<(), PolicyViolation>(at_startup(PolicyViolationCode::PolicyUnreadable)),
            Some(f) => if is_private_file(*f, uid) {
                Ok::<(), PolicyViolation>(())
            } else {
                Err::<(), PolicyViolation>(at_startup(PolicyViolationCode::PolicyWeakPermissions))
            },
        }),
{
    match facts {
        None => Err(startup_violation(PolicyViolationCode::PolicyUnreadable)),
        Some(f) => if f.is_file && secure_metadata(f, uid) && f.identity.mode & 0o077u32 == 0 {
            Ok(())
        } else {
            Err(startup_violation(PolicyViolationCode::PolicyWeakPermissions))
        },
    }
}

/// Refuses a policy that could not be read as text or is too long.
pub fn check_policy_contents(contents: Option<&str>) -> (checked: Result<(), PolicyViolation>)
    ensures
        checked == (if contents matches Some(text) && byte_len(text@) <= MAX_POLICY_BYTES {
            Ok::<(), PolicyViolation>(())
        } else {
            Err::<(), PolicyViolation>(at_startup(PolicyViolationCode::PolicyUnreadable))
        }),
{
    match contents {
        Some(text) => if crate::text::measured(text) <= MAX_POLICY_BYTES {
            Ok(())
        } else {
            Err(startup_violation(PolicyViolationCode::PolicyUnreadable))
        },
        None => Err(startup_violation(PolicyViolationCode::PolicyUnreadable)),
    }
}

/// Refuses a policy that could not be parsed or has another version.
pub fn check_policy_version(raw: Option<&RawPolicy>) -> (checked: Result<(), PolicyViolation>)
    ensures
        checked == (if raw matches Some(r) && r.version == Some(POLICY_VERSION) {
            Ok::<(), PolicyViolation>(())
        } else {
            Err::<(), PolicyViolation>(at_startup(PolicyViolationCode::PolicyUnknownField))
        }),
{
    match raw {
        Some(r) => match r.version {
            Some(version) => if version == POLICY_VERSION {
                Ok(())
            } else {
                Err(startup_violation(PolicyViolationCode::PolicyUnknownField))
            },
            None => Err(startup_violation(PolicyViolationCode::PolicyUnknownField)),
        },
        None => Err(startup_violation(PolicyViolationCode::PolicyUnknownField)),
    }
}

/// What came of creating a temporary file, or of giving it its name.
#[derive(Debug, Clone, Copy, PartialEq, Eq, Structural)]
pub enum CreateReply {
    Done,
    AlreadyExists,
    Failed,
}

/// What follows from creating the temporary file.
#[derive(Debug, Clone, Copy, PartialEq, Eq, Structural)]
pub enum CreateStep {
    Write,
    TryAnotherName,
    Refuse(PolicyViolation),
}

/// What follows from the attempt with this number to create a temporary file.
pub fn temporary_created(attempt: u32, reply: CreateReply) -> (step: CreateStep)
    ensures
        step == (match reply {
            CreateReply::Done => CreateStep::Write,
            CreateReply::AlreadyExists => if attempt + 1 < MAX_CREATE_ATTEMPTS {
                CreateStep::TryAnotherName
            } else {
                CreateStep::Refuse(at_startup(PolicyViolationCode::PolicyUnreadable))
            },
            CreateReply::Failed => CreateStep::Refuse(
                at_startup(PolicyViolationCode::PolicyUnreadable),
            ),
        }),
{
    match reply {
        CreateReply::Done => CreateStep::Write,
        CreateReply::AlreadyExists => if attempt < MAX_CREATE_ATTEMPTS - 1 {
            CreateStep::TryAnotherName
        } else {
            CreateStep::Refuse(startup_violation(PolicyViolationCode::PolicyUnreadable))
        },
        CreateReply::Failed => CreateStep::Refuse(
            startup_violation(PolicyViolationCode::PolicyUnreadable),
        ),
    }
}

/// What follows from giving the temporary file the name of the policy.
#[derive(Debug, Clone, Copy, PartialEq, Eq, Structural)]
pub enum PublishStep {
    /// Remove the temporary name; with `sync`, make the directory durable too.
    Finish { sync: bool },
    /// Remove the temporary name, if possible, and refuse.
    Refuse(PolicyViolation),
}

/// What follows from publishing a policy. One that another process has
/// published in the meantime is left as it is.
pub fn policy_published(reply: CreateReply) -> (step: PublishStep)
    ensures
        step == (match reply {
            CreateReply::Done => PublishStep::Finish { sync: true },
            CreateReply::AlreadyExists => PublishStep::Finish { sync: false },
            CreateReply::Failed => PublishStep::Refuse(
                at_startup(PolicyViolationCode::PolicyUnreadable),
            ),
        }),
{
    match reply {
        CreateReply::Done => PublishStep::Finish { sync: true },
        CreateReply::AlreadyExists => PublishStep::Finish { sync: false },
        CreateReply::Failed => PublishStep::Refuse(
            startup_violation(PolicyViolationCode::PolicyUnreadable),
        ),
    }
}

// ---------------------------------------------------------------------------
// Fields
// ---------------------------------------------------------------------------
/// The network mode that a field stands for; enabled where it is left out.
pub open spec fn network_of(value: Option<Seq<char>>) -> Option<NetworkMode> {
    match value {
        None => Some(NetworkMode::Enabled),
        Some(text) => if text == "enabled"@ {
            Some(NetworkMode::Enabled)
        } else if text == "disabled"@ {
            Some(NetworkMode::Disabled)
        } else {
            None
        },
    }
}

pub open spec fn text_at(value: Option<&str>) -> Option<Seq<char>> {
    match value {
        Some(text) => Some(text@),
        None => None,
    }
}

pub fn parse_network(value: Option<&str>) -> (mode: Result<NetworkMode, PolicyViolation>)
    ensures
        mode == (match network_of(text_at(value)) {
            Some(m) => Ok::<NetworkMode, PolicyViolation>(m),
            None => Err::<NetworkMode, PolicyViolation>(
                at_startup(PolicyViolationCode::PolicyUnknownField),
            ),
        }),
{
    match value {
        None => Ok(NetworkMode::Enabled),
        Some(text) => if same_text(text, "enabled") {
            Ok(NetworkMode::Enabled)
        } else if same_text(text, "disabled") {
            Ok(NetworkMode::Disabled)
        } else {
            Err(startup_violation(PolicyViolationCode::PolicyUnknownField))
        },
    }
}

pub open spec fn is_name_start(c: char) -> bool {
    ('A' <= c && c <= 'Z') || c == '_'
}

pub open spec fn is_name_part(c: char) -> bool {
    is_name_start(c) || ('0' <= c && c <= '9')
}

/// The name of an environment variable: upper-case letters, digits and
/// underscores, not led by a digit.
pub open spec fn is_environment_name(name: Seq<char>) -> bool {
    name.len() > 0 && is_name_start(name[0]) && forall|i: int|
        0 <= i < name.len() ==> is_name_part(#[trigger] name[i])
}

fn environment_name(name: &str) -> (yes: bool)
    ensures
        yes == is_environment_name(name@),
{
    let chars = chars_of(name);
    if chars.len() == 0 {
        return false;
    }
    let first: char = chars[0];
    if !(('A' <= first && first <= 'Z') || first == '_') {
        return false;
    }
    let mut at: usize = 0;
    while at < chars.len()
        invariant
            at <= chars@.len(),
            chars@ == name@,
            forall|i: int| 0 <= i < at ==> is_name_part(#[trigger] name@[i]),
        decreases chars.len() - at,
    {
        let c: char = chars[at];
        if !(('A' <= c && c <= 'Z') || c == '_' || ('0' <= c && c <= '9')) {
            proof {
                assert(!is_name_part(name@[at as int]));
            }
            return false;
        }
        at = at + 1;
    }
    true
}

pub open spec fn all_names(names: Seq<Seq<char>>) -> bool {
    forall|i: int| 0 <= i < names.len() ==> is_environment_name(#[trigger] names[i])
}

/// A set of texts as a list: in ascending order, and nothing occurs twice.
pub open spec fn is_ascending(texts: Seq<Seq<char>>) -> bool {
    forall|i: int, j: int|
        0 <= i < j < texts.len() ==> text_less(#[trigger] texts[i], #[trigger] texts[j])
}

/// The list holds the same texts, each once and in order.
pub open spec fn is_set_of(set: Seq<Seq<char>>, texts: Seq<Seq<char>>) -> bool {
    is_ascending(set) && forall|t: Seq<char>| #[trigger] set.contains(t) <==> texts.contains(t)
}

fn insert_text(set: &mut Vec<String>, text: String, Ghost(filed): Ghost<Seq<Seq<char>>>)
    requires
        is_set_of(string_views(old(set)@), filed),
    ensures
        is_set_of(string_views(final(set)@), filed.push(text@)),
{
    let ghost before = string_views(set@);
    let ghost id = text@;
    let wanted = chars_of(text.as_str());
    let mut at: usize = 0;
    let mut go_on = true;
    while go_on && at < set.len()
        invariant
            at <= set@.len(),
            string_views(set@) == before,
            before.len() == set@.len(),
            wanted@ == id,
            forall|i: int| 0 <= i < at ==> text_less(#[trigger] before[i], id),
            !go_on ==> at < set@.len() && !text_less(before[at as int], id),
        decreases set.len() - at, go_on as int,
    {
        let here = chars_of(set[at].as_str());
        proof {
            assert(before[at as int] == here@);
        }
        if comes_before(here.as_slice(), wanted.as_slice()) {
            at = at + 1;
        } else {
            go_on = false;
        }
    }
    proof {
        assert forall|t: Seq<char>| #[trigger] filed.push(id).contains(t) <==> filed.contains(t) || t
            == id by {
            let now = filed.push(id);
            if now.contains(t) {
                let i = choose|i: int| 0 <= i < now.len() && now[i] == t;
                if i < filed.len() {
                    assert(filed[i] == t);
                }
            }
            if filed.contains(t) {
                let i = choose|i: int| 0 <= i < filed.len() && filed[i] == t;
                assert(now[i] == t);
            }
            assert(now[filed.len() as int] == id);
        }
    }
    if at < set.len() && same_text(set[at].as_str(), text.as_str()) {
        proof {
            assert(before[at as int] == id);
            assert(before.contains(id));
        }
        return;
    }
    proof {
        if at < before.len() {
            assert(before[at as int] == set@[at as int]@);
            lemma_text_less_total(before[at as int], id);
        }
    }
    set.insert(at, text);
    proof {
        let after = string_views(set@);
        assert(after =~= before.insert(at as int, id));
        assert forall|i: int| at <= i < before.len() implies text_less(id, #[trigger] before[i]) by {
            if i > at {
                assert(text_less(before[at as int], before[i]));
                lemma_text_less_transitive(id, before[at as int], before[i]);
            }
        }
        let source = |k: int| if k < at { k } else { k - 1 };
        assert forall|i: int, j: int| 0 <= i < j < after.len() implies text_less(
            #[trigger] after[i],
            #[trigger] after[j],
        ) by {
            if i != at && j != at {
                assert(text_less(before[source(i)], before[source(j)]));
            }
        }
        assert forall|t: Seq<char>| #[trigger] after.contains(t) <==> filed.push(id).contains(t) by {
            if after.contains(t) {
                let i = choose|i: int| 0 <= i < after.len() && after[i] == t;
                if i != at {
                    assert(before[source(i)] == t);
                    assert(before.contains(t));
                }
            }
            if before.contains(t) {
                let i = choose|i: int| 0 <= i < before.len() && before[i] == t;
                let place = if i < at { i } else { i + 1 };
                assert(after[place] == t);
            }
            assert(after[at as int] == id);
        }
    }
}

/// The set of the names of environment variables, or the refusal where one of
/// them is not such a name.
pub fn parse_environment_names(names: &[String]) -> (parsed: Result<Vec<String>, PolicyViolation>)
    ensures
        match parsed {
            Ok(set) => all_names(string_views(names@)) && is_set_of(
                string_views(set@),
                string_views(names@),
            ),
            Err(violation) => !all_names(string_views(names@)) && violation == at_startup(
                PolicyViolationCode::EnvironmentName,
            ),
        },
{
    let ghost all = string_views(names@);
    let mut set: Vec<String> = Vec::new();
    let mut at: usize = 0;
    proof {
        assert(is_set_of(string_views(set@), all.take(0)));
    }
    while at < names.len()
        invariant
            at <= names@.len(),
            all == string_views(names@),
            forall|i: int| 0 <= i < at ==> is_environment_name(#[trigger] all[i]),
            is_set_of(string_views(set@), all.take(at as int)),
        decreases names.len() - at,
    {
        if !environment_name(names[at].as_str()) {
            proof {
                assert(!is_environment_name(all[at as int]));
            }
            return Err(startup_violation(PolicyViolationCode::EnvironmentName));
        }
        let name = names[at].clone();
        proof {
            assert(all.take(at + 1) =~= all.take(at as int).push(name@));
        }
        insert_text(&mut set, name, Ghost(all.take(at as int)));
        at = at + 1;
    }
    proof {
        assert(all.take(all.len() as int) =~= all);
    }
    Ok(set)
}

// ---------------------------------------------------------------------------
// The trusted path
// ---------------------------------------------------------------------------
/// The parts of a list of directories between colons.
pub open spec fn path_entries(source: Seq<u8>) -> Seq<Seq<u8>>
    decreases source.len(),
{
    let at = colon(source);
    if 0 <= at < source.len() {
        seq![source.take(at)] + path_entries(source.skip(at + 1))
    } else {
        seq![source]
    }
}

/// The place of the first colon, or the length.
pub open spec fn colon(source: Seq<u8>) -> int
    decreases source.len(),
{
    if source.len() == 0 || source[0] == 58u8 {
        0
    } else {
        1 + colon(source.drop_first())
    }
}

pub open spec fn byte_views(parts: Seq<Vec<u8>>) -> Seq<Seq<u8>> {
    Seq::new(parts.len(), |i: int| parts[i]@)
}

proof fn lemma_colon(source: Seq<u8>, at: int)
    requires
        0 <= at <= source.len(),
        forall|i: int| 0 <= i < at ==> #[trigger] source[i] != 58u8,
        at == source.len() || source[at] == 58u8,
    ensures
        colon(source) == at,
    decreases at,
{
    if at > 0 {
        assert(source[0] != 58u8);
        let rest = source.drop_first();
        assert forall|i: int| 0 <= i < at - 1 implies #[trigger] rest[i] != 58u8 by {
            assert(rest[i] == source[i + 1]);
        }
        if at < source.len() {
            assert(rest[at - 1] == source[at]);
        }
        lemma_colon(rest, at - 1);
    }
}

/// The list has an entry that is empty.
pub open spec fn has_empty_entry(source: Seq<u8>) -> bool {
    exists|i: int| 0 <= i < path_entries(source).len() && (#[trigger] path_entries(source)[i]).len()
        == 0
}

/// The directories of a trusted path, in order. An empty entry is refused.
pub fn trusted_path_entries(configured: Option<&str>, inherited: &[u8]) -> (entries: Result<
    Vec<Vec<u8>>,
    PolicyViolation,
>)
    ensures
        ({
            let source = match configured {
                Some(text) => vstd::utf8::encode_utf8(text@),
                None => inherited@,
            };
            match entries {
                Ok(parts) => !has_empty_entry(source) && byte_views(parts@) == path_entries(source),
                Err(violation) => has_empty_entry(source) && violation == at_startup(
                    PolicyViolationCode::TrustedPathUnsafe,
                ),
            }
        }),
{
    let source: &[u8] = match configured {
        Some(text) => text.as_bytes(),
        None => inherited,
    };
    let ghost whole = source@;
    let mut parts: Vec<Vec<u8>> = Vec::new();
    let mut from: usize = 0;
    let mut done = false;
    let mut empty = false;
    proof {
        assert(whole.skip(0) =~= whole);
        assert(byte_views(parts@) + path_entries(whole) =~= path_entries(whole));
    }
    while !done
        invariant
            from <= source@.len(),
            source@ == whole,
            !done ==> path_entries(whole) == byte_views(parts@) + path_entries(
                whole.skip(from as int),
            ),
            done ==> path_entries(whole) == byte_views(parts@),
            empty <==> exists|i: int|
                0 <= i < parts@.len() && (#[trigger] byte_views(parts@)[i]).len() == 0,
        decreases source@.len() - from, !done as int,
    {
        let ghost rest = whole.skip(from as int);
        let mut to: usize = from;
        while to < source.len() && source[to] != 58u8
            invariant
                from <= to <= source@.len(),
                source@ == whole,
                rest == whole.skip(from as int),
                forall|i: int| 0 <= i < to - from ==> #[trigger] rest[i] != 58u8,
            decreases source.len() - to,
        {
            proof {
                assert(rest[to - from] == whole[to as int]);
            }
            to = to + 1;
        }
        proof {
            if to < whole.len() {
                assert(rest[to - from] == whole[to as int]);
            }
            lemma_colon(rest, to - from);
        }
        let part = crate::wire::copy_bytes(vstd::slice::slice_subrange(source, from, to));
        let ghost before = parts@;
        let ghost was_empty = empty;
        proof {
            assert(part@ =~= rest.take(to - from));
        }
        if to == from {
            empty = true;
        }
        parts.push(part);
        proof {
            let now = byte_views(parts@);
            assert(now =~= byte_views(before).push(part@));
            assert(now[before.len() as int] == part@);
            assert forall|i: int| 0 <= i < before.len() implies now[i] == byte_views(before)[i] by {}
            if was_empty {
                let i = choose|i: int|
                    0 <= i < before.len() && (#[trigger] byte_views(before)[i]).len() == 0;
                assert(now[i].len() == 0);
            }
            if exists|i: int| 0 <= i < parts@.len() && (#[trigger] now[i]).len() == 0 {
                let i = choose|i: int| 0 <= i < parts@.len() && (#[trigger] now[i]).len() == 0;
                if i < before.len() {
                    assert(byte_views(before)[i].len() == 0);
                }
            }
            if to < whole.len() {
                assert(rest.skip(to - from + 1) =~= whole.skip(to + 1));
                assert(byte_views(before) + path_entries(rest) =~= now + path_entries(
                    whole.skip(to + 1),
                ));
            } else {
                assert(rest.take(to - from) =~= rest);
                assert(byte_views(before) + path_entries(rest) =~= now);
            }
        }
        if to < source.len() {
            from = to + 1;
        } else {
            done = true;
        }
    }
    if empty {
        proof {
            let i = choose|i: int|
                0 <= i < parts@.len() && (#[trigger] byte_views(parts@)[i]).len() == 0;
            assert(path_entries(whole)[i].len() == 0);
        }
        Err(startup_violation(PolicyViolationCode::TrustedPathUnsafe))
    } else {
        Ok(parts)
    }
}

// ---------------------------------------------------------------------------
// Resolution
// ---------------------------------------------------------------------------
/// What came of looking for a program: by its absolute path, and in each of the
/// trusted directories.
#[derive(Debug, Clone, PartialEq, Eq)]
pub struct ProgramFacts {
    pub opened: Option<Opened>,
    pub children: Vec<ChildOpen>,
}

/// What was opened for the programs and files that a policy names. The custom
/// agents stand in the order of the projects.
#[derive(Debug, Clone, PartialEq, Eq)]
pub struct ResolutionFacts {
    pub trusted: Vec<Option<Opened>>,
    pub codex: ProgramFacts,
    pub pueue: ProgramFacts,
    pub launcher: Option<Opened>,
    pub pueue_config: Option<Opened>,
    pub custom_agents: Vec<Option<Opened>>,
}

/// What a program is found to be.
pub open spec fn program_found(program: Seq<char>, facts: ProgramFacts) -> Option<Opened> {
    match search_for(program) {
        ProgramSearch::Refused => None,
        ProgramSearch::Absolute => facts.opened,
        ProgramSearch::Lookup => lookup_outcome(facts.children@),
    }
}

pub open spec fn trusted_path_is_safe(trusted: Seq<Option<Opened>>, roots: Seq<Seq<char>>, uid: u32) -> bool {
    forall|i: int|
        0 <= i < trusted.len() ==> (#[trigger] trusted[i]) is Some && !is_bad_directory(
            trusted[i]->0,
            roots,
            uid,
        )
}

/// Why the rules of a project are refused.
pub open spec fn project_violation(
    raw: RawProjectPolicy,
    custom: Option<Opened>,
    roots: Seq<Seq<char>>,
    uid: u32,
) -> Option<PolicyViolationCode> {
    if !all_names(string_views(raw.agent_environment_allow@)) || !all_names(
        string_views(raw.task_environment_allow@),
    ) {
        Some(PolicyViolationCode::EnvironmentName)
    } else if raw.custom_agent is Some {
        opened_violation(custom, roots, uid)
    } else {
        None
    }
}

/// Why the first project that is refused is refused.
pub open spec fn projects_violation(
    raw: Seq<RawProjectPolicy>,
    custom: Seq<Option<Opened>>,
    roots: Seq<Seq<char>>,
    uid: u32,
) -> Option<PolicyViolationCode>
    decreases raw.len(),
{
    if raw.len() == 0 {
        None
    } else {
        match projects_violation(raw.drop_last(), custom.drop_last(), roots, uid) {
            Some(code) => Some(code),
            None => project_violation(raw.last(), custom.last(), roots, uid),
        }
    }
}

/// Why a policy is refused: the first check that fails.
pub open spec fn resolution_violation(
    raw: RawPolicy,
    facts: ResolutionFacts,
    roots: Seq<Seq<char>>,
    uid: u32,
) -> Option<PolicyViolationCode> {
    let codex = opened_violation(program_found(raw.codex@, facts.codex), roots, uid);
    let pueue = opened_violation(program_found(raw.pueue@, facts.pueue), roots, uid);
    let launcher = opened_violation(facts.launcher, roots, uid);
    let config = config_violation(facts.pueue_config, roots, uid);
    if !trusted_path_is_safe(facts.trusted@, roots, uid) {
        Some(PolicyViolationCode::TrustedPathUnsafe)
    } else if codex is Some {
        codex
    } else if pueue is Some {
        pueue
    } else if launcher is Some {
        launcher
    } else if config is Some {
        config
    } else if network_of(optional_text(raw.network)) is None {
        Some(PolicyViolationCode::PolicyUnknownField)
    } else {
        projects_violation(raw.projects@, facts.custom_agents@, roots, uid)
    }
}

/// The rules that hold are those that are written.
pub open spec fn is_ruling(
    rules: ProjectRules,
    raw: RawProjectPolicy,
    custom: Option<Opened>,
) -> bool {
    &&& rules.project_id@ == raw.project_id@
    &&& is_set_of(
        string_views(rules.agent_environment_allow@),
        string_views(raw.agent_environment_allow@),
    )
    &&& is_set_of(
        string_views(rules.task_environment_allow@),
        string_views(raw.task_environment_allow@),
    )
    &&& match rules.custom_agent {
        Some(anchor) => raw.custom_agent is Some && custom is Some && anchor@ == anchor_of(custom->0),
        None => raw.custom_agent is None,
    }
}

/// The policy that comes out of what is written and what was opened.
pub open spec fn is_resolution(
    policy: ResolvedExecutionPolicy,
    raw: RawPolicy,
    facts: ResolutionFacts,
    roots: Seq<Seq<char>>,
    environment: StartupEnvironment,
    codex_home: Seq<char>,
) -> bool {
    &&& policy.startup_environment == environment
    &&& policy.codex_anchor@ == anchor_of(program_found(raw.codex@, facts.codex)->0)
    &&& policy.pueue_anchor@ == anchor_of(program_found(raw.pueue@, facts.pueue)->0)
    &&& policy.launcher_anchor@ == anchor_of(facts.launcher->0)
    &&& policy.pueue_config_anchor@ == anchor_of(facts.pueue_config->0)
    &&& policy.trusted_path@.len() == facts.trusted@.len()
    &&& forall|i: int|
        0 <= i < facts.trusted@.len() ==> (#[trigger] policy.trusted_path@[i])@
            == facts.trusted@[i]->0.canonical_path@
    &&& string_views(policy.project_roots@) == roots
    &&& policy.codex_home@ == codex_home
    &&& Some(policy.default_network) == network_of(optional_text(raw.network))
    &&& policy.projects@.len() == raw.projects@.len()
    &&& forall|i: int|
        0 <= i < raw.projects@.len() ==> is_ruling(
            #[trigger] policy.projects@[i],
            raw.projects@[i],
            facts.custom_agents@[i],
        )
}

fn opened_ref(opened: &Option<Opened>) -> (reference: Option<&Opened>)
    ensures
        deref_opened(reference) == *opened,
{
    match opened {
        Some(o) => Some(o),
        None => None,
    }
}

/// The anchor of a program that the policy names.
pub fn resolve_policy_executable(configured: &str, facts: &ProgramFacts, roots: &[String], uid: u32) -> (anchor:
    Result<ExecutableAnchor, PolicyViolation>)
    ensures
        is_anchoring(anchor, program_found(configured@, *facts), string_views(roots@), uid),
{
    let found = match program_search(configured) {
        ProgramSearch::Refused => None,
        ProgramSearch::Absolute => opened_ref(&facts.opened),
        ProgramSearch::Lookup => look_up(facts.children.as_slice()),
    };
    ExecutableAnchor::from_absolute(found, roots, uid)
}

fn trusted_paths(trusted: &[Option<Opened>], roots: &[String], uid: u32) -> (paths: Result<
    Vec<String>,
    PolicyViolation,
>)
    ensures
        match paths {
            Ok(list) => trusted_path_is_safe(trusted@, string_views(roots@), uid) && list@.len()
                == trusted@.len() && forall|i: int|
                0 <= i < trusted@.len() ==> (#[trigger] list@[i])@ == trusted@[i]->0.canonical_path@,
            Err(violation) => !trusted_path_is_safe(trusted@, string_views(roots@), uid)
                && violation == at_startup(PolicyViolationCode::TrustedPathUnsafe),
        },
{
    let mut list: Vec<String> = Vec::new();
    let mut at: usize = 0;
    while at < trusted.len()
        invariant
            at <= trusted@.len(),
            list@.len() == at,
            forall|i: int|
                0 <= i < at ==> (#[trigger] trusted@[i]) is Some && !is_bad_directory(
                    trusted@[i]->0,
                    string_views(roots@),
                    uid,
                ),
            forall|i: int|
                0 <= i < at ==> (#[trigger] list@[i])@ == trusted@[i]->0.canonical_path@,
        decreases trusted.len() - at,
    {
        match &trusted[at] {
            None => {
                proof {
                    assert(!(trusted@[at as int] is Some));
                }
                return Err(startup_violation(PolicyViolationCode::TrustedPathUnsafe));
            },
            Some(directory) => {
                match validate_opened_trusted_directory(directory, roots, uid) {
                    Err(violation) => {
                        proof {
                            assert(is_bad_directory(
                                trusted@[at as int]->0,
                                string_views(roots@),
                                uid,
                            ));
                        }
                        return Err(violation);
                    },
                    Ok(_) => {
                        list.push(directory.canonical_path.clone());
                    },
                }
            },
        }
        at = at + 1;
    }
    Ok(list)
}

fn resolve_project_rules(raw: &RawProjectPolicy, custom: &Option<Opened>, roots: &[String], uid: u32) -> (rules:
    Result<ProjectRules, PolicyViolation>)
    ensures
        match rules {
            Ok(r) => project_violation(*raw, *custom, string_views(roots@), uid) is None
                && is_ruling(r, *raw, *custom),
            Err(violation) => project_violation(
                *raw,
                *custom,
                string_views(roots@),
                uid,
            ) matches Some(code) && violation == at_startup(code),
        },
{
    let agent_environment_allow = parse_environment_names(raw.agent_environment_allow.as_slice())?;
    let task_environment_allow = parse_environment_names(raw.task_environment_allow.as_slice())?;
    let custom_agent = match &raw.custom_agent {
        Some(_) => Some(ExecutableAnchor::from_absolute(opened_ref(custom), roots, uid)?),
        None => None,
    };
    Ok(
        ProjectRules {
            project_id: raw.project_id.clone(),
            custom_agent,
            agent_environment_allow,
            task_environment_allow,
        },
    )
}

fn resolve_all_rules(raw: &[RawProjectPolicy], custom: &[Option<Opened>], roots: &[String], uid: u32) -> (rules:
    Result<Vec<ProjectRules>, PolicyViolation>)
    requires
        custom@.len() == raw@.len(),
    ensures
        match rules {
            Ok(list) => projects_violation(raw@, custom@, string_views(roots@), uid) is None
                && list@.len() == raw@.len() && forall|i: int|
                0 <= i < raw@.len() ==> is_ruling(#[trigger] list@[i], raw@[i], custom@[i]),
            Err(violation) => projects_violation(
                raw@,
                custom@,
                string_views(roots@),
                uid,
            ) matches Some(code) && violation == at_startup(code),
        },
{
    let ghost views = string_views(roots@);
    let mut list: Vec<ProjectRules> = Vec::new();
    let mut at: usize = 0;
    while at < raw.len()
        invariant
            at <= raw@.len(),
            custom@.len() == raw@.len(),
            views == string_views(roots@),
            list@.len() == at,
            projects_violation(raw@.take(at as int), custom@.take(at as int), views, uid) is None,
            forall|i: int| 0 <= i < at ==> is_ruling(#[trigger] list@[i], raw@[i], custom@[i]),
        decreases raw.len() - at,
    {
        proof {
            assert(raw@.take(at + 1).drop_last() =~= raw@.take(at as int));
            assert(custom@.take(at + 1).drop_last() =~= custom@.take(at as int));
            assert(raw@.take(at + 1).last() == raw@[at as int]);
            assert(custom@.take(at + 1).last() == custom@[at as int]);
        }
        match resolve_project_rules(&raw[at], &custom[at], roots, uid) {
            Ok(rules) => {
                list.push(rules);
            },
            Err(violation) => {
                proof {
                    lemma_first_violation_stays(raw@, custom@, views, uid, at + 1);
                }
                return Err(violation);
            },
        }
        at = at + 1;
    }
    proof {
        assert(raw@.take(raw@.len() as int) =~= raw@);
        assert(custom@.take(raw@.len() as int) =~= custom@);
    }
    Ok(list)
}

proof fn lemma_first_violation_stays(
    raw: Seq<RawProjectPolicy>,
    custom: Seq<Option<Opened>>,
    roots: Seq<Seq<char>>,
    uid: u32,
    n: int,
)
    requires
        raw.len() == custom.len(),
        0 <= n <= raw.len(),
        projects_violation(raw.take(n), custom.take(n), roots, uid) is Some,
    ensures
        projects_violation(raw, custom, roots, uid) == projects_violation(
            raw.take(n),
            custom.take(n),
            roots,
            uid,
        ),
    decreases raw.len() - n,
{
    if n < raw.len() {
        assert(raw.take(n + 1).drop_last() =~= raw.take(n));
        assert(custom.take(n + 1).drop_last() =~= custom.take(n));
        lemma_first_violation_stays(raw, custom, roots, uid, n + 1);
    } else {
        assert(raw.take(n) =~= raw);
        assert(custom.take(n) =~= custom);
    }
}

/// The policy that is written and safe, or the refusal by the first check that
/// fails.
pub fn resolve_policy(
    raw: &RawPolicy,
    facts: &ResolutionFacts,
    project_roots: Vec<String>,
    startup_environment: StartupEnvironment,
    codex_home: String,
    uid: u32,
) -> (policy: Result<ResolvedExecutionPolicy, PolicyViolation>)
    requires
        facts.custom_agents@.len() == raw.projects@.len(),
    ensures
        match policy {
            Ok(p) => resolution_violation(*raw, *facts, string_views(project_roots@), uid) is None
                && is_resolution(
                p,
                *raw,
                *facts,
                string_views(project_roots@),
                startup_environment,
                codex_home@,
            ),
            Err(violation) => resolution_violation(
                *raw,
                *facts,
                string_views(project_roots@),
                uid,
            ) matches Some(code) && violation == at_startup(code),
        },
{
    let roots = project_roots.as_slice();
    let trusted_path = trusted_paths(facts.trusted.as_slice(), roots, uid)?;
    let codex_anchor = resolve_policy_executable(raw.codex.as_str(), &facts.codex, roots, uid)?;
    let pueue_anchor = resolve_policy_executable(raw.pueue.as_str(), &facts.pueue, roots, uid)?;
    let launcher_anchor = ExecutableAnchor::from_absolute(opened_ref(&facts.launcher), roots, uid)?;
    let pueue_config_anchor = PueueConfigAnchor::from_absolute(
        opened_ref(&facts.pueue_config),
        roots,
        uid,
    )?;
    let network = match &raw.network {
        Some(text) => Some(text.as_str()),
        None => None,
    };
    let default_network = parse_network(network)?;
    let projects = resolve_all_rules(
        raw.projects.as_slice(),
        facts.custom_agents.as_slice(),
        roots,
        uid,
    )?;
    Ok(
        ResolvedExecutionPolicy {
            codex_anchor,
            pueue_anchor,
            launcher_anchor,
            trusted_path,
            project_roots,
            pueue_config_anchor,
            startup_environment,
            codex_home,
            default_network,
            projects,
        },
    )
}

// ---------------------------------------------------------------------------
// The policy of a project
// ---------------------------------------------------------------------------
/// The place of the first rules for a project, or the number of all rules.
pub open spec fn rules_at(rules: Seq<ProjectRules>, project_id: Seq<char>) -> int
    decreases rules.len(),
{
    if rules.len() == 0 || rules[0].project_id@ == project_id {
        0
    } else {
        1 + rules_at(rules.drop_first(), project_id)
    }
}

/// The rules for a project.
pub open spec fn rules_for(rules: Seq<ProjectRules>, project_id: Seq<char>) -> Option<ProjectRules> {
    if rules_at(rules, project_id) < rules.len() {
        Some(rules[rules_at(rules, project_id)])
    } else {
        None
    }
}

fn find_rules<'a>(rules: &'a [ProjectRules], project_id: &str) -> (found: Option<&'a ProjectRules>)
    ensures
        match found {
            Some(r) => rules_for(rules@, project_id@) == Some(*r),
            None => rules_for(rules@, project_id@) is None,
        },
{
    let mut at: usize = 0;
    proof {
        assert(rules@.skip(0) =~= rules@);
    }
    while at < rules.len()
        invariant
            at <= rules@.len(),
            rules_at(rules@, project_id@) == at + rules_at(rules@.skip(at as int), project_id@),
        decreases rules.len() - at,
    {
        proof {
            assert(rules@.skip(at as int)[0] == rules@[at as int]);
            assert(rules@.skip(at as int).drop_first() =~= rules@.skip(at + 1));
        }
        if same_text(rules[at].project_id.as_str(), project_id) {
            return Some(&rules[at]);
        }
        at = at + 1;
    }
    None
}

/// Why the agent of a project is refused: the program must be the built-in
/// agent, or the one that the policy enrols for the project by its absolute
/// path outside all projects.
pub open spec fn agent_violation(
    global: ResolvedExecutionPolicy,
    project_id: Seq<char>,
    program: Seq<char>,
    root: Seq<char>,
) -> Option<PolicyViolationCode> {
    if program == "codex"@ {
        None
    } else if !is_absolute(program) || has_dots(program) {
        Some(PolicyViolationCode::CustomAgentNotEnrolled)
    } else if is_inside_any(program, string_views(global.project_roots@)) || is_within(
        program,
        root,
    ) {
        Some(PolicyViolationCode::ProjectRootExecutable)
    } else {
        match rules_for(global.projects@, project_id) {
            Some(rules) => match rules.custom_agent {
                Some(anchor) => if is_same_path(anchor.canonical_path@, program) {
                    None
                } else {
                    Some(PolicyViolationCode::CustomAgentNotEnrolled)
                },
                None => Some(PolicyViolationCode::CustomAgentNotEnrolled),
            },
            None => Some(PolicyViolationCode::CustomAgentNotEnrolled),
        }
    }
}

/// The names that a project allows; none where there are no rules for it.
pub open spec fn allowed_names(rules: Option<ProjectRules>, task: bool) -> Seq<Seq<char>> {
    match rules {
        Some(r) => if task {
            string_views(r.task_environment_allow@)
        } else {
            string_views(r.agent_environment_allow@)
        },
        None => Seq::empty(),
    }
}

/// The policy of a project that follows from the policy of the service.
pub open spec fn is_project_policy(
    policy: ResolvedProjectExecutionPolicy,
    global: ResolvedExecutionPolicy,
    project: Project,
    program: Seq<char>,
    network: NetworkMode,
    root: Opened,
) -> bool {
    let rules = rules_for(global.projects@, project.project_id@);
    &&& policy.project_id@ == project.project_id@
    &&& policy.root_anchor@ == anchor_of(root)
    &&& policy.agent_kind == (if program == "codex"@ {
        AgentKind::BuiltInCodex
    } else {
        AgentKind::Custom
    })
    &&& policy.agent_anchor@ == (if program == "codex"@ {
        global.codex_anchor@
    } else {
        rules->0.custom_agent->0@
    })
    &&& policy.network == (if global.default_network is Disabled || network is Disabled {
        NetworkMode::Disabled
    } else {
        NetworkMode::Enabled
    })
    &&& string_views(policy.agent_environment_allow@) == allowed_names(rules, false)
    &&& string_views(policy.task_environment_allow@) == allowed_names(rules, true)
    &&& policy.codex_home@ == global.codex_home@
    &&& string_views(policy.trusted_path@) == string_views(global.trusted_path@)
    &&& policy.private_temp_relative_root@ == ".pueue-agent/tmp"@
}

fn copy_texts(texts: &Vec<String>) -> (copy: Vec<String>)
    ensures
        string_views(copy@) == string_views(texts@),
{
    let mut copy: Vec<String> = Vec::new();
    let mut at: usize = 0;
    while at < texts.len()
        invariant
            at <= texts@.len(),
            copy@.len() == at,
            forall|i: int| 0 <= i < at ==> (#[trigger] copy@[i])@ == texts@[i]@,
        decreases texts.len() - at,
    {
        copy.push(texts[at].clone());
        at = at + 1;
    }
    proof {
        assert(string_views(copy@) =~= string_views(texts@));
    }
    copy
}

fn copy_anchor(anchor: &ExecutableAnchor) -> (copy: ExecutableAnchor)
    ensures
        copy@ == anchor@,
{
    ExecutableAnchor {
        canonical_path: anchor.canonical_path.clone(),
        identity: anchor.identity,
        resolution_fingerprint: anchor.resolution_fingerprint.clone(),
    }
}

fn custom_agent_anchor(
    global: &ResolvedExecutionPolicy,
    project_id: &str,
    program: &str,
    root: &str,
) -> (anchor: Result<ExecutableAnchor, PolicyViolation>)
    requires
        program@ != "codex"@,
    ensures
        match anchor {
            Ok(a) => agent_violation(*global, project_id@, program@, root@) is None && a@
                == rules_for(global.projects@, project_id@)->0.custom_agent->0@,
            Err(violation) => agent_violation(
                *global,
                project_id@,
                program@,
                root@,
            ) matches Some(code) && violation == before_binding(code),
        },
{
    if !absolute(program) || dotted(program) {
        return Err(pre_binding_violation(PolicyViolationCode::CustomAgentNotEnrolled));
    }
    if inside_any_root(program, global.project_roots.as_slice()) || within(program, root) {
        return Err(pre_binding_violation(PolicyViolationCode::ProjectRootExecutable));
    }
    match find_rules(global.projects.as_slice(), project_id) {
        Some(rules) => match &rules.custom_agent {
            Some(anchor) => if same_path(anchor.canonical_path.as_str(), program) {
                Ok(copy_anchor(anchor))
            } else {
                Err(pre_binding_violation(PolicyViolationCode::CustomAgentNotEnrolled))
            },
            None => Err(pre_binding_violation(PolicyViolationCode::CustomAgentNotEnrolled)),
        },
        None => Err(pre_binding_violation(PolicyViolationCode::CustomAgentNotEnrolled)),
    }
}

/// The policy of a project, or why it has none.
pub fn resolve_project_policy(
    global: &ResolvedExecutionPolicy,
    project: &Project,
    program: &str,
    network: NetworkMode,
    root: Option<&Opened>,
    uid: u32,
) -> (policy: Result<ResolvedProjectExecutionPolicy, PolicyViolation>)
    ensures
        match policy {
            Ok(p) => is_own_directory(deref_opened(root), uid) && agent_violation(
                *global,
                project.project_id@,
                program@,
                root->0.canonical_path@,
            ) is None && is_project_policy(p, *global, *project, program@, network, *root->0),
            Err(violation) => if !is_own_directory(deref_opened(root), uid) {
                violation == at_startup(PolicyViolationCode::RootChanged)
            } else {
                agent_violation(
                    *global,
                    project.project_id@,
                    program@,
                    root->0.canonical_path@,
                ) matches Some(code) && violation == before_binding(code)
            },
        },
{
    let root_anchor = ProjectRootAnchor::resolve(root, uid)?;
    let (agent_anchor, agent_kind) = if same_text(program, "codex") {
        (copy_anchor(&global.codex_anchor), AgentKind::BuiltInCodex)
    } else {
        let anchor = custom_agent_anchor(
            global,
            project.project_id.as_str(),
            program,
            root_anchor.canonical_path.as_str(),
        )?;
        (anchor, AgentKind::Custom)
    };
    let disabled = match (global.default_network, network) {
        (NetworkMode::Enabled, NetworkMode::Enabled) => false,
        _ => true,
    };
    let (agent_environment_allow, task_environment_allow) = match find_rules(
        global.projects.as_slice(),
        project.project_id.as_str(),
    ) {
        Some(rules) => (
            copy_texts(&rules.agent_environment_allow),
            copy_texts(&rules.task_environment_allow),
        ),
        None => (Vec::new(), Vec::new()),
    };
    let policy = ResolvedProjectExecutionPolicy {
        project_id: project.project_id.clone(),
        root_anchor,
        agent_anchor,
        agent_kind,
        network: if disabled {
            NetworkMode::Disabled
        } else {
            NetworkMode::Enabled
        },
        agent_environment_allow,
        task_environment_allow,
        codex_home: global.codex_home.clone(),
        trusted_path: copy_texts(&global.trusted_path),
        private_temp_relative_root: ".pueue-agent/tmp".to_owned(),
    };
    proof {
        assert(string_views(policy.agent_environment_allow@) =~= allowed_names(
            rules_for(global.projects@, project.project_id@),
            false,
        ));
        assert(string_views(policy.task_environment_allow@) =~= allowed_names(
            rules_for(global.projects@, project.project_id@),
            true,
        ));
    }
    Ok(policy)
}

/// An agent that is not the built-in one runs only from outside its project and
/// outside all project roots of the service.
pub proof fn lemma_custom_agent_lies_outside_projects(
    global: ResolvedExecutionPolicy,
    project_id: Seq<char>,
    program: Seq<char>,
    root: Seq<char>,
)
    requires
        program != "codex"@,
        agent_violation(global, project_id, program, root) is None,
    ensures
        is_absolute(program),
        !is_within(program, root),
        !is_inside_any(program, string_views(global.project_roots@)),
        rules_for(global.projects@, project_id) is Some,
{
}

/// A policy that disables the network is not overridden by a project.
pub proof fn lemma_network_is_never_widened(
    policy: ResolvedProjectExecutionPolicy,
    global: ResolvedExecutionPolicy,
    project: Project,
    program: Seq<char>,
    network: NetworkMode,
    root: Opened,
)
    requires
        is_project_policy(policy, global, project, program, network, root),
    ensures
        policy.network is Enabled ==> global.default_network is Enabled && network is Enabled,
{
}

/// A project's agent has the network exactly where both the policy and the
/// configuration of the project give it.
pub proof fn lemma_network_needs_both_consents(
    policy: ResolvedProjectExecutionPolicy,
    global: ResolvedExecutionPolicy,
    project: Project,
    program: Seq<char>,
    network: NetworkMode,
    root: Opened,
)
    requires
        is_project_policy(policy, global, project, program, network, root),
    ensures
        policy.network is Enabled <==> global.default_network is Enabled && network is Enabled,
        policy.network is Disabled <==> global.default_network is Disabled || network is Disabled,
{
}

/// The rules of a project are the first that carry its name.
pub proof fn lemma_rules_of_a_project(rules: Seq<ProjectRules>, project_id: Seq<char>)
    ensures
        match rules_for(rules, project_id) {
            Some(found) => exists|i: int|
                0 <= i < rules.len() && (#[trigger] rules[i]) == found && found.project_id@
                    == project_id && forall|j: int|
                    0 <= j < i ==> (#[trigger] rules[j]).project_id@ != project_id,
            None => forall|j: int|
                0 <= j < rules.len() ==> (#[trigger] rules[j]).project_id@ != project_id,
        },
{
    lemma_rules_at(rules, project_id);
    let at = rules_at(rules, project_id);
    if at < rules.len() {
        assert(rules[at].project_id@ == project_id);
    }
}

proof fn lemma_rules_at(rules: Seq<ProjectRules>, project_id: Seq<char>)
    ensures
        0 <= rules_at(rules, project_id) <= rules.len(),
        rules_at(rules, project_id) < rules.len() ==> rules[rules_at(
            rules,
            project_id,
        )].project_id@ == project_id,
        forall|j: int|
            0 <= j < rules_at(rules, project_id) ==> (#[trigger] rules[j]).project_id@
                != project_id,
    decreases rules.len(),
{
    if rules.len() > 0 && rules[0].project_id@ != project_id {
        let rest = rules.drop_first();
        lemma_rules_at(rest, project_id);
        assert forall|j: int| 0 <= j < rules_at(rules, project_id) implies (
        #[trigger] rules[j]).project_id@ != project_id by {
            if j > 0 {
                assert(rest[j - 1] == rules[j]);
            }
        }
    }
}

/// An agent may run exactly where it is the built-in one, or where it lies
/// outside every project, is named by its absolute path without detours, and is
/// the one that the policy enrols for the project.
pub proof fn lemma_which_agents_may_run(
    global: ResolvedExecutionPolicy,
    project_id: Seq<char>,
    program: Seq<char>,
    root: Seq<char>,
)
    ensures
        agent_violation(global, project_id, program, root) is None <==> program == "codex"@ || {
            &&& is_absolute(program)
            &&& !has_dots(program)
            &&& !is_within(program, root)
            &&& forall|i: int|
                0 <= i < global.project_roots@.len() ==> !is_within(
                    program,
                    (#[trigger] global.project_roots@[i])@,
                )
            &&& rules_for(global.projects@, project_id) matches Some(rules)
                && rules.custom_agent matches Some(anchor) && crate::fspath::components(
                anchor.canonical_path@,
            ) == crate::fspath::components(program)
        },
{
    let roots = string_views(global.project_roots@);
    if is_inside_any(program, roots) {
        let i = choose|i: int| 0 <= i < roots.len() && is_within(program, #[trigger] roots[i]);
        assert(roots[i] == global.project_roots@[i]@);
    }
    assert forall|i: int|
        0 <= i < global.project_roots@.len() && is_within(
            program,
            (#[trigger] global.project_roots@[i])@,
        ) implies is_inside_any(program, roots) by {
        assert(roots[i] == global.project_roots@[i]@);
    }
}

/// The policy of a project takes its agent, its names and its places from the
/// policy of the user: the built-in agent by its name alone, another by its
/// enrolment, and the names that the rules of the project allow, none without
/// rules.
pub proof fn lemma_policy_of_a_project(
    policy: ResolvedProjectExecutionPolicy,
    global: ResolvedExecutionPolicy,
    project: Project,
    program: Seq<char>,
    network: NetworkMode,
    root: Opened,
)
    requires
        is_project_policy(policy, global, project, program, network, root),
    ensures
        policy.project_id@ == project.project_id@,
        policy.root_anchor.canonical_path@ == root.canonical_path@,
        policy.root_anchor.identity == root.facts->0.identity,
        policy.root_anchor.resolution_fingerprint@ == root.resolution_fingerprint@,
        policy.agent_kind is BuiltInCodex <==> program == "codex"@,
        policy.agent_kind is Custom <==> program != "codex"@,
        program == "codex"@ ==> policy.agent_anchor@ == global.codex_anchor@,
        program != "codex"@ ==> policy.agent_anchor@ == rules_for(
            global.projects@,
            project.project_id@,
        )->0.custom_agent->0@,
        rules_for(global.projects@, project.project_id@) matches Some(rules) ==> string_views(
            policy.agent_environment_allow@,
        ) == string_views(rules.agent_environment_allow@) && string_views(
            policy.task_environment_allow@,
        ) == string_views(rules.task_environment_allow@),
        rules_for(global.projects@, project.project_id@) is None
            ==> policy.agent_environment_allow@.len() == 0 && policy.task_environment_allow@.len()
            == 0,
        policy.codex_home@ == global.codex_home@,
        string_views(policy.trusted_path@) == string_views(global.trusted_path@),
        policy.private_temp_relative_root@ == ".pueue-agent/tmp"@,
{
    if rules_for(global.projects@, project.project_id@) is None {
        assert(string_views(policy.agent_environment_allow@).len() == 0);
        assert(string_views(policy.task_environment_allow@).len() == 0);
    }
}

/// A policy that does not speak of the network gives it; one that does says
/// `enabled` or `disabled`.
pub proof fn lemma_network_words(text: Seq<char>)
    ensures
        network_of(None) == Some(NetworkMode::Enabled),
        network_of(Some("enabled"@)) == Some(NetworkMode::Enabled),
        network_of(Some("disabled"@)) == Some(NetworkMode::Disabled),
        text != "enabled"@ && text != "disabled"@ ==> network_of(Some(text)) is None,
{
    reveal_strlit("enabled");
    reveal_strlit("disabled");
    assert("enabled"@.len() == 7);
    assert("disabled"@.len() == 8);
}

/// The name of a variable is capital letters, digits and underscores, and starts
/// with no digit.
pub proof fn lemma_environment_names(name: Seq<char>)
    ensures
        is_environment_name(name) <==> name.len() > 0 && !('0' <= name[0] <= '9') && forall|i: int|
            0 <= i < name.len() ==> ('A' <= (#[trigger] name[i]) <= 'Z' || '0' <= name[i] <= '9'
                || name[i] == '_'),
{
    if name.len() > 0 {
        assert(is_name_part(name[0]) ==> is_name_start(name[0]) || '0' <= name[0] <= '9');
    }
}

/// A search path is parted at its colons.
pub proof fn lemma_search_path_is_parted(first: Seq<u8>, rest: Seq<u8>)
    requires
        !first.contains(58u8),
    ensures
        path_entries(first) == seq![first],
        path_entries(first + seq![58u8] + rest) == seq![first] + path_entries(rest),
{
    let all = first + seq![58u8] + rest;
    lemma_colon_is_found(first, seq![58u8] + rest);
    lemma_colon_is_found(first, Seq::empty());
    assert(first + (seq![58u8] + rest) =~= all);
    assert(first + Seq::<u8>::empty() =~= first);
    assert(all.take(first.len() as int) =~= first);
    assert(all.skip(first.len() as int + 1) =~= rest);
}

proof fn lemma_colon_is_found(first: Seq<u8>, rest: Seq<u8>)
    requires
        !first.contains(58u8),
        rest.len() > 0 ==> rest[0] == 58u8,
    ensures
        colon(first + rest) == first.len(),
    decreases first.len(),
{
    let all = first + rest;
    if first.len() > 0 {
        assert(first.contains(first[0]));
        assert(all[0] == first[0]);
        assert(all.drop_first() =~= first.drop_first() + rest);
        assert forall|i: int| 0 <= i < first.drop_first().len() implies first.drop_first()[i]
            != 58u8 by {
            assert(first.contains(first[i + 1]));
        }
        lemma_colon_is_found(first.drop_first(), rest);
    }
}

/// The directory of the service is used exactly where it lies outside every
/// project and is a directory of the user that only the user can write; the
/// policy itself is read only where nobody else has any right to it.
pub proof fn lemma_service_places(opened: Opened, roots: Seq<Seq<char>>, uid: u32, facts: FileFacts)
    ensures
        service_directory_violation(Some(opened), roots, uid) is None <==> {
            &&& opened.facts is Some
            &&& opened.facts->0.is_dir
            &&& opened.facts->0.identity.owner == uid
            &&& opened.facts->0.identity.mode & 0o022u32 == 0
            &&& forall|i: int|
                0 <= i < roots.len() ==> !is_within(opened.canonical_path@, #[trigger] roots[i])
        },
        service_directory_violation(None, roots, uid) is Some,
        is_private_file(facts, uid) <==> facts.is_file && facts.identity.owner == uid
            && facts.identity.mode & 0o077u32 == 0,
{
    let mode = facts.identity.mode;
    assert(mode & 0o077u32 == 0 ==> mode & 0o022u32 == 0) by (bit_vector);
}

/// The rules of a policy are accepted exactly where those of every project are:
/// each name is one of a variable, and each agent that is enrolled can be
/// anchored.
pub proof fn lemma_rules_are_accepted(
    raw: Seq<RawProjectPolicy>,
    custom: Seq<Option<Opened>>,
    roots: Seq<Seq<char>>,
    uid: u32,
)
    requires
        raw.len() == custom.len(),
    ensures
        projects_violation(raw, custom, roots, uid) is None <==> forall|i: int|
            0 <= i < raw.len() ==> all_names(
                string_views((#[trigger] raw[i]).agent_environment_allow@),
            ) && all_names(string_views(raw[i].task_environment_allow@)) && (
            raw[i].custom_agent is Some ==> opened_violation(custom[i], roots, uid) is None),
    decreases raw.len(),
{
    if raw.len() > 0 {
        let n = raw.len() - 1;
        lemma_rules_are_accepted(raw.drop_last(), custom.drop_last(), roots, uid);
        assert(raw[n] == raw.last());
        assert(custom[n] == custom.last());
        assert forall|i: int| 0 <= i < n implies (#[trigger] raw.drop_last()[i]) == raw[i]
            && custom.drop_last()[i] == custom[i] by {
        }
        assert forall|i: int| 0 <= i < n implies (#[trigger] raw[i]) == raw.drop_last()[i] by {
        }
    }
}

/// A policy is resolved exactly where its search path is safe, its programs and
/// the configuration of the queue can be anchored, its word on the network is
/// known and its rules are accepted.
pub proof fn lemma_policy_is_resolved(
    raw: RawPolicy,
    facts: ResolutionFacts,
    roots: Seq<Seq<char>>,
    uid: u32,
)
    ensures
        resolution_violation(raw, facts, roots, uid) is None <==> {
            &&& forall|i: int|
                0 <= i < facts.trusted@.len() ==> (#[trigger] facts.trusted@[i]) is Some
                    && !is_bad_directory(facts.trusted@[i]->0, roots, uid)
            &&& opened_violation(program_found(raw.codex@, facts.codex), roots, uid) is None
            &&& opened_violation(program_found(raw.pueue@, facts.pueue), roots, uid) is None
            &&& opened_violation(facts.launcher, roots, uid) is None
            &&& config_violation(facts.pueue_config, roots, uid) is None
            &&& network_of(optional_text(raw.network)) is Some
            &&& projects_violation(raw.projects@, facts.custom_agents@, roots, uid) is None
        },
{
}

/// A resolved policy carries what was anchored, under the names of the policy
/// that was read, and enrols an agent exactly where that policy does.
pub proof fn lemma_resolved_policy(
    policy: ResolvedExecutionPolicy,
    raw: RawPolicy,
    facts: ResolutionFacts,
    roots: Seq<Seq<char>>,
    environment: StartupEnvironment,
    codex_home: Seq<char>,
    i: int,
)
    requires
        is_resolution(policy, raw, facts, roots, environment, codex_home),
    ensures
        policy.startup_environment == environment,
        policy.codex_home@ == codex_home,
        string_views(policy.project_roots@) == roots,
        policy.launcher_anchor.canonical_path@ == facts.launcher->0.canonical_path@,
        policy.pueue_config_anchor.canonical_path@ == facts.pueue_config->0.canonical_path@,
        raw.network is None ==> policy.default_network is Enabled,
        optional_text(raw.network) == Some("disabled"@) ==> policy.default_network is Disabled,
        policy.trusted_path@.len() == facts.trusted@.len(),
        policy.projects@.len() == raw.projects@.len(),
        0 <= i < policy.trusted_path@.len() ==> policy.trusted_path@[i]@
            == facts.trusted@[i]->0.canonical_path@,
        0 <= i < policy.projects@.len() ==> {
            let rules = policy.projects@[i];
            &&& rules.project_id@ == raw.projects@[i].project_id@
            &&& rules.custom_agent is Some <==> raw.projects@[i].custom_agent is Some
            &&& rules.custom_agent matches Some(anchor) ==> anchor.canonical_path@
                == facts.custom_agents@[i]->0.canonical_path@
            &&& forall|t: Seq<char>| #[trigger]
                string_views(rules.agent_environment_allow@).contains(t) <==> string_views(
                    raw.projects@[i].agent_environment_allow@,
                ).contains(t)
            &&& forall|t: Seq<char>| #[trigger]
                string_views(rules.task_environment_allow@).contains(t) <==> string_views(
                    raw.projects@[i].task_environment_allow@,
                ).contains(t)
        },
{
    lemma_network_words("disabled"@);
    if 0 <= i < policy.projects@.len() {
        assert(is_ruling(policy.projects@[i], raw.projects@[i], facts.custom_agents@[i]));
    }
    if 0 <= i < policy.trusted_path@.len() {
        assert(policy.trusted_path@[i]@ == facts.trusted@[i]->0.canonical_path@);
    }
}

/// A program is found by its absolute path as it was opened, by its name in the
/// first directory that holds it, and not at all by anything else.
pub proof fn lemma_how_programs_are_found(program: Seq<char>, facts: ProgramFacts)
    ensures
        program.len() == 0 || program.contains('\0') ==> program_found(program, facts) is None,
        program.len() > 0 && !program.contains('\0') && program[0] == '/' ==> program_found(
            program,
            facts,
        ) == facts.opened,
        program.len() > 0 && !program.contains('\0') && program[0] != '/' && (
        crate::fspath::components(program).len() != 1 || has_dots(program)) ==> program_found(
            program,
            facts,
        ) is None,
        program.len() > 0 && !program.contains('\0') && program[0] != '/'
            && crate::fspath::components(program).len() == 1 && !has_dots(program)
            ==> program_found(program, facts) == lookup_outcome(facts.children@),
{
}

/// An empty entry is one where nothing stands between two colons, before the
/// first or behind the last; an empty search path is one too.
pub proof fn lemma_empty_entries(first: Seq<u8>, rest: Seq<u8>)
    requires
        !first.contains(58u8),
    ensures
        has_empty_entry(first) <==> first.len() == 0,
        has_empty_entry(first + seq![58u8] + rest) <==> first.len() == 0 || has_empty_entry(rest),
{
    lemma_search_path_is_parted(first, rest);
    let all = first + seq![58u8] + rest;
    let entries = path_entries(rest);
    assert(path_entries(first)[0] == first);
    assert(path_entries(all)[0] == first);
    assert forall|i: int| 0 <= i < entries.len() implies (#[trigger] path_entries(all)[i + 1])
        == entries[i] by {
    }
    if has_empty_entry(rest) {
        let i = choose|i: int| 0 <= i < entries.len() && (#[trigger] entries[i]).len() == 0;
        assert(path_entries(all)[i + 1].len() == 0);
    }
    if has_empty_entry(all) && first.len() > 0 {
        let i = choose|i: int|
            0 <= i < path_entries(all).len() && (#[trigger] path_entries(all)[i]).len() == 0;
        assert(entries[i - 1].len() == 0);
    }
}

/// The names that are kept are the names that were given, each once and in order.
pub proof fn lemma_names_are_kept_once(set: Seq<Seq<char>>, texts: Seq<Seq<char>>, i: int, j: int)
    requires
        is_set_of(set, texts),
        0 <= i < j < set.len(),
    ensures
        text_less(set[i], set[j]),
        set[i] != set[j],
        texts.contains(set[i]),
        forall|k: int| 0 <= k < texts.len() ==> set.contains(#[trigger] texts[k]),
{
    assert(text_less(set[i], set[j]));
    crate::text::lemma_text_less_irreflexive(set[i]);
    assert(set.contains(set[i]));
    assert forall|k: int| 0 <= k < texts.len() implies set.contains(#[trigger] texts[k]) by {
        assert(texts.contains(texts[k]));
    }
}

} // verus!
