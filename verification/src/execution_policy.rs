//! The execution policy of the service: what may be run, from where, with which
//! environment, and why a start is refused.
//!
//! A refusal carries a code, a stage and a fixed reason only: no path, no
//! environment value and no command line can get into its text.

use vstd::prelude::*;
use vstd::string::*;

pub use crate::environment::{StartupEnvironment, Variable};
pub use crate::policy_load::{
    resolve_policy, resolve_project_policy, AgentKind, NetworkMode, ResolvedExecutionPolicy,
    ResolvedProjectExecutionPolicy,
};
pub use crate::trust::{ExecutableAnchor, ProjectRootAnchor, PueueConfigAnchor};

verus! {

/// Why the policy refuses.
#[derive(Debug, Clone, Copy, PartialEq, Eq, Structural)]
pub enum PolicyViolationCode {
    PolicyMissing,
    PolicyUnreadable,
    PolicyWeakPermissions,
    PolicyUnknownField,
    TrustedPathUnsafe,
    AnchorMissing,
    AnchorReplaced,
    CustomAgentNotEnrolled,
    ProjectRootExecutable,
    UnsafeCodexArgument,
    NetworkOverride,
    EnvironmentName,
    SessionMissing,
    SessionNotOwned,
    RootChanged,
    LogUnsafe,
    TempUnsafe,
    SetSidFailed,
    NativeGateFailed,
    UnsupportedPlatform,
}

impl PolicyViolationCode {
    /// The text that stands for the variant.
    pub open spec fn label(self) -> Seq<char> {
        match self {
            PolicyViolationCode::PolicyMissing => "policy_missing"@,
            PolicyViolationCode::PolicyUnreadable => "policy_unreadable"@,
            PolicyViolationCode::PolicyWeakPermissions => "policy_weak_permissions"@,
            PolicyViolationCode::PolicyUnknownField => "policy_unknown_field"@,
            PolicyViolationCode::TrustedPathUnsafe => "trusted_path_unsafe"@,
            PolicyViolationCode::AnchorMissing => "anchor_missing"@,
            PolicyViolationCode::AnchorReplaced => "anchor_replaced"@,
            PolicyViolationCode::CustomAgentNotEnrolled => "custom_agent_not_enrolled"@,
            PolicyViolationCode::ProjectRootExecutable => "project_root_executable"@,
            PolicyViolationCode::UnsafeCodexArgument => "unsafe_codex_argument"@,
            PolicyViolationCode::NetworkOverride => "network_override"@,
            PolicyViolationCode::EnvironmentName => "environment_name"@,
            PolicyViolationCode::SessionMissing => "session_missing"@,
            PolicyViolationCode::SessionNotOwned => "session_not_owned"@,
            PolicyViolationCode::RootChanged => "root_changed"@,
            PolicyViolationCode::LogUnsafe => "agent_log_unsafe"@,
            PolicyViolationCode::TempUnsafe => "temp_unsafe"@,
            PolicyViolationCode::SetSidFailed => "setsid_failed"@,
            PolicyViolationCode::NativeGateFailed => "native_gate_failed"@,
            PolicyViolationCode::UnsupportedPlatform => "unsupported_platform"@,
        }
    }

    pub fn as_str(self) -> (text: &'static str)
        ensures
            text@ == self.label(),
    {
        match self {
            PolicyViolationCode::PolicyMissing => "policy_missing",
            PolicyViolationCode::PolicyUnreadable => "policy_unreadable",
            PolicyViolationCode::PolicyWeakPermissions => "policy_weak_permissions",
            PolicyViolationCode::PolicyUnknownField => "policy_unknown_field",
            PolicyViolationCode::TrustedPathUnsafe => "trusted_path_unsafe",
            PolicyViolationCode::AnchorMissing => "anchor_missing",
            PolicyViolationCode::AnchorReplaced => "anchor_replaced",
            PolicyViolationCode::CustomAgentNotEnrolled => "custom_agent_not_enrolled",
            PolicyViolationCode::ProjectRootExecutable => "project_root_executable",
            PolicyViolationCode::UnsafeCodexArgument => "unsafe_codex_argument",
            PolicyViolationCode::NetworkOverride => "network_override",
            PolicyViolationCode::EnvironmentName => "environment_name",
            PolicyViolationCode::SessionMissing => "session_missing",
            PolicyViolationCode::SessionNotOwned => "session_not_owned",
            PolicyViolationCode::RootChanged => "root_changed",
            PolicyViolationCode::LogUnsafe => "agent_log_unsafe",
            PolicyViolationCode::TempUnsafe => "temp_unsafe",
            PolicyViolationCode::SetSidFailed => "setsid_failed",
            PolicyViolationCode::NativeGateFailed => "native_gate_failed",
            PolicyViolationCode::UnsupportedPlatform => "unsupported_platform",
        }
    }
}

/// Two variants of [`PolicyViolationCode`] never share a text.
pub proof fn lemma_policy_violation_code_labels_differ(a: PolicyViolationCode, b: PolicyViolationCode)
    requires
        a.label() == b.label(),
    ensures
        a == b,
{
    reveal_strlit("policy_missing");
    assert("policy_missing"@.len() == 14 && "policy_missing"@[0] == 'p' && "policy_missing"@[1] == 'o');
    reveal_strlit("policy_unreadable");
    assert("policy_unreadable"@.len() == 17 && "policy_unreadable"@[0] == 'p' && "policy_unreadable"@[1] == 'o');
    reveal_strlit("policy_weak_permissions");
    assert("policy_weak_permissions"@.len() == 23 && "policy_weak_permissions"@[0] == 'p' && "policy_weak_permissions"@[1] == 'o');
    reveal_strlit("policy_unknown_field");
    assert("policy_unknown_field"@.len() == 20 && "policy_unknown_field"@[0] == 'p' && "policy_unknown_field"@[1] == 'o');
    reveal_strlit("trusted_path_unsafe");
    assert("trusted_path_unsafe"@.len() == 19 && "trusted_path_unsafe"@[0] == 't' && "trusted_path_unsafe"@[1] == 'r');
    reveal_strlit("anchor_missing");
    assert("anchor_missing"@.len() == 14 && "anchor_missing"@[0] == 'a' && "anchor_missing"@[1] == 'n');
    reveal_strlit("anchor_replaced");
    assert("anchor_replaced"@.len() == 15 && "anchor_replaced"@[0] == 'a' && "anchor_replaced"@[1] == 'n');
    reveal_strlit("custom_agent_not_enrolled");
    assert("custom_agent_not_enrolled"@.len() == 25 && "custom_agent_not_enrolled"@[0] == 'c' && "custom_agent_not_enrolled"@[1] == 'u');
    reveal_strlit("project_root_executable");
    assert("project_root_executable"@.len() == 23 && "project_root_executable"@[0] == 'p' && "project_root_executable"@[1] == 'r');
    reveal_strlit("unsafe_codex_argument");
    assert("unsafe_codex_argument"@.len() == 21 && "unsafe_codex_argument"@[0] == 'u' && "unsafe_codex_argument"@[1] == 'n');
    reveal_strlit("network_override");
    assert("network_override"@.len() == 16 && "network_override"@[0] == 'n' && "network_override"@[1] == 'e');
    reveal_strlit("environment_name");
    assert("environment_name"@.len() == 16 && "environment_name"@[0] == 'e' && "environment_name"@[1] == 'n');
    reveal_strlit("session_missing");
    assert("session_missing"@.len() == 15 && "session_missing"@[0] == 's' && "session_missing"@[1] == 'e');
    reveal_strlit("session_not_owned");
    assert("session_not_owned"@.len() == 17 && "session_not_owned"@[0] == 's' && "session_not_owned"@[1] == 'e');
    reveal_strlit("root_changed");
    assert("root_changed"@.len() == 12 && "root_changed"@[0] == 'r' && "root_changed"@[1] == 'o');
    reveal_strlit("agent_log_unsafe");
    assert("agent_log_unsafe"@.len() == 16 && "agent_log_unsafe"@[0] == 'a' && "agent_log_unsafe"@[1] == 'g');
    reveal_strlit("temp_unsafe");
    assert("temp_unsafe"@.len() == 11 && "temp_unsafe"@[0] == 't' && "temp_unsafe"@[1] == 'e');
    reveal_strlit("setsid_failed");
    assert("setsid_failed"@.len() == 13 && "setsid_failed"@[0] == 's' && "setsid_failed"@[1] == 'e');
    reveal_strlit("native_gate_failed");
    assert("native_gate_failed"@.len() == 18 && "native_gate_failed"@[0] == 'n' && "native_gate_failed"@[1] == 'a');
    reveal_strlit("unsupported_platform");
    assert("unsupported_platform"@.len() == 20 && "unsupported_platform"@[0] == 'u' && "unsupported_platform"@[1] == 'n');
}

/// How far a start had come when the policy refused it.
#[derive(Debug, Clone, Copy, PartialEq, Eq, Structural)]
pub enum PolicyViolationStage {
    Startup,
    PreBinding,
    RunBoundPreMarker,
    NativeGate,
    PostMarker,
    Dispatched,
    Finalized,
}

impl PolicyViolationStage {
    /// The text that stands for the variant.
    pub open spec fn label(self) -> Seq<char> {
        match self {
            PolicyViolationStage::Startup => "startup"@,
            PolicyViolationStage::PreBinding => "pre_binding"@,
            PolicyViolationStage::RunBoundPreMarker => "run_bound_pre_marker"@,
            PolicyViolationStage::NativeGate => "native_gate"@,
            PolicyViolationStage::PostMarker => "post_marker"@,
            PolicyViolationStage::Dispatched => "dispatched"@,
            PolicyViolationStage::Finalized => "finalized"@,
        }
    }

    pub fn as_str(self) -> (text: &'static str)
        ensures
            text@ == self.label(),
    {
        match self {
            PolicyViolationStage::Startup => "startup",
            PolicyViolationStage::PreBinding => "pre_binding",
            PolicyViolationStage::RunBoundPreMarker => "run_bound_pre_marker",
            PolicyViolationStage::NativeGate => "native_gate",
            PolicyViolationStage::PostMarker => "post_marker",
            PolicyViolationStage::Dispatched => "dispatched",
            PolicyViolationStage::Finalized => "finalized",
        }
    }
}

/// Two variants of [`PolicyViolationStage`] never share a text.
pub proof fn lemma_policy_violation_stage_labels_differ(a: PolicyViolationStage, b: PolicyViolationStage)
    requires
        a.label() == b.label(),
    ensures
        a == b,
{
    reveal_strlit("startup");
    assert("startup"@.len() == 7 && "startup"@[0] == 's' && "startup"@[1] == 't');
    reveal_strlit("pre_binding");
    assert("pre_binding"@.len() == 11 && "pre_binding"@[0] == 'p' && "pre_binding"@[1] == 'r');
    reveal_strlit("run_bound_pre_marker");
    assert("run_bound_pre_marker"@.len() == 20 && "run_bound_pre_marker"@[0] == 'r' && "run_bound_pre_marker"@[1] == 'u');
    reveal_strlit("native_gate");
    assert("native_gate"@.len() == 11 && "native_gate"@[0] == 'n' && "native_gate"@[1] == 'a');
    reveal_strlit("post_marker");
    assert("post_marker"@.len() == 11 && "post_marker"@[0] == 'p' && "post_marker"@[1] == 'o');
    reveal_strlit("dispatched");
    assert("dispatched"@.len() == 10 && "dispatched"@[0] == 'd' && "dispatched"@[1] == 'i');
    reveal_strlit("finalized");
    assert("finalized"@.len() == 9 && "finalized"@[0] == 'f' && "finalized"@[1] == 'i');
}

/// The identity of a file: where it is, whose it is, and its permission bits.
#[derive(Clone, Copy, Debug, PartialEq, Eq, Structural)]
pub struct ExecutableIdentity {
    pub device: u64,
    pub inode: u64,
    pub owner: u32,
    pub mode: u32,
}

/// What is wrong with a log file.
#[derive(Clone, Copy, Debug, PartialEq, Eq, Structural)]
pub enum LogUnsafeReason {
    Missing,
    Symlink,
    Directory,
    Device,
    WeakPermissions,
    WrongOwner,
    InvalidContents,
    EmptyPath,
    CurDir,
    ParentTraversal,
    AbsolutePath,
    RootChanged,
}

/// What a refusal says beyond its code.
#[derive(Clone, Copy, Debug, PartialEq, Eq, Structural)]
pub enum PolicyViolationDetail {
    NoDetail,
    LogUnsafe(LogUnsafeReason),
}

/// A refusal by the policy.
#[derive(Clone, Copy, Debug, PartialEq, Eq, Structural)]
pub struct PolicyViolation {
    pub code: PolicyViolationCode,
    pub stage: PolicyViolationStage,
    pub detail: PolicyViolationDetail,
}

impl PolicyViolation {
    pub fn new(code: PolicyViolationCode, stage: PolicyViolationStage) -> (violation: Self)
        ensures
            violation == (PolicyViolation { code, stage, detail: PolicyViolationDetail::NoDetail }),
    {
        PolicyViolation { code, stage, detail: PolicyViolationDetail::NoDetail }
    }

    pub fn with_detail(
        code: PolicyViolationCode,
        stage: PolicyViolationStage,
        detail: PolicyViolationDetail,
    ) -> (violation: Self)
        ensures
            violation == (PolicyViolation { code, stage, detail }),
    {
        PolicyViolation { code, stage, detail }
    }

    /// The text of a refusal: a fixed prefix and the code.
    pub fn text(&self) -> (text: String)
        ensures
            text@ == "policy_blocked:"@ + self.code.label(),
    {
        let mut text = "policy_blocked:".to_owned();
        text.append(self.code.as_str());
        text
    }
}

} // verus!
