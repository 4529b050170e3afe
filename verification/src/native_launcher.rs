//! The release of an agent that was started in a blocked state: a lasting marker
//! is published first, and only then does the agent run.

use vstd::prelude::*;
use vstd::string::*;

use crate::error::AppError;
use crate::execution_policy::{
    PolicyViolation, PolicyViolationCode, PolicyViolationDetail, PolicyViolationStage,
};
use crate::fspath::{absolute, is_absolute, is_within, within};
use crate::logs::is_violation;
use crate::project_logs::GateMarkerIdentity;

verus! {

/// The launch gate failed at a stage.
pub open spec fn gate_failure(stage: PolicyViolationStage) -> PolicyViolation {
    PolicyViolation {
        code: PolicyViolationCode::NativeGateFailed,
        stage,
        detail: PolicyViolationDetail::NoDetail,
    }
}

fn native_gate_error(stage: PolicyViolationStage) -> (error: AppError)
    ensures
        is_violation(error, gate_failure(stage)),
{
    AppError::PolicyViolation {
        violation: PolicyViolation::new(PolicyViolationCode::NativeGateFailed, stage),
    }
}

// ---------------------------------------------------------------------------
// Before the start
// ---------------------------------------------------------------------------
/// Starts agents in a blocked state.
pub struct NativeLauncher;

impl NativeLauncher {
    pub fn new() -> (launcher: Self)
        ensures
            launcher == NativeLauncher,
    {
        NativeLauncher
    }

    /// Accepts a gate for a start: no marker stands there yet.
    pub fn check_gate(found: Option<GateMarkerIdentity>) -> (checked: Result<(), AppError>)
        ensures
            checked is Ok <==> found is None,
            checked matches Err(error) ==> is_violation(
                error,
                gate_failure(PolicyViolationStage::PostMarker),
            ),
    {
        match found {
            None => Ok(()),
            Some(_) => Err(native_gate_error(PolicyViolationStage::PostMarker)),
        }
    }

    /// Accepts the working directory of an agent: an absolute path within the
    /// root of its project.
    pub fn check_working_directory(root: &str, cwd: Option<&str>) -> (checked: Result<(), AppError>)
        ensures
            checked is Ok <==> (cwd matches Some(path) && is_absolute(path@) && is_within(
                path@,
                root@,
            )),
            checked matches Err(error) ==> is_violation(
                error,
                gate_failure(PolicyViolationStage::NativeGate),
            ),
    {
        match cwd {
            Some(path) => if absolute(path) && within(path, root) {
                Ok(())
            } else {
                Err(native_gate_error(PolicyViolationStage::NativeGate))
            },
            None => Err(native_gate_error(PolicyViolationStage::NativeGate)),
        }
    }
}

impl Default for NativeLauncher {
    fn default() -> (launcher: Self)
        ensures
            launcher == NativeLauncher,
    {
        NativeLauncher
    }
}

// ---------------------------------------------------------------------------
// Errors of the launch gate
// ---------------------------------------------------------------------------
/// A refusal before the marker is told as one.
pub open spec fn before_marker(error: AppError) -> AppError {
    match error {
        AppError::PolicyViolation { violation } => AppError::PolicyViolation {
            violation: PolicyViolation {
                stage: PolicyViolationStage::RunBoundPreMarker,
                ..violation
            },
        },
        other => other,
    }
}

pub fn pre_marker_revalidation_error(error: AppError) -> (mapped: AppError)
    ensures
        mapped == before_marker(error),
{
    match error {
        AppError::PolicyViolation { violation } => AppError::PolicyViolation {
            violation: PolicyViolation::with_detail(
                violation.code,
                PolicyViolationStage::RunBoundPreMarker,
                violation.detail,
            ),
        },
        other => other,
    }
}

/// An error after the marker keeps what it says only if it says that it came
/// after the marker.
pub open spec fn is_after_marker(error: AppError) -> bool {
    error matches AppError::PolicyViolation { violation } && violation.stage
        is PostMarker
}

pub fn native_gate_error_with_fallback(error: AppError, stage: PolicyViolationStage) -> (mapped: AppError)
    ensures
        if is_after_marker(error) {
            mapped == error
        } else {
            is_violation(mapped, gate_failure(stage))
        },
{
    match error {
        AppError::PolicyViolation { violation } => {
            if violation.stage == PolicyViolationStage::PostMarker {
                return AppError::PolicyViolation { violation };
            }
        },
        _ => {},
    }
    native_gate_error(stage)
}

/// The error for a marker that could not be published. Only where it is known
/// that there is none, the failure is what it was; else the agent may have been
/// authorized.
pub fn marker_failure_error(
    creation_error: AppError,
    inspection: Result<Option<GateMarkerIdentity>, AppError>,
) -> (mapped: AppError)
    ensures
        if inspection matches Ok(None) {
            mapped == creation_error
        } else {
            is_violation(mapped, gate_failure(PolicyViolationStage::PostMarker))
        },
{
    match inspection {
        Ok(None) => creation_error,
        _ => native_gate_error(PolicyViolationStage::PostMarker),
    }
}

// ---------------------------------------------------------------------------
// Authorization
// ---------------------------------------------------------------------------
/// How far the authorization of an agent is: what comes next.
pub enum AuthorizationStage {
    /// The root, the program and the launch gate are checked once more.
    Revalidate,
    /// The check failed; the marker is looked for.
    InspectUnchecked(AppError),
    Publish,
    /// Publishing failed; the marker is looked for.
    InspectUnpublished(AppError),
    /// The root, the program, the launch gate and the marker are checked.
    RevalidatePublished(GateMarkerIdentity),
    Release,
    /// The agent has to have replaced the launcher.
    ConfirmExec,
    /// The agent has to have taken note of its release.
    AwaitAcknowledgement,
}

/// What came of it.
pub enum AuthorizationReply {
    Done,
    Published(GateMarkerIdentity),
    Inspected(Result<Option<GateMarkerIdentity>, AppError>),
    Failed(AppError),
}

/// What follows.
pub enum AuthorizationMove {
    Next(AuthorizationStage),
    /// The agent is terminated, and the error told.
    Terminate(AppError),
    Authorized,
}

/// A reply that can come at this point.
pub open spec fn reply_fits(stage: AuthorizationStage, reply: AuthorizationReply) -> bool {
    match stage {
        AuthorizationStage::InspectUnchecked(_) => reply is Inspected,
        AuthorizationStage::InspectUnpublished(_) => reply is Inspected,
        AuthorizationStage::Publish => reply is Published || reply is Failed,
        _ => reply is Done || reply is Failed,
    }
}

/// The marker stands, as far as is known.
pub open spec fn has_marker(stage: AuthorizationStage) -> bool {
    stage is RevalidatePublished || stage is Release || stage is ConfirmExec || stage
        is AwaitAcknowledgement
}

/// The agent may run.
pub open spec fn is_released(stage: AuthorizationStage) -> bool {
    stage is ConfirmExec || stage is AwaitAcknowledgement
}

/// The agent is terminated, with an error from after the marker.
pub open spec fn ends_after_marker(next: AuthorizationMove, cause: AppError) -> bool {
    next matches AuthorizationMove::Terminate(error) && if is_after_marker(cause) {
        error == cause
    } else {
        is_violation(error, gate_failure(PolicyViolationStage::PostMarker))
    }
}

/// The move is the one that follows.
pub open spec fn is_authorization_move(
    next: AuthorizationMove,
    stage: AuthorizationStage,
    reply: AuthorizationReply,
) -> bool {
    match (stage, reply) {
        (AuthorizationStage::Revalidate, AuthorizationReply::Failed(error)) => next
            == AuthorizationMove::Next(AuthorizationStage::InspectUnchecked(error)),
        (AuthorizationStage::Revalidate, _) => next == AuthorizationMove::Next(
            AuthorizationStage::Publish,
        ),
        (AuthorizationStage::InspectUnchecked(error), AuthorizationReply::Inspected(found)) => next
            matches AuthorizationMove::Terminate(told) && if found matches Ok(None) {
            told == before_marker(error)
        } else {
            is_violation(told, gate_failure(PolicyViolationStage::PostMarker))
        },
        (AuthorizationStage::Publish, AuthorizationReply::Published(identity)) => next
            == AuthorizationMove::Next(AuthorizationStage::RevalidatePublished(identity)),
        (AuthorizationStage::Publish, AuthorizationReply::Failed(error)) => next
            == AuthorizationMove::Next(AuthorizationStage::InspectUnpublished(error)),
        (AuthorizationStage::InspectUnpublished(error), AuthorizationReply::Inspected(found)) => next
            matches AuthorizationMove::Terminate(told) && if found matches Ok(None) {
            told == error
        } else {
            is_violation(told, gate_failure(PolicyViolationStage::PostMarker))
        },
        (AuthorizationStage::RevalidatePublished(_), AuthorizationReply::Failed(_)) => next
            matches AuthorizationMove::Terminate(told) && is_violation(
            told,
            gate_failure(PolicyViolationStage::PostMarker),
        ),
        (AuthorizationStage::RevalidatePublished(_), _) => next == AuthorizationMove::Next(
            AuthorizationStage::Release,
        ),
        (AuthorizationStage::Release, AuthorizationReply::Failed(error)) => ends_after_marker(
            next,
            error,
        ),
        (AuthorizationStage::Release, _) => next == AuthorizationMove::Next(
            AuthorizationStage::ConfirmExec,
        ),
        (AuthorizationStage::ConfirmExec, AuthorizationReply::Failed(error)) => ends_after_marker(
            next,
            error,
        ),
        (AuthorizationStage::ConfirmExec, _) => next == AuthorizationMove::Next(
            AuthorizationStage::AwaitAcknowledgement,
        ),
        (
            AuthorizationStage::AwaitAcknowledgement,
            AuthorizationReply::Failed(error),
        ) => ends_after_marker(next, error),
        (AuthorizationStage::AwaitAcknowledgement, _) => next == AuthorizationMove::Authorized,
        _ => true,
    }
}

/// What is known of the authorization and the end of an agent.
#[derive(Debug, Clone, Copy, PartialEq, Eq, Structural)]
pub struct AgentGate {
    pub authorization_attempted: bool,
    pub authorization_complete: bool,
    pub termination_completed: bool,
    pub termination_uncertain: bool,
}

impl AgentGate {
    pub fn new() -> (gate: Self)
        ensures
            gate == (AgentGate {
                authorization_attempted: false,
                authorization_complete: false,
                termination_completed: false,
                termination_uncertain: false,
            }),
    {
        AgentGate {
            authorization_attempted: false,
            authorization_complete: false,
            termination_completed: false,
            termination_uncertain: false,
        }
    }

    /// Begins the authorization, which can be tried once.
    pub fn begin_authorization(&mut self) -> (next: AuthorizationMove)
        ensures
            *final(self) == (AgentGate { authorization_attempted: true, ..*old(self) }),
            if old(self).authorization_attempted {
                next matches AuthorizationMove::Terminate(error) && is_violation(
                    error,
                    gate_failure(PolicyViolationStage::PostMarker),
                )
            } else {
                next == AuthorizationMove::Next(AuthorizationStage::Revalidate)
            },
    {
        if self.authorization_attempted {
            return AuthorizationMove::Terminate(
                native_gate_error(PolicyViolationStage::PostMarker),
            );
        }
        self.authorization_attempted = true;
        AuthorizationMove::Next(AuthorizationStage::Revalidate)
    }

    /// Goes on with the authorization.
    pub fn authorize_step(&mut self, stage: AuthorizationStage, reply: AuthorizationReply) -> (next:
        AuthorizationMove)
        requires
            reply_fits(stage, reply),
        ensures
            is_authorization_move(next, stage, reply),
            *final(self) == (AgentGate {
                authorization_complete: old(self).authorization_complete || next is Authorized,
                ..*old(self)
            }),
    {
        match stage {
            AuthorizationStage::Revalidate => match reply {
                AuthorizationReply::Failed(error) => AuthorizationMove::Next(
                    AuthorizationStage::InspectUnchecked(error),
                ),
                _ => AuthorizationMove::Next(AuthorizationStage::Publish),
            },
            AuthorizationStage::InspectUnchecked(error) => match reply {
                AuthorizationReply::Inspected(Ok(None)) => AuthorizationMove::Terminate(
                    pre_marker_revalidation_error(error),
                ),
                _ => AuthorizationMove::Terminate(
                    native_gate_error(PolicyViolationStage::PostMarker),
                ),
            },
            AuthorizationStage::Publish => match reply {
                AuthorizationReply::Published(identity) => AuthorizationMove::Next(
                    AuthorizationStage::RevalidatePublished(identity),
                ),
                AuthorizationReply::Failed(error) => AuthorizationMove::Next(
                    AuthorizationStage::InspectUnpublished(error),
                ),
                _ => AuthorizationMove::Next(AuthorizationStage::Publish),
            },
            AuthorizationStage::InspectUnpublished(error) => match reply {
                AuthorizationReply::Inspected(found) => AuthorizationMove::Terminate(
                    marker_failure_error(error, found),
                ),
                _ => AuthorizationMove::Terminate(
                    native_gate_error(PolicyViolationStage::PostMarker),
                ),
            },
            AuthorizationStage::RevalidatePublished(_) => match reply {
                AuthorizationReply::Failed(_) => AuthorizationMove::Terminate(
                    native_gate_error(PolicyViolationStage::PostMarker),
                ),
                _ => AuthorizationMove::Next(AuthorizationStage::Release),
            },
            AuthorizationStage::Release => match reply {
                AuthorizationReply::Failed(error) => AuthorizationMove::Terminate(
                    native_gate_error_with_fallback(error, PolicyViolationStage::PostMarker),
                ),
                _ => AuthorizationMove::Next(AuthorizationStage::ConfirmExec),
            },
            AuthorizationStage::ConfirmExec => match reply {
                AuthorizationReply::Failed(error) => AuthorizationMove::Terminate(
                    native_gate_error_with_fallback(error, PolicyViolationStage::PostMarker),
                ),
                _ => AuthorizationMove::Next(AuthorizationStage::AwaitAcknowledgement),
            },
            AuthorizationStage::AwaitAcknowledgement => match reply {
                AuthorizationReply::Failed(error) => AuthorizationMove::Terminate(
                    native_gate_error_with_fallback(error, PolicyViolationStage::PostMarker),
                ),
                _ => {
                    self.authorization_complete = true;
                    AuthorizationMove::Authorized
                },
            },
        }
    }

    /// Takes note of an attempt to terminate the agent.
    pub fn note_termination(&mut self, succeeded: bool)
        ensures
            *final(self) == (AgentGate {
                termination_completed: succeeded,
                termination_uncertain: !succeeded,
                ..*old(self)
            }),
    {
        self.termination_completed = succeeded;
        self.termination_uncertain = !succeeded;
    }

    pub fn is_authorized(&self) -> (yes: bool)
        ensures
            yes == self.authorization_complete,
    {
        self.authorization_complete
    }
}

/// What is done about an agent that is waited for.
#[derive(Debug, Clone, Copy, PartialEq, Eq, Structural)]
pub enum WaitStep {
    LookAgain,
    Reap,
    /// The agent belongs to somebody else: its end stays unknown.
    LetGo,
}

/// What was seen of an agent.
#[derive(Debug, Clone, Copy, PartialEq, Eq, Structural)]
pub enum TerminalObservation {
    Running,
    Terminal,
    OwnershipLost,
}

pub fn wait_step(observation: TerminalObservation) -> (step: WaitStep)
    ensures
        step == match observation {
            TerminalObservation::Running => WaitStep::LookAgain,
            TerminalObservation::Terminal => WaitStep::Reap,
            TerminalObservation::OwnershipLost => WaitStep::LetGo,
        },
{
    match observation {
        TerminalObservation::Running => WaitStep::LookAgain,
        TerminalObservation::Terminal => WaitStep::Reap,
        TerminalObservation::OwnershipLost => WaitStep::LetGo,
    }
}

// ---------------------------------------------------------------------------
// Laws
// ---------------------------------------------------------------------------
/// An agent is released only after the marker was published and checked.
pub proof fn lemma_marker_comes_before_release(
    next: AuthorizationMove,
    stage: AuthorizationStage,
    reply: AuthorizationReply,
)
    requires
        reply_fits(stage, reply),
        is_authorization_move(next, stage, reply),
    ensures
        next matches AuthorizationMove::Next(later) && has_marker(later) && !has_marker(stage)
            ==> stage is Publish && reply is Published,
        next matches AuthorizationMove::Next(later) && later is Release ==> stage
            is RevalidatePublished && reply is Done,
        next matches AuthorizationMove::Next(later) && is_released(later) && !is_released(stage)
            ==> stage is Release && reply is Done,
        next is Authorized ==> stage is AwaitAcknowledgement && reply is Done,
        has_marker(stage) ==> (next matches AuthorizationMove::Next(later) ==> has_marker(later)),
{
}

/// Where the marker stands or cannot be ruled out, the error says so; it says
/// otherwise only where a look found no marker.
pub proof fn lemma_failure_is_conservative(
    next: AuthorizationMove,
    stage: AuthorizationStage,
    reply: AuthorizationReply,
)
    requires
        reply_fits(stage, reply),
        is_authorization_move(next, stage, reply),
    ensures
        next matches AuthorizationMove::Terminate(error) ==> is_after_marker(error) || (reply
            matches AuthorizationReply::Inspected(found) && found matches Ok(None)),
{
}

/// How an agent is authorized: it is checked, its marker is published and checked,
/// it is released, it has to start and to take note; each step that succeeds
/// leads to the next, and one that fails ends the agent, before the marker once
/// the marker has been looked for.
pub proof fn lemma_how_an_agent_is_authorized(
    next: AuthorizationMove,
    stage: AuthorizationStage,
    reply: AuthorizationReply,
)
    requires
        reply_fits(stage, reply),
        is_authorization_move(next, stage, reply),
    ensures
        stage is Revalidate && reply is Done ==> next == AuthorizationMove::Next(
            AuthorizationStage::Publish,
        ),
        stage is Publish ==> (reply matches AuthorizationReply::Published(identity) ==> next
            == AuthorizationMove::Next(AuthorizationStage::RevalidatePublished(identity))),
        stage is RevalidatePublished && reply is Done ==> next == AuthorizationMove::Next(
            AuthorizationStage::Release,
        ),
        stage is Release && reply is Done ==> next == AuthorizationMove::Next(
            AuthorizationStage::ConfirmExec,
        ),
        stage is ConfirmExec && reply is Done ==> next == AuthorizationMove::Next(
            AuthorizationStage::AwaitAcknowledgement,
        ),
        stage is AwaitAcknowledgement && reply is Done ==> next is Authorized,
        reply matches AuthorizationReply::Failed(error) ==> {
            &&& stage is Revalidate ==> next == AuthorizationMove::Next(
                AuthorizationStage::InspectUnchecked(error),
            )
            &&& stage is Publish ==> next == AuthorizationMove::Next(
                AuthorizationStage::InspectUnpublished(error),
            )
            &&& has_marker(stage) ==> next is Terminate
        },
        reply is Inspected ==> next is Terminate,
{
}

/// An error before the marker keeps its cause and is told as one of that stage.
pub proof fn lemma_errors_before_the_marker(error: AppError)
    ensures
        error matches AppError::PolicyViolation { violation } ==> (before_marker(error) matches
            AppError::PolicyViolation { violation: told } && told.code == violation.code
            && told.detail == violation.detail && told.stage is RunBoundPreMarker),
        !(error is PolicyViolation) ==> before_marker(error) == error,
        is_after_marker(error) <==> (error matches AppError::PolicyViolation { violation }
            && violation.stage is PostMarker),
{
}

} // verus!
