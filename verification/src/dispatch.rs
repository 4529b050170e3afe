//! How the claimed events of one project become an agent run, or do not.
//!
//! The work goes through stages. At each stage something outside is asked
//! (a lookup, a lock, a launch), and its reply leads to the next stage or to an
//! ending, which says what becomes of the claimed events.

use vstd::prelude::*;

verus! {

/// What is asked next.
#[derive(Debug, Clone, Copy, PartialEq, Eq, Structural)]
pub enum Stage {
    /// Is an agent of the project running?
    ActiveRun,
    /// Is the project there and ready?
    Project,
    /// Does the live campaign let events through?
    Campaign,
    /// Can the configuration be read?
    Config,
    /// Does the execution policy cover the project?
    Policy,
    /// Could an agent be launched at all?
    LaunchPreflight,
    /// Can the effective limits be read?
    LimitsFile,
    /// Do the limits allow a run?
    Guardrails,
    /// Record a pause.
    ApplyPause,
    /// Record a halt.
    ApplyHalt,
    /// Take the guard of run identifiers.
    RunIdGuard,
    /// Take the admission lock of the project.
    ProjectLock,
    /// Is the project still the same under the lock?
    Refresh,
    /// Does the live campaign let events through under the lock?
    LockedCampaign,
    /// Is an agent running, under the lock?
    LockedActiveRun,
    /// Which run identifiers were ever given?
    HighWater,
    /// Is there room for private temporary files?
    TempSpace,
    /// Which cycle of the campaign is due, and which event asks for it?
    DueCycle,
    /// Does that event still ask for it?
    ReloadEvent,
    /// Defer the other events.
    DeferOthers,
    /// Does the event carry what the decision is about?
    Projection,
    /// Reserve the next attempt of the cycle.
    Attempt,
    /// Build the evidence.
    Evidence,
    /// Store the evidence.
    StoreEvidence,
    /// Reserve the budget of the decision.
    DecisionBudget,
    /// Launch the agent that decides.
    SpawnDecision,
    /// Give back an attempt whose agent was not bound to a run.
    RecoverAttempt { cleanup: bool },
    /// Reserve the messages of the operator and build the prompt.
    Messages,
    /// Could an agent be launched with this prompt?
    PromptPreflight,
    /// Reserve the budget of the campaign.
    CampaignBudget,
    /// Launch the agent.
    Spawn,
}

/// How far a launch had come when it failed.
#[derive(Debug, Clone, Copy, PartialEq, Eq, Structural)]
pub enum SpawnPoint {
    PreBinding,
    RunBound,
}

/// What comes back from outside.
#[derive(Debug, Clone, Copy, PartialEq, Eq, Structural)]
pub enum Reply {
    Yes,
    No,
    /// It is there but may not be used now.
    Unready,
    /// It failed by itself, with an error.
    Failed,
    /// It was refused as not valid.
    Invalid,
    /// A rule of the execution policy stands against it; `temp` where the rule
    /// is the one on temporary files.
    Blocked { temp: bool },
    Pause,
    Halt,
    Busy,
    Wait(i64),
    Deferred,
    /// A launch failed; with `cleanup`, a process is left over, which the report
    /// of the pass keeps.
    SpawnFailed { point: SpawnPoint, upgrade: bool, policy: bool, cleanup: bool },
    /// Asking failed, which ends the whole pass.
    Broken,
}

/// Why events are marked as failed.
#[derive(Debug, Clone, Copy, PartialEq, Eq, Structural)]
pub enum Cause {
    ProjectMissing,
    /// The text of the error of the last reply.
    TheError,
    /// The same, as it is shown.
    ShownError,
    /// The reason for the pause or halt.
    Reason,
}

/// What becomes of the claimed events.
#[derive(Debug, Clone, Copy, PartialEq, Eq, Structural)]
pub enum Disposition {
    /// They stay claimed until their lease runs out.
    Leave,
    /// They were taken care of before.
    Settled,
    /// They belong to a run.
    Bound,
    Defer,
    /// Defer them; a failure to do so is noted and ends nothing.
    DeferIfPossible,
    Fail(Cause),
    DeadLetter,
    /// Retry or give up, as the retry policy says.
    Resolve,
    RetryAt(i64),
    /// Retry the decisions after the lease, defer the others.
    RetryDecisions,
    /// Defer each, or retry it when its own cycle wakes.
    DeferUnready,
}

/// Which error is kept, if none was kept before.
#[derive(Debug, Clone, Copy, PartialEq, Eq, Structural)]
pub enum Note {
    Nothing,
    TheError,
    /// The error of giving back the messages, if there is one.
    ReleaseError,
    /// That one, or else the error of the reply.
    ReleaseErrorElse,
    /// That one, or else the error of deferring.
    ReleaseOrDeferError,
    /// The error of a launch that is not resolved.
    Unresolved,
}

/// How the pass goes on.
#[derive(Debug, Clone, Copy, PartialEq, Eq, Structural)]
pub enum Outcome {
    Next,
    Started,
    Paused,
    Halted,
    /// The pass ends with the error of the reply.
    Abort,
    /// The pass ends because an attempt could not be given back.
    AbortUnrecovered,
}

/// The end of the work on one project, to be carried out in the order of the
/// fields.
#[derive(Debug, Clone, Copy, PartialEq, Eq, Structural)]
pub struct Ending {
    /// Give back the attempt of the cycle.
    pub requeue: bool,
    /// Give back the messages of the operator.
    pub release: bool,
    pub events: Disposition,
    pub note: Note,
    pub outcome: Outcome,
}

/// The next step.
#[derive(Debug, Clone, Copy, PartialEq, Eq, Structural)]
pub enum Move {
    Ask(Stage),
    End(Ending),
}

/// What is known of the batch. The campaign and the leading event can change
/// until the locks are held.
#[derive(Debug, Clone, Copy, PartialEq, Eq, Structural)]
pub struct Dispatch {
    /// The batch is led by the decision of a campaign.
    pub decision: bool,
    /// A campaign is live.
    pub campaign: bool,
    /// The leading event has a mode of its own.
    pub mode: bool,
}

// ---------------------------------------------------------------------------
// Replies
// ---------------------------------------------------------------------------
/// The replies that a stage can get.
pub open spec fn is_reply(d: Dispatch, stage: Stage, reply: Reply) -> bool {
    reply is Broken || match stage {
        Stage::ActiveRun | Stage::LockedActiveRun => reply is Yes || reply is No,
        Stage::Project => reply is Yes || reply is No || reply is Unready,
        Stage::Campaign | Stage::LockedCampaign => reply is Yes || reply is No,
        Stage::Config | Stage::LimitsFile => reply is Yes || reply is Failed,
        Stage::Policy => reply is Yes || reply is Blocked,
        Stage::LaunchPreflight => !d.decision && (reply is Yes || reply is Blocked),
        Stage::Guardrails => reply is Yes || reply is Pause || reply is Halt,
        Stage::ApplyPause | Stage::ApplyHalt => reply is Yes || reply is Busy,
        Stage::RunIdGuard | Stage::ProjectLock => reply is Yes || reply is No || reply is Blocked,
        Stage::Refresh => reply is Yes || reply is No || reply is Invalid,
        Stage::HighWater => reply is Yes,
        Stage::TempSpace => reply is Yes || reply is Blocked,
        Stage::DueCycle => reply is Yes || reply is No || reply is Unready,
        Stage::ReloadEvent => reply is Yes || reply is No,
        Stage::DeferOthers => reply is Yes,
        Stage::Projection => reply is Yes || reply is Failed,
        Stage::Attempt => reply is Yes || reply is No || reply is Invalid,
        Stage::Evidence => reply is Yes || reply is Failed,
        Stage::StoreEvidence => reply is Yes || reply is Invalid || reply is Failed,
        Stage::DecisionBudget => reply is Yes || reply is Wait || reply is Deferred || reply is Failed,
        Stage::SpawnDecision => reply is Yes || reply is SpawnFailed,
        Stage::RecoverAttempt { cleanup: _ } => reply is Yes || reply is No,
        Stage::Messages => reply is Yes || reply is Failed,
        Stage::PromptPreflight => reply is Yes || reply is Blocked,
        Stage::CampaignBudget => reply is Yes || reply is Wait || reply is Deferred,
        Stage::Spawn => reply is Yes || reply is SpawnFailed,
    }
}

// ---------------------------------------------------------------------------
// Endings
// ---------------------------------------------------------------------------
/// An ending after which the pass goes on to the next project.
pub open spec fn end_with(events: Disposition, note: Note) -> Move {
    Move::End(Ending { requeue: false, release: false, events, note, outcome: Outcome::Next })
}

/// The pass ends; the events stay claimed.
pub open spec fn broken() -> Move {
    Move::End(
        Ending {
            requeue: false,
            release: false,
            events: Disposition::Leave,
            note: Note::Nothing,
            outcome: Outcome::Abort,
        },
    )
}

/// A rule of the policy stands against the run: a decision waits for better
/// times, other events are given up.
pub open spec fn blocked(d: Dispatch, noted: bool) -> Move {
    if d.decision {
        end_with(Disposition::Defer, Note::Nothing)
    } else {
        end_with(
            Disposition::DeadLetter,
            if noted {
                Note::TheError
            } else {
                Note::Nothing
            },
        )
    }
}

/// The project was paused or halted: a decision waits, other events fail.
pub open spec fn stopped(d: Dispatch, outcome: Outcome) -> Move {
    Move::End(
        Ending {
            requeue: false,
            release: false,
            events: if d.decision {
                Disposition::Defer
            } else {
                Disposition::Fail(Cause::Reason)
            },
            note: Note::Nothing,
            outcome,
        },
    )
}

/// The attempt of the cycle is given back.
pub open spec fn requeued(events: Disposition, outcome: Outcome) -> Move {
    Move::End(Ending { requeue: true, release: false, events, note: Note::Nothing, outcome })
}

/// The messages of the operator are given back.
pub open spec fn released(events: Disposition, note: Note) -> Move {
    Move::End(Ending { requeue: false, release: true, events, note, outcome: Outcome::Next })
}

pub open spec fn started() -> Move {
    Move::End(
        Ending {
            requeue: false,
            release: false,
            events: Disposition::Bound,
            note: Note::Nothing,
            outcome: Outcome::Started,
        },
    )
}

/// The step that follows a reply, up to the point where the locks are held.
pub open spec fn admission(d: Dispatch, stage: Stage, reply: Reply) -> Move {
    match (stage, reply) {
        (Stage::ActiveRun, Reply::No) => Move::Ask(Stage::Project),
        (Stage::Project, Reply::Yes) => Move::Ask(Stage::Campaign),
        (Stage::Project, Reply::No) => end_with(
            Disposition::Fail(Cause::ProjectMissing),
            Note::Nothing,
        ),
        (Stage::Campaign, Reply::Yes) => Move::Ask(Stage::Config),
        (Stage::Campaign, Reply::No) => end_with(Disposition::Settled, Note::Nothing),
        (Stage::Config, Reply::Yes) => Move::Ask(Stage::Policy),
        (Stage::Config, Reply::Failed) => end_with(
            Disposition::Fail(Cause::TheError),
            Note::TheError,
        ),
        (Stage::Policy, Reply::Yes) => if d.decision {
            Move::Ask(Stage::LimitsFile)
        } else {
            Move::Ask(Stage::LaunchPreflight)
        },
        (Stage::Policy, Reply::Blocked { temp: _ }) => blocked(d, true),
        (Stage::LaunchPreflight, Reply::Yes) => Move::Ask(Stage::LimitsFile),
        (Stage::LaunchPreflight, Reply::Blocked { temp: _ }) => blocked(d, true),
        (Stage::LimitsFile, Reply::Yes) => Move::Ask(Stage::Guardrails),
        (Stage::LimitsFile, Reply::Failed) => end_with(
            Disposition::Fail(Cause::TheError),
            Note::TheError,
        ),
        (Stage::Guardrails, Reply::Yes) => Move::Ask(Stage::RunIdGuard),
        (Stage::Guardrails, Reply::Pause) => Move::Ask(Stage::ApplyPause),
        (Stage::Guardrails, Reply::Halt) => Move::Ask(Stage::ApplyHalt),
        (Stage::ApplyPause, Reply::Yes) => stopped(d, Outcome::Paused),
        (Stage::ApplyHalt, Reply::Yes) => stopped(d, Outcome::Halted),
        (Stage::RunIdGuard, Reply::Yes) => Move::Ask(Stage::ProjectLock),
        (Stage::RunIdGuard, Reply::Blocked { temp: _ }) => blocked(d, true),
        (Stage::ProjectLock, Reply::Yes) => Move::Ask(Stage::Refresh),
        (Stage::ProjectLock, Reply::Blocked { temp }) => blocked(d, !temp),
        // The event is deferred: an agent is running, the project is not ready,
        // or something is held by another.
        _ => end_with(Disposition::Defer, Note::Nothing),
    }
}

/// The step that follows a reply while the locks are held.
pub open spec fn locked(d: Dispatch, stage: Stage, reply: Reply) -> Move {
    match (stage, reply) {
        (Stage::Refresh, Reply::Yes) => Move::Ask(Stage::LockedCampaign),
        (Stage::Refresh, Reply::Invalid) => if d.decision {
            end_with(Disposition::Defer, Note::Nothing)
        } else {
            broken()
        },
        (Stage::LockedCampaign, Reply::Yes) => Move::Ask(Stage::LockedActiveRun),
        (Stage::LockedCampaign, Reply::No) => end_with(Disposition::Settled, Note::Nothing),
        (Stage::LockedActiveRun, Reply::No) => Move::Ask(Stage::HighWater),
        (Stage::HighWater, Reply::Yes) => Move::Ask(Stage::TempSpace),
        (Stage::TempSpace, Reply::Yes) => if d.decision {
            if d.campaign {
                Move::Ask(Stage::DueCycle)
            } else {
                end_with(Disposition::Defer, Note::Nothing)
            }
        } else if d.mode {
            Move::Ask(Stage::Messages)
        } else {
            end_with(Disposition::Defer, Note::Nothing)
        },
        (Stage::TempSpace, Reply::Blocked { temp }) => blocked(d, !temp),
        _ => end_with(Disposition::Defer, Note::Nothing),
    }
}

/// The step that follows a reply in the decision cycle of a campaign.
pub open spec fn deciding(stage: Stage, reply: Reply) -> Move {
    match (stage, reply) {
        (Stage::DueCycle, Reply::Yes) => Move::Ask(Stage::ReloadEvent),
        (Stage::DueCycle, Reply::No) => end_with(Disposition::DeferUnready, Note::Nothing),
        (Stage::DueCycle, _) => end_with(Disposition::RetryDecisions, Note::Nothing),
        (Stage::ReloadEvent, Reply::Yes) => Move::Ask(Stage::DeferOthers),
        (Stage::DeferOthers, _) => Move::Ask(Stage::Projection),
        (Stage::Projection, Reply::Yes) => Move::Ask(Stage::Attempt),
        (Stage::Projection, _) => end_with(Disposition::Fail(Cause::ShownError), Note::TheError),
        (Stage::Attempt, Reply::Yes) => Move::Ask(Stage::Evidence),
        (Stage::Evidence, Reply::Yes) => Move::Ask(Stage::StoreEvidence),
        (Stage::Evidence, _) => requeued(Disposition::Defer, Outcome::Abort),
        (Stage::StoreEvidence, Reply::Yes) => Move::Ask(Stage::DecisionBudget),
        (Stage::StoreEvidence, Reply::Invalid) => requeued(Disposition::Defer, Outcome::Next),
        (Stage::StoreEvidence, _) => requeued(Disposition::Defer, Outcome::Abort),
        (Stage::DecisionBudget, Reply::Yes) => Move::Ask(Stage::SpawnDecision),
        (Stage::DecisionBudget, Reply::Wait(at)) => requeued(
            Disposition::RetryAt(at),
            Outcome::Next,
        ),
        (Stage::DecisionBudget, Reply::Deferred) => requeued(Disposition::Defer, Outcome::Next),
        (Stage::DecisionBudget, _) => requeued(Disposition::Defer, Outcome::Abort),
        (Stage::SpawnDecision, Reply::Yes) => started(),
        (
            Stage::SpawnDecision,
            Reply::SpawnFailed { point: SpawnPoint::PreBinding, upgrade: _, policy: _, cleanup },
        ) => Move::Ask(Stage::RecoverAttempt { cleanup }),
        (Stage::SpawnDecision, _) => end_with(Disposition::Bound, Note::Unresolved),
        (Stage::RecoverAttempt { cleanup: true }, Reply::Yes) => end_with(
            Disposition::Settled,
            Note::Unresolved,
        ),
        (Stage::RecoverAttempt { cleanup: true }, _) => end_with(
            Disposition::Leave,
            Note::Unresolved,
        ),
        (Stage::RecoverAttempt { cleanup: false }, Reply::Yes) => end_with(
            Disposition::Settled,
            Note::Nothing,
        ),
        (Stage::RecoverAttempt { cleanup: false }, _) => Move::End(
            Ending {
                requeue: false,
                release: false,
                events: Disposition::Leave,
                note: Note::Nothing,
                outcome: Outcome::AbortUnrecovered,
            },
        ),
        _ => end_with(Disposition::Defer, Note::Nothing),
    }
}

/// The step that follows a reply on the way to a run by itself.
pub open spec fn launching(d: Dispatch, stage: Stage, reply: Reply) -> Move {
    match (stage, reply) {
        (Stage::Messages, Reply::Yes) => Move::Ask(Stage::PromptPreflight),
        (Stage::Messages, _) => end_with(Disposition::Resolve, Note::TheError),
        (Stage::PromptPreflight, Reply::Yes) => if d.campaign {
            Move::Ask(Stage::CampaignBudget)
        } else {
            Move::Ask(Stage::Spawn)
        },
        (Stage::PromptPreflight, _) => released(Disposition::DeadLetter, Note::ReleaseErrorElse),
        (Stage::CampaignBudget, Reply::Yes) => Move::Ask(Stage::Spawn),
        (Stage::CampaignBudget, Reply::Wait(at)) => released(
            Disposition::RetryAt(at),
            Note::ReleaseError,
        ),
        (Stage::CampaignBudget, _) => released(Disposition::Defer, Note::ReleaseError),
        (Stage::Spawn, Reply::SpawnFailed { point, upgrade, policy, cleanup: _ }) => if upgrade {
            released(Disposition::DeferIfPossible, Note::ReleaseOrDeferError)
        } else if point is RunBound {
            end_with(Disposition::Bound, Note::Unresolved)
        } else if policy {
            released(Disposition::DeadLetter, Note::ReleaseErrorElse)
        } else {
            released(Disposition::Resolve, Note::ReleaseErrorElse)
        },
        _ => started(),
    }
}

/// The part of the work that a stage belongs to.
#[derive(Debug, Clone, Copy, PartialEq, Eq, Structural)]
pub enum Part {
    Admission,
    Locked,
    Deciding,
    Launching,
}

pub open spec fn part_of(stage: Stage) -> Part {
    match stage {
        Stage::ActiveRun | Stage::Project | Stage::Campaign | Stage::Config | Stage::Policy
        | Stage::LaunchPreflight | Stage::LimitsFile | Stage::Guardrails | Stage::ApplyPause
        | Stage::ApplyHalt | Stage::RunIdGuard | Stage::ProjectLock => Part::Admission,
        Stage::Refresh | Stage::LockedCampaign | Stage::LockedActiveRun | Stage::HighWater
        | Stage::TempSpace => Part::Locked,
        Stage::DueCycle | Stage::ReloadEvent | Stage::DeferOthers | Stage::Projection
        | Stage::Attempt | Stage::Evidence | Stage::StoreEvidence | Stage::DecisionBudget
        | Stage::SpawnDecision | Stage::RecoverAttempt { cleanup: _ } => Part::Deciding,
        Stage::Messages | Stage::PromptPreflight | Stage::CampaignBudget | Stage::Spawn =>
            Part::Launching,
    }
}

/// The step that follows a reply.
pub open spec fn next(d: Dispatch, stage: Stage, reply: Reply) -> Move {
    if reply is Broken {
        broken()
    } else {
        match part_of(stage) {
            Part::Admission => admission(d, stage, reply),
            Part::Locked => locked(d, stage, reply),
            Part::Deciding => deciding(stage, reply),
            Part::Launching => launching(d, stage, reply),
        }
    }
}

// ---------------------------------------------------------------------------
// The machine
// ---------------------------------------------------------------------------
fn finish(events: Disposition, note: Note) -> (step: Move)
    ensures
        step == end_with(events, note),
{
    Move::End(Ending { requeue: false, release: false, events, note, outcome: Outcome::Next })
}

fn break_off() -> (step: Move)
    ensures
        step == broken(),
{
    Move::End(
        Ending {
            requeue: false,
            release: false,
            events: Disposition::Leave,
            note: Note::Nothing,
            outcome: Outcome::Abort,
        },
    )
}

fn give_back_attempt(events: Disposition, outcome: Outcome) -> (step: Move)
    ensures
        step == requeued(events, outcome),
{
    Move::End(Ending { requeue: true, release: false, events, note: Note::Nothing, outcome })
}

fn give_back_messages(events: Disposition, note: Note) -> (step: Move)
    ensures
        step == released(events, note),
{
    Move::End(Ending { requeue: false, release: true, events, note, outcome: Outcome::Next })
}

fn launched() -> (step: Move)
    ensures
        step == started(),
{
    Move::End(
        Ending {
            requeue: false,
            release: false,
            events: Disposition::Bound,
            note: Note::Nothing,
            outcome: Outcome::Started,
        },
    )
}

impl Dispatch {
    /// The first question.
    pub fn begin(self) -> (step: Move)
        ensures
            step == Move::Ask(Stage::ActiveRun),
    {
        Move::Ask(Stage::ActiveRun)
    }

    fn block(self, noted: bool) -> (step: Move)
        ensures
            step == blocked(self, noted),
    {
        if self.decision {
            finish(Disposition::Defer, Note::Nothing)
        } else if noted {
            finish(Disposition::DeadLetter, Note::TheError)
        } else {
            finish(Disposition::DeadLetter, Note::Nothing)
        }
    }

    fn stop(self, outcome: Outcome) -> (step: Move)
        ensures
            step == stopped(self, outcome),
    {
        let events = if self.decision {
            Disposition::Defer
        } else {
            Disposition::Fail(Cause::Reason)
        };
        Move::End(
            Ending { requeue: false, release: false, events, note: Note::Nothing, outcome },
        )
    }

    /// The batch as it is under the lock: whether it is led by a decision was
    /// settled before.
    pub fn relocked(self, campaign: bool, mode: bool) -> (dispatch: Self)
        ensures
            dispatch == (Dispatch { decision: self.decision, campaign, mode }),
    {
        Dispatch { decision: self.decision, campaign, mode }
    }

    /// A stage can be answered in this way.
    pub fn takes(self, stage: Stage, reply: Reply) -> (yes: bool)
        ensures
            yes == is_reply(self, stage, reply),
    {
        let yes = matches!(reply, Reply::Yes);
        let no = matches!(reply, Reply::No);
        let unready = matches!(reply, Reply::Unready);
        let failed = matches!(reply, Reply::Failed);
        let invalid = matches!(reply, Reply::Invalid);
        let blocked = matches!(reply, Reply::Blocked { .. });
        let waits = matches!(reply, Reply::Wait(_)) || matches!(reply, Reply::Deferred);
        if matches!(reply, Reply::Broken) {
            return true;
        }
        match stage {
            Stage::ActiveRun | Stage::LockedActiveRun | Stage::Campaign | Stage::LockedCampaign
            | Stage::ReloadEvent | Stage::RecoverAttempt { .. } => yes || no,
            Stage::Project | Stage::DueCycle => yes || no || unready,
            Stage::Config | Stage::LimitsFile | Stage::Projection | Stage::Evidence
            | Stage::Messages => yes || failed,
            Stage::Policy | Stage::TempSpace | Stage::PromptPreflight => yes || blocked,
            Stage::LaunchPreflight => !self.decision && (yes || blocked),
            Stage::Guardrails => yes || matches!(reply, Reply::Pause) || matches!(reply, Reply::Halt),
            Stage::ApplyPause | Stage::ApplyHalt => yes || matches!(reply, Reply::Busy),
            Stage::RunIdGuard | Stage::ProjectLock => yes || no || blocked,
            Stage::Refresh | Stage::Attempt => yes || no || invalid,
            Stage::HighWater | Stage::DeferOthers => yes,
            Stage::StoreEvidence => yes || invalid || failed,
            Stage::DecisionBudget => yes || waits || failed,
            Stage::SpawnDecision | Stage::Spawn => yes || matches!(reply, Reply::SpawnFailed { .. }),
            Stage::CampaignBudget => yes || waits,
        }
    }

    /// The step that follows a reply.
    pub fn step(self, stage: Stage, reply: Reply) -> (step: Move)
        requires
            is_reply(self, stage, reply),
        ensures
            step == next(self, stage, reply),
    {
        match reply {
            Reply::Broken => break_off(),
            _ => match stage {
                Stage::ActiveRun | Stage::Project | Stage::Campaign | Stage::Config | Stage::Policy
                | Stage::LaunchPreflight | Stage::LimitsFile | Stage::Guardrails | Stage::ApplyPause
                | Stage::ApplyHalt | Stage::RunIdGuard | Stage::ProjectLock => self.before_lock(
                    stage,
                    reply,
                ),
                Stage::Refresh | Stage::LockedCampaign | Stage::LockedActiveRun | Stage::HighWater
                | Stage::TempSpace => self.under_lock(stage, reply),
                Stage::Messages | Stage::PromptPreflight | Stage::CampaignBudget | Stage::Spawn =>
                    self.launch(stage, reply),
                _ => self.decide(stage, reply),
            },
        }
    }

    fn before_lock(self, stage: Stage, reply: Reply) -> (step: Move)
        ensures
            step == admission(self, stage, reply),
    {
        match (stage, reply) {
            (Stage::ActiveRun, Reply::No) => Move::Ask(Stage::Project),
            (Stage::Project, Reply::Yes) => Move::Ask(Stage::Campaign),
            (Stage::Project, Reply::No) => finish(
                Disposition::Fail(Cause::ProjectMissing),
                Note::Nothing,
            ),
            (Stage::Campaign, Reply::Yes) => Move::Ask(Stage::Config),
            (Stage::Campaign, Reply::No) => finish(Disposition::Settled, Note::Nothing),
            (Stage::Config, Reply::Yes) => Move::Ask(Stage::Policy),
            (Stage::Config, Reply::Failed) => finish(
                Disposition::Fail(Cause::TheError),
                Note::TheError,
            ),
            (Stage::Policy, Reply::Yes) => if self.decision {
                Move::Ask(Stage::LimitsFile)
            } else {
                Move::Ask(Stage::LaunchPreflight)
            },
            (Stage::Policy, Reply::Blocked { .. }) => self.block(true),
            (Stage::LaunchPreflight, Reply::Yes) => Move::Ask(Stage::LimitsFile),
            (Stage::LaunchPreflight, Reply::Blocked { .. }) => self.block(true),
            (Stage::LimitsFile, Reply::Yes) => Move::Ask(Stage::Guardrails),
            (Stage::LimitsFile, Reply::Failed) => finish(
                Disposition::Fail(Cause::TheError),
                Note::TheError,
            ),
            (Stage::Guardrails, Reply::Yes) => Move::Ask(Stage::RunIdGuard),
            (Stage::Guardrails, Reply::Pause) => Move::Ask(Stage::ApplyPause),
            (Stage::Guardrails, Reply::Halt) => Move::Ask(Stage::ApplyHalt),
            (Stage::ApplyPause, Reply::Yes) => self.stop(Outcome::Paused),
            (Stage::ApplyHalt, Reply::Yes) => self.stop(Outcome::Halted),
            (Stage::RunIdGuard, Reply::Yes) => Move::Ask(Stage::ProjectLock),
            (Stage::RunIdGuard, Reply::Blocked { .. }) => self.block(true),
            (Stage::ProjectLock, Reply::Yes) => Move::Ask(Stage::Refresh),
            (Stage::ProjectLock, Reply::Blocked { temp }) => self.block(!temp),
            _ => finish(Disposition::Defer, Note::Nothing),
        }
    }

    fn under_lock(self, stage: Stage, reply: Reply) -> (step: Move)
        ensures
            step == locked(self, stage, reply),
    {
        match (stage, reply) {
            (Stage::Refresh, Reply::Yes) => Move::Ask(Stage::LockedCampaign),
            (Stage::Refresh, Reply::Invalid) => if self.decision {
                finish(Disposition::Defer, Note::Nothing)
            } else {
                break_off()
            },
            (Stage::LockedCampaign, Reply::Yes) => Move::Ask(Stage::LockedActiveRun),
            (Stage::LockedCampaign, Reply::No) => finish(Disposition::Settled, Note::Nothing),
            (Stage::LockedActiveRun, Reply::No) => Move::Ask(Stage::HighWater),
            (Stage::HighWater, Reply::Yes) => Move::Ask(Stage::TempSpace),
            (Stage::TempSpace, Reply::Yes) => if self.decision && self.campaign {
                Move::Ask(Stage::DueCycle)
            } else if !self.decision && self.mode {
                Move::Ask(Stage::Messages)
            } else {
                finish(Disposition::Defer, Note::Nothing)
            },
            (Stage::TempSpace, Reply::Blocked { temp }) => self.block(!temp),
            _ => finish(Disposition::Defer, Note::Nothing),
        }
    }

    fn decide(self, stage: Stage, reply: Reply) -> (step: Move)
        ensures
            step == deciding(stage, reply),
    {
        match (stage, reply) {
            (Stage::DueCycle, Reply::Yes) => Move::Ask(Stage::ReloadEvent),
            (Stage::DueCycle, Reply::No) => finish(Disposition::DeferUnready, Note::Nothing),
            (Stage::DueCycle, _) => finish(Disposition::RetryDecisions, Note::Nothing),
            (Stage::ReloadEvent, Reply::Yes) => Move::Ask(Stage::DeferOthers),
            (Stage::DeferOthers, _) => Move::Ask(Stage::Projection),
            (Stage::Projection, Reply::Yes) => Move::Ask(Stage::Attempt),
            (Stage::Projection, _) => finish(Disposition::Fail(Cause::ShownError), Note::TheError),
            (Stage::Attempt, Reply::Yes) => Move::Ask(Stage::Evidence),
            (Stage::Evidence, Reply::Yes) => Move::Ask(Stage::StoreEvidence),
            (Stage::Evidence, _) => give_back_attempt(Disposition::Defer, Outcome::Abort),
            (Stage::StoreEvidence, Reply::Yes) => Move::Ask(Stage::DecisionBudget),
            (Stage::StoreEvidence, Reply::Invalid) => give_back_attempt(
                Disposition::Defer,
                Outcome::Next,
            ),
            (Stage::StoreEvidence, _) => give_back_attempt(Disposition::Defer, Outcome::Abort),
            (Stage::DecisionBudget, Reply::Yes) => Move::Ask(Stage::SpawnDecision),
            (Stage::DecisionBudget, Reply::Wait(at)) => give_back_attempt(
                Disposition::RetryAt(at),
                Outcome::Next,
            ),
            (Stage::DecisionBudget, Reply::Deferred) => give_back_attempt(
                Disposition::Defer,
                Outcome::Next,
            ),
            (Stage::DecisionBudget, _) => give_back_attempt(Disposition::Defer, Outcome::Abort),
            (Stage::SpawnDecision, Reply::Yes) => launched(),
            (
                Stage::SpawnDecision,
                Reply::SpawnFailed { point: SpawnPoint::PreBinding, cleanup, .. },
            ) => Move::Ask(Stage::RecoverAttempt { cleanup }),
            (Stage::SpawnDecision, _) => finish(Disposition::Bound, Note::Unresolved),
            (Stage::RecoverAttempt { cleanup: true }, Reply::Yes) => finish(
                Disposition::Settled,
                Note::Unresolved,
            ),
            (Stage::RecoverAttempt { cleanup: true }, _) => finish(
                Disposition::Leave,
                Note::Unresolved,
            ),
            (Stage::RecoverAttempt { cleanup: false }, Reply::Yes) => finish(
                Disposition::Settled,
                Note::Nothing,
            ),
            (Stage::RecoverAttempt { cleanup: false }, _) => Move::End(
                Ending {
                    requeue: false,
                    release: false,
                    events: Disposition::Leave,
                    note: Note::Nothing,
                    outcome: Outcome::AbortUnrecovered,
                },
            ),
            _ => finish(Disposition::Defer, Note::Nothing),
        }
    }

    fn launch(self, stage: Stage, reply: Reply) -> (step: Move)
        ensures
            step == launching(self, stage, reply),
    {
        match (stage, reply) {
            (Stage::Messages, Reply::Yes) => Move::Ask(Stage::PromptPreflight),
            (Stage::Messages, _) => finish(Disposition::Resolve, Note::TheError),
            (Stage::PromptPreflight, Reply::Yes) => if self.campaign {
                Move::Ask(Stage::CampaignBudget)
            } else {
                Move::Ask(Stage::Spawn)
            },
            (Stage::PromptPreflight, _) => give_back_messages(
                Disposition::DeadLetter,
                Note::ReleaseErrorElse,
            ),
            (Stage::CampaignBudget, Reply::Yes) => Move::Ask(Stage::Spawn),
            (Stage::CampaignBudget, Reply::Wait(at)) => give_back_messages(
                Disposition::RetryAt(at),
                Note::ReleaseError,
            ),
            (Stage::CampaignBudget, _) => give_back_messages(
                Disposition::Defer,
                Note::ReleaseError,
            ),
            (Stage::Spawn, Reply::SpawnFailed { point, upgrade, policy, .. }) => {
                let bound = match point {
                    SpawnPoint::RunBound => true,
                    SpawnPoint::PreBinding => false,
                };
                if upgrade {
                    give_back_messages(Disposition::DeferIfPossible, Note::ReleaseOrDeferError)
                } else if bound {
                    finish(Disposition::Bound, Note::Unresolved)
                } else if policy {
                    give_back_messages(Disposition::DeadLetter, Note::ReleaseErrorElse)
                } else {
                    give_back_messages(Disposition::Resolve, Note::ReleaseErrorElse)
                }
            },
            _ => launched(),
        }
    }
}

// ---------------------------------------------------------------------------
// Laws
// ---------------------------------------------------------------------------
/// How far the work has come.
pub open spec fn rank(stage: Stage) -> int {
    match stage {
        Stage::ActiveRun => 0,
        Stage::Project => 1,
        Stage::Campaign => 2,
        Stage::Config => 3,
        Stage::Policy => 4,
        Stage::LaunchPreflight => 5,
        Stage::LimitsFile => 6,
        Stage::Guardrails => 7,
        Stage::RunIdGuard => 8,
        Stage::ProjectLock => 9,
        Stage::Refresh => 10,
        Stage::LockedCampaign => 11,
        Stage::LockedActiveRun => 12,
        Stage::HighWater => 13,
        Stage::TempSpace => 14,
        Stage::DueCycle | Stage::Messages => 15,
        Stage::ReloadEvent | Stage::PromptPreflight => 16,
        Stage::DeferOthers | Stage::CampaignBudget => 17,
        Stage::Projection | Stage::Spawn => 18,
        Stage::Attempt => 19,
        Stage::Evidence => 20,
        Stage::StoreEvidence => 21,
        Stage::DecisionBudget => 22,
        Stage::SpawnDecision => 23,
        Stage::RecoverAttempt { cleanup: _ } => 24,
        Stage::ApplyPause | Stage::ApplyHalt => 25,
    }
}

/// Every step comes nearer to an ending.
pub proof fn lemma_dispatch_goes_forward(d: Dispatch, stage: Stage, reply: Reply)
    requires
        is_reply(d, stage, reply),
    ensures
        next(d, stage, reply) matches Move::Ask(later) ==> rank(stage) < rank(later) <= 25,
{
}

/// A rule of the policy never costs a decision its event: the event is deferred
/// and no error is noted.
pub proof fn lemma_policy_defers_decisions(d: Dispatch, stage: Stage, temp: bool)
    requires
        d.decision,
        is_reply(d, stage, Reply::Blocked { temp }),
        part_of(stage) is Admission || part_of(stage) is Locked,
    ensures
        next(d, stage, Reply::Blocked { temp }) == end_with(Disposition::Defer, Note::Nothing),
{
}

/// Unless the pass is broken off or a launch is not resolved, no event stays
/// claimed.
pub proof fn lemma_every_ending_settles_the_events(d: Dispatch, stage: Stage, reply: Reply)
    requires
        is_reply(d, stage, reply),
    ensures
        next(d, stage, reply) matches Move::End(ending) ==> (ending.events is Leave ==>
            ending.outcome is Abort || ending.outcome is AbortUnrecovered || ending.note
            is Unresolved),
{
}

/// An attempt that was reserved is given back, unless its agent was launched or
/// the pass broke off.
pub proof fn lemma_reserved_attempt_is_given_back(d: Dispatch, stage: Stage, reply: Reply)
    requires
        is_reply(d, stage, reply),
        stage is Evidence || stage is StoreEvidence || stage is DecisionBudget,
        !(reply is Broken),
    ensures
        next(d, stage, reply) matches Move::End(ending) ==> ending.requeue,
{
}

/// Messages that were reserved are given back, unless an agent has them or the
/// pass broke off.
pub proof fn lemma_reserved_messages_are_given_back(d: Dispatch, stage: Stage, reply: Reply)
    requires
        is_reply(d, stage, reply),
        stage is PromptPreflight || stage is CampaignBudget || stage is Spawn,
        !(reply is Broken),
    ensures
        next(d, stage, reply) matches Move::End(ending) ==> ending.release || ending.events
            is Bound,
{
}

/// A reply, with the batch as it stood when the reply came. The batch is read
/// anew under the lock, so that it may differ from turn to turn.
pub struct Turn {
    pub batch: Dispatch,
    pub reply: Reply,
}

/// The stage after so many turns.
pub open spec fn stage_after(turns: Seq<Turn>) -> Option<Stage>
    decreases turns.len(),
{
    if turns.len() == 0 {
        Some(Stage::ActiveRun)
    } else {
        match stage_after(turns.drop_last()) {
            Some(stage) => match next(turns.last().batch, stage, turns.last().reply) {
                Move::Ask(later) => Some(later),
                Move::End(_) => None,
            },
            None => None,
        }
    }
}

/// Every reply is one that its stage can get.
pub open spec fn are_replies(turns: Seq<Turn>) -> bool
    decreases turns.len(),
{
    turns.len() == 0 || (are_replies(turns.drop_last()) && match stage_after(turns.drop_last()) {
        Some(stage) => is_reply(turns.last().batch, stage, turns.last().reply),
        None => false,
    })
}

/// The stages that every agent run has behind it, with the reply that let it
/// pass.
pub open spec fn permit(stage: Stage) -> Option<Reply> {
    match stage {
        Stage::ActiveRun | Stage::LockedActiveRun => Some(Reply::No),
        Stage::Project | Stage::Campaign | Stage::Config | Stage::Policy | Stage::LimitsFile
        | Stage::Guardrails | Stage::RunIdGuard | Stage::ProjectLock | Stage::Refresh
        | Stage::LockedCampaign | Stage::HighWater | Stage::TempSpace => Some(Reply::Yes),
        _ => None,
    }
}

/// A stage was asked and let the work pass.
pub open spec fn has_passed(turns: Seq<Turn>, stage: Stage) -> bool {
    exists|k: int|
        0 <= k < turns.len() && stage_after(#[trigger] turns.take(k)) == Some(stage)
            && permit(stage) == Some(turns[k].reply)
}

/// Whoever comes past a mandatory stage was let pass by it.
pub proof fn lemma_mandatory_stages_are_passed(turns: Seq<Turn>, stage: Stage)
    requires
        are_replies(turns),
        permit(stage) is Some,
        stage_after(turns) matches Some(now) && rank(now) > rank(stage) && !(now is ApplyPause)
            && !(now is ApplyHalt),
    ensures
        has_passed(turns, stage),
    decreases turns.len(),
{
    if turns.len() > 0 {
        let head = turns.drop_last();
        let before = stage_after(head)->0;
        assert(turns.take(turns.len() - 1) =~= head);
        if before == stage {
            assert(stage_after(turns.take(turns.len() - 1)) == Some(stage));
        } else {
            assert(rank(before) > rank(stage));
            lemma_mandatory_stages_are_passed(head, stage);
            let k = choose|k: int|
                0 <= k < head.len() && stage_after(#[trigger] head.take(k)) == Some(stage)
                    && permit(stage) == Some(head[k].reply);
            assert(turns.take(k) =~= head.take(k));
            assert(turns[k] == head[k]);
        }
    }
}

/// No agent starts unless no other agent was running, the policy, the limits
/// and the space for temporary files allowed it, and both locks were held,
/// whatever the batch was found to be from turn to turn.
pub proof fn lemma_no_agent_starts_unpermitted(turns: Seq<Turn>, stage: Stage)
    requires
        are_replies(turns),
        turns.len() > 0,
        permit(stage) is Some,
        stage_after(turns.drop_last()) matches Some(last) && next(
            turns.last().batch,
            last,
            turns.last().reply,
        ) == started(),
    ensures
        has_passed(turns.drop_last(), stage),
{
    let last = stage_after(turns.drop_last())->0;
    assert(last is Spawn || last is SpawnDecision);
    lemma_mandatory_stages_are_passed(turns.drop_last(), stage);
}

/// When a pass over a batch ends in what: an agent is started exactly where its
/// launch succeeded, a pause and a halt are told exactly where they were
/// recorded, and the pass is broken off only by what failed in asking, by an
/// invalid project of a batch without a decision, or by evidence or budget that
/// failed.
pub proof fn lemma_how_a_pass_ends(d: Dispatch, stage: Stage, reply: Reply)
    requires
        is_reply(d, stage, reply),
    ensures
        ({
            let move_ = next(d, stage, reply);
            let outcome = move_->End_0.outcome;
            &&& (move_ is End && outcome is Started) <==> (stage is SpawnDecision || stage is Spawn)
                && reply is Yes
            &&& (move_ is End && outcome is Paused) <==> stage is ApplyPause && reply is Yes
            &&& (move_ is End && outcome is Halted) <==> stage is ApplyHalt && reply is Yes
            &&& (move_ is End && outcome is AbortUnrecovered) <==> stage == (
            Stage::RecoverAttempt { cleanup: false }) && reply is No
            &&& (move_ is End && outcome is Abort) <==> reply is Broken || (stage is Refresh
                && reply is Invalid && !d.decision) || (reply is Failed && (stage is Evidence
                || stage is StoreEvidence || stage is DecisionBudget))
        }),
{
}

/// Where a pass goes on: the stages follow each other in one order, a batch
/// without a decision is also tried for a launch, and behind the lock the ways
/// of decisions and of other events part.
pub proof fn lemma_where_a_pass_goes_on(d: Dispatch, stage: Stage, reply: Reply)
    requires
        is_reply(d, stage, reply),
    ensures
        next(d, stage, reply) is Ask <==> match stage {
            Stage::ActiveRun | Stage::LockedActiveRun => reply is No,
            Stage::Guardrails => reply is Yes || reply is Pause || reply is Halt,
            Stage::TempSpace => reply is Yes && (if d.decision {
                d.campaign
            } else {
                d.mode
            }),
            Stage::SpawnDecision => reply matches Reply::SpawnFailed {
                point,
                upgrade: _,
                policy: _,
                cleanup: _,
            } && point is PreBinding,
            Stage::ApplyPause | Stage::ApplyHalt | Stage::Spawn => false,
            Stage::RecoverAttempt { cleanup: _ } => false,
            _ => reply is Yes,
        },
        next(d, stage, reply) matches Move::Ask(later) ==> later == match stage {
            Stage::ActiveRun => Stage::Project,
            Stage::Project => Stage::Campaign,
            Stage::Campaign => Stage::Config,
            Stage::Config => Stage::Policy,
            Stage::Policy => if d.decision {
                Stage::LimitsFile
            } else {
                Stage::LaunchPreflight
            },
            Stage::LaunchPreflight => Stage::LimitsFile,
            Stage::LimitsFile => Stage::Guardrails,
            Stage::Guardrails => if reply is Pause {
                Stage::ApplyPause
            } else if reply is Halt {
                Stage::ApplyHalt
            } else {
                Stage::RunIdGuard
            },
            Stage::RunIdGuard => Stage::ProjectLock,
            Stage::ProjectLock => Stage::Refresh,
            Stage::Refresh => Stage::LockedCampaign,
            Stage::LockedCampaign => Stage::LockedActiveRun,
            Stage::LockedActiveRun => Stage::HighWater,
            Stage::HighWater => Stage::TempSpace,
            Stage::TempSpace => if d.decision {
                Stage::DueCycle
            } else {
                Stage::Messages
            },
            Stage::DueCycle => Stage::ReloadEvent,
            Stage::ReloadEvent => Stage::DeferOthers,
            Stage::DeferOthers => Stage::Projection,
            Stage::Projection => Stage::Attempt,
            Stage::Attempt => Stage::Evidence,
            Stage::Evidence => Stage::StoreEvidence,
            Stage::StoreEvidence => Stage::DecisionBudget,
            Stage::DecisionBudget => Stage::SpawnDecision,
            Stage::Messages => Stage::PromptPreflight,
            Stage::PromptPreflight => if d.campaign {
                Stage::CampaignBudget
            } else {
                Stage::Spawn
            },
            Stage::CampaignBudget => Stage::Spawn,
            _ => later,
        },
        stage is SpawnDecision && next(d, stage, reply) is Ask ==> next(d, stage, reply)
            == Move::Ask(Stage::RecoverAttempt { cleanup: reply->cleanup }),
{
}

/// What becomes of the events of a batch where its pass ends: when each fate
/// comes, and only then.
pub proof fn lemma_fate_of_the_events(d: Dispatch, stage: Stage, reply: Reply)
    requires
        is_reply(d, stage, reply),
        next(d, stage, reply) is End,
    ensures
        ({
            let fate = next(d, stage, reply)->End_0.events;
            let before = part_of(stage) is Admission || part_of(stage) is Locked;
            let failed = reply is SpawnFailed;
            &&& fate is Bound <==> ((stage is Spawn || stage is SpawnDecision) && reply is Yes) || (
            failed && reply->point is RunBound && !(stage is Spawn && reply->upgrade))
            &&& fate is DeadLetter <==> (before && reply is Blocked && !d.decision) || (
            stage is PromptPreflight && reply is Blocked) || (stage is Spawn && failed
                && !reply->upgrade && reply->point is PreBinding && reply->policy)
            &&& fate is Resolve <==> (stage is Messages && reply is Failed) || (stage is Spawn
                && failed && !reply->upgrade && reply->point is PreBinding && !reply->policy)
            &&& fate is DeferIfPossible <==> stage is Spawn && failed && reply->upgrade
            &&& fate is RetryAt <==> (stage is DecisionBudget || stage is CampaignBudget)
                && reply is Wait
            &&& fate matches Disposition::RetryAt(at) ==> reply == Reply::Wait(at)
            &&& fate is RetryDecisions <==> stage is DueCycle && reply is Unready
            &&& fate is DeferUnready <==> stage is DueCycle && reply is No
            &&& fate is Settled <==> ((stage is Campaign || stage is LockedCampaign) && reply is No)
                || (stage is RecoverAttempt && reply is Yes)
            &&& fate is Leave <==> next(d, stage, reply)->End_0.outcome is Abort && !(reply
                is Failed) || (stage is RecoverAttempt && reply is No)
            &&& fate == Disposition::Fail(Cause::ProjectMissing) <==> stage is Project && reply is No
            &&& fate == Disposition::Fail(Cause::TheError) <==> (stage is Config || stage
                is LimitsFile) && reply is Failed
            &&& fate == Disposition::Fail(Cause::ShownError) <==> stage is Projection && reply
                is Failed
            &&& fate == Disposition::Fail(Cause::Reason) <==> (stage is ApplyPause || stage
                is ApplyHalt) && reply is Yes && !d.decision
        }),
{
}

/// What is given back where a pass ends: the attempt of a cycle where it was
/// reserved and no agent was tried, and the messages of the operator where they
/// were reserved and no run holds them; and of what is noted, an unresolved
/// launch exactly where one may be left.
pub proof fn lemma_what_is_given_back(d: Dispatch, stage: Stage, reply: Reply)
    requires
        is_reply(d, stage, reply),
        next(d, stage, reply) is End,
    ensures
        ({
            let ending = next(d, stage, reply)->End_0;
            let failed = reply is SpawnFailed;
            &&& ending.requeue <==> !(reply is Broken) && (stage is Evidence || stage
                is StoreEvidence || stage is DecisionBudget)
            &&& ending.release <==> !(reply is Broken) && (stage is PromptPreflight || stage
                is CampaignBudget || (stage is Spawn && failed && (reply->upgrade || reply->point
                is PreBinding)))
            &&& ending.note is Unresolved <==> (failed && reply->point is RunBound && !(stage
                is Spawn && reply->upgrade)) || (stage == (Stage::RecoverAttempt { cleanup: true })
                && !(reply is Broken))
        }),
{
}

/// Which answers a stage takes: every one can break, and a launch is tried in
/// advance only for a batch without a decision.
pub proof fn lemma_which_answers_fit(d: Dispatch, stage: Stage)
    ensures
        is_reply(d, stage, Reply::Broken),
        is_reply(d, stage, Reply::Yes) <==> !(stage is LaunchPreflight && d.decision),
        is_reply(d, stage, Reply::No) <==> stage is ActiveRun || stage is LockedActiveRun || stage
            is Project || stage is Campaign || stage is LockedCampaign || stage is RunIdGuard
            || stage is ProjectLock || stage is Refresh || stage is DueCycle || stage is ReloadEvent
            || stage is Attempt || stage is RecoverAttempt,
        is_reply(d, stage, Reply::Pause) <==> stage is Guardrails,
        is_reply(d, stage, Reply::Halt) <==> stage is Guardrails,
        is_reply(d, stage, Reply::Busy) <==> stage is ApplyPause || stage is ApplyHalt,
        is_reply(d, stage, Reply::Invalid) <==> stage is Refresh || stage is Attempt || stage
            is StoreEvidence,
        is_reply(d, stage, Reply::Failed) <==> stage is Config || stage is LimitsFile || stage
            is Projection || stage is Evidence || stage is StoreEvidence || stage is DecisionBudget
            || stage is Messages,
        is_reply(d, stage, Reply::Unready) <==> stage is Project || stage is DueCycle,
        is_reply(d, stage, Reply::Deferred) <==> stage is DecisionBudget || stage is CampaignBudget,
{
}

} // verus!
