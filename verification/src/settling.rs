//! What is done when a task has come to its end, one thing after the other.
//!
//! A request to kill the task is confirmed first, since it decides which event
//! the end gives rise to. An experiment that the task ran takes over its
//! outcome, and its result is read, before the event is stored; a decision about
//! it is asked for after that. The incidents of the task are settled last.

use vstd::prelude::*;

verus! {

/// What is done next.
#[derive(Debug, Clone, Copy, PartialEq, Eq, Structural)]
pub enum SettleStage {
    /// Was the task to be killed?
    FindKill,
    /// Confirm that it was.
    ConfirmKill,
    /// Which experiment did the task run?
    FindExperiment,
    /// The experiment takes over the outcome of the task.
    ProjectOutcome,
    /// Does the campaign of the experiment have an objective?
    FindObjective,
    /// Read the result of the experiment.
    IngestResult,
    /// Store the event of the end.
    StoreEvent,
    /// Ask for a decision about the experiment.
    PublishDecision,
    SettleIncidents,
}

/// What came of it.
#[derive(Debug, Clone, Copy, PartialEq, Eq, Structural)]
pub enum SettleReply {
    Done,
    Found,
    Absent,
    /// It failed, which ends the whole pass.
    Broken,
}

/// What follows.
#[derive(Debug, Clone, Copy, PartialEq, Eq, Structural)]
pub enum SettleMove {
    Next(SettleStage),
    /// The end of the task is taken care of.
    Settled,
    /// The pass ends with the error of the reply.
    Abort,
}

/// What is known of the task: whether it ran an experiment.
#[derive(Debug, Clone, Copy, PartialEq, Eq, Structural)]
pub struct Settling {
    pub experiment: bool,
}

pub open spec fn is_lookup(stage: SettleStage) -> bool {
    stage is FindKill || stage is FindExperiment || stage is FindObjective
}

/// The replies that a stage can get.
pub open spec fn is_settle_reply(stage: SettleStage, reply: SettleReply) -> bool {
    reply is Broken || (if is_lookup(stage) {
        reply is Found || reply is Absent
    } else {
        reply is Done
    })
}

/// What is known of the task after a reply.
pub open spec fn known_after(s: Settling, stage: SettleStage, reply: SettleReply) -> Settling {
    if stage is FindExperiment {
        Settling { experiment: reply is Found }
    } else {
        s
    }
}

/// The stage behind one that went well.
pub open spec fn stage_after(s: Settling, stage: SettleStage, reply: SettleReply) -> SettleMove {
    match stage {
        SettleStage::FindKill => SettleMove::Next(
            if reply is Found {
                SettleStage::ConfirmKill
            } else {
                SettleStage::FindExperiment
            },
        ),
        SettleStage::ConfirmKill => SettleMove::Next(SettleStage::FindExperiment),
        SettleStage::FindExperiment => SettleMove::Next(
            if reply is Found {
                SettleStage::ProjectOutcome
            } else {
                SettleStage::StoreEvent
            },
        ),
        SettleStage::ProjectOutcome => SettleMove::Next(SettleStage::FindObjective),
        SettleStage::FindObjective => SettleMove::Next(
            if reply is Found {
                SettleStage::IngestResult
            } else {
                SettleStage::StoreEvent
            },
        ),
        SettleStage::IngestResult => SettleMove::Next(SettleStage::StoreEvent),
        SettleStage::StoreEvent => SettleMove::Next(
            if s.experiment {
                SettleStage::PublishDecision
            } else {
                SettleStage::SettleIncidents
            },
        ),
        SettleStage::PublishDecision => SettleMove::Next(SettleStage::SettleIncidents),
        SettleStage::SettleIncidents => SettleMove::Settled,
    }
}

/// The step that follows a reply.
pub open spec fn settle_next(s: Settling, stage: SettleStage, reply: SettleReply) -> SettleMove {
    if reply is Broken {
        SettleMove::Abort
    } else {
        stage_after(s, stage, reply)
    }
}

impl Settling {
    /// Nothing is known yet.
    pub fn begin() -> (start: (Self, SettleStage))
        ensures
            start == (Settling { experiment: false }, SettleStage::FindKill),
    {
        (Settling { experiment: false }, SettleStage::FindKill)
    }

    /// A stage can be answered in this way.
    pub fn takes(self, stage: SettleStage, reply: SettleReply) -> (yes: bool)
        ensures
            yes == is_settle_reply(stage, reply),
    {
        match reply {
            SettleReply::Broken => true,
            SettleReply::Done => !matches!(
                stage,
                SettleStage::FindKill | SettleStage::FindExperiment | SettleStage::FindObjective
            ),
            _ => matches!(
                stage,
                SettleStage::FindKill | SettleStage::FindExperiment | SettleStage::FindObjective
            ),
        }
    }

    /// The step that follows a reply.
    pub fn step(&mut self, stage: SettleStage, reply: SettleReply) -> (next: SettleMove)
        requires
            is_settle_reply(stage, reply),
        ensures
            next == settle_next(*old(self), stage, reply),
            *final(self) == known_after(*old(self), stage, reply),
    {
        let found = matches!(reply, SettleReply::Found);
        if matches!(stage, SettleStage::FindExperiment) {
            self.experiment = found;
        }
        if matches!(reply, SettleReply::Broken) {
            return SettleMove::Abort;
        }
        match stage {
            SettleStage::FindKill => if found {
                SettleMove::Next(SettleStage::ConfirmKill)
            } else {
                SettleMove::Next(SettleStage::FindExperiment)
            },
            SettleStage::ConfirmKill => SettleMove::Next(SettleStage::FindExperiment),
            SettleStage::FindExperiment => if found {
                SettleMove::Next(SettleStage::ProjectOutcome)
            } else {
                SettleMove::Next(SettleStage::StoreEvent)
            },
            SettleStage::ProjectOutcome => SettleMove::Next(SettleStage::FindObjective),
            SettleStage::FindObjective => if found {
                SettleMove::Next(SettleStage::IngestResult)
            } else {
                SettleMove::Next(SettleStage::StoreEvent)
            },
            SettleStage::IngestResult => SettleMove::Next(SettleStage::StoreEvent),
            SettleStage::StoreEvent => if self.experiment {
                SettleMove::Next(SettleStage::PublishDecision)
            } else {
                SettleMove::Next(SettleStage::SettleIncidents)
            },
            SettleStage::PublishDecision => SettleMove::Next(SettleStage::SettleIncidents),
            SettleStage::SettleIncidents => SettleMove::Settled,
        }
    }
}

/// How far the work is.
pub open spec fn settle_rank(stage: SettleStage) -> int {
    match stage {
        SettleStage::FindKill => 0,
        SettleStage::ConfirmKill => 1,
        SettleStage::FindExperiment => 2,
        SettleStage::ProjectOutcome => 3,
        SettleStage::FindObjective => 4,
        SettleStage::IngestResult => 5,
        SettleStage::StoreEvent => 6,
        SettleStage::PublishDecision => 7,
        SettleStage::SettleIncidents => 8,
    }
}

/// What is known fits the stage: everything between the experiment and its event
/// is done for an experiment only.
pub open spec fn fits_stage(s: Settling, stage: SettleStage) -> bool {
    match stage {
        SettleStage::ProjectOutcome | SettleStage::FindObjective | SettleStage::IngestResult
        | SettleStage::PublishDecision => s.experiment,
        _ => true,
    }
}

/// The work goes forward: no stage is come to again, and what is known fits each
/// stage.
pub proof fn lemma_settling_goes_forward(s: Settling, stage: SettleStage, reply: SettleReply)
    requires
        is_settle_reply(stage, reply),
        fits_stage(s, stage),
    ensures
        settle_next(s, stage, reply) matches SettleMove::Next(next) ==> settle_rank(next)
            > settle_rank(stage) && fits_stage(known_after(s, stage, reply), next),
{
}

/// The event of the end is stored before anything that builds on it, whatever
/// came back before, unless the pass ends: neither a decision nor the settling of
/// the incidents is come to from another side.
pub proof fn lemma_event_comes_first(s: Settling, stage: SettleStage, reply: SettleReply)
    requires
        is_settle_reply(stage, reply),
        settle_rank(stage) < settle_rank(SettleStage::StoreEvent),
    ensures
        match settle_next(s, stage, reply) {
            SettleMove::Next(next) => settle_rank(next) <= settle_rank(SettleStage::StoreEvent),
            SettleMove::Settled => false,
            SettleMove::Abort => reply is Broken,
        },
{
}

/// A decision is asked for exactly when the task ran an experiment and its event
/// is stored.
pub proof fn lemma_decision_needs_an_experiment(
    s: Settling,
    stage: SettleStage,
    reply: SettleReply,
)
    requires
        is_settle_reply(stage, reply),
    ensures
        settle_next(s, stage, reply) == SettleMove::Next(SettleStage::PublishDecision) <==> (
        stage is StoreEvent && reply is Done && s.experiment),
{
}

/// Which step follows: a kill is confirmed where one was asked for, the outcome
/// goes to the experiment where there is one, a result is read where there is an
/// objective, and the incidents come last.
pub proof fn lemma_each_step_has_its_reason(s: Settling, stage: SettleStage, reply: SettleReply)
    requires
        is_settle_reply(stage, reply),
    ensures
        ({
            let next = settle_next(s, stage, reply);
            &&& next is Abort <==> reply is Broken
            &&& next is Settled <==> stage is SettleIncidents && reply is Done
            &&& next == SettleMove::Next(SettleStage::ConfirmKill) <==> stage is FindKill
                && reply is Found
            &&& next == SettleMove::Next(SettleStage::FindExperiment) <==> (stage is FindKill
                && reply is Absent) || (stage is ConfirmKill && reply is Done)
            &&& next == SettleMove::Next(SettleStage::ProjectOutcome) <==> stage is FindExperiment
                && reply is Found
            &&& next == SettleMove::Next(SettleStage::FindObjective) <==> stage is ProjectOutcome
                && reply is Done
            &&& next == SettleMove::Next(SettleStage::IngestResult) <==> stage is FindObjective
                && reply is Found
            &&& next == SettleMove::Next(SettleStage::StoreEvent) <==> ((stage is FindExperiment
                || stage is FindObjective) && reply is Absent) || (stage is IngestResult
                && reply is Done)
            &&& next == SettleMove::Next(SettleStage::SettleIncidents) <==> reply is Done && ((
            stage is StoreEvent && !s.experiment) || stage is PublishDecision)
            &&& known_after(s, stage, reply).experiment == (if stage is FindExperiment {
                reply is Found
            } else {
                s.experiment
            })
        }),
{
}

/// A question is answered with a finding or without one; everything else is
/// done, and everything can break.
pub proof fn lemma_replies_fit_the_step(stage: SettleStage)
    ensures
        is_settle_reply(stage, SettleReply::Broken),
        is_settle_reply(stage, SettleReply::Done) <==> !(stage is FindKill || stage
            is FindExperiment || stage is FindObjective),
        is_settle_reply(stage, SettleReply::Found) <==> (stage is FindKill || stage
            is FindExperiment || stage is FindObjective),
        is_settle_reply(stage, SettleReply::Absent) <==> (stage is FindKill || stage
            is FindExperiment || stage is FindObjective),
{
}

} // verus!
