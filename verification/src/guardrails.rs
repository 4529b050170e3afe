//! The limits that a project must stay within before an agent is started.

use vstd::prelude::*;
use vstd::string::*;

use crate::models::Project;
use crate::text::{append_int, append_text, chars_of, decimal, string_of};

verus! {

/// Whether an agent may be started, and what else happens to the project.
#[derive(Debug, Clone, PartialEq, Eq)]
pub enum DispatchDecision {
    Allow,
    Pause(String),
    Halt(String),
}

/// A decision as mathematics.
pub enum Verdict {
    Allow,
    Pause(Seq<char>),
    Halt(Seq<char>),
}

impl View for DispatchDecision {
    type V = Verdict;

    open spec fn view(&self) -> Verdict {
        match self {
            DispatchDecision::Allow => Verdict::Allow,
            DispatchDecision::Pause(reason) => Verdict::Pause(reason@),
            DispatchDecision::Halt(reason) => Verdict::Halt(reason@),
        }
    }
}

/// The limits of a project.
#[derive(Debug, Clone, Copy, PartialEq, Eq, Structural)]
pub struct GuardrailsConfig {
    pub max_agent_runs: i64,
    pub max_experiments: i64,
    pub max_consecutive_failures: i64,
}

/// What the guardrails count next.
#[derive(Debug, PartialEq, Eq)]
pub enum GuardrailStep {
    CountAgentRuns,
    CountExperiments,
    CountConsecutiveFailures { limit: usize },
    Decided(DispatchDecision),
}

/// A project that is to be paused, or halted where there is a reason.
#[derive(Debug, Clone, PartialEq, Eq)]
pub struct LifecycleChange {
    pub project_id: String,
    pub halt_reason: Option<String>,
    pub at: i64,
}

/// The limits at one moment.
#[derive(Debug, Clone, Copy, PartialEq, Eq, Structural)]
pub struct Guardrails {
    pub now: i64,
}

pub open spec fn reached(name: Seq<char>, count: int, limit: int) -> Seq<char> {
    name + " reached: "@ + decimal(count) + "/"@ + decimal(limit)
}

/// What a project's own state says before anything is counted.
pub open spec fn standing(project: Project) -> Verdict {
    match project.halted_reason {
        Some(reason) => Verdict::Halt(reason@),
        None => if project.paused {
            Verdict::Pause("project is paused"@)
        } else {
            Verdict::Allow
        },
    }
}

pub open spec fn run_verdict(config: GuardrailsConfig, agent_runs: int) -> Verdict {
    if agent_runs >= config.max_agent_runs {
        Verdict::Halt(reached("max_agent_runs"@, agent_runs, config.max_agent_runs as int))
    } else {
        Verdict::Allow
    }
}

pub open spec fn experiment_verdict(config: GuardrailsConfig, experiments: int) -> Verdict {
    if experiments >= config.max_experiments {
        Verdict::Pause(reached("max_experiments"@, experiments, config.max_experiments as int))
    } else {
        Verdict::Allow
    }
}

pub open spec fn failure_verdict(config: GuardrailsConfig, failures: int, now: int) -> Verdict {
    if failures >= config.max_consecutive_failures {
        Verdict::Halt(
            reached(
                "max_consecutive_failures"@,
                failures,
                config.max_consecutive_failures as int,
            ) + " at "@ + decimal(now),
        )
    } else {
        Verdict::Allow
    }
}

/// The first of the four verdicts that is not to allow.
pub open spec fn verdict(
    project: Project,
    config: GuardrailsConfig,
    agent_runs: int,
    experiments: int,
    failures: int,
    now: int,
) -> Verdict {
    if !(standing(project) is Allow) {
        standing(project)
    } else if !(run_verdict(config, agent_runs) is Allow) {
        run_verdict(config, agent_runs)
    } else if !(experiment_verdict(config, experiments) is Allow) {
        experiment_verdict(config, experiments)
    } else {
        failure_verdict(config, failures, now)
    }
}

fn reached_text(name: &str, count: i64, limit: i64) -> (line: Vec<char>)
    ensures
        line@ == reached(name@, count as int, limit as int),
{
    let mut line = chars_of(name);
    append_text(&mut line, " reached: ");
    append_int(&mut line, count);
    append_text(&mut line, "/");
    append_int(&mut line, limit);
    line
}

impl Guardrails {
    pub fn new(now: i64) -> (guardrails: Self)
        ensures
            guardrails.now == now,
    {
        Guardrails { now }
    }

    /// Begins the check of a project.
    pub fn begin(&self, project: &Project) -> (step: GuardrailStep)
        ensures
            match step {
                GuardrailStep::Decided(decision) => !(standing(*project) is Allow) && decision@
                    == standing(*project),
                GuardrailStep::CountAgentRuns => standing(*project) is Allow,
                _ => false,
            },
    {
        match &project.halted_reason {
            Some(reason) => GuardrailStep::Decided(DispatchDecision::Halt(reason.clone())),
            None => if project.paused {
                GuardrailStep::Decided(DispatchDecision::Pause("project is paused".to_owned()))
            } else {
                GuardrailStep::CountAgentRuns
            },
        }
    }

    /// Goes on when the agent runs have been counted.
    pub fn agent_runs_counted(&self, config: &GuardrailsConfig, agent_runs: i64) -> (step:
        GuardrailStep)
        ensures
            match step {
                GuardrailStep::Decided(decision) => !(run_verdict(*config, agent_runs as int)
                    is Allow) && decision@ == run_verdict(*config, agent_runs as int),
                GuardrailStep::CountExperiments => run_verdict(*config, agent_runs as int) is Allow,
                _ => false,
            },
    {
        if agent_runs >= config.max_agent_runs {
            let line = reached_text("max_agent_runs", agent_runs, config.max_agent_runs);
            GuardrailStep::Decided(DispatchDecision::Halt(string_of(line.as_slice())))
        } else {
            GuardrailStep::CountExperiments
        }
    }

    /// Goes on when the experiments have been counted. The failures to be
    /// counted are at most as many as can matter; a negative bound wraps round to
    /// a large number.
    pub fn experiments_counted(
        &self,
        config: &GuardrailsConfig,
        experiments: i64,
        event_batch_len: usize,
    ) -> (step: GuardrailStep)
        requires
            (config.max_consecutive_failures as usize) + event_batch_len + 1 <= usize::MAX,
        ensures
            match step {
                GuardrailStep::Decided(decision) => !(experiment_verdict(
                    *config,
                    experiments as int,
                ) is Allow) && decision@ == experiment_verdict(*config, experiments as int),
                GuardrailStep::CountConsecutiveFailures { limit } => experiment_verdict(
                    *config,
                    experiments as int,
                ) is Allow && limit == (config.max_consecutive_failures as usize) + event_batch_len + 1,
                _ => false,
            },
    {
        if experiments >= config.max_experiments {
            let line = reached_text("max_experiments", experiments, config.max_experiments);
            GuardrailStep::Decided(DispatchDecision::Pause(string_of(line.as_slice())))
        } else {
            GuardrailStep::CountConsecutiveFailures {
                limit: config.max_consecutive_failures as usize + event_batch_len + 1,
            }
        }
    }

    /// Decides when the consecutive failures have been counted.
    pub fn failures_counted(&self, config: &GuardrailsConfig, failures: i64) -> (decision:
        DispatchDecision)
        ensures
            decision@ == failure_verdict(*config, failures as int, self.now as int),
    {
        if failures >= config.max_consecutive_failures {
            let mut line = reached_text(
                "max_consecutive_failures",
                failures,
                config.max_consecutive_failures,
            );
            append_text(&mut line, " at ");
            append_int(&mut line, self.now);
            DispatchDecision::Halt(string_of(line.as_slice()))
        } else {
            DispatchDecision::Allow
        }
    }

    /// Decides when everything has been counted.
    pub fn check(
        &self,
        project: &Project,
        config: &GuardrailsConfig,
        agent_runs: i64,
        experiments: i64,
        failures: i64,
    ) -> (decision: DispatchDecision)
        ensures
            decision@ == verdict(
                *project,
                *config,
                agent_runs as int,
                experiments as int,
                failures as int,
                self.now as int,
            ),
    {
        if let GuardrailStep::Decided(decision) = self.begin(project) {
            return decision;
        }
        if let GuardrailStep::Decided(decision) = self.agent_runs_counted(config, agent_runs) {
            return decision;
        }
        if experiments >= config.max_experiments {
            let line = reached_text("max_experiments", experiments, config.max_experiments);
            return DispatchDecision::Pause(string_of(line.as_slice()));
        }
        self.failures_counted(config, failures)
    }

    /// The pause to be recorded for a project.
    pub fn apply_pause(&self, project_id: &str) -> (change: LifecycleChange)
        ensures
            change.project_id@ == project_id@,
            change.halt_reason is None,
            change.at == self.now,
    {
        LifecycleChange { project_id: project_id.to_owned(), halt_reason: None, at: self.now }
    }

    /// The halt to be recorded for a project.
    pub fn apply_halt(&self, project_id: &str, reason: &str) -> (change: LifecycleChange)
        ensures
            change.project_id@ == project_id@,
            change.halt_reason is Some,
            change.halt_reason->0@ == reason@,
            change.at == self.now,
    {
        LifecycleChange {
            project_id: project_id.to_owned(),
            halt_reason: Some(reason.to_owned()),
            at: self.now,
        }
    }
}

/// A project that was paused or halted is not allowed to start an agent,
/// whatever is counted later.
pub proof fn lemma_stopped_project_starts_nothing(
    project: Project,
    config: GuardrailsConfig,
    agent_runs: int,
    experiments: int,
    failures: int,
    now: int,
)
    requires
        project.paused || project.halted_reason is Some,
    ensures
        !(verdict(project, config, agent_runs, experiments, failures, now) is Allow),
{
}

/// An agent is allowed only within all three limits.
pub proof fn lemma_allowed_is_within_limits(
    project: Project,
    config: GuardrailsConfig,
    agent_runs: int,
    experiments: int,
    failures: int,
    now: int,
)
    ensures
        verdict(project, config, agent_runs, experiments, failures, now) is Allow <==> {
            &&& !project.paused
            &&& project.halted_reason is None
            &&& agent_runs < config.max_agent_runs
            &&& experiments < config.max_experiments
            &&& failures < config.max_consecutive_failures
        },
{
}

/// Which limit a verdict speaks of: a halt and a pause of the project come
/// first, then the runs of the agent, then the experiments, then the failures in
/// a row; the first limit that is reached gives the reason.
pub proof fn lemma_first_limit_gives_the_reason(
    project: Project,
    config: GuardrailsConfig,
    agent_runs: int,
    experiments: int,
    failures: int,
    now: int,
)
    ensures
        ({
            let v = verdict(project, config, agent_runs, experiments, failures, now);
            let going = project.halted_reason is None && !project.paused;
            &&& project.halted_reason matches Some(reason) ==> v == Verdict::Halt(reason@)
            &&& project.halted_reason is None && project.paused ==> v == Verdict::Pause(
                "project is paused"@,
            )
            &&& going && agent_runs >= config.max_agent_runs ==> v == Verdict::Halt(
                "max_agent_runs"@ + " reached: "@ + decimal(agent_runs) + "/"@ + decimal(
                    config.max_agent_runs as int,
                ),
            )
            &&& going && agent_runs < config.max_agent_runs && experiments >= config.max_experiments
                ==> v == Verdict::Pause(
                "max_experiments"@ + " reached: "@ + decimal(experiments) + "/"@ + decimal(
                    config.max_experiments as int,
                ),
            )
            &&& going && agent_runs < config.max_agent_runs && experiments < config.max_experiments
                && failures >= config.max_consecutive_failures ==> v == Verdict::Halt(
                "max_consecutive_failures"@ + " reached: "@ + decimal(failures) + "/"@ + decimal(
                    config.max_consecutive_failures as int,
                ) + " at "@ + decimal(now),
            )
        }),
{
}

} // verus!
