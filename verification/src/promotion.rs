//! The promotion of experiments: how a completed experiment is compared with the
//! best one of its campaign, and what follows from the comparison.
//!
//! The comparison of the two metric values itself is made by the caller, who
//! has the numbers; everything around it is decided here.

use vstd::prelude::*;
use vstd::string::*;

use crate::error::{invalid, AppError};
use crate::json::{put, text_value, Json, JsonTree, Member};
use crate::models::{is_validation_error, LineageEvent, NewEvent};
use crate::states::{CampaignState, EventKind, EventStatus, ExperimentStatus};
use crate::text::{chars_of, decimal, decimal_chars, same_text, string_of};

verus! {

/// How a completed experiment compares with the best one so far.
#[derive(Debug, Clone, Copy, PartialEq, Eq, Structural)]
pub enum PromotionOutcome {
    Improved,
    BaselineEstablished,
    NotImproved,
    SkippedNoMetric,
    SkippedNoObjective,
}

impl PromotionOutcome {
    /// The text that stands for the variant.
    pub open spec fn label(self) -> Seq<char> {
        match self {
            PromotionOutcome::Improved => "improved"@,
            PromotionOutcome::BaselineEstablished => "baseline_established"@,
            PromotionOutcome::NotImproved => "not_improved"@,
            PromotionOutcome::SkippedNoMetric => "skipped_no_metric"@,
            PromotionOutcome::SkippedNoObjective => "skipped_no_objective"@,
        }
    }

    pub fn as_str(self) -> (text: &'static str)
        ensures
            text@ == self.label(),
    {
        match self {
            PromotionOutcome::Improved => "improved",
            PromotionOutcome::BaselineEstablished => "baseline_established",
            PromotionOutcome::NotImproved => "not_improved",
            PromotionOutcome::SkippedNoMetric => "skipped_no_metric",
            PromotionOutcome::SkippedNoObjective => "skipped_no_objective",
        }
    }
}

/// Two variants of [`PromotionOutcome`] never share a text.
pub proof fn lemma_promotion_outcome_labels_differ(a: PromotionOutcome, b: PromotionOutcome)
    requires
        a.label() == b.label(),
    ensures
        a == b,
{
    reveal_strlit("improved");
    assert("improved"@.len() == 8 && "improved"@[0] == 'i');
    reveal_strlit("baseline_established");
    assert("baseline_established"@.len() == 20 && "baseline_established"@[0] == 'b');
    reveal_strlit("not_improved");
    assert("not_improved"@.len() == 12 && "not_improved"@[0] == 'n');
    reveal_strlit("skipped_no_metric");
    assert("skipped_no_metric"@.len() == 17 && "skipped_no_metric"@[0] == 's');
    reveal_strlit("skipped_no_objective");
    assert("skipped_no_objective"@.len() == 20 && "skipped_no_objective"@[0] == 's');
}
impl PromotionOutcome {
    pub fn from_str(value: &str) -> (parsed: Result<PromotionOutcome, AppError>)
        ensures
            forall|outcome: PromotionOutcome| #[trigger]
                outcome.label() == value@ ==> parsed == Ok::<PromotionOutcome, AppError>(outcome),
            match parsed {
                Ok(outcome) => outcome.label() == value@,
                Err(error) => is_validation_error(error, unknown_outcome()),
            },
    {
        let parsed = if same_text(value, "improved") {
            Ok(PromotionOutcome::Improved)
        } else if same_text(value, "baseline_established") {
            Ok(PromotionOutcome::BaselineEstablished)
        } else if same_text(value, "not_improved") {
            Ok(PromotionOutcome::NotImproved)
        } else if same_text(value, "skipped_no_metric") {
            Ok(PromotionOutcome::SkippedNoMetric)
        } else if same_text(value, "skipped_no_objective") {
            Ok(PromotionOutcome::SkippedNoObjective)
        } else {
            Err(
                invalid("promotion_outcome", "is not a recognized code-change promotion outcome"),
            )
        };
        proof {
            if let Ok(found) = parsed {
                assert forall|outcome: PromotionOutcome| #[trigger]
                    outcome.label() == value@ implies outcome == found by {
                    lemma_promotion_outcome_labels_differ(outcome, found);
                }
            }
        }
        parsed
    }
}

pub open spec fn unknown_outcome() -> (Seq<char>, Seq<char>) {
    ("promotion_outcome"@, "is not a recognized code-change promotion outcome"@)
}

/// The view of an optional text.
pub open spec fn optional_text(text: Option<String>) -> Option<Seq<char>> {
    match text {
        Some(t) => Some(t@),
        None => None,
    }
}

/// Whether an optional text is there and is this one.
pub fn is_text(text: &Option<String>, value: &str) -> (yes: bool)
    ensures
        yes == (optional_text(*text) == Some(value@)),
{
    match text {
        Some(t) => same_text(t.as_str(), value),
        None => false,
    }
}

/// Whether two optional texts are the same.
pub fn same_optional(a: &Option<String>, b: &Option<String>) -> (same: bool)
    ensures
        same == (optional_text(*a) == optional_text(*b)),
{
    match (a, b) {
        (Some(x), Some(y)) => same_text(x.as_str(), y.as_str()),
        (None, None) => true,
        _ => false,
    }
}

/// A copy of an optional text.
pub fn copy_optional(text: &Option<String>) -> (copy: Option<String>)
    ensures
        optional_text(copy) == optional_text(*text),
{
    match text {
        Some(t) => Some(t.clone()),
        None => None,
    }
}

// ---------------------------------------------------------------------------
// Object identifiers
// ---------------------------------------------------------------------------
/// A full object identifier in lower-case hexadecimal.
pub open spec fn is_object_id(s: Seq<char>) -> bool {
    &&& s.len() == 40 || s.len() == 64
    &&& forall|i: int| 0 <= i < s.len() ==> crate::digest::is_hex_char(#[trigger] s[i])
}

pub open spec fn bad_object_id() -> (Seq<char>, Seq<char>) {
    ("code_change.candidate_sha"@, "must be a lowercase full object ID"@)
}

/// Checks a full object identifier.
pub fn validate_code_candidate_sha(value: &str) -> (checked: Result<(), AppError>)
    ensures
        match checked {
            Ok(_) => is_object_id(value@),
            Err(error) => !is_object_id(value@) && is_validation_error(error, bad_object_id()),
        },
{
    let chars = chars_of(value);
    let mut fit = chars.len() == 40 || chars.len() == 64;
    let mut at: usize = 0;
    while at < chars.len() && fit
        invariant
            at <= chars@.len(),
            chars@ == value@,
            fit ==> chars@.len() == 40 || chars@.len() == 64,
            fit ==> forall|i: int|
                0 <= i < at ==> crate::digest::is_hex_char(#[trigger] chars@[i]),
            !fit ==> !is_object_id(value@),
        decreases chars.len() - at,
    {
        let c = chars[at];
        if !(('0' <= c && c <= '9') || ('a' <= c && c <= 'f')) {
            fit = false;
        }
        at = at + 1;
    }
    if fit {
        Ok(())
    } else {
        Err(invalid("code_change.candidate_sha", "must be a lowercase full object ID"))
    }
}

fn validate_optional_code_sha(value: &Option<String>) -> (checked: Result<(), AppError>)
    ensures
        match checked {
            Ok(_) => optional_text(*value) matches Some(t) ==> is_object_id(t),
            Err(error) => is_validation_error(error, bad_object_id()) && (optional_text(
                *value,
            ) matches Some(t) && !is_object_id(t)),
        },
{
    match value {
        Some(text) => validate_code_candidate_sha(text.as_str()),
        None => Ok(()),
    }
}

// ---------------------------------------------------------------------------
// Plans
// ---------------------------------------------------------------------------
/// A comparison that has been made but not yet been acted on.
#[derive(Debug, Clone, PartialEq, Eq)]
pub struct CodePromotionPlan {
    pub outcome: PromotionOutcome,
    pub expected_current_best_experiment_id: Option<String>,
    pub expected_old_sha: Option<String>,
    pub candidate_sha: Option<String>,
    pub campaign_id: String,
    pub experiment_id: String,
}

/// A plan as mathematics.
pub struct Plan {
    pub outcome: PromotionOutcome,
    pub expected_best: Option<Seq<char>>,
    pub expected_old_sha: Option<Seq<char>>,
    pub candidate_sha: Option<Seq<char>>,
    pub campaign_id: Seq<char>,
    pub experiment_id: Seq<char>,
}

impl View for CodePromotionPlan {
    type V = Plan;

    open spec fn view(&self) -> Plan {
        Plan {
            outcome: self.outcome,
            expected_best: optional_text(self.expected_current_best_experiment_id),
            expected_old_sha: optional_text(self.expected_old_sha),
            candidate_sha: optional_text(self.candidate_sha),
            campaign_id: self.campaign_id@,
            experiment_id: self.experiment_id@,
        }
    }
}

/// Why a stored plan is refused, if it is.
pub open spec fn stored_plan_error(
    candidate: Seq<char>,
    outcome: Option<Seq<char>>,
    old_sha: Option<Seq<char>>,
    target: Option<Seq<char>>,
) -> Option<(Seq<char>, Seq<char>)> {
    if outcome is None {
        Some(("promotion_outcome"@, "is required before code-change promotion finalization"@))
    } else if !(exists|o: PromotionOutcome| #[trigger] o.label() == outcome->0) {
        Some(unknown_outcome())
    } else if !is_object_id(candidate) {
        Some(bad_object_id())
    } else if old_sha is Some && !is_object_id(old_sha->0) {
        Some(bad_object_id())
    } else if outcome->0 == PromotionOutcome::Improved.label() {
        if target is None {
            Some(
                (
                    "promotion_target_sha"@,
                    "improved code-change plan requires a candidate target SHA"@,
                ),
            )
        } else if !is_object_id(target->0) {
            Some(bad_object_id())
        } else if target->0 != candidate {
            Some(("promotion_target_sha"@, "must match the immutable candidate SHA"@))
        } else {
            None
        }
    } else if target is Some {
        Some(
            ("promotion_target_sha"@, "non-improved code-change plan cannot carry a target SHA"@),
        )
    } else {
        None
    }
}

impl CodePromotionPlan {
    /// The plan that was stored; an error where what was stored is no plan.
    pub fn from_persisted(
        campaign_id: String,
        experiment_id: String,
        candidate_sha: &str,
        promotion_outcome: Option<&str>,
        expected_current_best_experiment_id: Option<String>,
        expected_old_sha: Option<String>,
        promotion_target_sha: Option<String>,
    ) -> (plan: Result<Self, AppError>)
        ensures
            ({
                let stored = match promotion_outcome {
                    Some(text) => Some(text@),
                    None => None,
                };
                let refusal = stored_plan_error(
                    candidate_sha@,
                    stored,
                    optional_text(expected_old_sha),
                    optional_text(promotion_target_sha),
                );
                match plan {
                    Ok(p) => refusal is None && stored == Some(p.outcome.label()) && p@ == (Plan {
                        outcome: p.outcome,
                        expected_best: optional_text(expected_current_best_experiment_id),
                        expected_old_sha: optional_text(expected_old_sha),
                        candidate_sha: optional_text(promotion_target_sha),
                        campaign_id: campaign_id@,
                        experiment_id: experiment_id@,
                    }),
                    Err(error) => refusal matches Some(reason) && is_validation_error(
                        error,
                        reason,
                    ),
                }
            }),
    {
        let stored = match promotion_outcome {
            Some(text) => text,
            None => {
                return Err(
                    invalid(
                        "promotion_outcome",
                        "is required before code-change promotion finalization",
                    ),
                );
            },
        };
        let outcome = PromotionOutcome::from_str(stored)?;
        proof {
            assert(outcome.label() == stored@);
            if stored@ == PromotionOutcome::Improved.label() {
                lemma_promotion_outcome_labels_differ(outcome, PromotionOutcome::Improved);
            }
        }
        validate_code_candidate_sha(candidate_sha)?;
        validate_optional_code_sha(&expected_old_sha)?;
        if outcome == PromotionOutcome::Improved {
            match &promotion_target_sha {
                None => {
                    return Err(
                        invalid(
                            "promotion_target_sha",
                            "improved code-change plan requires a candidate target SHA",
                        ),
                    );
                },
                Some(target) => {
                    validate_code_candidate_sha(target.as_str())?;
                    if !same_text(target.as_str(), candidate_sha) {
                        return Err(
                            invalid(
                                "promotion_target_sha",
                                "must match the immutable candidate SHA",
                            ),
                        );
                    }
                },
            }
        } else if promotion_target_sha.is_some() {
            return Err(
                invalid(
                    "promotion_target_sha",
                    "non-improved code-change plan cannot carry a target SHA",
                ),
            );
        }
        Ok(
            CodePromotionPlan {
                outcome,
                expected_current_best_experiment_id,
                expected_old_sha,
                candidate_sha: promotion_target_sha,
                campaign_id,
                experiment_id,
            },
        )
    }
}

// ---------------------------------------------------------------------------
// Evaluation
// ---------------------------------------------------------------------------
/// The objective metric of a campaign: none, a sound one, or one that breaks a
/// rule.
#[derive(Debug, Clone, Copy)]
pub enum ObjectiveState {
    Absent,
    Sound,
    Broken { field: &'static str, message: &'static str },
}

/// What is stored of a campaign.
#[derive(Debug)]
pub struct CampaignPromotionState {
    pub project_id: String,
    pub state: CampaignState,
    pub objective: ObjectiveState,
    pub current_best_experiment_id: Option<String>,
    pub baseline_experiment_id: Option<String>,
}

/// How the metric of an experiment compares with that of the best one.
#[derive(Debug, Clone, Copy, PartialEq, Eq, Structural)]
pub enum Comparison {
    /// The best experiment has no metric value.
    NoAnchorMetric,
    /// Better by more than the least difference that counts.
    Better,
    /// Not better by that much.
    NotBetter,
}

/// What is stored of an experiment that has ended. `owner`, `best_owner` and
/// `baseline_owner` are the campaigns to which the experiment, the best one
/// and the baseline belong.
#[derive(Debug)]
pub struct PromotionFacts {
    pub campaign: Option<CampaignPromotionState>,
    pub owner: Option<String>,
    pub best_owner: Option<String>,
    pub baseline_owner: Option<String>,
    pub metrics_row_exists: bool,
    pub evaluated: bool,
    pub has_metric: bool,
    pub comparison: Comparison,
}

/// A change that follows from an evaluation, in the order in which changes are
/// made.
#[derive(Debug, Clone, Copy, PartialEq, Eq, Structural)]
pub enum PromotionAction {
    /// The experiment becomes the best one.
    BecomeBest,
    /// The plateau starts anew.
    ResetPlateau,
    /// A completed event records the promotion.
    RecordPromotion,
    /// The plateau grows by one.
    GrowPlateau,
    /// The experiment counts as evaluated.
    MarkEvaluated,
}

pub open spec fn lineage_error(owner: Option<Seq<char>>, campaign: Seq<char>, field: Seq<char>) -> Option<
    (Seq<char>, Seq<char>),
> {
    match owner {
        None => Some((field, "does not identify an experiment"@)),
        Some(other) => if other == campaign {
            None
        } else {
            Some((field, "must belong to the same campaign"@))
        },
    }
}

/// Checks that an experiment belongs to a campaign.
pub fn validate_experiment_campaign(
    owner: &Option<String>,
    campaign_id: &str,
    field: &'static str,
) -> (checked: Result<(), AppError>)
    ensures
        match checked {
            Ok(_) => lineage_error(optional_text(*owner), campaign_id@, field@) is None,
            Err(error) => lineage_error(
                optional_text(*owner),
                campaign_id@,
                field@,
            ) matches Some(reason) && is_validation_error(error, reason),
        },
{
    match owner {
        None => Err(invalid(field, "does not identify an experiment")),
        Some(other) => {
            if same_text(other.as_str(), campaign_id) {
                Ok(())
            } else {
                Err(invalid(field, "must belong to the same campaign"))
            }
        },
    }
}

/// Why an evaluation is refused, if it is.
pub open spec fn facts_error(facts: PromotionFacts, campaign_id: Seq<char>) -> Option<
    (Seq<char>, Seq<char>),
> {
    if facts.campaign is None {
        Some(("campaign_id"@, "does not identify a campaign"@))
    } else {
        let campaign = facts.campaign->0;
        let own = lineage_error(optional_text(facts.owner), campaign_id, "experiment_id"@);
        let best = lineage_error(
            optional_text(facts.best_owner),
            campaign_id,
            "current_best_experiment_id"@,
        );
        let baseline = lineage_error(
            optional_text(facts.baseline_owner),
            campaign_id,
            "baseline_experiment_id"@,
        );
        if let ObjectiveState::Broken { field, message } = campaign.objective {
            Some((field@, message@))
        } else if own is Some {
            own
        } else if campaign.current_best_experiment_id is Some && best is Some {
            best
        } else if campaign.baseline_experiment_id is Some && baseline is Some {
            baseline
        } else if !facts.metrics_row_exists {
            Some(("experiment_id"@, "missing experiment_metrics row; evaluation aborted"@))
        } else {
            None
        }
    }
}

fn check_facts(facts: &PromotionFacts, campaign_id: &str) -> (checked: Result<(), AppError>)
    ensures
        match checked {
            Ok(_) => facts_error(*facts, campaign_id@) is None,
            Err(error) => facts_error(*facts, campaign_id@) matches Some(reason)
                && is_validation_error(error, reason),
        },
{
    match &facts.campaign {
        None => Err(invalid("campaign_id", "does not identify a campaign")),
        Some(campaign) => {
            if let ObjectiveState::Broken { field, message } = campaign.objective {
                return Err(invalid(field, message));
            }
            validate_experiment_campaign(&facts.owner, campaign_id, "experiment_id")?;
            if campaign.current_best_experiment_id.is_some() {
                validate_experiment_campaign(
                    &facts.best_owner,
                    campaign_id,
                    "current_best_experiment_id",
                )?;
            }
            if campaign.baseline_experiment_id.is_some() {
                validate_experiment_campaign(
                    &facts.baseline_owner,
                    campaign_id,
                    "baseline_experiment_id",
                )?;
            }
            if !facts.metrics_row_exists {
                return Err(
                    invalid(
                        "experiment_id",
                        "missing experiment_metrics row; evaluation aborted",
                    ),
                );
            }
            Ok(())
        },
    }
}

/// Whether experiments of this campaign are compared at all.
pub open spec fn compares(campaign: CampaignPromotionState) -> bool {
    campaign.state == CampaignState::Active && !(campaign.objective is Absent)
}

pub open spec fn compared_outcome(comparison: Comparison) -> PromotionOutcome {
    match comparison {
        Comparison::NoAnchorMetric => PromotionOutcome::SkippedNoMetric,
        Comparison::Better => PromotionOutcome::Improved,
        Comparison::NotBetter => PromotionOutcome::NotImproved,
    }
}

/// The outcome for an experiment that has ended, as a comparison.
pub open spec fn fresh_outcome(
    campaign: CampaignPromotionState,
    facts: PromotionFacts,
    experiment: Seq<char>,
    status: ExperimentStatus,
) -> PromotionOutcome {
    let best = optional_text(campaign.current_best_experiment_id);
    let baseline = optional_text(campaign.baseline_experiment_id);
    if !compares(campaign) {
        PromotionOutcome::SkippedNoObjective
    } else if status != ExperimentStatus::Succeeded {
        PromotionOutcome::SkippedNoMetric
    } else if !facts.has_metric {
        PromotionOutcome::NotImproved
    } else if best == Some(experiment) {
        if baseline == Some(experiment) {
            PromotionOutcome::BaselineEstablished
        } else {
            PromotionOutcome::Improved
        }
    } else if best is Some {
        compared_outcome(facts.comparison)
    } else if baseline == Some(experiment) {
        PromotionOutcome::BaselineEstablished
    } else if baseline is Some {
        compared_outcome(facts.comparison)
    } else {
        PromotionOutcome::SkippedNoMetric
    }
}

/// The changes that an outcome brings, apart from the mark of evaluation. The
/// experiment that is the best one already brings none. An established
/// baseline is bookkeeping: the plateau stays as it is.
pub open spec fn changes(outcome: PromotionOutcome, is_best: bool) -> Seq<PromotionAction> {
    match outcome {
        PromotionOutcome::Improved => if is_best {
            Seq::empty()
        } else {
            seq![
                PromotionAction::BecomeBest,
                PromotionAction::ResetPlateau,
                PromotionAction::RecordPromotion,
            ]
        },
        PromotionOutcome::BaselineEstablished => if is_best {
            Seq::empty()
        } else {
            seq![PromotionAction::BecomeBest]
        },
        PromotionOutcome::NotImproved => seq![PromotionAction::GrowPlateau],
        PromotionOutcome::SkippedNoMetric => Seq::empty(),
        PromotionOutcome::SkippedNoObjective => Seq::empty(),
    }
}

/// The length of a plateau of length `plateau` after these changes.
pub open spec fn plateau_after(actions: Seq<PromotionAction>, plateau: int) -> int
    decreases actions.len(),
{
    if actions.len() == 0 {
        plateau
    } else {
        let before = plateau_after(actions.drop_last(), plateau);
        match actions.last() {
            PromotionAction::ResetPlateau => 0,
            PromotionAction::GrowPlateau => before + 1,
            _ => before,
        }
    }
}

/// What the plateau becomes by an outcome: an improvement ends it, a fruitless
/// comparison makes it longer, nothing else changes it.
pub open spec fn moved_plateau(outcome: PromotionOutcome, is_best: bool, plateau: int) -> int {
    match outcome {
        PromotionOutcome::Improved => if is_best {
            plateau
        } else {
            0
        },
        PromotionOutcome::NotImproved => plateau + 1,
        _ => plateau,
    }
}

proof fn lemma_changes_move_the_plateau(outcome: PromotionOutcome, is_best: bool, plateau: int)
    ensures
        plateau_after(changes(outcome, is_best), plateau) == moved_plateau(
            outcome,
            is_best,
            plateau,
        ),
        plateau_after(
            changes(outcome, is_best).push(PromotionAction::MarkEvaluated),
            plateau,
        ) == moved_plateau(outcome, is_best, plateau),
{
    reveal_with_fuel(plateau_after, 4);
    let all = changes(outcome, is_best);
    assert(all.push(PromotionAction::MarkEvaluated).drop_last() =~= all);
    if outcome == PromotionOutcome::Improved && !is_best {
        assert(all.drop_last() =~= seq![
            PromotionAction::BecomeBest,
            PromotionAction::ResetPlateau,
        ]);
        assert(all.drop_last().last() == PromotionAction::ResetPlateau);
    } else if outcome == PromotionOutcome::BaselineEstablished && !is_best {
        assert(all.drop_last() =~= Seq::<PromotionAction>::empty());
    } else if outcome == PromotionOutcome::NotImproved {
        assert(all.drop_last() =~= Seq::<PromotionAction>::empty());
    }
}

/// The outcome that is reported again for an experiment that has been
/// evaluated: a challenger that did not become the best one did not improve.
pub open spec fn settled_outcome(
    campaign: CampaignPromotionState,
    facts: PromotionFacts,
    experiment: Seq<char>,
    status: ExperimentStatus,
) -> PromotionOutcome {
    let best = optional_text(campaign.current_best_experiment_id);
    let baseline = optional_text(campaign.baseline_experiment_id);
    if !compares(campaign) {
        PromotionOutcome::SkippedNoObjective
    } else if status != ExperimentStatus::Succeeded {
        PromotionOutcome::SkippedNoMetric
    } else if !facts.has_metric {
        PromotionOutcome::NotImproved
    } else if best == Some(experiment) {
        if baseline == Some(experiment) {
            PromotionOutcome::BaselineEstablished
        } else {
            PromotionOutcome::Improved
        }
    } else if best is Some {
        PromotionOutcome::NotImproved
    } else if baseline == Some(experiment) {
        PromotionOutcome::BaselineEstablished
    } else {
        PromotionOutcome::SkippedNoMetric
    }
}

fn compare(comparison: Comparison) -> (outcome: PromotionOutcome)
    ensures
        outcome == compared_outcome(comparison),
{
    match comparison {
        Comparison::NoAnchorMetric => PromotionOutcome::SkippedNoMetric,
        Comparison::Better => PromotionOutcome::Improved,
        Comparison::NotBetter => PromotionOutcome::NotImproved,
    }
}

fn is_absent(objective: &ObjectiveState) -> (yes: bool)
    ensures
        yes == (objective is Absent),
{
    match objective {
        ObjectiveState::Absent => true,
        _ => false,
    }
}

fn decide(
    campaign: &CampaignPromotionState,
    facts: &PromotionFacts,
    experiment_id: &str,
    terminal_status: ExperimentStatus,
    settled: bool,
) -> (outcome: PromotionOutcome)
    ensures
        settled ==> outcome == settled_outcome(
            *campaign,
            *facts,
            experiment_id@,
            terminal_status,
        ),
        !settled ==> outcome == fresh_outcome(*campaign, *facts, experiment_id@, terminal_status),
{
    if campaign.state != CampaignState::Active || is_absent(&campaign.objective) {
        return PromotionOutcome::SkippedNoObjective;
    }
    if terminal_status != ExperimentStatus::Succeeded {
        return PromotionOutcome::SkippedNoMetric;
    }
    if !facts.has_metric {
        return PromotionOutcome::NotImproved;
    }
    let is_baseline = is_text(&campaign.baseline_experiment_id, experiment_id);
    if is_text(&campaign.current_best_experiment_id, experiment_id) {
        if is_baseline {
            PromotionOutcome::BaselineEstablished
        } else {
            PromotionOutcome::Improved
        }
    } else if campaign.current_best_experiment_id.is_some() {
        if settled {
            PromotionOutcome::NotImproved
        } else {
            compare(facts.comparison)
        }
    } else if is_baseline {
        PromotionOutcome::BaselineEstablished
    } else if campaign.baseline_experiment_id.is_some() && !settled {
        compare(facts.comparison)
    } else {
        PromotionOutcome::SkippedNoMetric
    }
}

/// An outcome and the changes that are to be made.
#[derive(Debug)]
pub struct Evaluation {
    pub outcome: PromotionOutcome,
    pub actions: Vec<PromotionAction>,
}

/// Evaluates an experiment that has ended. One that has been evaluated before
/// brings no change.
pub fn evaluate(
    facts: &PromotionFacts,
    campaign_id: &str,
    experiment_id: &str,
    terminal_status: ExperimentStatus,
) -> (evaluation: Result<Evaluation, AppError>)
    ensures
        match evaluation {
            Ok(e) => {
                let campaign = facts.campaign->0;
                &&& facts_error(*facts, campaign_id@) is None
                &&& terminal_status != ExperimentStatus::Succeeded ==> (e.outcome
                    == PromotionOutcome::SkippedNoMetric || e.outcome
                    == PromotionOutcome::SkippedNoObjective) && !e.actions@.contains(
                    PromotionAction::BecomeBest,
                ) && !e.actions@.contains(PromotionAction::ResetPlateau) && !e.actions@.contains(
                    PromotionAction::RecordPromotion,
                ) && !e.actions@.contains(PromotionAction::GrowPlateau)
                &&& facts.evaluated ==> e.outcome == settled_outcome(
                    campaign,
                    *facts,
                    experiment_id@,
                    terminal_status,
                ) && e.actions@ == Seq::<PromotionAction>::empty()
                &&& !facts.evaluated ==> e.outcome == fresh_outcome(
                    campaign,
                    *facts,
                    experiment_id@,
                    terminal_status,
                ) && e.actions@ == changes(
                    e.outcome,
                    optional_text(campaign.current_best_experiment_id) == Some(experiment_id@),
                ).push(PromotionAction::MarkEvaluated)
                &&& forall|p: int| #[trigger]
                    plateau_after(e.actions@, p) == (if facts.evaluated {
                        p
                    } else {
                        moved_plateau(
                            e.outcome,
                            optional_text(campaign.current_best_experiment_id) == Some(
                                experiment_id@,
                            ),
                            p,
                        )
                    })
                &&& e.outcome is BaselineEstablished ==> forall|p: int| #[trigger]
                    plateau_after(e.actions@, p) == p
            },
            Err(error) => facts_error(*facts, campaign_id@) matches Some(reason)
                && is_validation_error(error, reason),
        },
{
    check_facts(facts, campaign_id)?;
    let mut actions: Vec<PromotionAction> = Vec::new();
    match &facts.campaign {
        None => Err(invalid("campaign_id", "does not identify a campaign")),
        Some(campaign) => {
            let outcome = decide(
                campaign,
                facts,
                experiment_id,
                terminal_status,
                facts.evaluated,
            );
            if !facts.evaluated {
                let is_best = is_text(&campaign.current_best_experiment_id, experiment_id);
                push_changes(&mut actions, outcome, is_best);
                actions.push(PromotionAction::MarkEvaluated);
                proof {
                    assert forall|p: int| #[trigger]
                        plateau_after(actions@, p) == moved_plateau(outcome, is_best, p) by {
                        lemma_changes_move_the_plateau(outcome, is_best, p);
                    }
                }
            }
            Ok(Evaluation { outcome, actions })
        },
    }
}

fn push_changes(actions: &mut Vec<PromotionAction>, outcome: PromotionOutcome, is_best: bool)
    requires
        old(actions)@ == Seq::<PromotionAction>::empty(),
    ensures
        final(actions)@ == changes(outcome, is_best),
{
    match outcome {
        PromotionOutcome::Improved => {
            if !is_best {
                actions.push(PromotionAction::BecomeBest);
                actions.push(PromotionAction::ResetPlateau);
                actions.push(PromotionAction::RecordPromotion);
            }
        },
        PromotionOutcome::BaselineEstablished => {
            if !is_best {
                actions.push(PromotionAction::BecomeBest);
            }
        },
        PromotionOutcome::NotImproved => {
            actions.push(PromotionAction::GrowPlateau);
        },
        _ => {},
    }
    proof {
        assert(actions@ =~= changes(outcome, is_best));
    }
}

/// Compares an experiment that changes code, without changing anything.
pub fn preview_code_candidate(
    facts: &PromotionFacts,
    campaign_id: &str,
    experiment_id: &str,
    terminal_status: ExperimentStatus,
    expected_old_sha: &Option<String>,
    candidate_sha: &str,
) -> (plan: Result<CodePromotionPlan, AppError>)
    ensures
        match plan {
            Ok(p) => {
                let outcome = fresh_outcome(
                    facts.campaign->0,
                    *facts,
                    experiment_id@,
                    terminal_status,
                );
                &&& facts_error(*facts, campaign_id@) is None
                &&& is_object_id(candidate_sha@)
                &&& optional_text(*expected_old_sha) matches Some(t) ==> is_object_id(t)
                &&& p@ == (Plan {
                    outcome,
                    expected_best: optional_text(facts.campaign->0.current_best_experiment_id),
                    expected_old_sha: optional_text(*expected_old_sha),
                    candidate_sha: if outcome == PromotionOutcome::Improved {
                        Some(candidate_sha@)
                    } else {
                        None
                    },
                    campaign_id: campaign_id@,
                    experiment_id: experiment_id@,
                })
            },
            Err(error) => if !is_object_id(candidate_sha@) || (optional_text(
                *expected_old_sha,
            ) matches Some(t) && !is_object_id(t)) {
                is_validation_error(error, bad_object_id())
            } else {
                facts_error(*facts, campaign_id@) matches Some(reason) && is_validation_error(
                    error,
                    reason,
                )
            },
        },
{
    validate_code_candidate_sha(candidate_sha)?;
    validate_optional_code_sha(expected_old_sha)?;
    check_facts(facts, campaign_id)?;
    match &facts.campaign {
        None => Err(invalid("campaign_id", "does not identify a campaign")),
        Some(campaign) => {
            let outcome = decide(campaign, facts, experiment_id, terminal_status, false);
            let target: Option<String> = if outcome == PromotionOutcome::Improved {
                Some(candidate_sha.to_owned())
            } else {
                None
            };
            Ok(
                CodePromotionPlan {
                    outcome,
                    expected_current_best_experiment_id: copy_optional(
                        &campaign.current_best_experiment_id,
                    ),
                    expected_old_sha: copy_optional(expected_old_sha),
                    candidate_sha: target,
                    campaign_id: campaign_id.to_owned(),
                    experiment_id: experiment_id.to_owned(),
                },
            )
        },
    }
}

/// Why a plan is not carried out, if it is not.
pub open spec fn finalize_error(plan: Plan, facts: PromotionFacts) -> Option<
    (Seq<char>, Seq<char>),
> {
    let own = lineage_error(optional_text(facts.owner), plan.campaign_id, "experiment_id"@);
    let best = lineage_error(
        optional_text(facts.best_owner),
        plan.campaign_id,
        "current_best_experiment_id"@,
    );
    if plan.outcome == PromotionOutcome::Improved && plan.candidate_sha is None {
        Some(
            (
                "promotion_target_sha"@,
                "improved code-change plan requires a candidate target SHA"@,
            ),
        )
    } else if plan.outcome == PromotionOutcome::Improved && !is_object_id(plan.candidate_sha->0) {
        Some(bad_object_id())
    } else if plan.outcome != PromotionOutcome::Improved && plan.candidate_sha is Some {
        Some(
            ("promotion_target_sha"@, "non-improved code-change plan cannot carry a target SHA"@),
        )
    } else if plan.expected_old_sha is Some && !is_object_id(plan.expected_old_sha->0) {
        Some(bad_object_id())
    } else if facts.campaign is None {
        Some(("campaign_id"@, "does not identify a campaign"@))
    } else if own is Some {
        own
    } else if plan.expected_best is Some && best is Some {
        best
    } else if optional_text(facts.campaign->0.current_best_experiment_id) != plan.expected_best {
        Some(("current_best_experiment_id"@, "changed since the code-change promotion preview"@))
    } else if !facts.metrics_row_exists {
        Some(("experiment_id"@, "missing experiment_metrics row; finalization aborted"@))
    } else if !facts.evaluated && plan.outcome == PromotionOutcome::NotImproved
        && facts.campaign->0.objective is Absent {
        Some(("objective_metric"@, "not-improved code-change plan requires an objective"@))
    } else {
        None
    }
}

/// Carries out a plan: gives the changes that are to be made, none where the
/// experiment has been evaluated. `best_owner` is the campaign of the best
/// experiment that the plan expects.
pub fn finalize_code_candidate(plan: &CodePromotionPlan, facts: &PromotionFacts) -> (evaluation:
    Result<Evaluation, AppError>)
    ensures
        match evaluation {
            Ok(e) => {
                &&& finalize_error(plan@, *facts) is None
                &&& e.outcome == plan.outcome
                &&& e.actions@ == (if facts.evaluated {
                    Seq::empty()
                } else {
                    changes(plan.outcome, false)
                })
                &&& forall|p: int| #[trigger]
                    plateau_after(e.actions@, p) == (if facts.evaluated {
                        p
                    } else {
                        moved_plateau(e.outcome, false, p)
                    })
                &&& e.outcome is BaselineEstablished ==> forall|p: int| #[trigger]
                    plateau_after(e.actions@, p) == p
            },
            Err(error) => finalize_error(plan@, *facts) matches Some(reason)
                && is_validation_error(error, reason),
        },
{
    match &plan.candidate_sha {
        None => {
            if plan.outcome == PromotionOutcome::Improved {
                return Err(
                    invalid(
                        "promotion_target_sha",
                        "improved code-change plan requires a candidate target SHA",
                    ),
                );
            }
        },
        Some(target) => {
            if plan.outcome == PromotionOutcome::Improved {
                validate_code_candidate_sha(target.as_str())?;
            } else {
                return Err(
                    invalid(
                        "promotion_target_sha",
                        "non-improved code-change plan cannot carry a target SHA",
                    ),
                );
            }
        },
    }
    validate_optional_code_sha(&plan.expected_old_sha)?;
    let campaign = match &facts.campaign {
        Some(campaign) => campaign,
        None => {
            return Err(invalid("campaign_id", "does not identify a campaign"));
        },
    };
    validate_experiment_campaign(&facts.owner, plan.campaign_id.as_str(), "experiment_id")?;
    if plan.expected_current_best_experiment_id.is_some() {
        validate_experiment_campaign(
            &facts.best_owner,
            plan.campaign_id.as_str(),
            "current_best_experiment_id",
        )?;
    }
    if !same_optional(
        &campaign.current_best_experiment_id,
        &plan.expected_current_best_experiment_id,
    ) {
        return Err(
            invalid(
                "current_best_experiment_id",
                "changed since the code-change promotion preview",
            ),
        );
    }
    if !facts.metrics_row_exists {
        return Err(
            invalid("experiment_id", "missing experiment_metrics row; finalization aborted"),
        );
    }
    let mut actions: Vec<PromotionAction> = Vec::new();
    if !facts.evaluated {
        if plan.outcome == PromotionOutcome::NotImproved && is_absent(&campaign.objective) {
            return Err(
                invalid("objective_metric", "not-improved code-change plan requires an objective"),
            );
        }
        push_changes(&mut actions, plan.outcome, false);
        proof {
            assert forall|p: int| #[trigger]
                plateau_after(actions@, p) == moved_plateau(plan.outcome, false, p) by {
                lemma_changes_move_the_plateau(plan.outcome, false, p);
            }
        }
    }
    Ok(Evaluation { outcome: plan.outcome, actions })
}

/// The experiment with which another one of this campaign is compared: the
/// best one, or the baseline while there is no best one.
pub open spec fn anchor_of(campaign: CampaignPromotionState) -> Option<Seq<char>> {
    if campaign.current_best_experiment_id is Some {
        optional_text(campaign.current_best_experiment_id)
    } else {
        optional_text(campaign.baseline_experiment_id)
    }
}

pub fn comparison_anchor(campaign: &CampaignPromotionState) -> (anchor: Option<String>)
    ensures
        optional_text(anchor) == anchor_of(*campaign),
{
    match &campaign.current_best_experiment_id {
        Some(_) => copy_optional(&campaign.current_best_experiment_id),
        None => copy_optional(&campaign.baseline_experiment_id),
    }
}

// ---------------------------------------------------------------------------
// Events
// ---------------------------------------------------------------------------
/// Whether a plateau of this length calls for a new strategy.
pub fn plateau_reached(plateau_count: i64, threshold: u32) -> (yes: bool)
    ensures
        yes == (plateau_count == threshold),
{
    plateau_count == threshold as i64
}

/// The key under which the request for a new strategy is recorded once.
pub open spec fn refresh_key(campaign: Seq<char>, round: int) -> Seq<char> {
    "strategy-refresh:v1:"@ + campaign + ":"@ + decimal(round)
}

/// The event that asks for a new strategy in a round.
pub open spec fn is_strategy_refresh(
    event: LineageEvent,
    campaign: Seq<char>,
    project: Seq<char>,
    experiment: Seq<char>,
    plateau_count: int,
    round: int,
    now: i64,
) -> bool {
    &&& event.event.project_id@ == project
    &&& event.event.kind == EventKind::OperatorWake
    &&& event.event.dedup_key@ == refresh_key(campaign, round)
    &&& event.event.payload@ == JsonTree::Record(
        Map::<Seq<char>, JsonTree>::empty().insert("source"@, JsonTree::Text("promotion"@)).insert(
            "reason"@,
            JsonTree::Text("plateau_threshold_reached"@),
        ).insert("campaign_id"@, JsonTree::Text(campaign)).insert(
            "source_experiment_id"@,
            JsonTree::Text(experiment),
        ).insert("plateau_count"@, JsonTree::Int(plateau_count)).insert(
            "round"@,
            JsonTree::Int(round),
        ),
    )
    &&& event.event.not_before == now
    &&& event.event.created_at == now
    &&& optional_text(event.campaign_id) == Some(campaign)
    &&& event.experiment_id is None
    &&& event.status == EventStatus::Pending
}

/// What follows when the plateau has grown: a new strategy is asked for exactly
/// when its length is the threshold. A longer plateau has been answered before.
pub fn plateau_grown(
    campaign_id: &str,
    project_id: &str,
    experiment_id: &str,
    plateau_count: i64,
    plateau_threshold: u32,
    past_rounds: i64,
    now: i64,
) -> (event: Option<LineageEvent>)
    requires
        past_rounds < i64::MAX,
    ensures
        event is Some <==> plateau_count == plateau_threshold,
        event matches Some(e) ==> is_strategy_refresh(
            e,
            campaign_id@,
            project_id@,
            experiment_id@,
            plateau_count as int,
            past_rounds + 1,
            now,
        ),
{
    if plateau_reached(plateau_count, plateau_threshold) {
        Some(
            strategy_refresh_event(
                campaign_id,
                project_id,
                experiment_id,
                plateau_count,
                past_rounds,
                now,
            ),
        )
    } else {
        None
    }
}

/// The event that asks for a new strategy, in the round after those that have
/// been asked for before.
pub fn strategy_refresh_event(
    campaign_id: &str,
    project_id: &str,
    experiment_id: &str,
    plateau_count: i64,
    past_rounds: i64,
    now: i64,
) -> (event: LineageEvent)
    requires
        past_rounds < i64::MAX,
    ensures
        is_strategy_refresh(
            event,
            campaign_id@,
            project_id@,
            experiment_id@,
            plateau_count as int,
            past_rounds + 1,
            now,
        ),
{
    let round: i64 = past_rounds + 1;
    let mut key = "strategy-refresh:v1:".to_owned();
    key.append(campaign_id);
    key.append(":");
    let digits = decimal_chars(round);
    let number = string_of(digits.as_slice());
    key.append(number.as_str());
    let mut members: Vec<Member> = Vec::new();
    put(&mut members, "source", text_value("promotion"));
    put(&mut members, "reason", text_value("plateau_threshold_reached"));
    put(&mut members, "campaign_id", text_value(campaign_id));
    put(&mut members, "source_experiment_id", text_value(experiment_id));
    put(&mut members, "plateau_count", Json::Int(plateau_count));
    put(&mut members, "round", Json::Int(round));
    let event = NewEvent::new(
        project_id.to_owned(),
        EventKind::OperatorWake,
        key,
        Json::Record(members),
        now,
        now,
    );
    LineageEvent {
        event,
        campaign_id: Some(campaign_id.to_owned()),
        experiment_id: None,
        status: EventStatus::Pending,
    }
}

/// The completed event that records a promotion.
pub fn promotion_event(
    campaign_id: &str,
    project_id: &str,
    experiment_id: &str,
    now: i64,
) -> (event: LineageEvent)
    ensures
        event.event.project_id@ == project_id@,
        event.event.kind == EventKind::OperatorWake,
        event.event.dedup_key@ == "promotion:v1:"@ + campaign_id@ + ":"@ + experiment_id@,
        event.event.payload@ == JsonTree::Record(
            Map::<Seq<char>, JsonTree>::empty().insert(
                "source"@,
                JsonTree::Text("promotion"@),
            ).insert("reason"@, JsonTree::Text("improved"@)).insert(
                "campaign_id"@,
                JsonTree::Text(campaign_id@),
            ).insert("experiment_id"@, JsonTree::Text(experiment_id@)),
        ),
        event.event.not_before == now,
        event.event.created_at == now,
        optional_text(event.campaign_id) == Some(campaign_id@),
        optional_text(event.experiment_id) == Some(experiment_id@),
        event.status == EventStatus::Completed,
{
    let mut key = "promotion:v1:".to_owned();
    key.append(campaign_id);
    key.append(":");
    key.append(experiment_id);
    let mut members: Vec<Member> = Vec::new();
    put(&mut members, "source", text_value("promotion"));
    put(&mut members, "reason", text_value("improved"));
    put(&mut members, "campaign_id", text_value(campaign_id));
    put(&mut members, "experiment_id", text_value(experiment_id));
    let event = NewEvent::new(
        project_id.to_owned(),
        EventKind::OperatorWake,
        key,
        Json::Record(members),
        now,
        now,
    );
    LineageEvent {
        event,
        campaign_id: Some(campaign_id.to_owned()),
        experiment_id: Some(experiment_id.to_owned()),
        status: EventStatus::Completed,
    }
}

// ---------------------------------------------------------------------------
// Laws
// ---------------------------------------------------------------------------
/// What a preview stores is a plan again: the stored outcome, the revision that
/// was expected and the target of a previewed plan are never refused.
pub proof fn lemma_previewed_plan_can_be_stored(plan: Plan, candidate: Seq<char>)
    requires
        is_object_id(candidate),
        plan.expected_old_sha matches Some(t) ==> is_object_id(t),
        plan.candidate_sha == (if plan.outcome == PromotionOutcome::Improved {
            Some(candidate)
        } else {
            None
        }),
    ensures
        stored_plan_error(
            candidate,
            Some(plan.outcome.label()),
            plan.expected_old_sha,
            plan.candidate_sha,
        ) is None,
{
    if plan.outcome.label() == PromotionOutcome::Improved.label() {
        lemma_promotion_outcome_labels_differ(plan.outcome, PromotionOutcome::Improved);
    }
}

/// A comparison after whose changes the question is answered differently: the
/// best experiment has no value to compare with, or the baseline was not
/// beaten while there is no best one, or the baseline itself beat the best
/// one.
pub open spec fn is_reworded_later(
    campaign: CampaignPromotionState,
    facts: PromotionFacts,
    experiment: Seq<char>,
) -> bool {
    let best = optional_text(campaign.current_best_experiment_id);
    let baseline = optional_text(campaign.baseline_experiment_id);
    ||| best is Some && best != Some(experiment) && facts.comparison == Comparison::NoAnchorMetric
    ||| best is None && baseline is Some && baseline != Some(experiment) && facts.comparison
        == Comparison::NotBetter
    ||| best is Some && best != Some(experiment) && baseline == Some(experiment)
        && facts.comparison == Comparison::Better
}

/// An experiment that is evaluated again, after the changes of its evaluation
/// have been made, is reported with the same outcome.
pub proof fn lemma_outcome_is_stable(
    before: CampaignPromotionState,
    after: CampaignPromotionState,
    facts: PromotionFacts,
    experiment: Seq<char>,
    status: ExperimentStatus,
)
    requires
        after.state == before.state,
        after.objective == before.objective,
        optional_text(after.baseline_experiment_id) == optional_text(
            before.baseline_experiment_id,
        ),
        optional_text(after.current_best_experiment_id) == (if changes(
            fresh_outcome(before, facts, experiment, status),
            optional_text(before.current_best_experiment_id) == Some(experiment),
        ).contains(PromotionAction::BecomeBest) {
            Some(experiment)
        } else {
            optional_text(before.current_best_experiment_id)
        }),
        compares(before) && status == ExperimentStatus::Succeeded && facts.has_metric
            ==> !is_reworded_later(before, facts, experiment),
    ensures
        settled_outcome(after, facts, experiment, status) == fresh_outcome(
            before,
            facts,
            experiment,
            status,
        ),
{
    let outcome = fresh_outcome(before, facts, experiment, status);
    let is_best = optional_text(before.current_best_experiment_id) == Some(experiment);
    let all = changes(outcome, is_best);
    if all.len() > 0 {
        assert(all[0] == PromotionAction::BecomeBest || all[0] == PromotionAction::GrowPlateau);
        if all[0] == PromotionAction::BecomeBest {
            assert(all.contains(PromotionAction::BecomeBest));
        } else {
            assert(all =~= seq![PromotionAction::GrowPlateau]);
            assert(!all.contains(PromotionAction::BecomeBest));
        }
    } else {
        assert(!all.contains(PromotionAction::BecomeBest));
    }
}

/// An experiment that did not succeed is passed over, and nothing of its
/// campaign moves: it becomes no best one, and the plateau stays.
pub proof fn lemma_unsuccessful_experiment_is_passed_over(
    campaign: CampaignPromotionState,
    facts: PromotionFacts,
    experiment: Seq<char>,
    status: ExperimentStatus,
    is_best: bool,
)
    requires
        status != ExperimentStatus::Succeeded,
    ensures
        fresh_outcome(campaign, facts, experiment, status) == settled_outcome(
            campaign,
            facts,
            experiment,
            status,
        ),
        ({
            let outcome = fresh_outcome(campaign, facts, experiment, status);
            &&& outcome == PromotionOutcome::SkippedNoMetric || outcome
                == PromotionOutcome::SkippedNoObjective
            &&& changes(outcome, is_best).len() == 0
        }),
{
}

/// When a fresh evaluation finds which outcome. An experiment is measured only
/// where its campaign is active and has an objective and it succeeded; against
/// the best experiment where there is one, else against the baseline.
pub proof fn lemma_fresh_outcomes(
    campaign: CampaignPromotionState,
    facts: PromotionFacts,
    experiment: Seq<char>,
    status: ExperimentStatus,
)
    ensures
        ({
            let outcome = fresh_outcome(campaign, facts, experiment, status);
            let best = optional_text(campaign.current_best_experiment_id);
            let baseline = optional_text(campaign.baseline_experiment_id);
            let open = campaign.state == CampaignState::Active && !(campaign.objective is Absent);
            let measured = open && status == ExperimentStatus::Succeeded && facts.has_metric;
            let rival = (best is Some && best != Some(experiment)) || (best is None && baseline
                is Some && baseline != Some(experiment));
            &&& outcome is SkippedNoObjective <==> !open
            &&& outcome is BaselineEstablished <==> measured && baseline == Some(experiment) && (
            best is None || best == Some(experiment))
            &&& outcome is Improved <==> measured && ((best == Some(experiment) && baseline != Some(
                experiment,
            )) || (rival && facts.comparison is Better))
            &&& outcome is NotImproved <==> open && status == ExperimentStatus::Succeeded && (
            !facts.has_metric || (rival && facts.comparison is NotBetter))
            &&& outcome is SkippedNoMetric <==> open && (status != ExperimentStatus::Succeeded || (
            facts.has_metric && ((rival && facts.comparison is NoAnchorMetric) || (best is None
                && baseline is None))))
        }),
{
}

/// When a repeated evaluation finds which outcome: by what the campaign keeps,
/// without a comparison.
pub proof fn lemma_settled_outcomes(
    campaign: CampaignPromotionState,
    facts: PromotionFacts,
    experiment: Seq<char>,
    status: ExperimentStatus,
)
    ensures
        ({
            let outcome = settled_outcome(campaign, facts, experiment, status);
            let best = optional_text(campaign.current_best_experiment_id);
            let baseline = optional_text(campaign.baseline_experiment_id);
            let open = campaign.state == CampaignState::Active && !(campaign.objective is Absent);
            let measured = open && status == ExperimentStatus::Succeeded && facts.has_metric;
            &&& outcome is SkippedNoObjective <==> !open
            &&& outcome is BaselineEstablished <==> measured && baseline == Some(experiment) && (
            best is None || best == Some(experiment))
            &&& outcome is Improved <==> measured && best == Some(experiment) && baseline != Some(
                experiment,
            )
            &&& outcome is NotImproved <==> open && status == ExperimentStatus::Succeeded && (
            !facts.has_metric || (best is Some && best != Some(experiment)))
            &&& outcome is SkippedNoMetric <==> open && (status != ExperimentStatus::Succeeded || (
            facts.has_metric && best is None && baseline != Some(experiment)))
        }),
{
}

/// What an outcome changes: the best experiment moves with an improvement or a
/// new baseline, the plateau starts anew and the promotion is recorded with an
/// improvement alone, and the plateau grows where nothing was improved.
pub proof fn lemma_changes_follow_the_outcome(outcome: PromotionOutcome, is_best: bool)
    ensures
        ({
            let actions = changes(outcome, is_best);
            let moves = !is_best && (outcome is Improved || outcome is BaselineEstablished);
            &&& actions.contains(PromotionAction::BecomeBest) <==> moves
            &&& moves ==> actions[0] == PromotionAction::BecomeBest
            &&& actions.contains(PromotionAction::ResetPlateau) <==> !is_best && outcome is Improved
            &&& actions.contains(PromotionAction::RecordPromotion) <==> !is_best && outcome
                is Improved
            &&& actions.contains(PromotionAction::GrowPlateau) <==> outcome is NotImproved
            &&& !actions.contains(PromotionAction::MarkEvaluated)
            &&& actions.no_duplicates()
        }),
{
    let actions = changes(outcome, is_best);
    if !is_best && (outcome is Improved || outcome is BaselineEstablished) {
        assert(actions[0] == PromotionAction::BecomeBest);
        if outcome is Improved {
            assert(actions[1] == PromotionAction::ResetPlateau);
            assert(actions[2] == PromotionAction::RecordPromotion);
        }
    }
    if outcome is NotImproved {
        assert(actions[0] == PromotionAction::GrowPlateau);
    }
}

/// An evaluation is refused exactly where its campaign is not known or has a
/// broken objective, where an experiment that it names belongs to another
/// campaign, or where the metrics of the experiment are missing.
pub proof fn lemma_evaluable_facts(facts: PromotionFacts, campaign_id: Seq<char>)
    ensures
        facts_error(facts, campaign_id) is None <==> {
            &&& facts.campaign is Some
            &&& !(facts.campaign->0.objective is Broken)
            &&& optional_text(facts.owner) == Some(campaign_id)
            &&& facts.campaign->0.current_best_experiment_id is Some ==> optional_text(
                facts.best_owner,
            ) == Some(campaign_id)
            &&& facts.campaign->0.baseline_experiment_id is Some ==> optional_text(
                facts.baseline_owner,
            ) == Some(campaign_id)
            &&& facts.metrics_row_exists
        },
        facts.campaign is None ==> facts_error(facts, campaign_id) == Some(
            ("campaign_id"@, "does not identify a campaign"@),
        ),
{
}

/// A plan is finalized exactly where it carries its candidate if and only if it
/// is an improvement, where its object ids are sound, where its experiments
/// belong to its campaign, and where the best experiment has not changed since.
pub proof fn lemma_finalizable_plan(plan: Plan, facts: PromotionFacts)
    ensures
        finalize_error(plan, facts) is None <==> {
            &&& plan.outcome is Improved <==> plan.candidate_sha is Some
            &&& plan.candidate_sha is Some ==> is_object_id(plan.candidate_sha->0)
            &&& plan.expected_old_sha is Some ==> is_object_id(plan.expected_old_sha->0)
            &&& facts.campaign is Some
            &&& optional_text(facts.owner) == Some(plan.campaign_id)
            &&& plan.expected_best is Some ==> optional_text(facts.best_owner) == Some(
                plan.campaign_id,
            )
            &&& optional_text(facts.campaign->0.current_best_experiment_id) == plan.expected_best
            &&& facts.metrics_row_exists
            &&& !facts.evaluated && plan.outcome is NotImproved ==> !(
            facts.campaign->0.objective is Absent)
        },
{
}

/// A stored plan is read back exactly where its outcome has a name, its object
/// ids are sound, and it has a target, which is the candidate, if and only if it
/// is an improvement.
pub proof fn lemma_readable_plan(
    candidate: Seq<char>,
    outcome: PromotionOutcome,
    old_sha: Option<Seq<char>>,
    target: Option<Seq<char>>,
)
    ensures
        stored_plan_error(candidate, None, old_sha, target) is Some,
        stored_plan_error(candidate, Some(outcome.label()), old_sha, target) is None <==> {
            &&& is_object_id(candidate)
            &&& old_sha is Some ==> is_object_id(old_sha->0)
            &&& outcome is Improved ==> target == Some(candidate)
            &&& !(outcome is Improved) ==> target is None
        },
{
    assert(outcome.label() == outcome.label());
    if outcome.label() == PromotionOutcome::Improved.label() {
        lemma_promotion_outcome_labels_differ(outcome, PromotionOutcome::Improved);
    }
}

/// An object id is 40 or 64 characters, each a digit or one of `a` to `f`.
pub proof fn lemma_object_ids(s: Seq<char>)
    ensures
        is_object_id(s) <==> (s.len() == 40 || s.len() == 64) && forall|i: int|
            0 <= i < s.len() ==> ('0' <= (#[trigger] s[i]) <= '9' || 'a' <= s[i] <= 'f'),
{
}

/// An experiment is measured against the best one of its campaign, and where
/// there is none against the baseline.
pub proof fn lemma_anchor_is_the_best(campaign: CampaignPromotionState)
    ensures
        match campaign.current_best_experiment_id {
            Some(best) => anchor_of(campaign) == Some(best@),
            None => match campaign.baseline_experiment_id {
                Some(baseline) => anchor_of(campaign) == Some(baseline@),
                None => anchor_of(campaign) is None,
            },
        },
{
}

/// The event that asks for another strategy wakes the operator's agent of the
/// project for the campaign alone, once for each round.
pub proof fn lemma_what_a_refresh_asks_for(
    event: LineageEvent,
    campaign: Seq<char>,
    project: Seq<char>,
    experiment: Seq<char>,
    plateau: int,
    round: int,
    now: i64,
)
    requires
        is_strategy_refresh(event, campaign, project, experiment, plateau, round, now),
    ensures
        event.event.project_id@ == project,
        event.event.kind is OperatorWake,
        event.event.dedup_key@ == "strategy-refresh:v1:"@ + campaign + ":"@ + decimal(round),
        event.event.not_before == now,
        event.event.created_at == now,
        event.campaign_id matches Some(id) && id@ == campaign,
        event.experiment_id is None,
        event.status is Pending,
        crate::json::field(event.event.payload@, "source"@) == Some(JsonTree::Text("promotion"@)),
        crate::json::field(event.event.payload@, "reason"@) == Some(
            JsonTree::Text("plateau_threshold_reached"@),
        ),
        crate::json::field(event.event.payload@, "campaign_id"@) == Some(JsonTree::Text(campaign)),
        crate::json::field(event.event.payload@, "source_experiment_id"@) == Some(
            JsonTree::Text(experiment),
        ),
        crate::json::field(event.event.payload@, "plateau_count"@) == Some(JsonTree::Int(plateau)),
        crate::json::field(event.event.payload@, "round"@) == Some(JsonTree::Int(round)),
{
    reveal_strlit("source");
    reveal_strlit("reason");
    reveal_strlit("campaign_id");
    reveal_strlit("source_experiment_id");
    reveal_strlit("plateau_count");
    reveal_strlit("round");
    assert("source"@.len() == 6);
    assert("reason"@.len() == 6);
    assert("campaign_id"@.len() == 11);
    assert("source_experiment_id"@.len() == 20);
    assert("plateau_count"@.len() == 13);
    assert("round"@.len() == 5);
    assert("source"@[0] != "reason"@[0]);
}

/// Two rounds of a campaign have two keys.
pub proof fn lemma_rounds_have_their_own_keys(campaign: Seq<char>, a: int, b: int)
    requires
        i64::MIN <= a <= i64::MAX,
        i64::MIN <= b <= i64::MAX,
        refresh_key(campaign, a) == refresh_key(campaign, b),
    ensures
        a == b,
{
    let k = ("strategy-refresh:v1:"@.len() + campaign.len() + ":"@.len()) as int;
    assert(refresh_key(campaign, a).skip(k) =~= decimal(a));
    assert(refresh_key(campaign, b).skip(k) =~= decimal(b));
    crate::text::lemma_decimal_reads_back(a);
    crate::text::lemma_decimal_reads_back(b);
}

/// How the plateau moves with the actions of an evaluation: one action after the
/// other.
pub proof fn lemma_plateau_moves_with_each_action(
    actions: Seq<PromotionAction>,
    action: PromotionAction,
    plateau: int,
)
    ensures
        plateau_after(Seq::empty(), plateau) == plateau,
        action is ResetPlateau ==> plateau_after(actions.push(action), plateau) == 0,
        action is GrowPlateau ==> plateau_after(actions.push(action), plateau) == plateau_after(
            actions,
            plateau,
        ) + 1,
        !(action is ResetPlateau) && !(action is GrowPlateau) ==> plateau_after(
            actions.push(action),
            plateau,
        ) == plateau_after(actions, plateau),
{
    assert(actions.push(action).drop_last() =~= actions);
}

} // verus!
