//! What agents ran for a project, and how it is listed.

use vstd::prelude::*;
use vstd::string::*;

use crate::error::AppError;
use crate::output::{bounded_redacted_text, format_state, or_none, shown, state_form};
use crate::promotion::{copy_optional, optional_text};
use crate::run_cursor::{
    at_most, cursor_less, cursor_views, is_ascending, lemma_cursor_less_irreflexive,
    lemma_handed_out_is_gone, lemma_handed_out_once, lemma_observed_wf, lemma_taken_wf, observed,
    same_cursor, taken, CursorState, CursorView,
};
use crate::states::{AgentRunStatus, EventKind, EventStatus, SubmissionKind, SubmissionStatus};
use crate::text::{
    append_int, append_text, chars_of, concat2, decimal, decimal_digits, extend, join, joined, string_of, views,
};

pub use crate::run_cursor::{FollowCursor, RunLineageCursor};

verus! {

pub const DEFAULT_RUN_LIST_LIMIT: usize = 32;

pub const MAX_RUN_LIST_LIMIT: usize = 128;

/// A submission of a run.
#[derive(Debug, Clone, PartialEq, Eq)]
pub struct SubmissionLineage {
    pub submission_id: String,
    pub kind: SubmissionKind,
    pub status: SubmissionStatus,
    pub pueue_task_id: Option<i64>,
}

/// A run of an agent, with the event that it answers and what it submitted.
#[derive(Debug, Clone, PartialEq, Eq)]
pub struct RunLineage {
    pub event_id: Option<i64>,
    pub event_kind: Option<EventKind>,
    pub event_status: Option<EventStatus>,
    pub run_id: Option<i64>,
    pub mode: Option<String>,
    pub run_status: Option<AgentRunStatus>,
    pub started_at: i64,
    pub submissions: Vec<SubmissionLineage>,
}

pub fn validate_limit(limit: usize) -> (checked: Result<usize, AppError>)
    ensures
        match checked {
            Ok(n) => n == limit && 1 <= limit <= MAX_RUN_LIST_LIMIT,
            Err(error) => !(1 <= limit <= MAX_RUN_LIST_LIMIT) && (error matches AppError::Message {
                message,
            } && message@ == "runs limit must be between 1 and 128"@),
        },
{
    if 1 <= limit && limit <= MAX_RUN_LIST_LIMIT {
        Ok(limit)
    } else {
        Err(AppError::Message { message: "runs limit must be between 1 and 128".to_owned() })
    }
}

// ---------------------------------------------------------------------------
// What is new
// ---------------------------------------------------------------------------
/// An entry and where it comes from: a run, or a submission of it.
pub struct SourceView {
    pub cursor: CursorView,
    pub lineage: int,
    pub submission: Option<int>,
}

pub open spec fn run_number(lineage: RunLineage) -> int {
    match lineage.run_id {
        Some(id) => id as int,
        None => 0,
    }
}

pub open spec fn optional_number(n: Option<i64>) -> Option<int> {
    match n {
        Some(v) => Some(v as int),
        None => None,
    }
}

/// The entry of a run itself.
pub open spec fn run_cursor(lineage: RunLineage) -> CursorView {
    CursorView {
        started_at: lineage.started_at as int,
        run_id: run_number(lineage),
        submission: None,
        task: None,
    }
}

/// The entry of a submission.
pub open spec fn submission_cursor(lineage: RunLineage, k: int) -> CursorView {
    CursorView {
        started_at: lineage.started_at as int,
        run_id: run_number(lineage),
        submission: Some(lineage.submissions@[k].submission_id@),
        task: optional_number(lineage.submissions@[k].pueue_task_id),
    }
}

/// The entries of a run: the run itself, where it or its event is known, then
/// its submissions.
pub open spec fn run_sources(lineage: RunLineage, at: int) -> Seq<SourceView> {
    let own = if lineage.run_id is Some || lineage.event_id is Some {
        seq![SourceView { cursor: run_cursor(lineage), lineage: at, submission: None }]
    } else {
        Seq::empty()
    };
    own + submission_sources(lineage, at)
}

pub open spec fn submission_sources(lineage: RunLineage, at: int) -> Seq<SourceView> {
    Seq::new(
        lineage.submissions@.len(),
        |k: int|
            SourceView {
                cursor: submission_cursor(lineage, k),
                lineage: at,
                submission: Some(k),
            },
    )
}

/// The entries of a list of runs.
pub open spec fn sources_of(lineages: Seq<RunLineage>) -> Seq<SourceView>
    decreases lineages.len(),
{
    if lineages.len() == 0 {
        Seq::empty()
    } else {
        sources_of(lineages.drop_last()) + run_sources(lineages.last(), lineages.len() - 1)
    }
}

/// Where an entry comes from; of several places the last.
pub open spec fn source_at(sources: Seq<SourceView>, c: CursorView) -> Option<SourceView>
    decreases sources.len(),
{
    if sources.len() == 0 {
        None
    } else if sources.last().cursor == c {
        Some(sources.last())
    } else {
        source_at(sources.drop_last(), c)
    }
}

/// A cursor after it has seen all the entries.
pub open spec fn observed_all(state: CursorState, sources: Seq<SourceView>) -> CursorState
    decreases sources.len(),
{
    if sources.len() == 0 {
        state
    } else {
        observed(observed_all(state, sources.drop_last()), sources.last().cursor)
    }
}

/// A run that is shown, with those of its submissions that are.
pub struct Fresh {
    pub started_at: int,
    pub run_id: int,
    pub lineage: int,
    pub submissions: Seq<(int, int)>,
}

/// The place of the run that an entry belongs to.
pub open spec fn place_of(fresh: Seq<Fresh>, c: CursorView) -> Option<int>
    decreases fresh.len(),
{
    if fresh.len() == 0 {
        None
    } else {
        match place_of(fresh.drop_last(), c) {
            Some(i) => Some(i),
            None => if fresh.last().started_at == c.started_at && fresh.last().run_id == c.run_id {
                Some(fresh.len() - 1)
            } else {
                None
            },
        }
    }
}

/// The runs with one more entry.
pub open spec fn with_entry(fresh: Seq<Fresh>, c: CursorView, source: SourceView) -> Seq<Fresh> {
    match place_of(fresh, c) {
        Some(i) => match source.submission {
            Some(k) => fresh.update(
                i,
                Fresh {
                    submissions: fresh[i].submissions.push((source.lineage, k)),
                    ..fresh[i]
                },
            ),
            None => fresh,
        },
        None => fresh.push(
            Fresh {
                started_at: c.started_at,
                run_id: c.run_id,
                lineage: source.lineage,
                submissions: match source.submission {
                    Some(k) => seq![(source.lineage, k)],
                    None => Seq::empty(),
                },
            },
        ),
    }
}

/// The runs that entries belong to, in the order of the entries; an entry that
/// is not listed any more is left out.
pub open spec fn gathered(entries: Seq<CursorView>, sources: Seq<SourceView>) -> Seq<Fresh>
    decreases entries.len(),
{
    if entries.len() == 0 {
        Seq::empty()
    } else {
        let rest = gathered(entries.drop_last(), sources);
        match source_at(sources, entries.last()) {
            Some(source) => with_entry(rest, entries.last(), source),
            None => rest,
        }
    }
}

pub open spec fn same_submission(a: SubmissionLineage, b: SubmissionLineage) -> bool {
    &&& a.submission_id@ == b.submission_id@
    &&& a.kind == b.kind
    &&& a.status == b.status
    &&& a.pueue_task_id == b.pueue_task_id
}

/// Two runs agree in all but their submissions.
pub open spec fn same_run(a: RunLineage, b: RunLineage) -> bool {
    &&& a.event_id == b.event_id
    &&& a.event_kind == b.event_kind
    &&& a.event_status == b.event_status
    &&& a.run_id == b.run_id
    &&& optional_text(a.mode) == optional_text(b.mode)
    &&& a.run_status == b.run_status
    &&& a.started_at == b.started_at
}

pub open spec fn is_place(place: (int, int), lineages: Seq<RunLineage>) -> bool {
    0 <= place.0 < lineages.len() && 0 <= place.1 < lineages[place.0].submissions@.len()
}

/// A run is what is to be shown.
pub open spec fn shows(run: RunLineage, fresh: Fresh, lineages: Seq<RunLineage>) -> bool {
    &&& 0 <= fresh.lineage < lineages.len()
    &&& same_run(run, lineages[fresh.lineage])
    &&& run.submissions@.len() == fresh.submissions.len()
    &&& forall|j: int|
        0 <= j < fresh.submissions.len() ==> is_place(#[trigger] fresh.submissions[j], lineages)
            && same_submission(
            run.submissions@[j],
            lineages[fresh.submissions[j].0].submissions@[fresh.submissions[j].1],
        )
}

fn copy_submission(submission: &SubmissionLineage) -> (copy: SubmissionLineage)
    ensures
        same_submission(copy, *submission),
{
    SubmissionLineage {
        submission_id: submission.submission_id.clone(),
        kind: submission.kind,
        status: submission.status,
        pueue_task_id: submission.pueue_task_id,
    }
}

fn copy_run(lineage: &RunLineage) -> (copy: RunLineage)
    ensures
        same_run(copy, *lineage),
        copy.submissions@.len() == 0,
{
    RunLineage {
        event_id: lineage.event_id,
        event_kind: lineage.event_kind,
        event_status: lineage.event_status,
        run_id: lineage.run_id,
        mode: copy_optional(&lineage.mode),
        run_status: lineage.run_status,
        started_at: lineage.started_at,
        submissions: Vec::new(),
    }
}

struct Source {
    cursor: RunLineageCursor,
    lineage: usize,
    submission: Option<usize>,
}

spec fn source_view(source: Source) -> SourceView {
    SourceView {
        cursor: source.cursor@,
        lineage: source.lineage as int,
        submission: match source.submission {
            Some(k) => Some(k as int),
            None => None,
        },
    }
}

spec fn source_views(sources: Seq<Source>) -> Seq<SourceView> {
    Seq::new(sources.len(), |i: int| source_view(sources[i]))
}

/// A source points into the list that it was made from.
pub open spec fn points_into(source: SourceView, lineages: Seq<RunLineage>) -> bool {
    &&& 0 <= source.lineage < lineages.len()
    &&& source.submission matches Some(k) ==> 0 <= k
        < lineages[source.lineage].submissions@.len()
}

proof fn lemma_sources_point_into(lineages: Seq<RunLineage>)
    ensures
        forall|i: int|
            0 <= i < sources_of(lineages).len() ==> points_into(
                #[trigger] sources_of(lineages)[i],
                lineages,
            ),
    decreases lineages.len(),
{
    if lineages.len() > 0 {
        let head = lineages.drop_last();
        lemma_sources_point_into(head);
        let all = sources_of(lineages);
        let rest = sources_of(head);
        assert forall|i: int| 0 <= i < all.len() implies points_into(#[trigger] all[i], lineages) by {
            if i < rest.len() {
                assert(all[i] == rest[i]);
                assert(points_into(rest[i], head));
                assert(head[rest[i].lineage] == lineages[rest[i].lineage]);
            } else {
                assert(all[i] == run_sources(lineages.last(), lineages.len() - 1)[i - rest.len()]);
            }
        }
    }
}

proof fn lemma_source_is_listed(sources: Seq<SourceView>, c: CursorView)
    ensures
        source_at(sources, c) matches Some(source) ==> exists|i: int|
            0 <= i < sources.len() && #[trigger] sources[i] == source,
    decreases sources.len(),
{
    if sources.len() > 0 {
        if sources.last().cursor == c {
            assert(sources[sources.len() - 1] == sources.last());
        } else {
            lemma_source_is_listed(sources.drop_last(), c);
            if let Some(source) = source_at(sources.drop_last(), c) {
                let i = choose|i: int|
                    0 <= i < sources.drop_last().len() && #[trigger] sources.drop_last()[i]
                        == source;
                assert(sources[i] == source);
            }
        }
    }
}

fn add_run_sources(sources: &mut Vec<Source>, lineage: &RunLineage, at: usize)
    ensures
        source_views(final(sources)@) == source_views(old(sources)@) + run_sources(
            *lineage,
            at as int,
        ),
{
    let ghost before = sources@;
    let run_id: i64 = match lineage.run_id {
        Some(id) => id,
        None => 0,
    };
    if lineage.run_id.is_some() || lineage.event_id.is_some() {
        sources.push(
            Source {
                cursor: RunLineageCursor::new(lineage.started_at, run_id, None, None),
                lineage: at,
                submission: None,
            },
        );
    }
    let ghost own = source_views(sources@);
    let mut k: usize = 0;
    proof {
        assert(submission_sources(*lineage, at as int).take(0) =~= Seq::<SourceView>::empty());
        assert(own =~= source_views(before) + (if lineage.run_id is Some || lineage.event_id is Some {
            seq![SourceView { cursor: run_cursor(*lineage), lineage: at as int, submission: None }]
        } else {
            Seq::empty()
        }));
        assert(source_views(sources@) =~= own + submission_sources(*lineage, at as int).take(0));
    }
    while k < lineage.submissions.len()
        invariant
            k <= lineage.submissions@.len(),
            run_id == run_number(*lineage),
            source_views(sources@) == own + submission_sources(*lineage, at as int).take(k as int),
        decreases lineage.submissions.len() - k,
    {
        let submission = &lineage.submissions[k];
        let ghost prior = source_views(sources@);
        sources.push(
            Source {
                cursor: RunLineageCursor::new(
                    lineage.started_at,
                    run_id,
                    Some(submission.submission_id.clone()),
                    submission.pueue_task_id,
                ),
                lineage: at,
                submission: Some(k),
            },
        );
        proof {
            let all = submission_sources(*lineage, at as int);
            assert(source_views(sources@) =~= prior.push(all[k as int]));
            assert(all.take(k + 1) =~= all.take(k as int).push(all[k as int]));
            assert(source_views(sources@) =~= own + all.take(k + 1));
        }
        k = k + 1;
    }
    proof {
        let all = submission_sources(*lineage, at as int);
        assert(all.take(all.len() as int) =~= all);
        assert(source_views(sources@) =~= source_views(before) + run_sources(*lineage, at as int));
    }
}

fn list_sources(lineages: &Vec<RunLineage>) -> (sources: Vec<Source>)
    ensures
        source_views(sources@) == sources_of(lineages@),
{
    let mut sources: Vec<Source> = Vec::new();
    let mut at: usize = 0;
    proof {
        assert(lineages@.take(0) =~= Seq::<RunLineage>::empty());
        assert(source_views(sources@) =~= Seq::<SourceView>::empty());
    }
    while at < lineages.len()
        invariant
            at <= lineages@.len(),
            source_views(sources@) == sources_of(lineages@.take(at as int)),
        decreases lineages.len() - at,
    {
        add_run_sources(&mut sources, &lineages[at], at);
        proof {
            assert(lineages@.take(at + 1).drop_last() =~= lineages@.take(at as int));
            assert(lineages@.take(at + 1).last() == lineages@[at as int]);
        }
        at = at + 1;
    }
    proof {
        assert(lineages@.take(lineages@.len() as int) =~= lineages@);
    }
    sources
}

fn observe_all(cursor: &mut FollowCursor, sources: &Vec<Source>)
    requires
        old(cursor)@.wf(),
    ensures
        final(cursor)@ == observed_all(old(cursor)@, source_views(sources@)),
        final(cursor)@.wf(),
{
    let ghost state = cursor@;
    let ghost all = source_views(sources@);
    let mut at: usize = 0;
    proof {
        assert(all.take(0) =~= Seq::<SourceView>::empty());
    }
    while at < sources.len()
        invariant
            at <= sources@.len(),
            all == source_views(sources@),
            cursor@ == observed_all(state, all.take(at as int)),
            cursor@.wf(),
        decreases sources.len() - at,
    {
        let _ = cursor.observe(&sources[at].cursor);
        proof {
            assert(all.take(at + 1).drop_last() =~= all.take(at as int));
            assert(all.take(at + 1).last() == all[at as int]);
        }
        at = at + 1;
    }
    proof {
        assert(all.take(all.len() as int) =~= all);
    }
}

fn find_source(sources: &Vec<Source>, cursor: &RunLineageCursor) -> (found: Option<usize>)
    ensures
        match found {
            Some(i) => i < sources@.len() && source_at(source_views(sources@), cursor@) == Some(
                source_view(sources@[i as int]),
            ),
            None => source_at(source_views(sources@), cursor@) is None,
        },
{
    let ghost all = source_views(sources@);
    let mut end: usize = sources.len();
    proof {
        assert(all.take(all.len() as int) =~= all);
    }
    while end > 0
        invariant
            end <= sources@.len(),
            all == source_views(sources@),
            source_at(all, cursor@) == source_at(all.take(end as int), cursor@),
        decreases end,
    {
        proof {
            assert(all.take(end as int).last() == all[end - 1]);
            assert(all.take(end as int).drop_last() =~= all.take(end - 1));
        }
        if same_cursor(&sources[end - 1].cursor, cursor) {
            return Some(end - 1);
        }
        end = end - 1;
    }
    None
}

struct FreshRun {
    started_at: i64,
    run_id: i64,
    lineage: RunLineage,
}

/// The runs that are built are what is to be shown.
spec fn builds(runs: Seq<FreshRun>, fresh: Seq<Fresh>, lineages: Seq<RunLineage>) -> bool {
    runs.len() == fresh.len() && forall|i: int|
        0 <= i < runs.len() ==> builds_one(#[trigger] runs[i], fresh[i], lineages)
}

spec fn builds_one(run: FreshRun, fresh: Fresh, lineages: Seq<RunLineage>) -> bool {
    run.started_at == fresh.started_at && run.run_id == fresh.run_id && shows(
        run.lineage,
        fresh,
        lineages,
    )
}

fn find_run(runs: &Vec<FreshRun>, cursor: &RunLineageCursor, fresh: Ghost<Seq<Fresh>>, lineages: Ghost<Seq<RunLineage>>) -> (found:
    Option<usize>)
    requires
        builds(runs@, fresh@, lineages@),
    ensures
        match found {
            Some(i) => i < runs@.len() && place_of(fresh@, cursor@) == Some(i as int),
            None => place_of(fresh@, cursor@) is None,
        },
{
    let mut at: usize = 0;
    proof {
        assert(fresh@.take(0) =~= Seq::<Fresh>::empty());
    }
    while at < runs.len()
        invariant
            at <= runs@.len(),
            builds(runs@, fresh@, lineages@),
            place_of(fresh@.take(at as int), cursor@) is None,
        decreases runs.len() - at,
    {
        proof {
            assert(fresh@.take(at + 1).drop_last() =~= fresh@.take(at as int));
            assert(fresh@.take(at + 1).last() == fresh@[at as int]);
            assert(builds_one(runs@[at as int], fresh@[at as int], lineages@));
        }
        if runs[at].started_at == cursor.started_at && runs[at].run_id == cursor.run_id {
            proof {
                assert(place_of(fresh@.take(at + 1), cursor@) == Some(at as int));
                lemma_place_stays(fresh@, at + 1, cursor@);
            }
            return Some(at);
        }
        at = at + 1;
    }
    proof {
        assert(fresh@.take(fresh@.len() as int) =~= fresh@);
    }
    None
}

proof fn lemma_place_stays(fresh: Seq<Fresh>, n: int, c: CursorView)
    requires
        0 <= n <= fresh.len(),
        place_of(fresh.take(n), c) is Some,
    ensures
        place_of(fresh, c) == place_of(fresh.take(n), c),
    decreases fresh.len() - n,
{
    if n < fresh.len() {
        assert(fresh.take(n + 1).drop_last() =~= fresh.take(n));
        lemma_place_stays(fresh, n + 1, c);
    } else {
        assert(fresh.take(n) =~= fresh);
    }
}

fn add_entry(
    runs: &mut Vec<FreshRun>,
    cursor: &RunLineageCursor,
    source: &Source,
    lineages: &Vec<RunLineage>,
    fresh: Ghost<Seq<Fresh>>,
)
    requires
        builds(old(runs)@, fresh@, lineages@),
        points_into(source_view(*source), lineages@),
    ensures
        builds(final(runs)@, with_entry(fresh@, cursor@, source_view(*source)), lineages@),
{
    let ghost next = with_entry(fresh@, cursor@, source_view(*source));
    let ghost place = (
        source_view(*source).lineage,
        match source.submission {
            Some(k) => k as int,
            None => 0int,
        },
    );
    let ghost before = runs@;
    let found = find_run(runs, cursor, fresh, Ghost(lineages@));
    match found {
        Some(i) => {
            if let Some(k) = source.submission {
                let copy = copy_submission(&lineages[source.lineage].submissions[k]);
                proof {
                    assert(builds_one(before[i as int], fresh@[i as int], lineages@));
                }
                let run = &mut runs[i];
                let ghost prior = run.lineage.submissions@;
                run.lineage.submissions.push(copy);
                proof {
                    assert forall|j: int| 0 <= j < runs@.len() implies builds_one(
                        #[trigger] runs@[j],
                        next[j],
                        lineages@,
                    ) by {
                        if j == i {
                            let own = next[j];
                            assert(own.submissions == fresh@[j].submissions.push(place));
                            let now = runs@[j].lineage.submissions@;
                            assert(now == prior.push(copy));
                            assert forall|m: int| 0 <= m < own.submissions.len() implies is_place(
                                #[trigger] own.submissions[m],
                                lineages@,
                            ) && same_submission(
                                now[m],
                                lineages@[own.submissions[m].0].submissions@[own.submissions[m].1],
                            ) by {
                                if m < fresh@[j].submissions.len() {
                                    assert(own.submissions[m] == fresh@[j].submissions[m]);
                                    assert(now[m] == prior[m]);
                                } else {
                                    assert(own.submissions[m] == place);
                                }
                            }
                        } else {
                            assert(runs@[j] == before[j]);
                            assert(builds_one(before[j], fresh@[j], lineages@));
                        }
                    }
                }
            }
        },
        None => {
            let mut lineage = copy_run(&lineages[source.lineage]);
            if let Some(k) = source.submission {
                lineage.submissions.push(
                    copy_submission(&lineages[source.lineage].submissions[k]),
                );
            }
            runs.push(
                FreshRun { started_at: cursor.started_at, run_id: cursor.run_id, lineage },
            );
            proof {
                assert forall|j: int| 0 <= j < runs@.len() implies builds_one(
                    #[trigger] runs@[j],
                    next[j],
                    lineages@,
                ) by {
                    if j < before.len() {
                        assert(runs@[j] == before[j] && next[j] == fresh@[j]);
                        assert(builds_one(before[j], fresh@[j], lineages@));
                    }
                }
            }
        },
    }
}

/// The runs are the ones to be shown.
pub open spec fn shows_all(runs: Seq<RunLineage>, fresh: Seq<Fresh>, lineages: Seq<RunLineage>) -> bool {
    runs.len() == fresh.len() && forall|i: int|
        0 <= i < runs.len() ==> shows(#[trigger] runs[i], fresh[i], lineages)
}

fn unwrap_runs(runs: Vec<FreshRun>, fresh: Ghost<Seq<Fresh>>, lineages: Ghost<Seq<RunLineage>>) -> (plain:
    Vec<RunLineage>)
    requires
        builds(runs@, fresh@, lineages@),
    ensures
        shows_all(plain@, fresh@, lineages@),
{
    let mut rest = runs;
    let ghost all = rest@;
    let mut reversed: Vec<RunLineage> = Vec::new();
    while rest.len() > 0
        invariant
            rest@.len() + reversed@.len() == all.len(),
            rest@ == all.take(rest@.len() as int),
            forall|i: int|
                0 <= i < reversed@.len() ==> #[trigger] reversed@[i] == all[all.len() - 1
                    - i].lineage,
        decreases rest.len(),
    {
        let ghost before = rest@;
        if let Some(run) = rest.pop() {
            proof {
                assert(rest@ =~= all.take(rest@.len() as int));
                assert(before.last() == all[before.len() - 1]);
            }
            reversed.push(run.lineage);
        }
    }
    let mut plain: Vec<RunLineage> = Vec::new();
    let ghost turned = reversed@;
    while reversed.len() > 0
        invariant
            reversed@.len() + plain@.len() == turned.len(),
            turned.len() == all.len(),
            reversed@ == turned.take(reversed@.len() as int),
            forall|i: int|
                0 <= i < turned.len() ==> #[trigger] turned[i] == all[all.len() - 1 - i].lineage,
            forall|i: int| 0 <= i < plain@.len() ==> #[trigger] plain@[i] == all[i].lineage,
        decreases reversed.len(),
    {
        let ghost before = reversed@;
        if let Some(run) = reversed.pop() {
            proof {
                assert(reversed@ =~= turned.take(reversed@.len() as int));
                assert(before.last() == turned[before.len() - 1]);
            }
            plain.push(run);
        }
    }
    proof {
        assert forall|i: int| 0 <= i < plain@.len() implies shows(
            #[trigger] plain@[i],
            fresh@[i],
            lineages@,
        ) by {
            assert(builds_one(runs@[i], fresh@[i], lineages@));
        }
    }
    plain
}

/// The entries that are handed out next.
pub open spec fn next_entries(state: CursorState, lineages: Seq<RunLineage>, limit: int) -> Seq<
    CursorView,
> {
    let after = observed_all(state, sources_of(lineages));
    after.pending.take(at_most(limit, after.pending.len()))
}

/// What runs are ordered by: when they started, and their number.
pub open spec fn run_key(run: RunLineage) -> (int, int) {
    (run.started_at as int, run_number(run))
}

pub open spec fn key_less(a: (int, int), b: (int, int)) -> bool {
    a.0 < b.0 || (a.0 == b.0 && a.1 < b.1)
}

/// Older runs come first, and each run once.
pub open spec fn runs_ascend(runs: Seq<RunLineage>) -> bool {
    forall|i: int, j: int|
        0 <= i < j < runs.len() ==> key_less(run_key(#[trigger] runs[i]), run_key(#[trigger] runs[j]))
}

/// How many submissions runs show.
pub open spec fn submission_total(runs: Seq<RunLineage>) -> nat
    decreases runs.len(),
{
    if runs.len() == 0 {
        0
    } else {
        submission_total(runs.drop_last()) + runs.last().submissions@.len()
    }
}

/// A list of runs shows an entry: a submission, or a run without any.
pub open spec fn is_shown(runs: Seq<RunLineage>, c: CursorView) -> bool {
    exists|i: int| 0 <= i < runs.len() && run_shows(#[trigger] runs[i], c)
}

pub open spec fn run_shows(run: RunLineage, c: CursorView) -> bool {
    ||| run.submissions@.len() == 0 && c == run_cursor(run)
    ||| exists|j: int| 0 <= j < run.submissions@.len() && #[trigger] submission_cursor(run, j) == c
}

/// No submission stands twice in a run.
pub open spec fn submissions_differ(run: RunLineage) -> bool {
    forall|j: int, k: int|
        0 <= j < k < run.submissions@.len() ==> #[trigger] submission_cursor(run, j)
            != #[trigger] submission_cursor(run, k)
}

/// What holds of the runs that are shown for some entries.
pub open spec fn hands_out(runs: Seq<RunLineage>, entries: Seq<CursorView>, limit: int) -> bool {
    &&& runs.len() <= limit
    &&& submission_total(runs) <= limit
    &&& runs_ascend(runs)
    &&& forall|i: int| 0 <= i < runs.len() ==> submissions_differ(#[trigger] runs[i])
    &&& forall|c: CursorView| #[trigger] is_shown(runs, c) ==> entries.contains(c)
}

spec fn fresh_key(fresh: Fresh) -> (int, int) {
    (fresh.started_at, fresh.run_id)
}

spec fn place_cursor(place: (int, int), lineages: Seq<RunLineage>) -> CursorView {
    submission_cursor(lineages[place.0], place.1)
}

spec fn bare_entry(key: (int, int)) -> CursorView {
    CursorView { started_at: key.0, run_id: key.1, submission: None, task: None }
}

spec fn has_key(c: CursorView, key: (int, int)) -> bool {
    c.started_at == key.0 && c.run_id == key.1
}

spec fn names_key(entries: Seq<CursorView>, key: (int, int)) -> bool {
    exists|e: int| 0 <= e < entries.len() && has_key(#[trigger] entries[e], key)
}

/// A run comes from entries of its own.
spec fn comes_from(fresh: Fresh, entries: Seq<CursorView>, lineages: Seq<RunLineage>) -> bool {
    &&& 0 <= fresh.lineage < lineages.len()
    &&& run_key(lineages[fresh.lineage]) == fresh_key(fresh)
    &&& names_key(entries, fresh_key(fresh))
    &&& forall|m: int|
        0 <= m < fresh.submissions.len() ==> place_is_own(
            #[trigger] fresh.submissions[m],
            fresh_key(fresh),
            entries,
            lineages,
        )
    &&& forall|m: int, n: int|
        0 <= m < n < fresh.submissions.len() ==> place_cursor(
            #[trigger] fresh.submissions[m],
            lineages,
        ) != place_cursor(#[trigger] fresh.submissions[n], lineages)
    &&& fresh.submissions.len() == 0 ==> entries.contains(bare_entry(fresh_key(fresh)))
}

spec fn place_is_own(
    place: (int, int),
    key: (int, int),
    entries: Seq<CursorView>,
    lineages: Seq<RunLineage>,
) -> bool {
    &&& is_place(place, lineages)
    &&& run_key(lineages[place.0]) == key
    &&& entries.contains(place_cursor(place, lineages))
}

spec fn place_total(fresh: Seq<Fresh>) -> nat
    decreases fresh.len(),
{
    if fresh.len() == 0 {
        0
    } else {
        place_total(fresh.drop_last()) + fresh.last().submissions.len()
    }
}

spec fn all_come_from(fresh: Seq<Fresh>, entries: Seq<CursorView>, lineages: Seq<RunLineage>) -> bool {
    forall|i: int| 0 <= i < fresh.len() ==> comes_from(#[trigger] fresh[i], entries, lineages)
}

spec fn keys_ascend(fresh: Seq<Fresh>) -> bool {
    forall|i: int, j: int|
        0 <= i < j < fresh.len() ==> key_less(
            fresh_key(#[trigger] fresh[i]),
            fresh_key(#[trigger] fresh[j]),
        )
}

/// The cursor of a source is the one of the run or the submission it points to.
spec fn is_own_cursor(source: SourceView, lineages: Seq<RunLineage>) -> bool {
    points_into(source, lineages) && source.cursor == (match source.submission {
        Some(k) => submission_cursor(lineages[source.lineage], k),
        None => run_cursor(lineages[source.lineage]),
    })
}

proof fn lemma_sources_name_their_entries(lineages: Seq<RunLineage>)
    ensures
        forall|i: int|
            0 <= i < sources_of(lineages).len() ==> is_own_cursor(
                #[trigger] sources_of(lineages)[i],
                lineages,
            ),
    decreases lineages.len(),
{
    if lineages.len() > 0 {
        let head = lineages.drop_last();
        lemma_sources_name_their_entries(head);
        lemma_sources_point_into(lineages);
        let all = sources_of(lineages);
        let rest = sources_of(head);
        assert forall|i: int| 0 <= i < all.len() implies is_own_cursor(
            #[trigger] all[i],
            lineages,
        ) by {
            assert(points_into(all[i], lineages));
            if i < rest.len() {
                assert(all[i] == rest[i]);
                assert(is_own_cursor(rest[i], head));
                assert(head[rest[i].lineage] == lineages[rest[i].lineage]);
            } else {
                assert(all[i] == run_sources(lineages.last(), lineages.len() - 1)[i - rest.len()]);
            }
        }
    }
}

proof fn lemma_place_has_the_key(fresh: Seq<Fresh>, c: CursorView)
    ensures
        match place_of(fresh, c) {
            Some(i) => 0 <= i < fresh.len() && has_key(c, fresh_key(fresh[i])),
            None => forall|i: int|
                0 <= i < fresh.len() ==> !has_key(c, fresh_key(#[trigger] fresh[i])),
        },
    decreases fresh.len(),
{
    if fresh.len() > 0 {
        let head = fresh.drop_last();
        lemma_place_has_the_key(head, c);
        if place_of(fresh, c) is None {
            assert forall|i: int| 0 <= i < fresh.len() implies !has_key(
                c,
                fresh_key(#[trigger] fresh[i]),
            ) by {
                if i < head.len() {
                    assert(head[i] == fresh[i]);
                }
            }
        } else if place_of(head, c) is Some {
            let i = place_of(head, c)->0;
            assert(head[i] == fresh[i]);
        }
    }
}

proof fn lemma_place_total_grows(fresh: Seq<Fresh>, i: int, one: Fresh)
    requires
        0 <= i < fresh.len(),
        one.submissions.len() == fresh[i].submissions.len() + 1,
    ensures
        place_total(fresh.update(i, one)) == place_total(fresh) + 1,
    decreases fresh.len(),
{
    let head = fresh.drop_last();
    if i < head.len() {
        lemma_place_total_grows(head, i, one);
        assert(fresh.update(i, one).drop_last() =~= head.update(i, one));
        assert(fresh.update(i, one).last() == fresh.last());
    } else {
        assert(fresh.update(i, one).drop_last() =~= head);
    }
}

/// More entries change nothing for a run that comes from some of them.
proof fn lemma_still_comes_from(
    fresh: Fresh,
    entries: Seq<CursorView>,
    c: CursorView,
    lineages: Seq<RunLineage>,
)
    requires
        comes_from(fresh, entries, lineages),
    ensures
        comes_from(fresh, entries.push(c), lineages),
{
    let more = entries.push(c);
    assert forall|d: CursorView| entries.contains(d) implies #[trigger] more.contains(d) by {
        let k = choose|k: int| 0 <= k < entries.len() && entries[k] == d;
        assert(more[k] == d);
    }
    let e = choose|e: int|
        0 <= e < entries.len() && has_key(#[trigger] entries[e], fresh_key(fresh));
    assert(has_key(more[e], fresh_key(fresh)));
    assert forall|m: int| 0 <= m < fresh.submissions.len() implies place_is_own(
        #[trigger] fresh.submissions[m],
        fresh_key(fresh),
        more,
        lineages,
    ) by {
        assert(place_is_own(fresh.submissions[m], fresh_key(fresh), entries, lineages));
    }
}

/// One more entry, the last in the order.
#[verifier::spinoff_prover]
proof fn lemma_entry_is_gathered(
    fresh: Seq<Fresh>,
    entries: Seq<CursorView>,
    c: CursorView,
    source: SourceView,
    lineages: Seq<RunLineage>,
)
    requires
        all_come_from(fresh, entries, lineages),
        keys_ascend(fresh),
        is_ascending(entries.push(c)),
        source.cursor == c,
        is_own_cursor(source, lineages),
        fresh.len() <= entries.len(),
        place_total(fresh) <= entries.len(),
    ensures
        all_come_from(with_entry(fresh, c, source), entries.push(c), lineages),
        keys_ascend(with_entry(fresh, c, source)),
        with_entry(fresh, c, source).len() <= entries.len() + 1,
        place_total(with_entry(fresh, c, source)) <= entries.len() + 1,
{
    let more = entries.push(c);
    let next = with_entry(fresh, c, source);
    lemma_place_has_the_key(fresh, c);
    assert(more[entries.len() as int] == c);
    assert(more.contains(c));
    assert forall|i: int| 0 <= i < fresh.len() implies comes_from(#[trigger] fresh[i], more, lineages) by {
        lemma_still_comes_from(fresh[i], entries, c, lineages);
    }
    match place_of(fresh, c) {
        Some(i) => {
            if let Some(k) = source.submission {
                let own = next[i];
                let place = (source.lineage, k);
                assert(own.submissions == fresh[i].submissions.push(place));
                lemma_place_total_grows(fresh, i, own);
                assert(place_cursor(place, lineages) == c);
                assert forall|m: int| 0 <= m < own.submissions.len() implies place_is_own(
                    #[trigger] own.submissions[m],
                    fresh_key(own),
                    more,
                    lineages,
                ) by {
                    if m < fresh[i].submissions.len() {
                        assert(own.submissions[m] == fresh[i].submissions[m]);
                        assert(comes_from(fresh[i], more, lineages));
                    }
                }
                assert forall|m: int, n: int| 0 <= m < n < own.submissions.len() implies place_cursor(
                    #[trigger] own.submissions[m],
                    lineages,
                ) != place_cursor(#[trigger] own.submissions[n], lineages) by {
                    assert(comes_from(fresh[i], entries, lineages));
                    assert(own.submissions[m] == fresh[i].submissions[m]);
                    if n < fresh[i].submissions.len() {
                        assert(own.submissions[n] == fresh[i].submissions[n]);
                    } else {
                        let d = place_cursor(fresh[i].submissions[m], lineages);
                        assert(place_is_own(
                            fresh[i].submissions[m],
                            fresh_key(fresh[i]),
                            entries,
                            lineages,
                        ));
                        assert(entries.contains(d));
                        let e = choose|e: int| 0 <= e < entries.len() && entries[e] == d;
                        assert(cursor_less(more[e], more[entries.len() as int]));
                        lemma_cursor_less_irreflexive(c);
                    }
                }
                assert(comes_from(own, more, lineages));
                assert forall|j: int| 0 <= j < next.len() implies comes_from(
                    #[trigger] next[j],
                    more,
                    lineages,
                ) by {
                    if j != i {
                        assert(next[j] == fresh[j]);
                    }
                }
                assert forall|a: int, b: int| 0 <= a < b < next.len() implies key_less(
                    fresh_key(#[trigger] next[a]),
                    fresh_key(#[trigger] next[b]),
                ) by {
                    assert(key_less(fresh_key(fresh[a]), fresh_key(fresh[b])));
                }
            }
        },
        None => {
            let own = next[fresh.len() as int];
            assert(next.drop_last() =~= fresh);
            assert(has_key(more[entries.len() as int], fresh_key(own)));
            match source.submission {
                Some(k) => {
                    assert(own.submissions == seq![(source.lineage, k)]);
                    assert(place_cursor((source.lineage, k), lineages) == c);
                },
                None => {
                    assert(bare_entry(fresh_key(own)) == c);
                },
            }
            assert(comes_from(own, more, lineages));
            assert forall|j: int| 0 <= j < next.len() implies comes_from(
                #[trigger] next[j],
                more,
                lineages,
            ) by {
                if j < fresh.len() {
                    assert(next[j] == fresh[j]);
                }
            }
            assert forall|a: int, b: int| 0 <= a < b < next.len() implies key_less(
                fresh_key(#[trigger] next[a]),
                fresh_key(#[trigger] next[b]),
            ) by {
                assert(next[a] == fresh[a]);
                if b < fresh.len() {
                    assert(next[b] == fresh[b]);
                } else {
                    assert(comes_from(fresh[a], entries, lineages));
                    let e = choose|e: int|
                        0 <= e < entries.len() && has_key(
                            #[trigger] entries[e],
                            fresh_key(fresh[a]),
                        );
                    assert(cursor_less(more[e], more[entries.len() as int]));
                    assert(!has_key(c, fresh_key(fresh[a])));
                }
            }
        },
    }
}

proof fn lemma_source_cursor(sources: Seq<SourceView>, c: CursorView)
    ensures
        source_at(sources, c) matches Some(source) ==> source.cursor == c,
    decreases sources.len(),
{
    if sources.len() > 0 && sources.last().cursor != c {
        lemma_source_cursor(sources.drop_last(), c);
    }
}

/// What is gathered comes from the entries, in their order.
proof fn lemma_gathered(entries: Seq<CursorView>, lineages: Seq<RunLineage>)
    requires
        is_ascending(entries),
    ensures
        all_come_from(gathered(entries, sources_of(lineages)), entries, lineages),
        keys_ascend(gathered(entries, sources_of(lineages))),
        gathered(entries, sources_of(lineages)).len() <= entries.len(),
        place_total(gathered(entries, sources_of(lineages))) <= entries.len(),
    decreases entries.len(),
{
    if entries.len() > 0 {
        let head = entries.drop_last();
        let c = entries.last();
        let sources = sources_of(lineages);
        assert forall|i: int, j: int| 0 <= i < j < head.len() implies cursor_less(
            #[trigger] head[i],
            #[trigger] head[j],
        ) by {
            assert(cursor_less(entries[i], entries[j]));
        }
        lemma_gathered(head, lineages);
        assert(head.push(c) =~= entries);
        let rest = gathered(head, sources);
        match source_at(sources, c) {
            Some(source) => {
                lemma_sources_name_their_entries(lineages);
                lemma_source_is_listed(sources, c);
                lemma_source_cursor(sources, c);
                lemma_entry_is_gathered(rest, head, c, source, lineages);
            },
            None => {
                assert forall|i: int| 0 <= i < rest.len() implies comes_from(
                    #[trigger] rest[i],
                    entries,
                    lineages,
                ) by {
                    lemma_still_comes_from(rest[i], head, c, lineages);
                }
            },
        }
    }
}

proof fn lemma_totals_agree(runs: Seq<RunLineage>, fresh: Seq<Fresh>, lineages: Seq<RunLineage>)
    requires
        shows_all(runs, fresh, lineages),
    ensures
        submission_total(runs) == place_total(fresh),
    decreases runs.len(),
{
    if runs.len() > 0 {
        let n = runs.len() - 1;
        assert(shows(runs[n], fresh[n], lineages));
        assert forall|i: int| 0 <= i < n implies shows(
            #[trigger] runs.drop_last()[i],
            fresh.drop_last()[i],
            lineages,
        ) by {
            assert(shows(runs[i], fresh[i], lineages));
        }
        lemma_totals_agree(runs.drop_last(), fresh.drop_last(), lineages);
    }
}

/// What is shown for entries in order.
proof fn lemma_shown_runs(
    runs: Seq<RunLineage>,
    entries: Seq<CursorView>,
    lineages: Seq<RunLineage>,
    limit: int,
)
    requires
        is_ascending(entries),
        entries.len() <= limit,
        shows_all(runs, gathered(entries, sources_of(lineages)), lineages),
    ensures
        hands_out(runs, entries, limit),
{
    let fresh = gathered(entries, sources_of(lineages));
    lemma_gathered(entries, lineages);
    lemma_totals_agree(runs, fresh, lineages);
    assert forall|i: int| 0 <= i < runs.len() implies run_key(#[trigger] runs[i]) == fresh_key(
        fresh[i],
    ) by {
        assert(shows(runs[i], fresh[i], lineages));
        assert(comes_from(fresh[i], entries, lineages));
    }
    assert forall|i: int, j: int| 0 <= i < j < runs.len() implies key_less(
        run_key(#[trigger] runs[i]),
        run_key(#[trigger] runs[j]),
    ) by {
        assert(key_less(fresh_key(fresh[i]), fresh_key(fresh[j])));
    }
    assert forall|i: int, j: int|
        0 <= i < runs.len() && 0 <= j < runs[i].submissions@.len() implies #[trigger] submission_cursor(
        runs[i],
        j,
    ) == place_cursor(fresh[i].submissions[j], lineages) && entries.contains(
        submission_cursor(runs[i], j),
    ) by {
        assert(shows(runs[i], fresh[i], lineages));
        assert(comes_from(fresh[i], entries, lineages));
        assert(run_key(runs[i]) == fresh_key(fresh[i]));
        assert(place_is_own(fresh[i].submissions[j], fresh_key(fresh[i]), entries, lineages));
    }
    assert forall|i: int| 0 <= i < runs.len() implies submissions_differ(#[trigger] runs[i]) by {
        assert(shows(runs[i], fresh[i], lineages));
        assert(comes_from(fresh[i], entries, lineages));
        assert forall|j: int, k: int|
            0 <= j < k < runs[i].submissions@.len() implies #[trigger] submission_cursor(runs[i], j)
            != #[trigger] submission_cursor(runs[i], k) by {
            assert(place_cursor(fresh[i].submissions[j], lineages) != place_cursor(
                fresh[i].submissions[k],
                lineages,
            ));
        }
    }
    assert forall|c: CursorView| #[trigger] is_shown(runs, c) implies entries.contains(c) by {
        let i = choose|i: int| 0 <= i < runs.len() && run_shows(#[trigger] runs[i], c);
        assert(shows(runs[i], fresh[i], lineages));
        assert(comes_from(fresh[i], entries, lineages));
        if runs[i].submissions@.len() == 0 && c == run_cursor(runs[i]) {
            assert(run_key(runs[i]) == fresh_key(fresh[i]));
            assert(c == bare_entry(fresh_key(fresh[i])));
        } else {
            let j = choose|j: int|
                0 <= j < runs[i].submissions@.len() && #[trigger] submission_cursor(runs[i], j) == c;
            assert(entries.contains(submission_cursor(runs[i], j)));
        }
    }
}

proof fn lemma_observed_all_wf(state: CursorState, sources: Seq<SourceView>)
    requires
        state.wf(),
    ensures
        observed_all(state, sources).wf(),
    decreases sources.len(),
{
    if sources.len() > 0 {
        lemma_observed_all_wf(state, sources.drop_last());
        lemma_observed_wf(observed_all(state, sources.drop_last()), sources.last().cursor);
    }
}

proof fn lemma_next_entries_ascend(state: CursorState, lineages: Seq<RunLineage>, limit: int)
    requires
        state.wf(),
        limit >= 0,
    ensures
        is_ascending(next_entries(state, lineages, limit)),
        next_entries(state, lineages, limit).len() <= limit,
{
    lemma_observed_all_wf(state, sources_of(lineages));
    let pending = observed_all(state, sources_of(lineages)).pending;
    let n = at_most(limit, pending.len());
    assert forall|i: int, j: int| 0 <= i < j < n implies cursor_less(
        #[trigger] pending.take(n)[i],
        #[trigger] pending.take(n)[j],
    ) by {
        assert(cursor_less(pending[i], pending[j]));
    }
}

/// Takes the entries of a list of runs that were not handed out before, the
/// first of them up to a limit, and gathers them under their runs.
pub fn collect_fresh(lineages: Vec<RunLineage>, cursor: &mut FollowCursor, limit: usize) -> (fresh: Vec<
    RunLineage,
>)
    requires
        old(cursor)@.wf(),
    ensures
        final(cursor)@.wf(),
        final(cursor)@ == taken(
            observed_all(old(cursor)@, sources_of(lineages@)),
            limit as int,
        ),
        shows_all(
            fresh@,
            gathered(
                next_entries(old(cursor)@, lineages@, limit as int),
                sources_of(lineages@),
            ),
            lineages@,
        ),
        hands_out(
            fresh@,
            next_entries(old(cursor)@, lineages@, limit as int),
            limit as int,
        ),
{
    let ghost start = cursor@;
    let sources = list_sources(&lineages);
    observe_all(cursor, &sources);
    let selected = cursor.take_ordered(limit);
    let ghost listed = sources_of(lineages@);
    let ghost entries = cursor_views(selected@);
    proof {
        lemma_sources_point_into(lineages@);
    }
    let mut runs: Vec<FreshRun> = Vec::new();
    let mut at: usize = 0;
    proof {
        assert(entries.take(0) =~= Seq::<CursorView>::empty());
    }
    while at < selected.len()
        invariant
            at <= selected@.len(),
            entries == cursor_views(selected@),
            listed == sources_of(lineages@),
            source_views(sources@) == listed,
            forall|i: int|
                0 <= i < listed.len() ==> points_into(#[trigger] listed[i], lineages@),
            builds(runs@, gathered(entries.take(at as int), listed), lineages@),
        decreases selected.len() - at,
    {
        let ghost so_far = gathered(entries.take(at as int), listed);
        proof {
            assert(entries.take(at + 1).drop_last() =~= entries.take(at as int));
            assert(entries.take(at + 1).last() == entries[at as int]);
        }
        match find_source(&sources, &selected[at]) {
            Some(i) => {
                proof {
                    assert(listed[i as int] == source_view(sources@[i as int]));
                }
                add_entry(&mut runs, &selected[at], &sources[i], &lineages, Ghost(so_far));
            },
            None => {},
        }
        at = at + 1;
    }
    proof {
        assert(entries.take(entries.len() as int) =~= entries);
    }
    let fresh = unwrap_runs(runs, Ghost(gathered(entries, listed)), Ghost(lineages@));
    proof {
        lemma_next_entries_ascend(start, lineages@, limit as int);
        lemma_shown_runs(fresh@, entries, lineages@, limit as int);
    }
    fresh
}

// ---------------------------------------------------------------------------
// Several calls on one cursor
// ---------------------------------------------------------------------------
/// A call of [`collect_fresh`], and what came out of it.
pub struct Call {
    pub lineages: Seq<RunLineage>,
    pub limit: int,
    pub fresh: Seq<RunLineage>,
}

/// What comes out of a call is what [`collect_fresh`] gives.
pub open spec fn is_call(state: CursorState, call: Call) -> bool {
    &&& call.limit >= 0
    &&& shows_all(
        call.fresh,
        gathered(next_entries(state, call.lineages, call.limit), sources_of(call.lineages)),
        call.lineages,
    )
}

/// The cursor after so many calls.
pub open spec fn state_after(state: CursorState, calls: Seq<Call>) -> CursorState
    decreases calls.len(),
{
    if calls.len() == 0 {
        state
    } else {
        taken(
            observed_all(
                state_after(state, calls.drop_last()),
                sources_of(calls.last().lineages),
            ),
            calls.last().limit,
        )
    }
}

/// Each call finds the cursor as the calls before it have left it.
pub open spec fn are_calls(state: CursorState, calls: Seq<Call>) -> bool {
    forall|k: int| #![trigger calls[k]]
        0 <= k < calls.len() ==> is_call(state_after(state, calls.take(k)), calls[k])
}

proof fn lemma_state_after_wf(state: CursorState, calls: Seq<Call>)
    requires
        state.wf(),
        are_calls(state, calls),
    ensures
        state_after(state, calls).wf(),
    decreases calls.len(),
{
    if calls.len() > 0 {
        let head = calls.drop_last();
        let last = calls[calls.len() - 1];
        lemma_calls_begin(state, calls, calls.len() - 1);
        assert(calls.take(calls.len() - 1) =~= head);
        lemma_state_after_wf(state, head);
        lemma_observed_all_wf(state_after(state, head), sources_of(last.lineages));
        lemma_taken_wf(
            observed_all(state_after(state, head), sources_of(last.lineages)),
            last.limit,
        );
    }
}

proof fn lemma_calls_begin(state: CursorState, calls: Seq<Call>, n: int)
    requires
        are_calls(state, calls),
        0 <= n <= calls.len(),
    ensures
        are_calls(state, calls.take(n)),
{
    let head = calls.take(n);
    assert forall|k: int| #![trigger head[k]] 0 <= k < head.len() implies is_call(
        state_after(state, head.take(k)),
        head[k],
    ) by {
        assert(head.take(k) =~= calls.take(k));
        assert(is_call(state_after(state, calls.take(k)), calls[k]));
    }
}

proof fn lemma_gone_while_observing(state: CursorState, c: CursorView, sources: Seq<SourceView>)
    requires
        state.wf(),
        state.seen.contains(c),
        !state.pending.contains(c),
    ensures
        observed_all(state, sources).seen.contains(c),
        !observed_all(state, sources).pending.contains(c),
    decreases sources.len(),
{
    if sources.len() > 0 {
        let head = sources.drop_last();
        lemma_gone_while_observing(state, c, head);
        lemma_observed_all_wf(state, head);
        lemma_handed_out_once(observed_all(state, head), c, sources.last().cursor, 0);
    }
}

/// What a call has handed out is gone after it, and after every later call.
proof fn lemma_gone_after(state: CursorState, calls: Seq<Call>, a: int, n: int, c: CursorView)
    requires
        state.wf(),
        are_calls(state, calls),
        0 <= a < n <= calls.len(),
        next_entries(
            state_after(state, calls.take(a)),
            calls[a].lineages,
            calls[a].limit,
        ).contains(c),
    ensures
        state_after(state, calls.take(n)).seen.contains(c),
        !state_after(state, calls.take(n)).pending.contains(c),
    decreases n,
{
    let last = calls[n - 1];
    let before = state_after(state, calls.take(n - 1));
    let seen = observed_all(before, sources_of(last.lineages));
    lemma_calls_begin(state, calls, n - 1);
    lemma_state_after_wf(state, calls.take(n - 1));
    lemma_observed_all_wf(before, sources_of(last.lineages));
    assert(calls.take(n).drop_last() =~= calls.take(n - 1));
    assert(calls.take(n).last() == last);
    assert(is_call(before, last));
    if a == n - 1 {
        let out = next_entries(before, last.lineages, last.limit);
        let i = choose|i: int| 0 <= i < out.len() && out[i] == c;
        assert(seen.pending[i] == c);
        lemma_handed_out_is_gone(seen, last.limit, i);
    } else {
        lemma_gone_after(state, calls, a, n - 1, c);
        lemma_gone_while_observing(before, c, sources_of(last.lineages));
        lemma_handed_out_once(seen, c, c, last.limit);
    }
}

/// Over any calls on one cursor each entry comes out once: what one call shows,
/// no later call shows again.
pub proof fn lemma_entries_come_out_once(
    state: CursorState,
    calls: Seq<Call>,
    a: int,
    b: int,
    c: CursorView,
)
    requires
        state.wf(),
        are_calls(state, calls),
        0 <= a < b < calls.len(),
        is_shown(calls[a].fresh, c),
    ensures
        !is_shown(calls[b].fresh, c),
{
    lemma_call_hands_out(state, calls, a);
    lemma_call_hands_out(state, calls, b);
    lemma_gone_after(state, calls, a, b, c);
    let before = state_after(state, calls.take(b));
    let later = calls[b];
    if is_shown(later.fresh, c) {
        let out = next_entries(before, later.lineages, later.limit);
        let seen = observed_all(before, sources_of(later.lineages));
        lemma_calls_begin(state, calls, b);
        lemma_state_after_wf(state, calls.take(b));
        lemma_gone_while_observing(before, c, sources_of(later.lineages));
        let i = choose|i: int| 0 <= i < out.len() && out[i] == c;
        assert(seen.pending[i] == c);
    }
}

/// Each call shows at most as many runs, and at most as many submissions, as its
/// limit says, older runs first, each run once and no submission twice.
pub proof fn lemma_call_hands_out(state: CursorState, calls: Seq<Call>, k: int)
    requires
        state.wf(),
        are_calls(state, calls),
        0 <= k < calls.len(),
    ensures
        hands_out(
            calls[k].fresh,
            next_entries(
                state_after(state, calls.take(k)),
                calls[k].lineages,
                calls[k].limit,
            ),
            calls[k].limit,
        ),
{
    let before = state_after(state, calls.take(k));
    lemma_calls_begin(state, calls, k);
    lemma_state_after_wf(state, calls.take(k));
    assert(is_call(before, calls[k]));
    lemma_next_entries_ascend(before, calls[k].lineages, calls[k].limit);
    lemma_shown_runs(
        calls[k].fresh,
        next_entries(before, calls[k].lineages, calls[k].limit),
        calls[k].lineages,
        calls[k].limit,
    );
}

// ---------------------------------------------------------------------------
// How it is shown
// ---------------------------------------------------------------------------
/// What is told of the event of a run.
#[derive(Debug, Clone, PartialEq, Eq)]
pub struct EventSummary {
    pub event_id: i64,
    pub kind: String,
    pub status: String,
}

/// What is told of a submission.
#[derive(Debug, Clone, PartialEq, Eq)]
pub struct SubmissionSummary {
    pub submission_id: String,
    pub kind: String,
    pub status: String,
    pub task_id: Option<i64>,
}

/// What is told of a run.
#[derive(Debug, Clone, PartialEq, Eq)]
pub struct RunSummary {
    pub event: Option<EventSummary>,
    pub run_id: Option<i64>,
    pub mode: Option<String>,
    pub status: Option<String>,
    pub started_at: i64,
    pub submissions: Vec<SubmissionSummary>,
}

pub open spec fn kind_label(kind: Option<EventKind>) -> Option<Seq<char>> {
    match kind {
        Some(k) => Some(k.label()),
        None => None,
    }
}

pub open spec fn event_label(status: Option<EventStatus>) -> Option<Seq<char>> {
    match status {
        Some(s) => Some(s.label()),
        None => None,
    }
}

pub open spec fn run_label(status: Option<AgentRunStatus>) -> Option<Seq<char>> {
    match status {
        Some(s) => Some(s.label()),
        None => None,
    }
}

pub open spec fn or_unknown(text: Option<Seq<char>>) -> Seq<char> {
    match text {
        Some(t) => t,
        None => "unknown"@,
    }
}

pub open spec fn is_submission_summary(summary: SubmissionSummary, submission: SubmissionLineage) -> bool {
    &&& summary.submission_id@ == shown(submission.submission_id@)
    &&& summary.kind@ == submission.kind.label()
    &&& summary.status@ == submission.status.label()
    &&& summary.task_id == submission.pueue_task_id
}

pub open spec fn is_run_summary(summary: RunSummary, lineage: RunLineage) -> bool {
    &&& match summary.event {
        Some(event) => lineage.event_id == Some(event.event_id) && event.kind@ == or_unknown(
            kind_label(lineage.event_kind),
        ) && event.status@ == or_unknown(event_label(lineage.event_status)),
        None => lineage.event_id is None,
    }
    &&& summary.run_id == lineage.run_id
    &&& optional_text(summary.mode) == (match optional_text(lineage.mode) {
        Some(mode) => Some(shown(mode)),
        None => None,
    })
    &&& optional_text(summary.status) == run_label(lineage.run_status)
    &&& summary.started_at == lineage.started_at
    &&& summary.submissions@.len() == lineage.submissions@.len()
    &&& forall|i: int|
        0 <= i < lineage.submissions@.len() ==> is_submission_summary(
            #[trigger] summary.submissions@[i],
            lineage.submissions@[i],
        )
}

/// What is told of a run.
pub fn summarize_run(lineage: &RunLineage) -> (summary: RunSummary)
    ensures
        is_run_summary(summary, *lineage),
{
    let event = match lineage.event_id {
        Some(event_id) => {
            let kind = match lineage.event_kind {
                Some(kind) => kind.as_str(),
                None => "unknown",
            };
            let status = match lineage.event_status {
                Some(status) => status.as_str(),
                None => "unknown",
            };
            Some(EventSummary { event_id, kind: kind.to_owned(), status: status.to_owned() })
        },
        None => None,
    };
    let mode = match &lineage.mode {
        Some(mode) => Some(bounded_redacted_text(mode.as_str())),
        None => None,
    };
    let status = match lineage.run_status {
        Some(status) => Some(status.as_str().to_owned()),
        None => None,
    };
    let mut submissions: Vec<SubmissionSummary> = Vec::new();
    let mut at: usize = 0;
    while at < lineage.submissions.len()
        invariant
            at <= lineage.submissions@.len(),
            submissions@.len() == at,
            forall|i: int|
                0 <= i < at ==> is_submission_summary(
                    #[trigger] submissions@[i],
                    lineage.submissions@[i],
                ),
        decreases lineage.submissions.len() - at,
    {
        let submission = &lineage.submissions[at];
        submissions.push(
            SubmissionSummary {
                submission_id: bounded_redacted_text(submission.submission_id.as_str()),
                kind: submission.kind.as_str().to_owned(),
                status: submission.status.as_str().to_owned(),
                task_id: submission.pueue_task_id,
            },
        );
        at = at + 1;
    }
    RunSummary {
        event,
        run_id: lineage.run_id,
        mode,
        status,
        started_at: lineage.started_at,
        submissions,
    }
}

pub open spec fn number_or_none(label: Seq<char>, n: Option<i64>) -> Seq<char> {
    match n {
        Some(v) => label + decimal(v as int),
        None => label + "none"@,
    }
}

/// A submission on one line.
pub open spec fn submission_text(submission: SubmissionLineage, ansi: bool) -> Seq<char> {
    "sub="@ + shown(submission.submission_id@) + " sub_kind="@ + submission.kind.label()
        + " sub_state="@ + state_form(submission.status.label(), ansi) + " "@ + number_or_none(
        "task="@,
        submission.pueue_task_id,
    )
}

pub open spec fn submission_texts(submissions: Seq<SubmissionLineage>, ansi: bool) -> Seq<Seq<char>> {
    Seq::new(submissions.len(), |i: int| submission_text(submissions[i], ansi))
}

pub open spec fn optional_state(state: Option<Seq<char>>, ansi: bool) -> Seq<char> {
    match state {
        Some(s) => state_form(s, ansi),
        None => "none"@,
    }
}

/// A run on one line.
pub open spec fn run_text(lineage: RunLineage, ansi: bool) -> Seq<char> {
    number_or_none("run="@, lineage.run_id) + " "@ + number_or_none("event="@, lineage.event_id)
        + " event_kind="@ + or_none(kind_label(lineage.event_kind)) + " event_state="@
        + optional_state(event_label(lineage.event_status), ansi) + " mode="@ + or_none(
        optional_text(lineage.mode),
    ) + " run_state="@ + optional_state(run_label(lineage.run_status), ansi) + " "@ + (
    if lineage.submissions@.len() == 0 {
        "sub=none task=none"@
    } else {
        joined(submission_texts(lineage.submissions@, ansi), " "@)
    })
}

pub open spec fn run_texts(lineages: Seq<RunLineage>, ansi: bool) -> Seq<Seq<char>> {
    Seq::new(lineages.len(), |i: int| run_text(lineages[i], ansi))
}

/// A list of runs, one to a line under a head.
pub open spec fn run_list_text(project_id: Seq<char>, lineages: Seq<RunLineage>, ansi: bool) -> Seq<
    char,
> {
    joined(
        seq![
            "pueue-agent runs project="@ + shown(project_id) + " showing="@ + decimal(
                lineages.len() as int,
            ),
            "RUN EVENT EVENT_KIND EVENT_STATE MODE RUN_STATE SUBMISSION TASK"@,
        ] + run_texts(lineages, ansi),
        "\n"@,
    )
}

fn append_number(line: &mut Vec<char>, label: &str, n: Option<i64>)
    ensures
        final(line)@ == old(line)@ + number_or_none(label@, n),
{
    let ghost before = line@;
    append_text(line, label);
    match n {
        Some(v) => append_int(line, v),
        None => append_text(line, "none"),
    }
    proof {
        assert(line@ =~= before + number_or_none(label@, n));
    }
}

fn append_state(line: &mut Vec<char>, state: Option<&str>, ansi: bool)
    ensures
        final(line)@ == old(line)@ + optional_state(
            match state {
                Some(s) => Some(s@),
                None => None,
            },
            ansi,
        ),
{
    match state {
        Some(s) => {
            let text = format_state(s, ansi);
            append_text(line, text.as_str());
        },
        None => append_text(line, "none"),
    }
}

fn submission_line(submission: &SubmissionLineage, ansi: bool) -> (line: Vec<char>)
    ensures
        line@ == submission_text(*submission, ansi),
{
    let id = bounded_redacted_text(submission.submission_id.as_str());
    let mut line = concat2("sub=", id.as_str());
    append_text(&mut line, " sub_kind=");
    append_text(&mut line, submission.kind.as_str());
    append_text(&mut line, " sub_state=");
    append_state(&mut line, Some(submission.status.as_str()), ansi);
    append_text(&mut line, " ");
    append_number(&mut line, "task=", submission.pueue_task_id);
    line
}

fn submission_lines(submissions: &Vec<SubmissionLineage>, ansi: bool) -> (lines: Vec<Vec<char>>)
    ensures
        views(lines@) == submission_texts(submissions@, ansi),
{
    let mut lines: Vec<Vec<char>> = Vec::new();
    let mut at: usize = 0;
    while at < submissions.len()
        invariant
            at <= submissions@.len(),
            lines@.len() == at,
            forall|i: int|
                0 <= i < at ==> (#[trigger] lines@[i])@ == submission_text(submissions@[i], ansi),
        decreases submissions.len() - at,
    {
        lines.push(submission_line(&submissions[at], ansi));
        at = at + 1;
    }
    proof {
        assert(views(lines@) =~= submission_texts(submissions@, ansi));
    }
    lines
}

fn run_line(lineage: &RunLineage, ansi: bool) -> (line: Vec<char>)
    ensures
        line@ == run_text(*lineage, ansi),
{
    let mut line: Vec<char> = Vec::new();
    append_number(&mut line, "run=", lineage.run_id);
    proof {
        assert(line@ =~= number_or_none("run="@, lineage.run_id));
    }
    append_text(&mut line, " ");
    append_number(&mut line, "event=", lineage.event_id);
    append_text(&mut line, " event_kind=");
    let kind = match lineage.event_kind {
        Some(kind) => kind.as_str(),
        None => "none",
    };
    append_text(&mut line, kind);
    append_text(&mut line, " event_state=");
    let event_state = match lineage.event_status {
        Some(status) => Some(status.as_str()),
        None => None,
    };
    append_state(&mut line, event_state, ansi);
    append_text(&mut line, " mode=");
    let mode = match &lineage.mode {
        Some(mode) => mode.as_str(),
        None => "none",
    };
    append_text(&mut line, mode);
    append_text(&mut line, " run_state=");
    let run_state = match lineage.run_status {
        Some(status) => Some(status.as_str()),
        None => None,
    };
    append_state(&mut line, run_state, ansi);
    append_text(&mut line, " ");
    if lineage.submissions.len() == 0 {
        append_text(&mut line, "sub=none task=none");
    } else {
        let lines = submission_lines(&lineage.submissions, ansi);
        let all = join(&lines, " ");
        extend(&mut line, all.as_slice());
    }
    line
}

/// Renders a list of runs for a reader.
pub fn render_human(project_id: &str, lineages: &Vec<RunLineage>, ansi: bool) -> (text: String)
    ensures
        text@ == run_list_text(project_id@, lineages@, ansi),
{
    let id = bounded_redacted_text(project_id);
    let mut head = concat2("pueue-agent runs project=", id.as_str());
    append_text(&mut head, " showing=");
    let count = decimal_digits(lineages.len() as u64);
    extend(&mut head, count.as_slice());
    let mut lines: Vec<Vec<char>> = Vec::new();
    lines.push(head);
    lines.push(chars_of("RUN EVENT EVENT_KIND EVENT_STATE MODE RUN_STATE SUBMISSION TASK"));
    let mut at: usize = 0;
    let ghost first = lines@[0]@;
    let ghost second = lines@[1]@;
    while at < lineages.len()
        invariant
            at <= lineages@.len(),
            lines@.len() == at + 2,
            lines@[0]@ == first,
            lines@[1]@ == second,
            forall|i: int|
                0 <= i < at ==> (#[trigger] lines@[i + 2])@ == run_text(lineages@[i], ansi),
        decreases lineages.len() - at,
    {
        lines.push(run_line(&lineages[at], ansi));
        at = at + 1;
    }
    proof {
        let all = seq![first, second] + run_texts(lineages@, ansi);
        assert forall|i: int| 0 <= i < all.len() implies views(lines@)[i] == all[i] by {
            if i >= 2 {
                assert(lines@[(i - 2) + 2]@ == run_text(lineages@[i - 2], ansi));
            }
        }
        assert(views(lines@) =~= all);
    }
    let text = join(&lines, "\n");
    string_of(text.as_slice())
}

/// Every run and every submission of a listing is a source: a run where it has a
/// number or an event, and each of its submissions.
pub proof fn lemma_sources_of_a_run(lineages: Seq<RunLineage>, lineage: RunLineage)
    ensures
        ({
            let at = lineages.len() as int;
            let own = lineage.run_id is Some || lineage.event_id is Some;
            let before = sources_of(lineages);
            let all = sources_of(lineages.push(lineage));
            let n = before.len() + if own {
                1int
            } else {
                0int
            };
            &&& sources_of(Seq::empty()).len() == 0
            &&& all.len() == n + lineage.submissions@.len()
            &&& all.take(before.len() as int) == before
            &&& own ==> all[before.len() as int] == (SourceView {
                cursor: CursorView {
                    started_at: lineage.started_at as int,
                    run_id: match lineage.run_id {
                        Some(id) => id as int,
                        None => 0,
                    },
                    submission: None,
                    task: None,
                },
                lineage: at,
                submission: None,
            })
            &&& forall|k: int|
                0 <= k < lineage.submissions@.len() ==> (#[trigger] all[n + k]) == (SourceView {
                    cursor: CursorView {
                        started_at: lineage.started_at as int,
                        run_id: match lineage.run_id {
                            Some(id) => id as int,
                            None => 0,
                        },
                        submission: Some(lineage.submissions@[k].submission_id@),
                        task: match lineage.submissions@[k].pueue_task_id {
                            Some(id) => Some(id as int),
                            None => None,
                        },
                    },
                    lineage: at,
                    submission: Some(k),
                })
        }),
{
    assert(lineages.push(lineage).drop_last() =~= lineages);
    let before = sources_of(lineages);
    let all = sources_of(lineages.push(lineage));
    assert(all.take(before.len() as int) =~= before);
}

/// Every entry that is handed out and has a source comes out: its run stands in
/// the listing, with its submission where the entry is one.
pub proof fn lemma_every_entry_comes_out(
    entries: Seq<CursorView>,
    sources: Seq<SourceView>,
    e: int,
)
    requires
        0 <= e < entries.len(),
        source_at(sources, entries[e]) is Some,
    ensures
        ({
            let source = source_at(sources, entries[e])->0;
            exists|i: int|
                0 <= i < gathered(entries, sources).len() && (#[trigger] gathered(
                    entries,
                    sources,
                )[i]).started_at == entries[e].started_at && gathered(entries, sources)[i].run_id
                    == entries[e].run_id && (source.submission matches Some(k) ==> gathered(
                    entries,
                    sources,
                )[i].submissions.contains((source.lineage, k)))
        }),
    decreases entries.len(),
{
    let head = entries.drop_last();
    let rest = gathered(head, sources);
    let all = gathered(entries, sources);
    let source = source_at(sources, entries[e])->0;
    let last = entries.last();
    lemma_place_of(rest, last);
    if e < head.len() {
        assert(head[e] == entries[e]);
        lemma_every_entry_comes_out(head, sources, e);
        let i = choose|i: int|
            0 <= i < rest.len() && (#[trigger] rest[i]).started_at == entries[e].started_at
                && rest[i].run_id == entries[e].run_id && (source.submission matches Some(k)
                ==> rest[i].submissions.contains((source.lineage, k)));
        assert(all[i].started_at == rest[i].started_at && all[i].run_id == rest[i].run_id);
        if let Some(k) = source.submission {
            let m = choose|m: int|
                0 <= m < rest[i].submissions.len() && rest[i].submissions[m] == (source.lineage, k);
            assert(all[i].submissions[m] == (source.lineage, k));
        }
    } else {
        match place_of(rest, last) {
            Some(i) => {
                assert(all[i].started_at == last.started_at && all[i].run_id == last.run_id);
                if let Some(k) = source.submission {
                    assert(all[i].submissions[rest[i].submissions.len() as int] == (
                        source.lineage,
                        k,
                    ));
                }
            },
            None => {
                let i = rest.len() as int;
                assert(all[i].started_at == last.started_at);
                if let Some(k) = source.submission {
                    assert(all[i].submissions[0] == (source.lineage, k));
                }
            },
        }
    }
}

proof fn lemma_place_of(fresh: Seq<Fresh>, c: CursorView)
    ensures
        place_of(fresh, c) matches Some(i) ==> 0 <= i < fresh.len() && fresh[i].started_at
            == c.started_at && fresh[i].run_id == c.run_id,
    decreases fresh.len(),
{
    if fresh.len() > 0 {
        lemma_place_of(fresh.drop_last(), c);
    }
}

/// The summary of a run tells what the run is, with its texts as they are shown;
/// what is not known of its event is called unknown.
pub proof fn lemma_summary_of_a_run(summary: RunSummary, lineage: RunLineage, i: int)
    requires
        is_run_summary(summary, lineage),
        0 <= i < lineage.submissions@.len(),
    ensures
        summary.run_id == lineage.run_id,
        summary.started_at == lineage.started_at,
        summary.event is Some <==> lineage.event_id is Some,
        summary.event matches Some(event) ==> Some(event.event_id) == lineage.event_id
            && event.kind@ == (match lineage.event_kind {
            Some(kind) => kind.label(),
            None => "unknown"@,
        }) && event.status@ == (match lineage.event_status {
            Some(status) => status.label(),
            None => "unknown"@,
        }),
        lineage.mode matches Some(mode) ==> optional_text(summary.mode) == Some(shown(mode@)),
        lineage.mode is None ==> summary.mode is None,
        lineage.run_status matches Some(status) ==> optional_text(summary.status) == Some(
            status.label(),
        ),
        summary.submissions@.len() == lineage.submissions@.len(),
        summary.submissions@[i].submission_id@ == shown(lineage.submissions@[i].submission_id@),
        summary.submissions@[i].kind@ == lineage.submissions@[i].kind.label(),
        summary.submissions@[i].status@ == lineage.submissions@[i].status.label(),
        summary.submissions@[i].task_id == lineage.submissions@[i].pueue_task_id,
{
    assert(is_submission_summary(summary.submissions@[i], lineage.submissions@[i]));
}

/// A run that is shown is the run that was listed, with submissions that were
/// listed.
pub proof fn lemma_shown_run_was_listed(run: RunLineage, fresh: Fresh, lineages: Seq<RunLineage>, j: int)
    requires
        shows(run, fresh, lineages),
        0 <= j < run.submissions@.len(),
    ensures
        0 <= fresh.lineage < lineages.len(),
        ({
            let listed = lineages[fresh.lineage];
            let place = fresh.submissions[j];
            let own = lineages[place.0].submissions@[place.1];
            &&& run.event_id == listed.event_id
            &&& run.event_kind == listed.event_kind
            &&& run.event_status == listed.event_status
            &&& run.run_id == listed.run_id
            &&& optional_text(run.mode) == optional_text(listed.mode)
            &&& run.run_status == listed.run_status
            &&& run.started_at == listed.started_at
            &&& run.submissions@.len() == fresh.submissions.len()
            &&& 0 <= place.0 < lineages.len() && 0 <= place.1
                < lineages[place.0].submissions@.len()
            &&& run.submissions@[j].submission_id@ == own.submission_id@
            &&& run.submissions@[j].kind == own.kind
            &&& run.submissions@[j].status == own.status
            &&& run.submissions@[j].pueue_task_id == own.pueue_task_id
        }),
{
    assert(is_place(fresh.submissions[j], lineages));
}

/// One call hands out at most as many runs and submissions as asked for, in the
/// order of their starts and numbers, none twice, and nothing that was not next.
pub proof fn lemma_what_a_call_hands_out(
    runs: Seq<RunLineage>,
    entries: Seq<CursorView>,
    limit: int,
    i: int,
    j: int,
    k: int,
    l: int,
)
    requires
        hands_out(runs, entries, limit),
        0 <= i < j < runs.len(),
        0 <= k < l < runs[i].submissions@.len(),
    ensures
        runs.len() <= limit,
        submission_total(runs) <= limit,
        runs[i].started_at < runs[j].started_at || (runs[i].started_at == runs[j].started_at
            && run_number(runs[i]) < run_number(runs[j])),
        submission_cursor(runs[i], k) != submission_cursor(runs[i], l),
        entries.contains(submission_cursor(runs[i], k)),
{
    assert(key_less(run_key(runs[i]), run_key(runs[j])));
    assert(submissions_differ(runs[i]));
    assert(run_shows(runs[i], submission_cursor(runs[i], k)));
    assert(is_shown(runs, submission_cursor(runs[i], k)));
}

/// The submissions of a listing are counted over all its runs.
pub proof fn lemma_submissions_are_counted(runs: Seq<RunLineage>, run: RunLineage)
    ensures
        submission_total(Seq::empty()) == 0,
        submission_total(runs.push(run)) == submission_total(runs) + run.submissions@.len(),
{
    assert(runs.push(run).drop_last() =~= runs);
}

} // verus!
