//! A cursor over what agents ran: each entry is handed out once, in order.

use vstd::prelude::*;
use vstd::string::*;

use crate::promotion::{copy_optional, optional_text, same_optional};
use crate::text::{
    chars_of, comes_before, lemma_text_less_irreflexive, lemma_text_less_total,
    lemma_text_less_transitive, text_less,
};

verus! {

/// An entry of what agents ran: a run, or a submission of it.
#[derive(Debug, Clone, PartialEq, Eq, Hash)]
pub struct RunLineageCursor {
    pub started_at: i64,
    pub run_id: i64,
    pub submission_id: Option<String>,
    pub pueue_task_id: Option<i64>,
}

/// The mathematical form of [`RunLineageCursor`].
pub struct CursorView {
    pub started_at: int,
    pub run_id: int,
    pub submission: Option<Seq<char>>,
    pub task: Option<int>,
}

impl View for RunLineageCursor {
    type V = CursorView;

    open spec fn view(&self) -> CursorView {
        CursorView {
            started_at: self.started_at as int,
            run_id: self.run_id as int,
            submission: optional_text(self.submission_id),
            task: match self.pueue_task_id {
                Some(id) => Some(id as int),
                None => None,
            },
        }
    }
}

impl RunLineageCursor {
    pub fn new(
        started_at: i64,
        run_id: i64,
        submission_id: Option<String>,
        pueue_task_id: Option<i64>,
    ) -> (cursor: Self)
        ensures
            cursor == (RunLineageCursor { started_at, run_id, submission_id, pueue_task_id }),
    {
        RunLineageCursor { started_at, run_id, submission_id, pueue_task_id }
    }
}

// ---------------------------------------------------------------------------
// Order
// ---------------------------------------------------------------------------
pub open spec fn optional_text_less(a: Option<Seq<char>>, b: Option<Seq<char>>) -> bool {
    match (a, b) {
        (None, Some(_)) => true,
        (Some(s), Some(t)) => text_less(s, t),
        (_, None) => false,
    }
}

pub open spec fn optional_int_less(a: Option<int>, b: Option<int>) -> bool {
    match (a, b) {
        (None, Some(_)) => true,
        (Some(m), Some(n)) => m < n,
        (_, None) => false,
    }
}

/// The order of entries: by the time of the run, its number, the name of the
/// submission and its task; a run comes before its submissions.
pub open spec fn cursor_less(a: CursorView, b: CursorView) -> bool {
    if a.started_at != b.started_at {
        a.started_at < b.started_at
    } else if a.run_id != b.run_id {
        a.run_id < b.run_id
    } else if a.submission != b.submission {
        optional_text_less(a.submission, b.submission)
    } else {
        optional_int_less(a.task, b.task)
    }
}

pub proof fn lemma_cursor_less_irreflexive(a: CursorView)
    ensures
        !cursor_less(a, a),
{
}

pub proof fn lemma_cursor_less_transitive(a: CursorView, b: CursorView, c: CursorView)
    requires
        cursor_less(a, b),
        cursor_less(b, c),
    ensures
        cursor_less(a, c),
{
    if let (Some(s), Some(t)) = (a.submission, b.submission) {
        if let Some(u) = c.submission {
            if text_less(s, t) && text_less(t, u) {
                lemma_text_less_transitive(s, t, u);
                lemma_text_less_irreflexive(s);
            }
        }
    }
}

/// Of two different entries one comes before the other.
pub proof fn lemma_cursor_less_total(a: CursorView, b: CursorView)
    ensures
        cursor_less(a, b) || cursor_less(b, a) || a == b,
{
    if let (Some(s), Some(t)) = (a.submission, b.submission) {
        lemma_text_less_total(s, t);
    }
}

fn optional_text_before(a: &Option<String>, b: &Option<String>) -> (yes: bool)
    ensures
        yes == optional_text_less(optional_text(*a), optional_text(*b)),
{
    match (a, b) {
        (None, Some(_)) => true,
        (Some(s), Some(t)) => {
            let left = chars_of(s.as_str());
            let right = chars_of(t.as_str());
            comes_before(left.as_slice(), right.as_slice())
        },
        (_, None) => false,
    }
}

fn optional_int_before(a: Option<i64>, b: Option<i64>) -> (yes: bool)
    ensures
        yes == (match (a, b) {
            (None, Some(_)) => true,
            (Some(m), Some(n)) => m < n,
            (_, None) => false,
        }),
{
    match (a, b) {
        (None, Some(_)) => true,
        (Some(m), Some(n)) => m < n,
        (_, None) => false,
    }
}

fn before(a: &RunLineageCursor, b: &RunLineageCursor) -> (yes: bool)
    ensures
        yes == cursor_less(a@, b@),
{
    if a.started_at != b.started_at {
        a.started_at < b.started_at
    } else if a.run_id != b.run_id {
        a.run_id < b.run_id
    } else if !same_optional(&a.submission_id, &b.submission_id) {
        optional_text_before(&a.submission_id, &b.submission_id)
    } else {
        optional_int_before(a.pueue_task_id, b.pueue_task_id)
    }
}

/// Whether two entries are the same.
pub fn same_cursor(a: &RunLineageCursor, b: &RunLineageCursor) -> (same: bool)
    ensures
        same == (a@ == b@),
{
    let same_task = match (a.pueue_task_id, b.pueue_task_id) {
        (Some(m), Some(n)) => m == n,
        (None, None) => true,
        _ => false,
    };
    a.started_at == b.started_at && a.run_id == b.run_id && same_task && same_optional(
        &a.submission_id,
        &b.submission_id,
    )
}

fn copy_cursor(cursor: &RunLineageCursor) -> (copy: RunLineageCursor)
    ensures
        copy@ == cursor@,
{
    RunLineageCursor {
        started_at: cursor.started_at,
        run_id: cursor.run_id,
        submission_id: copy_optional(&cursor.submission_id),
        pueue_task_id: cursor.pueue_task_id,
    }
}

// ---------------------------------------------------------------------------
// The state of a cursor
// ---------------------------------------------------------------------------
pub open spec fn cursor_views(cursors: Seq<RunLineageCursor>) -> Seq<CursorView> {
    Seq::new(cursors.len(), |i: int| cursors[i]@)
}

/// Ascending order, without repeats.
pub open spec fn is_ascending(cursors: Seq<CursorView>) -> bool {
    forall|i: int, j: int|
        0 <= i < j < cursors.len() ==> cursor_less(#[trigger] cursors[i], #[trigger] cursors[j])
}

/// What was seen, and what of it is still to be handed out.
pub struct CursorState {
    pub seen: Set<CursorView>,
    pub pending: Seq<CursorView>,
}

impl CursorState {
    pub open spec fn wf(self) -> bool {
        &&& is_ascending(self.pending)
        &&& forall|i: int| 0 <= i < self.pending.len() ==> self.seen.contains(#[trigger] self.pending[i])
    }
}

/// An entry put in its place.
pub open spec fn put_in_order(pending: Seq<CursorView>, c: CursorView) -> Seq<CursorView>
    decreases pending.len(),
{
    if pending.len() == 0 || cursor_less(pending.last(), c) {
        pending.push(c)
    } else {
        put_in_order(pending.drop_last(), c).push(pending.last())
    }
}

/// An entry that is seen for the first time is to be handed out.
pub open spec fn observed(state: CursorState, c: CursorView) -> CursorState {
    if state.seen.contains(c) {
        state
    } else {
        CursorState { seen: state.seen.insert(c), pending: put_in_order(state.pending, c) }
    }
}

pub open spec fn at_most(limit: int, len: nat) -> int {
    if limit < len {
        limit
    } else {
        len as int
    }
}

/// The first entries have been handed out.
pub open spec fn taken(state: CursorState, limit: int) -> CursorState {
    CursorState {
        seen: state.seen,
        pending: state.pending.skip(at_most(limit, state.pending.len())),
    }
}

proof fn lemma_put_at(pending: Seq<CursorView>, c: CursorView, at: int)
    requires
        0 <= at <= pending.len(),
        forall|i: int| 0 <= i < at ==> cursor_less(#[trigger] pending[i], c),
        forall|i: int| at <= i < pending.len() ==> !cursor_less(#[trigger] pending[i], c),
    ensures
        put_in_order(pending, c) == pending.insert(at, c),
    decreases pending.len(),
{
    if pending.len() > 0 && at < pending.len() {
        lemma_put_at(pending.drop_last(), c, at);
        assert(pending.drop_last().insert(at, c).push(pending.last()) =~= pending.insert(at, c));
    } else {
        assert(pending.push(c) =~= pending.insert(at, c));
    }
}

/// The place of an entry among others in ascending order.
proof fn lemma_place(pending: Seq<CursorView>, c: CursorView) -> (at: int)
    requires
        is_ascending(pending),
    ensures
        0 <= at <= pending.len(),
        forall|i: int| 0 <= i < at ==> cursor_less(#[trigger] pending[i], c),
        forall|i: int| at <= i < pending.len() ==> !cursor_less(#[trigger] pending[i], c),
    decreases pending.len(),
{
    if pending.len() == 0 {
        0
    } else if cursor_less(pending.last(), c) {
        assert forall|i: int| 0 <= i < pending.len() implies cursor_less(#[trigger] pending[i], c) by {
            if i < pending.len() - 1 {
                lemma_cursor_less_transitive(pending[i], pending.last(), c);
            }
        }
        pending.len() as int
    } else {
        let at = lemma_place(pending.drop_last(), c);
        assert forall|i: int| 0 <= i < at implies cursor_less(#[trigger] pending[i], c) by {
            assert(pending.drop_last()[i] == pending[i]);
        }
        assert forall|i: int| at <= i < pending.len() implies !cursor_less(#[trigger] pending[i], c) by {
            if i < pending.len() - 1 {
                assert(pending.drop_last()[i] == pending[i]);
            }
        }
        at
    }
}

/// Observing keeps the order and the rest.
pub proof fn lemma_observed_wf(state: CursorState, c: CursorView)
    requires
        state.wf(),
    ensures
        observed(state, c).wf(),
        !state.seen.contains(c) ==> observed(state, c).pending.contains(c),
        forall|d: CursorView|
            #![trigger observed(state, c).pending.contains(d)]
            d != c ==> (observed(state, c).pending.contains(d) <==> state.pending.contains(d)),
{
    if !state.seen.contains(c) {
        let pending = state.pending;
        let at = lemma_place(pending, c);
        lemma_put_at(pending, c, at);
        let next = pending.insert(at, c);
        assert forall|i: int, j: int| 0 <= i < j < next.len() implies cursor_less(
            #[trigger] next[i],
            #[trigger] next[j],
        ) by {
            if i == at {
                let d = pending[j - 1];
                assert(state.seen.contains(pending[j - 1]));
                lemma_cursor_less_total(d, c);
            } else if j == at {
                assert(cursor_less(pending[i], c));
            } else if j < at {
                assert(next[i] == pending[i] && next[j] == pending[j]);
            } else if i > at {
                assert(next[i] == pending[i - 1] && next[j] == pending[j - 1]);
            } else {
                assert(next[i] == pending[i] && next[j] == pending[j - 1]);
            }
        }
        assert forall|i: int| 0 <= i < next.len() implies state.seen.insert(c).contains(
            #[trigger] next[i],
        ) by {
            if i < at {
                assert(next[i] == pending[i]);
            } else if i > at {
                assert(next[i] == pending[i - 1]);
            }
        }
        assert(next[at] == c);
        assert forall|d: CursorView| d != c implies (next.contains(d) <==> pending.contains(d)) by {
            if next.contains(d) {
                let k = choose|k: int| 0 <= k < next.len() && next[k] == d;
                if k < at {
                    assert(pending[k] == d);
                } else {
                    assert(pending[k - 1] == d);
                }
            }
            if pending.contains(d) {
                let k = choose|k: int| 0 <= k < pending.len() && pending[k] == d;
                if k < at {
                    assert(next[k] == d);
                } else {
                    assert(next[k + 1] == d);
                }
            }
        }
    }
}

pub proof fn lemma_taken_wf(state: CursorState, limit: int)
    requires
        state.wf(),
        limit >= 0,
    ensures
        taken(state, limit).wf(),
{
    let n = at_most(limit, state.pending.len());
    let rest = state.pending.skip(n);
    assert forall|i: int, j: int| 0 <= i < j < rest.len() implies cursor_less(
        #[trigger] rest[i],
        #[trigger] rest[j],
    ) by {
        assert(rest[i] == state.pending[i + n] && rest[j] == state.pending[j + n]);
    }
    assert forall|i: int| 0 <= i < rest.len() implies state.seen.contains(#[trigger] rest[i]) by {
        assert(rest[i] == state.pending[i + n]);
    }
}

/// What is handed out comes before what stays.
pub proof fn lemma_handed_out_in_order(state: CursorState, limit: int, i: int, d: CursorView)
    requires
        state.wf(),
        0 <= i < at_most(limit, state.pending.len()),
        taken(state, limit).pending.contains(d),
    ensures
        cursor_less(state.pending[i], d),
{
    let n = at_most(limit, state.pending.len());
    let rest = state.pending.skip(n);
    let k = choose|k: int| 0 <= k < rest.len() && rest[k] == d;
    assert(state.pending[k + n] == d);
}

/// What has been handed out is not pending any more.
pub proof fn lemma_handed_out_is_gone(state: CursorState, limit: int, i: int)
    requires
        state.wf(),
        0 <= i < at_most(limit, state.pending.len()),
    ensures
        taken(state, limit).seen.contains(state.pending[i]),
        !taken(state, limit).pending.contains(state.pending[i]),
{
    if taken(state, limit).pending.contains(state.pending[i]) {
        lemma_handed_out_in_order(state, limit, i, state.pending[i]);
        lemma_cursor_less_irreflexive(state.pending[i]);
    }
}

/// What has been handed out never comes back, whatever is observed or handed out
/// after it.
pub proof fn lemma_handed_out_once(state: CursorState, c: CursorView, d: CursorView, limit: int)
    requires
        state.wf(),
        state.seen.contains(c),
        !state.pending.contains(c),
        limit >= 0,
    ensures
        observed(state, d).seen.contains(c),
        !observed(state, d).pending.contains(c),
        taken(state, limit).seen.contains(c),
        !taken(state, limit).pending.contains(c),
{
    lemma_observed_wf(state, d);
    let n = at_most(limit, state.pending.len());
    let rest = state.pending.skip(n);
    if rest.contains(c) {
        let k = choose|k: int| 0 <= k < rest.len() && rest[k] == c;
        assert(state.pending[k + n] == c);
    }
}

// ---------------------------------------------------------------------------
// The cursor
// ---------------------------------------------------------------------------
/// Hands out each entry once.
#[derive(Debug)]
pub struct FollowCursor {
    seen: Vec<RunLineageCursor>,
    pending: Vec<RunLineageCursor>,
}

impl View for FollowCursor {
    type V = CursorState;

    closed spec fn view(&self) -> CursorState {
        CursorState {
            seen: cursor_views(self.seen@).to_set(),
            pending: cursor_views(self.pending@),
        }
    }
}

impl Default for FollowCursor {
    fn default() -> (cursor: Self)
        ensures
            cursor@.seen == Set::<CursorView>::empty(),
            cursor@.pending == Seq::<CursorView>::empty(),
            cursor@.wf(),
    {
        let cursor = FollowCursor { seen: Vec::new(), pending: Vec::new() };
        proof {
            assert(cursor_views(cursor.seen@) =~= Seq::<CursorView>::empty());
            assert(cursor_views(cursor.pending@) =~= Seq::<CursorView>::empty());
            assert(cursor@.seen =~= Set::<CursorView>::empty());
        }
        cursor
    }
}

impl FollowCursor {
    fn has_seen(&self, cursor: &RunLineageCursor) -> (yes: bool)
        ensures
            yes == self@.seen.contains(cursor@),
    {
        let mut at: usize = 0;
        while at < self.seen.len()
            invariant
                at <= self.seen@.len(),
                forall|i: int| 0 <= i < at ==> (#[trigger] self.seen@[i])@ != cursor@,
            decreases self.seen.len() - at,
        {
            if same_cursor(&self.seen[at], cursor) {
                proof {
                    assert(cursor_views(self.seen@)[at as int] == cursor@);
                }
                return true;
            }
            at = at + 1;
        }
        proof {
            let all = cursor_views(self.seen@);
            if all.contains(cursor@) {
                let k = choose|k: int| 0 <= k < all.len() && all[k] == cursor@;
                assert(self.seen@[k]@ == cursor@);
            }
        }
        false
    }

    /// Notes an entry; says whether it was not seen before.
    pub fn observe(&mut self, cursor: &RunLineageCursor) -> (fresh: bool)
        requires
            old(self)@.wf(),
        ensures
            fresh == !old(self)@.seen.contains(cursor@),
            final(self)@ == observed(old(self)@, cursor@),
            final(self)@.wf(),
    {
        let ghost state = self@;
        proof {
            lemma_observed_wf(state, cursor@);
        }
        if self.has_seen(cursor) {
            return false;
        }
        let mut at: usize = 0;
        while at < self.pending.len() && before(&self.pending[at], cursor)
            invariant
                at <= self.pending@.len(),
                forall|i: int| 0 <= i < at ==> cursor_less((#[trigger] self.pending@[i])@, cursor@),
            decreases self.pending.len() - at,
        {
            at = at + 1;
        }
        proof {
            let pending = state.pending;
            assert forall|i: int| 0 <= i < at implies cursor_less(#[trigger] pending[i], cursor@) by {
                assert(pending[i] == self.pending@[i]@);
            }
            assert forall|i: int| at <= i < pending.len() implies !cursor_less(
                #[trigger] pending[i],
                cursor@,
            ) by {
                assert(pending[i] == self.pending@[i]@);
                assert(pending[at as int] == self.pending@[at as int]@);
                if i > at && cursor_less(pending[i], cursor@) {
                    lemma_cursor_less_transitive(pending[at as int], pending[i], cursor@);
                }
            }
            lemma_put_at(pending, cursor@, at as int);
        }
        let ghost seen_before = self.seen@;
        let ghost pending_before = self.pending@;
        let noted = copy_cursor(cursor);
        let waiting = copy_cursor(cursor);
        self.seen.push(noted);
        self.pending.insert(at, waiting);
        proof {
            assert(cursor_views(self.pending@) =~= cursor_views(pending_before).insert(
                at as int,
                cursor@,
            ));
            assert(cursor_views(self.seen@) =~= cursor_views(seen_before).push(cursor@));
            let now = cursor_views(self.seen@);
            let prior = cursor_views(seen_before);
            assert forall|c: CursorView| now.to_set().contains(c) == prior.to_set().insert(
                cursor@,
            ).contains(c) by {
                if now.contains(c) {
                    let k = choose|k: int| 0 <= k < now.len() && now[k] == c;
                    if k < prior.len() {
                        assert(prior[k] == c);
                    }
                }
                if prior.contains(c) {
                    let k = choose|k: int| 0 <= k < prior.len() && prior[k] == c;
                    assert(now[k] == c);
                }
                assert(now[prior.len() as int] == cursor@);
            }
            assert(now.to_set() =~= prior.to_set().insert(cursor@));
        }
        true
    }

    /// Hands out the first entries that are pending.
    pub fn take_ordered(&mut self, limit: usize) -> (values: Vec<RunLineageCursor>)
        requires
            old(self)@.wf(),
        ensures
            cursor_views(values@) == old(self)@.pending.take(
                at_most(limit as int, old(self)@.pending.len()),
            ),
            final(self)@ == taken(old(self)@, limit as int),
            final(self)@.wf(),
    {
        proof {
            lemma_taken_wf(self@, limit as int);
        }
        let ghost before = self.pending@;
        let count: usize = if limit < self.pending.len() {
            limit
        } else {
            self.pending.len()
        };
        let mut values = self.pending.split_off(count);
        std::mem::swap(&mut self.pending, &mut values);
        proof {
            assert(cursor_views(values@) =~= cursor_views(before).take(count as int));
            assert(cursor_views(self.pending@) =~= cursor_views(before).skip(count as int));
        }
        values
    }
}

/// An entry is remembered once it was seen, and the oldest are handed out first,
/// at most so many as asked for; what is left waits.
pub proof fn lemma_entries_are_remembered(state: CursorState, c: CursorView, limit: int)
    requires
        limit >= 0,
    ensures
        observed(state, c).seen == state.seen.insert(c),
        state.seen.contains(c) ==> observed(state, c) == state,
        taken(state, limit).seen == state.seen,
        taken(state, limit).pending.len() == if limit < state.pending.len() {
            state.pending.len() - limit
        } else {
            0
        },
        state.pending.take(at_most(limit, state.pending.len())) + taken(state, limit).pending
            == state.pending,
{
    if state.seen.contains(c) {
        assert(state.seen.insert(c) =~= state.seen);
    }
    let n = at_most(limit, state.pending.len());
    assert(state.pending.take(n) + state.pending.skip(n) =~= state.pending);
}

/// Entries are ordered by their start, then their run, then their submission,
/// then their task; what is missing comes first.
pub proof fn lemma_order_of_entries(a: CursorView, b: CursorView)
    ensures
        a.started_at < b.started_at ==> cursor_less(a, b),
        a.started_at == b.started_at && a.run_id < b.run_id ==> cursor_less(a, b),
        a.started_at == b.started_at && a.run_id == b.run_id && a.submission is None && b.submission
            is Some ==> cursor_less(a, b),
        a.started_at == b.started_at && a.run_id == b.run_id && a.submission is Some && b.submission
            is Some && text_less(a.submission->0, b.submission->0) && a.submission != b.submission
            ==> cursor_less(a, b),
        a.started_at == b.started_at && a.run_id == b.run_id && a.submission == b.submission
            && a.task is None && b.task is Some ==> cursor_less(a, b),
        a.started_at == b.started_at && a.run_id == b.run_id && a.submission == b.submission
            && a.task is Some && b.task is Some && a.task->0 < b.task->0 ==> cursor_less(a, b),
{
}

} // verus!
