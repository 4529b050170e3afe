//! The task queue: its tasks, and how its commands are put together and its
//! answers are read.

use vstd::prelude::*;
use vstd::string::*;
use vstd::utf8::encode_utf8;

use crate::error::{AppError, PueueError};
use crate::json::{
    field, json_read, lemma_map_of_keys, map_of, read_bytes, Json, JsonTree, Member,
};
use crate::promotion::optional_text;
use crate::text::{
    chars_of, decimal_chars, lowered, parse_int, parsed_int, same_text, spells, string_of,
    to_lowered, trim, trimmed,
};
use crate::wire::{copy_bytes, same_bytes};

verus! {

pub const PUEUE_TIMEOUT_SECONDS: u64 = 30;

/// A task of the queue.
#[derive(Debug)]
pub struct PueueTask {
    pub id: i64,
    pub group: String,
    pub command: String,
    pub state: String,
    pub enqueued_at: Option<String>,
    pub started_at: Option<String>,
    pub ended_at: Option<String>,
    pub result: Option<Json>,
}

pub open spec fn is_running_state(state: Seq<char>) -> bool {
    lowered(state) == "running"@
}

pub open spec fn is_terminal_state(state: Seq<char>) -> bool {
    lowered(state) == "done"@ || lowered(state) == "failed"@ || lowered(state) == "killed"@
        || lowered(state) == "finished"@ || lowered(state) == "success"@
}

/// Whether a text is a word, whatever the case of its ASCII letters.
pub fn is_word(text: &str, lower_word: &str) -> (yes: bool)
    ensures
        yes == (lowered(text@) == lower_word@),
{
    let chars = chars_of(text);
    let lower = to_lowered(chars.as_slice());
    spells(lower.as_slice(), lower_word)
}

impl PueueTask {
    pub fn is_running(&self) -> (yes: bool)
        ensures
            yes == is_running_state(self.state@),
    {
        is_word(self.state.as_str(), "running")
    }

    pub fn is_terminal(&self) -> (yes: bool)
        ensures
            yes == is_terminal_state(self.state@),
    {
        let state = self.state.as_str();
        is_word(state, "done") || is_word(state, "failed") || is_word(state, "killed") || is_word(
            state,
            "finished",
        ) || is_word(state, "success")
    }
}

/// No task is running and at an end at once.
pub proof fn lemma_running_is_not_terminal(state: Seq<char>)
    requires
        is_running_state(state),
    ensures
        !is_terminal_state(state),
{
    reveal_strlit("running");
    reveal_strlit("done");
    reveal_strlit("failed");
    reveal_strlit("killed");
    reveal_strlit("finished");
    reveal_strlit("success");
    assert("running"@.len() == 7 && "running"@[0] == 'r');
    assert("done"@.len() == 4);
    assert("failed"@.len() == 6);
    assert("killed"@.len() == 6);
    assert("finished"@.len() == 8);
    assert("success"@[0] == 's');
}

// ---------------------------------------------------------------------------
// Status
// ---------------------------------------------------------------------------
/// The identifier of a task as the queue writes it.
#[derive(Debug, Clone, PartialEq, Eq)]
pub enum RawTaskId {
    Integer(i64),
    Text(String),
}

/// A task as the queue writes it.
#[derive(Debug)]
pub struct RawTask {
    pub id: RawTaskId,
    pub group: String,
    pub command: String,
    pub status: Json,
}

/// The identifier that is meant, where it is one.
pub open spec fn task_id_of(id: RawTaskId) -> Option<int> {
    let n = match id {
        RawTaskId::Integer(n) => Some(n as int),
        RawTaskId::Text(text) => parsed_int(text@),
    };
    if n matches Some(v) && v >= 0 {
        n
    } else {
        None
    }
}

impl RawTaskId {
    pub fn to_task_id(&self) -> (id: Result<i64, PueueError>)
        ensures
            match id {
                Ok(n) => task_id_of(*self) == Some(n as int),
                Err(PueueError::InvalidStatusTask { reason }) => task_id_of(*self) is None && reason@
                    == "task ID must be a non-negative integer"@,
                Err(_) => false,
            },
    {
        let n = match self {
            RawTaskId::Integer(n) => Some(*n),
            RawTaskId::Text(text) => {
                let chars = chars_of(text.as_str());
                parse_int(chars.as_slice())
            },
        };
        match n {
            Some(v) => if v >= 0 {
                Ok(v)
            } else {
                Err(
                    PueueError::InvalidStatusTask {
                        reason: "task ID must be a non-negative integer",
                    },
                )
            },
            None => Err(
                PueueError::InvalidStatusTask { reason: "task ID must be a non-negative integer" },
            ),
        }
    }
}

/// An object with exactly one key.
pub open spec fn has_only(map: Map<Seq<char>, JsonTree>, key: Seq<char>) -> bool {
    map.contains_key(key) && forall|k: Seq<char>| #[trigger] map.contains_key(k) ==> k == key
}

/// The moment that a field names; the outer option says whether the field is
/// well formed.
pub open spec fn moment_of(details: JsonTree, key: Seq<char>) -> Option<Option<Seq<char>>> {
    match field(details, key) {
        None => Some(None),
        Some(JsonTree::Null) => Some(None),
        Some(JsonTree::Text(text)) => Some(Some(text)),
        Some(_) => None,
    }
}

/// What a task is said to be at.
pub open spec fn result_of(details: JsonTree) -> Option<JsonTree> {
    match field(details, "result"@) {
        Some(JsonTree::Null) => None,
        found => found,
    }
}

/// Why a task is refused: the first thing that is wrong with it.
pub open spec fn task_error(id: RawTaskId, status: JsonTree) -> Option<Seq<char>> {
    match status {
        JsonTree::Record(map) => if exists|key: Seq<char>| has_only(map, key) {
            let details = map[choose|key: Seq<char>| has_only(map, key)];
            if !(details is Record) {
                Some("state details must be an object"@)
            } else if task_id_of(id) is None {
                Some("task ID must be a non-negative integer"@)
            } else if moment_of(details, "enqueued_at"@) is None {
                Some("enqueued_at timestamp must be a string when present"@)
            } else if moment_of(details, "start"@) is None {
                Some("start timestamp must be a string when present"@)
            } else if moment_of(details, "end"@) is None {
                Some("end timestamp must be a string when present"@)
            } else {
                None
            }
        } else {
            Some("status must contain exactly one state"@)
        },
        _ => Some("status must be an object"@),
    }
}

pub open spec fn optional_value(value: Option<Json>) -> Option<JsonTree> {
    match value {
        Some(json) => Some(json@),
        None => None,
    }
}

/// The task that is meant.
pub open spec fn is_task_of(task: PueueTask, raw: RawTask) -> bool {
    raw.status@ matches JsonTree::Record(map) && has_only(map, task.state@) && {
        let details = map[task.state@];
        &&& task_id_of(raw.id) == Some(task.id as int)
        &&& task.group@ == raw.group@
        &&& task.command@ == raw.command@
        &&& moment_of(details, "enqueued_at"@) == Some(optional_text(task.enqueued_at))
        &&& moment_of(details, "start"@) == Some(optional_text(task.started_at))
        &&& moment_of(details, "end"@) == Some(optional_text(task.ended_at))
        &&& optional_value(task.result) == result_of(details)
    }
}

fn shape_error(reason: &'static str) -> (error: PueueError)
    ensures
        error == (PueueError::InvalidStatusTask { reason }),
{
    PueueError::InvalidStatusTask { reason }
}

fn timestamp_field(details: &Json, key: &str, invalid_reason: &'static str) -> (moment: Result<
    Option<String>,
    PueueError,
>)
    ensures
        match moment {
            Ok(m) => moment_of(details@, key@) == Some(optional_text(m)),
            Err(error) => moment_of(details@, key@) is None && error == (
            PueueError::InvalidStatusTask { reason: invalid_reason }),
        },
{
    match details.get(key) {
        None => Ok(None),
        Some(Json::Null) => Ok(None),
        Some(Json::Text(text)) => Ok(Some(text.clone())),
        Some(_) => Err(shape_error(invalid_reason)),
    }
}

/// The one member of an object that has exactly one.
fn only_member(members: &Vec<Member>) -> (at: Option<usize>)
    ensures
        match at {
            Some(i) => i == members@.len() - 1 && has_only(
                map_of(members@),
                members@[i as int].key@,
            ) && map_of(members@)[members@[i as int].key@] == members@[i as int].value@,
            None => forall|key: Seq<char>| !has_only(map_of(members@), key),
        },
{
    let ghost map = map_of(members@);
    if members.len() == 0 {
        proof {
            assert forall|key: Seq<char>| !has_only(map, key) by {
                lemma_map_of_keys(members@, key);
            }
        }
        return None;
    }
    let last: usize = members.len() - 1;
    let ghost name = members@[last as int].key@;
    proof {
        assert(members@.subrange(0, members@.len() - 1).push(members@[last as int]) =~= members@);
        assert(map == map_of(members@.subrange(0, members@.len() - 1)).insert(
            name,
            members@[last as int].value@,
        ));
    }
    let mut at: usize = 0;
    while at < last
        invariant
            at <= last,
            last == members@.len() - 1,
            name == members@[last as int].key@,
            map == map_of(members@),
            map.contains_key(name),
            forall|i: int| 0 <= i < at ==> (#[trigger] members@[i]).key@ == name,
        decreases last - at,
    {
        if !same_text(members[at].key.as_str(), members[last].key.as_str()) {
            proof {
                let other = members@[at as int].key@;
                lemma_map_of_keys(members@, other);
                assert(map.contains_key(other));
                assert forall|key: Seq<char>| !has_only(map, key) by {
                    if has_only(map, key) {
                        assert(map.contains_key(name));
                        assert(other == key && name == key);
                    }
                }
            }
            return None;
        }
        at = at + 1;
    }
    proof {
        assert forall|k: Seq<char>| #[trigger] map.contains_key(k) implies k == name by {
            lemma_map_of_keys(members@, k);
        }
    }
    Some(last)
}

fn take_result(details: Json) -> (result: Option<Json>)
    ensures
        optional_value(result) == result_of(details@),
{
    match details {
        Json::Record(members) => {
            let mut rest = members;
            let ghost all = members@;
            proof {
                assert(all.subrange(0, all.len() as int) =~= all);
            }
            while rest.len() > 0
                invariant
                    details@ == JsonTree::Record(map_of(all)),
                    rest@.len() <= all.len(),
                    rest@ == all.subrange(0, rest@.len() as int),
                    map_of(all).contains_key("result"@) == map_of(rest@).contains_key("result"@),
                    map_of(all).contains_key("result"@) ==> map_of(all)["result"@] == map_of(
                        rest@,
                    )["result"@],
                decreases rest@.len(),
            {
                let ghost before = rest@;
                let last = rest.pop();
                proof {
                    assert(rest@ =~= before.subrange(0, before.len() - 1));
                    assert(rest@ =~= all.subrange(0, rest@.len() as int));
                    assert(map_of(before) == map_of(rest@).insert(
                        before[before.len() - 1].key@,
                        before[before.len() - 1].value@,
                    ));
                }
                match last {
                    Some(member) => {
                        if same_text(member.key.as_str(), "result") {
                            let value = member.value;
                            return match value {
                                Json::Null => None,
                                other => Some(other),
                            };
                        }
                    },
                    None => {},
                }
            }
            None
        },
        _ => None,
    }
}

/// Reads a task of the queue.
pub fn task_from_raw(raw: RawTask) -> (task: Result<PueueTask, PueueError>)
    ensures
        match task {
            Ok(t) => task_error(raw.id, raw.status@) is None && is_task_of(t, raw),
            Err(PueueError::InvalidStatusTask { reason }) => task_error(raw.id, raw.status@) == Some(
                reason@,
            ),
            Err(_) => false,
        },
{
    let RawTask { id, group, command, status } = raw;
    match status {
        Json::Record(members) => {
            let ghost map = map_of(members@);
            let mut members = members;
            let last = match only_member(&members) {
                Some(at) => at,
                None => {
                    return Err(shape_error("status must contain exactly one state"));
                },
            };
            let ghost name = members@[last as int].key@;
            proof {
                let chosen = choose|key: Seq<char>| has_only(map, key);
                assert(has_only(map, name));
                assert(has_only(map, chosen));
                assert(map.contains_key(chosen) && chosen == name);
            }
            let member = members.remove(last);
            let Member { key: state, value: details } = member;
            match &details {
                Json::Record(_) => {},
                _ => {
                    return Err(shape_error("state details must be an object"));
                },
            }
            let task_id = id.to_task_id()?;
            let enqueued_at = timestamp_field(
                &details,
                "enqueued_at",
                "enqueued_at timestamp must be a string when present",
            )?;
            let started_at = timestamp_field(
                &details,
                "start",
                "start timestamp must be a string when present",
            )?;
            let ended_at = timestamp_field(
                &details,
                "end",
                "end timestamp must be a string when present",
            )?;
            let result = take_result(details);
            Ok(
                PueueTask {
                    id: task_id,
                    group,
                    command,
                    state,
                    enqueued_at,
                    started_at,
                    ended_at,
                    result,
                },
            )
        },
        _ => Err(shape_error("status must be an object")),
    }
}

/// The tasks are in ascending order of their identifiers.
pub open spec fn is_ascending_by_id(tasks: Seq<PueueTask>) -> bool {
    forall|i: int, j: int| 0 <= i < j < tasks.len() ==> (#[trigger] tasks[i]).id <= (#[trigger] tasks[j]).id
}

/// The tasks are those that are meant, in some order.
pub open spec fn are_tasks_of(tasks: Seq<PueueTask>, raw: Seq<RawTask>) -> bool {
    exists|read: Seq<PueueTask>| #[trigger]
        read.to_multiset() == tasks.to_multiset() && read.len() == raw.len() && forall|i: int|
            0 <= i < raw.len() ==> is_task_of(#[trigger] read[i], raw[i])
}

/// Why a status is refused: what is wrong with the first task that is refused.
pub open spec fn status_error(raw: Seq<RawTask>) -> Option<Seq<char>>
    decreases raw.len(),
{
    if raw.len() == 0 {
        None
    } else {
        match status_error(raw.drop_last()) {
            Some(reason) => Some(reason),
            None => task_error(raw.last().id, raw.last().status@),
        }
    }
}

proof fn lemma_first_error_stays(raw: Seq<RawTask>, n: int)
    requires
        0 <= n <= raw.len(),
        status_error(raw.take(n)) is Some,
    ensures
        status_error(raw) == status_error(raw.take(n)),
    decreases raw.len() - n,
{
    if n < raw.len() {
        assert(raw.take(n + 1).drop_last() =~= raw.take(n));
        lemma_first_error_stays(raw, n + 1);
    } else {
        assert(raw.take(n) =~= raw);
    }
}

/// Reads the tasks of a status, in ascending order of their identifiers.
pub fn status_tasks(raw: Vec<RawTask>) -> (tasks: Result<Vec<PueueTask>, PueueError>)
    ensures
        match tasks {
            Ok(list) => status_error(raw@) is None && is_ascending_by_id(list@) && are_tasks_of(
                list@,
                raw@,
            ),
            Err(PueueError::InvalidStatusTask { reason }) => status_error(raw@) == Some(reason@),
            Err(_) => false,
        },
{
    let ghost all = raw@;
    let mut rest = raw;
    let mut list: Vec<PueueTask> = Vec::new();
    let ghost mut read: Seq<PueueTask> = Seq::empty();
    proof {
        assert(all.skip(0) =~= all);
    }
    while rest.len() > 0
        invariant
            all == raw@,
            read.len() <= all.len(),
            rest@ == all.skip(read.len() as int),
            status_error(all.take(read.len() as int)) is None,
            is_ascending_by_id(list@),
            list@.to_multiset() == read.to_multiset(),
            forall|i: int| 0 <= i < read.len() ==> is_task_of(#[trigger] read[i], all[i]),
        decreases rest@.len(),
    {
        let ghost done = read.len() as int;
        let next = rest.remove(0);
        proof {
            assert(next == all[done]);
            assert(rest@ =~= all.skip(done + 1));
            assert(all.take(done + 1).drop_last() =~= all.take(done));
            assert(all.take(done + 1).last() == next);
        }
        match task_from_raw(next) {
            Ok(task) => {
                proof {
                    broadcast use vstd::seq_lib::group_to_multiset_ensures;

                    assert(read.push(task).to_multiset() =~= read.to_multiset().insert(task));
                    read = read.push(task);
                }
                insert_by_id(&mut list, task);
            },
            Err(error) => {
                proof {
                    lemma_first_error_stays(all, done + 1);
                }
                return Err(error);
            },
        }
    }
    proof {
        assert(all.take(all.len() as int) =~= all);
        assert(read.to_multiset() == list@.to_multiset());
    }
    Ok(list)
}

fn insert_by_id(list: &mut Vec<PueueTask>, task: PueueTask)
    requires
        is_ascending_by_id(old(list)@),
    ensures
        is_ascending_by_id(final(list)@),
        final(list)@.to_multiset() == old(list)@.to_multiset().insert(task),
{
    let ghost before = list@;
    let mut place: usize = list.len();
    while place > 0 && task.id < list[place - 1].id
        invariant
            place <= list@.len(),
            list@ == before,
            forall|i: int| place <= i < before.len() ==> task.id <= (#[trigger] before[i]).id,
        decreases place,
    {
        place = place - 1;
    }
    proof {
        broadcast use vstd::seq_lib::group_to_multiset_ensures;

        let after = before.insert(place as int, task);
        let source = |k: int| if k < place { k } else { k - 1 };
        assert forall|i: int| 0 <= i < place implies (#[trigger] before[i]).id <= task.id by {
            if i < place - 1 {
                assert(before[i].id <= before[place - 1].id);
            }
        }
        assert forall|i: int, j: int| 0 <= i < j < after.len() implies (#[trigger] after[i]).id <= (
        #[trigger] after[j]).id by {
            if i != place && j != place {
                assert(after[i] == before[source(i)] && after[j] == before[source(j)]);
            } else if i == place {
                assert(after[j] == before[j - 1]);
            } else {
                assert(after[i] == before[i]);
            }
        }
        assert(after.to_multiset() =~= before.to_multiset().insert(task));
    }
    list.insert(place, task);
}

// ---------------------------------------------------------------------------
// Commands
// ---------------------------------------------------------------------------
pub open spec fn byte_lists(parts: Seq<Vec<u8>>) -> Seq<Seq<u8>> {
    Seq::new(parts.len(), |i: int| parts[i]@)
}

/// The first argument that ends the options, or the number of arguments.
pub open spec fn separator_at(args: Seq<Seq<u8>>) -> int
    decreases args.len(),
{
    if args.len() == 0 || args[0] == encode_utf8("--"@) {
        0
    } else {
        1 + separator_at(args.drop_first())
    }
}

/// The arguments of an addition: the task identifier is to be printed, and the
/// command behind the options is to be escaped.
pub open spec fn add_arguments(args: Seq<Seq<u8>>) -> Seq<Seq<u8>> {
    let at = if separator_at(args) < args.len() {
        separator_at(args)
    } else {
        0
    };
    seq![encode_utf8("--print-task-id"@)] + args.take(at) + seq![encode_utf8("--escape"@)]
        + args.skip(at)
}

fn push_text(list: &mut Vec<Vec<u8>>, text: &str)
    ensures
        byte_lists(final(list)@) == byte_lists(old(list)@).push(encode_utf8(text@)),
{
    let ghost before = list@;
    list.push(copy_bytes(text.as_bytes()));
    proof {
        assert(byte_lists(list@) =~= byte_lists(before).push(encode_utf8(text@)));
    }
}

fn push_args(list: &mut Vec<Vec<u8>>, args: &[Vec<u8>], from: usize, to: usize)
    requires
        from <= to <= args@.len(),
    ensures
        byte_lists(final(list)@) == byte_lists(old(list)@) + byte_lists(args@).subrange(
            from as int,
            to as int,
        ),
{
    let ghost start = byte_lists(list@);
    let ghost all = byte_lists(args@);
    let mut at: usize = from;
    proof {
        assert(start + all.subrange(from as int, from as int) =~= start);
    }
    while at < to
        invariant
            from <= at <= to <= args@.len(),
            all == byte_lists(args@),
            byte_lists(list@) == start + all.subrange(from as int, at as int),
        decreases to - at,
    {
        let ghost before = list@;
        list.push(copy_bytes(args[at].as_slice()));
        proof {
            assert(byte_lists(list@) =~= byte_lists(before).push(all[at as int]));
            assert(all.subrange(from as int, at + 1) =~= all.subrange(
                from as int,
                at as int,
            ).push(all[at as int]));
        }
        at = at + 1;
    }
}

fn find_separator(args: &[Vec<u8>]) -> (at: usize)
    ensures
        at == separator_at(byte_lists(args@)),
        at <= args@.len(),
{
    let ghost all = byte_lists(args@);
    let mut at: usize = 0;
    proof {
        assert(all.skip(0) =~= all);
    }
    while at < args.len()
        invariant
            at <= args@.len(),
            all == byte_lists(args@),
            args.len() == args@.len(),
            separator_at(all) == at + separator_at(all.skip(at as int)),
        decreases args.len() - at,
    {
        proof {
            assert(all.skip(at as int)[0] == all[at as int]);
            assert(all.skip(at as int).drop_first() =~= all.skip(at + 1));
        }
        if same_bytes(args[at].as_slice(), "--".as_bytes()) {
            return at;
        }
        at = at + 1;
    }
    at
}

/// Puts together the arguments of an addition.
pub fn add_argv(args: &[Vec<u8>]) -> (argv: Vec<Vec<u8>>)
    ensures
        byte_lists(argv@) == add_arguments(byte_lists(args@)),
{
    let ghost all = byte_lists(args@);
    let found = find_separator(args);
    let at: usize = if found < args.len() {
        found
    } else {
        0
    };
    let mut argv: Vec<Vec<u8>> = Vec::new();
    proof {
        assert(byte_lists(argv@) =~= Seq::<Seq<u8>>::empty());
    }
    push_text(&mut argv, "--print-task-id");
    push_args(&mut argv, args, 0, at);
    push_text(&mut argv, "--escape");
    push_args(&mut argv, args, at, args.len());
    proof {
        assert(all.subrange(0, at as int) =~= all.take(at as int));
        assert(all.subrange(at as int, all.len() as int) =~= all.skip(at as int));
        assert(byte_lists(argv@) =~= add_arguments(all));
    }
    argv
}

/// The command of a task is handed on as it is: behind the separator nothing is
/// added, and without a separator the whole of it stays together.
pub proof fn lemma_added_command_is_kept(args: Seq<Seq<u8>>)
    ensures
        ({
            let at = if separator_at(args) < args.len() {
                separator_at(args)
            } else {
                0
            };
            0 <= at <= args.len() && add_arguments(args).skip(at + 2) == args.skip(at)
        }),
{
    lemma_separator_is_within(args);
    let at = if separator_at(args) < args.len() {
        separator_at(args)
    } else {
        0
    };
    assert(add_arguments(args).skip(at + 2) =~= args.skip(at));
}

proof fn lemma_separator_is_within(args: Seq<Seq<u8>>)
    ensures
        0 <= separator_at(args) <= args.len(),
    decreases args.len(),
{
    if args.len() > 0 && args[0] != encode_utf8("--"@) {
        lemma_separator_is_within(args.drop_first());
    }
}

/// `std::str::from_utf8` takes bytes as text exactly where they are the UTF-8
/// form of one.
#[verifier::external_body]
pub(crate) fn text_from_utf8(bytes: &[u8]) -> (text: Option<String>)
    ensures
        match text {
            Some(t) => encode_utf8(t@) == bytes@,
            None => forall|s: Seq<char>| #[trigger] encode_utf8(s) != bytes@,
        },
{
    std::str::from_utf8(bytes).ok().map(|text| text.to_owned())
}

/// The identifier that the queue printed for a new task.
pub open spec fn is_printed_id(output: Seq<u8>, id: int) -> bool {
    id >= 0 && exists|text: Seq<char>| #[trigger]
        encode_utf8(text) == output && parsed_int(trimmed(text)) == Some(id)
}

/// Reads the identifier that the queue printed for a new task.
pub fn added_task_id(output: Vec<u8>) -> (id: Result<i64, PueueError>)
    ensures
        match id {
            Ok(n) => is_printed_id(output@, n as int),
            Err(error) => error == (PueueError::InvalidTaskId { stdout: output }) && forall|n: int|
                !is_printed_id(output@, n),
        },
{
    match text_from_utf8(output.as_slice()) {
        Some(text) => {
            let chars = chars_of(text.as_str());
            let inner = trim(chars.as_slice());
            let found = parse_int(inner.as_slice());
            proof {
                assert forall|other: Seq<char>| #[trigger]
                    encode_utf8(other) == output@ implies other == text@ by {
                    vstd::utf8::encode_utf8_decode_utf8(other);
                    vstd::utf8::encode_utf8_decode_utf8(text@);
                }
            }
            match found {
                Some(n) => if n >= 0 {
                    return Ok(n);
                },
                None => {},
            }
            Err(PueueError::InvalidTaskId { stdout: output })
        },
        None => Err(PueueError::InvalidTaskId { stdout: output }),
    }
}

/// The argument that names a task.
pub fn task_argument(task_id: i64) -> (argument: String)
    ensures
        argument@ == crate::text::decimal(task_id as int),
{
    let digits = decimal_chars(task_id);
    string_of(digits.as_slice())
}

// ---------------------------------------------------------------------------
// Groups
// ---------------------------------------------------------------------------
/// Whether the listing of the groups has a group.
pub fn group_exists(output: &[u8], group: &str) -> (found: Result<bool, PueueError>)
    ensures
        match found {
            Ok(yes) => json_read(output@) matches Some(tree) && yes == (field(tree, group@)
                is Some),
            Err(error) => json_read(output@) is None && error is InvalidGroupJson,
        },
{
    match read_bytes(output) {
        Ok(groups) => Ok(groups.get(group).is_some()),
        Err(reason) => Err(PueueError::InvalidGroupJson { reason }),
    }
}

/// What follows when a group was to be added.
pub enum GroupStep {
    /// The group is there.
    Done,
    /// The command failed: is the group there after all?
    LookAgain(AppError),
    Refuse(AppError),
}

/// The command of the queue that adds a group has failed.
pub open spec fn is_failed_group_command(error: AppError) -> bool {
    error matches AppError::Pueue(PueueError::CommandFailed {
        operation,
        exit_code: _,
        stdout: _,
        stderr: _,
    }) && operation@ == "group"@
}

/// What follows when a group was to be added.
pub fn group_added(added: Result<(), AppError>) -> (step: GroupStep)
    ensures
        match added {
            Ok(_) => step is Done,
            Err(error) => if is_failed_group_command(error) {
                step == GroupStep::LookAgain(error)
            } else {
                step == GroupStep::Refuse(error)
            },
        },
{
    match added {
        Ok(_) => GroupStep::Done,
        Err(error) => {
            let failed = match &error {
                AppError::Pueue(PueueError::CommandFailed { operation, .. }) => same_text(
                    operation,
                    "group",
                ),
                _ => false,
            };
            if failed {
                GroupStep::LookAgain(error)
            } else {
                GroupStep::Refuse(error)
            }
        },
    }
}

/// What comes of looking again: the group may have been added by another.
pub fn group_looked_again(first: AppError, found: Result<bool, AppError>) -> (outcome: Result<
    (),
    AppError,
>)
    ensures
        outcome == (if found == Ok::<bool, AppError>(true) {
            Ok::<(), AppError>(())
        } else {
            Err::<(), AppError>(first)
        }),
{
    match found {
        Ok(true) => Ok(()),
        _ => Err(first),
    }
}

/// The states that end a task, in any case: done, failed, killed, finished and
/// success; no other does.
pub proof fn lemma_states_of_tasks(state: Seq<char>, word: Seq<char>)
    requires
        lowered(state) == word,
    ensures
        word == "running"@ <==> is_running_state(state),
        (word == "done"@ || word == "failed"@ || word == "killed"@ || word == "finished"@ || word
            == "success"@) <==> is_terminal_state(state),
{
}

/// A task is read from its only state: a number that is not negative, and
/// moments that are texts, missing or null.
pub proof fn lemma_readable_task(id: RawTaskId, state: Seq<char>, details: JsonTree)
    ensures
        ({
            let status = JsonTree::Record(
                Map::<Seq<char>, JsonTree>::empty().insert(state, details),
            );
            task_error(id, status) is None <==> {
                &&& details is Record
                &&& match id {
                    RawTaskId::Integer(n) => n >= 0,
                    RawTaskId::Text(text) => parsed_int(text@) is Some && parsed_int(text@)->0 >= 0,
                }
                &&& forall|key: Seq<char>|
                    key == "enqueued_at"@ || key == "start"@ || key == "end"@ ==> (
                    #[trigger] field(details, key) is None || field(details, key) == Some(
                        JsonTree::Null,
                    ) || field(details, key)->0 is Text)
            }
        }),
{
    let map = Map::<Seq<char>, JsonTree>::empty().insert(state, details);
    assert(has_only(map, state));
    let only = choose|key: Seq<char>| has_only(map, key);
    assert(map.contains_key(only));
    assert(only == state);
    assert(field(details, "enqueued_at"@) == field(details, "enqueued_at"@));
    assert(field(details, "start"@) == field(details, "start"@));
    assert(field(details, "end"@) == field(details, "end"@));
}

/// A status without a state, or with two, is refused.
pub proof fn lemma_status_has_one_state(
    id: RawTaskId,
    map: Map<Seq<char>, JsonTree>,
    a: Seq<char>,
    b: Seq<char>,
)
    requires
        a != b,
    ensures
        map.contains_key(a) && map.contains_key(b) ==> task_error(id, JsonTree::Record(map))
            is Some,
        task_error(id, JsonTree::Record(Map::<Seq<char>, JsonTree>::empty())) is Some,
        task_error(id, JsonTree::Null) is Some,
{
}

/// The moments and the result of a task are those of its details; a null is
/// nothing.
pub proof fn lemma_details_of_a_task(details: JsonTree, key: Seq<char>, text: Seq<char>)
    ensures
        field(details, key) is None ==> moment_of(details, key) == Some(None::<Seq<char>>),
        field(details, key) == Some(JsonTree::Null) ==> moment_of(details, key) == Some(
            None::<Seq<char>>,
        ),
        field(details, key) == Some(JsonTree::Text(text)) ==> moment_of(details, key) == Some(
            Some(text),
        ),
        field(details, "result"@) is None || field(details, "result"@) == Some(JsonTree::Null)
            ==> result_of(details) is None,
        field(details, "result"@) is Some && field(details, "result"@) != Some(JsonTree::Null)
            ==> result_of(details) == field(details, "result"@),
{
}

/// A listing is refused exactly where one of its tasks is.
pub proof fn lemma_status_is_refused_by_a_task(raw: Seq<RawTask>)
    ensures
        status_error(raw) is Some <==> exists|i: int|
            0 <= i < raw.len() && task_error((#[trigger] raw[i]).id, raw[i].status@) is Some,
    decreases raw.len(),
{
    if raw.len() > 0 {
        let head = raw.drop_last();
        lemma_status_is_refused_by_a_task(head);
        if status_error(head) is Some {
            let i = choose|i: int|
                0 <= i < head.len() && task_error((#[trigger] head[i]).id, head[i].status@) is Some;
            assert(raw[i] == head[i]);
        } else if task_error(raw.last().id, raw.last().status@) is Some {
            assert(raw[raw.len() - 1] == raw.last());
        }
        assert forall|i: int|
            0 <= i < raw.len() && task_error(
                (#[trigger] raw[i]).id,
                raw[i].status@,
            ) is Some implies status_error(raw) is Some by {
            if i < head.len() {
                assert(head[i] == raw[i]);
            }
        }
    }
}

/// The options of the supervisor stand before the command: the wish for the
/// number first, and the wish for escapes right before the separator, or before
/// everything where there is none.
pub proof fn lemma_options_stand_before_the_command(before: Seq<Seq<u8>>, after: Seq<Seq<u8>>)
    requires
        !before.contains(encode_utf8("--"@)),
    ensures
        add_arguments(before + seq![encode_utf8("--"@)] + after) == seq![
            encode_utf8("--print-task-id"@),
        ] + before + seq![encode_utf8("--escape"@), encode_utf8("--"@)] + after,
        add_arguments(before) == seq![
            encode_utf8("--print-task-id"@),
            encode_utf8("--escape"@),
        ] + before,
{
    let dashes = encode_utf8("--"@);
    let args = before + seq![dashes] + after;
    lemma_separator_is_found(before, seq![dashes] + after);
    lemma_separator_is_found(before, Seq::empty());
    assert(before + Seq::<Seq<u8>>::empty() =~= before);
    assert(before + (seq![dashes] + after) =~= args);
    assert(args.take(before.len() as int) =~= before);
    assert(args.skip(before.len() as int) =~= seq![dashes] + after);
    assert(add_arguments(args) =~= seq![encode_utf8("--print-task-id"@)] + before + seq![
        encode_utf8("--escape"@),
        dashes,
    ] + after);
    assert(before.take(0) =~= Seq::<Seq<u8>>::empty());
    assert(before.skip(0) =~= before);
    assert(add_arguments(before) =~= seq![
        encode_utf8("--print-task-id"@),
        encode_utf8("--escape"@),
    ] + before);
}

proof fn lemma_separator_is_found(before: Seq<Seq<u8>>, rest: Seq<Seq<u8>>)
    requires
        !before.contains(encode_utf8("--"@)),
        rest.len() > 0 ==> rest[0] == encode_utf8("--"@),
    ensures
        separator_at(before + rest) == before.len(),
    decreases before.len(),
{
    let args = before + rest;
    if before.len() > 0 {
        assert(before.contains(before[0]));
        assert(args[0] == before[0]);
        assert(args.drop_first() =~= before.drop_first() + rest);
        assert forall|i: int| 0 <= i < before.drop_first().len() implies before.drop_first()[i]
            != encode_utf8("--"@) by {
            assert(before.contains(before[i + 1]));
        }
        lemma_separator_is_found(before.drop_first(), rest);
    }
}

/// A task says what its entry in the listing says: its only state, its number,
/// its group, its command, its moments and its result.
pub proof fn lemma_task_is_what_is_listed(task: PueueTask, raw: RawTask, details: JsonTree)
    requires
        is_task_of(task, raw),
        field(raw.status@, task.state@) == Some(details),
    ensures
        task.group@ == raw.group@,
        task.command@ == raw.command@,
        raw.id matches RawTaskId::Integer(n) ==> task.id == n,
        raw.id matches RawTaskId::Text(text) ==> parsed_int(text@) == Some(task.id as int),
        task.id >= 0,
        forall|other: Seq<char>| #[trigger] field(raw.status@, other) is Some ==> other
            == task.state@,
        field(details, "enqueued_at"@) matches Some(JsonTree::Text(text)) ==> optional_text(
            task.enqueued_at,
        ) == Some(text),
        field(details, "start"@) matches Some(JsonTree::Text(text)) ==> optional_text(
            task.started_at,
        ) == Some(text),
        field(details, "end"@) matches Some(JsonTree::Text(text)) ==> optional_text(task.ended_at)
            == Some(text),
        field(details, "enqueued_at"@) is None ==> task.enqueued_at is None,
        field(details, "start"@) is None ==> task.started_at is None,
        field(details, "end"@) is None ==> task.ended_at is None,
        field(details, "result"@) is None ==> task.result is None,
        field(details, "result"@) is Some && !(field(details, "result"@)->0 is Null)
            ==> optional_value(task.result) == field(details, "result"@),
{
}

/// A number that was printed is read, with blanks around it or without.
pub proof fn lemma_printed_numbers_are_read(text: Seq<char>, id: int)
    ensures
        id >= 0 && parsed_int(trimmed(text)) == Some(id) ==> is_printed_id(encode_utf8(text), id),
        id < 0 ==> !is_printed_id(encode_utf8(text), id),
{
}

/// The tasks of a listing are all its entries and nothing else, by their numbers.
pub proof fn lemma_tasks_of_a_listing(tasks: Seq<PueueTask>, raw: Seq<RawTask>, i: int, j: int)
    requires
        are_tasks_of(tasks, raw),
        is_ascending_by_id(tasks),
        0 <= i < raw.len(),
    ensures
        tasks.len() == raw.len(),
        exists|t: PueueTask| #[trigger] tasks.contains(t) && is_task_of(t, raw[i]),
        0 <= j < tasks.len() ==> exists|k: int|
            0 <= k < raw.len() && is_task_of(tasks[j], #[trigger] raw[k]),
        0 <= j < i ==> tasks[j].id <= tasks[i].id,
{
    broadcast use vstd::seq_lib::group_to_multiset_ensures;

    let read = choose|read: Seq<PueueTask>| #[trigger]
        read.to_multiset() == tasks.to_multiset() && read.len() == raw.len() && forall|i: int|
            0 <= i < raw.len() ==> is_task_of(#[trigger] read[i], raw[i]);
    assert(read.len() == read.to_multiset().len());
    assert(tasks.len() == tasks.to_multiset().len());
    assert(read.contains(read[i]));
    assert(read.to_multiset().count(read[i]) > 0);
    assert(tasks.to_multiset().count(read[i]) > 0);
    assert(tasks.contains(read[i]));
    if 0 <= j < tasks.len() {
        assert(tasks.contains(tasks[j]));
        assert(tasks.to_multiset().count(tasks[j]) > 0);
        assert(read.to_multiset().count(tasks[j]) > 0);
        assert(read.contains(tasks[j]));
        let k = choose|k: int| 0 <= k < read.len() && read[k] == tasks[j];
        assert(is_task_of(read[k], raw[k]));
    }
}

/// A group is looked for again exactly where the command that adds it was run and
/// failed.
pub proof fn lemma_when_a_group_is_looked_for_again(error: AppError)
    ensures
        is_failed_group_command(error) ==> error is Pueue,
        error matches AppError::Pueue(
            PueueError::CommandFailed { operation, exit_code: _, stdout: _, stderr: _ },
        ) ==> (is_failed_group_command(error) <==> operation@ == "group"@),
{
}

} // verus!
