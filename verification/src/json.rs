//! JSON values, and their text through `serde_json`.

use serde_json::Value;
use vstd::prelude::*;

use crate::text::{joined, same_text};

verus! {

/// The error of `serde_json`.
#[verifier::external_type_specification]
#[verifier::external_body]
pub struct ExJsonError(serde_json::Error);

/// The value type of `serde_json`.
#[verifier::external_type_specification]
#[verifier::external_body]
pub struct ExJsonValue(serde_json::Value);

/// The number type of `serde_json`.
#[verifier::external_type_specification]
#[verifier::external_body]
pub struct ExJsonNumber(serde_json::Number);

/// A number that is no integer of 64 bits, with the bits of its double. It comes
/// out of reading a JSON text and in no other way.
#[derive(Debug)]
pub struct RealNumber {
    number: serde_json::Number,
    bits: u64,
}

impl RealNumber {
    /// The bits of the number in double precision.
    pub closed spec fn double(&self) -> u64 {
        self.bits
    }

    pub fn bits(&self) -> (bits: u64)
        ensures
            bits == self.double(),
    {
        self.bits
    }
}

/// A JSON value.
#[derive(Debug)]
pub enum Json {
    Null,
    Bool(bool),
    Int(i64),
    Unsigned(u64),
    Real(RealNumber),
    Text(String),
    List(Vec<Json>),
    Record(Vec<Member>),
}

/// A key of a JSON object with its value.
#[derive(Debug)]
pub struct Member {
    pub key: String,
    pub value: Json,
}

/// A JSON value as a mathematical tree.
pub enum JsonTree {
    Null,
    Bool(bool),
    Int(int),
    /// A number that is no integer of 64 bits, by the bits of its double.
    Real(u64),
    Text(Seq<char>),
    List(Seq<JsonTree>),
    Record(Map<Seq<char>, JsonTree>),
}

impl View for Json {
    type V = JsonTree;

    open spec fn view(&self) -> JsonTree {
        tree_of(*self)
    }
}

pub open spec fn tree_of(json: Json) -> JsonTree
    decreases json,
{
    match json {
        Json::Null => JsonTree::Null,
        Json::Bool(b) => JsonTree::Bool(b),
        Json::Int(n) => JsonTree::Int(n as int),
        Json::Unsigned(n) => JsonTree::Int(n as int),
        Json::Real(number) => JsonTree::Real(number.double()),
        Json::Text(text) => JsonTree::Text(text@),
        Json::List(items) => JsonTree::List(
            Seq::new(
                items@.len(),
                |i: int|
                    if 0 <= i < items@.len() {
                        tree_of(items@[i])
                    } else {
                        JsonTree::Null
                    },
            ),
        ),
        Json::Record(members) => JsonTree::Record(map_of(members@)),
    }
}

/// The object that a list of members stands for: a later member replaces an
/// earlier one with the same key.
pub open spec fn map_of(members: Seq<Member>) -> Map<Seq<char>, JsonTree>
    decreases members,
{
    if members.len() == 0 {
        Map::empty()
    } else {
        map_of(members.subrange(0, members.len() - 1)).insert(
            members[members.len() - 1].key@,
            tree_of(members[members.len() - 1].value),
        )
    }
}

/// The tree that a `serde_json::Value` holds.
pub uninterp spec fn value_tree(value: serde_json::Value) -> JsonTree;

/// The compact text that `serde_json::to_string` gives a value.
pub uninterp spec fn json_text(tree: JsonTree) -> Seq<char>;

/// The value that `serde_json::from_str` reads from a text, where it reads one.
pub uninterp spec fn json_parsed(text: Seq<char>) -> Option<JsonTree>;

/// The value that `serde_json::from_slice` reads from bytes, where it reads one.
pub uninterp spec fn json_read(bytes: Seq<u8>) -> Option<JsonTree>;

/// A value whose numbers are all integers, and that is nested at most so deep.
pub open spec fn is_plain(tree: JsonTree, depth: nat) -> bool
    decreases depth,
{
    match tree {
        JsonTree::Real(_) => false,
        JsonTree::List(items) => depth > 0 && forall|i: int|
            0 <= i < items.len() ==> is_plain(#[trigger] items[i], (depth - 1) as nat),
        JsonTree::Record(map) => depth > 0 && forall|key: Seq<char>| #[trigger]
            map.contains_key(key) ==> is_plain(map[key], (depth - 1) as nat),
        _ => true,
    }
}

/// How deep a value may be nested for its text to be read back: the reader
/// stops at 128.
pub const PLAIN_DEPTH: usize = 100;

/// The text of the value is read as the value.
pub open spec fn reads_back(tree: JsonTree) -> bool {
    json_parsed(json_text(tree)) == Some(tree)
}

/// Builds the `serde_json::Value` with the same contents; a later member of an
/// object replaces an earlier one, as in `serde_json::Map`.
#[verifier::external_body]
fn to_value(json: &Json) -> (value: serde_json::Value)
    ensures
        value_tree(value) == json@,
{
    match json {
        Json::Null => serde_json::Value::Null,
        Json::Bool(b) => serde_json::Value::from(*b),
        Json::Int(n) => serde_json::Value::from(*n),
        Json::Unsigned(n) => serde_json::Value::from(*n),
        Json::Real(r) => serde_json::Value::Number(r.number.clone()),
        Json::Text(text) => serde_json::Value::from(text.as_str()),
        Json::List(items) => items.iter().map(to_value).collect(),
        Json::Record(all) => all.iter().map(|m| (m.key.clone(), to_value(&m.value))).collect(),
    }
}

/// Reads the contents of a `serde_json::Value`: an integer as an integer, any
/// other number with the bits of its double.
#[verifier::external_body]
fn from_value(value: &serde_json::Value) -> (json: Json)
    ensures
        json@ == value_tree(*value),
{
    match value {
        Value::Null => Json::Null,
        Value::Bool(b) => Json::Bool(*b),
        Value::Number(n) => n.as_i64().map(Json::Int).or(n.as_u64().map(Json::Unsigned)).unwrap_or(
            Json::Real(RealNumber { bits: n.as_f64().map_or(0, |d| d.to_bits()), number: n.clone() }),
        ),
        Value::String(text) => Json::Text(text.clone()),
        Value::Array(items) => Json::List(items.iter().map(from_value).collect()),
        Value::Object(map) => Json::Record(
            map.iter().map(|(k, v)| Member { key: k.clone(), value: from_value(v) }).collect()),
    }
}

/// `serde_json::to_string` gives a value its compact text, and does not fail on
/// a value. `serde_json::from_str` reads that text as the value itself, where all
/// numbers are integers and the value is not nested too deep for the reader; of a
/// fraction it may give back a neighbour.
#[verifier::external_body]
fn serialized(value: &serde_json::Value) -> (text: Result<String, serde_json::Error>)
    ensures
        text is Ok,
        text is Ok ==> text->Ok_0@ == json_text(value_tree(*value)),
        text is Ok && is_plain(value_tree(*value), PLAIN_DEPTH as nat) ==> json_parsed(
            text->Ok_0@,
        ) == Some(value_tree(*value)),
{
    serde_json::to_string(value)
}

pub open spec fn value_entries(entries: Seq<(String, serde_json::Value)>) -> Seq<
    (Seq<char>, JsonTree),
> {
    Seq::new(entries.len(), |i: int| (entries[i].0@, value_tree(entries[i].1)))
}

/// `serde::Serializer::collect_map` on a `serde_json::Serializer` writes the
/// entries of an object in the order in which they come, compactly: each is the
/// text of its key, a colon and the text of its value. It does not fail on text
/// keys. `serde_json::from_str` reads that text as the object, where all numbers
/// of all entries are integers and no entry, not even one whose key comes again,
/// is nested too deep for the reader.
#[verifier::external_body]
fn serialized_entries(entries: Vec<(String, serde_json::Value)>) -> (text: Result<
    String,
    serde_json::Error,
>)
    ensures
        text is Ok,
        text is Ok ==> text->Ok_0@ == object_text(value_entries(entries@)),
        text is Ok && are_plain(value_entries(entries@)) ==> json_parsed(text->Ok_0@) == Some(
            JsonTree::Record(object_of(value_entries(entries@))),
        ),
{
    let mut bytes: Vec<u8> = Vec::new();
    serde::Serializer::collect_map(&mut serde_json::Serializer::new(&mut bytes), entries)?;
    Ok(String::from_utf8_lossy(&bytes).into_owned())
}

/// `serde_json::from_str` reads a value from a text, or fails.
#[verifier::external_body]
fn deserialized(text: &str) -> (value: Result<serde_json::Value, serde_json::Error>)
    ensures
        match value {
            Ok(v) => json_parsed(text@) == Some(value_tree(v)),
            Err(_) => json_parsed(text@) is None,
        },
{
    serde_json::from_str(text)
}

/// `serde_json::from_slice` reads a value from bytes, or fails.
#[verifier::external_body]
fn deserialized_bytes(bytes: &[u8]) -> (value: Result<serde_json::Value, serde_json::Error>)
    ensures
        match value {
            Ok(v) => json_read(bytes@) == Some(value_tree(v)),
            Err(_) => json_read(bytes@) is None,
        },
{
    serde_json::from_slice(bytes)
}

/// The `Display` of `serde_json::Error` says what is wrong with a text; nothing
/// is claimed of its wording.
#[verifier::external_body]
fn describe(error: &serde_json::Error) -> (text: String)
{
    error.to_string()
}

/// The compact text of a JSON value.
pub fn render(json: &Json) -> (text: Option<String>)
    ensures
        text is Some,
        text->0@ == json_text(json@),
        is_plain(json@, PLAIN_DEPTH as nat) ==> reads_back(json@),
{
    let value = to_value(json);
    match serialized(&value) {
        Ok(text) => Some(text),
        Err(_) => None,
    }
}

/// Reads a JSON value from its text.
pub fn parse(text: &str) -> (json: Option<Json>)
    ensures
        match json {
            Some(j) => json_parsed(text@) == Some(j@),
            None => json_parsed(text@) is None,
        },
{
    match deserialized(text) {
        Ok(value) => Some(from_value(&value)),
        Err(_) => None,
    }
}

/// Reads a JSON value from bytes, or says in words why it is none.
pub fn read_bytes(bytes: &[u8]) -> (json: Result<Json, String>)
    ensures
        match json {
            Ok(j) => json_read(bytes@) == Some(j@),
            Err(_) => json_read(bytes@) is None,
        },
{
    match deserialized_bytes(bytes) {
        Ok(value) => Ok(from_value(&value)),
        Err(error) => Err(describe(&error)),
    }
}

/// Reads a JSON value from bytes.
pub fn parse_bytes(bytes: &[u8]) -> (json: Option<Json>)
    ensures
        match json {
            Some(j) => json_read(bytes@) == Some(j@),
            None => json_read(bytes@) is None,
        },
{
    match deserialized_bytes(bytes) {
        Ok(value) => Some(from_value(&value)),
        Err(_) => None,
    }
}

// ---------------------------------------------------------------------------
// Reading a value
// ---------------------------------------------------------------------------
/// The value at a key of an object.
pub open spec fn field(tree: JsonTree, key: Seq<char>) -> Option<JsonTree> {
    match tree {
        JsonTree::Record(map) => if map.contains_key(key) {
            Some(map[key])
        } else {
            None
        },
        _ => None,
    }
}

pub open spec fn text_field(tree: JsonTree, key: Seq<char>) -> Option<Seq<char>> {
    match field(tree, key) {
        Some(JsonTree::Text(text)) => Some(text),
        _ => None,
    }
}

/// The integer at a key of an object, where it is one of 64 bits with a sign.
pub open spec fn int_field(tree: JsonTree, key: Seq<char>) -> Option<int> {
    match field(tree, key) {
        Some(JsonTree::Int(n)) => if i64::MIN <= n <= i64::MAX {
            Some(n)
        } else {
            None
        },
        _ => None,
    }
}

impl Json {
    /// The value at a key of an object.
    pub fn get(&self, key: &str) -> (found: Option<&Json>)
        ensures
            match found {
                Some(j) => field(self@, key@) == Some(j@),
                None => field(self@, key@) is None,
            },
    {
        match self {
            Json::Record(members) => {
                let mut at: usize = members.len();
                proof {
                    assert(members@.subrange(0, members@.len() as int) =~= members@);
                }
                while at > 0
                    invariant
                        at <= members@.len(),
                        self@ == JsonTree::Record(map_of(members@)),
                        map_of(members@).contains_key(key@) <==> map_of(
                            members@.subrange(0, at as int),
                        ).contains_key(key@),
                        map_of(members@).contains_key(key@) ==> map_of(members@)[key@] == map_of(
                            members@.subrange(0, at as int),
                        )[key@],
                    decreases at,
                {
                    proof {
                        let head = members@.subrange(0, at as int);
                        assert(head.subrange(0, head.len() - 1) =~= members@.subrange(0, at - 1));
                        assert(head[head.len() - 1] == members@[at - 1]);
                        assert(map_of(head) == map_of(members@.subrange(0, at - 1)).insert(
                            members@[at - 1].key@,
                            members@[at - 1].value@,
                        ));
                    }
                    at = at - 1;
                    if same_text(members[at].key.as_str(), key) {
                        return Some(&members[at].value);
                    }
                }
                None
            },
            _ => None,
        }
    }

    /// The text at a key of an object.
    pub fn get_text(&self, key: &str) -> (found: Option<&String>)
        ensures
            match found {
                Some(text) => text_field(self@, key@) == Some(text@),
                None => text_field(self@, key@) is None,
            },
    {
        match self.get(key) {
            Some(Json::Text(text)) => Some(text),
            _ => None,
        }
    }

    /// The integer at a key of an object.
    pub fn get_int(&self, key: &str) -> (found: Option<i64>)
        ensures
            match found {
                Some(n) => int_field(self@, key@) == Some(n as int),
                None => int_field(self@, key@) is None,
            },
    {
        match self.get(key) {
            Some(Json::Int(n)) => Some(*n),
            Some(Json::Unsigned(n)) => if *n <= i64::MAX as u64 {
                Some(*n as i64)
            } else {
                None
            },
            _ => None,
        }
    }
}

// ---------------------------------------------------------------------------
// Building a value
// ---------------------------------------------------------------------------
pub fn text_value(text: &str) -> (json: Json)
    ensures
        json@ == JsonTree::Text(text@),
{
    Json::Text(text.to_owned())
}

/// The object without members.
pub fn empty_record() -> (json: Json)
    ensures
        json@ == JsonTree::Record(Map::empty()),
{
    let members: Vec<Member> = Vec::new();
    proof {
        assert(map_of(members@) == Map::<Seq<char>, JsonTree>::empty());
    }
    Json::Record(members)
}

pub open spec fn optional_tree(text: Option<Seq<char>>) -> JsonTree {
    match text {
        Some(t) => JsonTree::Text(t),
        None => JsonTree::Null,
    }
}

pub fn optional_int(n: Option<i64>) -> (json: Json)
    ensures
        json@ == (match n {
            Some(v) => JsonTree::Int(v as int),
            None => JsonTree::Null,
        }),
{
    match n {
        Some(v) => Json::Int(v),
        None => Json::Null,
    }
}

/// Adds a member to the members of an object.
pub fn put(members: &mut Vec<Member>, key: &str, value: Json)
    ensures
        map_of(final(members)@) == map_of(old(members)@).insert(key@, value@),
{
    members.push(Member { key: key.to_owned(), value });
    proof {
        let all = members@;
        assert(all.subrange(0, all.len() - 1) =~= old(members)@);
    }
}

// ---------------------------------------------------------------------------
// Objects with an order
// ---------------------------------------------------------------------------
/// The text of an entry of an object.
pub open spec fn entry_text(entry: (Seq<char>, JsonTree)) -> Seq<char> {
    json_text(JsonTree::Text(entry.0)) + ":"@ + json_text(entry.1)
}

/// The text of an object whose entries keep their order.
pub open spec fn object_text(entries: Seq<(Seq<char>, JsonTree)>) -> Seq<char> {
    "{"@ + joined(Seq::new(entries.len(), |i: int| entry_text(entries[i])), ","@) + "}"@
}

/// The object that a list of entries stands for: a later entry replaces an
/// earlier one with the same key.
pub open spec fn object_of(entries: Seq<(Seq<char>, JsonTree)>) -> Map<Seq<char>, JsonTree>
    decreases entries.len(),
{
    if entries.len() == 0 {
        Map::empty()
    } else {
        object_of(entries.drop_last()).insert(entries.last().0, entries.last().1)
    }
}

/// The text of the entries is read as the object that they stand for.
pub open spec fn object_reads_back(entries: Seq<(Seq<char>, JsonTree)>) -> bool {
    json_parsed(object_text(entries)) == Some(JsonTree::Record(object_of(entries)))
}

/// The value of every entry is plain, one level below the object that holds it.
pub open spec fn are_plain(entries: Seq<(Seq<char>, JsonTree)>) -> bool {
    forall|i: int|
        0 <= i < entries.len() ==> is_plain(
            (#[trigger] entries[i]).1,
            (PLAIN_DEPTH - 1) as nat,
        )
}

pub open spec fn have_own_keys(entries: Seq<(Seq<char>, JsonTree)>) -> bool {
    forall|i: int, j: int|
        0 <= i < j < entries.len() ==> (#[trigger] entries[i]).0 != (#[trigger] entries[j]).0
}

/// Where no key occurs twice, each entry is found under its key.
pub proof fn lemma_entry_is_found(entries: Seq<(Seq<char>, JsonTree)>, i: int)
    requires
        have_own_keys(entries),
        0 <= i < entries.len(),
    ensures
        object_of(entries).contains_key(entries[i].0),
        object_of(entries)[entries[i].0] == entries[i].1,
    decreases entries.len(),
{
    if i < entries.len() - 1 {
        let head = entries.drop_last();
        assert forall|a: int, b: int| 0 <= a < b < head.len() implies (#[trigger] head[a]).0
            != (#[trigger] head[b]).0 by {
            assert(entries[a].0 != entries[b].0);
        }
        lemma_entry_is_found(head, i);
        assert(entries[i].0 != entries[entries.len() - 1].0);
    }
}

pub open spec fn entries_of(members: Seq<Member>) -> Seq<(Seq<char>, JsonTree)> {
    Seq::new(members.len(), |i: int| (members[i].key@, members[i].value@))
}

/// The compact text of an object whose members keep their order.
pub fn render_ordered(members: &Vec<Member>) -> (text: Option<String>)
    ensures
        text is Some,
        text->0@ == object_text(entries_of(members@)),
        are_plain(entries_of(members@)) ==> object_reads_back(entries_of(members@)),
{
    let mut entries: Vec<(String, serde_json::Value)> = Vec::new();
    let mut at: usize = 0;
    while at < members.len()
        invariant
            at <= members@.len(),
            entries@.len() == at,
            forall|i: int|
                0 <= i < at ==> (#[trigger] entries@[i]).0@ == members@[i].key@ && value_tree(
                    entries@[i].1,
                ) == members@[i].value@,
        decreases members.len() - at,
    {
        entries.push((members[at].key.as_str().to_owned(), to_value(&members[at].value)));
        at = at + 1;
    }
    proof {
        assert(value_entries(entries@) =~= entries_of(members@));
    }
    match serialized_entries(entries) {
        Ok(text) => Some(text),
        Err(_) => None,
    }
}

// ---------------------------------------------------------------------------
// Reading a structure
// ---------------------------------------------------------------------------
/// The keys of an object are among these names.
pub open spec fn only_names(map: Map<Seq<char>, JsonTree>, names: Seq<Seq<char>>) -> bool {
    forall|key: Seq<char>| #[trigger] map.contains_key(key) ==> names.contains(key)
}

/// A value that can hold the fields with these names and no others: an object,
/// or a list with one item for each.
pub open spec fn holds_fields(tree: JsonTree, names: Seq<Seq<char>>) -> bool {
    match tree {
        JsonTree::Record(map) => only_names(map, names),
        JsonTree::List(items) => items.len() == names.len(),
        _ => false,
    }
}

/// The value of a field of a structure, where it is given.
pub open spec fn slot(tree: JsonTree, names: Seq<Seq<char>>, i: int) -> Option<JsonTree> {
    match tree {
        JsonTree::List(items) => Some(items[i]),
        _ => field(tree, names[i]),
    }
}

/// A text, where the field is given and holds one.
pub open spec fn read_text(value: Option<JsonTree>) -> Option<Seq<char>> {
    match value {
        Some(JsonTree::Text(text)) => Some(text),
        _ => None,
    }
}

/// An integer within bounds, where the field is given and holds one.
pub open spec fn read_int(value: Option<JsonTree>, low: int, high: int) -> Option<int> {
    match value {
        Some(JsonTree::Int(n)) => if low <= n <= high {
            Some(n)
        } else {
            None
        },
        _ => None,
    }
}

/// An integer within bounds that may be left out or null; the outer option says
/// whether the field is well formed.
pub open spec fn read_optional_int(value: Option<JsonTree>, low: int, high: int) -> Option<Option<int>> {
    match value {
        None => Some(None),
        Some(JsonTree::Null) => Some(None),
        Some(JsonTree::Int(n)) => if low <= n <= high {
            Some(Some(n))
        } else {
            None
        },
        _ => None,
    }
}

pub open spec fn name_views(names: Seq<&str>) -> Seq<Seq<char>> {
    Seq::new(names.len(), |i: int| names[i]@)
}

pub open spec fn value_at(found: Option<&Json>) -> Option<JsonTree> {
    match found {
        Some(json) => Some(json@),
        None => None,
    }
}

/// The keys of an object are the keys of its members.
pub proof fn lemma_map_of_keys(members: Seq<Member>, key: Seq<char>)
    ensures
        map_of(members).contains_key(key) <==> exists|i: int|
            0 <= i < members.len() && (#[trigger] members[i]).key@ == key,
    decreases members.len(),
{
    if members.len() > 0 {
        let head = members.subrange(0, members.len() - 1);
        lemma_map_of_keys(head, key);
        assert forall|i: int| 0 <= i < head.len() implies head[i] == members[i] by {}
        if map_of(head).contains_key(key) {
            let i = choose|i: int| 0 <= i < head.len() && (#[trigger] head[i]).key@ == key;
            assert(members[i].key@ == key);
        }
        if exists|i: int| 0 <= i < members.len() && (#[trigger] members[i]).key@ == key {
            let i = choose|i: int| 0 <= i < members.len() && (#[trigger] members[i]).key@ == key;
            if i < head.len() {
                assert(head[i].key@ == key);
            }
        }
    }
}

fn is_among(name: &str, names: &Vec<&str>) -> (yes: bool)
    ensures
        yes == name_views(names@).contains(name@),
{
    let mut at: usize = 0;
    while at < names.len()
        invariant
            at <= names@.len(),
            forall|i: int| 0 <= i < at ==> (#[trigger] name_views(names@)[i]) != name@,
        decreases names.len() - at,
    {
        if same_text(names[at], name) {
            proof {
                assert(name_views(names@)[at as int] == name@);
            }
            return true;
        }
        at = at + 1;
    }
    false
}

impl Json {
    /// Whether the value can hold the fields with these names and no others.
    pub fn holds(&self, names: &Vec<&str>) -> (yes: bool)
        ensures
            yes == holds_fields(self@, name_views(names@)),
    {
        match self {
            Json::Record(members) => {
                let mut at: usize = 0;
                while at < members.len()
                    invariant
                        at <= members@.len(),
                        self@ == JsonTree::Record(map_of(members@)),
                        forall|i: int|
                            0 <= i < at ==> name_views(names@).contains(
                                (#[trigger] members@[i]).key@,
                            ),
                    decreases members.len() - at,
                {
                    if !is_among(members[at].key.as_str(), names) {
                        proof {
                            lemma_map_of_keys(members@, members@[at as int].key@);
                            let map = map_of(members@);
                            let key = members@[at as int].key@;
                            assert(map.contains_key(key) && !name_views(names@).contains(key));
                            if only_names(map, name_views(names@)) {
                                assert(name_views(names@).contains(key));
                            }
                        }
                        return false;
                    }
                    at = at + 1;
                }
                proof {
                    assert forall|key: Seq<char>| #[trigger]
                        map_of(members@).contains_key(key) implies name_views(names@).contains(key) by {
                        lemma_map_of_keys(members@, key);
                    }
                }
                true
            },
            Json::List(items) => items.len() == names.len(),
            _ => false,
        }
    }

    /// The value of one of the fields of a structure.
    pub fn slot_at(&self, names: &Vec<&str>, i: usize) -> (found: Option<&Json>)
        requires
            i < names@.len(),
            holds_fields(self@, name_views(names@)),
        ensures
            value_at(found) == slot(self@, name_views(names@), i as int),
    {
        match self {
            Json::List(items) => Some(&items[i]),
            _ => self.get(names[i]),
        }
    }
}

pub fn text_in(found: Option<&Json>) -> (text: Option<String>)
    ensures
        match text {
            Some(t) => read_text(value_at(found)) == Some(t@),
            None => read_text(value_at(found)) is None,
        },
{
    match found {
        Some(Json::Text(text)) => Some(text.clone()),
        _ => None,
    }
}

pub fn int_in(found: Option<&Json>, low: i64, high: i64) -> (n: Option<i64>)
    ensures
        match n {
            Some(v) => read_int(value_at(found), low as int, high as int) == Some(v as int),
            None => read_int(value_at(found), low as int, high as int) is None,
        },
{
    match found {
        Some(Json::Int(n)) => if low <= *n && *n <= high {
            Some(*n)
        } else {
            None
        },
        Some(Json::Unsigned(n)) => if *n <= i64::MAX as u64 && low <= *n as i64 && *n as i64 <= high {
            Some(*n as i64)
        } else {
            None
        },
        _ => None,
    }
}

pub open spec fn widened(n: Option<i64>) -> Option<int> {
    match n {
        Some(v) => Some(v as int),
        None => None,
    }
}

pub fn optional_int_in(found: Option<&Json>, low: i64, high: i64) -> (n: Option<Option<i64>>)
    ensures
        match n {
            Some(v) => read_optional_int(value_at(found), low as int, high as int) == Some(
                widened(v),
            ),
            None => read_optional_int(value_at(found), low as int, high as int) is None,
        },
{
    match found {
        None => Some(None),
        Some(Json::Null) => Some(None),
        _ => match int_in(found, low, high) {
            Some(v) => Some(Some(v)),
            None => None,
        },
    }
}

// ---------------------------------------------------------------------------
// Copying a value
// ---------------------------------------------------------------------------
/// `Clone` of `serde_json::Number` gives the same number.
#[verifier::external_body]
fn copy_number(number: &serde_json::Number) -> (copy: serde_json::Number)
    ensures
        copy == *number,
{
    number.clone()
}

/// A copy of a value.
pub fn copy_json(json: &Json) -> (copy: Json)
    ensures
        copy@ == json@,
    decreases json,
{
    match json {
        Json::Null => Json::Null,
        Json::Bool(b) => Json::Bool(*b),
        Json::Int(n) => Json::Int(*n),
        Json::Unsigned(n) => Json::Unsigned(*n),
        Json::Real(r) => Json::Real(RealNumber { number: copy_number(&r.number), bits: r.bits }),
        Json::Text(text) => Json::Text(text.clone()),
        Json::List(items) => {
            let copy = Json::List(copy_items(items));
            proof {
                assert(copy@->List_0 =~= json@->List_0);
            }
            copy
        },
        Json::Record(members) => Json::Record(copy_members(members)),
    }
}

fn copy_items(items: &Vec<Json>) -> (copy: Vec<Json>)
    ensures
        copy@.len() == items@.len(),
        forall|i: int| 0 <= i < items@.len() ==> (#[trigger] copy@[i])@ == items@[i]@,
    decreases items,
{
    let mut copy: Vec<Json> = Vec::new();
    let mut at: usize = 0;
    while at < items.len()
        invariant
            at <= items@.len(),
            copy@.len() == at,
            forall|i: int| 0 <= i < at ==> (#[trigger] copy@[i])@ == items@[i]@,
        decreases items.len() - at,
    {
        copy.push(copy_json(&items[at]));
        at = at + 1;
    }
    copy
}

fn copy_members(members: &Vec<Member>) -> (copy: Vec<Member>)
    ensures
        map_of(copy@) == map_of(members@),
    decreases members,
{
    let mut copy: Vec<Member> = Vec::new();
    let mut at: usize = 0;
    proof {
        assert(map_of(copy@) == map_of(members@.subrange(0, 0)));
    }
    while at < members.len()
        invariant
            at <= members@.len(),
            map_of(copy@) == map_of(members@.subrange(0, at as int)),
        decreases members.len() - at,
    {
        let ghost before = copy@;
        let value = copy_json(&members[at].value);
        copy.push(Member { key: members[at].key.clone(), value });
        proof {
            assert(copy@.subrange(0, copy@.len() - 1) =~= before);
            let head = members@.subrange(0, at + 1);
            assert(head.subrange(0, head.len() - 1) =~= members@.subrange(0, at as int));
        }
        at = at + 1;
    }
    proof {
        assert(members@.subrange(0, members@.len() as int) =~= members@);
    }
    copy
}

/// What is read of a field: a text only where it is one, a number only where it
/// is an integer within its bounds, and a number that may be missing also where
/// it is left out or null.
pub proof fn lemma_what_is_read_of_a_field(tree: JsonTree, low: int, high: int, n: int)
    ensures
        read_text(Some(tree)) is Some <==> tree is Text,
        read_text(None) is None,
        tree matches JsonTree::Text(text) ==> read_text(Some(tree)) == Some(text),
        read_int(Some(tree), low, high) == Some(n) <==> tree == JsonTree::Int(n) && low <= n
            <= high,
        read_int(None, low, high) is None,
        read_optional_int(None, low, high) == Some(None::<int>),
        read_optional_int(Some(JsonTree::Null), low, high) == Some(None::<int>),
        read_optional_int(Some(tree), low, high) == Some(Some(n)) <==> tree == JsonTree::Int(n)
            && low <= n <= high,
        !(tree is Null) && !(tree is Int) ==> read_optional_int(Some(tree), low, high) is None,
{
}

/// A structure is given as an object with no members but its own, or as a list
/// with one item for each.
pub proof fn lemma_how_structures_are_given(
    map: Map<Seq<char>, JsonTree>,
    items: Seq<JsonTree>,
    names: Seq<Seq<char>>,
    i: int,
    name: Seq<char>,
)
    requires
        0 <= i < names.len(),
    ensures
        map.contains_key(name) && !names.contains(name) ==> !holds_fields(
            JsonTree::Record(map),
            names,
        ),
        holds_fields(JsonTree::List(items), names) <==> items.len() == names.len(),
        items.len() == names.len() ==> slot(JsonTree::List(items), names, i) == Some(items[i]),
        map.contains_key(names[i]) ==> slot(JsonTree::Record(map), names, i) == Some(map[names[i]]),
        !map.contains_key(names[i]) ==> slot(JsonTree::Record(map), names, i) is None,
        !holds_fields(JsonTree::Null, names),
{
}

} // verus!
