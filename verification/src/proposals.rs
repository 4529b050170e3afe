//! The validation of proposals for the next step of a campaign, and the digest
//! that identifies a proposal by its contents.

use vstd::prelude::*;
use vstd::string::*;
use vstd::utf8::*;

use crate::digest::{hex, is_hex_char, lemma_hex_tells_bytes_apart, sha256_hex, sha256_of};
use crate::error::{invalid, AppError};
use crate::frame::leaf_error;
use crate::fspath::{components, is_absolute, part_views, split, Component, PathPart};
use crate::json::{
    are_plain, entries_of, have_own_keys, is_plain, lemma_entry_is_found, object_of,
    object_reads_back, object_text, optional_tree, render_ordered, text_value, Json, JsonTree,
    Member, PLAIN_DEPTH,
};
use crate::models::is_validation_error;
use crate::process::{MAX_ARGV, MAX_FIELD_SIZE};
use crate::promotion::optional_text;
use crate::states::{lemma_proposal_kind_labels_differ, ProposalKind};
use crate::text::{
    byte_len, chars_of, control, copied, is_control, join, joined, lemma_byte_len_is_utf8_len,
    measured, same_chars, same_text, views,
};

verus! {

pub const MAX_HYPOTHESIS_BYTES: usize = 4096;

pub const MAX_EXPECTED_EVIDENCE_ITEMS: usize = 16;

pub const MAX_EXPECTED_EVIDENCE_BYTES: usize = 512;

pub const MAX_SOURCE_EXPERIMENT_ID_BYTES: usize = 128;

/// How many arguments the queue client adds in front of a command.
pub const PUEUE_ADD_FIXED_ARGV_ITEMS: usize = 9;

/// A proposal as it comes in.
#[derive(Clone, Debug)]
pub struct ProposalInput {
    pub kind: ProposalKind,
    pub hypothesis: String,
    pub source_experiment_id: Option<String>,
    pub argv: Vec<String>,
    pub working_directory: String,
    pub expected_evidence: Vec<String>,
}

/// A proposal that keeps every rule, with its digest.
#[derive(Clone, Debug)]
pub struct ValidatedProposal {
    kind: ProposalKind,
    hypothesis: String,
    source_experiment_id: Option<String>,
    argv: Vec<String>,
    working_directory: String,
    expected_evidence: Vec<String>,
    canonical_digest: String,
}

/// A proposal as mathematics.
pub struct ProposalView {
    pub kind: ProposalKind,
    pub hypothesis: Seq<char>,
    pub source_experiment_id: Option<Seq<char>>,
    pub argv: Seq<Seq<char>>,
    pub working_directory: Seq<char>,
    pub expected_evidence: Seq<Seq<char>>,
}

pub open spec fn text_views(texts: Seq<String>) -> Seq<Seq<char>> {
    Seq::new(texts.len(), |i: int| texts[i]@)
}

impl View for ProposalInput {
    type V = ProposalView;

    open spec fn view(&self) -> ProposalView {
        ProposalView {
            kind: self.kind,
            hypothesis: self.hypothesis@,
            source_experiment_id: optional_text(self.source_experiment_id),
            argv: text_views(self.argv@),
            working_directory: self.working_directory@,
            expected_evidence: text_views(self.expected_evidence@),
        }
    }
}

impl View for ValidatedProposal {
    type V = ProposalView;

    closed spec fn view(&self) -> ProposalView {
        ProposalView {
            kind: self.kind,
            hypothesis: self.hypothesis@,
            source_experiment_id: optional_text(self.source_experiment_id),
            argv: text_views(self.argv@),
            working_directory: self.working_directory@,
            expected_evidence: text_views(self.expected_evidence@),
        }
    }
}

// ---------------------------------------------------------------------------
// Rules
// ---------------------------------------------------------------------------
/// A text of at most so many bytes, without control characters.
pub open spec fn is_bounded(text: Seq<char>, max_bytes: nat) -> bool {
    &&& byte_len(text) <= max_bytes
    &&& forall|i: int| 0 <= i < text.len() ==> !is_control(#[trigger] text[i])
}

pub open spec fn all_bounded(texts: Seq<Seq<char>>, max_bytes: nat) -> bool {
    forall|i: int| 0 <= i < texts.len() ==> is_bounded(#[trigger] texts[i], max_bytes)
}

pub open spec fn needs_source(kind: ProposalKind) -> bool {
    kind == ProposalKind::Repair || kind == ProposalKind::CodeChange || kind
        == ProposalKind::DataEvaluation
}

/// The names of a path that has named components only.
pub open spec fn names_of(parts: Seq<Component>) -> Seq<Seq<char>> {
    Seq::new(parts.len(), |i: int| parts[i]->Normal_0)
}

/// The current directory, or a relative path of named components in its plain
/// form.
pub open spec fn is_plain_directory(path: Seq<char>) -> bool {
    &&& forall|i: int| 0 <= i < path.len() ==> !is_control(#[trigger] path[i])
    &&& !is_absolute(path)
    &&& path == "."@ || ({
        let parts = components(path);
        &&& parts.len() > 0
        &&& forall|i: int| 0 <= i < parts.len() ==> #[trigger] parts[i] is Normal
        &&& joined(names_of(parts), "/"@) == path
    })
}

/// The first rule that a proposal breaks, if any.
pub open spec fn proposal_error(p: ProposalView) -> Option<(Seq<char>, Seq<char>)> {
    if !is_bounded(p.hypothesis, MAX_HYPOTHESIS_BYTES as nat) {
        Some(("hypothesis"@, "must be at most 4096 bytes without control characters"@))
    } else if p.source_experiment_id is Some && (p.source_experiment_id->0.len() == 0
        || !is_bounded(p.source_experiment_id->0, MAX_SOURCE_EXPERIMENT_ID_BYTES as nat)) {
        Some(("source_experiment_id"@, "must be 1 to 128 bytes without control characters"@))
    } else if needs_source(p.kind) && p.source_experiment_id is None {
        Some(("source_experiment_id"@, "is required for this proposal kind"@))
    } else if p.argv.len() == 0 {
        Some(("argv"@, "must not be empty"@))
    } else if p.argv.len() > MAX_ARGV - PUEUE_ADD_FIXED_ARGV_ITEMS {
        Some(("argv"@, "contains too many items for the native control frame"@))
    } else if !all_bounded(p.argv, MAX_FIELD_SIZE as nat) {
        Some(("argv"@, "items must fit the native field limit without control characters"@))
    } else if p.expected_evidence.len() > MAX_EXPECTED_EVIDENCE_ITEMS {
        Some(("expected_evidence"@, "contains too many items"@))
    } else if !all_bounded(p.expected_evidence, MAX_EXPECTED_EVIDENCE_BYTES as nat) {
        Some(
            ("expected_evidence"@, "items must be at most 512 bytes without control characters"@),
        )
    } else if !is_plain_directory(p.working_directory) {
        Some(("working_directory"@, "must be . or a relative path of normal components"@))
    } else {
        None
    }
}

fn has_control(chars: &Vec<char>) -> (yes: bool)
    ensures
        yes == exists|i: int| 0 <= i < chars@.len() && is_control(#[trigger] chars@[i]),
{
    let mut at: usize = 0;
    while at < chars.len()
        invariant
            at <= chars@.len(),
            forall|i: int| 0 <= i < at ==> !is_control(#[trigger] chars@[i]),
        decreases chars.len() - at,
    {
        if control(chars[at]) {
            return true;
        }
        at = at + 1;
    }
    false
}

fn bounded(text: &str, max_bytes: usize) -> (yes: bool)
    ensures
        yes == is_bounded(text@, max_bytes as nat),
{
    if measured(text) > max_bytes {
        return false;
    }
    let chars = chars_of(text);
    !has_control(&chars)
}

fn bounded_all(texts: &Vec<String>, max_bytes: usize) -> (yes: bool)
    ensures
        yes == all_bounded(text_views(texts@), max_bytes as nat),
{
    let ghost all = text_views(texts@);
    let mut at: usize = 0;
    while at < texts.len()
        invariant
            at <= texts@.len(),
            all == text_views(texts@),
            forall|i: int| 0 <= i < at ==> is_bounded(#[trigger] all[i], max_bytes as nat),
        decreases texts.len() - at,
    {
        proof {
            assert(all[at as int] == texts@[at as int]@);
        }
        if !bounded(texts[at].as_str(), max_bytes) {
            return false;
        }
        at = at + 1;
    }
    true
}

fn plain_directory(path: &str) -> (yes: bool)
    ensures
        yes == is_plain_directory(path@),
{
    let chars = chars_of(path);
    if has_control(&chars) {
        return false;
    }
    if chars.len() > 0 && chars[0] == '/' {
        return false;
    }
    if same_text(path, ".") {
        return true;
    }
    let parts = split(chars.as_slice());
    let ghost all = components(path@);
    if parts.len() == 0 {
        return false;
    }
    let mut names: Vec<Vec<char>> = Vec::new();
    let mut at: usize = 0;
    proof {
        assert(views(names@) =~= names_of(all).take(0));
    }
    while at < parts.len()
        invariant
            at <= parts@.len(),
            part_views(parts@) == all,
            all == components(path@),
            path@ != "."@,
            forall|i: int| 0 <= i < at ==> #[trigger] all[i] is Normal,
            views(names@) == names_of(all).take(at as int),
        decreases parts.len() - at,
    {
        proof {
            assert(all[at as int] == parts@[at as int]@);
        }
        match &parts[at] {
            PathPart::Normal(name) => {
                let ghost before = names@;
                names.push(copied(name.as_slice()));
                proof {
                    assert(views(names@) =~= views(before).push(name@));
                    assert(names_of(all).take(at + 1) =~= names_of(all).take(at as int).push(
                        name@,
                    ));
                }
            },
            _ => {
                return false;
            },
        }
        at = at + 1;
    }
    proof {
        assert(names_of(all).take(all.len() as int) =~= names_of(all));
    }
    let plain = join(&names, "/");
    same_chars(plain.as_slice(), chars.as_slice())
}

fn check_proposal(input: &ProposalInput) -> (checked: Result<(), AppError>)
    ensures
        match checked {
            Ok(_) => proposal_error(input@) is None,
            Err(error) => proposal_error(input@) matches Some(reason) && is_validation_error(
                error,
                reason,
            ),
        },
{
    if !bounded(input.hypothesis.as_str(), MAX_HYPOTHESIS_BYTES) {
        return Err(
            invalid("hypothesis", "must be at most 4096 bytes without control characters"),
        );
    }
    match &input.source_experiment_id {
        Some(source) => {
            if source.as_str().is_empty() || !bounded(
                source.as_str(),
                MAX_SOURCE_EXPERIMENT_ID_BYTES,
            ) {
                return Err(
                    invalid(
                        "source_experiment_id",
                        "must be 1 to 128 bytes without control characters",
                    ),
                );
            }
        },
        None => {
            if input.kind == ProposalKind::Repair || input.kind == ProposalKind::CodeChange
                || input.kind == ProposalKind::DataEvaluation {
                return Err(
                    invalid("source_experiment_id", "is required for this proposal kind"),
                );
            }
        },
    }
    if input.argv.len() == 0 {
        return Err(invalid("argv", "must not be empty"));
    }
    if input.argv.len() > MAX_ARGV - PUEUE_ADD_FIXED_ARGV_ITEMS {
        return Err(invalid("argv", "contains too many items for the native control frame"));
    }
    if !bounded_all(&input.argv, MAX_FIELD_SIZE) {
        return Err(
            invalid("argv", "items must fit the native field limit without control characters"),
        );
    }
    if input.expected_evidence.len() > MAX_EXPECTED_EVIDENCE_ITEMS {
        return Err(invalid("expected_evidence", "contains too many items"));
    }
    if !bounded_all(&input.expected_evidence, MAX_EXPECTED_EVIDENCE_BYTES) {
        return Err(
            invalid(
                "expected_evidence",
                "items must be at most 512 bytes without control characters",
            ),
        );
    }
    if !plain_directory(input.working_directory.as_str()) {
        return Err(
            invalid("working_directory", "must be . or a relative path of normal components"),
        );
    }
    Ok(())
}

// ---------------------------------------------------------------------------
// Identity
// ---------------------------------------------------------------------------
pub open spec fn text_list(texts: Seq<Seq<char>>) -> JsonTree {
    JsonTree::List(Seq::new(texts.len(), |i: int| JsonTree::Text(texts[i])))
}

/// The entries of the canonical form, in their order.
pub open spec fn canonical_entries(p: ProposalView, objective: Seq<char>) -> Seq<
    (Seq<char>, JsonTree),
> {
    seq![
        ("schema_version"@, JsonTree::Int(1)),
        ("objective_digest"@, JsonTree::Text(objective)),
        ("kind"@, JsonTree::Text(p.kind.label())),
        ("hypothesis"@, JsonTree::Text(p.hypothesis)),
        ("source_experiment_id"@, optional_tree(p.source_experiment_id)),
        ("argv"@, text_list(p.argv)),
        ("working_directory"@, JsonTree::Text(p.working_directory)),
        ("expected_evidence"@, text_list(p.expected_evidence)),
    ]
}

/// The canonical text of a proposal for an objective.
pub open spec fn canonical_text(p: ProposalView, objective: Seq<char>) -> Seq<char> {
    object_text(canonical_entries(p, objective))
}

/// The digest that identifies a proposal for an objective.
pub open spec fn canonical_digest_of(p: ProposalView, objective: Seq<char>) -> Seq<char> {
    hex(sha256_of(encode_utf8(canonical_text(p, objective))))
}

/// A digest is written with 64 hexadecimal digits in lower case.
pub open spec fn is_digest_text(text: Seq<char>) -> bool {
    text.len() == 64 && forall|i: int| 0 <= i < 64 ==> is_hex_char(#[trigger] text[i])
}

proof fn lemma_canonical_form_is_plain(p: ProposalView, objective: Seq<char>)
    ensures
        are_plain(canonical_entries(p, objective)),
{
    let entries = canonical_entries(p, objective);
    reveal_with_fuel(is_plain, 2);
    assert forall|i: int| 0 <= i < entries.len() implies is_plain(
        (#[trigger] entries[i]).1,
        (PLAIN_DEPTH - 1) as nat,
    ) by {
        if i == 5 {
            assert(entries[i].1 == text_list(p.argv));
        } else if i == 7 {
            assert(entries[i].1 == text_list(p.expected_evidence));
        } else if i == 4 {
            assert(entries[i].1 == optional_tree(p.source_experiment_id));
        }
    }
}

proof fn lemma_canonical_keys_differ(p: ProposalView, objective: Seq<char>)
    ensures
        have_own_keys(canonical_entries(p, objective)),
{
    reveal_strlit("schema_version");
    reveal_strlit("objective_digest");
    reveal_strlit("kind");
    reveal_strlit("hypothesis");
    reveal_strlit("source_experiment_id");
    reveal_strlit("argv");
    reveal_strlit("working_directory");
    reveal_strlit("expected_evidence");
    assert("kind"@[0] == 'k' && "argv"@[0] == 'a');
    assert("working_directory"@[0] == 'w' && "expected_evidence"@[0] == 'e');
    assert("schema_version"@.len() == 14 && "objective_digest"@.len() == 16);
    assert("hypothesis"@.len() == 10 && "source_experiment_id"@.len() == 20);
    assert("kind"@.len() == 4 && "argv"@.len() == 4);
    assert("working_directory"@.len() == 17 && "expected_evidence"@.len() == 17);
}

proof fn lemma_text_lists_tell_apart(a: Seq<Seq<char>>, b: Seq<Seq<char>>)
    requires
        text_list(a) == text_list(b),
    ensures
        a == b,
{
    let x = text_list(a)->List_0;
    let y = text_list(b)->List_0;
    assert(x.len() == a.len() && y.len() == b.len());
    assert forall|i: int| 0 <= i < a.len() implies a[i] == b[i] by {
        assert(x[i] == JsonTree::Text(a[i]) && y[i] == JsonTree::Text(b[i]));
    }
    assert(a =~= b);
}

/// Proposals for objectives that have the same canonical text are the same
/// proposal for the same objective: a change of any field, or of the objective,
/// changes the text. That the text reads back is promised by [`validate`].
pub proof fn lemma_canonical_text_tells_proposals_apart(
    p: ProposalView,
    objective: Seq<char>,
    q: ProposalView,
    other: Seq<char>,
)
    requires
        object_reads_back(canonical_entries(p, objective)),
        object_reads_back(canonical_entries(q, other)),
        canonical_text(p, objective) == canonical_text(q, other),
    ensures
        p == q,
        objective == other,
{
    let x = canonical_entries(p, objective);
    let y = canonical_entries(q, other);
    assert(JsonTree::Record(object_of(x)) == JsonTree::Record(object_of(y)));
    lemma_canonical_keys_differ(p, objective);
    lemma_canonical_keys_differ(q, other);
    assert forall|i: int| 0 <= i < 8 implies (#[trigger] x[i]).1 == y[i].1 by {
        lemma_entry_is_found(x, i);
        lemma_entry_is_found(y, i);
        assert(x[i].0 == y[i].0);
    }
    assert(x[1].1 == y[1].1);
    assert(x[2].1 == y[2].1);
    assert(x[3].1 == y[3].1);
    assert(x[4].1 == y[4].1);
    assert(x[5].1 == y[5].1);
    assert(x[6].1 == y[6].1);
    assert(x[7].1 == y[7].1);
    lemma_proposal_kind_labels_differ(p.kind, q.kind);
    lemma_text_lists_tell_apart(p.argv, q.argv);
    lemma_text_lists_tell_apart(p.expected_evidence, q.expected_evidence);
}

/// Two messages that differ and have the same SHA-256 digest.
pub open spec fn collide(a: Seq<u8>, b: Seq<u8>) -> bool {
    a != b && sha256_of(a) == sha256_of(b)
}

/// A digest identifies a proposal and its objective: the same digest means the
/// same proposal for the same objective, or else the canonical texts are a
/// collision of SHA-256.
pub proof fn lemma_digest_identifies_proposals(
    p: ProposalView,
    objective: Seq<char>,
    q: ProposalView,
    other: Seq<char>,
)
    requires
        object_reads_back(canonical_entries(p, objective)),
        object_reads_back(canonical_entries(q, other)),
    ensures
        p == q && objective == other ==> canonical_digest_of(p, objective) == canonical_digest_of(
            q,
            other,
        ),
        canonical_digest_of(p, objective) == canonical_digest_of(q, other) ==> (p == q && objective
            == other) || collide(
            encode_utf8(canonical_text(p, objective)),
            encode_utf8(canonical_text(q, other)),
        ),
{
    if canonical_digest_of(p, objective) == canonical_digest_of(q, other) {
        let a = encode_utf8(canonical_text(p, objective));
        let b = encode_utf8(canonical_text(q, other));
        lemma_hex_tells_bytes_apart(sha256_of(a), sha256_of(b));
        if a == b {
            encode_utf8_decode_utf8(canonical_text(p, objective));
            encode_utf8_decode_utf8(canonical_text(q, other));
            lemma_canonical_text_tells_proposals_apart(p, objective, q, other);
        }
    }
}

fn list_of(texts: &Vec<String>) -> (json: Json)
    ensures
        json@ == text_list(text_views(texts@)),
{
    let mut items: Vec<Json> = Vec::new();
    let mut at: usize = 0;
    while at < texts.len()
        invariant
            at <= texts@.len(),
            items@.len() == at,
            forall|i: int| 0 <= i < at ==> (#[trigger] items@[i])@ == JsonTree::Text(texts@[i]@),
        decreases texts.len() - at,
    {
        items.push(text_value(texts[at].as_str()));
        at = at + 1;
    }
    let json = Json::List(items);
    proof {
        let tree = json@;
        assert(tree->List_0 =~= text_list(text_views(texts@))->List_0);
    }
    json
}

fn named(key: &str, value: Json) -> (member: Member)
    ensures
        member.key@ == key@,
        member.value@ == value@,
{
    Member { key: key.to_owned(), value }
}

fn canonical_digest(input: &ProposalInput, objective_digest: &str) -> (digest: Result<
    String,
    AppError,
>)
    ensures
        digest is Ok,
        digest->Ok_0@ == canonical_digest_of(input@, objective_digest@),
        is_digest_text(digest->Ok_0@),
        object_reads_back(canonical_entries(input@, objective_digest@)),
{
    let mut members: Vec<Member> = Vec::new();
    members.push(named("schema_version", Json::Int(1)));
    members.push(named("objective_digest", text_value(objective_digest)));
    members.push(named("kind", text_value(input.kind.as_str())));
    members.push(named("hypothesis", text_value(input.hypothesis.as_str())));
    members.push(
        named(
            "source_experiment_id",
            match &input.source_experiment_id {
                Some(source) => text_value(source.as_str()),
                None => Json::Null,
            },
        ),
    );
    members.push(named("argv", list_of(&input.argv)));
    members.push(named("working_directory", text_value(input.working_directory.as_str())));
    members.push(named("expected_evidence", list_of(&input.expected_evidence)));
    proof {
        assert(entries_of(members@) =~= canonical_entries(input@, objective_digest@));
        lemma_canonical_form_is_plain(input@, objective_digest@);
    }
    match render_ordered(&members) {
        Some(text) => Ok(sha256_hex(text.as_str().as_bytes())),
        None => Err(
            AppError::Serialization { operation: "serialize canonical campaign proposal" },
        ),
    }
}

/// Checks a proposal and gives it its digest.
pub fn validate(input: ProposalInput, objective_digest: &str) -> (proposal: Result<
    ValidatedProposal,
    AppError,
>)
    ensures
        match proposal {
            Ok(p) => {
                &&& proposal_error(input@) is None
                &&& p@ == input@
                &&& p.digest() == canonical_digest_of(input@, objective_digest@)
                &&& is_digest_text(p.digest())
                &&& object_reads_back(canonical_entries(input@, objective_digest@))
            },
            Err(error) => proposal_error(input@) matches Some(reason) && is_validation_error(
                error,
                reason,
            ),
        },
{
    check_proposal(&input)?;
    let canonical_digest = canonical_digest(&input, objective_digest)?;
    Ok(
        ValidatedProposal {
            kind: input.kind,
            hypothesis: input.hypothesis,
            source_experiment_id: input.source_experiment_id,
            argv: input.argv,
            working_directory: input.working_directory,
            expected_evidence: input.expected_evidence,
            canonical_digest,
        },
    )
}

/// The first rule that the proposal of a baseline breaks, if any.
pub open spec fn baseline_error(p: ProposalView) -> Option<(Seq<char>, Seq<char>)> {
    if p.kind != ProposalKind::Experiment {
        Some(("baseline.kind"@, "must be an experiment proposal"@))
    } else if p.source_experiment_id is Some {
        Some(("baseline.source_experiment_id"@, "must be absent"@))
    } else {
        proposal_error(p)
    }
}

/// Checks the proposal of a campaign's first experiment.
pub fn validate_initial_baseline(input: ProposalInput, objective_digest: &str) -> (proposal: Result<
    ValidatedProposal,
    AppError,
>)
    ensures
        match proposal {
            Ok(p) => {
                &&& baseline_error(input@) is None
                &&& p@ == input@
                &&& p.digest() == canonical_digest_of(input@, objective_digest@)
                &&& is_digest_text(p.digest())
                &&& object_reads_back(canonical_entries(input@, objective_digest@))
            },
            Err(error) => baseline_error(input@) matches Some(reason) && is_validation_error(
                error,
                reason,
            ),
        },
{
    if input.kind != ProposalKind::Experiment {
        return Err(invalid("baseline.kind", "must be an experiment proposal"));
    }
    if input.source_experiment_id.is_some() {
        return Err(invalid("baseline.source_experiment_id", "must be absent"));
    }
    validate(input, objective_digest)
}

impl ValidatedProposal {
    pub closed spec fn digest(&self) -> Seq<char> {
        self.canonical_digest@
    }

    pub fn kind(&self) -> (kind: ProposalKind)
        ensures
            kind == self@.kind,
    {
        self.kind
    }

    pub fn hypothesis(&self) -> (text: &str)
        ensures
            text@ == self@.hypothesis,
    {
        self.hypothesis.as_str()
    }

    pub fn source_experiment_id(&self) -> (text: Option<&str>)
        ensures
            match text {
                Some(t) => self@.source_experiment_id == Some(t@),
                None => self@.source_experiment_id is None,
            },
    {
        match &self.source_experiment_id {
            Some(source) => Some(source.as_str()),
            None => None,
        }
    }

    pub fn argv(&self) -> (argv: &[String])
        ensures
            text_views(argv@) == self@.argv,
    {
        self.argv.as_slice()
    }

    pub fn working_directory(&self) -> (text: &str)
        ensures
            text@ == self@.working_directory,
    {
        self.working_directory.as_str()
    }

    pub fn expected_evidence(&self) -> (texts: &[String])
        ensures
            text_views(texts@) == self@.expected_evidence,
    {
        self.expected_evidence.as_slice()
    }

    pub fn canonical_digest(&self) -> (text: &str)
        ensures
            text@ == self.digest(),
    {
        self.canonical_digest.as_str()
    }
}

proof fn lemma_scalar_bytes_are_not_nul(scalar: u32, i: int)
    requires
        scalar != 0,
        0 <= i < encode_scalar(scalar).len(),
    ensures
        encode_scalar(scalar)[i] != 0,
{
    if has_width_1_encoding(scalar) {
        assert(scalar <= 0x7f && scalar != 0 ==> (scalar & 0x7F) as u8 != 0) by (bit_vector);
    } else {
        let a = ((scalar >> 6) & 0x1F) as u8;
        let b = ((scalar >> 12) & 0x0F) as u8;
        let c = ((scalar >> 18) & 0x7) as u8;
        let d = (scalar & 0x3F) as u8;
        let e = ((scalar >> 6) & 0x3F) as u8;
        let f = ((scalar >> 12) & 0x3F) as u8;
        assert(0xC0 | a != 0 && 0xE0 | b != 0 && 0xF0 | c != 0 && 0x80 | d != 0 && 0x80 | e != 0
            && 0x80 | f != 0) by (bit_vector);
    }
}

proof fn lemma_encoding_has_no_nul(text: Seq<char>)
    requires
        forall|i: int| 0 <= i < text.len() ==> !is_control(#[trigger] text[i]),
    ensures
        !encode_utf8(text).contains(0u8),
    decreases text.len(),
{
    if text.len() > 0 {
        let first = encode_scalar(text[0] as u32);
        let rest = text.drop_first();
        assert forall|i: int| 0 <= i < rest.len() implies !is_control(#[trigger] rest[i]) by {
            assert(rest[i] == text[i + 1]);
        }
        lemma_encoding_has_no_nul(rest);
        assert(!is_control(text[0]));
        assert forall|i: int| 0 <= i < encode_utf8(text).len() implies encode_utf8(text)[i] != 0 by {
            if i < first.len() {
                lemma_scalar_bytes_are_not_nul(text[0] as u32, i);
                assert(encode_utf8(text)[i] == first[i]);
            } else {
                assert(encode_utf8(text)[i] == encode_utf8(rest)[i - first.len()]);
            }
        }
    }
}

/// The command of a valid proposal fits into a control frame: together with the
/// arguments that the queue client adds there are not too many, and each one
/// is short enough and free of NUL bytes.
pub proof fn lemma_valid_command_fits_a_frame(p: ProposalView)
    requires
        proposal_error(p) is None,
    ensures
        p.argv.len() + PUEUE_ADD_FIXED_ARGV_ITEMS <= MAX_ARGV,
        forall|i: int|
            0 <= i < p.argv.len() ==> leaf_error(#[trigger] encode_utf8(p.argv[i])) is None,
{
    assert forall|i: int| 0 <= i < p.argv.len() implies leaf_error(
        #[trigger] encode_utf8(p.argv[i]),
    ) is None by {
        assert(is_bounded(p.argv[i], MAX_FIELD_SIZE as nat));
        lemma_byte_len_is_utf8_len(p.argv[i]);
        lemma_encoding_has_no_nul(p.argv[i]);
    }
}

/// The working directory of a valid proposal lies in the project: it is
/// relative and steps to no parent.
pub proof fn lemma_valid_directory_stays_inside(p: ProposalView)
    requires
        proposal_error(p) is None,
    ensures
        !is_absolute(p.working_directory),
        forall|i: int|
            0 <= i < components(p.working_directory).len() ==> #[trigger] components(
                p.working_directory,
            )[i] != Component::Parent,
{
    let path = p.working_directory;
    if path == "."@ {
        reveal_strlit(".");
        assert(path =~= seq!['.']);
        assert(crate::text::first_of(path, '/') == 1) by {
            reveal_with_fuel(crate::text::first_of, 3);
        }
        assert(components(path) =~= seq![Component::Current]);
    }
}

/// A proposal is accepted exactly where its texts are short and plain, where it
/// has a source if its sort needs one, where its command has 1 to 247 arguments
/// that fit the launch protocol, and where its directory is the project or a
/// plain path in it.
pub proof fn lemma_which_proposals_are_accepted(p: ProposalView)
    ensures
        proposal_error(p) is None <==> {
            &&& is_bounded(p.hypothesis, 4096)
            &&& p.source_experiment_id matches Some(id) ==> id.len() > 0 && is_bounded(id, 128)
            &&& p.kind is Repair || p.kind is CodeChange || p.kind is DataEvaluation
                ==> p.source_experiment_id is Some
            &&& 1 <= p.argv.len() <= 247
            &&& forall|i: int| 0 <= i < p.argv.len() ==> is_bounded(#[trigger] p.argv[i], 0x1_0000)
            &&& p.expected_evidence.len() <= 16
            &&& forall|i: int|
                0 <= i < p.expected_evidence.len() ==> is_bounded(
                    #[trigger] p.expected_evidence[i],
                    512,
                )
            &&& is_plain_directory(p.working_directory)
        },
{
}

/// A text is short and plain exactly where it has at most so many bytes and no
/// control character.
pub proof fn lemma_which_texts_are_plain(text: Seq<char>, most: nat)
    ensures
        is_bounded(text, most) <==> byte_len(text) <= most && forall|i: int|
            0 <= i < text.len() ==> !((#[trigger] text[i] as u32) < 0x20 || 0x7f <= text[i] as u32
                <= 0x9f),
{
    assert forall|i: int| 0 <= i < text.len() implies (is_control(#[trigger] text[i]) <==> ((
    text[i] as u32) < 0x20 || 0x7f <= text[i] as u32 <= 0x9f)) by {
    }
}

/// The first experiment of a campaign is an experiment without a source, and
/// otherwise a proposal like any other.
pub proof fn lemma_which_baselines_are_accepted(p: ProposalView)
    ensures
        baseline_error(p) is None <==> p.kind is Experiment && p.source_experiment_id is None
            && proposal_error(p) is None,
{
}

/// A directory is the project itself, or a name in it, or more names with one
/// slash between two; an absolute path, an empty one and one that ends with a
/// slash are none.
pub proof fn lemma_which_directories_are_plain(name: Seq<char>)
    requires
        name.len() > 0,
        forall|i: int| 0 <= i < name.len() ==> !is_control(#[trigger] name[i]) && name[i] != '/',
    ensures
        is_plain_directory("."@),
        name != seq!['.', '.'] ==> is_plain_directory(name),
        name == seq!['.', '.'] ==> !is_plain_directory(name),
        !is_plain_directory(seq!['/'] + name),
        !is_plain_directory(Seq::<char>::empty()),
{
    reveal_strlit(".");
    reveal_strlit("/");
    assert("."@ =~= seq!['.']);
    assert(!name.contains('/')) by {
        if name.contains('/') {
            let i = choose|i: int| 0 <= i < name.len() && name[i] == '/';
            assert(name[i] != '/');
        }
    }
    assert(name[0] != '/');
    crate::fspath::lemma_path_is_read_piece_by_piece(name, name, true);
    let parts = components(name);
    assert(parts == crate::fspath::piece(name, true));
    if name != seq!['.'] && name != seq!['.', '.'] {
        assert(parts =~= seq![Component::Normal(name)]);
        assert(parts[0] is Normal);
        assert(names_of(parts) =~= seq![name]);
    }
    if name == seq!['.', '.'] {
        assert(parts[0] == Component::Parent);
        assert(name.len() == 2);
        assert("."@.len() == 1);
    }
    assert((seq!['/'] + name)[0] == '/');
    let none = Seq::<char>::empty();
    assert(!none.contains('/'));
    crate::fspath::lemma_path_is_read_piece_by_piece(none, none, true);
    assert(components(none).len() == 0);
    assert("."@.len() == 1);
}

/// A digest is 64 characters, each a digit or one of `a` to `f`.
pub proof fn lemma_which_texts_are_digests(text: Seq<char>)
    ensures
        is_digest_text(text) <==> text.len() == 64 && forall|i: int|
            0 <= i < 64 ==> ('0' <= (#[trigger] text[i]) <= '9' || 'a' <= text[i] <= 'f'),
{
}

/// A path with a control character, and one that goes on from the root, is no
/// directory of a proposal.
pub proof fn lemma_which_directories_are_refused(path: Seq<char>, i: int)
    ensures
        0 <= i < path.len() && is_control(path[i]) ==> !is_plain_directory(path),
        path.len() > 0 && path[0] == '/' ==> !is_plain_directory(path),
        path != "."@ && 0 <= i < components(path).len() && !(components(path)[i] is Normal)
            ==> !is_plain_directory(path),
        path != "."@ && joined(names_of(components(path)), "/"@) != path ==> !is_plain_directory(
            path,
        ),
{
}

} // verus!
