//! Which files and directories are trusted, and the anchors that remember them.
//!
//! A path is opened outside, one component after the other and without
//! following links; what was found is handed in as [`Opened`].

use vstd::prelude::*;
use vstd::string::*;

use crate::execution_policy::{
    ExecutableIdentity, PolicyViolation, PolicyViolationCode, PolicyViolationDetail,
    PolicyViolationStage,
};
use crate::fspath::{
    absolute, components, dotted, has_dots, is_absolute, is_within, part_views, split, within,
    Component, PathPart,
};
use crate::text::{append_text, chars_of, has_char, same_text, string_of};

verus! {

/// What the file system says of something that was opened.
#[derive(Debug, Clone, Copy, PartialEq, Eq, Structural)]
pub struct FileFacts {
    pub is_file: bool,
    pub is_dir: bool,
    pub identity: ExecutableIdentity,
}

/// Something that was opened: its canonical path, the fingerprint of the way to
/// it, and what the file system says of it, where that could be asked.
#[derive(Debug, Clone, PartialEq, Eq)]
pub struct Opened {
    pub canonical_path: String,
    pub resolution_fingerprint: String,
    pub facts: Option<FileFacts>,
}

/// A refusal at startup.
pub open spec fn at_startup(code: PolicyViolationCode) -> PolicyViolation {
    PolicyViolation {
        code,
        stage: PolicyViolationStage::Startup,
        detail: PolicyViolationDetail::NoDetail,
    }
}

/// A refusal before a run is bound.
pub open spec fn before_binding(code: PolicyViolationCode) -> PolicyViolation {
    PolicyViolation {
        code,
        stage: PolicyViolationStage::PreBinding,
        detail: PolicyViolationDetail::NoDetail,
    }
}

/// A refusal after a run is bound and before it is released.
pub open spec fn before_marker(code: PolicyViolationCode) -> PolicyViolation {
    PolicyViolation {
        code,
        stage: PolicyViolationStage::RunBoundPreMarker,
        detail: PolicyViolationDetail::NoDetail,
    }
}

pub fn startup_violation(code: PolicyViolationCode) -> (violation: PolicyViolation)
    ensures
        violation == at_startup(code),
{
    PolicyViolation::new(code, PolicyViolationStage::Startup)
}

pub fn pre_binding_violation(code: PolicyViolationCode) -> (violation: PolicyViolation)
    ensures
        violation == before_binding(code),
{
    PolicyViolation::new(code, PolicyViolationStage::PreBinding)
}

pub fn pre_marker_violation(code: PolicyViolationCode) -> (violation: PolicyViolation)
    ensures
        violation == before_marker(code),
{
    PolicyViolation::new(code, PolicyViolationStage::RunBoundPreMarker)
}

// ---------------------------------------------------------------------------
// Permissions
// ---------------------------------------------------------------------------
/// The service owns it and nobody else may write to it.
pub open spec fn is_secure(identity: ExecutableIdentity, uid: u32) -> bool {
    identity.owner == uid && identity.mode & 0o022u32 == 0
}

pub fn secure_metadata(facts: &FileFacts, uid: u32) -> (yes: bool)
    ensures
        yes == is_secure(facts.identity, uid),
{
    facts.identity.owner == uid && facts.identity.mode & 0o022u32 == 0
}

/// A component of a path that nobody else can replace: nobody else may write to
/// it, or it is a sticky directory of the superuser.
pub open spec fn is_secure_component(identity: ExecutableIdentity) -> bool {
    identity.mode & 0o022u32 == 0 || (identity.owner == 0 && identity.mode & 0o1000u32 != 0)
}

pub fn secure_component_metadata(facts: &FileFacts) -> (yes: bool)
    ensures
        yes == is_secure_component(facts.identity),
{
    if facts.identity.mode & 0o022u32 == 0 {
        return true;
    }
    facts.identity.owner == 0 && facts.identity.mode & 0o1000u32 != 0
}

pub open spec fn is_executable(identity: ExecutableIdentity) -> bool {
    identity.mode & 0o111u32 != 0
}

// ---------------------------------------------------------------------------
// Opening a path
// ---------------------------------------------------------------------------
pub open spec fn names_in(parts: Seq<Component>) -> Seq<Seq<char>>
    decreases parts.len(),
{
    if parts.len() == 0 {
        Seq::empty()
    } else {
        match parts.last() {
            Component::Normal(name) => names_in(parts.drop_last()).push(name),
            _ => names_in(parts.drop_last()),
        }
    }
}

/// A path that can be opened one component after the other: absolute, without
/// steps to the current or the parent directory, without NUL.
pub open spec fn is_openable(path: Seq<char>) -> bool {
    is_absolute(path) && !has_dots(path) && forall|i: int|
        0 <= i < names_in(components(path)).len() ==> !(#[trigger] names_in(
            components(path),
        )[i]).contains('\0')
}

pub open spec fn string_views(texts: Seq<String>) -> Seq<Seq<char>> {
    Seq::new(texts.len(), |i: int| texts[i]@)
}

/// The names to be opened one after the other from the root directory; each but
/// the last must be a directory.
pub fn path_steps(path: &str) -> (steps: Option<Vec<String>>)
    ensures
        match steps {
            Some(names) => is_openable(path@) && string_views(names@) == names_in(components(path@)),
            None => !is_openable(path@),
        },
{
    if !absolute(path) || dotted(path) {
        return None;
    }
    let chars = chars_of(path);
    let parts = split(chars.as_slice());
    let ghost all = part_views(parts@);
    let mut names: Vec<String> = Vec::new();
    let mut clean = true;
    let mut at: usize = 0;
    proof {
        assert(string_views(names@) =~= names_in(all.take(0)));
    }
    while at < parts.len()
        invariant
            at <= parts@.len(),
            all == part_views(parts@),
            string_views(names@) == names_in(all.take(at as int)),
            clean == forall|i: int|
                0 <= i < names@.len() ==> !(#[trigger] string_views(names@)[i]).contains('\0'),
        decreases parts.len() - at,
    {
        proof {
            assert(all.take(at + 1).drop_last() =~= all.take(at as int));
            assert(all.take(at + 1).last() == parts@[at as int]@);
        }
        match &parts[at] {
            PathPart::Normal(name) => {
                let ghost before = names@;
                let ghost was_clean = clean;
                let nul = has_char(name.as_slice(), '\0');
                names.push(string_of(name.as_slice()));
                if nul {
                    clean = false;
                }
                proof {
                    let now = string_views(names@);
                    assert(now =~= string_views(before).push(name@));
                    assert(now[before.len() as int] == name@);
                    assert forall|i: int| 0 <= i < before.len() implies now[i] == string_views(
                        before,
                    )[i] by {}
                    if was_clean && !nul {
                        assert forall|i: int| 0 <= i < names@.len() implies !(#[trigger] now[i]).contains(
                            '\0',
                        ) by {
                            if i < before.len() {
                                assert(!string_views(before)[i].contains('\0'));
                            }
                        }
                    }
                    if !was_clean {
                        let i = choose|i: int|
                            0 <= i < before.len() && (#[trigger] string_views(before)[i]).contains(
                                '\0',
                            );
                        assert(now[i].contains('\0'));
                    }
                    if nul {
                        assert(now[before.len() as int].contains('\0'));
                    }
                }
            },
            _ => {},
        }
        at = at + 1;
    }
    proof {
        assert(all.take(all.len() as int) =~= all);
    }
    if clean {
        Some(names)
    } else {
        None
    }
}

pub open spec fn hex_digit(d: int) -> char {
    if d < 10 {
        (48 + d) as char
    } else {
        (87 + d) as char
    }
}

/// The hexadecimal form of a number, without leading zeros.
pub open spec fn hex_form(n: nat) -> Seq<char>
    decreases n,
{
    if n < 16 {
        seq![hex_digit(n as int)]
    } else {
        hex_form(n / 16).push(hex_digit((n % 16) as int))
    }
}

fn hex_chars(n: u64) -> (r: Vec<char>)
    ensures
        r@ == hex_form(n as nat),
    decreases n,
{
    let low: u8 = (n % 16) as u8;
    let last: char = if low < 10 {
        (48u8 + low) as char
    } else {
        (87u8 + low) as char
    };
    if n < 16 {
        let mut r: Vec<char> = Vec::new();
        r.push(last);
        proof {
            assert(r@ =~= hex_form(n as nat));
        }
        r
    } else {
        let mut r = hex_chars(n / 16);
        r.push(last);
        r
    }
}

/// What the fingerprint of a way says of one component on it. `name` is the
/// component in quotes.
pub open spec fn fingerprint_part(name: Seq<char>, identity: ExecutableIdentity) -> Seq<char> {
    name + ":"@ + hex_form(identity.device as nat) + ":"@ + hex_form(identity.inode as nat) + ":"@
        + hex_form(identity.owner as nat) + ":"@ + hex_form(identity.mode as nat) + ";"@
}

/// Extends the fingerprint of a way by one component.
pub fn extend_fingerprint(fingerprint: &str, name: &str, identity: &ExecutableIdentity) -> (longer:
    String)
    ensures
        longer@ == fingerprint@ + fingerprint_part(name@, *identity),
{
    let mut chars = chars_of(fingerprint);
    append_text(&mut chars, name);
    append_text(&mut chars, ":");
    let device = hex_chars(identity.device);
    crate::text::extend(&mut chars, device.as_slice());
    append_text(&mut chars, ":");
    let inode = hex_chars(identity.inode);
    crate::text::extend(&mut chars, inode.as_slice());
    append_text(&mut chars, ":");
    let owner = hex_chars(identity.owner as u64);
    crate::text::extend(&mut chars, owner.as_slice());
    append_text(&mut chars, ":");
    let mode = hex_chars(identity.mode as u64);
    crate::text::extend(&mut chars, mode.as_slice());
    append_text(&mut chars, ";");
    proof {
        assert(chars@ =~= fingerprint@ + fingerprint_part(name@, *identity));
    }
    string_of(chars.as_slice())
}

/// Goes on to a component that was opened on a way: the fingerprint grows by
/// it, unless it is one that others can change.
pub fn walk_step(fingerprint: &str, name: &str, facts: &FileFacts) -> (longer: Option<String>)
    ensures
        match longer {
            Some(text) => is_secure_component(facts.identity) && text@ == fingerprint@
                + fingerprint_part(name@, facts.identity),
            None => !is_secure_component(facts.identity),
        },
{
    if secure_component_metadata(facts) {
        Some(extend_fingerprint(fingerprint, name, &facts.identity))
    } else {
        None
    }
}

// ---------------------------------------------------------------------------
// Project roots
// ---------------------------------------------------------------------------
/// The path lies in one of the project roots.
pub open spec fn is_inside_any(path: Seq<char>, roots: Seq<Seq<char>>) -> bool {
    exists|i: int| 0 <= i < roots.len() && is_within(path, #[trigger] roots[i])
}

pub fn inside_any_root(path: &str, roots: &[String]) -> (yes: bool)
    ensures
        yes == is_inside_any(path@, string_views(roots@)),
{
    let mut at: usize = 0;
    while at < roots.len()
        invariant
            at <= roots@.len(),
            forall|i: int| 0 <= i < at ==> !is_within(path@, #[trigger] string_views(roots@)[i]),
        decreases roots.len() - at,
    {
        if within(path, roots[at].as_str()) {
            proof {
                assert(is_within(path@, string_views(roots@)[at as int]));
            }
            return true;
        }
        at = at + 1;
    }
    false
}

/// Two texts name the same path.
pub open spec fn is_same_path(a: Seq<char>, b: Seq<char>) -> bool {
    components(a) == components(b)
}

pub fn same_path(a: &str, b: &str) -> (yes: bool)
    ensures
        yes == is_same_path(a@, b@),
{
    let yes = within(a, b) && within(b, a);
    proof {
        let x = components(a@);
        let y = components(b@);
        if yes {
            assert(x.take(y.len() as int) =~= x);
        }
        if x == y {
            assert(x.take(y.len() as int) =~= y);
        }
    }
    yes
}

// ---------------------------------------------------------------------------
// Anchors
// ---------------------------------------------------------------------------
/// An executable that was found to be trustworthy.
#[derive(Debug, Clone, PartialEq, Eq)]
pub struct ExecutableAnchor {
    pub canonical_path: String,
    pub identity: ExecutableIdentity,
    pub resolution_fingerprint: String,
}

/// The configuration of the task queue, found to be trustworthy.
#[derive(Debug, Clone, PartialEq, Eq)]
pub struct PueueConfigAnchor {
    pub canonical_path: String,
    pub identity: ExecutableIdentity,
    pub resolution_fingerprint: String,
}

/// The root directory of a project, found to be trustworthy.
#[derive(Debug, Clone, PartialEq, Eq)]
pub struct ProjectRootAnchor {
    pub canonical_path: String,
    pub identity: ExecutableIdentity,
    pub resolution_fingerprint: String,
}

/// An anchor as mathematics.
pub struct AnchorView {
    pub canonical_path: Seq<char>,
    pub identity: ExecutableIdentity,
    pub resolution_fingerprint: Seq<char>,
}

impl View for ExecutableAnchor {
    type V = AnchorView;

    open spec fn view(&self) -> AnchorView {
        AnchorView {
            canonical_path: self.canonical_path@,
            identity: self.identity,
            resolution_fingerprint: self.resolution_fingerprint@,
        }
    }
}

impl View for PueueConfigAnchor {
    type V = AnchorView;

    open spec fn view(&self) -> AnchorView {
        AnchorView {
            canonical_path: self.canonical_path@,
            identity: self.identity,
            resolution_fingerprint: self.resolution_fingerprint@,
        }
    }
}

impl View for ProjectRootAnchor {
    type V = AnchorView;

    open spec fn view(&self) -> AnchorView {
        AnchorView {
            canonical_path: self.canonical_path@,
            identity: self.identity,
            resolution_fingerprint: self.resolution_fingerprint@,
        }
    }
}

/// The anchor of something that was opened.
pub open spec fn anchor_of(opened: Opened) -> AnchorView {
    AnchorView {
        canonical_path: opened.canonical_path@,
        identity: opened.facts->0.identity,
        resolution_fingerprint: opened.resolution_fingerprint@,
    }
}

pub open spec fn deref_opened(opened: Option<&Opened>) -> Option<Opened> {
    match opened {
        Some(o) => Some(*o),
        None => None,
    }
}

/// Why something that was opened is not a trustworthy executable.
pub open spec fn executable_violation(opened: Opened, roots: Seq<Seq<char>>, uid: u32) -> Option<
    PolicyViolationCode,
> {
    if is_inside_any(opened.canonical_path@, roots) {
        Some(PolicyViolationCode::ProjectRootExecutable)
    } else {
        match opened.facts {
            None => Some(PolicyViolationCode::AnchorMissing),
            Some(facts) => if !facts.is_file {
                Some(PolicyViolationCode::AnchorMissing)
            } else if !is_secure(facts.identity, uid) || !is_executable(facts.identity) {
                Some(PolicyViolationCode::TrustedPathUnsafe)
            } else {
                None
            },
        }
    }
}

/// Something that was opened is the thing that the anchor remembers.
pub open spec fn is_unchanged(anchor: AnchorView, opened: Option<Opened>, uid: u32, directory: bool) -> bool {
    match opened {
        Some(o) => match o.facts {
            Some(facts) => is_same_path(o.canonical_path@, anchor.canonical_path) && (if directory {
                facts.is_dir
            } else {
                facts.is_file
            }) && is_secure(facts.identity, uid) && facts.identity == anchor.identity
                && o.resolution_fingerprint@ == anchor.resolution_fingerprint,
            None => false,
        },
        None => false,
    }
}

fn unchanged(
    canonical_path: &str,
    identity: &ExecutableIdentity,
    fingerprint: &str,
    opened: Option<&Opened>,
    uid: u32,
    directory: bool,
) -> (yes: bool)
    ensures
        yes == is_unchanged(
            AnchorView {
                canonical_path: canonical_path@,
                identity: *identity,
                resolution_fingerprint: fingerprint@,
            },
            deref_opened(opened),
            uid,
            directory,
        ),
{
    match opened {
        Some(o) => match &o.facts {
            Some(facts) => {
                let right_kind = if directory {
                    facts.is_dir
                } else {
                    facts.is_file
                };
                same_path(o.canonical_path.as_str(), canonical_path) && right_kind
                    && secure_metadata(facts, uid) && facts.identity == *identity && same_text(
                    o.resolution_fingerprint.as_str(),
                    fingerprint,
                )
            },
            None => false,
        },
        None => false,
    }
}

/// How a program is to be found.
#[derive(Debug, Clone, Copy, PartialEq, Eq, Structural)]
pub enum ProgramSearch {
    /// It is named by its absolute path.
    Absolute,
    /// It is looked up in the trusted directories.
    Lookup,
    Refused,
}

/// How a program is to be found by what it is called.
pub open spec fn search_for(program: Seq<char>) -> ProgramSearch {
    if program.len() == 0 || program.contains('\0') {
        ProgramSearch::Refused
    } else if is_absolute(program) {
        ProgramSearch::Absolute
    } else if components(program).len() != 1 || has_dots(program) {
        ProgramSearch::Refused
    } else {
        ProgramSearch::Lookup
    }
}

pub fn program_search(program: &str) -> (search: ProgramSearch)
    ensures
        search == search_for(program@),
{
    let chars = chars_of(program);
    if chars.len() == 0 || has_char(chars.as_slice(), '\0') {
        return ProgramSearch::Refused;
    }
    if absolute(program) {
        return ProgramSearch::Absolute;
    }
    let parts = split(chars.as_slice());
    if parts.len() != 1 || dotted(program) {
        ProgramSearch::Refused
    } else {
        ProgramSearch::Lookup
    }
}

/// What came of opening a program in a trusted directory.
#[derive(Debug, Clone, PartialEq, Eq)]
pub enum ChildOpen {
    Found(Opened),
    NotFound,
    Failed,
}

/// The first program that was found or could not be opened decides.
pub open spec fn lookup_outcome(children: Seq<ChildOpen>) -> Option<Opened>
    decreases children.len(),
{
    if children.len() == 0 {
        None
    } else {
        match children[0] {
            ChildOpen::Found(opened) => Some(opened),
            ChildOpen::NotFound => lookup_outcome(children.drop_first()),
            ChildOpen::Failed => None,
        }
    }
}

/// The program that a lookup finds.
pub fn look_up(children: &[ChildOpen]) -> (found: Option<&Opened>)
    ensures
        deref_opened(found) == lookup_outcome(children@),
{
    let mut at: usize = 0;
    proof {
        assert(children@.skip(0) =~= children@);
    }
    while at < children.len()
        invariant
            at <= children@.len(),
            lookup_outcome(children@) == lookup_outcome(children@.skip(at as int)),
        decreases children.len() - at,
    {
        proof {
            assert(children@.skip(at as int)[0] == children@[at as int]);
            assert(children@.skip(at as int).drop_first() =~= children@.skip(at + 1));
        }
        match &children[at] {
            ChildOpen::Found(opened) => {
                return Some(opened);
            },
            ChildOpen::NotFound => {},
            ChildOpen::Failed => {
                return None;
            },
        }
        at = at + 1;
    }
    None
}

/// Why a trusted directory is not one.
pub open spec fn is_bad_directory(opened: Opened, roots: Seq<Seq<char>>, uid: u32) -> bool {
    is_inside_any(opened.canonical_path@, roots) || match opened.facts {
        Some(facts) => !facts.is_dir || !is_secure(facts.identity, uid),
        None => true,
    }
}

/// Refuses a directory in which programs are looked up.
pub fn validate_opened_trusted_directory(opened: &Opened, roots: &[String], uid: u32) -> (checked:
    Result<(), PolicyViolation>)
    ensures
        checked == (if is_bad_directory(*opened, string_views(roots@), uid) {
            Err::<(), PolicyViolation>(at_startup(PolicyViolationCode::TrustedPathUnsafe))
        } else {
            Ok::<(), PolicyViolation>(())
        }),
{
    if inside_any_root(opened.canonical_path.as_str(), roots) {
        return Err(startup_violation(PolicyViolationCode::TrustedPathUnsafe));
    }
    let good = match &opened.facts {
        Some(facts) => facts.is_dir && secure_metadata(facts, uid),
        None => false,
    };
    if good {
        Ok(())
    } else {
        Err(startup_violation(PolicyViolationCode::TrustedPathUnsafe))
    }
}

/// A trusted directory, where it could be opened, and the program in it.
#[derive(Debug, Clone, PartialEq, Eq)]
pub struct Candidate {
    pub directory: Option<Opened>,
    pub child: ChildOpen,
}

/// What a search in the candidates finds, or why it is refused.
pub open spec fn search_outcome(candidates: Seq<Candidate>, roots: Seq<Seq<char>>, uid: u32) -> Result<
    Opened,
    PolicyViolationCode,
>
    decreases candidates.len(),
{
    if candidates.len() == 0 {
        Err(PolicyViolationCode::AnchorMissing)
    } else {
        match candidates[0].directory {
            None => Err(PolicyViolationCode::TrustedPathUnsafe),
            Some(directory) => if is_bad_directory(directory, roots, uid) {
                Err(PolicyViolationCode::TrustedPathUnsafe)
            } else {
                match candidates[0].child {
                    ChildOpen::Found(opened) => Ok(opened),
                    ChildOpen::NotFound => search_outcome(candidates.drop_first(), roots, uid),
                    ChildOpen::Failed => Err(PolicyViolationCode::AnchorMissing),
                }
            },
        }
    }
}

/// The code of the refusal of something that was opened, or of nothing.
pub open spec fn opened_violation(opened: Option<Opened>, roots: Seq<Seq<char>>, uid: u32) -> Option<
    PolicyViolationCode,
> {
    match opened {
        Some(o) => executable_violation(o, roots, uid),
        None => Some(PolicyViolationCode::AnchorMissing),
    }
}

/// The anchor is that of what was opened, unless it is refused.
pub open spec fn is_anchoring(
    anchor: Result<ExecutableAnchor, PolicyViolation>,
    opened: Option<Opened>,
    roots: Seq<Seq<char>>,
    uid: u32,
) -> bool {
    match anchor {
        Ok(a) => opened_violation(opened, roots, uid) is None && a@ == anchor_of(opened->0),
        Err(violation) => opened_violation(opened, roots, uid) matches Some(code) && violation
            == at_startup(code),
    }
}

impl ExecutableAnchor {
    fn from_opened_executable(opened: &Opened, roots: &[String], uid: u32) -> (anchor: Result<
        Self,
        PolicyViolation,
    >)
        ensures
            is_anchoring(anchor, Some(*opened), string_views(roots@), uid),
    {
        if inside_any_root(opened.canonical_path.as_str(), roots) {
            return Err(startup_violation(PolicyViolationCode::ProjectRootExecutable));
        }
        match &opened.facts {
            None => Err(startup_violation(PolicyViolationCode::AnchorMissing)),
            Some(facts) => {
                if !facts.is_file {
                    return Err(startup_violation(PolicyViolationCode::AnchorMissing));
                }
                if !secure_metadata(facts, uid) || facts.identity.mode & 0o111u32 == 0 {
                    return Err(startup_violation(PolicyViolationCode::TrustedPathUnsafe));
                }
                Ok(
                    ExecutableAnchor {
                        canonical_path: opened.canonical_path.clone(),
                        identity: facts.identity,
                        resolution_fingerprint: opened.resolution_fingerprint.clone(),
                    },
                )
            },
        }
    }

    /// The anchor of an executable that was opened by its absolute path.
    pub fn from_absolute(opened: Option<&Opened>, roots: &[String], uid: u32) -> (anchor: Result<
        Self,
        PolicyViolation,
    >)
        ensures
            is_anchoring(anchor, deref_opened(opened), string_views(roots@), uid),
    {
        match opened {
            Some(o) => Self::from_opened_executable(o, roots, uid),
            None => Err(startup_violation(PolicyViolationCode::AnchorMissing)),
        }
    }

    /// The anchor of a program: opened by its absolute path, or found in the
    /// first trusted directory that has it.
    pub fn resolve(
        program: &str,
        opened: Option<&Opened>,
        candidates: &[Candidate],
        roots: &[String],
        uid: u32,
    ) -> (anchor: Result<Self, PolicyViolation>)
        ensures
            match search_for(program@) {
                ProgramSearch::Refused => anchor == Err::<Self, PolicyViolation>(
                    at_startup(PolicyViolationCode::AnchorMissing),
                ),
                ProgramSearch::Absolute => is_anchoring(
                    anchor,
                    deref_opened(opened),
                    string_views(roots@),
                    uid,
                ),
                ProgramSearch::Lookup => match search_outcome(
                    candidates@,
                    string_views(roots@),
                    uid,
                ) {
                    Ok(found) => is_anchoring(anchor, Some(found), string_views(roots@), uid),
                    Err(code) => anchor == Err::<Self, PolicyViolation>(at_startup(code)),
                },
            },
    {
        match program_search(program) {
            ProgramSearch::Refused => Err(startup_violation(PolicyViolationCode::AnchorMissing)),
            ProgramSearch::Absolute => Self::from_absolute(opened, roots, uid),
            ProgramSearch::Lookup => {
                let mut at: usize = 0;
                proof {
                    assert(candidates@.skip(0) =~= candidates@);
                }
                while at < candidates.len()
                    invariant
                        at <= candidates@.len(),
                        search_for(program@) is Lookup,
                        search_outcome(candidates@, string_views(roots@), uid) == search_outcome(
                            candidates@.skip(at as int),
                            string_views(roots@),
                            uid,
                        ),
                    decreases candidates.len() - at,
                {
                    proof {
                        assert(candidates@.skip(at as int)[0] == candidates@[at as int]);
                        assert(candidates@.skip(at as int).drop_first() =~= candidates@.skip(
                            at + 1,
                        ));
                    }
                    match &candidates[at].directory {
                        None => {
                            return Err(startup_violation(PolicyViolationCode::TrustedPathUnsafe));
                        },
                        Some(directory) => {
                            match validate_opened_trusted_directory(directory, roots, uid) {
                                Err(violation) => {
                                    return Err(violation);
                                },
                                Ok(_) => {},
                            }
                        },
                    }
                    match &candidates[at].child {
                        ChildOpen::Found(found) => {
                            return Self::from_opened_executable(found, roots, uid);
                        },
                        ChildOpen::NotFound => {},
                        ChildOpen::Failed => {
                            return Err(startup_violation(PolicyViolationCode::AnchorMissing));
                        },
                    }
                    at = at + 1;
                }
                Err(startup_violation(PolicyViolationCode::AnchorMissing))
            },
        }
    }

    /// Refuses an executable that is no longer the one that was anchored.
    pub fn verify_identity(&self, opened: Option<&Opened>, uid: u32) -> (checked: Result<
        (),
        PolicyViolation,
    >)
        ensures
            checked == (if is_unchanged(self@, deref_opened(opened), uid, false) {
                Ok::<(), PolicyViolation>(())
            } else {
                Err::<(), PolicyViolation>(before_marker(PolicyViolationCode::AnchorReplaced))
            }),
    {
        if unchanged(
            self.canonical_path.as_str(),
            &self.identity,
            self.resolution_fingerprint.as_str(),
            opened,
            uid,
            false,
        ) {
            Ok(())
        } else {
            Err(pre_marker_violation(PolicyViolationCode::AnchorReplaced))
        }
    }
}

/// Something that was opened is a directory that the service owns.
pub open spec fn is_own_directory(opened: Option<Opened>, uid: u32) -> bool {
    match opened {
        Some(o) => match o.facts {
            Some(facts) => facts.is_dir && is_secure(facts.identity, uid),
            None => false,
        },
        None => false,
    }
}

impl ProjectRootAnchor {
    /// The anchor of the root directory of a project.
    pub fn resolve(opened: Option<&Opened>, uid: u32) -> (anchor: Result<Self, PolicyViolation>)
        ensures
            match anchor {
                Ok(a) => is_own_directory(deref_opened(opened), uid) && a@ == anchor_of(
                    deref_opened(opened)->0,
                ),
                Err(violation) => !is_own_directory(deref_opened(opened), uid) && violation
                    == at_startup(PolicyViolationCode::RootChanged),
            },
    {
        match opened {
            Some(o) => match &o.facts {
                Some(facts) => if facts.is_dir && secure_metadata(facts, uid) {
                    Ok(
                        ProjectRootAnchor {
                            canonical_path: o.canonical_path.clone(),
                            identity: facts.identity,
                            resolution_fingerprint: o.resolution_fingerprint.clone(),
                        },
                    )
                } else {
                    Err(startup_violation(PolicyViolationCode::RootChanged))
                },
                None => Err(startup_violation(PolicyViolationCode::RootChanged)),
            },
            None => Err(startup_violation(PolicyViolationCode::RootChanged)),
        }
    }

    /// Refuses a root directory that is no longer the one that was anchored.
    pub fn verify_identity(&self, opened: Option<&Opened>, uid: u32) -> (checked: Result<
        (),
        PolicyViolation,
    >)
        ensures
            checked == (if is_unchanged(self@, deref_opened(opened), uid, true) {
                Ok::<(), PolicyViolation>(())
            } else {
                Err::<(), PolicyViolation>(before_marker(PolicyViolationCode::RootChanged))
            }),
    {
        if unchanged(
            self.canonical_path.as_str(),
            &self.identity,
            self.resolution_fingerprint.as_str(),
            opened,
            uid,
            true,
        ) {
            Ok(())
        } else {
            Err(pre_marker_violation(PolicyViolationCode::RootChanged))
        }
    }
}

/// Why something that was opened is not a trustworthy configuration.
pub open spec fn config_violation(opened: Option<Opened>, roots: Seq<Seq<char>>, uid: u32) -> Option<
    PolicyViolationCode,
> {
    match opened {
        None => Some(PolicyViolationCode::AnchorMissing),
        Some(o) => if is_inside_any(o.canonical_path@, roots) {
            Some(PolicyViolationCode::TrustedPathUnsafe)
        } else {
            match o.facts {
                None => Some(PolicyViolationCode::AnchorMissing),
                Some(facts) => if !facts.is_file || !is_secure(facts.identity, uid) {
                    Some(PolicyViolationCode::TrustedPathUnsafe)
                } else {
                    None
                },
            }
        },
    }
}

impl PueueConfigAnchor {
    /// The anchor of a configuration that was opened by its absolute path.
    pub fn from_absolute(opened: Option<&Opened>, roots: &[String], uid: u32) -> (anchor: Result<
        Self,
        PolicyViolation,
    >)
        ensures
            match anchor {
                Ok(a) => config_violation(deref_opened(opened), string_views(roots@), uid) is None
                    && a@ == anchor_of(deref_opened(opened)->0),
                Err(violation) => config_violation(
                    deref_opened(opened),
                    string_views(roots@),
                    uid,
                ) matches Some(code) && violation == at_startup(code),
            },
    {
        match opened {
            None => Err(startup_violation(PolicyViolationCode::AnchorMissing)),
            Some(o) => {
                if inside_any_root(o.canonical_path.as_str(), roots) {
                    return Err(startup_violation(PolicyViolationCode::TrustedPathUnsafe));
                }
                match &o.facts {
                    None => Err(startup_violation(PolicyViolationCode::AnchorMissing)),
                    Some(facts) => if !facts.is_file || !secure_metadata(facts, uid) {
                        Err(startup_violation(PolicyViolationCode::TrustedPathUnsafe))
                    } else {
                        Ok(
                            PueueConfigAnchor {
                                canonical_path: o.canonical_path.clone(),
                                identity: facts.identity,
                                resolution_fingerprint: o.resolution_fingerprint.clone(),
                            },
                        )
                    },
                }
            },
        }
    }

    /// Refuses a configuration that is no longer the one that was anchored, or
    /// that has come to lie in a project.
    pub fn verify_identity(&self, opened: Option<&Opened>, roots: &[String], uid: u32) -> (checked:
        Result<(), PolicyViolation>)
        ensures
            checked == (match deref_opened(opened) {
                Some(o) => if is_inside_any(o.canonical_path@, string_views(roots@)) {
                    Err::<(), PolicyViolation>(
                        before_marker(PolicyViolationCode::TrustedPathUnsafe),
                    )
                } else if is_unchanged(self@, Some(o), uid, false) {
                    Ok::<(), PolicyViolation>(())
                } else {
                    Err::<(), PolicyViolation>(before_marker(PolicyViolationCode::AnchorReplaced))
                },
                None => Err::<(), PolicyViolation>(
                    before_marker(PolicyViolationCode::AnchorReplaced),
                ),
            }),
    {
        match opened {
            None => Err(pre_marker_violation(PolicyViolationCode::AnchorReplaced)),
            Some(o) => {
                if inside_any_root(o.canonical_path.as_str(), roots) {
                    return Err(pre_marker_violation(PolicyViolationCode::TrustedPathUnsafe));
                }
                if unchanged(
                    self.canonical_path.as_str(),
                    &self.identity,
                    self.resolution_fingerprint.as_str(),
                    opened,
                    uid,
                    false,
                ) {
                    Ok(())
                } else {
                    Err(pre_marker_violation(PolicyViolationCode::AnchorReplaced))
                }
            },
        }
    }
}

/// What was anchored and has not changed since passes the check of its identity.
pub proof fn lemma_anchored_executable_verifies(
    anchor: ExecutableAnchor,
    opened: Opened,
    roots: Seq<Seq<char>>,
    uid: u32,
)
    requires
        is_anchoring(Ok(anchor), Some(opened), roots, uid),
    ensures
        is_unchanged(anchor@, Some(opened), uid, false),
        !is_inside_any(anchor.canonical_path@, roots),
        anchor.identity.owner == uid,
{
}

/// An executable whose identity passes the check has the owner and permissions
/// that it was anchored with.
pub proof fn lemma_verified_identity_is_the_anchored_one(
    anchor: AnchorView,
    opened: Opened,
    uid: u32,
    directory: bool,
)
    requires
        is_unchanged(anchor, Some(opened), uid, directory),
    ensures
        opened.facts is Some,
        opened.facts->0.identity == anchor.identity,
        is_secure(anchor.identity, uid),
        is_same_path(opened.canonical_path@, anchor.canonical_path),
{
}

/// What is trusted belongs to the user, and neither its group nor others may
/// write to it.
pub proof fn lemma_secure_identity(identity: ExecutableIdentity, uid: u32)
    ensures
        is_secure(identity, uid) <==> identity.owner == uid && identity.mode & 0o020u32 == 0
            && identity.mode & 0o002u32 == 0,
        is_secure_component(identity) <==> (identity.mode & 0o020u32 == 0 && identity.mode
            & 0o002u32 == 0) || (identity.owner == 0 && identity.mode & 0o1000u32 != 0),
        is_executable(identity) <==> identity.mode & 0o100u32 != 0 || identity.mode & 0o010u32 != 0
            || identity.mode & 0o001u32 != 0,
{
    let mode = identity.mode;
    assert((mode & 0o022u32 == 0) <==> (mode & 0o020u32 == 0 && mode & 0o002u32 == 0))
        by (bit_vector);
    assert((mode & 0o111u32 != 0) <==> (mode & 0o100u32 != 0 || mode & 0o010u32 != 0 || mode
        & 0o001u32 != 0)) by (bit_vector);
}

/// A program is anchored exactly where it lies outside every project and is a
/// file of the user that only the user can write and that can be executed.
pub proof fn lemma_when_an_executable_is_anchored(
    opened: Option<Opened>,
    roots: Seq<Seq<char>>,
    uid: u32,
)
    ensures
        opened_violation(opened, roots, uid) is None <==> {
            &&& opened is Some
            &&& opened->0.facts is Some
            &&& opened->0.facts->0.is_file
            &&& opened->0.facts->0.identity.owner == uid
            &&& opened->0.facts->0.identity.mode & 0o022u32 == 0
            &&& opened->0.facts->0.identity.mode & 0o111u32 != 0
            &&& forall|i: int|
                0 <= i < roots.len() ==> !is_within(
                    opened->0.canonical_path@,
                    #[trigger] roots[i],
                )
        },
        opened_violation(opened, roots, uid) == Some(PolicyViolationCode::ProjectRootExecutable)
            <==> opened is Some && exists|i: int|
            0 <= i < roots.len() && is_within(opened->0.canonical_path@, #[trigger] roots[i]),
        opened is None ==> opened_violation(opened, roots, uid) == Some(
            PolicyViolationCode::AnchorMissing,
        ),
{
}

/// An anchor holds exactly where the same path leads to the same file of the
/// user, by the same way.
pub proof fn lemma_when_an_anchor_holds(
    anchor: AnchorView,
    opened: Option<Opened>,
    uid: u32,
    directory: bool,
)
    ensures
        is_unchanged(anchor, opened, uid, directory) <==> {
            &&& opened is Some
            &&& opened->0.facts is Some
            &&& components(opened->0.canonical_path@) == components(anchor.canonical_path)
            &&& directory ==> opened->0.facts->0.is_dir
            &&& !directory ==> opened->0.facts->0.is_file
            &&& opened->0.facts->0.identity.owner == uid
            &&& opened->0.facts->0.identity.mode & 0o022u32 == 0
            &&& opened->0.facts->0.identity == anchor.identity
            &&& opened->0.resolution_fingerprint@ == anchor.resolution_fingerprint
        },
{
}

/// A directory is trusted exactly where it lies outside every project, belongs
/// to the user and can be written by the user alone; so is the configuration of
/// the queue, which is a file, and a project root, wherever it lies.
pub proof fn lemma_trusted_places(opened: Opened, roots: Seq<Seq<char>>, uid: u32)
    ensures
        ({
            let outside = forall|i: int|
                0 <= i < roots.len() ==> !is_within(opened.canonical_path@, #[trigger] roots[i]);
            let secure = opened.facts is Some && opened.facts->0.identity.owner == uid
                && opened.facts->0.identity.mode & 0o022u32 == 0;
            &&& !is_bad_directory(opened, roots, uid) <==> outside && secure
                && opened.facts->0.is_dir
            &&& config_violation(Some(opened), roots, uid) is None <==> outside && secure
                && opened.facts->0.is_file
            &&& is_own_directory(Some(opened), uid) <==> secure && opened.facts->0.is_dir
        }),
        config_violation(None, roots, uid) is Some,
        !is_own_directory(None, uid),
{
}

/// The first directory that holds a program decides; one that cannot be searched
/// ends the search with nothing.
pub proof fn lemma_first_child_decides(missing: nat, last: ChildOpen, rest: Seq<ChildOpen>)
    ensures
        ({
            let before = Seq::new(missing, |i: int| ChildOpen::NotFound);
            &&& lookup_outcome(before) is None
            &&& lookup_outcome(before + seq![last] + rest) == match last {
                ChildOpen::Found(opened) => Some(opened),
                ChildOpen::Failed => None,
                ChildOpen::NotFound => lookup_outcome(rest),
            }
        }),
    decreases missing,
{
    let before = Seq::new(missing, |i: int| ChildOpen::NotFound);
    let all = before + seq![last] + rest;
    if missing == 0 {
        assert(before =~= Seq::empty());
        assert(all[0] == last);
        assert(all.drop_first() =~= rest);
    } else {
        let fewer = Seq::new((missing - 1) as nat, |i: int| ChildOpen::NotFound);
        lemma_first_child_decides((missing - 1) as nat, last, rest);
        assert(all[0] == ChildOpen::NotFound);
        assert(all.drop_first() =~= fewer + seq![last] + rest);
        assert(before.drop_first() =~= fewer);
    }
}

/// The search stops at the first directory that is not trusted, and otherwise at
/// the first that holds the program.
pub proof fn lemma_search_takes_the_first(
    candidates: Seq<Candidate>,
    at: int,
    roots: Seq<Seq<char>>,
    uid: u32,
)
    requires
        0 <= at < candidates.len(),
        forall|i: int|
            0 <= i < at ==> (#[trigger] candidates[i]).directory is Some && !is_bad_directory(
                candidates[i].directory->0,
                roots,
                uid,
            ) && candidates[i].child is NotFound,
    ensures
        candidates[at].directory is None ==> search_outcome(candidates, roots, uid) == Err::<
            Opened,
            PolicyViolationCode,
        >(PolicyViolationCode::TrustedPathUnsafe),
        candidates[at].directory is Some && is_bad_directory(
            candidates[at].directory->0,
            roots,
            uid,
        ) ==> search_outcome(candidates, roots, uid) == Err::<Opened, PolicyViolationCode>(
            PolicyViolationCode::TrustedPathUnsafe,
        ),
        candidates[at].directory is Some && !is_bad_directory(
            candidates[at].directory->0,
            roots,
            uid,
        ) ==> match candidates[at].child {
            ChildOpen::Found(opened) => search_outcome(candidates, roots, uid) == Ok::<
                Opened,
                PolicyViolationCode,
            >(opened),
            ChildOpen::Failed => search_outcome(candidates, roots, uid) == Err::<
                Opened,
                PolicyViolationCode,
            >(PolicyViolationCode::AnchorMissing),
            ChildOpen::NotFound => at == candidates.len() - 1 ==> search_outcome(
                candidates,
                roots,
                uid,
            ) == Err::<Opened, PolicyViolationCode>(PolicyViolationCode::AnchorMissing),
        },
    decreases candidates.len(),
{
    if at > 0 {
        assert(candidates[0].child is NotFound);
        let rest = candidates.drop_first();
        assert forall|i: int| 0 <= i < at - 1 implies (#[trigger] rest[i]).directory is Some
            && !is_bad_directory(rest[i].directory->0, roots, uid) && rest[i].child is NotFound by {
            assert(rest[i] == candidates[i + 1]);
        }
        assert(rest[at - 1] == candidates[at]);
        lemma_search_takes_the_first(rest, at - 1, roots, uid);
    } else {
        assert(candidates.drop_first().len() == 0 || at < candidates.len() - 1);
        reveal_with_fuel(search_outcome, 2);
    }
}

/// A program is named by an absolute path, or by one name that is looked up;
/// nothing else is searched for.
pub proof fn lemma_program_names(program: Seq<char>)
    ensures
        program.len() == 0 ==> search_for(program) is Refused,
        program.contains('\0') ==> search_for(program) is Refused,
        search_for(program) is Absolute <==> program.len() > 0 && program[0] == '/'
            && !program.contains('\0'),
        search_for(program) is Lookup <==> program.len() > 0 && program[0] != '/'
            && !program.contains('\0') && components(program).len() == 1 && !has_dots(program),
{
}

/// Where a rule of the policy was broken: at the start, before a run is bound, or
/// before its marker is set; nothing more is told.
pub proof fn lemma_stages_of_violations(code: PolicyViolationCode)
    ensures
        at_startup(code).code == code && at_startup(code).stage is Startup,
        before_binding(code).code == code && before_binding(code).stage is PreBinding,
        before_marker(code).code == code && before_marker(code).stage is RunBoundPreMarker,
        at_startup(code).detail is NoDetail,
        before_binding(code).detail is NoDetail,
        before_marker(code).detail is NoDetail,
{
}

/// The names of a path that is opened step by step are all its names, in order;
/// a path is opened exactly where it is absolute, without detours, and without a
/// zero in a name.
pub proof fn lemma_steps_of_a_path(parts: Seq<Component>, part: Component, path: Seq<char>)
    ensures
        names_in(Seq::empty()).len() == 0,
        part matches Component::Normal(name) ==> names_in(parts.push(part)) == names_in(parts).push(
            name,
        ),
        !(part is Normal) ==> names_in(parts.push(part)) == names_in(parts),
        is_openable(path) <==> is_absolute(path) && !has_dots(path) && forall|i: int|
            0 <= i < names_in(components(path)).len() ==> !(#[trigger] names_in(
                components(path),
            )[i]).contains('\0'),
{
    assert(parts.push(part).drop_last() =~= parts);
}

/// Numbers are written in base sixteen, without leading zeros.
pub proof fn lemma_base_sixteen(n: nat, d: nat)
    requires
        d < 16,
    ensures
        hex_form(d).len() == 1,
        hex_form(d)[0] as int == if d < 10 {
            48 + d
        } else {
            87 + d
        },
        n > 0 ==> hex_form(16 * n + d) == hex_form(n) + hex_form(d),
{
    if n > 0 {
        assert((16 * n + d) / 16 == n);
        assert((16 * n + d) % 16 == d);
        assert(hex_form(n).push(hex_digit(d as int)) =~= hex_form(n) + seq![hex_digit(d as int)]);
    }
}

/// A step of a fingerprint holds the name and, in this order, the device, the
/// number, the owner and the rights of what was found.
pub proof fn lemma_step_of_a_fingerprint(name: Seq<char>, identity: ExecutableIdentity)
    ensures
        fingerprint_part(name, identity) == name + seq![':'] + hex_form(identity.device as nat)
            + seq![':'] + hex_form(identity.inode as nat) + seq![':'] + hex_form(
            identity.owner as nat,
        ) + seq![':'] + hex_form(identity.mode as nat) + seq![';'],
{
    reveal_strlit(":");
    reveal_strlit(";");
    assert(":"@ =~= seq![':']);
    assert(";"@ =~= seq![';']);
}

/// An anchor is given exactly where nothing stands against it, and it holds what
/// was opened: its path, its identity and the way to it.
pub proof fn lemma_what_an_anchor_holds(
    anchor: Result<ExecutableAnchor, PolicyViolation>,
    opened: Option<Opened>,
    roots: Seq<Seq<char>>,
    uid: u32,
)
    requires
        is_anchoring(anchor, opened, roots, uid),
    ensures
        anchor is Ok <==> opened_violation(opened, roots, uid) is None,
        anchor matches Ok(a) ==> a.canonical_path@ == opened->0.canonical_path@ && a.identity
            == opened->0.facts->0.identity && a.resolution_fingerprint@
            == opened->0.resolution_fingerprint@,
        anchor matches Err(violation) ==> violation.stage is Startup && Some(violation.code)
            == opened_violation(opened, roots, uid),
{
}

} // verus!
