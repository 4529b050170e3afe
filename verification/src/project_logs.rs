//! The files that the launch gate of an agent needs: its log and the marker beside it,
//! reached component by component from the root of the project.

use vstd::prelude::*;
use vstd::string::*;

use crate::digest::{hex, hex_text};
use crate::error::{io_error, io_kind, AppError};
use crate::execution_policy::{
    LogUnsafeReason, PolicyViolation, PolicyViolationCode, PolicyViolationDetail,
    PolicyViolationStage,
};
use crate::fspath::{components, part_views, split, Component, PathPart};
use crate::logs::{is_violation, unsafe_log};
use crate::proposals::text_views;
use crate::text::{append_int, append_text, chars_of, decimal, same_text, string_of};
use crate::wire::{be_bytes, push_be, same_bytes};

verus! {

/// The bits of a mode that tell the kind of a file.
pub const KIND_BITS: u32 = 0o170000;

pub const KIND_REGULAR: u32 = 0o100000;

pub const KIND_DIRECTORY: u32 = 0o040000;

pub const KIND_SYMLINK: u32 = 0o120000;

/// How often a directory that vanishes and reappears is opened.
pub const DIRECTORY_ATTEMPTS: u32 = 4;

/// How many names a private marker may be refused.
pub const MARKER_ATTEMPTS: u32 = 32;

fn log_unsafe(reason: LogUnsafeReason) -> (error: AppError)
    ensures
        is_violation(error, unsafe_log(reason)),
{
    AppError::PolicyViolation {
        violation: PolicyViolation::with_detail(
            PolicyViolationCode::LogUnsafe,
            PolicyViolationStage::NativeGate,
            PolicyViolationDetail::LogUnsafe(reason),
        ),
    }
}

// ---------------------------------------------------------------------------
// What a file is
// ---------------------------------------------------------------------------
/// What tells a file apart, from its open descriptor.
#[derive(Clone, Copy, Debug, PartialEq, Eq, Structural)]
pub struct LogFileIdentity {
    pub device: u64,
    pub inode: u64,
    pub owner: u32,
    pub mode: u32,
}

/// What tells a marker apart.
pub type GateMarkerIdentity = LogFileIdentity;

impl LogFileIdentity {
    pub open spec fn has_kind(self, kind: u32) -> bool {
        self.mode & KIND_BITS == kind
    }

    pub fn is_regular(&self) -> (yes: bool)
        ensures
            yes == self.has_kind(KIND_REGULAR),
    {
        self.mode & KIND_BITS == KIND_REGULAR
    }

    pub fn is_directory(&self) -> (yes: bool)
        ensures
            yes == self.has_kind(KIND_DIRECTORY),
    {
        self.mode & KIND_BITS == KIND_DIRECTORY
    }

    pub fn is_symlink(&self) -> (yes: bool)
        ensures
            yes == self.has_kind(KIND_SYMLINK),
    {
        self.mode & KIND_BITS == KIND_SYMLINK
    }

    /// A file of this user that nobody else can read or write.
    pub fn is_regular_owner_only(&self, uid: u32) -> (yes: bool)
        ensures
            yes == (file_defect(*self, uid) is None),
    {
        self.is_regular() && self.owner == uid && self.mode & 0o077u32 == 0
    }

    fn nonregular_reason(&self) -> (reason: LogUnsafeReason)
        ensures
            reason == nonregular(*self),
    {
        if self.is_directory() {
            LogUnsafeReason::Directory
        } else {
            LogUnsafeReason::Device
        }
    }
}

pub open spec fn nonregular(identity: LogFileIdentity) -> LogUnsafeReason {
    if identity.has_kind(KIND_DIRECTORY) {
        LogUnsafeReason::Directory
    } else {
        LogUnsafeReason::Device
    }
}

/// What is wrong with a log or a marker.
pub open spec fn file_defect(identity: LogFileIdentity, uid: u32) -> Option<LogUnsafeReason> {
    if !identity.has_kind(KIND_REGULAR) {
        Some(nonregular(identity))
    } else if identity.owner != uid {
        Some(LogUnsafeReason::WrongOwner)
    } else if identity.mode & 0o077u32 != 0 {
        Some(LogUnsafeReason::WeakPermissions)
    } else {
        None
    }
}

/// What is wrong with a directory on the way.
pub open spec fn directory_defect(identity: LogFileIdentity, uid: u32) -> Option<LogUnsafeReason> {
    if !identity.has_kind(KIND_DIRECTORY) {
        Some(nonregular(identity))
    } else if identity.owner != uid {
        Some(LogUnsafeReason::WrongOwner)
    } else if identity.mode & 0o022u32 != 0 {
        Some(LogUnsafeReason::WeakPermissions)
    } else {
        None
    }
}

/// A check that refuses what has a defect.
pub open spec fn refuses(checked: Result<(), AppError>, defect: Option<LogUnsafeReason>) -> bool {
    match defect {
        Some(reason) => checked matches Err(error) && is_violation(error, unsafe_log(reason)),
        None => checked is Ok,
    }
}

pub fn validate_owner_only_file(identity: LogFileIdentity, uid: u32) -> (checked: Result<(), AppError>)
    ensures
        refuses(checked, file_defect(identity, uid)),
{
    if !identity.is_regular() {
        return Err(log_unsafe(identity.nonregular_reason()));
    }
    if identity.owner != uid {
        return Err(log_unsafe(LogUnsafeReason::WrongOwner));
    }
    if identity.mode & 0o077u32 != 0 {
        return Err(log_unsafe(LogUnsafeReason::WeakPermissions));
    }
    Ok(())
}

pub fn validate_directory(identity: LogFileIdentity, uid: u32) -> (checked: Result<(), AppError>)
    ensures
        refuses(checked, directory_defect(identity, uid)),
{
    if !identity.is_directory() {
        return Err(log_unsafe(identity.nonregular_reason()));
    }
    if identity.owner != uid {
        return Err(log_unsafe(LogUnsafeReason::WrongOwner));
    }
    if identity.mode & 0o022u32 != 0 {
        return Err(log_unsafe(LogUnsafeReason::WeakPermissions));
    }
    Ok(())
}

/// A log that opens for detection has only to be a regular file.
pub fn validate_readable_log(identity: LogFileIdentity) -> (checked: Result<(), AppError>)
    ensures
        refuses(
            checked,
            if identity.has_kind(KIND_REGULAR) {
                None
            } else {
                Some(nonregular(identity))
            },
        ),
{
    if identity.is_regular() {
        Ok(())
    } else {
        Err(log_unsafe(identity.nonregular_reason()))
    }
}

// ---------------------------------------------------------------------------
// Relative paths
// ---------------------------------------------------------------------------
/// Why a component may not stand in a relative path.
pub open spec fn component_defect(component: Component) -> Option<LogUnsafeReason> {
    match component {
        Component::Normal(_) => None,
        Component::Current => Some(LogUnsafeReason::CurDir),
        Component::Parent => Some(LogUnsafeReason::ParentTraversal),
        Component::Root => Some(LogUnsafeReason::AbsolutePath),
    }
}

pub open spec fn first_defect(all: Seq<Component>) -> Option<LogUnsafeReason>
    decreases all.len(),
{
    if all.len() == 0 {
        None
    } else {
        match first_defect(all.drop_last()) {
            Some(reason) => Some(reason),
            None => component_defect(all.last()),
        }
    }
}

/// Why a path is none that leads down from a directory.
pub open spec fn relative_defect(path: Seq<char>) -> Option<LogUnsafeReason> {
    match first_defect(components(path)) {
        Some(reason) => Some(reason),
        None => if components(path).len() == 0 {
            Some(LogUnsafeReason::EmptyPath)
        } else {
            None
        },
    }
}

pub open spec fn component_name(component: Component) -> Seq<char> {
    match component {
        Component::Normal(name) => name,
        _ => Seq::empty(),
    }
}

/// The names on the way down.
pub open spec fn relative_names(path: Seq<char>) -> Seq<Seq<char>> {
    components(path).map_values(|c: Component| component_name(c))
}

/// Splits a path that leads down from a directory into the names on the way.
pub fn relative_components(path: &str) -> (names: Result<Vec<String>, AppError>)
    ensures
        match names {
            Ok(list) => relative_defect(path@) is None && list@.len() > 0 && text_views(list@)
                == relative_names(path@),
            Err(error) => relative_defect(path@) matches Some(reason) && is_violation(
                error,
                unsafe_log(reason),
            ),
        },
{
    let chars = chars_of(path);
    let parts = split(chars.as_slice());
    let ghost all = components(path@);
    let mut names: Vec<String> = Vec::new();
    let mut at: usize = 0;
    proof {
        assert(all.take(0) =~= Seq::<Component>::empty());
    }
    while at < parts.len()
        invariant
            at <= parts@.len(),
            part_views(parts@) == all,
            all == components(path@),
            first_defect(all.take(at as int)) is None,
            names@.len() == at,
            forall|i: int| 0 <= i < at ==> (#[trigger] names@[i])@ == component_name(all[i]),
        decreases parts.len() - at,
    {
        proof {
            assert(all.take(at + 1).drop_last() =~= all.take(at as int));
            assert(all.take(at + 1).last() == all[at as int]);
            assert(all[at as int] == parts@[at as int]@);
        }
        match &parts[at] {
            PathPart::Normal(name) => names.push(string_of(name.as_slice())),
            PathPart::Current => {
                proof {
                    lemma_first_defect_stays(all, at + 1);
                }
                return Err(log_unsafe(LogUnsafeReason::CurDir));
            },
            PathPart::Parent => {
                proof {
                    lemma_first_defect_stays(all, at + 1);
                }
                return Err(log_unsafe(LogUnsafeReason::ParentTraversal));
            },
            PathPart::Root => {
                proof {
                    lemma_first_defect_stays(all, at + 1);
                }
                return Err(log_unsafe(LogUnsafeReason::AbsolutePath));
            },
        }
        at = at + 1;
    }
    proof {
        assert(all.take(all.len() as int) =~= all);
        assert(text_views(names@) =~= relative_names(path@));
    }
    if names.len() == 0 {
        return Err(log_unsafe(LogUnsafeReason::EmptyPath));
    }
    Ok(names)
}

proof fn lemma_first_defect_stays(all: Seq<Component>, n: int)
    requires
        0 <= n <= all.len(),
        first_defect(all.take(n)) is Some,
    ensures
        first_defect(all) == first_defect(all.take(n)),
    decreases all.len() - n,
{
    if n < all.len() {
        assert(all.take(n + 1).drop_last() =~= all.take(n));
        lemma_first_defect_stays(all, n + 1);
    } else {
        assert(all.take(n) =~= all);
    }
}

/// The names of the directory of the launch gate, from the root of the project.
pub open spec fn gate_parent() -> Seq<Seq<char>> {
    seq![".pueue-agent"@, "logs"@]
}

/// The path leads to a name in the directory of the launch gate.
pub open spec fn is_gate_path(path: Seq<char>) -> bool {
    relative_defect(path) is None && relative_names(path).drop_last() == gate_parent()
}

fn in_gate_directory(names: &Vec<String>) -> (yes: bool)
    requires
        names@.len() > 0,
    ensures
        yes == (text_views(names@).drop_last() == gate_parent()),
{
    let yes = names.len() == 3 && same_text(names[0].as_str(), ".pueue-agent") && same_text(
        names[1].as_str(),
        "logs",
    );
    proof {
        let own = text_views(names@).drop_last();
        if yes {
            assert(own =~= gate_parent());
        } else if own == gate_parent() {
            assert(own.len() == 2 && own[0] == gate_parent()[0] && own[1] == gate_parent()[1]);
        }
    }
    yes
}

/// The names of a log and its marker in the directory of the launch gate.
#[derive(Debug, Clone, PartialEq, Eq)]
pub struct GateNames {
    pub log_name: String,
    pub marker_name: String,
}

/// Takes the paths of a log and its marker: two different names in the directory
/// of the launch gate.
pub fn gate_names(log: &str, marker: &str) -> (names: Result<GateNames, AppError>)
    ensures
        match names {
            Ok(gate) => is_gate_path(log@) && is_gate_path(marker@) && gate.log_name@
                == relative_names(log@).last() && gate.marker_name@ == relative_names(marker@).last()
                && gate.log_name@ != gate.marker_name@,
            Err(error) => is_violation(
                error,
                unsafe_log(
                    match relative_defect(log@) {
                        Some(reason) => reason,
                        None => match relative_defect(marker@) {
                            Some(reason) => reason,
                            None => LogUnsafeReason::RootChanged,
                        },
                    },
                ),
            ) && !(is_gate_path(log@) && is_gate_path(marker@) && relative_names(log@).last()
                != relative_names(marker@).last()),
        },
{
    let log_names = relative_components(log)?;
    let marker_names = relative_components(marker)?;
    let log_name = log_names[log_names.len() - 1].as_str();
    let marker_name = marker_names[marker_names.len() - 1].as_str();
    proof {
        assert(text_views(log_names@).last() == log_names@.last()@);
        assert(text_views(marker_names@).last() == marker_names@.last()@);
    }
    if !in_gate_directory(&log_names) || !in_gate_directory(&marker_names) || same_text(
        log_name,
        marker_name,
    ) {
        return Err(log_unsafe(LogUnsafeReason::RootChanged));
    }
    Ok(GateNames { log_name: log_name.to_owned(), marker_name: marker_name.to_owned() })
}

/// Takes the path of a marker that is looked at when the supervisor starts.
pub fn startup_marker_name(marker: &str) -> (name: Result<String, AppError>)
    ensures
        match name {
            Ok(n) => is_gate_path(marker@) && n@ == relative_names(marker@).last(),
            Err(error) => !is_gate_path(marker@) && is_violation(
                error,
                unsafe_log(
                    match relative_defect(marker@) {
                        Some(reason) => reason,
                        None => LogUnsafeReason::RootChanged,
                    },
                ),
            ),
        },
{
    let names = relative_components(marker)?;
    proof {
        assert(text_views(names@).last() == names@.last()@);
    }
    if !in_gate_directory(&names) {
        return Err(log_unsafe(LogUnsafeReason::RootChanged));
    }
    Ok(names[names.len() - 1].clone())
}

// ---------------------------------------------------------------------------
// Failures of opening
// ---------------------------------------------------------------------------
/// The kind of a failure, by its number.
#[derive(Debug, Clone, Copy, PartialEq, Eq, Structural)]
pub enum OpenErrno {
    Missing,
    Loop,
    NotDirectory,
    IsDirectory,
    Exists,
    Other,
}

/// A failure for which it is asked whether the name is a symbolic link.
pub open spec fn may_be_symlink(errno: OpenErrno) -> bool {
    errno is Loop || errno is NotDirectory || errno is IsDirectory
}

pub fn asks_for_symlink(errno: OpenErrno) -> (yes: bool)
    ensures
        yes == may_be_symlink(errno),
{
    match errno {
        OpenErrno::Loop | OpenErrno::NotDirectory | OpenErrno::IsDirectory => true,
        _ => false,
    }
}

/// What a component that could not be opened is refused for.
pub open spec fn walk_defect(errno: OpenErrno, is_symlink: bool) -> Option<LogUnsafeReason> {
    if may_be_symlink(errno) && is_symlink {
        Some(LogUnsafeReason::Symlink)
    } else {
        match errno {
            OpenErrno::Loop => Some(LogUnsafeReason::Symlink),
            OpenErrno::NotDirectory => Some(LogUnsafeReason::Directory),
            OpenErrno::IsDirectory => Some(LogUnsafeReason::Directory),
            _ => None,
        }
    }
}

pub open spec fn is_io_error(error: AppError, text: Seq<char>, own: std::io::Error) -> bool {
    error matches AppError::Io { operation, source } && operation@ == text && source == own
}

/// The error of attempts that ran into what was there already.
pub open spec fn is_taken_error(error: AppError, text: Seq<char>) -> bool {
    error matches AppError::Io { operation, source } && operation@ == text && io_kind(source)
        == std::io::ErrorKind::AlreadyExists
}

pub fn map_component_open_error(errno: OpenErrno, is_symlink: bool, source: std::io::Error) -> (error:
    AppError)
    ensures
        match walk_defect(errno, is_symlink) {
            Some(reason) => is_violation(error, unsafe_log(reason)),
            None => is_io_error(error, "open project log path"@, source),
        },
{
    if asks_for_symlink(errno) && is_symlink {
        return log_unsafe(LogUnsafeReason::Symlink);
    }
    match errno {
        OpenErrno::Loop => log_unsafe(LogUnsafeReason::Symlink),
        OpenErrno::NotDirectory | OpenErrno::IsDirectory => log_unsafe(LogUnsafeReason::Directory),
        _ => AppError::Io { operation: "open project log path", source },
    }
}

/// A component that has to be there.
pub fn map_required_component_open_error(
    errno: OpenErrno,
    is_symlink: bool,
    source: std::io::Error,
) -> (error: AppError)
    ensures
        if errno is Missing {
            is_violation(error, unsafe_log(LogUnsafeReason::Missing))
        } else {
            match walk_defect(errno, is_symlink) {
                Some(reason) => is_violation(error, unsafe_log(reason)),
                None => is_io_error(error, "open project log path"@, source),
            }
        },
{
    match errno {
        OpenErrno::Missing => log_unsafe(LogUnsafeReason::Missing),
        other => map_component_open_error(other, is_symlink, source),
    }
}

/// An existing log that has to be there.
pub fn map_existing_log_error(errno: OpenErrno, error: AppError) -> (mapped: AppError)
    ensures
        if errno is Missing && error is Io {
            is_violation(mapped, unsafe_log(LogUnsafeReason::Missing))
        } else {
            mapped == error
        },
{
    match error {
        AppError::Io { operation, source } => match errno {
            OpenErrno::Missing => log_unsafe(LogUnsafeReason::Missing),
            _ => AppError::Io { operation, source },
        },
        other => other,
    }
}

/// An existing marker stays what it is; a symbolic link in its place is told.
pub fn classify_marker_create_error(error: AppError, errno: OpenErrno, is_symlink: bool) -> (mapped:
    AppError)
    ensures
        if error is Io && errno is Exists && is_symlink {
            is_violation(mapped, unsafe_log(LogUnsafeReason::Symlink))
        } else {
            mapped == error
        },
{
    match error {
        AppError::Io { operation, source } => match errno {
            OpenErrno::Exists => if is_symlink {
                log_unsafe(LogUnsafeReason::Symlink)
            } else {
                AppError::Io { operation, source }
            },
            _ => AppError::Io { operation, source },
        },
        other => other,
    }
}

// ---------------------------------------------------------------------------
// Manifests
// ---------------------------------------------------------------------------
/// What opening the manifest of a result gave.
#[derive(Debug)]
pub enum ResultManifestOpen {
    Missing,
    Invalid,
    Usable,
}

/// Judges a directory on the way to a manifest that could not be opened.
pub fn result_parent_failed(errno: OpenErrno, is_symlink: bool, source: std::io::Error) -> (found: Result<
    ResultManifestOpen,
    AppError,
>)
    ensures
        match errno {
            OpenErrno::Missing => found matches Ok(open) && open is Missing,
            _ => found matches Err(error) && if may_be_symlink(errno) && is_symlink {
                is_violation(error, unsafe_log(LogUnsafeReason::Symlink))
            } else {
                is_io_error(error, "open result manifest"@, source)
            },
        },
{
    match errno {
        OpenErrno::Missing => Ok(ResultManifestOpen::Missing),
        other => if asks_for_symlink(other) && is_symlink {
            Err(log_unsafe(LogUnsafeReason::Symlink))
        } else {
            Err(AppError::Io { operation: "open result manifest", source })
        },
    }
}

/// Judges a manifest that could not be opened; `identity` is what stands under
/// its name, where that could be asked.
pub fn result_final_failed(
    errno: OpenErrno,
    identity: Option<LogFileIdentity>,
    source: std::io::Error,
) -> (found: Result<ResultManifestOpen, AppError>)
    ensures
        match errno {
            OpenErrno::Missing => found matches Ok(open) && open is Missing,
            _ => match identity {
                Some(own) if !own.has_kind(KIND_REGULAR) => found matches Ok(open) && open is Invalid,
                _ => found matches Err(error) && is_io_error(error, "open result manifest"@, source),
            },
        },
{
    match errno {
        OpenErrno::Missing => Ok(ResultManifestOpen::Missing),
        _ => {
            let nonregular = match identity {
                Some(own) => !own.is_regular(),
                None => false,
            };
            if nonregular {
                Ok(ResultManifestOpen::Invalid)
            } else {
                Err(AppError::Io { operation: "open result manifest", source })
            }
        },
    }
}

/// Judges a manifest that was opened.
pub fn result_final_opened(identity: LogFileIdentity) -> (found: ResultManifestOpen)
    ensures
        found == (if identity.has_kind(KIND_REGULAR) {
            ResultManifestOpen::Usable
        } else {
            ResultManifestOpen::Invalid
        }),
{
    if identity.is_regular() {
        ResultManifestOpen::Usable
    } else {
        ResultManifestOpen::Invalid
    }
}

// ---------------------------------------------------------------------------
// Making directories and names
// ---------------------------------------------------------------------------
/// What is done next about a directory that has to be there.
pub enum DirectoryStep {
    /// It is opened; the attempt has this number.
    Open(u32),
    /// It is made, then opened again.
    Create(u32),
    GiveUp(AppError),
    /// The attempts are used up.
    Exhausted(AppError),
}

/// A directory that has to be there could not be opened.
pub fn directory_open_failed(attempt: u32, errno: OpenErrno, is_symlink: bool, source: std::io::Error) -> (step:
    DirectoryStep)
    ensures
        match errno {
            OpenErrno::Missing => step == DirectoryStep::Create(attempt),
            _ => step matches DirectoryStep::GiveUp(error) && match walk_defect(errno, is_symlink) {
                Some(reason) => is_violation(error, unsafe_log(reason)),
                None => is_io_error(error, "open project log path"@, source),
            },
        },
{
    match errno {
        OpenErrno::Missing => DirectoryStep::Create(attempt),
        other => DirectoryStep::GiveUp(map_component_open_error(other, is_symlink, source)),
    }
}

/// A directory was made, or could not be; one that somebody else made is as
/// good.
pub fn directory_made(attempt: u32, failure: Option<(OpenErrno, std::io::Error)>) -> (step: DirectoryStep)
    requires
        attempt < DIRECTORY_ATTEMPTS,
    ensures
        match failure {
            Some((errno, source)) if !(errno is Exists) => step matches DirectoryStep::GiveUp(error)
                && is_io_error(error, "create agent log directory"@, source),
            _ => if attempt + 1 < DIRECTORY_ATTEMPTS {
                step == DirectoryStep::Open((attempt + 1) as u32)
            } else {
                step matches DirectoryStep::Exhausted(error) && is_taken_error(
                    error,
                    "create agent log directory"@,
                )
            },
        },
{
    if let Some((errno, source)) = failure {
        match errno {
            OpenErrno::Exists => {},
            _ => {
                return DirectoryStep::GiveUp(
                    AppError::Io { operation: "create agent log directory", source },
                );
            },
        }
    }
    if attempt + 1 < DIRECTORY_ATTEMPTS {
        DirectoryStep::Open(attempt + 1)
    } else {
        DirectoryStep::Exhausted(
            AppError::Io {
                operation: "create agent log directory",
                source: io_error(
                    std::io::ErrorKind::AlreadyExists,
                    "directory changed during creation",
                ),
            },
        )
    }
}

/// The name of a marker that is not published yet.
pub open spec fn private_name(pid: int, counter: nat, high: nat, low: nat) -> Seq<char> {
    ".pueue-agent-marker-"@ + decimal(pid) + "-"@ + hex(be_bytes(counter, 8)) + "-"@ + hex(
        be_bytes(high, 8),
    ) + hex(be_bytes(low, 8))
}

fn append_hex(chars: &mut Vec<char>, n: u64)
    ensures
        final(chars)@ == old(chars)@ + hex(be_bytes(n as nat, 8)),
{
    let mut bytes: Vec<u8> = Vec::new();
    push_be(&mut bytes, n, 8);
    proof {
        assert(bytes@ =~= be_bytes(n as nat, 8));
    }
    let digits = hex_text(bytes.as_slice());
    append_text(chars, digits.as_str());
}

/// Makes the name of a marker that is not published yet, from the number of the
/// process, a counter, and the two halves of a random number.
pub fn private_marker_name(pid: i32, counter: u64, random_high: u64, random_low: u64) -> (name: String)
    ensures
        name@ == private_name(
            pid as int,
            counter as nat,
            random_high as nat,
            random_low as nat,
        ),
{
    let mut chars = chars_of(".pueue-agent-marker-");
    append_int(&mut chars, pid as i64);
    append_text(&mut chars, "-");
    append_hex(&mut chars, counter);
    append_text(&mut chars, "-");
    append_hex(&mut chars, random_high);
    append_hex(&mut chars, random_low);
    string_of(chars.as_slice())
}

/// What is done next about a private marker that could not be made.
pub enum NameStep {
    /// Another name is tried; the attempt has this number.
    Again(u32),
    GiveUp(AppError),
    /// The attempts are used up.
    Exhausted(AppError),
}

/// A private marker could not be made: only a name that is taken is a reason to
/// try another.
pub fn private_marker_failed(attempt: u32, errno: OpenErrno, source: std::io::Error) -> (step: NameStep)
    requires
        attempt < MARKER_ATTEMPTS,
    ensures
        match errno {
            OpenErrno::Exists => if attempt + 1 < MARKER_ATTEMPTS {
                step == NameStep::Again((attempt + 1) as u32)
            } else {
                step matches NameStep::Exhausted(error) && is_taken_error(
                    error,
                    "create private gate marker"@,
                )
            },
            _ => step matches NameStep::GiveUp(error) && is_io_error(
                error,
                "create private gate marker"@,
                source,
            ),
        },
{
    match errno {
        OpenErrno::Exists => if attempt + 1 < MARKER_ATTEMPTS {
            NameStep::Again(attempt + 1)
        } else {
            NameStep::Exhausted(
                AppError::Io {
                    operation: "create private gate marker",
                    source: io_error(
                        std::io::ErrorKind::AlreadyExists,
                        "private gate marker name collision",
                    ),
                },
            )
        },
        _ => NameStep::GiveUp(AppError::Io { operation: "create private gate marker", source }),
    }
}

// ---------------------------------------------------------------------------
// Publishing a marker
// ---------------------------------------------------------------------------
/// How far the publication of a marker is: what comes next.
#[derive(Debug)]
pub enum MarkerRun {
    /// The private file is asked for its identity.
    Identify,
    Write(LogFileIdentity),
    Sync(LogFileIdentity),
    /// The private file gets the name of the marker too.
    Publish(LogFileIdentity),
    /// The private name goes.
    Remove(LogFileIdentity),
    SyncDirectory { identity: LogFileIdentity, removal: Option<std::io::Error> },
}

/// What came of it.
#[derive(Debug)]
pub enum MarkerReply {
    Identity(LogFileIdentity),
    Done,
    Failed(std::io::Error),
}

/// What follows.
pub enum MarkerMove {
    Next(MarkerRun),
    /// The private file is removed, and the error told.
    CleanUp(AppError),
    Finished(Result<LogFileIdentity, AppError>),
}

/// A reply that can come at this point.
pub open spec fn reply_fits(run: MarkerRun, reply: MarkerReply) -> bool {
    match reply {
        MarkerReply::Identity(_) => run is Identify,
        MarkerReply::Done => !(run is Identify),
        MarkerReply::Failed(_) => true,
    }
}

/// The marker stands under its own name.
pub open spec fn is_published(run: MarkerRun) -> bool {
    run is Remove || run is SyncDirectory
}

/// The move is the one that follows.
pub open spec fn is_marker_move(next: MarkerMove, run: MarkerRun, reply: MarkerReply, uid: u32) -> bool {
    match (run, reply) {
        (MarkerRun::Identify, MarkerReply::Identity(identity)) => match file_defect(identity, uid) {
            Some(reason) => next matches MarkerMove::CleanUp(error) && is_violation(
                error,
                unsafe_log(reason),
            ),
            None => next == MarkerMove::Next(MarkerRun::Write(identity)),
        },
        (MarkerRun::Identify, MarkerReply::Failed(source)) => next matches MarkerMove::CleanUp(error)
            && is_io_error(error, "read gate marker metadata"@, source),
        (MarkerRun::Write(identity), MarkerReply::Done) => next == MarkerMove::Next(
            MarkerRun::Sync(identity),
        ),
        (MarkerRun::Write(_), MarkerReply::Failed(source)) => next matches MarkerMove::CleanUp(error)
            && is_io_error(error, "write gate marker"@, source),
        (MarkerRun::Sync(identity), MarkerReply::Done) => next == MarkerMove::Next(
            MarkerRun::Publish(identity),
        ),
        (MarkerRun::Sync(_), MarkerReply::Failed(source)) => next matches MarkerMove::CleanUp(error)
            && is_io_error(error, "sync gate marker"@, source),
        (MarkerRun::Publish(identity), MarkerReply::Done) => next == MarkerMove::Next(
            MarkerRun::Remove(identity),
        ),
        (MarkerRun::Publish(_), MarkerReply::Failed(source)) => next matches MarkerMove::CleanUp(
            error,
        ) && is_io_error(error, "publish gate marker"@, source),
        (MarkerRun::Remove(identity), MarkerReply::Done) => next == MarkerMove::Next(
            MarkerRun::SyncDirectory { identity, removal: None },
        ),
        (MarkerRun::Remove(identity), MarkerReply::Failed(source)) => next == MarkerMove::Next(
            MarkerRun::SyncDirectory { identity, removal: Some(source) },
        ),
        (MarkerRun::SyncDirectory { identity, removal }, _) => match removal {
            Some(source) => next matches MarkerMove::Finished(Err(error)) && is_io_error(
                error,
                "remove private gate marker"@,
                source,
            ),
            None => match reply {
                MarkerReply::Failed(source) => next matches MarkerMove::Finished(Err(error))
                    && is_io_error(error, "sync gate marker directory"@, source),
                _ => next == MarkerMove::Finished(Ok(identity)),
            },
        },
        _ => true,
    }
}

/// Goes on with the publication of a marker.
pub fn publish_step(run: MarkerRun, reply: MarkerReply, uid: u32) -> (next: MarkerMove)
    requires
        reply_fits(run, reply),
    ensures
        is_marker_move(next, run, reply, uid),
{
    match run {
        MarkerRun::Identify => match reply {
            MarkerReply::Identity(identity) => match validate_owner_only_file(identity, uid) {
                Ok(_) => MarkerMove::Next(MarkerRun::Write(identity)),
                Err(error) => MarkerMove::CleanUp(error),
            },
            MarkerReply::Failed(source) => MarkerMove::CleanUp(
                AppError::Io { operation: "read gate marker metadata", source },
            ),
            MarkerReply::Done => MarkerMove::Next(MarkerRun::Identify),
        },
        MarkerRun::Write(identity) => match reply {
            MarkerReply::Failed(source) => MarkerMove::CleanUp(
                AppError::Io { operation: "write gate marker", source },
            ),
            _ => MarkerMove::Next(MarkerRun::Sync(identity)),
        },
        MarkerRun::Sync(identity) => match reply {
            MarkerReply::Failed(source) => MarkerMove::CleanUp(
                AppError::Io { operation: "sync gate marker", source },
            ),
            _ => MarkerMove::Next(MarkerRun::Publish(identity)),
        },
        MarkerRun::Publish(identity) => match reply {
            MarkerReply::Failed(source) => MarkerMove::CleanUp(
                AppError::Io { operation: "publish gate marker", source },
            ),
            _ => MarkerMove::Next(MarkerRun::Remove(identity)),
        },
        MarkerRun::Remove(identity) => match reply {
            MarkerReply::Failed(source) => MarkerMove::Next(
                MarkerRun::SyncDirectory { identity, removal: Some(source) },
            ),
            _ => MarkerMove::Next(MarkerRun::SyncDirectory { identity, removal: None }),
        },
        MarkerRun::SyncDirectory { identity, removal } => match removal {
            Some(source) => MarkerMove::Finished(
                Err(AppError::Io { operation: "remove private gate marker", source }),
            ),
            None => match reply {
                MarkerReply::Failed(source) => MarkerMove::Finished(
                    Err(AppError::Io { operation: "sync gate marker directory", source }),
                ),
                _ => MarkerMove::Finished(Ok(identity)),
            },
        },
    }
}

/// A marker that was published is never taken back; whatever fails before that
/// removes the private file; and success is told only of a marker that was
/// written, synced, published and made lasting.
pub proof fn lemma_published_marker_stays(next: MarkerMove, run: MarkerRun, reply: MarkerReply, uid: u32)
    requires
        reply_fits(run, reply),
        is_marker_move(next, run, reply, uid),
    ensures
        is_published(run) ==> !(next is CleanUp),
        is_published(run) ==> (next matches MarkerMove::Next(later) ==> is_published(later)),
        !is_published(run) && reply is Failed ==> next is CleanUp,
        next matches MarkerMove::Finished(end) ==> is_published(run) && (end is Ok ==> reply is Done
            && (run matches MarkerRun::SyncDirectory { identity, removal } && removal is None && end
            == Ok::<LogFileIdentity, AppError>(identity))),
        next matches MarkerMove::Next(later) && is_published(later) && !is_published(run) ==> run
            is Publish && reply is Done,
{
}

// ---------------------------------------------------------------------------
// Looking at a marker
// ---------------------------------------------------------------------------
/// `authorized` and the end of the line.
pub open spec fn marker_contents() -> Seq<u8> {
    seq![97u8, 117, 116, 104, 111, 114, 105, 122, 101, 100, 10]
}

/// The bytes of a marker.
pub fn marker_bytes() -> (bytes: Vec<u8>)
    ensures
        bytes@ == marker_contents(),
{
    let bytes: Vec<u8> = vec![97, 117, 116, 104, 111, 114, 105, 122, 101, 100, 10];
    proof {
        assert(bytes@ =~= marker_contents());
    }
    bytes
}

/// What is wrong with a marker.
pub open spec fn marker_defect(identity: LogFileIdentity, uid: u32, contents: Seq<u8>) -> Option<
    LogUnsafeReason,
> {
    match file_defect(identity, uid) {
        Some(reason) => Some(reason),
        None => if contents == marker_contents() {
            None
        } else {
            Some(LogUnsafeReason::InvalidContents)
        },
    }
}

/// Judges a marker by its identity and what it holds.
pub fn check_marker(identity: LogFileIdentity, uid: u32, contents: &[u8]) -> (checked: Result<(), AppError>)
    ensures
        refuses(checked, marker_defect(identity, uid, contents@)),
{
    validate_owner_only_file(identity, uid)?;
    let expected = marker_bytes();
    if !same_bytes(contents, expected.as_slice()) {
        return Err(log_unsafe(LogUnsafeReason::InvalidContents));
    }
    Ok(())
}

/// What a look at a marker tells when the supervisor starts. A marker that is
/// indeterminate is not known to be valid, and not known to be absent.
#[derive(Clone, Copy, Debug, PartialEq, Eq, Structural)]
pub enum StartupGateMarkerInspection {
    Absent,
    Valid,
    Indeterminate,
}

/// The same directory was found by its path, opened, and found by its path
/// again.
pub fn same_gate_directory(
    pinned: LogFileIdentity,
    opened: LogFileIdentity,
    current: LogFileIdentity,
) -> (checked: Result<(), AppError>)
    ensures
        refuses(
            checked,
            if pinned == opened && opened == current {
                None
            } else {
                Some(LogUnsafeReason::RootChanged)
            },
        ),
{
    if opened != pinned || current != pinned || current != opened {
        Err(log_unsafe(LogUnsafeReason::RootChanged))
    } else {
        Ok(())
    }
}

/// Takes a look at a marker for what it is worth: only a marker that was looked
/// for and not found is absent.
pub fn startup_inspection(entry: &Result<Option<GateMarkerIdentity>, AppError>) -> (inspection:
    StartupGateMarkerInspection)
    ensures
        inspection is Absent <==> *entry matches Ok(None),
        inspection is Valid <==> *entry matches Ok(Some(_)),
        inspection is Indeterminate <==> *entry is Err,
{
    match entry {
        Ok(Some(_)) => StartupGateMarkerInspection::Valid,
        Ok(None) => StartupGateMarkerInspection::Absent,
        Err(_) => StartupGateMarkerInspection::Indeterminate,
    }
}

// ---------------------------------------------------------------------------
// The launch gate of an agent
// ---------------------------------------------------------------------------
/// The directory and the log of the launch gate are the ones that were opened.
pub open spec fn retained_defect(
    parent_then: LogFileIdentity,
    parent_now: LogFileIdentity,
    log_then: LogFileIdentity,
    log_now: Option<LogFileIdentity>,
    uid: u32,
) -> Option<LogUnsafeReason> {
    if parent_now != parent_then {
        Some(LogUnsafeReason::RootChanged)
    } else {
        match log_now {
            None => Some(LogUnsafeReason::Missing),
            Some(log) => match file_defect(log, uid) {
                Some(reason) => Some(reason),
                None => if log == log_then {
                    None
                } else {
                    Some(LogUnsafeReason::RootChanged)
                },
            },
        }
    }
}

pub fn revalidate_retained(
    parent_then: LogFileIdentity,
    parent_now: LogFileIdentity,
    log_then: LogFileIdentity,
    log_now: Option<LogFileIdentity>,
    uid: u32,
) -> (checked: Result<(), AppError>)
    ensures
        refuses(checked, retained_defect(parent_then, parent_now, log_then, log_now, uid)),
{
    if parent_now != parent_then {
        return Err(log_unsafe(LogUnsafeReason::RootChanged));
    }
    match log_now {
        None => Err(log_unsafe(LogUnsafeReason::Missing)),
        Some(log) => {
            validate_owner_only_file(log, uid)?;
            if log != log_then {
                Err(log_unsafe(LogUnsafeReason::RootChanged))
            } else {
                Ok(())
            }
        },
    }
}

/// The marker is the one that was published.
pub fn revalidate_published(expected: GateMarkerIdentity, found: Option<GateMarkerIdentity>) -> (checked:
    Result<(), AppError>)
    ensures
        refuses(
            checked,
            match found {
                None => Some(LogUnsafeReason::Missing),
                Some(marker) => if marker == expected {
                    None
                } else {
                    Some(LogUnsafeReason::RootChanged)
                },
            },
        ),
{
    match found {
        None => Err(log_unsafe(LogUnsafeReason::Missing)),
        Some(marker) => if marker != expected {
            Err(log_unsafe(LogUnsafeReason::RootChanged))
        } else {
            Ok(())
        },
    }
}

/// A log is safe exactly where it is a regular file of the user to which nobody
/// else has any right; its directory where it is a directory of the user that
/// nobody else can write.
pub proof fn lemma_safe_logs(identity: LogFileIdentity, uid: u32)
    ensures
        file_defect(identity, uid) is None <==> identity.mode & 0o170000u32 == 0o100000u32
            && identity.owner == uid && identity.mode & 0o077u32 == 0,
        directory_defect(identity, uid) is None <==> identity.mode & 0o170000u32 == 0o040000u32
            && identity.owner == uid && identity.mode & 0o022u32 == 0,
        identity.mode & 0o170000u32 == 0o040000u32 ==> file_defect(identity, uid) == Some(
            LogUnsafeReason::Directory,
        ),
        identity.mode & 0o170000u32 == 0o100000u32 && identity.owner != uid ==> file_defect(
            identity,
            uid,
        ) == Some(LogUnsafeReason::WrongOwner),
        identity.mode & 0o170000u32 == 0o100000u32 && identity.owner == uid && identity.mode
            & 0o077u32 != 0 ==> file_defect(identity, uid) == Some(
            LogUnsafeReason::WeakPermissions,
        ),
{
}

/// A path inside a project is accepted exactly where it has a name and only
/// names; the first step that is none gives the reason.
pub proof fn lemma_which_relative_paths_are_safe(path: Seq<char>)
    ensures
        relative_defect(path) is None <==> components(path).len() > 0 && forall|i: int|
            0 <= i < components(path).len() ==> (#[trigger] components(path)[i]) is Normal,
        components(path).len() == 0 ==> relative_defect(path) == Some(LogUnsafeReason::EmptyPath),
        components(path).len() > 0 && components(path)[0] is Root ==> relative_defect(path) == Some(
            LogUnsafeReason::AbsolutePath,
        ),
        components(path).len() > 0 && components(path)[0] is Current ==> relative_defect(path)
            == Some(LogUnsafeReason::CurDir),
        components(path).len() > 0 && components(path)[0] is Parent ==> relative_defect(path)
            == Some(LogUnsafeReason::ParentTraversal),
{
    lemma_first_defect_of_steps(components(path));
}

proof fn lemma_first_defect_of_steps(all: Seq<Component>)
    ensures
        first_defect(all) is None <==> forall|i: int|
            0 <= i < all.len() ==> (#[trigger] all[i]) is Normal,
        all.len() > 0 && !(all[0] is Normal) ==> first_defect(all) == component_defect(all[0]),
    decreases all.len(),
{
    if all.len() > 0 {
        let head = all.drop_last();
        lemma_first_defect_of_steps(head);
        assert(all[all.len() - 1] == all.last());
        assert forall|i: int| 0 <= i < head.len() implies (#[trigger] head[i]) == all[i] by {
        }
        assert forall|i: int| 0 <= i < head.len() implies (#[trigger] all[i]) == head[i] by {
        }
    }
}

/// The log and the marker of a launch lie in the directory of logs of the
/// project: just there, each under one name.
pub proof fn lemma_where_log_and_marker_lie(path: Seq<char>)
    ensures
        is_gate_path(path) <==> components(path).len() == 3 && components(path)[0]
            == Component::Normal(".pueue-agent"@) && components(path)[1] == Component::Normal(
            "logs"@,
        ) && components(path)[2] is Normal,
        is_gate_path(path) ==> Component::Normal(relative_names(path).last()) == components(path)[2],
{
    let all = components(path);
    let names = relative_names(path);
    lemma_which_relative_paths_are_safe(path);
    assert(names.len() == all.len());
    if is_gate_path(path) {
        assert(names.drop_last().len() == 2);
        assert(names.drop_last()[0] == names[0]);
        assert(names.drop_last()[1] == names[1]);
        assert(all[0] is Normal && all[1] is Normal && all[2] is Normal);
    }
    if all.len() == 3 && all[0] == Component::Normal(".pueue-agent"@) && all[1]
        == Component::Normal("logs"@) && all[2] is Normal {
        assert(names.drop_last() =~= gate_parent());
    }
}

/// What a failed step on the way to a log means: a link where one is there or
/// the way goes in circles, a directory where something else is in the way, and
/// no judgement otherwise.
pub proof fn lemma_what_a_failed_step_means(errno: OpenErrno, is_symlink: bool)
    ensures
        walk_defect(errno, is_symlink) == Some(LogUnsafeReason::Symlink) <==> errno is Loop || (
        is_symlink && (errno is NotDirectory || errno is IsDirectory)),
        walk_defect(errno, is_symlink) == Some(LogUnsafeReason::Directory) <==> !is_symlink && (
        errno is NotDirectory || errno is IsDirectory),
        walk_defect(errno, is_symlink) is None <==> errno is Missing || errno is Exists || errno
            is Other,
{
}

/// A marker counts exactly where its file is safe and it says `authorized`.
pub proof fn lemma_which_markers_count(
    identity: LogFileIdentity,
    uid: u32,
    contents: Seq<u8>,
)
    ensures
        marker_defect(identity, uid, contents) is None <==> identity.mode & 0o170000u32
            == 0o100000u32 && identity.owner == uid && identity.mode & 0o077u32 == 0 && contents
            == seq![97u8, 117, 116, 104, 111, 114, 105, 122, 101, 100, 10],
        file_defect(identity, uid) is None && contents != seq![
            97u8,
            117,
            116,
            104,
            111,
            114,
            105,
            122,
            101,
            100,
            10,
        ] ==> marker_defect(identity, uid, contents) == Some(LogUnsafeReason::InvalidContents),
{
}

/// A log that was kept is still good exactly where its directory is the same, it
/// is the same file, and that file is safe.
pub proof fn lemma_when_a_kept_log_is_good(
    parent_then: LogFileIdentity,
    parent_now: LogFileIdentity,
    log_then: LogFileIdentity,
    log_now: Option<LogFileIdentity>,
    uid: u32,
)
    ensures
        retained_defect(parent_then, parent_now, log_then, log_now, uid) is None <==> parent_now
            == parent_then && log_now == Some(log_then) && file_defect(log_then, uid) is None,
{
}

/// How a marker is published: its private file is checked, written and made
/// durable, then it gets its name, then the private name goes and the directory
/// is made durable; only then it counts.
pub proof fn lemma_how_a_marker_is_published(
    next: MarkerMove,
    run: MarkerRun,
    reply: MarkerReply,
    uid: u32,
)
    requires
        reply_fits(run, reply),
        is_marker_move(next, run, reply, uid),
    ensures
        run is Identify ==> (reply matches MarkerReply::Identity(identity) ==> (if identity.mode
            & 0o170000u32 == 0o100000u32 && identity.owner == uid && identity.mode & 0o077u32
            == 0 {
            next == MarkerMove::Next(MarkerRun::Write(identity))
        } else {
            next is CleanUp
        })),
        run matches MarkerRun::Write(identity) ==> (reply is Done ==> next == MarkerMove::Next(
            MarkerRun::Sync(identity),
        )),
        run matches MarkerRun::Sync(identity) ==> (reply is Done ==> next == MarkerMove::Next(
            MarkerRun::Publish(identity),
        )),
        run matches MarkerRun::Publish(identity) ==> (reply is Done ==> next == MarkerMove::Next(
            MarkerRun::Remove(identity),
        )),
        run matches MarkerRun::Remove(identity) ==> (reply is Done ==> next == MarkerMove::Next(
            MarkerRun::SyncDirectory { identity, removal: None },
        )),
        run matches MarkerRun::SyncDirectory { identity, removal } ==> (reply is Done
            && removal is None ==> next == MarkerMove::Finished(Ok(identity))),
        run matches MarkerRun::SyncDirectory { identity, removal } ==> (reply is Failed
            || removal is Some ==> (next matches MarkerMove::Finished(end) && end is Err)),
{
}

/// A check refuses exactly where there is a defect, and names it; errors of the
/// system keep their source.
pub proof fn lemma_defects_refuse(
    checked: Result<(), AppError>,
    defect: Option<LogUnsafeReason>,
    error: AppError,
    text: Seq<char>,
    own: std::io::Error,
)
    ensures
        refuses(checked, defect) ==> (checked is Ok <==> defect is None),
        refuses(checked, defect) && defect is Some ==> (checked matches Err(told) && (told matches
            AppError::PolicyViolation { violation } && violation == unsafe_log(defect->0))),
        is_io_error(error, text, own) ==> (error matches AppError::Io { operation, source }
            && operation@ == text && source == own),
        is_taken_error(error, text) ==> (error matches AppError::Io { operation, source }
            && operation@ == text && io_kind(source) == std::io::ErrorKind::AlreadyExists),
{
}

} // verus!
