//! Setting up a project: its configuration, and keeping its private directory
//! out of version control.

use vstd::prelude::*;
use vstd::string::*;
use vstd::utf8::encode_utf8;

use crate::error::{invalid, AppError};
use crate::fspath::{join_path, joined_path};
use crate::models::is_validation_error;
use crate::pueue::text_from_utf8;
use crate::text::{
    begins_with, chars_of, concat2, extend, has_char, matches_at, starts, string_of,
    trim, trimmed,
};
use crate::trust::{is_same_path, same_path};
use crate::wire::push_bytes;

verus! {

pub const MAX_GIT_FILE_BYTES: usize = 16384;

// ---------------------------------------------------------------------------
// Git metadata
// ---------------------------------------------------------------------------
/// What the file system says of something that belongs to a Git repository.
#[derive(Debug, Clone, Copy, PartialEq, Eq, Structural)]
pub struct GitFacts {
    pub is_file: bool,
    pub is_dir: bool,
    pub is_symlink: bool,
    pub owner: u32,
    pub mode: u32,
    pub links: u64,
}

/// What a look at a path gave; a link is not followed.
#[derive(Debug, Clone, Copy, PartialEq, Eq, Structural)]
pub enum Lookup {
    Missing,
    Failed,
    Found(GitFacts),
}

pub open spec fn is_runtime_error(error: AppError, text: Seq<char>) -> bool {
    error matches AppError::Runtime { operation } && operation@ == text
}

pub open spec fn is_metadata_error(error: AppError, text: Seq<char>) -> bool {
    is_validation_error(error, ("git.metadata"@, text))
}

/// What stands for the repository in a project.
#[derive(Debug, Clone, Copy, PartialEq, Eq, Structural)]
pub enum DotGit {
    /// The project is under no version control.
    Absent,
    Directory,
    /// A file that points to a directory elsewhere.
    Pointer,
}

/// Judges what stands for the repository.
pub fn classify_dot_git(found: Lookup) -> (kind: Result<DotGit, AppError>)
    ensures
        match found {
            Lookup::Missing => kind == Ok::<DotGit, AppError>(DotGit::Absent),
            Lookup::Failed => kind matches Err(error) && is_runtime_error(
                error,
                "inspect Git metadata for initialization"@,
            ),
            Lookup::Found(facts) => if facts.is_symlink {
                kind matches Err(error) && is_metadata_error(
                    error,
                    "local Git metadata must not be a symlink"@,
                )
            } else if facts.is_dir {
                kind == Ok::<DotGit, AppError>(DotGit::Directory)
            } else if facts.is_file {
                kind == Ok::<DotGit, AppError>(DotGit::Pointer)
            } else {
                kind matches Err(error) && is_metadata_error(
                    error,
                    "local Git metadata must be a directory or worktree file"@,
                )
            },
        },
{
    match found {
        Lookup::Missing => Ok(DotGit::Absent),
        Lookup::Failed => Err(
            AppError::Runtime { operation: "inspect Git metadata for initialization" },
        ),
        Lookup::Found(facts) => if facts.is_symlink {
            Err(invalid("git.metadata", "local Git metadata must not be a symlink"))
        } else if facts.is_dir {
            Ok(DotGit::Directory)
        } else if facts.is_file {
            Ok(DotGit::Pointer)
        } else {
            Err(
                invalid("git.metadata", "local Git metadata must be a directory or worktree file"),
            )
        },
    }
}

/// Judges the file that names the directory shared by working trees; without
/// one the repository has it all.
pub fn has_common_directory(found: Lookup) -> (yes: Result<bool, AppError>)
    ensures
        match found {
            Lookup::Missing => yes == Ok::<bool, AppError>(false),
            Lookup::Failed => yes matches Err(error) && is_runtime_error(
                error,
                "inspect Git common directory"@,
            ),
            Lookup::Found(facts) => if facts.is_symlink || !facts.is_file {
                yes matches Err(error) && is_metadata_error(
                    error,
                    "Git common-directory file must be a regular file"@,
                )
            } else {
                yes == Ok::<bool, AppError>(true)
            },
        },
{
    match found {
        Lookup::Missing => Ok(false),
        Lookup::Failed => Err(AppError::Runtime { operation: "inspect Git common directory" }),
        Lookup::Found(facts) => if facts.is_symlink || !facts.is_file {
            Err(invalid("git.metadata", "Git common-directory file must be a regular file"))
        } else {
            Ok(true)
        },
    }
}

/// Judges the file that points to a directory elsewhere.
pub fn check_pointer_file(found: Lookup) -> (checked: Result<(), AppError>)
    ensures
        match found {
            Lookup::Found(facts) => if !facts.is_file || facts.is_symlink {
                checked matches Err(error) && is_metadata_error(
                    error,
                    "Git metadata pointer must be a regular file"@,
                )
            } else {
                checked is Ok
            },
            _ => checked matches Err(error) && is_runtime_error(
                error,
                "read Git metadata pointer"@,
            ),
        },
{
    match found {
        Lookup::Found(facts) => if !facts.is_file || facts.is_symlink {
            Err(invalid("git.metadata", "Git metadata pointer must be a regular file"))
        } else {
            Ok(())
        },
        _ => Err(AppError::Runtime { operation: "read Git metadata pointer" }),
    }
}

/// Judges a file of the repository before it is opened.
pub fn check_metadata_file(found: Lookup) -> (checked: Result<(), AppError>)
    ensures
        match found {
            Lookup::Found(facts) => if !facts.is_file || facts.is_symlink {
                checked matches Err(error) && is_metadata_error(
                    error,
                    "Git metadata file must be a regular file"@,
                )
            } else {
                checked is Ok
            },
            _ => checked matches Err(error) && is_runtime_error(
                error,
                "inspect Git metadata file"@,
            ),
        },
{
    match found {
        Lookup::Found(facts) => if !facts.is_file || facts.is_symlink {
            Err(invalid("git.metadata", "Git metadata file must be a regular file"))
        } else {
            Ok(())
        },
        _ => Err(AppError::Runtime { operation: "inspect Git metadata file" }),
    }
}

/// A directory that nobody else can change.
pub open spec fn is_own_directory(facts: GitFacts, uid: u32) -> bool {
    facts.is_dir && facts.owner == uid && facts.mode & 0o022u32 == 0
}

/// Judges a directory of the repository.
pub fn ensure_secure_git_directory(found: Lookup, uid: u32) -> (checked: Result<(), AppError>)
    ensures
        match found {
            Lookup::Found(facts) => if is_own_directory(facts, uid) {
                checked is Ok
            } else {
                checked matches Err(error) && is_metadata_error(
                    error,
                    "Git directory must be an owned non-writable directory"@,
                )
            },
            _ => checked matches Err(error) && is_runtime_error(error, "inspect Git directory"@),
        },
{
    match found {
        Lookup::Found(facts) => if !facts.is_dir || facts.owner != uid || facts.mode & 0o022u32
            != 0 {
            Err(
                invalid("git.metadata", "Git directory must be an owned non-writable directory"),
            )
        } else {
            Ok(())
        },
        _ => Err(AppError::Runtime { operation: "inspect Git directory" }),
    }
}

/// A file that nobody else can change, under one name only.
pub open spec fn is_own_file(facts: GitFacts, uid: u32) -> bool {
    facts.is_file && facts.owner == uid && facts.links == 1 && facts.mode & 0o022u32 == 0
}

/// Judges a file of the repository that was opened.
pub fn ensure_secure_git_file(found: Option<GitFacts>, uid: u32) -> (checked: Result<(), AppError>)
    ensures
        match found {
            Some(facts) => if is_own_file(facts, uid) {
                checked is Ok
            } else {
                checked matches Err(error) && is_metadata_error(
                    error,
                    "Git metadata file must be owned and non-writable"@,
                )
            },
            None => checked matches Err(error) && is_runtime_error(
                error,
                "inspect Git metadata file"@,
            ),
        },
{
    match found {
        Some(facts) => if !facts.is_file || facts.owner != uid || facts.links != 1 || facts.mode
            & 0o022u32 != 0 {
            Err(invalid("git.metadata", "Git metadata file must be owned and non-writable"))
        } else {
            Ok(())
        },
        None => Err(AppError::Runtime { operation: "inspect Git metadata file" }),
    }
}

/// What is done about the directory that holds the list of excluded files.
#[derive(Debug, Clone, Copy, PartialEq, Eq, Structural)]
pub enum InfoStep {
    Create,
    Use,
}

/// Judges the directory that holds the list of excluded files.
pub fn ensure_git_info_directory(found: Lookup) -> (step: Result<InfoStep, AppError>)
    ensures
        match found {
            Lookup::Missing => step == Ok::<InfoStep, AppError>(InfoStep::Create),
            Lookup::Failed => step matches Err(error) && is_runtime_error(
                error,
                "inspect Git info directory"@,
            ),
            Lookup::Found(facts) => if facts.is_symlink {
                step matches Err(error) && is_metadata_error(
                    error,
                    "Git info directory must not be a symlink"@,
                )
            } else if facts.is_dir {
                step == Ok::<InfoStep, AppError>(InfoStep::Use)
            } else {
                step matches Err(error) && is_metadata_error(
                    error,
                    "Git info path must be a directory"@,
                )
            },
        },
{
    match found {
        Lookup::Missing => Ok(InfoStep::Create),
        Lookup::Failed => Err(AppError::Runtime { operation: "inspect Git info directory" }),
        Lookup::Found(facts) => if facts.is_symlink {
            Err(invalid("git.metadata", "Git info directory must not be a symlink"))
        } else if facts.is_dir {
            Ok(InfoStep::Use)
        } else {
            Err(invalid("git.metadata", "Git info path must be a directory"))
        },
    }
}

/// Judges one more component of a path: whether to go on to the next.
pub fn check_path_component(found: Lookup) -> (go_on: Result<bool, AppError>)
    ensures
        match found {
            Lookup::Missing => go_on == Ok::<bool, AppError>(false),
            Lookup::Failed => go_on matches Err(error) && is_runtime_error(
                error,
                "inspect Git metadata path"@,
            ),
            Lookup::Found(facts) => if facts.is_symlink {
                go_on matches Err(error) && is_metadata_error(
                    error,
                    "Git metadata path must not contain a symlink"@,
                )
            } else {
                go_on == Ok::<bool, AppError>(true)
            },
        },
{
    match found {
        Lookup::Missing => Ok(false),
        Lookup::Failed => Err(AppError::Runtime { operation: "inspect Git metadata path" }),
        Lookup::Found(facts) => if facts.is_symlink {
            Err(invalid("git.metadata", "Git metadata path must not contain a symlink"))
        } else {
            Ok(true)
        },
    }
}

/// A part of a repository that has to be there.
#[derive(Debug, Clone, PartialEq, Eq)]
pub enum RequiredPart {
    File(String),
    Directory(String),
}

pub open spec fn is_required_file(part: RequiredPart, path: Seq<char>) -> bool {
    part matches RequiredPart::File(own) && own@ == path
}

pub open spec fn is_required_directory(part: RequiredPart, path: Seq<char>) -> bool {
    part matches RequiredPart::Directory(own) && own@ == path
}

/// The parts that make a directory a repository, in the order in which they are
/// looked at: those that working trees share, then those of the working tree.
pub fn required_parts(admin: &str, common: &str) -> (parts: Vec<RequiredPart>)
    ensures
        parts@.len() == (if is_same_path(admin@, common@) {
            4int
        } else {
            6int
        }),
        is_required_file(parts@[0], joined_path(common@, "HEAD"@)),
        is_required_file(parts@[1], joined_path(common@, "config"@)),
        is_required_directory(parts@[2], joined_path(common@, "objects"@)),
        is_required_directory(parts@[3], joined_path(common@, "refs"@)),
        !is_same_path(admin@, common@) ==> is_required_file(parts@[4], joined_path(admin@, "HEAD"@))
            && is_required_file(parts@[5], joined_path(admin@, "gitdir"@)),
{
    let mut parts: Vec<RequiredPart> = Vec::new();
    parts.push(RequiredPart::File(join_path(common, "HEAD")));
    parts.push(RequiredPart::File(join_path(common, "config")));
    parts.push(RequiredPart::Directory(join_path(common, "objects")));
    parts.push(RequiredPart::Directory(join_path(common, "refs")));
    if !same_path(admin, common) {
        parts.push(RequiredPart::File(join_path(admin, "HEAD")));
        parts.push(RequiredPart::File(join_path(admin, "gitdir")));
    }
    parts
}

// ---------------------------------------------------------------------------
// Pointers
// ---------------------------------------------------------------------------
/// A text without the end of its line.
pub open spec fn without_newline(text: Seq<char>) -> Seq<char> {
    if text.len() > 0 && text.last() == '\n' {
        text.drop_last()
    } else {
        text
    }
}

pub open spec fn is_one_line(text: Seq<char>) -> bool {
    !text.contains('\r') && !text.contains('\n') && !text.contains('\0')
}

/// The directory that a pointer names.
pub open spec fn pointer_value(line: Seq<char>, prefix: Seq<char>) -> Option<Seq<char>> {
    if begins_with(line, prefix) && trimmed(line.skip(prefix.len() as int)).len() > 0 {
        Some(trimmed(line.skip(prefix.len() as int)))
    } else {
        None
    }
}

/// What is wrong with the text of a pointer, or where it leads from a directory.
pub open spec fn pointer_target(text: Seq<char>, base: Seq<char>, prefix: Seq<char>) -> Result<
    Seq<char>,
    Seq<char>,
> {
    let line = without_newline(text);
    if !is_one_line(line) {
        Err("Git metadata pointer must contain one line"@)
    } else {
        match pointer_value(line, prefix) {
            Some(value) => Ok(joined_path(base, value)),
            None => Err("Git metadata pointer must identify a Git directory"@),
        }
    }
}

/// Reads where the text of a pointer leads.
pub fn read_pointer_text(text: &str, base: &str, prefix: &str) -> (target: Result<String, AppError>)
    ensures
        match (target, pointer_target(text@, base@, prefix@)) {
            (Ok(path), Ok(wanted)) => path@ == wanted,
            (Err(error), Err(reason)) => is_metadata_error(error, reason),
            _ => false,
        },
{
    let mut line = chars_of(text);
    let count = line.len();
    if count > 0 && line[count - 1] == '\n' {
        line.truncate(count - 1);
    }
    proof {
        assert(line@ =~= without_newline(text@));
    }
    let l = line.as_slice();
    if has_char(l, '\r') || has_char(l, '\n') || has_char(l, '\0') {
        return Err(invalid("git.metadata", "Git metadata pointer must contain one line"));
    }
    if starts(l, prefix) {
        let prefix_chars = chars_of(prefix);
        let ghost before = line@;
        let rest = line.split_off(prefix_chars.len());
        proof {
            assert(rest@ =~= before.skip(prefix@.len() as int));
        }
        let value = trim(rest.as_slice());
        if value.len() > 0 {
            let name = string_of(value.as_slice());
            return Ok(join_path(base, name.as_str()));
        }
    }
    Err(invalid("git.metadata", "Git metadata pointer must identify a Git directory"))
}

/// Reads where a pointer leads.
pub fn resolve_git_pointer(bytes: &[u8], base: &str, prefix: &str) -> (target: Result<String, AppError>)
    ensures
        if bytes@.len() > MAX_GIT_FILE_BYTES {
            target matches Err(error) && is_metadata_error(
                error,
                "Git metadata pointer exceeds the bounded size"@,
            )
        } else if forall|s: Seq<char>| #[trigger] encode_utf8(s) != bytes@ {
            target matches Err(error) && is_metadata_error(
                error,
                "Git metadata pointer must be valid UTF-8"@,
            )
        } else {
            exists|s: Seq<char>| #[trigger]
                encode_utf8(s) == bytes@ && match (target, pointer_target(s, base@, prefix@)) {
                    (Ok(path), Ok(wanted)) => path@ == wanted,
                    (Err(error), Err(reason)) => is_metadata_error(error, reason),
                    _ => false,
                }
        },
{
    if bytes.len() > MAX_GIT_FILE_BYTES {
        return Err(invalid("git.metadata", "Git metadata pointer exceeds the bounded size"));
    }
    match text_from_utf8(bytes) {
        Some(text) => read_pointer_text(text.as_str(), base, prefix),
        None => Err(invalid("git.metadata", "Git metadata pointer must be valid UTF-8")),
    }
}

// ---------------------------------------------------------------------------
// The list of excluded files
// ---------------------------------------------------------------------------
/// `/.pueue-agent/`.
pub open spec fn exclude_rule() -> Seq<u8> {
    seq![47u8, 46, 112, 117, 101, 117, 101, 45, 97, 103, 101, 110, 116, 47]
}

fn exclude_rule_bytes() -> (bytes: Vec<u8>)
    ensures
        bytes@ == exclude_rule(),
{
    let bytes: Vec<u8> = vec![47, 46, 112, 117, 101, 117, 101, 45, 97, 103, 101, 110, 116, 47];
    proof {
        assert(bytes@ =~= exclude_rule());
    }
    bytes
}

/// The bytes from one place to another are a whole line.
pub open spec fn is_line(bytes: Seq<u8>, start: int, end: int) -> bool {
    &&& 0 <= start <= end <= bytes.len()
    &&& start == 0 || bytes[start - 1] == 10
    &&& end == bytes.len() || bytes[end] == 10
}

/// A line that says that the private directory is excluded.
pub open spec fn excludes_at(bytes: Seq<u8>, start: int) -> bool {
    let end = start + exclude_rule().len();
    &&& 0 <= start
    &&& end <= bytes.len()
    &&& bytes.subrange(start, end) == exclude_rule()
    &&& is_line(bytes, start, end) || (end < bytes.len() && bytes[end] == 13 && is_line(
        bytes,
        start,
        end + 1,
    ))
}

/// The private directory is excluded.
pub open spec fn excludes(bytes: Seq<u8>) -> bool {
    exists|start: int| #[trigger] excludes_at(bytes, start)
}

/// What is missing from a list of excluded files.
pub open spec fn exclude_addition(bytes: Seq<u8>) -> Seq<u8> {
    if excludes(bytes) {
        Seq::empty()
    } else if bytes.len() > 0 && bytes.last() != 10 {
        seq![10u8] + exclude_rule() + seq![10u8]
    } else {
        exclude_rule() + seq![10u8]
    }
}

fn rule_stands_at(bytes: &[u8], rule: &Vec<u8>, start: usize) -> (yes: bool)
    requires
        rule@ == exclude_rule(),
        start <= bytes@.len(),
    ensures
        yes == (start + rule@.len() <= bytes@.len() && bytes@.subrange(
            start as int,
            start + rule@.len(),
        ) == rule@),
{
    if bytes.len() - start < rule.len() {
        return false;
    }
    let mut at: usize = 0;
    while at < rule.len()
        invariant
            at <= rule@.len(),
            bytes.len() == bytes@.len(),
            start + rule@.len() <= bytes@.len(),
            forall|i: int| 0 <= i < at ==> bytes@[start + i] == #[trigger] rule@[i],
        decreases rule.len() - at,
    {
        if bytes[start + at] != rule[at] {
            proof {
                assert(bytes@.subrange(start as int, start + rule@.len())[at as int]
                    != rule@[at as int]);
            }
            return false;
        }
        at = at + 1;
    }
    proof {
        assert(bytes@.subrange(start as int, start + rule@.len()) =~= rule@);
    }
    true
}

fn has_exclude(bytes: &[u8]) -> (yes: bool)
    ensures
        yes == excludes(bytes@),
{
    let rule = exclude_rule_bytes();
    let mut start: usize = 0;
    while start < bytes.len()
        invariant
            start <= bytes@.len(),
            bytes.len() == bytes@.len(),
            rule@ == exclude_rule(),
            forall|s: int| 0 <= s < start ==> !#[trigger] excludes_at(bytes@, s),
        decreases bytes.len() - start,
    {
        if (start == 0 || bytes[start - 1] == 10) && rule_stands_at(bytes, &rule, start) {
            let end = start + rule.len();
            let whole = end == bytes.len() || bytes[end] == 10 || (bytes[end] == 13 && (end + 1
                == bytes.len() || bytes[end + 1] == 10));
            proof {
                if whole {
                    assert(excludes_at(bytes@, start as int));
                }
            }
            if whole {
                return true;
            }
        }
        start = start + 1;
    }
    proof {
        assert forall|s: int| !#[trigger] excludes_at(bytes@, s) by {
            if excludes_at(bytes@, s) {
                assert(exclude_rule().len() == 14);
            }
        }
    }
    false
}

/// Says what has to be added to the list of excluded files; nothing where the
/// private directory is excluded already.
pub fn append_git_exclude(bytes: &[u8]) -> (addition: Result<Vec<u8>, AppError>)
    ensures
        match addition {
            Ok(more) => bytes@.len() <= MAX_GIT_FILE_BYTES && more@ == exclude_addition(bytes@),
            Err(error) => bytes@.len() > MAX_GIT_FILE_BYTES && is_validation_error(
                error,
                ("git.exclude"@, "Git exclude file exceeds the bounded size"@),
            ),
        },
{
    if bytes.len() > MAX_GIT_FILE_BYTES {
        return Err(invalid("git.exclude", "Git exclude file exceeds the bounded size"));
    }
    let mut more: Vec<u8> = Vec::new();
    if has_exclude(bytes) {
        return Ok(more);
    }
    if bytes.len() > 0 && bytes[bytes.len() - 1] != 10 {
        more.push(10);
    }
    let rule = exclude_rule_bytes();
    push_bytes(&mut more, rule.as_slice());
    more.push(10);
    proof {
        assert(more@ =~= exclude_addition(bytes@));
    }
    Ok(more)
}

/// After what is missing was added, the private directory is excluded, and
/// nothing is missing any more.
pub proof fn lemma_exclude_is_added_once(bytes: Seq<u8>)
    ensures
        excludes(bytes + exclude_addition(bytes)),
        exclude_addition(bytes + exclude_addition(bytes)) == Seq::<u8>::empty(),
{
    let all = bytes + exclude_addition(bytes);
    if excludes(bytes) {
        assert(all =~= bytes);
    } else {
        let start = if bytes.len() > 0 && bytes.last() != 10 {
            bytes.len() as int + 1
        } else {
            bytes.len() as int
        };
        let end = start + exclude_rule().len();
        assert(all.subrange(start, end) =~= exclude_rule());
        assert(all[end] == 10);
        if start > 0 {
            assert(all[start - 1] == 10);
        }
        assert(excludes_at(all, start));
    }
}

// ---------------------------------------------------------------------------
// The configuration
// ---------------------------------------------------------------------------
/// A text in which every occurrence of a part is replaced, from the left.
pub open spec fn replaced(text: Seq<char>, part: Seq<char>, by: Seq<char>) -> Seq<char>
    decreases text.len(),
{
    if part.len() == 0 || text.len() == 0 {
        text
    } else if begins_with(text, part) {
        by + replaced(text.skip(part.len() as int), part, by)
    } else {
        seq![text[0]] + replaced(text.drop_first(), part, by)
    }
}

fn replace(text: &[char], part: &str, by: &str) -> (result: Vec<char>)
    requires
        part@.len() > 0,
    ensures
        result@ == replaced(text@, part@, by@),
{
    let pattern = chars_of(part);
    let filling = chars_of(by);
    let mut result: Vec<char> = Vec::new();
    let mut at: usize = 0;
    proof {
        assert(text@.skip(0) =~= text@);
        assert(result@ + replaced(text@, part@, by@) =~= replaced(text@, part@, by@));
    }
    while at < text.len()
        invariant
            at <= text@.len(),
            text.len() == text@.len(),
            pattern@ == part@,
            part@.len() > 0,
            filling@ == by@,
            result@ + replaced(text@.skip(at as int), part@, by@) == replaced(text@, part@, by@),
        decreases text.len() - at,
    {
        let ghost before = result@;
        let ghost rest = text@.skip(at as int);
        if matches_at(text, pattern.as_slice(), at) {
            proof {
                assert(rest.subrange(0, part@.len() as int) =~= text@.subrange(
                    at as int,
                    at + part@.len(),
                ));
                assert(begins_with(rest, part@));
                assert(rest.skip(part@.len() as int) =~= text@.skip(at + part@.len()));
            }
            extend(&mut result, filling.as_slice());
            at = at + pattern.len();
            proof {
                let tail = replaced(text@.skip(at as int), part@, by@);
                assert(result@ + tail =~= before + (by@ + tail));
            }
        } else {
            proof {
                if begins_with(rest, part@) {
                    assert(rest.subrange(0, part@.len() as int) =~= text@.subrange(
                        at as int,
                        at + part@.len(),
                    ));
                }
                assert(rest.drop_first() =~= text@.skip(at + 1));
                assert(rest[0] == text@[at as int]);
            }
            result.push(text[at]);
            at = at + 1;
            proof {
                let tail = replaced(text@.skip(at as int), part@, by@);
                assert(result@ + tail =~= before + (seq![text@[at - 1]] + tail));
            }
        }
    }
    proof {
        assert(text@.skip(text@.len() as int) =~= Seq::<char>::empty());
        assert(result@ + Seq::<char>::empty() =~= result@);
    }
    result
}

/// The configuration of a new project.
pub open spec fn filled_config(template: Seq<char>, project_id: Seq<char>, group: Seq<char>) -> Seq<
    char,
> {
    replaced(
        replaced(template, "{{PROJECT_ID}}"@, project_id),
        "{{PUEUE_GROUP}}"@,
        group,
    )
}

/// Fills in the configuration of a new project.
pub fn fill_config(template: &str, project_id: &str, pueue_group: &str) -> (config: String)
    ensures
        config@ == filled_config(template@, project_id@, pueue_group@),
{
    proof {
        reveal_strlit("{{PROJECT_ID}}");
        reveal_strlit("{{PUEUE_GROUP}}");
    }
    let chars = chars_of(template);
    let named = replace(chars.as_slice(), "{{PROJECT_ID}}", project_id);
    let grouped = replace(named.as_slice(), "{{PUEUE_GROUP}}", pueue_group);
    string_of(grouped.as_slice())
}

/// The error for a project that has a configuration.
pub fn already_initialized(config_path: &str) -> (error: AppError)
    ensures
        error matches AppError::Message { message } && message@
            == "project is already initialized: "@ + config_path@,
{
    let text = concat2("project is already initialized: ", config_path);
    AppError::Message { message: string_of(text.as_slice()) }
}

/// What lies in a repository is trusted exactly where it belongs to the user and
/// nobody else can write it; a file also has to have one name alone.
pub proof fn lemma_trusted_git_files(facts: GitFacts, uid: u32)
    ensures
        is_own_directory(facts, uid) <==> facts.is_dir && facts.owner == uid && facts.mode
            & 0o020u32 == 0 && facts.mode & 0o002u32 == 0,
        is_own_file(facts, uid) <==> facts.is_file && facts.owner == uid && facts.links == 1
            && facts.mode & 0o020u32 == 0 && facts.mode & 0o002u32 == 0,
{
    let mode = facts.mode;
    assert((mode & 0o022u32 == 0) <==> (mode & 0o020u32 == 0 && mode & 0o002u32 == 0))
        by (bit_vector);
}

/// A pointer to a repository is one line behind its prefix, with or without an
/// end of line; it is read from its own directory.
pub proof fn lemma_pointers_are_read(
    prefix: Seq<char>,
    value: Seq<char>,
    base: Seq<char>,
)
    requires
        !prefix.contains('\r') && !prefix.contains('\n') && !prefix.contains('\0'),
        !value.contains('\r') && !value.contains('\n') && !value.contains('\0'),
    ensures
        ({
            let target = if trimmed(value).len() > 0 {
                Ok::<Seq<char>, Seq<char>>(joined_path(base, trimmed(value)))
            } else {
                Err::<Seq<char>, Seq<char>>("Git metadata pointer must identify a Git directory"@)
            };
            &&& pointer_target(prefix + value, base, prefix) == target
            &&& pointer_target(prefix + value + seq!['\n'], base, prefix) == target
        }),
{
    let line = prefix + value;
    assert forall|i: int| 0 <= i < line.len() implies line[i] != '\r' && line[i] != '\n' && line[i]
        != '\0' by {
        if i < prefix.len() {
            assert(line[i] == prefix[i]);
            assert(prefix.contains(prefix[i]));
        } else {
            assert(line[i] == value[i - prefix.len()]);
            assert(value.contains(value[i - prefix.len()]));
        }
    }
    assert(is_one_line(line));
    assert(without_newline(line) == line);
    assert((line + seq!['\n']).drop_last() =~= line);
    assert(line.skip(prefix.len() as int) =~= value);
    assert(line.subrange(0, prefix.len() as int) =~= prefix);
    assert(begins_with(line, prefix));
}

/// Text without a placeholder stays as it is, and each placeholder is filled
/// where it stands.
pub proof fn lemma_placeholders_are_filled(
    before: Seq<char>,
    part: Seq<char>,
    by: Seq<char>,
    rest: Seq<char>,
)
    requires
        part.len() > 0,
        forall|i: int|
            0 <= i < before.len() ==> !begins_with(
                #[trigger] (before + part + rest).skip(i),
                part,
            ),
    ensures
        replaced(before + part + rest, part, by) == before + by + replaced(rest, part, by),
        replaced(Seq::empty(), part, by) == Seq::<char>::empty(),
    decreases before.len(),
{
    let text = before + part + rest;
    if before.len() == 0 {
        assert(text =~= part + rest);
        assert(text.subrange(0, part.len() as int) =~= part);
        assert(text.skip(part.len() as int) =~= rest);
        assert(before + by + replaced(rest, part, by) =~= by + replaced(rest, part, by));
    } else {
        let tail = before.drop_first();
        assert(text.skip(0) =~= text);
        assert(!begins_with(text, part));
        assert(text.drop_first() =~= tail + part + rest);
        assert forall|i: int| 0 <= i < tail.len() implies !begins_with(
            #[trigger] (tail + part + rest).skip(i),
            part,
        ) by {
            assert((tail + part + rest).skip(i) =~= text.skip(i + 1));
        }
        lemma_placeholders_are_filled(tail, part, by, rest);
        assert(seq![before[0]] + (tail + by + replaced(rest, part, by)) =~= before + by + replaced(
            rest,
            part,
            by,
        ));
    }
}

/// The rule that keeps the supervisor's own directory out of version control is
/// added as a line of its own, and only where it is missing.
pub proof fn lemma_rule_is_a_line_of_its_own(bytes: Seq<u8>)
    ensures
        excludes(bytes) <==> exclude_addition(bytes).len() == 0,
        !excludes(bytes) ==> exclude_addition(bytes).last() == 10u8,
        !excludes(bytes) && bytes.len() > 0 && bytes.last() != 10u8 ==> exclude_addition(bytes)[0]
            == 10u8,
        !excludes(bytes) && (bytes.len() == 0 || bytes.last() == 10u8) ==> exclude_addition(bytes)
            == seq![47u8, 46, 112, 117, 101, 117, 101, 45, 97, 103, 101, 110, 116, 47, 10],
{
    assert(exclude_rule() + seq![10u8] =~= seq![
        47u8,
        46,
        112,
        117,
        101,
        117,
        101,
        45,
        97,
        103,
        101,
        110,
        116,
        47,
        10,
    ]);
}

/// The rule counts as there exactly where it is a whole line, whichever way the
/// line ends.
pub proof fn lemma_when_the_rule_is_there(before: Seq<u8>, after: Seq<u8>)
    requires
        before.len() == 0 || before.last() == 10u8,
    ensures
        ({
            let rule = seq![47u8, 46, 112, 117, 101, 117, 101, 45, 97, 103, 101, 110, 116, 47];
            &&& excludes(before + rule)
            &&& excludes(before + rule + seq![10u8] + after)
            &&& excludes(before + rule + seq![13u8, 10u8] + after)
            &&& after.len() > 0 && after[0] != 10u8 && after[0] != 13u8 ==> !excludes_at(
                before + rule + after,
                before.len() as int,
            )
        }),
{
    let rule = exclude_rule();
    let n = before.len() as int;
    let a = before + rule;
    let b = before + rule + seq![10u8] + after;
    let c = before + rule + seq![13u8, 10u8] + after;
    assert(a.subrange(n, n + rule.len()) =~= rule);
    assert(b.subrange(n, n + rule.len()) =~= rule);
    assert(c.subrange(n, n + rule.len()) =~= rule);
    if n > 0 {
        assert(a[n - 1] == before.last());
        assert(b[n - 1] == before.last());
        assert(c[n - 1] == before.last());
    }
    assert(b[n + rule.len()] == 10u8);
    assert(c[n + rule.len()] == 13u8);
    assert(c[n + rule.len() + 1] == 10u8);
    assert(excludes_at(a, n));
    assert(excludes_at(b, n));
    assert(excludes_at(c, n));
    let d = before + rule + after;
    if after.len() > 0 {
        assert(d[n + rule.len()] == after[0]);
    }
}

/// A configuration gets the name of the project first and that of its group then.
pub proof fn lemma_configuration_is_filled(
    template: Seq<char>,
    project_id: Seq<char>,
    group: Seq<char>,
)
    ensures
        filled_config(template, project_id, group) == replaced(
            replaced(template, "{{PROJECT_ID}}"@, project_id),
            "{{PUEUE_GROUP}}"@,
            group,
        ),
{
}

/// What a repository has to have is a file or a directory at its place; what is
/// wrong with one is told as an error of the metadata.
pub proof fn lemma_parts_and_errors(part: RequiredPart, path: Seq<char>, error: AppError, text: Seq<char>)
    ensures
        is_required_file(part, path) <==> (part matches RequiredPart::File(own) && own@ == path),
        is_required_directory(part, path) <==> (part matches RequiredPart::Directory(own) && own@
            == path),
        is_metadata_error(error, text) ==> (error matches AppError::Validation { field, message }
            && field@ == "git.metadata"@ && message@ == text),
        is_runtime_error(error, text) ==> (error matches AppError::Runtime { operation }
            && operation@ == text),
{
}

/// A pointer of more than one line is refused, and so is one without its prefix.
pub proof fn lemma_which_pointers_are_refused(
    text: Seq<char>,
    base: Seq<char>,
    prefix: Seq<char>,
    i: int,
)
    ensures
        0 <= i < text.len() - 1 && (text[i] == '\n' || text[i] == '\r' || text[i] == '\0')
            ==> pointer_target(text, base, prefix) is Err,
        !begins_with(text, prefix) && text.len() > 0 && text.last() != '\n' ==> pointer_target(
            text,
            base,
            prefix,
        ) is Err,
{
    let line = without_newline(text);
    if 0 <= i < text.len() - 1 {
        assert(line[i] == text[i]);
        assert(line.contains(line[i]));
    }
}

} // verus!
