//! The root of a project, and the group of the task queue that it gets.

use vstd::prelude::*;
use vstd::string::*;

use crate::digest::{fresh_uuid, is_hex_char, is_uuid_text};
use crate::error::AppError;
use crate::fspath::{components, is_absolute, part_views, split, Component, PathPart};
use crate::pueue_security::{is_group, is_group_char};
use crate::text::{
    alphanumeric, append_text, chars_of, extend, is_alphanumeric, lower, lowered, string_of,
    to_lower, to_lowered,
};

verus! {

pub const GROUP_SUFFIX_LENGTH: usize = 6;

// ---------------------------------------------------------------------------
// The root
// ---------------------------------------------------------------------------
/// The end of the parent of a path; zero for a path without one.
pub open spec fn parent_end(path: Seq<char>) -> int
    decreases path.len(),
{
    if path.len() == 0 {
        0
    } else if path.last() == '/' {
        path.len() - 1
    } else {
        parent_end(path.drop_last())
    }
}

/// The parent of an absolute path that has neither dots nor a slash too many.
pub open spec fn parent_of(path: Seq<char>) -> Option<Seq<char>> {
    if path == "/"@ {
        None
    } else if parent_end(path) == 0 {
        Some("/"@)
    } else {
        Some(path.take(parent_end(path)))
    }
}

/// The paths lead from a directory up to the root, step by step.
pub open spec fn is_way_up(paths: Seq<String>, start: Seq<char>) -> bool {
    &&& paths.len() > 0
    &&& paths[0]@ == start
    &&& parent_of(paths.last()@) is None
    &&& forall|i: int|
        0 <= i < paths.len() - 1 ==> parent_of((#[trigger] paths[i])@) == Some(paths[i + 1]@)
}

proof fn lemma_parent_end(path: Seq<char>)
    ensures
        0 <= parent_end(path) <= path.len(),
        path.len() > 0 ==> parent_end(path) < path.len(),
    decreases path.len(),
{
    if path.len() > 0 && path.last() != '/' {
        lemma_parent_end(path.drop_last());
    }
}

fn find_parent_end(path: &[char]) -> (end: usize)
    ensures
        end == parent_end(path@),
        end <= path@.len(),
{
    let mut end: usize = path.len();
    proof {
        assert(path@.take(path@.len() as int) =~= path@);
    }
    while end > 0
        invariant
            end <= path@.len(),
            path.len() == path@.len(),
            parent_end(path@) == parent_end(path@.take(end as int)),
        decreases end,
    {
        proof {
            assert(path@.take(end as int).last() == path@[end - 1]);
            assert(path@.take(end as int).drop_last() =~= path@.take(end - 1));
        }
        if path[end - 1] == '/' {
            return end - 1;
        }
        end = end - 1;
    }
    0
}

fn is_slash(path: &[char]) -> (yes: bool)
    ensures
        yes == (path@ == "/"@),
{
    proof {
        reveal_strlit("/");
        if path@.len() == 1 && path@[0] == '/' {
            assert(path@ =~= "/"@);
        }
    }
    path.len() == 1 && path[0] == '/'
}

/// The directories that may be the root of a project, from a directory up.
pub fn root_candidates(start: &str) -> (paths: Vec<String>)
    requires
        is_absolute(start@),
    ensures
        is_way_up(paths@, start@),
{
    let mut current = chars_of(start);
    let mut paths: Vec<String> = Vec::new();
    paths.push(start.to_owned());
    while !is_slash(current.as_slice())
        invariant
            paths@.len() > 0,
            paths@[0]@ == start@,
            paths@.last()@ == current@,
            current@.len() > 0,
            forall|i: int|
                0 <= i < paths@.len() - 1 ==> parent_of((#[trigger] paths@[i])@) == Some(
                    paths@[i + 1]@,
                ),
        decreases current.len(), (if current@ == "/"@ {
            0int
        } else {
            1int
        }),
    {
        let end = find_parent_end(current.as_slice());
        let ghost before = current@;
        let ghost prior = paths@;
        proof {
            lemma_parent_end(current@);
            reveal_strlit("/");
        }
        if end == 0 {
            current = chars_of("/");
        } else {
            current.truncate(end);
            proof {
                assert(current@ =~= before.take(end as int));
            }
        }
        paths.push(string_of(current.as_slice()));
        proof {
            assert forall|i: int| 0 <= i < paths@.len() - 1 implies parent_of(
                (#[trigger] paths@[i])@,
            ) == Some(paths@[i + 1]@) by {
                if i < prior.len() - 1 {
                    assert(paths@[i] == prior[i] && paths@[i + 1] == prior[i + 1]);
                } else {
                    assert(paths@[i] == prior.last());
                }
            }
        }
    }
    paths
}

/// The nearest of the directories that holds the configuration of a project.
pub fn find_root(candidates: &Vec<String>, has_config: &Vec<bool>) -> (root: Result<String, AppError>)
    requires
        has_config@.len() == candidates@.len(),
    ensures
        match root {
            Ok(path) => exists|i: int|
                0 <= i < candidates@.len() && #[trigger] has_config@[i] && path@ == candidates@[i]@
                    && forall|j: int| 0 <= j < i ==> !#[trigger] has_config@[j],
            Err(error) => (forall|j: int| 0 <= j < has_config@.len() ==> !#[trigger] has_config@[j])
                && (error matches AppError::Configuration { field } && field@ == "project_root"@),
        },
{
    let mut at: usize = 0;
    while at < candidates.len()
        invariant
            at <= candidates@.len(),
            has_config@.len() == candidates@.len(),
            forall|j: int| 0 <= j < at ==> !#[trigger] has_config@[j],
        decreases candidates.len() - at,
    {
        if has_config[at] {
            return Ok(candidates[at].clone());
        }
        at = at + 1;
    }
    Err(AppError::Configuration { field: "project_root" })
}

// ---------------------------------------------------------------------------
// The group
// ---------------------------------------------------------------------------
/// A name for a new project.
pub fn new_project_id() -> (id: String)
    ensures
        is_uuid_text(id@),
{
    fresh_uuid()
}

/// The letters and digits of a text in lower case, with a hyphen between two of
/// them where something else stood.
pub open spec fn sanitized(value: Seq<char>) -> Seq<char>
    decreases value.len(),
{
    if value.len() == 0 {
        Seq::empty()
    } else {
        let rest = sanitized(value.drop_last());
        let c = value.last();
        if !is_alphanumeric(c) {
            rest
        } else if rest.len() > 0 && !is_alphanumeric(value[value.len() - 2]) {
            rest.push('-').push(lower(c))
        } else {
            rest.push(lower(c))
        }
    }
}

/// The letters and digits of a text.
pub open spec fn alphanumerics(value: Seq<char>) -> Seq<char>
    decreases value.len(),
{
    if value.len() == 0 {
        Seq::empty()
    } else if is_alphanumeric(value.last()) {
        alphanumerics(value.drop_last()).push(value.last())
    } else {
        alphanumerics(value.drop_last())
    }
}

/// The last letters and digits of the name of a project.
pub open spec fn suffix_of(project_id: Seq<char>) -> Option<Seq<char>> {
    let all = alphanumerics(project_id);
    if all.len() < GROUP_SUFFIX_LENGTH {
        None
    } else {
        Some(lowered(all.skip(all.len() - GROUP_SUFFIX_LENGTH)))
    }
}

/// The last component of a path, where it is a name.
pub open spec fn file_name(path: Seq<char>) -> Option<Seq<char>> {
    let all = components(path);
    if all.len() == 0 {
        None
    } else {
        match all.last() {
            Component::Normal(name) => Some(name),
            _ => None,
        }
    }
}

pub open spec fn group_name(project_root: Seq<char>) -> Seq<char> {
    match file_name(project_root) {
        Some(name) => if sanitized(name).len() > 0 {
            sanitized(name)
        } else {
            "project"@
        },
        None => "project"@,
    }
}

fn sanitize_group_component(value: &[char]) -> (output: Vec<char>)
    ensures
        output@ == sanitized(value@),
{
    let mut output: Vec<char> = Vec::new();
    let mut at: usize = 0;
    proof {
        assert(value@.take(0) =~= Seq::<char>::empty());
    }
    while at < value.len()
        invariant
            at <= value@.len(),
            value.len() == value@.len(),
            output@ == sanitized(value@.take(at as int)),
        decreases value.len() - at,
    {
        let c: char = value[at];
        proof {
            let head = value@.take(at + 1);
            assert(head.drop_last() =~= value@.take(at as int));
            assert(head.last() == c);
            if at > 0 {
                assert(head[head.len() - 2] == value@[at - 1]);
            } else {
                assert(value@.take(0) =~= Seq::<char>::empty());
            }
        }
        if alphanumeric(c) {
            if output.len() > 0 && at > 0 && !alphanumeric(value[at - 1]) {
                output.push('-');
            }
            output.push(to_lower(c));
        }
        at = at + 1;
    }
    proof {
        assert(value@.take(value@.len() as int) =~= value@);
    }
    output
}

fn keep_alphanumerics(value: &[char]) -> (output: Vec<char>)
    ensures
        output@ == alphanumerics(value@),
{
    let mut output: Vec<char> = Vec::new();
    let mut at: usize = 0;
    proof {
        assert(value@.take(0) =~= Seq::<char>::empty());
    }
    while at < value.len()
        invariant
            at <= value@.len(),
            value.len() == value@.len(),
            output@ == alphanumerics(value@.take(at as int)),
        decreases value.len() - at,
    {
        let c: char = value[at];
        proof {
            assert(value@.take(at + 1).drop_last() =~= value@.take(at as int));
            assert(value@.take(at + 1).last() == c);
        }
        if alphanumeric(c) {
            output.push(c);
        }
        at = at + 1;
    }
    proof {
        assert(value@.take(value@.len() as int) =~= value@);
    }
    output
}

fn project_id_suffix(project_id: &str) -> (suffix: Result<Vec<char>, AppError>)
    ensures
        match suffix {
            Ok(s) => suffix_of(project_id@) == Some(s@),
            Err(error) => suffix_of(project_id@) is None && (error matches AppError::Configuration {
                field,
            } && field@ == "project_id"@),
        },
{
    let chars = chars_of(project_id);
    let mut all = keep_alphanumerics(chars.as_slice());
    if all.len() < GROUP_SUFFIX_LENGTH {
        return Err(AppError::Configuration { field: "project_id" });
    }
    let ghost before = all@;
    let cut: usize = all.len() - GROUP_SUFFIX_LENGTH;
    let tail = all.split_off(cut);
    proof {
        assert(tail@ =~= before.skip(cut as int));
    }
    Ok(to_lowered(tail.as_slice()))
}

fn root_name(project_root: &str) -> (name: Vec<char>)
    ensures
        name@ == group_name(project_root@),
{
    let chars = chars_of(project_root);
    let parts = split(chars.as_slice());
    if parts.len() > 0 {
        proof {
            assert(part_views(parts@).last() == parts@.last()@);
        }
        if let PathPart::Normal(last) = &parts[parts.len() - 1] {
            let name = sanitize_group_component(last.as_slice());
            if name.len() > 0 {
                return name;
            }
        }
    }
    chars_of("project")
}

/// The group of the task queue for a project: named after its directory, and
/// told apart by the end of the project's own name.
pub fn default_pueue_group(project_root: &str, project_id: &str) -> (group: Result<String, AppError>)
    ensures
        match group {
            Ok(g) => suffix_of(project_id@) matches Some(suffix) && g@ == "pa-"@ + group_name(
                project_root@,
            ) + "-"@ + suffix,
            Err(error) => suffix_of(project_id@) is None && (error matches AppError::Configuration {
                field,
            } && field@ == "project_id"@),
        },
{
    let name = root_name(project_root);
    let suffix = project_id_suffix(project_id)?;
    let mut group = chars_of("pa-");
    extend(&mut group, name.as_slice());
    append_text(&mut group, "-");
    extend(&mut group, suffix.as_slice());
    Ok(string_of(group.as_slice()))
}

// ---------------------------------------------------------------------------
// Laws
// ---------------------------------------------------------------------------
pub open spec fn are_group_chars(s: Seq<char>) -> bool {
    forall|i: int| 0 <= i < s.len() ==> is_group_char(#[trigger] s[i])
}

proof fn lemma_lower_stays(c: char)
    requires
        is_alphanumeric(c),
    ensures
        is_alphanumeric(lower(c)),
{
}

proof fn lemma_sanitized_chars(value: Seq<char>)
    ensures
        are_group_chars(sanitized(value)),
    decreases value.len(),
{
    if value.len() > 0 {
        lemma_sanitized_chars(value.drop_last());
        if is_alphanumeric(value.last()) {
            lemma_lower_stays(value.last());
        }
    }
}

proof fn lemma_alphanumerics(value: Seq<char>)
    ensures
        forall|i: int|
            0 <= i < alphanumerics(value).len() ==> is_alphanumeric(#[trigger] alphanumerics(value)[i]),
    decreases value.len(),
{
    if value.len() > 0 {
        let rest = alphanumerics(value.drop_last());
        let all = alphanumerics(value);
        lemma_alphanumerics(value.drop_last());
        assert forall|i: int| 0 <= i < all.len() implies is_alphanumeric(#[trigger] all[i]) by {
            if i < rest.len() {
                assert(all[i] == rest[i]);
                assert(is_alphanumeric(rest[i]));
            } else {
                assert(all[i] == value.last());
            }
        }
    }
}

/// The group of a project is a name that the task queue accepts, unless the name
/// of the directory makes it too long.
pub proof fn lemma_default_group_is_accepted(project_root: Seq<char>, suffix: Seq<char>, project_id: Seq<char>)
    requires
        suffix_of(project_id) == Some(suffix),
        group_name(project_root).len() <= 118,
    ensures
        is_group("pa-"@ + group_name(project_root) + "-"@ + suffix),
{
    reveal_strlit("pa-");
    reveal_strlit("-");
    reveal_strlit("project");
    let name = group_name(project_root);
    let all = alphanumerics(project_id);
    lemma_alphanumerics(project_id);
    if let Some(own) = file_name(project_root) {
        lemma_sanitized_chars(own);
    }
    let word = "project"@;
    assert(word.len() == 7 && word[0] == 'p' && word[1] == 'r' && word[2] == 'o' && word[3] == 'j'
        && word[4] == 'e' && word[5] == 'c' && word[6] == 't');
    assert(are_group_chars(word)) by {
        assert forall|i: int| 0 <= i < word.len() implies is_group_char(#[trigger] word[i]) by {
            assert(i == 0 || i == 1 || i == 2 || i == 3 || i == 4 || i == 5 || i == 6);
        }
    }
    assert(are_group_chars(name));
    let head = "pa-"@;
    assert(head.len() == 3 && head[0] == 'p' && head[1] == 'a' && head[2] == '-');
    assert("-"@.len() == 1 && "-"@[0] == '-');
    let tail = all.skip(all.len() - GROUP_SUFFIX_LENGTH);
    assert(suffix =~= lowered(tail));
    assert forall|i: int| 0 <= i < suffix.len() implies is_group_char(#[trigger] suffix[i]) by {
        assert(tail[i] == all[i + all.len() - GROUP_SUFFIX_LENGTH]);
        assert(is_alphanumeric(all[i + all.len() - GROUP_SUFFIX_LENGTH]));
        lemma_lower_stays(tail[i]);
    }
    let group = head + name + "-"@ + suffix;
    assert forall|i: int| 0 <= i < group.len() implies is_group_char(#[trigger] group[i]) by {
        if i < 3 {
            assert(group[i] == head[i]);
            assert(i == 0 || i == 1 || i == 2);
        } else if i < 3 + name.len() {
            assert(group[i] == name[i - 3]);
        } else if i == 3 + name.len() {
            assert(group[i] == '-');
        } else {
            assert(group[i] == suffix[i - 4 - name.len()]);
        }
    }
    assert(group[0] == 'p');
}

proof fn lemma_hex_is_alphanumeric(c: char)
    requires
        is_hex_char(c),
    ensures
        is_alphanumeric(c),
{
}

proof fn lemma_alphanumerics_len(value: Seq<char>, n: int)
    requires
        0 <= n <= value.len(),
        forall|i: int| n <= i < value.len() ==> is_alphanumeric(#[trigger] value[i]),
    ensures
        alphanumerics(value).len() >= value.len() - n,
    decreases value.len(),
{
    if value.len() > n {
        lemma_alphanumerics_len(value.drop_last(), n);
    }
}

/// A project with a fresh name gets a group.
pub proof fn lemma_fresh_project_gets_a_group(project_id: Seq<char>)
    requires
        is_uuid_text(project_id),
    ensures
        suffix_of(project_id) is Some,
{
    assert forall|i: int| 24 <= i < project_id.len() implies is_alphanumeric(
        #[trigger] project_id[i],
    ) by {
        assert(is_hex_char(project_id[i]));
        lemma_hex_is_alphanumeric(project_id[i]);
    }
    lemma_alphanumerics_len(project_id, 24);
}

/// The name of a group grows with each letter and digit, in small letters, with
/// one dash where others stood between; at the ends they are dropped.
pub proof fn lemma_group_names_grow(value: Seq<char>, c: char)
    ensures
        sanitized(Seq::empty()).len() == 0,
        !is_alphanumeric(c) ==> sanitized(value.push(c)) == sanitized(value),
        is_alphanumeric(c) && value.len() > 0 && is_alphanumeric(value.last()) ==> sanitized(
            value.push(c),
        ) == sanitized(value).push(lower(c)),
        is_alphanumeric(c) && value.len() > 0 && !is_alphanumeric(value.last()) && sanitized(
            value,
        ).len() > 0 ==> sanitized(value.push(c)) == sanitized(value).push('-').push(lower(c)),
        is_alphanumeric(c) && sanitized(value).len() == 0 ==> sanitized(value.push(c)) == seq![
            lower(c),
        ],
{
    assert(value.push(c).drop_last() =~= value);
    if value.len() > 0 {
        assert(value.push(c)[value.push(c).len() - 2] == value.last());
    }
    if sanitized(value).len() == 0 {
        assert(sanitized(value) =~= Seq::<char>::empty());
        assert(Seq::<char>::empty().push(lower(c)) =~= seq![lower(c)]);
        if value.len() > 0 && is_alphanumeric(value.last()) {
            assert(sanitized(value).len() > 0);
        }
    }
}

/// The suffix of a group are the last six letters and digits of the project, in
/// small letters; a project with fewer has none.
pub proof fn lemma_suffix_of_a_group(project_id: Seq<char>, c: char)
    ensures
        alphanumerics(Seq::empty()).len() == 0,
        alphanumerics(project_id.push(c)) == if is_alphanumeric(c) {
            alphanumerics(project_id).push(c)
        } else {
            alphanumerics(project_id)
        },
        suffix_of(project_id) is Some <==> alphanumerics(project_id).len() >= 6,
        suffix_of(project_id) matches Some(suffix) ==> suffix.len() == 6 && forall|i: int|
            0 <= i < 6 ==> (#[trigger] suffix[i]) == lower(
                alphanumerics(project_id)[alphanumerics(project_id).len() - 6 + i],
            ),
{
    assert(project_id.push(c).drop_last() =~= project_id);
}

/// The parent of a path is what stands before its last slash; the root has none.
pub proof fn lemma_parents(parent: Seq<char>, name: Seq<char>)
    requires
        !name.contains('/'),
        name.len() > 0,
    ensures
        parent_of("/"@) is None,
        parent.len() > 0 ==> parent_of(parent + seq!['/'] + name) == Some(parent),
        parent_of(seq!['/'] + name) == Some("/"@),
{
    reveal_strlit("/");
    lemma_last_slash(parent, name);
    lemma_last_slash(Seq::empty(), name);
    let path = parent + seq!['/'] + name;
    assert(path.take(parent.len() as int) =~= parent);
    assert(path.len() > 1);
    assert(Seq::<char>::empty() + seq!['/'] + name =~= seq!['/'] + name);
    assert((seq!['/'] + name).len() > 1);
}

proof fn lemma_last_slash(parent: Seq<char>, name: Seq<char>)
    requires
        !name.contains('/'),
    ensures
        parent_end(parent + seq!['/'] + name) == parent.len(),
    decreases name.len(),
{
    let path = parent + seq!['/'] + name;
    if name.len() == 0 {
        assert(path.last() == '/');
    } else {
        assert(path.last() == name.last());
        assert(name.contains(name.last()));
        assert(path.drop_last() =~= parent + seq!['/'] + name.drop_last());
        assert forall|i: int| 0 <= i < name.drop_last().len() implies name.drop_last()[i] != '/' by {
            assert(name.contains(name[i]));
        }
        lemma_last_slash(parent, name.drop_last());
    }
}

/// A group is named after the directory of the project, and `project` where that
/// has no letter and no digit.
pub proof fn lemma_name_of_a_group(root: Seq<char>, name: Seq<char>)
    ensures
        components(root).len() > 0 && components(root).last() == Component::Normal(name)
            && sanitized(name).len() > 0 ==> group_name(root) == sanitized(name),
        components(root).len() > 0 && components(root).last() == Component::Normal(name)
            && sanitized(name).len() == 0 ==> group_name(root) == "project"@,
        components(root).len() == 0 ==> group_name(root) == "project"@,
        components(root).len() > 0 && !(components(root).last() is Normal) ==> group_name(root)
            == "project"@,
{
}

/// The way up starts where it was asked for, goes to the parent each time and
/// ends with the root.
pub proof fn lemma_way_up(paths: Seq<String>, start: Seq<char>, i: int)
    requires
        is_way_up(paths, start),
        0 <= i < paths.len() - 1,
    ensures
        paths.len() > 0,
        paths[0]@ == start,
        paths.last()@ == "/"@,
        parent_of(paths[i]@) == Some(paths[i + 1]@),
        paths[i]@ != "/"@,
{
    assert(parent_of(paths[i]@) is Some);
}

} // verus!
