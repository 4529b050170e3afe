//! Unix paths as text: their components, and the relations between them that
//! the library decides by.

use vstd::prelude::*;
use vstd::slice::*;

use crate::text::{append_text, chars_of, copied, find_char, first_of, same_chars, string_of};

verus! {

/// A component of a path.
pub enum Component {
    Root,
    Current,
    Parent,
    Normal(Seq<char>),
}

/// The executable form of [`Component`].
#[derive(Debug, Clone, PartialEq, Eq)]
pub enum PathPart {
    Root,
    Current,
    Parent,
    Normal(Vec<char>),
}

impl View for PathPart {
    type V = Component;

    open spec fn view(&self) -> Component {
        match self {
            PathPart::Root => Component::Root,
            PathPart::Current => Component::Current,
            PathPart::Parent => Component::Parent,
            PathPart::Normal(name) => Component::Normal(name@),
        }
    }
}

pub open spec fn part_views(parts: Seq<PathPart>) -> Seq<Component> {
    Seq::new(parts.len(), |i: int| parts[i]@)
}

pub open spec fn is_absolute(path: Seq<char>) -> bool {
    path.len() > 0 && path[0] == '/'
}

/// The component that a piece between two slashes stands for: none for an empty
/// piece, nor for a dot that does not lead a relative path.
pub open spec fn piece(name: Seq<char>, leads: bool) -> Seq<Component> {
    if name.len() == 0 {
        Seq::empty()
    } else if name == seq!['.'] {
        if leads {
            seq![Component::Current]
        } else {
            Seq::empty()
        }
    } else if name == seq!['.', '.'] {
        seq![Component::Parent]
    } else {
        seq![Component::Normal(name)]
    }
}

/// The components of the pieces of `path`; `leads` says that the first piece
/// stands at the start of a relative path.
pub open spec fn pieces(path: Seq<char>, leads: bool) -> Seq<Component>
    decreases path.len(),
    via pieces_decreases
{
    let slash = first_of(path, '/');
    if slash < path.len() {
        piece(path.take(slash), leads) + pieces(path.skip(slash + 1), false)
    } else {
        piece(path, leads)
    }
}

#[via_fn]
proof fn pieces_decreases(path: Seq<char>, leads: bool) {
    lemma_first_of_range(path, '/');
}

pub proof fn lemma_first_of_range(s: Seq<char>, c: char)
    ensures
        0 <= first_of(s, c) <= s.len(),
    decreases s.len(),
{
    if s.len() > 0 && s[0] != c {
        lemma_first_of_range(s.drop_first(), c);
    }
}

/// The components of a path.
pub open spec fn components(path: Seq<char>) -> Seq<Component> {
    if is_absolute(path) {
        seq![Component::Root] + pieces(path.skip(1), false)
    } else {
        pieces(path, true)
    }
}

/// `path` lies in `base` or is `base`, component by component.
pub open spec fn is_within(path: Seq<char>, base: Seq<char>) -> bool {
    let inner = components(path);
    let outer = components(base);
    outer.len() <= inner.len() && inner.take(outer.len() as int) == outer
}

/// Some component steps to the current or the parent directory.
pub open spec fn has_dots(path: Seq<char>) -> bool {
    exists|i: int|
        0 <= i < components(path).len() && (#[trigger] components(path)[i] == Component::Current
            || components(path)[i] == Component::Parent)
}

fn push_piece(parts: &mut Vec<PathPart>, name: &[char], leads: bool)
    ensures
        part_views(final(parts)@) == part_views(old(parts)@) + piece(name@, leads),
{
    let ghost before = parts@;
    if name.len() == 0 {
        proof {
            assert(part_views(parts@) + Seq::<Component>::empty() =~= part_views(parts@));
        }
        return ;
    }
    if name.len() == 1 && name[0] == '.' {
        proof {
            assert(name@ =~= seq!['.']);
        }
        if leads {
            parts.push(PathPart::Current);
            proof {
                assert(part_views(parts@) =~= part_views(before) + seq![Component::Current]);
            }
        } else {
            proof {
                assert(part_views(parts@) + Seq::<Component>::empty() =~= part_views(parts@));
            }
        }
        return ;
    }
    if name.len() == 2 && name[0] == '.' && name[1] == '.' {
        proof {
            assert(name@ =~= seq!['.', '.']);
        }
        parts.push(PathPart::Parent);
        proof {
            assert(part_views(parts@) =~= part_views(before) + seq![Component::Parent]);
        }
        return ;
    }
    proof {
        assert(name@ != seq!['.']) by {
            if name@ == seq!['.'] {
                assert(name@.len() == 1);
                assert(name@[0] == '.');
            }
        }
        assert(name@ != seq!['.', '.']) by {
            if name@ == seq!['.', '.'] {
                assert(name@.len() == 2);
                assert(name@[0] == '.' && name@[1] == '.');
            }
        }
    }
    parts.push(PathPart::Normal(copied(name)));
    proof {
        assert(part_views(parts@) =~= part_views(before) + seq![Component::Normal(name@)]);
    }
}

/// Splits a path into its components.
pub fn split(path: &[char]) -> (parts: Vec<PathPart>)
    ensures
        part_views(parts@) == components(path@),
{
    let mut parts: Vec<PathPart> = Vec::new();
    let mut at: usize = 0;
    let mut leads = true;
    if path.len() > 0 && path[0] == '/' {
        parts.push(PathPart::Root);
        at = 1;
        leads = false;
    }
    proof {
        assert(path@.skip(0) =~= path@);
        if is_absolute(path@) {
            assert(part_views(parts@) =~= seq![Component::Root]);
        } else {
            assert(part_views(parts@) + pieces(path@, true) =~= pieces(path@, true));
        }
    }
    loop
        invariant
            at <= path@.len(),
            components(path@) == part_views(parts@) + pieces(path@.skip(at as int), leads),
        decreases path.len() - at,
    {
        let ghost before = part_views(parts@);
        let ghost rest = path@.skip(at as int);
        proof {
            assert(path@.subrange(at as int, path@.len() as int) =~= rest);
        }
        let tail = slice_subrange(path, at, path.len());
        let slash: usize = find_char(tail, '/');
        if slash < tail.len() {
            proof {
                assert(tail@.subrange(0, slash as int) =~= rest.take(slash as int));
                assert(rest.skip(slash + 1) =~= path@.skip(at + slash + 1));
            }
            push_piece(&mut parts, slice_subrange(tail, 0, slash), leads);
            at = at + slash + 1;
            leads = false;
        } else {
            push_piece(&mut parts, tail, leads);
            return parts;
        }
    }
}

fn same_part(a: &PathPart, b: &PathPart) -> (same: bool)
    ensures
        same == (a@ == b@),
{
    match (a, b) {
        (PathPart::Root, PathPart::Root) => true,
        (PathPart::Current, PathPart::Current) => true,
        (PathPart::Parent, PathPart::Parent) => true,
        (PathPart::Normal(x), PathPart::Normal(y)) => same_chars(x.as_slice(), y.as_slice()),
        _ => false,
    }
}

/// Whether `path` lies in `base` or is `base`.
pub fn within(path: &str, base: &str) -> (yes: bool)
    ensures
        yes == is_within(path@, base@),
{
    let path_chars = chars_of(path);
    let base_chars = chars_of(base);
    let inner = split(path_chars.as_slice());
    let outer = split(base_chars.as_slice());
    if outer.len() > inner.len() {
        return false;
    }
    let mut at: usize = 0;
    while at < outer.len()
        invariant
            at <= outer@.len() <= inner@.len(),
            part_views(inner@) == components(path@),
            part_views(outer@) == components(base@),
            forall|i: int|
                0 <= i < at ==> #[trigger] components(path@)[i] == components(base@)[i],
        decreases outer.len() - at,
    {
        proof {
            assert(part_views(inner@)[at as int] == inner@[at as int]@);
            assert(part_views(outer@)[at as int] == outer@[at as int]@);
        }
        if !same_part(&inner[at], &outer[at]) {
            proof {
                assert(components(path@).take(outer@.len() as int)[at as int] == components(
                    path@,
                )[at as int]);
            }
            return false;
        }
        at = at + 1;
    }
    proof {
        assert(components(path@).take(outer@.len() as int) =~= components(base@));
    }
    true
}

/// Whether some component steps to the current or the parent directory.
pub fn dotted(path: &str) -> (yes: bool)
    ensures
        yes == has_dots(path@),
{
    let chars = chars_of(path);
    let parts = split(chars.as_slice());
    let mut at: usize = 0;
    while at < parts.len()
        invariant
            at <= parts@.len(),
            part_views(parts@) == components(path@),
            forall|i: int|
                0 <= i < at ==> #[trigger] components(path@)[i] != Component::Current && components(
                    path@,
                )[i] != Component::Parent,
        decreases parts.len() - at,
    {
        proof {
            assert(part_views(parts@)[at as int] == parts@[at as int]@);
        }
        match &parts[at] {
            PathPart::Current => {
                return true;
            },
            PathPart::Parent => {
                return true;
            },
            _ => {},
        }
        at = at + 1;
    }
    false
}

/// Whether a path starts at the root.
pub fn absolute(path: &str) -> (yes: bool)
    ensures
        yes == is_absolute(path@),
{
    let chars = chars_of(path);
    chars.len() > 0 && chars[0] == '/'
}

/// A path lies in every path of which it is an extension: what lies in an inner
/// directory lies in the outer one too.
pub proof fn lemma_within_is_transitive(path: Seq<char>, middle: Seq<char>, base: Seq<char>)
    requires
        is_within(path, middle),
        is_within(middle, base),
    ensures
        is_within(path, base),
{
    let n = components(base).len() as int;
    assert(components(path).take(n) =~= components(path).take(
        components(middle).len() as int,
    ).take(n));
}

/// A relative path, taken from a directory.
pub open spec fn joined_path(base: Seq<char>, relative: Seq<char>) -> Seq<char> {
    if is_absolute(relative) {
        relative
    } else if base.len() == 0 || base.last() == '/' {
        base + relative
    } else {
        base + "/"@ + relative
    }
}

pub fn join_path(base: &str, relative: &str) -> (path: String)
    ensures
        path@ == joined_path(base@, relative@),
{
    if absolute(relative) {
        return relative.to_owned();
    }
    let mut chars = chars_of(base);
    if chars.len() > 0 && chars[chars.len() - 1] != '/' {
        append_text(&mut chars, "/");
    }
    append_text(&mut chars, relative);
    proof {
        assert(chars@ =~= joined_path(base@, relative@));
    }
    string_of(chars.as_slice())
}

/// A path is read piece by piece: up to the first slash, and on behind it.
pub proof fn lemma_path_is_read_piece_by_piece(name: Seq<char>, rest: Seq<char>, leads: bool)
    requires
        !name.contains('/'),
    ensures
        pieces(name, leads) == piece(name, leads),
        pieces(name + seq!['/'] + rest, leads) == piece(name, leads) + pieces(rest, false),
        is_absolute(rest) ==> components(rest) == seq![Component::Root] + pieces(
            rest.skip(1),
            false,
        ),
        !is_absolute(rest) ==> components(rest) == pieces(rest, true),
{
    let path = name + seq!['/'] + rest;
    assert forall|i: int| 0 <= i < name.len() implies name[i] != '/' && path[i] != '/' by {
        assert(name.contains(name[i]));
    }
    crate::text::lemma_first_of(name, '/', name.len() as int);
    crate::text::lemma_first_of(path, '/', name.len() as int);
    assert(path.take(name.len() as int) =~= name);
    assert(path.skip(name.len() as int + 1) =~= rest);
}

/// An empty piece counts for nothing, a dot only at the very start, two dots are
/// a step up, and everything else is a name.
pub proof fn lemma_pieces_of_a_path(name: Seq<char>, leads: bool)
    ensures
        name.len() == 0 ==> piece(name, leads).len() == 0,
        name == seq!['.'] ==> piece(name, false).len() == 0 && piece(name, true) == seq![
            Component::Current,
        ],
        name == seq!['.', '.'] ==> piece(name, leads) == seq![Component::Parent],
        name.len() > 0 && name != seq!['.'] && name != seq!['.', '.'] ==> piece(name, leads)
            == seq![Component::Normal(name)],
{
}

/// A path lies within itself, and within another exactly where it goes on from
/// there.
pub proof fn lemma_what_lies_within(path: Seq<char>, base: Seq<char>)
    ensures
        is_within(path, path),
        is_within(path, base) <==> exists|more: Seq<Component>|
            components(path) == #[trigger] (components(base) + more),
        is_within(path, base) && is_within(base, path) ==> components(path) == components(base),
{
    let inner = components(path);
    let outer = components(base);
    assert(inner.take(inner.len() as int) =~= inner);
    assert(outer.take(outer.len() as int) =~= outer);
    if is_within(path, base) {
        assert(inner =~= outer + inner.skip(outer.len() as int));
    }
    if exists|more: Seq<Component>| inner == #[trigger] (outer + more) {
        let more = choose|more: Seq<Component>| inner == #[trigger] (outer + more);
        assert(inner.take(outer.len() as int) =~= outer);
    }
}

/// A relative path is taken from its base, with one slash between; an absolute
/// one stands alone.
pub proof fn lemma_paths_are_joined(base: Seq<char>, relative: Seq<char>)
    ensures
        is_absolute(relative) ==> joined_path(base, relative) == relative,
        !is_absolute(relative) && base.len() == 0 ==> joined_path(base, relative) == relative,
        !is_absolute(relative) && base.len() > 0 && base.last() == '/' ==> joined_path(
            base,
            relative,
        ) == base + relative,
        !is_absolute(relative) && base.len() > 0 && base.last() != '/' ==> joined_path(
            base,
            relative,
        ) == base + seq!['/'] + relative,
{
    reveal_strlit("/");
    assert("/"@ =~= seq!['/']);
    assert(Seq::<char>::empty() + relative =~= relative);
    if base.len() == 0 {
        assert(base =~= Seq::<char>::empty());
    }
}

/// A path is without detours exactly where each of its steps is the root or a
/// name; a step up is one anywhere, and a dot at the start.
pub proof fn lemma_paths_without_detours(path: Seq<char>, rest: Seq<char>)
    ensures
        !has_dots(path) <==> forall|i: int|
            0 <= i < components(path).len() ==> (#[trigger] components(path)[i]) is Root
                || components(path)[i] is Normal,
        has_dots(seq!['.', '.', '/'] + rest),
        has_dots(seq!['.', '/'] + rest),
{
    if has_dots(path) {
        let i = choose|i: int|
            0 <= i < components(path).len() && (#[trigger] components(path)[i]
                == Component::Current || components(path)[i] == Component::Parent);
        assert(!(components(path)[i] is Root) && !(components(path)[i] is Normal));
    }
    assert forall|i: int|
        0 <= i < components(path).len() && !((#[trigger] components(path)[i]) is Root
            || components(path)[i] is Normal) implies has_dots(path) by {
        assert(components(path)[i] == Component::Current || components(path)[i]
            == Component::Parent);
    }
    let up = seq!['.', '.'];
    let here = seq!['.'];
    lemma_path_is_read_piece_by_piece(up, rest, true);
    lemma_path_is_read_piece_by_piece(here, rest, true);
    assert(seq!['.', '.', '/'] + rest =~= up + seq!['/'] + rest);
    assert(seq!['.', '/'] + rest =~= here + seq!['/'] + rest);
    assert(up.len() == 2 && here.len() == 1);
    assert(components(up + seq!['/'] + rest)[0] == Component::Parent);
    assert(components(here + seq!['/'] + rest)[0] == Component::Current);
}

} // verus!
