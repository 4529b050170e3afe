//! Reading a control frame, and the two laws that tie reading to writing.

use vstd::prelude::*;
use vstd::slice::*;

use crate::execution_policy::ExecutableIdentity;
use crate::frame::{
    argv_body, byte_views, count_from, encoded, environment_body, environment_error, field,
    field_map, fields_from, header, identity_body, is_environment_name, leaf, leaf_error, leaves,
    names_entry, pair_views, pairs, payload, shape_error, validate_frame_shape, ControlFrame,
    Frame,
};
use crate::process::{
    mode_of, CodecError, LaunchFlags, LaunchMode, FIELD_AGENT_LOG_IDENTITY, FIELD_ARGV, FIELD_CWD,
    FIELD_ENV, FIELD_PROJECT_ROOT_IDENTITY, FIELD_PUEUE_CONFIG_IDENTITY, FIELD_TARGET_IDENTITY,
    HEADER_SIZE, KNOWN_FLAGS, MAX_ARGV, MAX_ENV, MAX_FIELD_SIZE, MAX_FRAME_SIZE,
};
use crate::wire::{
    be_bytes, be_value, copy_bytes, has_byte, lemma_be_bytes_len, lemma_bytes_of_value,
    lemma_capacities, lemma_value_of_bytes, read_be, same_bytes,
};

verus! {

// ---------------------------------------------------------------------------
// What the parts of a frame are read as
// ---------------------------------------------------------------------------
/// Reads a leaf and gives what follows it.
pub open spec fn take_leaf(s: Seq<u8>) -> Result<(Seq<u8>, Seq<u8>), CodecError> {
    if s.len() < 4 {
        Err(CodecError::Truncated)
    } else {
        let n = be_value(s.take(4));
        if n > MAX_FIELD_SIZE {
            Err(CodecError::FieldTooLarge)
        } else if s.len() - 4 < n {
            Err(CodecError::Truncated)
        } else if s.subrange(4, 4 + n as int).contains(0u8) {
            Err(CodecError::NulByte)
        } else {
            Ok((s.subrange(4, 4 + n as int), s.skip(4 + n as int)))
        }
    }
}

/// Reads leaves after those that have been read.
pub open spec fn take_leaves(s: Seq<u8>, count: nat, read: Seq<Seq<u8>>) -> Result<
    (Seq<Seq<u8>>, Seq<u8>),
    CodecError,
>
    decreases count,
{
    if count == 0 {
        Ok((read, s))
    } else {
        match take_leaf(s) {
            Err(error) => Err(error),
            Ok((value, rest)) => take_leaves(rest, (count - 1) as nat, read.push(value)),
        }
    }
}

/// Reads entries of the environment after those that have been read.
pub open spec fn take_pairs(
    s: Seq<u8>,
    count: nat,
    read: Seq<(Seq<u8>, Seq<u8>)>,
) -> Result<(Seq<(Seq<u8>, Seq<u8>)>, Seq<u8>), CodecError>
    decreases count,
{
    if count == 0 {
        Ok((read, s))
    } else {
        match take_leaf(s) {
            Err(error) => Err(error),
            Ok((name, after)) => match take_leaf(after) {
                Err(error) => Err(error),
                Ok((value, rest)) => if !is_environment_name(name) {
                    Err(CodecError::InvalidEnvironmentName)
                } else if names_entry(read, name) {
                    Err(CodecError::DuplicateEnvironmentName)
                } else {
                    take_pairs(rest, (count - 1) as nat, read.push((name, value)))
                },
            },
        }
    }
}

/// The arguments in the body of their field.
pub open spec fn argv_of(body: Seq<u8>) -> Result<Seq<Seq<u8>>, CodecError> {
    if body.len() < 4 {
        Err(CodecError::Truncated)
    } else if be_value(body.take(4)) > MAX_ARGV {
        Err(CodecError::TooManyArguments)
    } else {
        match take_leaves(body.skip(4), be_value(body.take(4)), Seq::empty()) {
            Err(error) => Err(error),
            Ok((values, rest)) => if rest.len() > 0 {
                Err(CodecError::TrailingBytes)
            } else {
                Ok(values)
            },
        }
    }
}

/// The environment in the body of its field.
pub open spec fn environment_of(body: Seq<u8>) -> Result<Seq<(Seq<u8>, Seq<u8>)>, CodecError> {
    if body.len() < 4 {
        Err(CodecError::Truncated)
    } else if be_value(body.take(4)) > MAX_ENV {
        Err(CodecError::TooManyEnvironmentEntries)
    } else {
        match take_pairs(body.skip(4), be_value(body.take(4)), Seq::empty()) {
            Err(error) => Err(error),
            Ok((entries, rest)) => if rest.len() > 0 {
                Err(CodecError::TrailingBytes)
            } else {
                Ok(entries)
            },
        }
    }
}

/// The working directory in the body of its field.
pub open spec fn cwd_of(body: Seq<u8>) -> Result<Seq<u8>, CodecError> {
    match take_leaf(body) {
        Err(error) => Err(error),
        Ok((value, rest)) => if rest.len() > 0 {
            Err(CodecError::TrailingBytes)
        } else {
            Ok(value)
        },
    }
}

/// The identity in the body of a field.
pub open spec fn identity_of(body: Seq<u8>) -> Result<ExecutableIdentity, CodecError> {
    if body.len() != 24 {
        Err(CodecError::InvalidIdentity)
    } else {
        Ok(
            ExecutableIdentity {
                device: be_value(body.subrange(0, 8)) as u64,
                inode: be_value(body.subrange(8, 16)) as u64,
                owner: be_value(body.subrange(16, 20)) as u32,
                mode: be_value(body.subrange(20, 24)) as u32,
            },
        )
    }
}

/// Reads fields after those that have been read; their kinds go up from
/// `previous`.
pub open spec fn take_fields(
    s: Seq<u8>,
    count: nat,
    previous: u8,
    read: Map<u8, Seq<u8>>,
) -> Result<(Map<u8, Seq<u8>>, Seq<u8>), CodecError>
    decreases count,
{
    if count == 0 {
        Ok((read, s))
    } else if s.len() < 1 {
        Err(CodecError::Truncated)
    } else if s[0] <= previous {
        Err(CodecError::NonIncreasingFieldOrder)
    } else if s.len() < 5 {
        Err(CodecError::Truncated)
    } else {
        let n = be_value(s.subrange(1, 5));
        if s.len() - 5 < n {
            Err(CodecError::Truncated)
        } else if s[0] > 7 {
            Err(CodecError::UnknownField(s[0]))
        } else {
            take_fields(
                s.skip(5 + n as int),
                (count - 1) as nat,
                s[0],
                read.insert(s[0], s.subrange(5, 5 + n as int)),
            )
        }
    }
}

pub open spec fn required<T>(
    fields: Map<u8, Seq<u8>>,
    kind: u8,
    reader: spec_fn(Seq<u8>) -> Result<T, CodecError>,
) -> Result<T, CodecError> {
    if fields.contains_key(kind) {
        reader(fields[kind])
    } else {
        Err(CodecError::MissingField(kind))
    }
}

pub open spec fn optional<T>(
    fields: Map<u8, Seq<u8>>,
    kind: u8,
    reader: spec_fn(Seq<u8>) -> Result<T, CodecError>,
) -> Result<Option<T>, CodecError> {
    if fields.contains_key(kind) {
        match reader(fields[kind]) {
            Ok(value) => Ok(Some(value)),
            Err(error) => Err(error),
        }
    } else {
        Ok(None)
    }
}

/// The frame that fields make up.
pub open spec fn frame_of(
    mode: LaunchMode,
    flags: LaunchFlags,
    fields: Map<u8, Seq<u8>>,
) -> Result<Frame, CodecError> {
    let argv = required(fields, FIELD_ARGV, |b: Seq<u8>| argv_of(b));
    let environment = required(fields, FIELD_ENV, |b: Seq<u8>| environment_of(b));
    let target = required(fields, FIELD_TARGET_IDENTITY, |b: Seq<u8>| identity_of(b));
    let cwd = optional(fields, FIELD_CWD, |b: Seq<u8>| cwd_of(b));
    let root = optional(fields, FIELD_PROJECT_ROOT_IDENTITY, |b: Seq<u8>| identity_of(b));
    let log = optional(fields, FIELD_AGENT_LOG_IDENTITY, |b: Seq<u8>| identity_of(b));
    let config = optional(fields, FIELD_PUEUE_CONFIG_IDENTITY, |b: Seq<u8>| identity_of(b));
    if argv is Err {
        Err(argv->Err_0)
    } else if environment is Err {
        Err(environment->Err_0)
    } else if target is Err {
        Err(target->Err_0)
    } else if cwd is Err {
        Err(cwd->Err_0)
    } else if root is Err {
        Err(root->Err_0)
    } else if log is Err {
        Err(log->Err_0)
    } else if config is Err {
        Err(config->Err_0)
    } else {
        let frame = Frame {
            mode,
            flags,
            argv: argv->Ok_0,
            environment: environment->Ok_0,
            cwd: cwd->Ok_0,
            target_identity: target->Ok_0,
            project_root_identity: root->Ok_0,
            agent_log_identity: log->Ok_0,
            pueue_config_identity: config->Ok_0,
        };
        match shape_error(frame) {
            Some(error) => Err(error),
            None => Ok(frame),
        }
    }
}

/// What is wrong with the header of a frame, if anything.
pub open spec fn header_error(bytes: Seq<u8>) -> Option<CodecError> {
    if bytes.len() < HEADER_SIZE {
        Some(CodecError::Truncated)
    } else if bytes.take(4) != seq![0x50u8, 0x41u8, 0x45u8, 0x58u8] {
        Some(CodecError::InvalidMagic)
    } else if bytes[4] != 1 {
        Some(CodecError::UnsupportedVersion)
    } else if mode_of(bytes[5]) is Err {
        Some(CodecError::UnknownMode)
    } else if be_value(bytes.subrange(6, 8)) as u16 & !KNOWN_FLAGS != 0 {
        Some(CodecError::UnknownFlags)
    } else if HEADER_SIZE + be_value(bytes.subrange(8, 12)) > MAX_FRAME_SIZE {
        Some(CodecError::FrameTooLarge)
    } else if bytes.len() < HEADER_SIZE + be_value(bytes.subrange(8, 12)) {
        Some(CodecError::Truncated)
    } else if bytes.len() > HEADER_SIZE + be_value(bytes.subrange(8, 12)) {
        Some(CodecError::TrailingBytes)
    } else {
        None
    }
}

/// The frame that bytes stand for.
pub open spec fn decoded(bytes: Seq<u8>) -> Result<Frame, CodecError> {
    if header_error(bytes) is Some {
        Err(header_error(bytes)->0)
    } else {
        let body = bytes.skip(12);
        if body.len() < 4 {
            Err(CodecError::Truncated)
        } else if be_value(body.take(4)) > 7 {
            Err(CodecError::TooManyFields)
        } else {
            match take_fields(body.skip(4), be_value(body.take(4)), 0, Map::empty()) {
                Err(error) => Err(error),
                Ok((fields, rest)) => if rest.len() > 0 {
                    Err(CodecError::TrailingBytes)
                } else {
                    frame_of(
                        mode_of(bytes[5])->Ok_0,
                        LaunchFlags { bits: be_value(bytes.subrange(6, 8)) as u16 },
                        fields,
                    )
                },
            }
        }
    }
}

// ---------------------------------------------------------------------------
// Reading
// ---------------------------------------------------------------------------
fn read_u32(bytes: &[u8], from: usize) -> (value: Result<usize, CodecError>)
    requires
        from <= bytes@.len(),
    ensures
        match value {
            Ok(n) => bytes@.len() - from >= 4 && n == be_value(
                bytes@.subrange(from as int, from + 4),
            ),
            Err(error) => error == CodecError::Truncated && bytes@.len() - from < 4,
        },
{
    if bytes.len() - from < 4 {
        return Err(CodecError::Truncated);
    }
    let raw = slice_subrange(bytes, from, from + 4);
    let value: u64 = read_be(raw);
    proof {
        lemma_bytes_of_value(raw@);
        lemma_capacities();
    }
    Ok(value as usize)
}

fn read_leaf(bytes: &[u8], from: usize) -> (value: Result<(Vec<u8>, usize), CodecError>)
    requires
        from <= bytes@.len(),
    ensures
        match value {
            Ok((v, next)) => next <= bytes@.len() && take_leaf(bytes@.skip(from as int)) == Ok::<
                (Seq<u8>, Seq<u8>),
                CodecError,
            >((v@, bytes@.skip(next as int))),
            Err(error) => take_leaf(bytes@.skip(from as int)) == Err::<
                (Seq<u8>, Seq<u8>),
                CodecError,
            >(error),
        },
{
    let ghost s = bytes@.skip(from as int);
    proof {
        if s.len() >= 4 {
            assert(s.take(4) =~= bytes@.subrange(from as int, from + 4));
        }
    }
    let length: usize = read_u32(bytes, from)?;
    if length > MAX_FIELD_SIZE {
        return Err(CodecError::FieldTooLarge);
    }
    if bytes.len() - from - 4 < length {
        return Err(CodecError::Truncated);
    }
    let next: usize = from + 4 + length;
    let value = slice_subrange(bytes, from + 4, next);
    proof {
        assert(value@ =~= s.subrange(4, 4 + length as int));
        assert(bytes@.skip(next as int) =~= s.skip(4 + length as int));
    }
    if has_byte(value, 0) {
        return Err(CodecError::NulByte);
    }
    Ok((copy_bytes(value), next))
}

/// The arguments in the body of their field.
pub fn decode_argv(bytes: &[u8]) -> (argv: Result<Vec<Vec<u8>>, CodecError>)
    ensures
        match argv {
            Ok(values) => argv_of(bytes@) == Ok::<Seq<Seq<u8>>, CodecError>(byte_views(values@)),
            Err(error) => argv_of(bytes@) == Err::<Seq<Seq<u8>>, CodecError>(error),
        },
{
    proof {
        if bytes@.len() >= 4 {
            assert(bytes@.subrange(0, 4) =~= bytes@.take(4));
        }
    }
    let count: usize = read_u32(bytes, 0)?;
    if count > MAX_ARGV {
        return Err(CodecError::TooManyArguments);
    }
    let mut values: Vec<Vec<u8>> = Vec::new();
    let mut at: usize = 4;
    let mut done: usize = 0;
    proof {
        assert(byte_views(values@) =~= Seq::<Seq<u8>>::empty());
    }
    while done < count
        invariant
            done <= count,
            at <= bytes@.len(),
            take_leaves(bytes@.skip(4), count as nat, Seq::empty()) == take_leaves(
                bytes@.skip(at as int),
                (count - done) as nat,
                byte_views(values@),
            ),
            bytes@.len() >= 4,
            count == be_value(bytes@.take(4)),
            count <= MAX_ARGV,
        decreases count - done,
    {
        let ghost before = values@;
        let (value, next) = read_leaf(bytes, at)?;
        values.push(value);
        at = next;
        done = done + 1;
        proof {
            assert(byte_views(values@) =~= byte_views(before).push(value@));
        }
    }
    if at < bytes.len() {
        return Err(CodecError::TrailingBytes);
    }
    Ok(values)
}

fn taken(entries: &Vec<(Vec<u8>, Vec<u8>)>, name: &[u8]) -> (yes: bool)
    ensures
        yes == names_entry(pair_views(entries@), name@),
{
    let ghost all = pair_views(entries@);
    let mut at: usize = 0;
    while at < entries.len()
        invariant
            at <= entries@.len(),
            all == pair_views(entries@),
            forall|i: int| 0 <= i < at ==> (#[trigger] all[i]).0 != name@,
        decreases entries.len() - at,
    {
        proof {
            assert(all[at as int] == (entries@[at as int].0@, entries@[at as int].1@));
        }
        if same_bytes(entries[at].0.as_slice(), name) {
            return true;
        }
        at = at + 1;
    }
    false
}

/// The environment in the body of its field.
pub fn decode_environment(bytes: &[u8]) -> (entries: Result<Vec<(Vec<u8>, Vec<u8>)>, CodecError>)
    ensures
        match entries {
            Ok(e) => environment_of(bytes@) == Ok::<Seq<(Seq<u8>, Seq<u8>)>, CodecError>(
                pair_views(e@),
            ),
            Err(error) => environment_of(bytes@) == Err::<Seq<(Seq<u8>, Seq<u8>)>, CodecError>(
                error,
            ),
        },
{
    proof {
        if bytes@.len() >= 4 {
            assert(bytes@.subrange(0, 4) =~= bytes@.take(4));
        }
    }
    let count: usize = read_u32(bytes, 0)?;
    if count > MAX_ENV {
        return Err(CodecError::TooManyEnvironmentEntries);
    }
    let mut entries: Vec<(Vec<u8>, Vec<u8>)> = Vec::new();
    let mut at: usize = 4;
    let mut done: usize = 0;
    proof {
        assert(pair_views(entries@) =~= Seq::<(Seq<u8>, Seq<u8>)>::empty());
    }
    while done < count
        invariant
            done <= count,
            at <= bytes@.len(),
            take_pairs(bytes@.skip(4), count as nat, Seq::empty()) == take_pairs(
                bytes@.skip(at as int),
                (count - done) as nat,
                pair_views(entries@),
            ),
            bytes@.len() >= 4,
            count == be_value(bytes@.take(4)),
            count <= MAX_ENV,
        decreases count - done,
    {
        let ghost before = entries@;
        let (name, after) = read_leaf(bytes, at)?;
        let (value, next) = read_leaf(bytes, after)?;
        if name.len() == 0 || has_byte(name.as_slice(), 0x3d) {
            return Err(CodecError::InvalidEnvironmentName);
        }
        if taken(&entries, name.as_slice()) {
            return Err(CodecError::DuplicateEnvironmentName);
        }
        entries.push((name, value));
        at = next;
        done = done + 1;
        proof {
            assert(pair_views(entries@) =~= pair_views(before).push((name@, value@)));
        }
    }
    if at < bytes.len() {
        return Err(CodecError::TrailingBytes);
    }
    Ok(entries)
}

fn decode_cwd(bytes: &[u8]) -> (cwd: Result<Vec<u8>, CodecError>)
    ensures
        match cwd {
            Ok(value) => cwd_of(bytes@) == Ok::<Seq<u8>, CodecError>(value@),
            Err(error) => cwd_of(bytes@) == Err::<Seq<u8>, CodecError>(error),
        },
{
    proof {
        assert(bytes@.skip(0) =~= bytes@);
    }
    let (value, next) = read_leaf(bytes, 0)?;
    if next < bytes.len() {
        return Err(CodecError::TrailingBytes);
    }
    Ok(value)
}

fn decode_identity(bytes: &[u8]) -> (identity: Result<ExecutableIdentity, CodecError>)
    ensures
        identity == identity_of(bytes@),
{
    if bytes.len() != 24 {
        return Err(CodecError::InvalidIdentity);
    }
    let device: u64 = read_be(slice_subrange(bytes, 0, 8));
    let inode: u64 = read_be(slice_subrange(bytes, 8, 16));
    let owner: u64 = read_be(slice_subrange(bytes, 16, 20));
    let mode: u64 = read_be(slice_subrange(bytes, 20, 24));
    Ok(ExecutableIdentity { device, inode, owner: owner as u32, mode: mode as u32 })
}

/// The slots hold the fields: slot `k` the body of the field of kind `k`.
pub open spec fn holds(slots: Seq<Option<Vec<u8>>>, fields: Map<u8, Seq<u8>>) -> bool {
    &&& slots.len() == 8
    &&& forall|k: u8|
        0 <= k < 8 ==> ((#[trigger] slots[k as int]) is Some <==> fields.contains_key(k)) && (
        slots[k as int] is Some ==> slots[k as int]->0@ == fields[k])
}

fn empty_slots() -> (slots: Vec<Option<Vec<u8>>>)
    ensures
        holds(slots@, Map::empty()),
{
    let mut slots: Vec<Option<Vec<u8>>> = Vec::new();
    let mut n: usize = 0;
    while n < 8
        invariant
            n <= 8,
            slots@.len() == n,
            forall|k: int| 0 <= k < n ==> (#[trigger] slots@[k]) is None,
        decreases 8 - n,
    {
        slots.push(None);
        n = n + 1;
    }
    slots
}

fn read_fields(bytes: &[u8], from: usize, count: usize) -> (read: Result<
    (Vec<Option<Vec<u8>>>, usize),
    CodecError,
>)
    requires
        from <= bytes@.len(),
    ensures
        match read {
            Ok((slots, next)) => next <= bytes@.len() && ({
                let all = take_fields(bytes@.skip(from as int), count as nat, 0, Map::empty());
                all is Ok && holds(slots@, all->Ok_0.0) && all->Ok_0.1 == bytes@.skip(next as int)
            }),
            Err(error) => take_fields(bytes@.skip(from as int), count as nat, 0, Map::empty())
                == Err::<(Map<u8, Seq<u8>>, Seq<u8>), CodecError>(error),
        },
{
    let mut slots = empty_slots();
    let ghost mut fields: Map<u8, Seq<u8>> = Map::empty();
    let mut at: usize = from;
    let mut previous: u8 = 0;
    let mut done: usize = 0;
    while done < count
        invariant
            done <= count,
            at <= bytes@.len(),
            holds(slots@, fields),
            take_fields(bytes@.skip(from as int), count as nat, 0, Map::empty()) == take_fields(
                bytes@.skip(at as int),
                (count - done) as nat,
                previous,
                fields,
            ),
        decreases count - done,
    {
        let ghost s = bytes@.skip(at as int);
        if at >= bytes.len() {
            return Err(CodecError::Truncated);
        }
        let kind: u8 = bytes[at];
        proof {
            assert(s[0] == kind);
            if s.len() >= 5 {
                assert(s.subrange(1, 5) =~= bytes@.subrange(at + 1, at + 5));
            }
        }
        if kind <= previous {
            return Err(CodecError::NonIncreasingFieldOrder);
        }
        let length: usize = read_u32(bytes, at + 1)?;
        if bytes.len() - at - 5 < length {
            return Err(CodecError::Truncated);
        }
        if kind > 7 {
            return Err(CodecError::UnknownField(kind));
        }
        let next: usize = at + 5 + length;
        let body = slice_subrange(bytes, at + 5, next);
        let copy = copy_bytes(body);
        proof {
            assert(body@ =~= s.subrange(5, 5 + length as int));
            assert(bytes@.skip(next as int) =~= s.skip(5 + length as int));
            fields = fields.insert(kind, body@);
        }
        slots.set(kind as usize, Some(copy));
        previous = kind;
        at = next;
        done = done + 1;
    }
    Ok((slots, at))
}

fn optional_identity(slot: &Option<Vec<u8>>) -> (identity: Result<
    Option<ExecutableIdentity>,
    CodecError,
>)
    ensures
        identity == (match slot {
            Some(body) => match identity_of(body@) {
                Ok(value) => Ok::<Option<ExecutableIdentity>, CodecError>(Some(value)),
                Err(error) => Err::<Option<ExecutableIdentity>, CodecError>(error),
            },
            None => Ok::<Option<ExecutableIdentity>, CodecError>(None),
        }),
{
    match slot {
        Some(body) => match decode_identity(body.as_slice()) {
            Ok(value) => Ok(Some(value)),
            Err(error) => Err(error),
        },
        None => Ok(None),
    }
}

fn assemble(mode: LaunchMode, flags: LaunchFlags, slots: &Vec<Option<Vec<u8>>>, fields: Ghost<
    Map<u8, Seq<u8>>,
>) -> (frame: Result<ControlFrame, CodecError>)
    requires
        holds(slots@, fields@),
    ensures
        match frame {
            Ok(f) => frame_of(mode, flags, fields@) == Ok::<Frame, CodecError>(f@),
            Err(error) => frame_of(mode, flags, fields@) == Err::<Frame, CodecError>(error),
        },
{
    proof {
        assert(slots@[1u8 as int] is Some <==> fields@.contains_key(1));
        assert(slots@[2u8 as int] is Some <==> fields@.contains_key(2));
        assert(slots@[3u8 as int] is Some <==> fields@.contains_key(3));
        assert(slots@[4u8 as int] is Some <==> fields@.contains_key(4));
        assert(slots@[5u8 as int] is Some <==> fields@.contains_key(5));
        assert(slots@[6u8 as int] is Some <==> fields@.contains_key(6));
        assert(slots@[7u8 as int] is Some <==> fields@.contains_key(7));
    }
    let argv = match &slots[1] {
        Some(body) => decode_argv(body.as_slice())?,
        None => {
            return Err(CodecError::MissingField(FIELD_ARGV));
        },
    };
    let environment = match &slots[2] {
        Some(body) => decode_environment(body.as_slice())?,
        None => {
            return Err(CodecError::MissingField(FIELD_ENV));
        },
    };
    let target_identity = match &slots[3] {
        Some(body) => decode_identity(body.as_slice())?,
        None => {
            return Err(CodecError::MissingField(FIELD_TARGET_IDENTITY));
        },
    };
    let cwd = match &slots[4] {
        Some(body) => Some(decode_cwd(body.as_slice())?),
        None => None,
    };
    let project_root_identity = optional_identity(&slots[5])?;
    let agent_log_identity = optional_identity(&slots[6])?;
    let pueue_config_identity = optional_identity(&slots[7])?;
    let frame = ControlFrame {
        mode,
        flags,
        argv,
        environment,
        cwd,
        target_identity,
        project_root_identity,
        agent_log_identity,
        pueue_config_identity,
    };
    validate_frame_shape(&frame)?;
    Ok(frame)
}

/// Reads a frame from its bytes; an error where they are not the bytes of a
/// well-shaped frame.
pub fn decode_control_frame(bytes: &[u8]) -> (frame: Result<ControlFrame, CodecError>)
    ensures
        match frame {
            Ok(f) => decoded(bytes@) == Ok::<Frame, CodecError>(f@),
            Err(error) => decoded(bytes@) == Err::<Frame, CodecError>(error),
        },
{
    if bytes.len() < HEADER_SIZE {
        return Err(CodecError::Truncated);
    }
    proof {
        assert(bytes@.take(4).len() == 4);
        assert(bytes@.take(4)[0] == bytes@[0]);
        assert(bytes@.take(4)[1] == bytes@[1]);
        assert(bytes@.take(4)[2] == bytes@[2]);
        assert(bytes@.take(4)[3] == bytes@[3]);
    }
    if bytes[0] != 0x50 || bytes[1] != 0x41 || bytes[2] != 0x45 || bytes[3] != 0x58 {
        return Err(CodecError::InvalidMagic);
    }
    proof {
        assert(bytes@.take(4) =~= seq![0x50u8, 0x41u8, 0x45u8, 0x58u8]);
    }
    if bytes[4] != 1 {
        return Err(CodecError::UnsupportedVersion);
    }
    let mode = LaunchMode::try_from(bytes[5])?;
    let raw_flags: u64 = read_be(slice_subrange(bytes, 6, 8));
    proof {
        lemma_bytes_of_value(bytes@.subrange(6, 8));
        lemma_capacities();
    }
    let flags = LaunchFlags::from_bits(raw_flags as u16)?;
    let length: usize = read_u32(bytes, 8)?;
    if length > MAX_FRAME_SIZE - HEADER_SIZE {
        return Err(CodecError::FrameTooLarge);
    }
    if bytes.len() < HEADER_SIZE + length {
        return Err(CodecError::Truncated);
    }
    if bytes.len() > HEADER_SIZE + length {
        return Err(CodecError::TrailingBytes);
    }
    let ghost body = bytes@.skip(12);
    proof {
        if body.len() >= 4 {
            assert(bytes@.subrange(12, 16) =~= body.take(4));
            assert(body.skip(4) =~= bytes@.skip(16));
        }
    }
    let count: usize = read_u32(bytes, HEADER_SIZE)?;
    if count > 7 {
        return Err(CodecError::TooManyFields);
    }
    let (slots, next) = read_fields(bytes, 16, count)?;
    if next < bytes.len() {
        return Err(CodecError::TrailingBytes);
    }
    let ghost fields = take_fields(body.skip(4), count as nat, 0, Map::empty())->Ok_0.0;
    assemble(mode, flags, &slots, Ghost(fields))
}

// ---------------------------------------------------------------------------
// Reading and writing are inverse to each other
// ---------------------------------------------------------------------------
proof fn lemma_take_leaf_of_leaf(value: Seq<u8>, rest: Seq<u8>)
    requires
        leaf_error(value) is None,
    ensures
        take_leaf(leaf(value) + rest) == Ok::<(Seq<u8>, Seq<u8>), CodecError>((value, rest)),
{
    let s = leaf(value) + rest;
    lemma_be_bytes_len(value.len(), 4);
    lemma_capacities();
    lemma_value_of_bytes(value.len(), 4);
    assert(s.take(4) =~= be_bytes(value.len(), 4));
    assert(s.subrange(4, 4 + value.len() as int) =~= value);
    assert(s.skip(4 + value.len() as int) =~= rest);
}

proof fn lemma_leaf_of_take_leaf(s: Seq<u8>)
    requires
        take_leaf(s) is Ok,
    ensures
        ({
            let (value, rest) = take_leaf(s)->Ok_0;
            s == leaf(value) + rest && leaf_error(value) is None
        }),
{
    let (value, rest) = take_leaf(s)->Ok_0;
    lemma_bytes_of_value(s.take(4));
    assert(s =~= s.take(4) + value + rest);
    assert(s =~= leaf(value) + rest);
}

proof fn lemma_take_leaves_of_leaves(values: Seq<Seq<u8>>, rest: Seq<u8>, read: Seq<Seq<u8>>)
    requires
        forall|i: int| 0 <= i < values.len() ==> leaf_error(#[trigger] values[i]) is None,
    ensures
        take_leaves(leaves(values) + rest, values.len(), read) == Ok::<
            (Seq<Seq<u8>>, Seq<u8>),
            CodecError,
        >((read + values, rest)),
    decreases values.len(),
{
    if values.len() == 0 {
        assert(leaves(values) + rest =~= rest);
        assert(read + values =~= read);
    } else {
        let tail = values.drop_first();
        assert(leaves(values) + rest =~= leaf(values[0]) + (leaves(tail) + rest));
        lemma_take_leaf_of_leaf(values[0], leaves(tail) + rest);
        assert forall|i: int| 0 <= i < tail.len() implies leaf_error(#[trigger] tail[i]) is None by {
            assert(tail[i] == values[i + 1]);
        }
        lemma_take_leaves_of_leaves(tail, rest, read.push(values[0]));
        assert(read.push(values[0]) + tail =~= read + values);
    }
}

proof fn lemma_leaves_of_take_leaves(s: Seq<u8>, count: nat, read: Seq<Seq<u8>>)
    requires
        take_leaves(s, count, read) is Ok,
    ensures
        ({
            let (all, rest) = take_leaves(s, count, read)->Ok_0;
            &&& all.len() == read.len() + count
            &&& all.take(read.len() as int) == read
            &&& s == leaves(all.skip(read.len() as int)) + rest
        }),
    decreases count,
{
    let (all, rest) = take_leaves(s, count, read)->Ok_0;
    if count == 0 {
        assert(all.take(read.len() as int) =~= read);
        assert(all.skip(read.len() as int) =~= Seq::<Seq<u8>>::empty());
        assert(Seq::<u8>::empty() + rest =~= s);
    } else {
        let (value, after) = take_leaf(s)->Ok_0;
        lemma_leaf_of_take_leaf(s);
        lemma_leaves_of_take_leaves(after, (count - 1) as nat, read.push(value));
        let n = read.len() as int;
        assert(all.take(n) =~= all.take(n + 1).take(n));
        assert(read.push(value).take(n) =~= read);
        assert(all[n] == all.take(n + 1)[n]);
        assert(all.skip(n).drop_first() =~= all.skip(n + 1));
        assert(all.skip(n)[0] == value);
        assert(leaf(value) + (leaves(all.skip(n + 1)) + rest) =~= leaves(all.skip(n)) + rest);
    }
}

proof fn lemma_take_pairs_of_pairs(
    entries: Seq<(Seq<u8>, Seq<u8>)>,
    n: int,
    rest: Seq<u8>,
)
    requires
        environment_error(entries) is None,
        0 <= n <= entries.len(),
    ensures
        take_pairs(pairs(entries.skip(n)) + rest, (entries.len() - n) as nat, entries.take(n))
            == Ok::<(Seq<(Seq<u8>, Seq<u8>)>, Seq<u8>), CodecError>((entries, rest)),
    decreases entries.len() - n,
{
    if n == entries.len() {
        assert(entries.skip(n) =~= Seq::<(Seq<u8>, Seq<u8>)>::empty());
        assert(pairs(entries.skip(n)) + rest =~= rest);
        assert(entries.take(n) =~= entries);
    } else {
        let (name, value) = entries[n];
        crate::frame::lemma_entries_are_sound(entries, n);
        let tail = pairs(entries.skip(n + 1)) + rest;
        assert(entries.skip(n).drop_first() =~= entries.skip(n + 1));
        assert(entries.skip(n)[0] == entries[n]);
        assert(pairs(entries.skip(n)) + rest =~= leaf(name) + (leaf(value) + tail));
        lemma_take_leaf_of_leaf(name, leaf(value) + tail);
        lemma_take_leaf_of_leaf(value, tail);
        lemma_take_pairs_of_pairs(entries, n + 1, rest);
        assert(entries.take(n).push(entries[n]) =~= entries.take(n + 1));
    }
}

proof fn lemma_pairs_of_take_pairs(s: Seq<u8>, count: nat, read: Seq<(Seq<u8>, Seq<u8>)>)
    requires
        take_pairs(s, count, read) is Ok,
    ensures
        ({
            let (all, rest) = take_pairs(s, count, read)->Ok_0;
            &&& all.len() == read.len() + count
            &&& all.take(read.len() as int) == read
            &&& s == pairs(all.skip(read.len() as int)) + rest
        }),
    decreases count,
{
    let (all, rest) = take_pairs(s, count, read)->Ok_0;
    if count == 0 {
        assert(all.take(read.len() as int) =~= read);
        assert(all.skip(read.len() as int) =~= Seq::<(Seq<u8>, Seq<u8>)>::empty());
        assert(Seq::<u8>::empty() + rest =~= s);
    } else {
        let (name, after) = take_leaf(s)->Ok_0;
        let (value, later) = take_leaf(after)->Ok_0;
        lemma_leaf_of_take_leaf(s);
        lemma_leaf_of_take_leaf(after);
        lemma_pairs_of_take_pairs(later, (count - 1) as nat, read.push((name, value)));
        let n = read.len() as int;
        assert(all.take(n) =~= all.take(n + 1).take(n));
        assert(read.push((name, value)).take(n) =~= read);
        assert(all[n] == all.take(n + 1)[n]);
        assert(all.skip(n).drop_first() =~= all.skip(n + 1));
        assert(all.skip(n)[0] == (name, value));
        assert(leaf(name) + (leaf(value) + (pairs(all.skip(n + 1)) + rest)) =~= pairs(all.skip(n))
            + rest);
    }
}

proof fn lemma_bodies_read_back(frame: Frame)
    requires
        shape_error(frame) is None,
    ensures
        argv_of(argv_body(frame.argv)) == Ok::<Seq<Seq<u8>>, CodecError>(frame.argv),
        environment_of(environment_body(frame.environment)) == Ok::<
            Seq<(Seq<u8>, Seq<u8>)>,
            CodecError,
        >(frame.environment),
        frame.cwd matches Some(cwd) ==> cwd_of(leaf(cwd)) == Ok::<Seq<u8>, CodecError>(cwd),
{
    lemma_capacities();
    let none = Seq::<u8>::empty();
    let body = argv_body(frame.argv);
    lemma_be_bytes_len(frame.argv.len(), 4);
    lemma_value_of_bytes(frame.argv.len(), 4);
    assert(body.take(4) =~= be_bytes(frame.argv.len(), 4));
    assert(body.skip(4) =~= leaves(frame.argv) + none);
    assert forall|i: int| 0 <= i < frame.argv.len() implies leaf_error(
        #[trigger] frame.argv[i],
    ) is None by {
        crate::frame::lemma_arguments_are_leaves(frame.argv, i);
    }
    lemma_take_leaves_of_leaves(frame.argv, none, Seq::empty());
    assert(Seq::<Seq<u8>>::empty() + frame.argv =~= frame.argv);
    let entries = frame.environment;
    let block = environment_body(entries);
    lemma_be_bytes_len(entries.len(), 4);
    lemma_value_of_bytes(entries.len(), 4);
    assert(block.take(4) =~= be_bytes(entries.len(), 4));
    assert(block.skip(4) =~= pairs(entries.skip(0)) + none) by {
        assert(entries.skip(0) =~= entries);
    }
    assert(entries.take(0) =~= Seq::<(Seq<u8>, Seq<u8>)>::empty());
    lemma_take_pairs_of_pairs(entries, 0, none);
    if let Some(cwd) = frame.cwd {
        lemma_take_leaf_of_leaf(cwd, none);
        assert(leaf(cwd) + none =~= leaf(cwd));
    }
}

proof fn lemma_identity_reads_back(identity: ExecutableIdentity)
    ensures
        identity_body(identity).len() == 24,
        identity_of(identity_body(identity)) == Ok::<ExecutableIdentity, CodecError>(identity),
{
    let body = identity_body(identity);
    lemma_capacities();
    lemma_be_bytes_len(identity.device as nat, 8);
    lemma_be_bytes_len(identity.inode as nat, 8);
    lemma_be_bytes_len(identity.owner as nat, 4);
    lemma_be_bytes_len(identity.mode as nat, 4);
    lemma_value_of_bytes(identity.device as nat, 8);
    lemma_value_of_bytes(identity.inode as nat, 8);
    lemma_value_of_bytes(identity.owner as nat, 4);
    lemma_value_of_bytes(identity.mode as nat, 4);
    assert(body.subrange(0, 8) =~= be_bytes(identity.device as nat, 8));
    assert(body.subrange(8, 16) =~= be_bytes(identity.inode as nat, 8));
    assert(body.subrange(16, 20) =~= be_bytes(identity.owner as nat, 4));
    assert(body.subrange(20, 24) =~= be_bytes(identity.mode as nat, 4));
}

proof fn lemma_identity_of_body(body: Seq<u8>)
    requires
        identity_of(body) is Ok,
    ensures
        identity_body(identity_of(body)->Ok_0) == body,
{
    lemma_capacities();
    lemma_bytes_of_value(body.subrange(0, 8));
    lemma_bytes_of_value(body.subrange(8, 16));
    lemma_bytes_of_value(body.subrange(16, 20));
    lemma_bytes_of_value(body.subrange(20, 24));
    assert(identity_body(identity_of(body)->Ok_0) =~= body);
}

/// The fields up to the given kind.
pub open spec fn upto(fields: Map<u8, Seq<u8>>, kind: int) -> Map<u8, Seq<u8>> {
    fields.restrict(Set::new(|k: u8| k <= kind))
}

proof fn lemma_take_fields_of_fields(fields: Map<u8, Seq<u8>>, kind: int, rest: Seq<u8>)
    requires
        1 <= kind <= 8,
        forall|k: u8| fields.contains_key(k) ==> 1 <= k <= 7,
        forall|k: u8| #[trigger] fields.contains_key(k) ==> fields[k].len() < 0x1_0000_0000,
    ensures
        forall|previous: u8|
            previous < kind ==> #[trigger] take_fields(
                fields_from(fields, kind) + rest,
                count_from(fields, kind),
                previous,
                upto(fields, kind - 1),
            ) == Ok::<(Map<u8, Seq<u8>>, Seq<u8>), CodecError>((fields, rest)),
    decreases 8 - kind,
{
    if kind == 8 {
        assert(fields_from(fields, 8) + rest =~= rest);
        assert(upto(fields, 7) =~= fields);
    } else {
        lemma_take_fields_of_fields(fields, kind + 1, rest);
        let k = kind as u8;
        if fields.contains_key(k) {
            let body = fields[k];
            let tail = fields_from(fields, kind + 1) + rest;
            let s = fields_from(fields, kind) + rest;
            assert(s =~= field(k, body) + tail);
            lemma_be_bytes_len(body.len(), 4);
            lemma_capacities();
            lemma_value_of_bytes(body.len(), 4);
            assert(s[0] == k);
            assert(s.subrange(1, 5) =~= be_bytes(body.len(), 4));
            assert(s.subrange(5, 5 + body.len() as int) =~= body);
            assert(s.skip(5 + body.len() as int) =~= tail);
            assert(upto(fields, kind - 1).insert(k, body) =~= upto(fields, kind));
            assert(take_fields(tail, count_from(fields, kind + 1), k, upto(fields, kind)) == Ok::<
                (Map<u8, Seq<u8>>, Seq<u8>),
                CodecError,
            >((fields, rest)));
        } else {
            assert(upto(fields, kind - 1) =~= upto(fields, kind));
        }
    }
}

/// Kinds that are not there take no bytes.
proof fn lemma_skip_absent(fields: Map<u8, Seq<u8>>, low: int, high: int)
    requires
        1 <= low <= high <= 8,
        forall|k: u8| low <= k < high ==> !fields.contains_key(k),
    ensures
        fields_from(fields, low) == fields_from(fields, high),
        count_from(fields, low) == count_from(fields, high),
    decreases high - low,
{
    if low < high {
        lemma_skip_absent(fields, low + 1, high);
        assert(!fields.contains_key(low as u8));
    }
}

proof fn lemma_fields_of_take_fields(
    s: Seq<u8>,
    count: nat,
    previous: u8,
    read: Map<u8, Seq<u8>>,
)
    requires
        take_fields(s, count, previous, read) is Ok,
        previous <= 7,
        forall|k: u8| read.contains_key(k) ==> 1 <= k <= previous,
    ensures
        ({
            let (all, rest) = take_fields(s, count, previous, read)->Ok_0;
            &&& forall|k: u8| all.contains_key(k) ==> 1 <= k <= 7
            &&& upto(all, previous as int) == read
            &&& count == count_from(all, previous + 1)
            &&& s == fields_from(all, previous + 1) + rest
        }),
    decreases count,
{
    let (all, rest) = take_fields(s, count, previous, read)->Ok_0;
    if count == 0 {
        assert(upto(all, previous as int) =~= read);
        lemma_skip_absent(all, previous + 1, 8);
        assert(fields_from(all, 8) + rest =~= s);
    } else {
        let k = s[0];
        let n = be_value(s.subrange(1, 5));
        let body = s.subrange(5, 5 + n as int);
        let tail = s.skip(5 + n as int);
        let more = read.insert(k, body);
        lemma_fields_of_take_fields(tail, (count - 1) as nat, k, more);
        assert(upto(all, k as int).contains_key(k));
        assert(all.contains_key(k));
        assert(all[k] == upto(all, k as int)[k]);
        assert(all[k] == body);
        assert forall|j: u8| previous + 1 <= j < k implies !all.contains_key(j) by {
            if all.contains_key(j) {
                assert(upto(all, k as int).contains_key(j));
                assert(more.contains_key(j));
            }
        }
        lemma_skip_absent(all, previous + 1, k as int);
        assert(fields_from(all, k as int) == field(k, body) + fields_from(all, k + 1));
        lemma_bytes_of_value(s.subrange(1, 5));
        assert(s =~= seq![k] + s.subrange(1, 5) + body + tail);
        assert(s =~= field(k, body) + tail);
        assert(field(k, body) + (fields_from(all, k + 1) + rest) =~= fields_from(all, k as int)
            + rest);
        assert forall|j: u8| upto(all, previous as int).contains_key(j) == read.contains_key(j) by {
            if j <= previous {
                assert(upto(all, k as int).contains_key(j) == more.contains_key(j));
            }
        }
        assert forall|j: u8| #[trigger] read.contains_key(j) implies upto(all, previous as int)[j]
            == read[j] by {
            assert(upto(all, previous as int).contains_key(j));
            assert(upto(all, k as int).contains_key(j));
            assert(upto(all, k as int)[j] == more[j]);
        }
        assert(upto(all, previous as int) =~= read);
    }
}

proof fn lemma_frame_of_field_map(frame: Frame)
    requires
        shape_error(frame) is None,
    ensures
        frame_of(frame.mode, frame.flags, field_map(frame)) == Ok::<Frame, CodecError>(frame),
        forall|k: u8| field_map(frame).contains_key(k) ==> 1 <= k <= 7,
        forall|k: u8| #[trigger] field_map(frame).contains_key(k) ==> field_map(frame)[k].len()
            < 0x1_0000_0000,
{
    lemma_bodies_read_back(frame);
    lemma_identity_reads_back(frame.target_identity);
    if let Some(identity) = frame.project_root_identity {
        lemma_identity_reads_back(identity);
    }
    if let Some(identity) = frame.agent_log_identity {
        lemma_identity_reads_back(identity);
    }
    if let Some(identity) = frame.pueue_config_identity {
        lemma_identity_reads_back(identity);
    }
    crate::frame::lemma_bodies_are_short(frame);
}

/// What is written is read back: the bytes of a well-shaped frame that fits
/// into the size limit stand for that frame.
pub proof fn lemma_written_frame_reads_back(frame: Frame)
    requires
        shape_error(frame) is None,
        encoded(frame).len() <= MAX_FRAME_SIZE,
    ensures
        decoded(encoded(frame)) == Ok::<Frame, CodecError>(frame),
{
    let fields = field_map(frame);
    let body = payload(fields);
    let bytes = encoded(frame);
    lemma_capacities();
    lemma_be_bytes_len(frame.flags.bits as nat, 2);
    lemma_value_of_bytes(frame.flags.bits as nat, 2);
    lemma_be_bytes_len(body.len(), 4);
    lemma_value_of_bytes(body.len(), 4);
    assert(bytes.take(4) =~= seq![0x50u8, 0x41u8, 0x45u8, 0x58u8]);
    assert(bytes[4] == 1);
    assert(bytes[5] == frame.mode.spec_code());
    assert(bytes.subrange(6, 8) =~= be_bytes(frame.flags.bits as nat, 2));
    assert(bytes.subrange(8, 12) =~= be_bytes(body.len(), 4));
    assert(bytes.skip(12) =~= body);
    lemma_count_is_small(fields);
    lemma_be_bytes_len(count_from(fields, 1), 4);
    lemma_value_of_bytes(count_from(fields, 1), 4);
    assert(body.take(4) =~= be_bytes(count_from(fields, 1), 4));
    assert(body.skip(4) =~= fields_from(fields, 1) + Seq::<u8>::empty());
    lemma_frame_of_field_map(frame);
    lemma_take_fields_of_fields(fields, 1, Seq::empty());
    assert(upto(fields, 0) =~= Map::<u8, Seq<u8>>::empty());
    assert(take_fields(body.skip(4), count_from(fields, 1), 0u8, upto(fields, 0)) == Ok::<
        (Map<u8, Seq<u8>>, Seq<u8>),
        CodecError,
    >((fields, Seq::empty())));
}

proof fn lemma_count_is_small(fields: Map<u8, Seq<u8>>)
    ensures
        count_from(fields, 1) <= 7,
{
    reveal_with_fuel(count_from, 9);
}

proof fn lemma_body_of_argv(body: Seq<u8>)
    requires
        argv_of(body) is Ok,
    ensures
        argv_body(argv_of(body)->Ok_0) == body,
{
    let argv = argv_of(body)->Ok_0;
    let count = be_value(body.take(4));
    lemma_leaves_of_take_leaves(body.skip(4), count, Seq::empty());
    let (all, rest) = take_leaves(body.skip(4), count, Seq::empty())->Ok_0;
    assert(all.skip(0) =~= all);
    lemma_bytes_of_value(body.take(4));
    assert(rest =~= Seq::<u8>::empty());
    assert(body.skip(4) =~= leaves(argv));
    assert(body =~= body.take(4) + body.skip(4));
}

proof fn lemma_body_of_environment(body: Seq<u8>)
    requires
        environment_of(body) is Ok,
    ensures
        environment_body(environment_of(body)->Ok_0) == body,
{
    let entries = environment_of(body)->Ok_0;
    let count = be_value(body.take(4));
    lemma_pairs_of_take_pairs(body.skip(4), count, Seq::empty());
    let (all, rest) = take_pairs(body.skip(4), count, Seq::empty())->Ok_0;
    assert(all.skip(0) =~= all);
    lemma_bytes_of_value(body.take(4));
    assert(rest =~= Seq::<u8>::empty());
    assert(body.skip(4) =~= pairs(entries));
    assert(body =~= body.take(4) + body.skip(4));
}

proof fn lemma_body_of_cwd(body: Seq<u8>)
    requires
        cwd_of(body) is Ok,
    ensures
        leaf(cwd_of(body)->Ok_0) == body,
{
    lemma_leaf_of_take_leaf(body);
    let (value, rest) = take_leaf(body)->Ok_0;
    assert(leaf(value) + rest =~= leaf(value));
}

proof fn lemma_field_map_of_frame(
    mode: LaunchMode,
    flags: LaunchFlags,
    fields: Map<u8, Seq<u8>>,
)
    requires
        frame_of(mode, flags, fields) is Ok,
        forall|k: u8| fields.contains_key(k) ==> 1 <= k <= 7,
    ensures
        field_map(frame_of(mode, flags, fields)->Ok_0) == fields,
{
    let frame = frame_of(mode, flags, fields)->Ok_0;
    lemma_body_of_argv(fields[FIELD_ARGV]);
    lemma_body_of_environment(fields[FIELD_ENV]);
    lemma_identity_of_body(fields[FIELD_TARGET_IDENTITY]);
    if fields.contains_key(FIELD_CWD) {
        lemma_body_of_cwd(fields[FIELD_CWD]);
    }
    if fields.contains_key(FIELD_PROJECT_ROOT_IDENTITY) {
        lemma_identity_of_body(fields[FIELD_PROJECT_ROOT_IDENTITY]);
    }
    if fields.contains_key(FIELD_AGENT_LOG_IDENTITY) {
        lemma_identity_of_body(fields[FIELD_AGENT_LOG_IDENTITY]);
    }
    if fields.contains_key(FIELD_PUEUE_CONFIG_IDENTITY) {
        lemma_identity_of_body(fields[FIELD_PUEUE_CONFIG_IDENTITY]);
    }
    assert forall|k: u8| field_map(frame).contains_key(k) == fields.contains_key(k) by {
        if fields.contains_key(k) {
            assert(k == 1 || k == 2 || k == 3 || k == 4 || k == 5 || k == 6 || k == 7);
        }
    }
    assert(field_map(frame) =~= fields);
}

/// A frame has one form only: bytes that can be read are the bytes of the frame
/// that they are read as, and that frame is well shaped.
pub proof fn lemma_read_frame_has_one_form(bytes: Seq<u8>)
    requires
        decoded(bytes) is Ok,
    ensures
        encoded(decoded(bytes)->Ok_0) == bytes,
        shape_error(decoded(bytes)->Ok_0) is None,
{
    let frame = decoded(bytes)->Ok_0;
    let body = bytes.skip(12);
    let count = be_value(body.take(4));
    let (fields, rest) = take_fields(body.skip(4), count, 0, Map::empty())->Ok_0;
    lemma_fields_of_take_fields(body.skip(4), count, 0, Map::empty());
    lemma_field_map_of_frame(frame.mode, frame.flags, fields);
    lemma_bytes_of_value(body.take(4));
    assert(rest =~= Seq::<u8>::empty());
    assert(body =~= body.take(4) + body.skip(4));
    assert(body =~= payload(fields));
    lemma_capacities();
    lemma_bytes_of_value(bytes.subrange(6, 8));
    lemma_bytes_of_value(bytes.subrange(8, 12));
    assert(header(frame.mode, frame.flags, body.len()) =~= bytes.take(12)) by {
        let top = bytes.take(12);
        assert(top =~= bytes.take(4) + seq![bytes[4], bytes[5]] + bytes.subrange(6, 8)
            + bytes.subrange(8, 12));
        assert(seq![0x50u8, 0x41u8, 0x45u8, 0x58u8, 1u8, frame.mode.spec_code()] =~= bytes.take(4)
            + seq![bytes[4], bytes[5]]);
    }
    assert(bytes =~= bytes.take(12) + body);
}

/// Two well-shaped frames with the same bytes are the same frame.
pub proof fn lemma_bytes_tell_frames_apart(a: Frame, b: Frame)
    requires
        shape_error(a) is None,
        shape_error(b) is None,
        encoded(a).len() <= MAX_FRAME_SIZE,
        encoded(a) == encoded(b),
    ensures
        a == b,
{
    lemma_written_frame_reads_back(a);
    lemma_written_frame_reads_back(b);
}

impl ControlFrame {
    /// The bytes of the frame.
    pub fn encode(&self) -> (bytes: Result<Vec<u8>, CodecError>)
        ensures
            match bytes {
                Ok(b) => shape_error(self@) is None && b@ == encoded(self@) && b@.len()
                    <= MAX_FRAME_SIZE && decoded(b@) == Ok::<Frame, CodecError>(self@),
                Err(error) => shape_error(self@) == Some(error) || (shape_error(self@) is None
                    && error == CodecError::FrameTooLarge && encoded(self@).len()
                    > MAX_FRAME_SIZE),
            },
    {
        let bytes = crate::frame::encode_control_frame(self)?;
        proof {
            lemma_written_frame_reads_back(self@);
        }
        Ok(bytes)
    }

    /// The frame that bytes stand for.
    pub fn decode(bytes: &[u8]) -> (frame: Result<Self, CodecError>)
        ensures
            match frame {
                Ok(f) => decoded(bytes@) == Ok::<Frame, CodecError>(f@) && encoded(f@) == bytes@,
                Err(error) => decoded(bytes@) == Err::<Frame, CodecError>(error),
            },
    {
        let frame = decode_control_frame(bytes)?;
        proof {
            lemma_read_frame_has_one_form(bytes@);
        }
        Ok(frame)
    }
}

} // verus!
