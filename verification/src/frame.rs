//! The control frame: what it holds, which frames are well shaped, its bytes,
//! and the two directions between them.

use vstd::prelude::*;
use vstd::slice::*;

use crate::execution_policy::ExecutableIdentity;
use crate::process::{
    CodecError, LaunchFlags, LaunchMode, FIELD_AGENT_LOG_IDENTITY, FIELD_ARGV, FIELD_CWD,
    FIELD_ENV, FIELD_PROJECT_ROOT_IDENTITY, FIELD_PUEUE_CONFIG_IDENTITY, FIELD_TARGET_IDENTITY,
    FLAG_AGENT_LOG, FLAG_PROCESS_GROUP, FLAG_PROJECT_ROOT, FLAG_PUEUE_CONFIG, HEADER_SIZE,
    KNOWN_FLAGS, MAX_ARGV, MAX_ENV, MAX_FIELD_SIZE, MAX_FRAME_SIZE,
};
use crate::wire::{
    be_bytes, be_value, has_byte, lemma_be_bytes_len, push_be, push_bytes, same_bytes,
};

verus! {

/// What a control frame says, as mathematics.
#[verifier::ext_equal]
pub struct Frame {
    pub mode: LaunchMode,
    pub flags: LaunchFlags,
    pub argv: Seq<Seq<u8>>,
    pub environment: Seq<(Seq<u8>, Seq<u8>)>,
    pub cwd: Option<Seq<u8>>,
    pub target_identity: ExecutableIdentity,
    pub project_root_identity: Option<ExecutableIdentity>,
    pub agent_log_identity: Option<ExecutableIdentity>,
    pub pueue_config_identity: Option<ExecutableIdentity>,
}

/// What the supervisor tells the launch helper. Arguments, environment and
/// working directory are bytes as the operating system has them.
#[derive(Clone, PartialEq, Eq)]
pub struct ControlFrame {
    pub mode: LaunchMode,
    pub flags: LaunchFlags,
    pub argv: Vec<Vec<u8>>,
    pub environment: Vec<(Vec<u8>, Vec<u8>)>,
    pub cwd: Option<Vec<u8>>,
    pub target_identity: ExecutableIdentity,
    pub project_root_identity: Option<ExecutableIdentity>,
    pub agent_log_identity: Option<ExecutableIdentity>,
    pub pueue_config_identity: Option<ExecutableIdentity>,
}

pub open spec fn byte_views(items: Seq<Vec<u8>>) -> Seq<Seq<u8>> {
    Seq::new(items.len(), |i: int| items[i]@)
}

pub open spec fn pair_views(items: Seq<(Vec<u8>, Vec<u8>)>) -> Seq<(Seq<u8>, Seq<u8>)> {
    Seq::new(items.len(), |i: int| (items[i].0@, items[i].1@))
}

impl View for ControlFrame {
    type V = Frame;

    open spec fn view(&self) -> Frame {
        Frame {
            mode: self.mode,
            flags: self.flags,
            argv: byte_views(self.argv@),
            environment: pair_views(self.environment@),
            cwd: match self.cwd {
                Some(cwd) => Some(cwd@),
                None => None,
            },
            target_identity: self.target_identity,
            project_root_identity: self.project_root_identity,
            agent_log_identity: self.agent_log_identity,
            pueue_config_identity: self.pueue_config_identity,
        }
    }
}

// ---------------------------------------------------------------------------
// Shape
// ---------------------------------------------------------------------------
/// What is wrong with a piece of text for the operating system, if anything.
pub open spec fn leaf_error(value: Seq<u8>) -> Option<CodecError> {
    if value.len() > MAX_FIELD_SIZE {
        Some(CodecError::FieldTooLarge)
    } else if value.contains(0u8) {
        Some(CodecError::NulByte)
    } else {
        None
    }
}

pub open spec fn is_environment_name(name: Seq<u8>) -> bool {
    name.len() > 0 && !name.contains(0x3du8)
}

/// `name` is the name of one of the entries.
pub open spec fn names_entry(entries: Seq<(Seq<u8>, Seq<u8>)>, name: Seq<u8>) -> bool {
    exists|i: int| 0 <= i < entries.len() && (#[trigger] entries[i]).0 == name
}

/// What is wrong with an entry of the environment, if anything.
pub open spec fn entry_error(
    earlier: Seq<(Seq<u8>, Seq<u8>)>,
    entry: (Seq<u8>, Seq<u8>),
) -> Option<CodecError> {
    if leaf_error(entry.0) is Some {
        leaf_error(entry.0)
    } else if leaf_error(entry.1) is Some {
        leaf_error(entry.1)
    } else if !is_environment_name(entry.0) {
        Some(CodecError::InvalidEnvironmentName)
    } else if names_entry(earlier, entry.0) {
        Some(CodecError::DuplicateEnvironmentName)
    } else {
        None
    }
}

/// The first thing that is wrong with an environment, if anything.
pub open spec fn environment_error(entries: Seq<(Seq<u8>, Seq<u8>)>) -> Option<CodecError>
    decreases entries.len(),
{
    if entries.len() == 0 {
        None
    } else if environment_error(entries.drop_last()) is Some {
        environment_error(entries.drop_last())
    } else {
        entry_error(entries.drop_last(), entries.last())
    }
}

/// The first thing that is wrong with a list of arguments, if anything.
pub open spec fn arguments_error(argv: Seq<Seq<u8>>) -> Option<CodecError>
    decreases argv.len(),
{
    if argv.len() == 0 {
        None
    } else if arguments_error(argv.drop_last()) is Some {
        arguments_error(argv.drop_last())
    } else {
        leaf_error(argv.last())
    }
}

/// What is wrong with the descriptors that a mode comes with, if anything.
pub open spec fn matrix_error(frame: Frame) -> Option<CodecError> {
    let root = frame.flags.has(FLAG_PROJECT_ROOT);
    let log = frame.flags.has(FLAG_AGENT_LOG);
    let config = frame.flags.has(FLAG_PUEUE_CONFIG);
    match frame.mode {
        LaunchMode::Agent => if !root {
            Some(CodecError::MissingField(FIELD_PROJECT_ROOT_IDENTITY))
        } else if !log {
            Some(CodecError::MissingField(FIELD_AGENT_LOG_IDENTITY))
        } else if config {
            Some(CodecError::UnexpectedField(FIELD_PUEUE_CONFIG_IDENTITY))
        } else {
            None
        },
        LaunchMode::Pueue => if !config {
            Some(CodecError::MissingField(FIELD_PUEUE_CONFIG_IDENTITY))
        } else if root {
            Some(CodecError::UnexpectedField(FIELD_PROJECT_ROOT_IDENTITY))
        } else if log {
            Some(CodecError::UnexpectedField(FIELD_AGENT_LOG_IDENTITY))
        } else {
            None
        },
    }
}

/// A flag and the identity that belongs to it come together or not at all.
pub open spec fn presence_error(flag: bool, present: bool, field: u8) -> Option<CodecError> {
    if flag && !present {
        Some(CodecError::MissingField(field))
    } else if !flag && present {
        Some(CodecError::UnexpectedField(field))
    } else {
        None
    }
}

/// The first thing that is wrong with a frame, if anything.
pub open spec fn shape_error(frame: Frame) -> Option<CodecError> {
    let root = presence_error(
        frame.flags.has(FLAG_PROJECT_ROOT),
        frame.project_root_identity is Some,
        FIELD_PROJECT_ROOT_IDENTITY,
    );
    let log = presence_error(
        frame.flags.has(FLAG_AGENT_LOG),
        frame.agent_log_identity is Some,
        FIELD_AGENT_LOG_IDENTITY,
    );
    let config = presence_error(
        frame.flags.has(FLAG_PUEUE_CONFIG),
        frame.pueue_config_identity is Some,
        FIELD_PUEUE_CONFIG_IDENTITY,
    );
    if !frame.flags.is_known() {
        Some(CodecError::UnknownFlags)
    } else if frame.argv.len() > MAX_ARGV {
        Some(CodecError::TooManyArguments)
    } else if frame.environment.len() > MAX_ENV {
        Some(CodecError::TooManyEnvironmentEntries)
    } else if !frame.flags.has(FLAG_PROCESS_GROUP) {
        Some(CodecError::MissingProcessGroup)
    } else if matrix_error(frame) is Some {
        matrix_error(frame)
    } else if root is Some {
        root
    } else if log is Some {
        log
    } else if config is Some {
        config
    } else if environment_error(frame.environment) is Some {
        environment_error(frame.environment)
    } else if arguments_error(frame.argv) is Some {
        arguments_error(frame.argv)
    } else {
        match frame.cwd {
            Some(cwd) => leaf_error(cwd),
            None => None,
        }
    }
}

fn check_leaf(value: &[u8]) -> (checked: Result<(), CodecError>)
    ensures
        match checked {
            Ok(_) => leaf_error(value@) is None,
            Err(error) => leaf_error(value@) == Some(error),
        },
{
    if value.len() > MAX_FIELD_SIZE {
        Err(CodecError::FieldTooLarge)
    } else if has_byte(value, 0) {
        Err(CodecError::NulByte)
    } else {
        Ok(())
    }
}

fn name_taken(entries: &Vec<(Vec<u8>, Vec<u8>)>, upto: usize, name: &[u8]) -> (yes: bool)
    requires
        upto <= entries@.len(),
    ensures
        yes == names_entry(pair_views(entries@).take(upto as int), name@),
{
    let ghost all = pair_views(entries@).take(upto as int);
    let mut at: usize = 0;
    while at < upto
        invariant
            at <= upto <= entries@.len(),
            all == pair_views(entries@).take(upto as int),
            forall|i: int| 0 <= i < at ==> (#[trigger] all[i]).0 != name@,
        decreases upto - at,
    {
        proof {
            assert(all[at as int] == (entries@[at as int].0@, entries@[at as int].1@));
        }
        if same_bytes(entries[at].0.as_slice(), name) {
            return true;
        }
        at = at + 1;
    }
    false
}

fn check_environment(entries: &Vec<(Vec<u8>, Vec<u8>)>) -> (checked: Result<(), CodecError>)
    ensures
        match checked {
            Ok(_) => environment_error(pair_views(entries@)) is None,
            Err(error) => environment_error(pair_views(entries@)) == Some(error),
        },
{
    let ghost all = pair_views(entries@);
    let mut at: usize = 0;
    proof {
        assert(all.take(0) =~= Seq::<(Seq<u8>, Seq<u8>)>::empty());
    }
    while at < entries.len()
        invariant
            at <= entries@.len(),
            all == pair_views(entries@),
            environment_error(all.take(at as int)) is None,
        decreases entries.len() - at,
    {
        proof {
            assert(all.take(at + 1).drop_last() =~= all.take(at as int));
            assert(all.take(at + 1).last() == (entries@[at as int].0@, entries@[at as int].1@));
        }
        let name = entries[at].0.as_slice();
        let value = entries[at].1.as_slice();
        let mut failure: Option<CodecError> = None;
        if let Err(error) = check_leaf(name) {
            failure = Some(error);
        } else if let Err(error) = check_leaf(value) {
            failure = Some(error);
        } else if name.len() == 0 || has_byte(name, 0x3d) {
            failure = Some(CodecError::InvalidEnvironmentName);
        } else if name_taken(entries, at, name) {
            failure = Some(CodecError::DuplicateEnvironmentName);
        }
        if let Some(error) = failure {
            proof {
                lemma_environment_error_persists(all, at + 1);
            }
            return Err(error);
        }
        at = at + 1;
    }
    proof {
        assert(all.take(entries@.len() as int) =~= all);
    }
    Ok(())
}

proof fn lemma_environment_error_persists(entries: Seq<(Seq<u8>, Seq<u8>)>, n: int)
    requires
        0 <= n <= entries.len(),
        environment_error(entries.take(n)) is Some,
    ensures
        environment_error(entries) == environment_error(entries.take(n)),
    decreases entries.len() - n,
{
    if n < entries.len() {
        assert(entries.take(n + 1).drop_last() =~= entries.take(n));
        lemma_environment_error_persists(entries, n + 1);
    } else {
        assert(entries.take(n) =~= entries);
    }
}

fn check_arguments(argv: &Vec<Vec<u8>>) -> (checked: Result<(), CodecError>)
    ensures
        match checked {
            Ok(_) => arguments_error(byte_views(argv@)) is None,
            Err(error) => arguments_error(byte_views(argv@)) == Some(error),
        },
{
    let ghost all = byte_views(argv@);
    let mut at: usize = 0;
    proof {
        assert(all.take(0) =~= Seq::<Seq<u8>>::empty());
    }
    while at < argv.len()
        invariant
            at <= argv@.len(),
            all == byte_views(argv@),
            arguments_error(all.take(at as int)) is None,
        decreases argv.len() - at,
    {
        proof {
            assert(all.take(at + 1).drop_last() =~= all.take(at as int));
            assert(all.take(at + 1).last() == argv@[at as int]@);
        }
        if let Err(error) = check_leaf(argv[at].as_slice()) {
            proof {
                lemma_arguments_error_persists(all, at + 1);
            }
            return Err(error);
        }
        at = at + 1;
    }
    proof {
        assert(all.take(argv@.len() as int) =~= all);
    }
    Ok(())
}

proof fn lemma_arguments_error_persists(argv: Seq<Seq<u8>>, n: int)
    requires
        0 <= n <= argv.len(),
        arguments_error(argv.take(n)) is Some,
    ensures
        arguments_error(argv) == arguments_error(argv.take(n)),
    decreases argv.len() - n,
{
    if n < argv.len() {
        assert(argv.take(n + 1).drop_last() =~= argv.take(n));
        lemma_arguments_error_persists(argv, n + 1);
    } else {
        assert(argv.take(n) =~= argv);
    }
}

fn check_presence(flag: bool, present: bool, field: u8) -> (checked: Result<(), CodecError>)
    ensures
        match checked {
            Ok(_) => presence_error(flag, present, field) is None,
            Err(error) => presence_error(flag, present, field) == Some(error),
        },
{
    if flag && !present {
        Err(CodecError::MissingField(field))
    } else if !flag && present {
        Err(CodecError::UnexpectedField(field))
    } else {
        Ok(())
    }
}

/// Whether a frame is well shaped, and what is wrong with it if not.
pub fn validate_frame_shape(frame: &ControlFrame) -> (checked: Result<(), CodecError>)
    ensures
        match checked {
            Ok(_) => shape_error(frame@) is None,
            Err(error) => shape_error(frame@) == Some(error),
        },
{
    if frame.flags.bits & !KNOWN_FLAGS != 0 {
        return Err(CodecError::UnknownFlags);
    }
    if frame.argv.len() > MAX_ARGV {
        return Err(CodecError::TooManyArguments);
    }
    if frame.environment.len() > MAX_ENV {
        return Err(CodecError::TooManyEnvironmentEntries);
    }
    let root = frame.flags.contains(LaunchFlags::project_root());
    let log = frame.flags.contains(LaunchFlags::agent_log());
    let config = frame.flags.contains(LaunchFlags::pueue_config());
    if !frame.flags.contains(LaunchFlags::process_group()) {
        return Err(CodecError::MissingProcessGroup);
    }
    match frame.mode {
        LaunchMode::Agent => {
            if !root {
                return Err(CodecError::MissingField(FIELD_PROJECT_ROOT_IDENTITY));
            }
            if !log {
                return Err(CodecError::MissingField(FIELD_AGENT_LOG_IDENTITY));
            }
            if config {
                return Err(CodecError::UnexpectedField(FIELD_PUEUE_CONFIG_IDENTITY));
            }
        },
        LaunchMode::Pueue => {
            if !config {
                return Err(CodecError::MissingField(FIELD_PUEUE_CONFIG_IDENTITY));
            }
            if root {
                return Err(CodecError::UnexpectedField(FIELD_PROJECT_ROOT_IDENTITY));
            }
            if log {
                return Err(CodecError::UnexpectedField(FIELD_AGENT_LOG_IDENTITY));
            }
        },
    }
    check_presence(root, frame.project_root_identity.is_some(), FIELD_PROJECT_ROOT_IDENTITY)?;
    check_presence(log, frame.agent_log_identity.is_some(), FIELD_AGENT_LOG_IDENTITY)?;
    check_presence(config, frame.pueue_config_identity.is_some(), FIELD_PUEUE_CONFIG_IDENTITY)?;
    check_environment(&frame.environment)?;
    check_arguments(&frame.argv)?;
    if let Some(cwd) = &frame.cwd {
        check_leaf(cwd.as_slice())?;
    }
    Ok(())
}

// ---------------------------------------------------------------------------
// Bytes of a frame
// ---------------------------------------------------------------------------
/// A length and the bytes that it counts.
pub open spec fn leaf(value: Seq<u8>) -> Seq<u8> {
    be_bytes(value.len(), 4) + value
}

pub open spec fn leaves(values: Seq<Seq<u8>>) -> Seq<u8>
    decreases values.len(),
{
    if values.len() == 0 {
        Seq::empty()
    } else {
        leaf(values[0]) + leaves(values.drop_first())
    }
}

pub open spec fn pairs(entries: Seq<(Seq<u8>, Seq<u8>)>) -> Seq<u8>
    decreases entries.len(),
{
    if entries.len() == 0 {
        Seq::empty()
    } else {
        leaf(entries[0].0) + leaf(entries[0].1) + pairs(entries.drop_first())
    }
}

pub open spec fn argv_body(argv: Seq<Seq<u8>>) -> Seq<u8> {
    be_bytes(argv.len(), 4) + leaves(argv)
}

pub open spec fn environment_body(entries: Seq<(Seq<u8>, Seq<u8>)>) -> Seq<u8> {
    be_bytes(entries.len(), 4) + pairs(entries)
}

pub open spec fn identity_body(identity: ExecutableIdentity) -> Seq<u8> {
    be_bytes(identity.device as nat, 8) + be_bytes(identity.inode as nat, 8) + be_bytes(
        identity.owner as nat,
        4,
    ) + be_bytes(identity.mode as nat, 4)
}

/// The fields of a frame by their kind.
pub open spec fn field_map(frame: Frame) -> Map<u8, Seq<u8>> {
    let fixed = Map::<u8, Seq<u8>>::empty().insert(FIELD_ARGV, argv_body(frame.argv)).insert(
        FIELD_ENV,
        environment_body(frame.environment),
    ).insert(FIELD_TARGET_IDENTITY, identity_body(frame.target_identity));
    let with_cwd = match frame.cwd {
        Some(cwd) => fixed.insert(FIELD_CWD, leaf(cwd)),
        None => fixed,
    };
    let with_root = match frame.project_root_identity {
        Some(identity) => with_cwd.insert(FIELD_PROJECT_ROOT_IDENTITY, identity_body(identity)),
        None => with_cwd,
    };
    let with_log = match frame.agent_log_identity {
        Some(identity) => with_root.insert(FIELD_AGENT_LOG_IDENTITY, identity_body(identity)),
        None => with_root,
    };
    match frame.pueue_config_identity {
        Some(identity) => with_log.insert(FIELD_PUEUE_CONFIG_IDENTITY, identity_body(identity)),
        None => with_log,
    }
}

/// A field with its kind and its length.
pub open spec fn field(kind: u8, body: Seq<u8>) -> Seq<u8> {
    seq![kind] + be_bytes(body.len(), 4) + body
}

/// The fields from the given kind on, in the order of their kinds.
pub open spec fn fields_from(fields: Map<u8, Seq<u8>>, kind: int) -> Seq<u8>
    decreases 8 - kind,
{
    if kind > 7 || kind < 0 {
        Seq::empty()
    } else if fields.contains_key(kind as u8) {
        field(kind as u8, fields[kind as u8]) + fields_from(fields, kind + 1)
    } else {
        fields_from(fields, kind + 1)
    }
}

/// How many fields there are from the given kind on.
pub open spec fn count_from(fields: Map<u8, Seq<u8>>, kind: int) -> nat
    decreases 8 - kind,
{
    if kind > 7 || kind < 0 {
        0
    } else if fields.contains_key(kind as u8) {
        1 + count_from(fields, kind + 1)
    } else {
        count_from(fields, kind + 1)
    }
}

pub open spec fn payload(fields: Map<u8, Seq<u8>>) -> Seq<u8> {
    be_bytes(count_from(fields, 1), 4) + fields_from(fields, 1)
}

pub open spec fn header(mode: LaunchMode, flags: LaunchFlags, length: nat) -> Seq<u8> {
    seq![0x50u8, 0x41u8, 0x45u8, 0x58u8, 1u8, mode.spec_code()] + be_bytes(flags.bits as nat, 2)
        + be_bytes(length, 4)
}

/// The bytes of a frame.
pub open spec fn encoded(frame: Frame) -> Seq<u8> {
    let body = payload(field_map(frame));
    header(frame.mode, frame.flags, body.len()) + body
}

proof fn lemma_leaves_push(values: Seq<Seq<u8>>, n: int)
    requires
        0 <= n < values.len(),
    ensures
        leaves(values.take(n + 1)) == leaves(values.take(n)) + leaf(values[n]),
    decreases values.len(),
{
    if n == 0 {
        assert(values.take(1).drop_first() =~= Seq::<Seq<u8>>::empty());
        assert(values.take(0) =~= Seq::<Seq<u8>>::empty());
        assert(leaves(values.take(1).drop_first()) =~= Seq::<u8>::empty());
        assert(leaves(values.take(1)) =~= leaf(values[0]));
        assert(leaves(values.take(0)) + leaf(values[0]) =~= leaf(values[0]));
    } else {
        lemma_leaves_push(values.drop_first(), n - 1);
        assert(values.take(n + 1).drop_first() =~= values.drop_first().take(n));
        assert(values.take(n).drop_first() =~= values.drop_first().take(n - 1));
        assert(leaves(values.take(n + 1)) =~= leaf(values[0]) + (leaves(
            values.drop_first().take(n - 1),
        ) + leaf(values[n])));
        assert(leaves(values.take(n)) + leaf(values[n]) =~= leaf(values[0]) + (leaves(
            values.drop_first().take(n - 1),
        ) + leaf(values[n])));
    }
}

proof fn lemma_pairs_push(entries: Seq<(Seq<u8>, Seq<u8>)>, n: int)
    requires
        0 <= n < entries.len(),
    ensures
        pairs(entries.take(n + 1)) == pairs(entries.take(n)) + leaf(entries[n].0) + leaf(
            entries[n].1,
        ),
    decreases entries.len(),
{
    let last = leaf(entries[n].0) + leaf(entries[n].1);
    if n == 0 {
        assert(entries.take(1).drop_first() =~= Seq::<(Seq<u8>, Seq<u8>)>::empty());
        assert(entries.take(0) =~= Seq::<(Seq<u8>, Seq<u8>)>::empty());
        assert(pairs(entries.take(1).drop_first()) =~= Seq::<u8>::empty());
        assert(pairs(entries.take(1)) =~= last);
        assert(pairs(entries.take(0)) + leaf(entries[0].0) + leaf(entries[0].1) =~= last);
    } else {
        lemma_pairs_push(entries.drop_first(), n - 1);
        assert(entries.take(n + 1).drop_first() =~= entries.drop_first().take(n));
        assert(entries.take(n).drop_first() =~= entries.drop_first().take(n - 1));
        let first = leaf(entries[0].0) + leaf(entries[0].1);
        let middle = pairs(entries.drop_first().take(n - 1));
        assert(pairs(entries.take(n + 1)) =~= first + (middle + leaf(entries[n].0) + leaf(
            entries[n].1,
        )));
        assert(pairs(entries.take(n)) =~= first + middle);
        assert(first + middle + leaf(entries[n].0) + leaf(entries[n].1) =~= first + (middle + leaf(
            entries[n].0,
        ) + leaf(entries[n].1)));
    }
}

fn push_leaf(output: &mut Vec<u8>, value: &[u8])
    requires
        value@.len() <= MAX_FIELD_SIZE,
    ensures
        final(output)@ == old(output)@ + leaf(value@),
{
    let ghost before = output@;
    push_be(output, value.len() as u64, 4);
    push_bytes(output, value);
    proof {
        assert(output@ =~= before + leaf(value@));
    }
}

fn write_argv(argv: &Vec<Vec<u8>>) -> (body: Vec<u8>)
    requires
        arguments_error(byte_views(argv@)) is None,
        argv@.len() <= MAX_ARGV,
    ensures
        body@ == argv_body(byte_views(argv@)),
{
    let ghost all = byte_views(argv@);
    let mut body: Vec<u8> = Vec::new();
    push_be(&mut body, argv.len() as u64, 4);
    let mut at: usize = 0;
    proof {
        assert(all.take(0) =~= Seq::<Seq<u8>>::empty());
        assert(body@ =~= be_bytes(all.len(), 4) + leaves(all.take(0)));
    }
    while at < argv.len()
        invariant
            at <= argv@.len(),
            all == byte_views(argv@),
            arguments_error(all) is None,
            body@ == be_bytes(all.len(), 4) + leaves(all.take(at as int)),
        decreases argv.len() - at,
    {
        proof {
            lemma_arguments_are_leaves(all, at as int);
            lemma_leaves_push(all, at as int);
            assert(all[at as int] == argv@[at as int]@);
        }
        let ghost before = body@;
        push_leaf(&mut body, argv[at].as_slice());
        at = at + 1;
        proof {
            assert(body@ =~= be_bytes(all.len(), 4) + leaves(all.take(at as int)));
        }
    }
    proof {
        assert(all.take(all.len() as int) =~= all);
    }
    body
}

pub proof fn lemma_arguments_are_leaves(argv: Seq<Seq<u8>>, i: int)
    requires
        arguments_error(argv) is None,
        0 <= i < argv.len(),
    ensures
        leaf_error(argv[i]) is None,
    decreases argv.len(),
{
    if i < argv.len() - 1 {
        lemma_arguments_are_leaves(argv.drop_last(), i);
        assert(argv.drop_last()[i] == argv[i]);
    }
}

pub proof fn lemma_entries_are_sound(entries: Seq<(Seq<u8>, Seq<u8>)>, i: int)
    requires
        environment_error(entries) is None,
        0 <= i < entries.len(),
    ensures
        entry_error(entries.take(i), entries[i]) is None,
    decreases entries.len(),
{
    if i < entries.len() - 1 {
        lemma_entries_are_sound(entries.drop_last(), i);
        assert(entries.drop_last()[i] == entries[i]);
        assert(entries.drop_last().take(i) =~= entries.take(i));
    } else {
        assert(entries.drop_last() =~= entries.take(i));
    }
}

fn write_environment(entries: &Vec<(Vec<u8>, Vec<u8>)>) -> (body: Vec<u8>)
    requires
        environment_error(pair_views(entries@)) is None,
        entries@.len() <= MAX_ENV,
    ensures
        body@ == environment_body(pair_views(entries@)),
{
    let ghost all = pair_views(entries@);
    let mut body: Vec<u8> = Vec::new();
    push_be(&mut body, entries.len() as u64, 4);
    let mut at: usize = 0;
    proof {
        assert(all.take(0) =~= Seq::<(Seq<u8>, Seq<u8>)>::empty());
        assert(body@ =~= be_bytes(all.len(), 4) + pairs(all.take(0)));
    }
    while at < entries.len()
        invariant
            at <= entries@.len(),
            all == pair_views(entries@),
            environment_error(all) is None,
            body@ == be_bytes(all.len(), 4) + pairs(all.take(at as int)),
        decreases entries.len() - at,
    {
        proof {
            lemma_entries_are_sound(all, at as int);
            lemma_pairs_push(all, at as int);
            assert(all[at as int] == (entries@[at as int].0@, entries@[at as int].1@));
        }
        push_leaf(&mut body, entries[at].0.as_slice());
        push_leaf(&mut body, entries[at].1.as_slice());
        at = at + 1;
        proof {
            assert(body@ =~= be_bytes(all.len(), 4) + pairs(all.take(at as int)));
        }
    }
    proof {
        assert(all.take(all.len() as int) =~= all);
    }
    body
}

fn write_identity(identity: &ExecutableIdentity) -> (body: Vec<u8>)
    ensures
        body@ == identity_body(*identity),
        body@.len() == 24,
{
    let mut body: Vec<u8> = Vec::new();
    push_be(&mut body, identity.device, 8);
    push_be(&mut body, identity.inode, 8);
    push_be(&mut body, identity.owner as u64, 4);
    push_be(&mut body, identity.mode as u64, 4);
    proof {
        lemma_be_bytes_len(identity.device as nat, 8);
        lemma_be_bytes_len(identity.inode as nat, 8);
        lemma_be_bytes_len(identity.owner as nat, 4);
        lemma_be_bytes_len(identity.mode as nat, 4);
        assert(body@ =~= identity_body(*identity));
    }
    body
}

fn push_field(output: &mut Vec<u8>, kind: u8, body: &[u8])
    requires
        body@.len() < 0x1_0000_0000,
    ensures
        final(output)@ == old(output)@ + field(kind, body@),
{
    let ghost before = output@;
    output.push(kind);
    push_be(output, body.len() as u64, 4);
    push_bytes(output, body);
    proof {
        assert(output@ =~= before + field(kind, body@));
    }
}

proof fn lemma_leaf_len(value: Seq<u8>)
    ensures
        leaf(value).len() == 4 + value.len(),
{
    lemma_be_bytes_len(value.len(), 4);
}

proof fn lemma_leaves_len(values: Seq<Seq<u8>>)
    requires
        arguments_error(values) is None,
    ensures
        leaves(values).len() <= values.len() * 0x1_0004,
    decreases values.len(),
{
    if values.len() > 0 {
        lemma_arguments_are_leaves(values, 0);
        lemma_leaf_len(values[0]);
        lemma_arguments_drop_first(values);
        lemma_leaves_len(values.drop_first());
    }
}

proof fn lemma_arguments_drop_first(values: Seq<Seq<u8>>)
    requires
        arguments_error(values) is None,
        values.len() > 0,
    ensures
        arguments_error(values.drop_first()) is None,
    decreases values.len(),
{
    let rest = values.drop_first();
    if rest.len() > 0 {
        assert(values.drop_last().drop_first() =~= rest.drop_last());
        lemma_arguments_drop_first(values.drop_last());
        assert(rest.last() == values.last());
    }
}

/// Every name and every value of the entries is a leaf.
pub open spec fn entries_are_leaves(entries: Seq<(Seq<u8>, Seq<u8>)>) -> bool {
    forall|i: int|
        0 <= i < entries.len() ==> leaf_error((#[trigger] entries[i]).0) is None && leaf_error(
            entries[i].1,
        ) is None
}

proof fn lemma_sound_entries_are_leaves(entries: Seq<(Seq<u8>, Seq<u8>)>)
    requires
        environment_error(entries) is None,
    ensures
        entries_are_leaves(entries),
{
    assert forall|i: int| 0 <= i < entries.len() implies leaf_error((#[trigger] entries[i]).0) is None
        && leaf_error(entries[i].1) is None by {
        lemma_entries_are_sound(entries, i);
    }
}

proof fn lemma_pairs_len(entries: Seq<(Seq<u8>, Seq<u8>)>)
    requires
        entries_are_leaves(entries),
    ensures
        pairs(entries).len() <= entries.len() * 0x2_0008,
    decreases entries.len(),
{
    if entries.len() > 0 {
        assert(leaf_error(entries[0].0) is None);
        lemma_leaf_len(entries[0].0);
        lemma_leaf_len(entries[0].1);
        let rest = entries.drop_first();
        assert forall|i: int| 0 <= i < rest.len() implies leaf_error((#[trigger] rest[i]).0) is None
            && leaf_error(rest[i].1) is None by {
            assert(rest[i] == entries[i + 1]);
        }
        lemma_pairs_len(rest);
    }
}

/// The bodies of a well-shaped frame are far shorter than a length field can
/// say.
pub proof fn lemma_bodies_are_short(frame: Frame)
    requires
        shape_error(frame) is None,
    ensures
        argv_body(frame.argv).len() <= 0x200_0000,
        environment_body(frame.environment).len() <= 0x200_0000,
        frame.cwd matches Some(cwd) ==> leaf(cwd).len() <= 0x2_0000,
        forall|identity: ExecutableIdentity| (#[trigger] identity_body(identity)).len() == 24,
{
    lemma_leaves_len(frame.argv);
    lemma_be_bytes_len(frame.argv.len(), 4);
    lemma_sound_entries_are_leaves(frame.environment);
    lemma_pairs_len(frame.environment);
    lemma_be_bytes_len(frame.environment.len(), 4);
    if let Some(cwd) = frame.cwd {
        lemma_leaf_len(cwd);
    }
    assert forall|identity: ExecutableIdentity| (#[trigger] identity_body(identity)).len()
        == 24 by {
        lemma_be_bytes_len(identity.device as nat, 8);
        lemma_be_bytes_len(identity.inode as nat, 8);
        lemma_be_bytes_len(identity.owner as nat, 4);
        lemma_be_bytes_len(identity.mode as nat, 4);
    }
}

fn push_identity_field(output: &mut Vec<u8>, kind: u8, identity: &Option<ExecutableIdentity>)
    ensures
        final(output)@ == old(output)@ + (match identity {
            Some(id) => field(kind, identity_body(*id)),
            None => Seq::empty(),
        }),
{
    match identity {
        Some(id) => {
            let body = write_identity(id);
            push_field(output, kind, body.as_slice());
        },
        None => {
            proof {
                assert(old(output)@ + Seq::<u8>::empty() =~= old(output)@);
            }
        },
    }
}

/// The bytes of the field of the given kind, if there is one.
pub open spec fn part(fields: Map<u8, Seq<u8>>, kind: u8) -> Seq<u8> {
    if fields.contains_key(kind) {
        field(kind, fields[kind])
    } else {
        Seq::empty()
    }
}

pub open spec fn present(fields: Map<u8, Seq<u8>>, kind: u8) -> nat {
    if fields.contains_key(kind) {
        1
    } else {
        0
    }
}

proof fn lemma_layout(fields: Map<u8, Seq<u8>>)
    ensures
        fields_from(fields, 1) == part(fields, 1) + part(fields, 2) + part(fields, 3) + part(
            fields,
            4,
        ) + part(fields, 5) + part(fields, 6) + part(fields, 7),
        count_from(fields, 1) == present(fields, 1) + present(fields, 2) + present(fields, 3)
            + present(fields, 4) + present(fields, 5) + present(fields, 6) + present(fields, 7),
{
    assert(fields_from(fields, 8) =~= Seq::<u8>::empty());
    assert(fields_from(fields, 7) =~= part(fields, 7));
    assert(fields_from(fields, 6) =~= part(fields, 6) + fields_from(fields, 7));
    assert(fields_from(fields, 5) =~= part(fields, 5) + fields_from(fields, 6));
    assert(fields_from(fields, 4) =~= part(fields, 4) + fields_from(fields, 5));
    assert(fields_from(fields, 3) =~= part(fields, 3) + fields_from(fields, 4));
    assert(fields_from(fields, 2) =~= part(fields, 2) + fields_from(fields, 3));
    assert(fields_from(fields, 1) =~= part(fields, 1) + fields_from(fields, 2));
    assert(fields_from(fields, 1) =~= part(fields, 1) + part(fields, 2) + part(fields, 3) + part(
        fields,
        4,
    ) + part(fields, 5) + part(fields, 6) + part(fields, 7));
    assert(count_from(fields, 8) == 0);
    assert(count_from(fields, 7) == present(fields, 7));
    assert(count_from(fields, 6) == present(fields, 6) + count_from(fields, 7));
    assert(count_from(fields, 5) == present(fields, 5) + count_from(fields, 6));
    assert(count_from(fields, 4) == present(fields, 4) + count_from(fields, 5));
    assert(count_from(fields, 3) == present(fields, 3) + count_from(fields, 4));
    assert(count_from(fields, 2) == present(fields, 2) + count_from(fields, 3));
    assert(count_from(fields, 1) == present(fields, 1) + count_from(fields, 2));
}

/// What each kind of field of a frame holds.
proof fn lemma_field_map(frame: Frame)
    ensures
        part(field_map(frame), FIELD_ARGV) == field(FIELD_ARGV, argv_body(frame.argv)),
        part(field_map(frame), FIELD_ENV) == field(FIELD_ENV, environment_body(frame.environment)),
        part(field_map(frame), FIELD_TARGET_IDENTITY) == field(
            FIELD_TARGET_IDENTITY,
            identity_body(frame.target_identity),
        ),
        part(field_map(frame), FIELD_CWD) == (match frame.cwd {
            Some(cwd) => field(FIELD_CWD, leaf(cwd)),
            None => Seq::empty(),
        }),
        part(field_map(frame), FIELD_PROJECT_ROOT_IDENTITY) == optional_part(
            FIELD_PROJECT_ROOT_IDENTITY,
            frame.project_root_identity,
        ),
        part(field_map(frame), FIELD_AGENT_LOG_IDENTITY) == optional_part(
            FIELD_AGENT_LOG_IDENTITY,
            frame.agent_log_identity,
        ),
        part(field_map(frame), FIELD_PUEUE_CONFIG_IDENTITY) == optional_part(
            FIELD_PUEUE_CONFIG_IDENTITY,
            frame.pueue_config_identity,
        ),
        count_from(field_map(frame), 1) == 3 + one_if(frame.cwd is Some) + one_if(
            frame.project_root_identity is Some,
        ) + one_if(frame.agent_log_identity is Some) + one_if(frame.pueue_config_identity is Some),
{
    lemma_layout(field_map(frame));
}

pub open spec fn one_if(yes: bool) -> nat {
    if yes {
        1
    } else {
        0
    }
}

pub open spec fn optional_part(kind: u8, identity: Option<ExecutableIdentity>) -> Seq<u8> {
    match identity {
        Some(id) => field(kind, identity_body(id)),
        None => Seq::empty(),
    }
}

fn write_payload(frame: &ControlFrame) -> (body: Vec<u8>)
    requires
        shape_error(frame@) is None,
    ensures
        body@ == payload(field_map(frame@)),
{
    let ghost fields = field_map(frame@);
    proof {
        lemma_bodies_are_short(frame@);
        lemma_layout(fields);
        lemma_field_map(frame@);
    }
    let mut count: u64 = 3;
    if frame.cwd.is_some() {
        count = count + 1;
    }
    if frame.project_root_identity.is_some() {
        count = count + 1;
    }
    if frame.agent_log_identity.is_some() {
        count = count + 1;
    }
    if frame.pueue_config_identity.is_some() {
        count = count + 1;
    }
    let mut body: Vec<u8> = Vec::new();
    push_be(&mut body, count, 4);
    let argv = write_argv(&frame.argv);
    push_field(&mut body, FIELD_ARGV, argv.as_slice());
    let environment = write_environment(&frame.environment);
    push_field(&mut body, FIELD_ENV, environment.as_slice());
    let target = write_identity(&frame.target_identity);
    push_field(&mut body, FIELD_TARGET_IDENTITY, target.as_slice());
    let ghost before = body@;
    if let Some(cwd) = &frame.cwd {
        let mut text: Vec<u8> = Vec::new();
        push_leaf(&mut text, cwd.as_slice());
        proof {
            assert(text@ =~= leaf(cwd@));
        }
        push_field(&mut body, FIELD_CWD, text.as_slice());
    }
    proof {
        assert(body@ =~= before + part(fields, FIELD_CWD));
    }
    push_identity_field(&mut body, FIELD_PROJECT_ROOT_IDENTITY, &frame.project_root_identity);
    push_identity_field(&mut body, FIELD_AGENT_LOG_IDENTITY, &frame.agent_log_identity);
    push_identity_field(&mut body, FIELD_PUEUE_CONFIG_IDENTITY, &frame.pueue_config_identity);
    proof {
        assert(body@ =~= payload(fields));
    }
    body
}

/// The bytes of a frame; an error where the frame is not well shaped or where
/// the bytes would be too many.
pub fn encode_control_frame(frame: &ControlFrame) -> (bytes: Result<Vec<u8>, CodecError>)
    ensures
        match bytes {
            Ok(b) => shape_error(frame@) is None && b@ == encoded(frame@) && b@.len()
                <= MAX_FRAME_SIZE,
            Err(error) => shape_error(frame@) == Some(error) || (shape_error(frame@) is None
                && error == CodecError::FrameTooLarge && encoded(frame@).len() > MAX_FRAME_SIZE),
        },
{
    validate_frame_shape(frame)?;
    let body = write_payload(frame);
    proof {
        lemma_be_bytes_len(frame.flags.bits as nat, 2);
        lemma_be_bytes_len(body@.len(), 4);
    }
    if body.len() > MAX_FRAME_SIZE - HEADER_SIZE {
        return Err(CodecError::FrameTooLarge);
    }
    let mut output: Vec<u8> = Vec::new();
    output.push(0x50);
    output.push(0x41);
    output.push(0x45);
    output.push(0x58);
    output.push(1);
    output.push(frame.mode.code());
    push_be(&mut output, frame.flags.bits as u64, 2);
    push_be(&mut output, body.len() as u64, 4);
    push_bytes(&mut output, body.as_slice());
    proof {
        assert(output@ =~= encoded(frame@));
    }
    Ok(output)
}

/// A field of a frame has at most 65536 bytes, none of them zero.
pub proof fn lemma_which_leaves_are_sound(value: Seq<u8>)
    ensures
        leaf_error(value) is None <==> value.len() <= 0x1_0000 && forall|i: int|
            0 <= i < value.len() ==> (#[trigger] value[i]) != 0u8,
{
    if value.contains(0u8) {
        let i = choose|i: int| 0 <= i < value.len() && value[i] == 0u8;
        assert(value[i] == 0u8);
    }
    assert forall|i: int| 0 <= i < value.len() && (#[trigger] value[i]) == 0u8 implies value.contains(
        0u8,
    ) by {
    }
}

/// The environment of a frame is sound exactly where its names and values are
/// sound fields, each name is one, and none comes twice.
pub proof fn lemma_which_environments_are_sound(entries: Seq<(Seq<u8>, Seq<u8>)>)
    ensures
        environment_error(entries) is None <==> (forall|i: int|
            0 <= i < entries.len() ==> leaf_error((#[trigger] entries[i]).0) is None && leaf_error(
                entries[i].1,
            ) is None && entries[i].0.len() > 0 && !entries[i].0.contains(0x3du8)) && (forall|
            i: int,
            j: int,
        |
            0 <= i < j < entries.len() ==> (#[trigger] entries[i]).0 != (#[trigger] entries[j]).0),
    decreases entries.len(),
{
    if entries.len() > 0 {
        let head = entries.drop_last();
        let n = head.len() as int;
        lemma_which_environments_are_sound(head);
        assert(entries[n] == entries.last());
        assert forall|i: int| 0 <= i < n implies (#[trigger] head[i]) == entries[i] by {
        }
        assert forall|i: int| 0 <= i < n implies (#[trigger] entries[i]) == head[i] by {
        }
        if names_entry(head, entries.last().0) {
            let i = choose|i: int|
                0 <= i < head.len() && (#[trigger] head[i]).0 == entries.last().0;
            assert(entries[i].0 == entries[n].0);
        }
    }
}

/// The arguments of a frame are sound exactly where each is a sound field.
pub proof fn lemma_which_arguments_are_sound(argv: Seq<Seq<u8>>)
    ensures
        arguments_error(argv) is None <==> forall|i: int|
            0 <= i < argv.len() ==> leaf_error(#[trigger] argv[i]) is None,
    decreases argv.len(),
{
    if argv.len() > 0 {
        let head = argv.drop_last();
        lemma_which_arguments_are_sound(head);
        assert(argv[argv.len() - 1] == argv.last());
        assert forall|i: int| 0 <= i < head.len() implies (#[trigger] head[i]) == argv[i] by {
        }
        assert forall|i: int| 0 <= i < head.len() implies (#[trigger] argv[i]) == head[i] by {
        }
    }
}

/// A frame is sound exactly where its flags are known and ask for a process
/// group, where it has at most 256 arguments and 128 variables, where an agent
/// has a root and a log and the queue has its configuration and neither has what
/// is the other's, and where its fields are sound.
pub proof fn lemma_which_frames_are_sound(frame: Frame)
    ensures
        shape_error(frame) is None <==> {
            &&& frame.flags.bits & !15u16 == 0
            &&& frame.flags.bits & 8 == 8
            &&& frame.argv.len() <= 256
            &&& frame.environment.len() <= 128
            &&& (frame.flags.bits & 1 == 1) == (frame.mode is Agent)
            &&& (frame.flags.bits & 2 == 2) == (frame.mode is Agent)
            &&& (frame.flags.bits & 4 == 4) == (frame.mode is Pueue)
            &&& frame.project_root_identity is Some <==> frame.mode is Agent
            &&& frame.agent_log_identity is Some <==> frame.mode is Agent
            &&& frame.pueue_config_identity is Some <==> frame.mode is Pueue
            &&& environment_error(frame.environment) is None
            &&& arguments_error(frame.argv) is None
            &&& frame.cwd matches Some(cwd) ==> leaf_error(cwd) is None
        },
{
}

/// A frame starts with its mark, its version, its mode, its flags and the length
/// of the rest, and goes on with the number of its fields.
pub proof fn lemma_how_a_frame_starts(frame: Frame)
    requires
        encoded(frame).len() <= 0x10_0000,
    ensures
        encoded(frame).len() >= 16,
        encoded(frame).take(4) == seq![0x50u8, 0x41u8, 0x45u8, 0x58u8],
        encoded(frame)[4] == 1,
        encoded(frame)[5] == (if frame.mode is Agent {
            1u8
        } else {
            2u8
        }),
        be_value(encoded(frame).subrange(6, 8)) == frame.flags.bits,
        be_value(encoded(frame).subrange(8, 12)) == encoded(frame).len() - 12,
{
    let body = payload(field_map(frame));
    let bytes = encoded(frame);
    crate::wire::lemma_capacities();
    crate::wire::lemma_be_bytes_len(frame.flags.bits as nat, 2);
    crate::wire::lemma_be_bytes_len(body.len(), 4);
    crate::wire::lemma_be_bytes_len(count_from(field_map(frame), 1), 4);
    assert(bytes.len() == 12 + body.len());
    assert(bytes.take(4) =~= seq![0x50u8, 0x41u8, 0x45u8, 0x58u8]);
    assert(bytes.subrange(6, 8) =~= be_bytes(frame.flags.bits as nat, 2));
    assert(bytes.subrange(8, 12) =~= be_bytes(body.len(), 4));
    crate::wire::lemma_value_of_bytes(frame.flags.bits as nat, 2);
    crate::wire::lemma_value_of_bytes(body.len(), 4);
}

/// The fields of a frame by their numbers: the arguments, the variables and the
/// program always, the others where they are given.
pub proof fn lemma_fields_of_a_frame(frame: Frame)
    ensures
        ({
            let fields = field_map(frame);
            &&& fields.contains_key(1) && fields[1] == argv_body(frame.argv)
            &&& fields.contains_key(2) && fields[2] == environment_body(frame.environment)
            &&& fields.contains_key(3) && fields[3] == identity_body(frame.target_identity)
            &&& fields.contains_key(4) <==> frame.cwd is Some
            &&& frame.cwd matches Some(cwd) ==> fields[4] == be_bytes(cwd.len(), 4) + cwd
            &&& fields.contains_key(5) <==> frame.project_root_identity is Some
            &&& frame.project_root_identity matches Some(id) ==> fields[5] == identity_body(id)
            &&& fields.contains_key(6) <==> frame.agent_log_identity is Some
            &&& frame.agent_log_identity matches Some(id) ==> fields[6] == identity_body(id)
            &&& fields.contains_key(7) <==> frame.pueue_config_identity is Some
            &&& frame.pueue_config_identity matches Some(id) ==> fields[7] == identity_body(id)
        }),
{
}

/// How fields are written: a number, a length of four bytes and the body; a list
/// as its number of items and the items, each with its own length.
pub proof fn lemma_how_fields_are_written(
    kind: u8,
    body: Seq<u8>,
    argv: Seq<Seq<u8>>,
    entries: Seq<(Seq<u8>, Seq<u8>)>,
    identity: ExecutableIdentity,
)
    ensures
        field(kind, body) == seq![kind] + be_bytes(body.len(), 4) + body,
        argv_body(argv) == be_bytes(argv.len(), 4) + leaves(argv),
        environment_body(entries) == be_bytes(entries.len(), 4) + pairs(entries),
        argv.len() > 0 ==> leaves(argv) == be_bytes(argv[0].len(), 4) + argv[0] + leaves(
            argv.drop_first(),
        ),
        entries.len() > 0 ==> pairs(entries) == (be_bytes(entries[0].0.len(), 4) + entries[0].0) + (
        be_bytes(entries[0].1.len(), 4) + entries[0].1) + pairs(entries.drop_first()),
        identity_body(identity) == be_bytes(identity.device as nat, 8) + be_bytes(
            identity.inode as nat,
            8,
        ) + be_bytes(identity.owner as nat, 4) + be_bytes(identity.mode as nat, 4),
{
}

/// The fields of a frame stand in the order of their numbers, each once, behind
/// their number.
pub proof fn lemma_order_of_fields(fields: Map<u8, Seq<u8>>, kind: u8)
    requires
        1 <= kind <= 7,
    ensures
        payload(fields) == be_bytes(count_from(fields, 1), 4) + fields_from(fields, 1),
        fields.contains_key(kind) ==> fields_from(fields, kind as int) == seq![kind] + be_bytes(
            fields[kind].len(),
            4,
        ) + fields[kind] + fields_from(fields, kind + 1) && count_from(fields, kind as int) == 1
            + count_from(fields, kind + 1),
        !fields.contains_key(kind) ==> fields_from(fields, kind as int) == fields_from(
            fields,
            kind + 1,
        ) && count_from(fields, kind as int) == count_from(fields, kind + 1),
        fields_from(fields, 8).len() == 0,
        count_from(fields, 8) == 0,
{
}

} // verus!
