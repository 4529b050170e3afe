//! The decisions of the launch bootstrap: which descriptors a frame comes with,
//! what each of them must be, which fixed slots are closed and when, and what
//! is accepted from the other side.

use vstd::prelude::*;
use vstd::slice::*;

use crate::execution_policy::ExecutableIdentity;
use crate::frame::{shape_error, validate_frame_shape, ControlFrame, Frame};
use crate::frame_read::{decode_control_frame, decoded};
use crate::process::{
    CodecError, LaunchFlags, RawFd, AGENT_LOG_FD, CONTROL_FD, EXEC_STATUS_FD, FLAG_AGENT_LOG,
    FLAG_PROJECT_ROOT, FLAG_PUEUE_CONFIG, HEADER_SIZE, MAX_FRAME_SIZE, PROJECT_ROOT_FD,
    PUEUE_CONFIG_FD, RELEASE_ACK_FD, RELEASE_FD, TARGET_FD,
};
use crate::wire::{be_value, lemma_bytes_of_value, lemma_capacities, read_be, same_bytes};

verus! {

/// Why the bootstrap is refused.
#[derive(Debug)]
pub enum BootstrapError {
    Io(std::io::Error),
    Codec(CodecError),
    EmptyPacket,
    TruncatedPacket,
    MissingRights,
    UnexpectedAncillary,
    WrongRightCount,
    IdentityMismatch,
    GateClosed,
    DescriptorNotCloseOnExec,
    BootstrapCorrupt,
    AliasedPipeRoles,
}

impl BootstrapError {
    pub open spec fn label(self) -> Seq<char> {
        match self {
            BootstrapError::Io(_) => "bootstrap I/O failed"@,
            BootstrapError::Codec(error) => "bootstrap codec rejected input: "@ + error.label(),
            BootstrapError::EmptyPacket => "bootstrap packet was empty"@,
            BootstrapError::TruncatedPacket => "bootstrap packet was truncated"@,
            BootstrapError::MissingRights => "bootstrap packet had no descriptor rights"@,
            BootstrapError::UnexpectedAncillary => "bootstrap packet had unexpected ancillary data"@,
            BootstrapError::WrongRightCount => "bootstrap packet had the wrong descriptor count"@,
            BootstrapError::IdentityMismatch => "bootstrap descriptor identity mismatch"@,
            BootstrapError::GateClosed => "bootstrap release gate was already closed"@,
            BootstrapError::DescriptorNotCloseOnExec =>
                "bootstrap descriptor was not close-on-exec"@,
            BootstrapError::BootstrapCorrupt => "bootstrap fixed descriptor map was rejected"@,
            BootstrapError::AliasedPipeRoles => "bootstrap pipe roles were aliased"@,
        }
    }

    /// The text that is shown for the error; it holds nothing of the input.
    pub fn text(&self) -> (text: String)
        ensures
            text@ == self.label(),
    {
        let fixed = match self {
            BootstrapError::Io(_) => "bootstrap I/O failed",
            BootstrapError::Codec(error) => {
                let head = "bootstrap codec rejected input: ".to_owned();
                return vstd::string::StringExecFns::concat(head, error.text());
            },
            BootstrapError::EmptyPacket => "bootstrap packet was empty",
            BootstrapError::TruncatedPacket => "bootstrap packet was truncated",
            BootstrapError::MissingRights => "bootstrap packet had no descriptor rights",
            BootstrapError::UnexpectedAncillary => "bootstrap packet had unexpected ancillary data",
            BootstrapError::WrongRightCount => "bootstrap packet had the wrong descriptor count",
            BootstrapError::IdentityMismatch => "bootstrap descriptor identity mismatch",
            BootstrapError::GateClosed => "bootstrap release gate was already closed",
            BootstrapError::DescriptorNotCloseOnExec =>
                "bootstrap descriptor was not close-on-exec",
            BootstrapError::BootstrapCorrupt => "bootstrap fixed descriptor map was rejected",
            BootstrapError::AliasedPipeRoles => "bootstrap pipe roles were aliased",
        };
        fixed.to_owned()
    }
}

/// Why the helper could not be started.
#[derive(Debug)]
pub enum ProcessLaunchError {
    LauncherRejected,
    Spawn,
    Bootstrap(BootstrapError),
    ReadinessRejected,
    Io,
}

impl ProcessLaunchError {
    pub open spec fn label(self) -> Seq<char> {
        match self {
            ProcessLaunchError::LauncherRejected => "trusted launcher identity was rejected"@,
            ProcessLaunchError::Spawn => "trusted launcher could not be spawned"@,
            ProcessLaunchError::Bootstrap(_) => "bootstrap protocol was rejected"@,
            ProcessLaunchError::ReadinessRejected => "helper readiness record was rejected"@,
            ProcessLaunchError::Io => "helper readiness I/O failed"@,
        }
    }

    pub fn text(&self) -> (text: &'static str)
        ensures
            text@ == self.label(),
    {
        match self {
            ProcessLaunchError::LauncherRejected => "trusted launcher identity was rejected",
            ProcessLaunchError::Spawn => "trusted launcher could not be spawned",
            ProcessLaunchError::Bootstrap(_) => "bootstrap protocol was rejected",
            ProcessLaunchError::ReadinessRejected => "helper readiness record was rejected",
            ProcessLaunchError::Io => "helper readiness I/O failed",
        }
    }
}

// ---------------------------------------------------------------------------
// Slots
// ---------------------------------------------------------------------------
/// The slots that a frame fills, in order.
pub open spec fn slots_of(frame: Frame) -> Seq<RawFd> {
    let fixed = seq![CONTROL_FD, RELEASE_FD, EXEC_STATUS_FD, TARGET_FD];
    let root = if frame.flags.has(FLAG_PROJECT_ROOT) {
        fixed.push(PROJECT_ROOT_FD)
    } else {
        fixed
    };
    let log = if frame.flags.has(FLAG_AGENT_LOG) {
        root.push(AGENT_LOG_FD)
    } else {
        root
    };
    let config = if frame.flags.has(FLAG_PUEUE_CONFIG) {
        log.push(PUEUE_CONFIG_FD)
    } else {
        log
    };
    config.push(RELEASE_ACK_FD)
}

/// The slots that a well-shaped frame fills.
pub fn bootstrap_slots(frame: &ControlFrame) -> (slots: Result<Vec<RawFd>, CodecError>)
    ensures
        match slots {
            Ok(s) => shape_error(frame@) is None && s@ == slots_of(frame@),
            Err(error) => shape_error(frame@) == Some(error),
        },
{
    validate_frame_shape(frame)?;
    let mut slots: Vec<RawFd> = Vec::new();
    slots.push(CONTROL_FD);
    slots.push(RELEASE_FD);
    slots.push(EXEC_STATUS_FD);
    slots.push(TARGET_FD);
    if frame.flags.contains(LaunchFlags::project_root()) {
        slots.push(PROJECT_ROOT_FD);
    }
    if frame.flags.contains(LaunchFlags::agent_log()) {
        slots.push(AGENT_LOG_FD);
    }
    if frame.flags.contains(LaunchFlags::pueue_config()) {
        slots.push(PUEUE_CONFIG_FD);
    }
    slots.push(RELEASE_ACK_FD);
    proof {
        assert(slots@ =~= slots_of(frame@));
    }
    Ok(slots)
}

/// The slots whose descriptors are sent along: all but the control socket.
pub fn bootstrap_right_slots(frame: &ControlFrame) -> (slots: Result<Vec<RawFd>, CodecError>)
    ensures
        match slots {
            Ok(s) => shape_error(frame@) is None && s@ == slots_of(frame@).drop_first(),
            Err(error) => shape_error(frame@) == Some(error),
        },
{
    let mut slots = bootstrap_slots(frame)?;
    let _control = slots.remove(0);
    proof {
        assert(slots@ =~= slots_of(frame@).drop_first());
    }
    Ok(slots)
}

/// A frame of a mode fills that mode's slots and no others: an agent those of
/// root and log, a queue client that of the configuration. All slots lie in the
/// fixed range and go up.
pub proof fn lemma_slots_follow_the_mode(frame: Frame)
    requires
        shape_error(frame) is None,
    ensures
        slots_of(frame) == (match frame.mode {
            crate::process::LaunchMode::Agent => seq![3i32, 4, 5, 6, 7, 8, 10],
            crate::process::LaunchMode::Pueue => seq![3i32, 4, 5, 6, 9, 10],
        }),
{
    match frame.mode {
        crate::process::LaunchMode::Agent => {
            assert(slots_of(frame) =~= seq![3i32, 4, 5, 6, 7, 8, 10]);
        },
        crate::process::LaunchMode::Pueue => {
            assert(slots_of(frame) =~= seq![3i32, 4, 5, 6, 9, 10]);
        },
    }
}

/// Who owns the descriptor in a fixed slot.
#[derive(Clone, Copy, Debug, PartialEq, Eq, Structural)]
pub enum FixedSlotState {
    OwnedOriginal,
    Installed,
    Closed,
    NeverOwned,
}

/// The states of a range of slots while descriptors are moved into them.
#[derive(Debug)]
pub struct FixedSlotTracker {
    pub base: RawFd,
    pub expected: Vec<RawFd>,
    pub states: Vec<FixedSlotState>,
}

pub fn listed(fds: &Vec<RawFd>, fd: RawFd) -> (yes: bool)
    ensures
        yes == fds@.contains(fd),
{
    let mut at: usize = 0;
    while at < fds.len()
        invariant
            at <= fds@.len(),
            forall|i: int| 0 <= i < at ==> fds@[i] != fd,
        decreases fds.len() - at,
    {
        if fds[at] == fd {
            return true;
        }
        at = at + 1;
    }
    false
}

/// A slot in this state is closed when the map is given up.
pub open spec fn is_closable(state: FixedSlotState) -> bool {
    state == FixedSlotState::Installed || state == FixedSlotState::NeverOwned
}

/// The slots among the first `n` that are closable, and not expected where
/// `spare` says so.
pub open spec fn to_close(
    base: RawFd,
    expected: Seq<RawFd>,
    states: Seq<FixedSlotState>,
    spare: bool,
    n: int,
) -> Seq<RawFd>
    decreases n,
{
    if n <= 0 {
        Seq::empty()
    } else {
        let fd = (base + n - 1) as RawFd;
        let earlier = to_close(base, expected, states, spare, n - 1);
        if is_closable(states[n - 1]) && !(spare && expected.contains(fd)) {
            earlier.push(fd)
        } else {
            earlier
        }
    }
}

/// The states after these slots have been closed.
pub open spec fn after_close(
    base: RawFd,
    expected: Seq<RawFd>,
    states: Seq<FixedSlotState>,
    spare: bool,
) -> Seq<FixedSlotState> {
    Seq::new(
        states.len(),
        |i: int|
            if is_closable(states[i]) && !(spare && expected.contains((base + i) as RawFd)) {
                FixedSlotState::Closed
            } else {
                states[i]
            },
    )
}

impl FixedSlotTracker {
    /// The slots have numbers, and so have their distances from the first.
    pub open spec fn wf(&self) -> bool {
        self.base + self.states@.len() <= i32::MAX + 1 && self.states@.len() <= i32::MAX
    }

    pub open spec fn covers(&self, fd: RawFd) -> bool {
        self.base <= fd < self.base + self.states@.len()
    }

    /// Tracks the fixed range of the protocol.
    pub fn new(expected: Vec<RawFd>, owned: Vec<RawFd>) -> (tracker: Self)
        ensures
            tracker.wf(),
            tracker.base == CONTROL_FD,
            tracker.expected@ == expected@,
            tracker.states@.len() == 8,
            forall|i: int|
                0 <= i < 8 ==> #[trigger] tracker.states@[i] == (if owned@.contains(
                    (CONTROL_FD + i) as RawFd,
                ) {
                    FixedSlotState::OwnedOriginal
                } else {
                    FixedSlotState::NeverOwned
                }),
    {
        FixedSlotTracker::with_range(CONTROL_FD, RELEASE_ACK_FD, expected, owned)
    }

    /// Tracks the slots from `base` to `end`, none where `end` comes first.
    pub fn with_range(base: RawFd, end: RawFd, expected: Vec<RawFd>, owned: Vec<RawFd>) -> (tracker:
        Self)
        requires
            end - base < i32::MAX,
        ensures
            tracker.wf(),
            base <= end ==> tracker.states@.len() == end - base + 1,
            end < base ==> tracker.states@.len() == 0,
            tracker.base == base,
            tracker.expected@ == expected@,
            forall|i: int|
                0 <= i < tracker.states@.len() ==> #[trigger] tracker.states@[i] == (
                if owned@.contains((base + i) as RawFd) {
                    FixedSlotState::OwnedOriginal
                } else {
                    FixedSlotState::NeverOwned
                }),
    {
        let mut states: Vec<FixedSlotState> = Vec::new();
        let mut next: i64 = base as i64;
        while next <= end as i64
            invariant
                base <= next,
                next <= end + 1 || next == base,
                states@.len() == next - base,
                forall|i: int|
                    0 <= i < states@.len() ==> #[trigger] states@[i] == (if owned@.contains(
                        (base + i) as RawFd,
                    ) {
                        FixedSlotState::OwnedOriginal
                    } else {
                        FixedSlotState::NeverOwned
                    }),
            decreases end + 1 - next,
        {
            states.push(
                if listed(&owned, next as RawFd) {
                    FixedSlotState::OwnedOriginal
                } else {
                    FixedSlotState::NeverOwned
                },
            );
            next = next + 1;
        }
        FixedSlotTracker { base, expected, states }
    }

    fn slot(&self, fd: RawFd) -> (at: usize)
        requires
            self.wf(),
            self.covers(fd),
        ensures
            at == fd - self.base,
            at < self.states@.len(),
    {
        (fd - self.base) as usize
    }

    /// The original descriptor in a slot no longer belongs to its owner.
    pub fn mark_original_released(&mut self, fd: RawFd)
        requires
            old(self).wf(),
            old(self).covers(fd),
        ensures
            final(self).base == old(self).base,
            final(self).expected@ == old(self).expected@,
            final(self).states@ == (if old(self).states@[fd - old(self).base]
                == FixedSlotState::OwnedOriginal {
                old(self).states@.update(fd - old(self).base, FixedSlotState::NeverOwned)
            } else {
                old(self).states@
            }),
    {
        let at: usize = self.slot(fd);
        if self.states[at] == FixedSlotState::OwnedOriginal {
            self.states.set(at, FixedSlotState::NeverOwned);
        }
    }

    /// The descriptor of a slot has been moved into it.
    pub fn mark_installed(&mut self, fd: RawFd)
        requires
            old(self).wf(),
            old(self).covers(fd),
        ensures
            final(self).base == old(self).base,
            final(self).expected@ == old(self).expected@,
            final(self).states@ == old(self).states@.update(
                fd - old(self).base,
                FixedSlotState::Installed,
            ),
    {
        let at: usize = self.slot(fd);
        self.states.set(at, FixedSlotState::Installed);
    }

    /// The owner of an original descriptor outside the expected slots has
    /// closed it.
    pub fn mark_original_closed(&mut self, fd: RawFd)
        requires
            old(self).wf(),
        ensures
            final(self).base == old(self).base,
            final(self).expected@ == old(self).expected@,
            final(self).states@ == (if old(self).covers(fd) && !old(self).expected@.contains(fd) {
                old(self).states@.update(fd - old(self).base, FixedSlotState::Closed)
            } else {
                old(self).states@
            }),
    {
        let count: usize = self.states.len();
        if fd >= self.base && fd as i64 - (self.base as i64) < count as i64 && !listed(
            &self.expected,
            fd,
        ) {
            let at: usize = self.slot(fd);
            self.states.set(at, FixedSlotState::Closed);
        }
    }

    fn close(&mut self, spare: bool) -> (closed: Vec<RawFd>)
        requires
            old(self).wf(),
        ensures
            final(self).base == old(self).base,
            final(self).expected@ == old(self).expected@,
            final(self).states@ == after_close(
                old(self).base,
                old(self).expected@,
                old(self).states@,
                spare,
            ),
            closed@ == to_close(
                old(self).base,
                old(self).expected@,
                old(self).states@,
                spare,
                old(self).states@.len() as int,
            ),
    {
        let ghost before = self.states@;
        let ghost after = after_close(self.base, self.expected@, before, spare);
        let mut closed: Vec<RawFd> = Vec::new();
        let mut at: usize = 0;
        while at < self.states.len()
            invariant
                at <= self.states@.len() == before.len(),
                self.base == old(self).base,
                self.expected@ == old(self).expected@,
                self.base + before.len() <= i32::MAX + 1 && before.len() <= i32::MAX,
                after == after_close(self.base, self.expected@, before, spare),
                closed@ == to_close(self.base, self.expected@, before, spare, at as int),
                forall|i: int|
                    0 <= i < before.len() ==> #[trigger] self.states@[i] == (if i < at {
                        after[i]
                    } else {
                        before[i]
                    }),
            decreases self.states.len() - at,
        {
            let fd: RawFd = self.base + at as i32;
            let state = self.states[at];
            if (state == FixedSlotState::Installed || state == FixedSlotState::NeverOwned) && !(spare
                && listed(&self.expected, fd)) {
                closed.push(fd);
                self.states.set(at, FixedSlotState::Closed);
            }
            at = at + 1;
        }
        proof {
            assert(self.states@ =~= after);
        }
        closed
    }

    /// The closable slots that are not expected: they are to be closed now.
    pub fn close_unused(&mut self) -> (closed: Vec<RawFd>)
        requires
            old(self).wf(),
        ensures
            final(self).wf(),
            final(self).base == old(self).base,
            final(self).expected@ == old(self).expected@,
            final(self).states@ == after_close(
                old(self).base,
                old(self).expected@,
                old(self).states@,
                true,
            ),
            closed@ == to_close(
                old(self).base,
                old(self).expected@,
                old(self).states@,
                true,
                old(self).states@.len() as int,
            ),
    {
        self.close(true)
    }

    /// The closable slots: they are to be closed now.
    pub fn finish_failure(&mut self) -> (closed: Vec<RawFd>)
        requires
            old(self).wf(),
        ensures
            final(self).wf(),
            final(self).base == old(self).base,
            final(self).expected@ == old(self).expected@,
            final(self).states@ == after_close(
                old(self).base,
                old(self).expected@,
                old(self).states@,
                false,
            ),
            closed@ == to_close(
                old(self).base,
                old(self).expected@,
                old(self).states@,
                false,
                old(self).states@.len() as int,
            ),
    {
        self.close(false)
    }
}

/// No slot is closed twice: after the map has been given up, giving it up again
/// closes nothing and changes nothing.
pub proof fn lemma_slots_close_once(
    base: RawFd,
    expected: Seq<RawFd>,
    states: Seq<FixedSlotState>,
    n: int,
)
    requires
        0 <= n <= states.len(),
    ensures
        to_close(base, expected, after_close(base, expected, states, false), false, n)
            == Seq::<RawFd>::empty(),
        after_close(base, expected, after_close(base, expected, states, false), false)
            == after_close(base, expected, states, false),
    decreases n,
{
    let after = after_close(base, expected, states, false);
    assert(after_close(base, expected, after, false) =~= after);
    if n > 0 {
        lemma_slots_close_once(base, expected, states, n - 1);
        assert(!is_closable(after[n - 1]));
    }
}

// ---------------------------------------------------------------------------
// Roles
// ---------------------------------------------------------------------------
/// What kind of file a descriptor refers to.
#[derive(Clone, Copy, Debug, PartialEq, Eq, Structural)]
pub enum FileType {
    Socket,
    Pipe,
    Regular,
    Directory,
    Other,
}

/// How a descriptor has been opened.
#[derive(Clone, Copy, Debug, PartialEq, Eq, Structural)]
pub enum Access {
    ReadOnly,
    WriteOnly,
    ReadWrite,
    Other,
}

/// What the operating system says of a descriptor; `readable` says that
/// something is waiting on it.
#[derive(Clone, Copy, Debug, PartialEq, Eq, Structural)]
pub struct DescriptorFacts {
    pub file_type: FileType,
    pub access: Access,
    pub readable: bool,
    pub identity: ExecutableIdentity,
}

/// What a role asks of its descriptor.
pub enum RoleDemand {
    /// The slot has no role, or the descriptor is of the wrong kind.
    Refused,
    /// The release gate: nothing may be waiting on it.
    Gate,
    /// The right kind is enough.
    Kind,
    /// The file must be this one.
    Identity(Option<ExecutableIdentity>),
}

/// What the role of a slot asks of a descriptor of this kind.
pub open spec fn demand(slot: RawFd, facts: DescriptorFacts, frame: Frame) -> RoleDemand {
    if slot == CONTROL_FD && facts.file_type == FileType::Socket && facts.access
        == Access::ReadWrite {
        RoleDemand::Kind
    } else if slot == RELEASE_FD && facts.file_type == FileType::Pipe && facts.access
        == Access::ReadOnly {
        RoleDemand::Gate
    } else if slot == EXEC_STATUS_FD && facts.file_type == FileType::Pipe && facts.access
        == Access::WriteOnly {
        RoleDemand::Kind
    } else if slot == TARGET_FD && facts.file_type == FileType::Regular && facts.access
        == Access::ReadOnly {
        RoleDemand::Identity(Some(frame.target_identity))
    } else if slot == PROJECT_ROOT_FD && facts.file_type == FileType::Directory && facts.access
        == Access::ReadOnly {
        RoleDemand::Identity(frame.project_root_identity)
    } else if slot == AGENT_LOG_FD && facts.file_type == FileType::Regular && (facts.access
        == Access::WriteOnly || facts.access == Access::ReadWrite) {
        RoleDemand::Identity(frame.agent_log_identity)
    } else if slot == PUEUE_CONFIG_FD && facts.file_type == FileType::Regular && facts.access
        == Access::ReadOnly {
        RoleDemand::Identity(frame.pueue_config_identity)
    } else if slot == RELEASE_ACK_FD && facts.file_type == FileType::Pipe && facts.access
        == Access::WriteOnly {
        RoleDemand::Kind
    } else {
        RoleDemand::Refused
    }
}

/// Why a descriptor is refused for a slot, if it is.
pub open spec fn role_error(slot: RawFd, facts: DescriptorFacts, frame: Frame) -> Option<
    BootstrapError,
> {
    match demand(slot, facts, frame) {
        RoleDemand::Refused => Some(BootstrapError::WrongRightCount),
        RoleDemand::Gate => if facts.readable {
            Some(BootstrapError::GateClosed)
        } else {
            None
        },
        RoleDemand::Kind => None,
        RoleDemand::Identity(None) => Some(BootstrapError::WrongRightCount),
        RoleDemand::Identity(Some(identity)) => if facts.identity == identity {
            None
        } else {
            Some(BootstrapError::IdentityMismatch)
        },
    }
}

fn check_identity(actual: ExecutableIdentity, expected: Option<ExecutableIdentity>) -> (checked:
    Result<(), BootstrapError>)
    ensures
        match checked {
            Ok(_) => expected == Some(actual),
            Err(error) => error == (match expected {
                None => BootstrapError::WrongRightCount,
                Some(_) => BootstrapError::IdentityMismatch,
            }) && expected != Some(actual),
        },
{
    match expected {
        None => Err(BootstrapError::WrongRightCount),
        Some(identity) => {
            if actual == identity {
                Ok(())
            } else {
                Err(BootstrapError::IdentityMismatch)
            }
        },
    }
}

/// Whether a descriptor may stand in a slot.
pub fn validate_role(slot: RawFd, facts: DescriptorFacts, frame: &ControlFrame) -> (checked: Result<
    (),
    BootstrapError,
>)
    ensures
        match checked {
            Ok(_) => role_error(slot, facts, frame@) is None,
            Err(error) => role_error(slot, facts, frame@) == Some(error),
        },
{
    let kind = facts.file_type;
    let access = facts.access;
    if slot == CONTROL_FD && kind == FileType::Socket && access == Access::ReadWrite {
        Ok(())
    } else if slot == RELEASE_FD && kind == FileType::Pipe && access == Access::ReadOnly {
        if facts.readable {
            Err(BootstrapError::GateClosed)
        } else {
            Ok(())
        }
    } else if slot == EXEC_STATUS_FD && kind == FileType::Pipe && access == Access::WriteOnly {
        Ok(())
    } else if slot == TARGET_FD && kind == FileType::Regular && access == Access::ReadOnly {
        check_identity(facts.identity, Some(frame.target_identity))
    } else if slot == PROJECT_ROOT_FD && kind == FileType::Directory && access == Access::ReadOnly {
        check_identity(facts.identity, frame.project_root_identity)
    } else if slot == AGENT_LOG_FD && kind == FileType::Regular && (access == Access::WriteOnly
        || access == Access::ReadWrite) {
        check_identity(facts.identity, frame.agent_log_identity)
    } else if slot == PUEUE_CONFIG_FD && kind == FileType::Regular && access == Access::ReadOnly {
        check_identity(facts.identity, frame.pueue_config_identity)
    } else if slot == RELEASE_ACK_FD && kind == FileType::Pipe && access == Access::WriteOnly {
        Ok(())
    } else {
        Err(BootstrapError::WrongRightCount)
    }
}

/// The device and the inode of a pipe.
#[derive(Clone, Copy, Debug, PartialEq, Eq, Structural)]
pub struct PipeIdentity {
    pub device: u64,
    pub inode: u64,
}

/// Where a slot's descriptor stands among the rights of a packet.
pub fn right_position(slots: &Vec<RawFd>, role: RawFd) -> (position: Option<usize>)
    ensures
        match position {
            Some(at) => at < slots@.len() && slots@[at as int] == role && forall|i: int|
                0 <= i < at ==> slots@[i] != role,
            None => !slots@.contains(role),
        },
{
    let mut at: usize = 0;
    while at < slots.len()
        invariant
            at <= slots@.len(),
            forall|i: int| 0 <= i < at ==> slots@[i] != role,
        decreases slots.len() - at,
    {
        if slots[at] == role {
            return Some(at);
        }
        at = at + 1;
    }
    None
}

/// The release, status and acknowledgement pipes must be three pipes.
pub fn validate_distinct_pipe_roles(
    release: PipeIdentity,
    exec_status: PipeIdentity,
    release_ack: PipeIdentity,
) -> (checked: Result<(), BootstrapError>)
    ensures
        match checked {
            Ok(_) => release != exec_status && release != release_ack && exec_status != release_ack,
            Err(error) => error == BootstrapError::AliasedPipeRoles && (release == exec_status
                || release == release_ack || exec_status == release_ack),
        },
{
    if release == exec_status || release == release_ack || exec_status == release_ack {
        Err(BootstrapError::AliasedPipeRoles)
    } else {
        Ok(())
    }
}

// ---------------------------------------------------------------------------
// Packets
// ---------------------------------------------------------------------------
/// What came with the first byte of a bootstrap packet.
#[derive(Clone, Copy, Debug, PartialEq, Eq, Structural)]
pub struct PacketFacts {
    pub received: usize,
    pub truncated: bool,
    pub ancillary_count: usize,
    pub invalid_ancillary: bool,
    pub rights: usize,
}

pub open spec fn packet_error(facts: PacketFacts) -> Option<BootstrapError> {
    if facts.received == 0 {
        Some(BootstrapError::EmptyPacket)
    } else if facts.truncated {
        Some(BootstrapError::TruncatedPacket)
    } else if facts.invalid_ancillary || facts.ancillary_count != 1 {
        Some(BootstrapError::UnexpectedAncillary)
    } else if facts.rights == 0 {
        Some(BootstrapError::MissingRights)
    } else if facts.rights > 7 {
        Some(BootstrapError::WrongRightCount)
    } else {
        None
    }
}

/// Whether what came with the first byte is acceptable.
pub fn accept_packet(facts: PacketFacts) -> (checked: Result<(), BootstrapError>)
    ensures
        match checked {
            Ok(_) => packet_error(facts) is None,
            Err(error) => packet_error(facts) == Some(error),
        },
{
    if facts.received == 0 {
        return Err(BootstrapError::EmptyPacket);
    }
    if facts.truncated {
        return Err(BootstrapError::TruncatedPacket);
    }
    if facts.invalid_ancillary || facts.ancillary_count != 1 {
        return Err(BootstrapError::UnexpectedAncillary);
    }
    if facts.rights == 0 {
        return Err(BootstrapError::MissingRights);
    }
    if facts.rights > 7 {
        return Err(BootstrapError::WrongRightCount);
    }
    Ok(())
}

/// The number of bytes of the whole frame, by its header.
pub fn announced_size(header: &[u8]) -> (size: Result<usize, CodecError>)
    requires
        header@.len() == HEADER_SIZE,
    ensures
        match size {
            Ok(n) => header@.take(4) == seq![0x50u8, 0x41u8, 0x45u8, 0x58u8] && n == HEADER_SIZE
                + be_value(header@.subrange(8, 12)) && n <= MAX_FRAME_SIZE,
            Err(error) => error == (if header@.take(4) != seq![0x50u8, 0x41u8, 0x45u8, 0x58u8] {
                CodecError::InvalidMagic
            } else {
                CodecError::FrameTooLarge
            }) && (header@.take(4) != seq![0x50u8, 0x41u8, 0x45u8, 0x58u8] || HEADER_SIZE
                + be_value(header@.subrange(8, 12)) > MAX_FRAME_SIZE),
        },
{
    proof {
        let magic = header@.take(4);
        assert(magic.len() == 4);
        assert(magic[0] == header@[0] && magic[1] == header@[1] && magic[2] == header@[2]
            && magic[3] == header@[3]);
    }
    if header[0] != 0x50 || header[1] != 0x41 || header[2] != 0x45 || header[3] != 0x58 {
        return Err(CodecError::InvalidMagic);
    }
    proof {
        assert(header@.take(4) =~= seq![0x50u8, 0x41u8, 0x45u8, 0x58u8]);
        lemma_bytes_of_value(header@.subrange(8, 12));
        lemma_capacities();
    }
    let length: u64 = read_be(slice_subrange(header, 8, 12));
    if length > (MAX_FRAME_SIZE - HEADER_SIZE) as u64 {
        return Err(CodecError::FrameTooLarge);
    }
    Ok(HEADER_SIZE + length as usize)
}

/// What a whole packet with this many rights is: its frame, or an error.
pub open spec fn packet_frame(bytes: Seq<u8>, rights: int) -> Result<Frame, BootstrapError> {
    match decoded(bytes) {
        Err(error) => Err(BootstrapError::Codec(error)),
        Ok(frame) => if shape_error(frame) is Some {
            Err(BootstrapError::Codec(shape_error(frame)->0))
        } else if rights != slots_of(frame).len() - 1 {
            Err(BootstrapError::WrongRightCount)
        } else {
            Ok(frame)
        },
    }
}

/// Reads the frame of a packet and checks that as many descriptors came with it
/// as it announces.
pub fn accept_frame(bytes: &[u8], rights: usize) -> (frame: Result<ControlFrame, BootstrapError>)
    ensures
        match frame {
            Ok(f) => packet_frame(bytes@, rights as int) == Ok::<Frame, BootstrapError>(f@),
            Err(error) => packet_frame(bytes@, rights as int) == Err::<Frame, BootstrapError>(
                error,
            ),
        },
{
    let frame = match decode_control_frame(bytes) {
        Ok(frame) => frame,
        Err(error) => {
            return Err(BootstrapError::Codec(error));
        },
    };
    match bootstrap_right_slots(&frame) {
        Ok(slots) => {
            if rights != slots.len() {
                Err(BootstrapError::WrongRightCount)
            } else {
                Ok(frame)
            }
        },
        Err(error) => Err(BootstrapError::Codec(error)),
    }
}

/// The bytes that are sent for a frame with this many rights.
pub fn prepare_packet(frame: &ControlFrame, rights: usize) -> (bytes: Result<
    Vec<u8>,
    BootstrapError,
>)
    ensures
        match bytes {
            Ok(b) => shape_error(frame@) is None && b@ == crate::frame::encoded(frame@) && b@.len()
                <= MAX_FRAME_SIZE && rights == slots_of(frame@).len() - 1 && packet_frame(
                b@,
                rights as int,
            ) == Ok::<Frame, BootstrapError>(frame@),
            Err(BootstrapError::Codec(error)) => shape_error(frame@) == Some(error) || (
            shape_error(frame@) is None && error == CodecError::FrameTooLarge
                && crate::frame::encoded(frame@).len() > MAX_FRAME_SIZE),
            Err(error) => error == BootstrapError::WrongRightCount && shape_error(frame@) is None
                && crate::frame::encoded(frame@).len() <= MAX_FRAME_SIZE && rights != slots_of(
                frame@,
            ).len() - 1,
        },
{
    let bytes = match frame.encode() {
        Ok(bytes) => bytes,
        Err(error) => {
            return Err(BootstrapError::Codec(error));
        },
    };
    match bootstrap_right_slots(frame) {
        Ok(slots) => {
            if rights != slots.len() {
                return Err(BootstrapError::WrongRightCount);
            }
        },
        Err(error) => {
            return Err(BootstrapError::Codec(error));
        },
    }
    Ok(bytes)
}

// ---------------------------------------------------------------------------
// Readiness
// ---------------------------------------------------------------------------
/// The record by which the helper says that every descriptor is in place.
pub open spec fn ready_record() -> Seq<u8> {
    seq![0x50u8, 0x41u8, 0x45u8, 0x52u8, 1u8, 0u8, 0u8, 0u8]
}

/// The bytes of the helper's readiness record.
pub fn helper_ready_record() -> (record: Vec<u8>)
    ensures
        record@ == ready_record(),
{
    let mut record: Vec<u8> = Vec::new();
    record.push(0x50);
    record.push(0x41);
    record.push(0x45);
    record.push(0x52);
    record.push(1);
    record.push(0);
    record.push(0);
    record.push(0);
    proof {
        assert(record@ =~= ready_record());
    }
    record
}

/// The record by which the helper says that it has failed.
pub fn helper_failed_record() -> (record: Vec<u8>)
    ensures
        record@ == ready_record().update(5, 1u8),
{
    let mut record = helper_ready_record();
    record.set(5, 1);
    record
}

/// How a read from the helper ended.
#[derive(Clone, Copy, Debug, PartialEq, Eq, Structural)]
pub enum ReadEnd {
    Bytes(usize),
    Interrupted,
    TimedOut,
    Failed,
}

/// What the supervisor does next while it waits for the helper's record.
#[derive(Debug)]
pub enum ReadinessStep {
    ReadMore,
    CheckTrailing,
    Reject,
    Fail,
}

/// What follows a read while `have` of the eight bytes of the record are there.
pub fn readiness_step(have: usize, end: ReadEnd) -> (step: ReadinessStep)
    requires
        have < 8,
        end matches ReadEnd::Bytes(n) ==> n <= 8 - have,
    ensures
        step == (match end {
            ReadEnd::Bytes(0) => ReadinessStep::Reject,
            ReadEnd::Bytes(n) => if have + n == 8 {
                ReadinessStep::CheckTrailing
            } else {
                ReadinessStep::ReadMore
            },
            ReadEnd::Interrupted => ReadinessStep::ReadMore,
            ReadEnd::TimedOut => ReadinessStep::Reject,
            ReadEnd::Failed => ReadinessStep::Fail,
        }),
{
    match end {
        ReadEnd::Bytes(n) => {
            if n == 0 {
                ReadinessStep::Reject
            } else if n == 8 - have {
                ReadinessStep::CheckTrailing
            } else {
                ReadinessStep::ReadMore
            }
        },
        ReadEnd::Interrupted => ReadinessStep::ReadMore,
        ReadEnd::TimedOut => ReadinessStep::Reject,
        ReadEnd::Failed => ReadinessStep::Fail,
    }
}

/// Whether the helper is ready: the record is the right one and nothing comes
/// after it.
pub fn readiness_verdict(record: &[u8], after: ReadEnd) -> (verdict: Result<(), ProcessLaunchError>)
    ensures
        match verdict {
            Ok(_) => record@ == ready_record() && after == ReadEnd::Bytes(0),
            Err(error) => error == (if record@ != ready_record() {
                ProcessLaunchError::ReadinessRejected
            } else {
                match after {
                    ReadEnd::Bytes(_) => ProcessLaunchError::ReadinessRejected,
                    ReadEnd::TimedOut => ProcessLaunchError::ReadinessRejected,
                    _ => ProcessLaunchError::Io,
                }
            }) && !(record@ == ready_record() && after == ReadEnd::Bytes(0)),
        },
{
    let expected = helper_ready_record();
    if !same_bytes(record, expected.as_slice()) {
        return Err(ProcessLaunchError::ReadinessRejected);
    }
    match after {
        ReadEnd::Bytes(n) => {
            if n == 0 {
                Ok(())
            } else {
                Err(ProcessLaunchError::ReadinessRejected)
            }
        },
        ReadEnd::TimedOut => Err(ProcessLaunchError::ReadinessRejected),
        ReadEnd::Interrupted => Err(ProcessLaunchError::Io),
        ReadEnd::Failed => Err(ProcessLaunchError::Io),
    }
}

/// A descriptor is right for its slot exactly where it is of the kind of the
/// slot and, for a file, the very one that the frame names; and nothing may wait
/// to be read behind the release of the agent.
pub proof fn lemma_which_descriptors_are_right(slot: RawFd, facts: DescriptorFacts, frame: Frame)
    ensures
        role_error(slot, facts, frame) is None <==> {
            ||| slot == 3 && facts.file_type is Socket && facts.access is ReadWrite
            ||| slot == 4 && facts.file_type is Pipe && facts.access is ReadOnly && !facts.readable
            ||| (slot == 5 || slot == 10) && facts.file_type is Pipe && facts.access is WriteOnly
            ||| slot == 6 && facts.file_type is Regular && facts.access is ReadOnly
                && facts.identity == frame.target_identity
            ||| slot == 7 && facts.file_type is Directory && facts.access is ReadOnly
                && frame.project_root_identity == Some(facts.identity)
            ||| slot == 8 && facts.file_type is Regular && (facts.access is WriteOnly
                || facts.access is ReadWrite) && frame.agent_log_identity == Some(facts.identity)
            ||| slot == 9 && facts.file_type is Regular && facts.access is ReadOnly
                && frame.pueue_config_identity == Some(facts.identity)
        },
        slot == 4 && facts.file_type is Pipe && facts.access is ReadOnly && facts.readable
            ==> role_error(slot, facts, frame) == Some(BootstrapError::GateClosed),
{
}

/// The first packet is accepted exactly where something came, whole, with one
/// message beside it that carries one to seven descriptors.
pub proof fn lemma_which_packets_are_accepted(facts: PacketFacts)
    ensures
        packet_error(facts) is None <==> facts.received > 0 && !facts.truncated
            && !facts.invalid_ancillary && facts.ancillary_count == 1 && 1 <= facts.rights <= 7,
        facts.received == 0 ==> packet_error(facts) == Some(BootstrapError::EmptyPacket),
        facts.received > 0 && facts.truncated ==> packet_error(facts) == Some(
            BootstrapError::TruncatedPacket,
        ),
{
}

/// A packet gives the frame that its bytes hold exactly where that frame is
/// sound and as many descriptors came with it as it has slots to fill.
pub proof fn lemma_which_packets_give_a_frame(bytes: Seq<u8>, rights: int, frame: Frame)
    ensures
        packet_frame(bytes, rights) == Ok::<Frame, BootstrapError>(frame) <==> decoded(bytes)
            == Ok::<Frame, CodecError>(frame) && shape_error(frame) is None && rights == slots_of(
            frame,
        ).len() - 1,
        decoded(bytes) matches Err(error) ==> packet_frame(bytes, rights) == Err::<
            Frame,
            BootstrapError,
        >(BootstrapError::Codec(error)),
{
}

/// What is closed are the slots that were filled or are not owned, without those
/// that are to be kept; and afterwards they are closed.
pub proof fn lemma_which_slots_are_closed(
    base: RawFd,
    expected: Seq<RawFd>,
    states: Seq<FixedSlotState>,
    spare: bool,
    n: int,
    i: int,
)
    requires
        0 <= n <= states.len(),
        0 <= i < n,
        base + states.len() <= i32::MAX + 1,
    ensures
        ({
            let fd = (base + i) as RawFd;
            let closes = (states[i] is Installed || states[i] is NeverOwned) && !(spare
                && expected.contains(fd));
            &&& to_close(base, expected, states, spare, n).contains(fd) <==> closes
            &&& after_close(base, expected, states, spare)[i] == if closes {
                FixedSlotState::Closed
            } else {
                states[i]
            }
        }),
{
    lemma_closed_up_to(base, expected, states, spare, n, i);
}

proof fn lemma_closed_up_to(
    base: RawFd,
    expected: Seq<RawFd>,
    states: Seq<FixedSlotState>,
    spare: bool,
    n: int,
    i: int,
)
    requires
        0 <= n <= states.len(),
        0 <= i < states.len(),
        base + states.len() <= i32::MAX + 1,
    ensures
        to_close(base, expected, states, spare, n).contains((base + i) as RawFd) <==> i < n
            && is_closable(states[i]) && !(spare && expected.contains((base + i) as RawFd)),
    decreases n,
{
    if n > 0 {
        lemma_closed_up_to(base, expected, states, spare, n - 1, i);
        let all = to_close(base, expected, states, spare, n);
        let earlier = to_close(base, expected, states, spare, n - 1);
        let fd = (base + i) as RawFd;
        let last = (base + n - 1) as RawFd;
        assert(fd == base + i);
        assert(last == base + n - 1);
        if is_closable(states[n - 1]) && !(spare && expected.contains(last)) {
            assert(all == earlier.push(last));
            assert(all[earlier.len() as int] == last);
            if earlier.contains(fd) {
                let k = choose|k: int| 0 <= k < earlier.len() && earlier[k] == fd;
                assert(all[k] == fd);
            }
            if all.contains(fd) && fd != last {
                let k = choose|k: int| 0 <= k < all.len() && all[k] == fd;
                assert(earlier[k] == fd);
            }
        }
    }
}

} // verus!
