//! The control protocol between the supervisor and its launch helper: one
//! length-delimited frame, and the fixed descriptors that go with it.

use vstd::prelude::*;
use vstd::slice::*;


pub use crate::bootstrap::{
    bootstrap_right_slots, bootstrap_slots, BootstrapError, FixedSlotState, FixedSlotTracker,
    ProcessLaunchError,
};
pub use crate::frame::{encode_control_frame, ControlFrame};
pub use crate::frame_read::decode_control_frame;
pub use crate::reception::run_internal_launch;

verus! {

// ---------------------------------------------------------------------------
// Descriptors
// ---------------------------------------------------------------------------
/// The number of an open file.
pub type RawFd = i32;

pub const CONTROL_FD: RawFd = 3;

pub const RELEASE_FD: RawFd = 4;

pub const EXEC_STATUS_FD: RawFd = 5;

pub const TARGET_FD: RawFd = 6;

pub const PROJECT_ROOT_FD: RawFd = 7;

pub const AGENT_LOG_FD: RawFd = 8;

pub const PUEUE_CONFIG_FD: RawFd = 9;

pub const RELEASE_ACK_FD: RawFd = 10;

/// Another name for the descriptor of the final acknowledgement.
pub const ACK_FD: RawFd = RELEASE_ACK_FD;

pub const MAX_FRAME_SIZE: usize = 0x10_0000;

pub const MAX_ARGV: usize = 256;

pub const MAX_ENV: usize = 128;

pub const MAX_FIELD_SIZE: usize = 0x1_0000;

pub const HEADER_SIZE: usize = 12;

pub const FLAG_PROJECT_ROOT: u16 = 1;

pub const FLAG_AGENT_LOG: u16 = 2;

pub const FLAG_PUEUE_CONFIG: u16 = 4;

pub const FLAG_PROCESS_GROUP: u16 = 8;

pub const KNOWN_FLAGS: u16 = 15;

pub const FIELD_ARGV: u8 = 1;

pub const FIELD_ENV: u8 = 2;

pub const FIELD_TARGET_IDENTITY: u8 = 3;

pub const FIELD_CWD: u8 = 4;

pub const FIELD_PROJECT_ROOT_IDENTITY: u8 = 5;

pub const FIELD_AGENT_LOG_IDENTITY: u8 = 6;

pub const FIELD_PUEUE_CONFIG_IDENTITY: u8 = 7;

/// The descriptor numbers that helper and supervisor agree on.
#[derive(Clone, Copy, Debug, PartialEq, Eq, Structural)]
pub struct FixedFdContract {
    pub control: RawFd,
    pub release: RawFd,
    pub exec_status: RawFd,
    pub target: RawFd,
    pub project_root: RawFd,
    pub agent_log: RawFd,
    pub pueue_config: RawFd,
    pub release_ack: RawFd,
}

/// The one contract that is in use.
pub open spec fn standard_contract() -> FixedFdContract {
    FixedFdContract {
        control: 3,
        release: 4,
        exec_status: 5,
        target: 6,
        project_root: 7,
        agent_log: 8,
        pueue_config: 9,
        release_ack: 10,
    }
}

impl FixedFdContract {
    pub fn standard() -> (contract: Self)
        ensures
            contract == standard_contract(),
    {
        FixedFdContract {
            control: CONTROL_FD,
            release: RELEASE_FD,
            exec_status: EXEC_STATUS_FD,
            target: TARGET_FD,
            project_root: PROJECT_ROOT_FD,
            agent_log: AGENT_LOG_FD,
            pueue_config: PUEUE_CONFIG_FD,
            release_ack: RELEASE_ACK_FD,
        }
    }

    pub fn is_standard(self) -> (yes: bool)
        ensures
            yes == (self == standard_contract()),
    {
        self.control == CONTROL_FD && self.release == RELEASE_FD && self.exec_status
            == EXEC_STATUS_FD && self.target == TARGET_FD && self.project_root == PROJECT_ROOT_FD
            && self.agent_log == AGENT_LOG_FD && self.pueue_config == PUEUE_CONFIG_FD
            && self.release_ack == RELEASE_ACK_FD
    }
}

impl Default for FixedFdContract {
    fn default() -> (contract: Self)
        ensures
            contract == standard_contract(),
    {
        FixedFdContract::standard()
    }
}

// ---------------------------------------------------------------------------
// Modes, flags and errors
// ---------------------------------------------------------------------------
/// Why a frame cannot be written or read.
#[derive(Clone, Copy, Debug, PartialEq, Eq, Structural)]
pub enum CodecError {
    Truncated,
    InvalidMagic,
    UnsupportedVersion,
    UnknownMode,
    UnknownFlags,
    FrameTooLarge,
    LengthOverflow,
    FieldTooLarge,
    TooManyArguments,
    TooManyEnvironmentEntries,
    DuplicateEnvironmentName,
    InvalidEnvironmentName,
    NulByte,
    InvalidField,
    UnknownField(u8),
    DuplicateField(u8),
    MissingField(u8),
    UnexpectedField(u8),
    NonIncreasingFieldOrder,
    TrailingBytes,
    InvalidIdentity,
    MissingProcessGroup,
    TooManyFields,
}

impl CodecError {
    /// The text that is shown for the error.
    pub open spec fn label(self) -> Seq<char> {
        match self {
            CodecError::Truncated => "truncated control frame"@,
            CodecError::InvalidMagic => "invalid control frame magic"@,
            CodecError::UnsupportedVersion => "unsupported control frame version"@,
            CodecError::UnknownMode => "unknown launch mode"@,
            CodecError::UnknownFlags => "unknown launch flags"@,
            CodecError::FrameTooLarge => "control frame is too large"@,
            CodecError::LengthOverflow => "control frame length overflows"@,
            CodecError::FieldTooLarge => "control frame field is too large"@,
            CodecError::TooManyArguments => "too many argv entries"@,
            CodecError::TooManyEnvironmentEntries => "too many environment entries"@,
            CodecError::DuplicateEnvironmentName => "duplicate environment name"@,
            CodecError::InvalidEnvironmentName => "invalid environment name"@,
            CodecError::NulByte => "NUL byte in control frame field"@,
            CodecError::InvalidField => "invalid control frame field"@,
            CodecError::UnknownField(_) => "unknown control frame field"@,
            CodecError::DuplicateField(_) => "duplicate control frame field"@,
            CodecError::MissingField(_) => "missing control frame field"@,
            CodecError::UnexpectedField(_) => "unexpected control frame field"@,
            CodecError::NonIncreasingFieldOrder => "control frame fields are not in canonical order"@,
            CodecError::TrailingBytes => "trailing control frame bytes"@,
            CodecError::InvalidIdentity => "invalid identity field"@,
            CodecError::MissingProcessGroup => "process-group flag is required"@,
            CodecError::TooManyFields => "too many control frame fields"@,
        }
    }

    pub fn text(self) -> (text: &'static str)
        ensures
            text@ == self.label(),
    {
        match self {
            CodecError::Truncated => "truncated control frame",
            CodecError::InvalidMagic => "invalid control frame magic",
            CodecError::UnsupportedVersion => "unsupported control frame version",
            CodecError::UnknownMode => "unknown launch mode",
            CodecError::UnknownFlags => "unknown launch flags",
            CodecError::FrameTooLarge => "control frame is too large",
            CodecError::LengthOverflow => "control frame length overflows",
            CodecError::FieldTooLarge => "control frame field is too large",
            CodecError::TooManyArguments => "too many argv entries",
            CodecError::TooManyEnvironmentEntries => "too many environment entries",
            CodecError::DuplicateEnvironmentName => "duplicate environment name",
            CodecError::InvalidEnvironmentName => "invalid environment name",
            CodecError::NulByte => "NUL byte in control frame field",
            CodecError::InvalidField => "invalid control frame field",
            CodecError::UnknownField(_) => "unknown control frame field",
            CodecError::DuplicateField(_) => "duplicate control frame field",
            CodecError::MissingField(_) => "missing control frame field",
            CodecError::UnexpectedField(_) => "unexpected control frame field",
            CodecError::NonIncreasingFieldOrder => "control frame fields are not in canonical order",
            CodecError::TrailingBytes => "trailing control frame bytes",
            CodecError::InvalidIdentity => "invalid identity field",
            CodecError::MissingProcessGroup => "process-group flag is required",
            CodecError::TooManyFields => "too many control frame fields",
        }
    }
}

/// What the helper is to start.
#[derive(Clone, Copy, Debug, PartialEq, Eq, Structural)]
pub enum LaunchMode {
    Agent,
    Pueue,
}

impl LaunchMode {
    /// The byte that stands for the mode.
    pub open spec fn spec_code(self) -> u8 {
        match self {
            LaunchMode::Agent => 1,
            LaunchMode::Pueue => 2,
        }
    }

    pub fn code(self) -> (byte: u8)
        ensures
            byte == self.spec_code(),
    {
        match self {
            LaunchMode::Agent => 1,
            LaunchMode::Pueue => 2,
        }
    }
}

/// The mode that a byte stands for.
pub open spec fn mode_of(byte: u8) -> Result<LaunchMode, CodecError> {
    if byte == 1 {
        Ok(LaunchMode::Agent)
    } else if byte == 2 {
        Ok(LaunchMode::Pueue)
    } else {
        Err(CodecError::UnknownMode)
    }
}

impl TryFrom<u8> for LaunchMode {
    type Error = CodecError;

    fn try_from(value: u8) -> (mode: Result<LaunchMode, CodecError>) {
        match value {
            1 => Ok(LaunchMode::Agent),
            2 => Ok(LaunchMode::Pueue),
            _ => Err(CodecError::UnknownMode),
        }
    }
}

impl vstd::std_specs::convert::TryFromSpecImpl<u8> for LaunchMode {
    open spec fn obeys_try_from_spec() -> bool {
        true
    }

    open spec fn try_from_spec(value: u8) -> Result<LaunchMode, CodecError> {
        mode_of(value)
    }
}

/// Which descriptors a frame comes with, and whether the target leads a process
/// group of its own.
#[derive(Clone, Copy, Debug, PartialEq, Eq, Structural)]
pub struct LaunchFlags {
    pub bits: u16,
}

impl LaunchFlags {
    /// No flag.
    pub fn none() -> (flags: Self)
        ensures
            flags.bits == 0,
    {
        LaunchFlags { bits: 0 }
    }

    /// A project root comes with the frame.
    pub fn project_root() -> (flags: Self)
        ensures
            flags.bits == FLAG_PROJECT_ROOT,
    {
        LaunchFlags { bits: FLAG_PROJECT_ROOT }
    }

    /// An agent log comes with the frame.
    pub fn agent_log() -> (flags: Self)
        ensures
            flags.bits == FLAG_AGENT_LOG,
    {
        LaunchFlags { bits: FLAG_AGENT_LOG }
    }

    /// A Pueue configuration comes with the frame.
    pub fn pueue_config() -> (flags: Self)
        ensures
            flags.bits == FLAG_PUEUE_CONFIG,
    {
        LaunchFlags { bits: FLAG_PUEUE_CONFIG }
    }

    /// The target leads a process group.
    pub fn process_group() -> (flags: Self)
        ensures
            flags.bits == FLAG_PROCESS_GROUP,
    {
        LaunchFlags { bits: FLAG_PROCESS_GROUP }
    }

    pub fn bits(self) -> (bits: u16)
        ensures
            bits == self.bits,
    {
        self.bits
    }

    /// Every flag of `other` is set.
    pub open spec fn has(self, other: u16) -> bool {
        self.bits & other == other
    }

    pub fn contains(self, other: Self) -> (yes: bool)
        ensures
            yes == self.has(other.bits),
    {
        self.bits & other.bits == other.bits
    }

    pub fn union(self, other: Self) -> (both: Self)
        ensures
            both.bits == self.bits | other.bits,
    {
        LaunchFlags { bits: self.bits | other.bits }
    }

    /// No other flag than the known ones is set.
    pub open spec fn is_known(self) -> bool {
        self.bits & !KNOWN_FLAGS == 0
    }

    pub fn from_bits(bits: u16) -> (flags: Result<Self, CodecError>)
        ensures
            flags == (if bits & !KNOWN_FLAGS == 0 {
                Ok::<LaunchFlags, CodecError>(LaunchFlags { bits })
            } else {
                Err::<LaunchFlags, CodecError>(CodecError::UnknownFlags)
            }),
    {
        if bits & !KNOWN_FLAGS != 0 {
            Err(CodecError::UnknownFlags)
        } else {
            Ok(LaunchFlags { bits })
        }
    }
}

impl core::ops::BitOr for LaunchFlags {
    type Output = LaunchFlags;

    fn bitor(self, rhs: LaunchFlags) -> (both: LaunchFlags) {
        self.union(rhs)
    }
}

impl vstd::std_specs::ops::BitOrSpecImpl for LaunchFlags {
    open spec fn obeys_bitor_spec() -> bool {
        true
    }

    open spec fn bitor_req(self, rhs: LaunchFlags) -> bool {
        true
    }

    open spec fn bitor_spec(self, rhs: LaunchFlags) -> LaunchFlags {
        LaunchFlags { bits: self.bits | rhs.bits }
    }
}

/// The modes of a launch by their numbers.
pub proof fn lemma_numbers_of_modes(byte: u8, mode: LaunchMode)
    ensures
        mode_of(mode.spec_code()) == Ok::<LaunchMode, CodecError>(mode),
        mode_of(byte) is Ok <==> byte == 1 || byte == 2,
        mode_of(1) == Ok::<LaunchMode, CodecError>(LaunchMode::Agent),
        mode_of(2) == Ok::<LaunchMode, CodecError>(LaunchMode::Pueue),
{
}

/// A union of flags has what either has, and only the four lowest bits are
/// known.
pub proof fn lemma_unions_of_flags(a: LaunchFlags, b: LaunchFlags, flag: u16)
    requires
        flag == 1 || flag == 2 || flag == 4 || flag == 8,
    ensures
        (LaunchFlags { bits: a.bits | b.bits }).has(flag) <==> a.has(flag) || b.has(flag),
        (LaunchFlags { bits: a.bits | b.bits }).is_known() <==> a.is_known() && b.is_known(),
        a.is_known() <==> a.bits < 16,
{
    let x = a.bits;
    let y = b.bits;
    assert(((x | y) & flag == flag) <==> (x & flag == flag || y & flag == flag)) by (bit_vector)
        requires
            flag == 1u16 || flag == 2u16 || flag == 4u16 || flag == 8u16,
    ;
    assert(((x | y) & !15u16 == 0) <==> (x & !15u16 == 0 && y & !15u16 == 0)) by (bit_vector);
    assert((x & !15u16 == 0) <==> x < 16) by (bit_vector);
}

} // verus!
