//! The tail of a log, as it is taken for evidence.

use vstd::prelude::*;
use vstd::string::*;
use vstd::utf8::encode_utf8;

use crate::digest::{hex, hex_text};
use crate::error::AppError;
use crate::execution_policy::{
    LogUnsafeReason, PolicyViolation, PolicyViolationCode, PolicyViolationDetail,
    PolicyViolationStage,
};
use crate::text::{append_text, chars_of, decimal_digits, digits_of, extend, string_of};
use crate::wire::{be_bytes, push_be};

verus! {

/// The text that `String::from_utf8_lossy` makes of bytes.
pub uninterp spec fn lossy_text(bytes: Seq<u8>) -> Seq<char>;

/// `String::from_utf8_lossy` takes bytes as text. Bytes that are the UTF-8 form
/// of a text give that text; in others it replaces what is no UTF-8.
#[verifier::external_body]
fn text_from_bytes(bytes: &[u8]) -> (text: String)
    ensures
        text@ == lossy_text(bytes@),
        forall|s: Seq<char>| #[trigger] encode_utf8(s) == bytes@ ==> text@ == s,
{
    String::from_utf8_lossy(bytes).into_owned()
}

/// The end of a log, with what tells it apart from another state of the log.
#[derive(Debug, Clone, PartialEq, Eq)]
pub struct LogSnapshot {
    pub byte_size: u64,
    pub modified_at_nanos: Option<u128>,
    pub fingerprint: String,
    pub evidence: String,
}

/// The 64-bit FNV-1a hash of bytes.
pub open spec fn fnv1a64(bytes: Seq<u8>) -> u64
    decreases bytes.len(),
{
    if bytes.len() == 0 {
        0xcbf2_9ce4_8422_2325u64
    } else {
        let mixed = fnv1a64(bytes.drop_last()) ^ (bytes.last() as u64);
        ((mixed as nat * 0x0000_0100_0000_01b3nat) % 0x1_0000_0000_0000_0000nat) as u64
    }
}

fn hash_bytes(bytes: &[u8]) -> (hash: u64)
    ensures
        hash == fnv1a64(bytes@),
{
    let mut hash: u64 = 0xcbf2_9ce4_8422_2325;
    let mut at: usize = 0;
    proof {
        assert(bytes@.take(0) =~= Seq::<u8>::empty());
    }
    while at < bytes.len()
        invariant
            at <= bytes@.len(),
            bytes.len() == bytes@.len(),
            hash == fnv1a64(bytes@.take(at as int)),
        decreases bytes.len() - at,
    {
        proof {
            assert(bytes@.take(at + 1).drop_last() =~= bytes@.take(at as int));
            assert(bytes@.take(at + 1).last() == bytes@[at as int]);
        }
        hash = hash ^ (bytes[at] as u64);
        hash = hash.wrapping_mul(0x0000_0100_0000_01b3);
        at = at + 1;
    }
    proof {
        assert(bytes@.take(bytes@.len() as int) =~= bytes@);
    }
    hash
}

fn wide_digits(n: u128) -> (digits: Vec<char>)
    ensures
        digits@ == digits_of(n as nat),
    decreases n,
{
    if n <= u64::MAX as u128 {
        decimal_digits(n as u64)
    } else {
        let mut digits = wide_digits(n / 10);
        let low: u8 = (n % 10) as u8;
        digits.push((48u8 + low) as char);
        digits
    }
}

/// What tells a state of a log apart: its size, when it was changed, and a hash
/// of its tail.
pub open spec fn fingerprint_of(byte_size: nat, modified_at_nanos: Option<u128>, tail: Seq<u8>) -> Seq<
    char,
> {
    "log:v1:size="@ + digits_of(byte_size) + ":mtime="@ + (match modified_at_nanos {
        Some(nanos) => digits_of(nanos as nat),
        None => "unknown"@,
    }) + ":tail="@ + hex(be_bytes(fnv1a64(tail) as nat, 8))
}

/// Where the tail of a file begins, and how long it is.
pub fn tail_range(byte_size: u64, tail_bytes: u32) -> (range: (u64, u64))
    ensures
        range.1 == (if byte_size < tail_bytes {
            byte_size as int
        } else {
            tail_bytes as int
        }),
        range.0 + range.1 == byte_size,
{
    let length: u64 = if byte_size < tail_bytes as u64 {
        byte_size
    } else {
        tail_bytes as u64
    };
    (byte_size - length, length)
}

impl LogSnapshot {
    /// Takes the tail of a log.
    pub fn read_tail(byte_size: u64, modified_at_nanos: Option<u128>, tail: &[u8]) -> (snapshot: Self)
        ensures
            snapshot.byte_size == byte_size,
            snapshot.modified_at_nanos == modified_at_nanos,
            snapshot.fingerprint@ == fingerprint_of(byte_size as nat, modified_at_nanos, tail@),
            snapshot.evidence@ == lossy_text(tail@),
            forall|s: Seq<char>| #[trigger] encode_utf8(s) == tail@ ==> snapshot.evidence@ == s,
    {
        let mut chars = chars_of("log:v1:size=");
        let size = decimal_digits(byte_size);
        extend(&mut chars, size.as_slice());
        append_text(&mut chars, ":mtime=");
        match modified_at_nanos {
            Some(nanos) => {
                let digits = wide_digits(nanos);
                extend(&mut chars, digits.as_slice());
            },
            None => append_text(&mut chars, "unknown"),
        }
        append_text(&mut chars, ":tail=");
        let mut bytes: Vec<u8> = Vec::new();
        push_be(&mut bytes, hash_bytes(tail), 8);
        proof {
            assert(bytes@ =~= be_bytes(fnv1a64(tail@) as nat, 8));
        }
        let digits = hex_text(bytes.as_slice());
        append_text(&mut chars, digits.as_str());
        LogSnapshot {
            byte_size,
            modified_at_nanos,
            fingerprint: string_of(chars.as_slice()),
            evidence: text_from_bytes(tail),
        }
    }
}

pub open spec fn unsafe_log(reason: LogUnsafeReason) -> PolicyViolation {
    PolicyViolation {
        code: PolicyViolationCode::LogUnsafe,
        stage: PolicyViolationStage::NativeGate,
        detail: PolicyViolationDetail::LogUnsafe(reason),
    }
}

pub open spec fn is_violation(error: AppError, violation: PolicyViolation) -> bool {
    error matches AppError::PolicyViolation { violation: own } && own == violation
}

fn refuse(reason: LogUnsafeReason) -> (error: AppError)
    ensures
        is_violation(error, unsafe_log(reason)),
{
    AppError::PolicyViolation {
        violation: PolicyViolation::with_detail(
            PolicyViolationCode::LogUnsafe,
            PolicyViolationStage::NativeGate,
            PolicyViolationDetail::LogUnsafe(reason),
        ),
    }
}

/// What opening a log gave.
#[derive(Debug, Clone, Copy, PartialEq, Eq, Structural)]
pub enum LogOpened {
    /// The last component of the path is a symbolic link.
    Symlink,
    File { is_dir: bool, is_file: bool },
}

/// Accepts a log that was opened: a regular file, reached without a link.
pub fn check_log_opened(opened: LogOpened) -> (checked: Result<(), AppError>)
    ensures
        match opened {
            LogOpened::Symlink => checked matches Err(error) && is_violation(
                error,
                unsafe_log(LogUnsafeReason::Symlink),
            ),
            LogOpened::File { is_dir, is_file } => if is_dir {
                checked matches Err(error) && is_violation(
                    error,
                    unsafe_log(LogUnsafeReason::Directory),
                )
            } else if !is_file {
                checked matches Err(error) && is_violation(
                    error,
                    unsafe_log(LogUnsafeReason::Device),
                )
            } else {
                checked is Ok
            },
        },
{
    match opened {
        LogOpened::Symlink => Err(refuse(LogUnsafeReason::Symlink)),
        LogOpened::File { is_dir, is_file } => if is_dir {
            Err(refuse(LogUnsafeReason::Directory))
        } else if !is_file {
            Err(refuse(LogUnsafeReason::Device))
        } else {
            Ok(())
        },
    }
}

/// The fingerprint of a log tells its size, its last change and a digest of its
/// tail, which takes in one byte after the other.
pub proof fn lemma_fingerprint_of_a_log(bytes: Seq<u8>, byte: u8, size: nat, nanos: u128)
    ensures
        fnv1a64(Seq::empty()) == 0xcbf2_9ce4_8422_2325u64,
        fnv1a64(bytes.push(byte)) as nat == (((fnv1a64(bytes) ^ (byte as u64)) as nat)
            * 0x100_0000_01b3) % 0x1_0000_0000_0000_0000nat,
        fingerprint_of(size, Some(nanos), bytes) == "log:v1:size="@ + digits_of(size) + ":mtime="@
            + digits_of(nanos as nat) + ":tail="@ + hex(be_bytes(fnv1a64(bytes) as nat, 8)),
        fingerprint_of(size, None, bytes) == "log:v1:size="@ + digits_of(size) + ":mtime="@
            + "unknown"@ + ":tail="@ + hex(be_bytes(fnv1a64(bytes) as nat, 8)),
{
    assert(bytes.push(byte).drop_last() =~= bytes);
}

/// An unsafe log breaks a rule of the policy at the launch, with its reason.
pub proof fn lemma_unsafe_logs(reason: LogUnsafeReason)
    ensures
        unsafe_log(reason).code is LogUnsafe,
        unsafe_log(reason).stage is NativeGate,
        unsafe_log(reason).detail == PolicyViolationDetail::LogUnsafe(reason),
{
}

/// A violation is told as it is.
pub proof fn lemma_violations_are_told(error: AppError, violation: PolicyViolation)
    ensures
        is_violation(error, violation) <==> error == (AppError::PolicyViolation { violation }),
{
}

} // verus!
