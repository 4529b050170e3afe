//! One command of the task queue: its arguments, the bound on its output, and
//! what its end means.

use vstd::prelude::*;
use vstd::string::*;
use vstd::utf8::encode_utf8;

use crate::error::{invalid, io_kind, kind_of, AppError, PueueError};
use crate::models::is_validation_error;
use crate::pueue::{byte_lists, PUEUE_TIMEOUT_SECONDS};
use crate::text::same_text;
use crate::wire::{copy_bytes, push_bytes, same_bytes};

pub use crate::pueue_security::MAX_PUEUE_OUTPUT_BYTES;

verus! {

/// How long a command may take, and how much each of its streams may hold.
#[derive(Debug, Clone, Copy, PartialEq, Eq, Structural)]
pub struct PueueProcessRunner {
    pub timeout_millis: u64,
    pub output_limit: usize,
}

impl Default for PueueProcessRunner {
    fn default() -> (runner: Self)
        ensures
            runner.timeout_millis == 1000 * PUEUE_TIMEOUT_SECONDS,
            runner.output_limit == MAX_PUEUE_OUTPUT_BYTES,
    {
        PueueProcessRunner { timeout_millis: 30000, output_limit: MAX_PUEUE_OUTPUT_BYTES }
    }
}

impl PueueProcessRunner {
    pub fn new() -> (runner: Self)
        ensures
            runner.timeout_millis == 1000 * PUEUE_TIMEOUT_SECONDS,
            runner.output_limit == MAX_PUEUE_OUTPUT_BYTES,
    {
        PueueProcessRunner { timeout_millis: 30000, output_limit: MAX_PUEUE_OUTPUT_BYTES }
    }

    pub fn with_limits(timeout_millis: u64, output_limit: usize) -> (runner: Self)
        ensures
            runner == (PueueProcessRunner { timeout_millis, output_limit }),
    {
        PueueProcessRunner { timeout_millis, output_limit }
    }
}

// ---------------------------------------------------------------------------
// Arguments
// ---------------------------------------------------------------------------
/// The commands of the queue that are used.
pub open spec fn is_operation(name: Seq<char>) -> bool {
    name == "status"@ || name == "add"@ || name == "kill"@ || name == "remove"@ || name == "group"@
}

/// The command that an argument names.
pub fn operation_name(value: &[u8]) -> (name: Option<&'static str>)
    ensures
        match name {
            Some(text) => is_operation(text@) && encode_utf8(text@) == value@,
            None => forall|text: Seq<char>| is_operation(text) ==> #[trigger] encode_utf8(text)
                != value@,
        },
{
    if same_bytes(value, "status".as_bytes()) {
        Some("status")
    } else if same_bytes(value, "add".as_bytes()) {
        Some("add")
    } else if same_bytes(value, "kill".as_bytes()) {
        Some("kill")
    } else if same_bytes(value, "remove".as_bytes()) {
        Some("remove")
    } else if same_bytes(value, "group".as_bytes()) {
        Some("group")
    } else {
        None
    }
}

/// A command that is ready to be launched.
#[derive(Clone, PartialEq, Eq)]
pub struct PueueCommand {
    pub operation: &'static str,
    pub argv: Vec<Vec<u8>>,
}

/// The arguments of the queue's program: the configuration by its descriptor,
/// then the command as it is.
pub open spec fn queue_arguments(operation_argv: Seq<Seq<u8>>) -> Seq<Seq<u8>> {
    seq![encode_utf8("--config"@), encode_utf8("/dev/fd/9"@)] + operation_argv
}

pub open spec fn no_operation() -> (Seq<char>, Seq<char>) {
    ("pueue_operation"@, "must not be empty"@)
}

pub open spec fn unknown_operation() -> (Seq<char>, Seq<char>) {
    ("pueue_operation"@, "is not supported"@)
}

pub open spec fn names_operation(value: Seq<u8>) -> bool {
    exists|text: Seq<char>| is_operation(text) && #[trigger] encode_utf8(text) == value
}

/// Puts together the arguments for a command of the queue.
pub fn prepare_command(operation_argv: &[Vec<u8>]) -> (command: Result<PueueCommand, AppError>)
    ensures
        match command {
            Ok(c) => operation_argv@.len() > 0 && is_operation(c.operation@) && encode_utf8(
                c.operation@,
            ) == operation_argv@[0]@ && byte_lists(c.argv@) == queue_arguments(
                byte_lists(operation_argv@),
            ),
            Err(error) => if operation_argv@.len() == 0 {
                is_validation_error(error, no_operation())
            } else {
                !names_operation(operation_argv@[0]@) && is_validation_error(
                    error,
                    unknown_operation(),
                )
            },
        },
{
    if operation_argv.len() == 0 {
        return Err(invalid("pueue_operation", "must not be empty"));
    }
    let operation = match operation_name(operation_argv[0].as_slice()) {
        Some(name) => name,
        None => {
            return Err(invalid("pueue_operation", "is not supported"));
        },
    };
    let ghost all = byte_lists(operation_argv@);
    let mut argv: Vec<Vec<u8>> = Vec::new();
    argv.push(copy_bytes("--config".as_bytes()));
    argv.push(copy_bytes("/dev/fd/9".as_bytes()));
    let ghost start = byte_lists(argv@);
    proof {
        assert(start =~= seq![encode_utf8("--config"@), encode_utf8("/dev/fd/9"@)]);
        assert(start + all.take(0) =~= start);
    }
    let mut at: usize = 0;
    while at < operation_argv.len()
        invariant
            at <= operation_argv@.len(),
            all == byte_lists(operation_argv@),
            byte_lists(argv@) == start + all.take(at as int),
        decreases operation_argv.len() - at,
    {
        let ghost before = argv@;
        argv.push(copy_bytes(operation_argv[at].as_slice()));
        proof {
            assert(byte_lists(argv@) =~= byte_lists(before).push(all[at as int]));
            assert(all.take(at + 1) =~= all.take(at as int).push(all[at as int]));
        }
        at = at + 1;
    }
    proof {
        assert(all.take(all.len() as int) =~= all);
    }
    Ok(PueueCommand { operation, argv })
}

// ---------------------------------------------------------------------------
// Output
// ---------------------------------------------------------------------------
/// Why a stream could not be read to its end.
#[derive(Debug, Clone, Copy, PartialEq, Eq, Structural)]
pub enum ReadFailure {
    Io,
    Limit,
}

/// Takes in one more chunk of a stream, unless that would go over the limit.
pub fn take_chunk(bytes: &mut Vec<u8>, chunk: &[u8], limit: usize) -> (taken: Result<
    (),
    ReadFailure,
>)
    ensures
        match taken {
            Ok(_) => old(bytes)@.len() + chunk@.len() <= limit && final(bytes)@ == old(bytes)@
                + chunk@,
            Err(failure) => old(bytes)@.len() + chunk@.len() > limit && failure is Limit
                && final(bytes)@ == old(bytes)@,
        },
{
    if chunk.len() > limit || bytes.len() > limit - chunk.len() {
        return Err(ReadFailure::Limit);
    }
    push_bytes(bytes, chunk);
    Ok(())
}

/// The streams of a command.
#[derive(Debug, Clone, Copy, PartialEq, Eq, Structural)]
pub enum Stream {
    Stdout,
    Stderr,
}

impl Stream {
    pub open spec fn label(self) -> Seq<char> {
        match self {
            Stream::Stdout => "stdout"@,
            Stream::Stderr => "stderr"@,
        }
    }

    pub fn as_str(self) -> (text: &'static str)
        ensures
            text@ == self.label(),
    {
        match self {
            Stream::Stdout => "stdout",
            Stream::Stderr => "stderr",
        }
    }

    /// What is said when the stream cannot be read.
    pub open spec fn read_label(self) -> Seq<char> {
        match self {
            Stream::Stdout => "read stdout"@,
            Stream::Stderr => "read stderr"@,
        }
    }

    pub fn read_stage(self) -> (text: &'static str)
        ensures
            text@ == self.read_label(),
    {
        match self {
            Stream::Stdout => "read stdout",
            Stream::Stderr => "read stderr",
        }
    }
}

/// Why a command was not awaited to its end.
#[derive(Debug, Clone, Copy, PartialEq, Eq, Structural)]
pub enum CollectionFailure {
    Timeout,
    OutputLimit(Stream),
    Reader(Stream),
    Wait,
}

/// What was heard of a command so far.
#[derive(Debug, Clone, Copy, PartialEq, Eq, Structural)]
pub struct Collection {
    pub exited: bool,
    pub stdout: bool,
    pub stderr: bool,
}

/// What is heard next.
#[derive(Debug, Clone, Copy, PartialEq, Eq, Structural)]
pub enum CollectionEvent {
    Exited,
    WaitFailed,
    StreamEnded(Stream),
    StreamFailed(Stream, ReadFailure),
    /// The task that read the stream is gone.
    ReaderLost(Stream),
    DeadlinePassed,
}

/// What follows.
#[derive(Debug, Clone, Copy, PartialEq, Eq, Structural)]
pub enum CollectionStep {
    Continue(Collection),
    Complete,
    Fail(CollectionFailure),
}

/// The state after an event that does not fail.
pub open spec fn heard(state: Collection, event: CollectionEvent) -> Collection {
    match event {
        CollectionEvent::Exited => Collection { exited: true, ..state },
        CollectionEvent::StreamEnded(Stream::Stdout) => Collection { stdout: true, ..state },
        CollectionEvent::StreamEnded(Stream::Stderr) => Collection { stderr: true, ..state },
        _ => state,
    }
}

pub open spec fn failure_of(event: CollectionEvent) -> Option<CollectionFailure> {
    match event {
        CollectionEvent::WaitFailed => Some(CollectionFailure::Wait),
        CollectionEvent::StreamFailed(stream, ReadFailure::Limit) => Some(
            CollectionFailure::OutputLimit(stream),
        ),
        CollectionEvent::StreamFailed(stream, ReadFailure::Io) => Some(
            CollectionFailure::Reader(stream),
        ),
        CollectionEvent::ReaderLost(stream) => Some(CollectionFailure::Reader(stream)),
        CollectionEvent::DeadlinePassed => Some(CollectionFailure::Timeout),
        _ => None,
    }
}

impl Collection {
    pub fn begin() -> (state: Self)
        ensures
            state == (Collection { exited: false, stdout: false, stderr: false }),
    {
        Collection { exited: false, stdout: false, stderr: false }
    }

    /// What follows from an event. A command is complete when it has exited and
    /// both of its streams have ended.
    pub fn hear(self, event: CollectionEvent) -> (step: CollectionStep)
        ensures
            step == (match failure_of(event) {
                Some(failure) => CollectionStep::Fail(failure),
                None => {
                    let state = heard(self, event);
                    if state.exited && state.stdout && state.stderr {
                        CollectionStep::Complete
                    } else {
                        CollectionStep::Continue(state)
                    }
                },
            }),
    {
        let mut state = self;
        match event {
            CollectionEvent::Exited => {
                state = Collection { exited: true, ..state };
            },
            CollectionEvent::StreamEnded(Stream::Stdout) => {
                state = Collection { stdout: true, ..state };
            },
            CollectionEvent::StreamEnded(Stream::Stderr) => {
                state = Collection { stderr: true, ..state };
            },
            CollectionEvent::WaitFailed => {
                return CollectionStep::Fail(CollectionFailure::Wait);
            },
            CollectionEvent::StreamFailed(stream, ReadFailure::Limit) => {
                return CollectionStep::Fail(CollectionFailure::OutputLimit(stream));
            },
            CollectionEvent::StreamFailed(stream, ReadFailure::Io) => {
                return CollectionStep::Fail(CollectionFailure::Reader(stream));
            },
            CollectionEvent::ReaderLost(stream) => {
                return CollectionStep::Fail(CollectionFailure::Reader(stream));
            },
            CollectionEvent::DeadlinePassed => {
                return CollectionStep::Fail(CollectionFailure::Timeout);
            },
        }
        if state.exited && state.stdout && state.stderr {
            CollectionStep::Complete
        } else {
            CollectionStep::Continue(state)
        }
    }
}

// ---------------------------------------------------------------------------
// Errors
// ---------------------------------------------------------------------------
/// The error of a command that was not awaited to its end.
pub open spec fn is_collection_error(
    error: AppError,
    failure: CollectionFailure,
    operation: &'static str,
) -> bool {
    match failure {
        CollectionFailure::Timeout => error == AppError::Pueue(PueueError::Timeout { operation }),
        CollectionFailure::OutputLimit(stream) => error matches AppError::Pueue(
            PueueError::OutputLimit { operation: op, stream: name },
        ) && op == operation && name@ == stream.label(),
        CollectionFailure::Reader(stream) => error matches AppError::Pueue(
            PueueError::Cleanup { operation: op, stage },
        ) && op == operation && stage@ == stream.read_label(),
        CollectionFailure::Wait => error matches AppError::Pueue(
            PueueError::Cleanup { operation: op, stage },
        ) && op == operation && stage@ == "wait"@,
    }
}

impl CollectionFailure {
    pub fn into_app_error(self, operation: &'static str) -> (error: AppError)
        ensures
            is_collection_error(error, self, operation),
    {
        match self {
            CollectionFailure::Timeout => AppError::Pueue(PueueError::Timeout { operation }),
            CollectionFailure::OutputLimit(stream) => AppError::Pueue(
                PueueError::OutputLimit { operation, stream: stream.as_str() },
            ),
            CollectionFailure::Reader(stream) => AppError::Pueue(
                PueueError::Cleanup { operation, stage: stream.read_stage() },
            ),
            CollectionFailure::Wait => AppError::Pueue(
                PueueError::Cleanup { operation, stage: "wait" },
            ),
        }
    }
}

/// A child that was terminated could not be reaped.
pub open spec fn is_reap_failure(error: AppError) -> bool {
    match error {
        AppError::Io { operation, source: _ } => operation@ == "reap terminated verified child"@,
        AppError::Runtime { operation } => operation@
            == "reap terminated verified child before timeout"@,
        _ => false,
    }
}

/// The stage of a cleanup at which an error came.
pub fn cleanup_stage(error: &AppError) -> (stage: &'static str)
    ensures
        stage@ == (if is_reap_failure(*error) {
            "reap"@
        } else {
            "terminate"@
        }),
{
    let reap = match error {
        AppError::Io { operation, .. } => same_text(operation, "reap terminated verified child"),
        AppError::Runtime { operation } => same_text(
            operation,
            "reap terminated verified child before timeout",
        ),
        _ => false,
    };
    if reap {
        "reap"
    } else {
        "terminate"
    }
}

/// The error of a command whose process was to be terminated after a failure:
/// the failure itself, unless the termination failed too.
pub fn cleanup_error(
    operation: &'static str,
    original: AppError,
    cleanup: Result<(), AppError>,
) -> (error: AppError)
    ensures
        match cleanup {
            Ok(_) => error == original,
            Err(e) => error matches AppError::Pueue(PueueError::Cleanup { operation: op, stage })
                && op == operation && stage@ == (if is_reap_failure(e) {
                "reap"@
            } else {
                "terminate"@
            }),
        },
{
    match cleanup {
        Ok(_) => original,
        Err(e) => AppError::Pueue(PueueError::Cleanup { operation, stage: cleanup_stage(&e) }),
    }
}

/// The error of a command that was broken off: a termination that failed weighs
/// more than a reader that failed, and that more than the reason.
pub fn broken_off_error(
    operation: &'static str,
    failure: CollectionFailure,
    termination: Result<(), AppError>,
    failed_reader: Option<Stream>,
) -> (error: AppError)
    ensures
        match termination {
            Err(e) => error matches AppError::Pueue(PueueError::Cleanup { operation: op, stage })
                && op == operation && stage@ == (if is_reap_failure(e) {
                "reap"@
            } else {
                "terminate"@
            }),
            Ok(_) => match failed_reader {
                Some(stream) => error matches AppError::Pueue(
                    PueueError::Cleanup { operation: op, stage },
                ) && op == operation && stage@ == stream.read_label(),
                None => is_collection_error(error, failure, operation),
            },
        },
{
    match termination {
        Err(e) => AppError::Pueue(PueueError::Cleanup { operation, stage: cleanup_stage(&e) }),
        Ok(_) => match failed_reader {
            Some(stream) => AppError::Pueue(
                PueueError::Cleanup { operation, stage: stream.read_stage() },
            ),
            None => failure.into_app_error(operation),
        },
    }
}

/// The output of a command.
#[derive(Clone, PartialEq, Eq)]
pub struct BoundedOutput {
    pub exit_code: Option<i32>,
    pub stdout: Vec<u8>,
    pub stderr: Vec<u8>,
}

impl BoundedOutput {
    /// What is shown of the output: how much there is, never what.
    pub fn shape_text(&self) -> (text: String)
        ensures
            text@ == "stdout_len: "@ + crate::text::digits_of(self.stdout@.len()) + ", stderr_len: "@
                + crate::text::digits_of(self.stderr@.len()),
    {
        let mut line = crate::text::chars_of("stdout_len: ");
        let stdout = crate::text::decimal_digits(self.stdout.len() as u64);
        crate::text::extend(&mut line, stdout.as_slice());
        crate::text::append_text(&mut line, ", stderr_len: ");
        let stderr = crate::text::decimal_digits(self.stderr.len() as u64);
        crate::text::extend(&mut line, stderr.as_slice());
        crate::text::string_of(line.as_slice())
    }
}

/// Takes the output of a command that succeeded, and refuses that of one that
/// did not.
pub fn accept_output(operation: &'static str, output: BoundedOutput) -> (accepted: Result<
    BoundedOutput,
    AppError,
>)
    ensures
        accepted == (if output.exit_code == Some(0i32) {
            Ok::<BoundedOutput, AppError>(output)
        } else {
            Err::<BoundedOutput, AppError>(
                AppError::Pueue(
                    PueueError::CommandFailed {
                        operation,
                        exit_code: output.exit_code,
                        stdout: output.stdout,
                        stderr: output.stderr,
                    },
                ),
            )
        }),
{
    let success = match output.exit_code {
        Some(code) => code == 0,
        None => false,
    };
    if success {
        return Ok(output);
    }
    let BoundedOutput { exit_code, stdout, stderr } = output;
    Err(AppError::Pueue(PueueError::CommandFailed { operation, exit_code, stdout, stderr }))
}

/// The kind of the error of the system behind an error, or `Other` where there
/// is none.
pub open spec fn source_kind_of(error: AppError) -> std::io::ErrorKind {
    match error {
        AppError::Io { operation: _, source } => io_kind(source),
        _ => std::io::ErrorKind::Other,
    }
}

/// The error of a command that could not be launched: a refusal by the policy
/// stays what it is.
pub fn map_spawn_error(operation: &'static str, error: AppError) -> (mapped: AppError)
    ensures
        mapped == (if error is PolicyViolation {
            error
        } else {
            AppError::Pueue(
                PueueError::Spawn { operation, source_kind: source_kind_of(error) },
            )
        }),
{
    match error {
        AppError::PolicyViolation { violation } => AppError::PolicyViolation { violation },
        AppError::Io { operation: _, source } => {
            let source_kind = kind_of(&source);
            AppError::Pueue(PueueError::Spawn { operation, source_kind })
        },
        _ => AppError::Pueue(
            PueueError::Spawn { operation, source_kind: std::io::ErrorKind::Other },
        ),
    }
}

/// What is heard of a command: each of its three ends is noted, failures are told
/// apart, and nothing else changes what is known.
pub proof fn lemma_what_is_heard(state: Collection, event: CollectionEvent, stream: Stream)
    ensures
        heard(state, event).exited <==> state.exited || event is Exited,
        heard(state, event).stdout <==> state.stdout || event == CollectionEvent::StreamEnded(
            Stream::Stdout,
        ),
        heard(state, event).stderr <==> state.stderr || event == CollectionEvent::StreamEnded(
            Stream::Stderr,
        ),
        failure_of(event) is None <==> event is Exited || event is StreamEnded,
        failure_of(CollectionEvent::DeadlinePassed) == Some(CollectionFailure::Timeout),
        failure_of(CollectionEvent::WaitFailed) == Some(CollectionFailure::Wait),
        failure_of(CollectionEvent::StreamFailed(stream, ReadFailure::Limit)) == Some(
            CollectionFailure::OutputLimit(stream),
        ),
        failure_of(CollectionEvent::StreamFailed(stream, ReadFailure::Io)) == Some(
            CollectionFailure::Reader(stream),
        ),
        failure_of(CollectionEvent::ReaderLost(stream)) == Some(CollectionFailure::Reader(stream)),
{
}

/// The operations of the queue that are used, and the configuration that goes
/// before each.
pub proof fn lemma_which_operations_are_used(name: Seq<char>, argv: Seq<Seq<u8>>)
    ensures
        is_operation(name) <==> name == "status"@ || name == "add"@ || name == "kill"@ || name
            == "remove"@ || name == "group"@,
        queue_arguments(argv).len() == argv.len() + 2,
        queue_arguments(argv)[0] == encode_utf8("--config"@),
        queue_arguments(argv)[1] == encode_utf8("/dev/fd/9"@),
        queue_arguments(argv).skip(2) == argv,
{
    assert(queue_arguments(argv).skip(2) =~= argv);
}

/// What a command that was broken off is told as.
pub proof fn lemma_what_broken_commands_are_told_as(
    error: AppError,
    failure: CollectionFailure,
    operation: &'static str,
)
    requires
        is_collection_error(error, failure, operation),
    ensures
        failure is Timeout ==> error == AppError::Pueue(PueueError::Timeout { operation }),
        failure matches CollectionFailure::OutputLimit(stream) ==> (
        error matches AppError::Pueue(PueueError::OutputLimit { operation: op, stream: name }) && op
            == operation && name@ == (if stream is Stdout {
            "stdout"@
        } else {
            "stderr"@
        })),
        failure matches CollectionFailure::Reader(stream) ==> (
        error matches AppError::Pueue(PueueError::Cleanup { operation: op, stage }) && op
            == operation && stage@ == (if stream is Stdout {
            "read stdout"@
        } else {
            "read stderr"@
        })),
        failure is Wait ==> (error matches AppError::Pueue(
            PueueError::Cleanup { operation: op, stage },
        ) && op == operation && stage@ == "wait"@),
{
}

/// The end of a process could not be waited for exactly where these operations
/// failed.
pub proof fn lemma_which_failures_are_of_reaping(error: AppError)
    ensures
        is_reap_failure(error) ==> error is Io || error is Runtime,
        error matches AppError::Io { operation, source: _ } ==> (is_reap_failure(error)
            <==> operation@ == "reap terminated verified child"@),
        error matches AppError::Runtime { operation } ==> (is_reap_failure(error) <==> operation@
            == "reap terminated verified child before timeout"@),
{
}

/// An operation is named by its bytes.
pub proof fn lemma_operations_are_named_by_their_bytes(value: Seq<u8>)
    ensures
        names_operation(value) <==> value == encode_utf8("status"@) || value == encode_utf8("add"@)
            || value == encode_utf8("kill"@) || value == encode_utf8("remove"@) || value
            == encode_utf8("group"@),
{
    assert(is_operation("status"@) && is_operation("add"@) && is_operation("kill"@) && is_operation(
        "remove"@,
    ) && is_operation("group"@));
}

} // verus!
