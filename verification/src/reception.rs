//! How the helper takes in its bootstrap packet, chunk by chunk, and puts the
//! descriptors of the packet in their places.

use vstd::prelude::*;

use crate::bootstrap::{
    accept_frame, accept_packet, announced_size, helper_failed_record, helper_ready_record,
    packet_error, packet_frame, ready_record, slots_of, BootstrapError, PacketFacts,
};
use crate::frame::{encoded, shape_error, ControlFrame, Frame};
use crate::frame_read::{header_error, lemma_written_frame_reads_back};
use crate::process::{CodecError, RawFd, CONTROL_FD, HEADER_SIZE, MAX_FRAME_SIZE};
use crate::wire::{be_value, push_bytes};

verus! {

// ---------------------------------------------------------------------------
// The stream
// ---------------------------------------------------------------------------
pub open spec fn magic() -> Seq<u8> {
    seq![0x50u8, 0x41u8, 0x45u8, 0x58u8]
}

/// What is wrong with the beginning of a stream, whatever follows.
pub open spec fn beginning_error(stream: Seq<u8>) -> Option<CodecError> {
    if stream.len() < HEADER_SIZE {
        None
    } else if stream.take(4) != magic() {
        Some(CodecError::InvalidMagic)
    } else if HEADER_SIZE + be_value(stream.subrange(8, 12)) > MAX_FRAME_SIZE {
        Some(CodecError::FrameTooLarge)
    } else {
        None
    }
}

/// How long the frame at the beginning of a stream is.
pub open spec fn frame_size(stream: Seq<u8>) -> int {
    HEADER_SIZE + be_value(stream.subrange(8, 12))
}

/// What a whole stream with this many rights is: the frame that it holds, or
/// what is wrong with it.
pub open spec fn received(stream: Seq<u8>, rights: int) -> Result<Frame, BootstrapError> {
    if stream.len() < HEADER_SIZE {
        Err(BootstrapError::TruncatedPacket)
    } else {
        match beginning_error(stream) {
            Some(error) => Err(BootstrapError::Codec(error)),
            None => if stream.len() < frame_size(stream) {
                Err(BootstrapError::TruncatedPacket)
            } else if stream.len() > frame_size(stream) {
                Err(BootstrapError::Codec(CodecError::TrailingBytes))
            } else {
                packet_frame(stream, rights)
            },
        }
    }
}

proof fn lemma_beginning_stays(stream: Seq<u8>, more: Seq<u8>)
    requires
        stream.len() >= HEADER_SIZE,
    ensures
        beginning_error(stream + more) == beginning_error(stream),
        frame_size(stream + more) == frame_size(stream),
{
    assert((stream + more).take(4) =~= stream.take(4));
    assert((stream + more).subrange(8, 12) =~= stream.subrange(8, 12));
}

/// A packet that is being received.
pub struct Reception {
    rights: usize,
    bytes: Vec<u8>,
    total: usize,
}

/// What a chunk leads to.
pub enum ReceptionStep {
    More(Reception),
    Ended(Result<ControlFrame, BootstrapError>),
}

impl Reception {
    pub closed spec fn stream(self) -> Seq<u8> {
        self.bytes@
    }

    pub closed spec fn rights(self) -> int {
        self.rights as int
    }

    pub closed spec fn wf(self) -> bool {
        if self.total == 0 {
            0 < self.bytes@.len() < HEADER_SIZE
        } else {
            HEADER_SIZE <= self.bytes@.len() <= self.total && beginning_error(self.bytes@) is None
                && self.total == frame_size(self.bytes@)
        }
    }

    /// How many bytes are asked for next: the rest of the header, the rest of
    /// the frame, or one more to see that there is none.
    pub open spec fn wants(self) -> int {
        if self.stream().len() < HEADER_SIZE {
            HEADER_SIZE - self.stream().len()
        } else if self.stream().len() < frame_size(self.stream()) {
            frame_size(self.stream()) - self.stream().len()
        } else {
            1
        }
    }

    /// Begins with the first byte and what came with it.
    pub fn begin(first: u8, facts: PacketFacts) -> (reception: Result<Reception, BootstrapError>)
        ensures
            match reception {
                Ok(r) => packet_error(facts) is None && r.wf() && r.stream() == seq![first]
                    && r.rights() == facts.rights,
                Err(error) => packet_error(facts) == Some(error),
            },
    {
        accept_packet(facts)?;
        let mut bytes: Vec<u8> = Vec::new();
        bytes.push(first);
        proof {
            assert(bytes@ =~= seq![first]);
        }
        Ok(Reception { rights: facts.rights, bytes, total: 0 })
    }

    pub fn wanted(&self) -> (count: usize)
        requires
            self.wf(),
        ensures
            count == self.wants(),
            count > 0,
    {
        if self.total == 0 {
            HEADER_SIZE - self.bytes.len()
        } else if self.bytes.len() < self.total {
            self.total - self.bytes.len()
        } else {
            1
        }
    }

    /// Takes the next chunk; an empty one is the end of the stream. An error
    /// comes as soon as nothing that could follow would mend it.
    pub fn take(self, chunk: &[u8]) -> (step: ReceptionStep)
        requires
            self.wf(),
            chunk@.len() <= self.wants(),
        ensures
            match step {
                ReceptionStep::More(next) => chunk@.len() > 0 && next.wf() && next.rights()
                    == self.rights() && next.stream() == self.stream() + chunk@,
                ReceptionStep::Ended(Ok(frame)) => chunk@.len() == 0 && received(
                    self.stream(),
                    self.rights(),
                ) == Ok::<Frame, BootstrapError>(frame@),
                ReceptionStep::Ended(Err(error)) => if chunk@.len() == 0 {
                    received(self.stream(), self.rights()) == Err::<Frame, BootstrapError>(error)
                } else {
                    forall|more: Seq<u8>| #[trigger]
                        received(self.stream() + chunk@ + more, self.rights()) == Err::<
                            Frame,
                            BootstrapError,
                        >(error)
                },
            },
    {
        if self.total > 0 && self.bytes.len() == self.total {
            if chunk.len() == 0 {
                return ReceptionStep::Ended(accept_frame(self.bytes.as_slice(), self.rights));
            }
            proof {
                assert forall|more: Seq<u8>| #[trigger]
                    received(self.stream() + chunk@ + more, self.rights()) == Err::<
                        Frame,
                        BootstrapError,
                    >(BootstrapError::Codec(CodecError::TrailingBytes)) by {
                    lemma_beginning_stays(self.bytes@, chunk@ + more);
                    assert(self.bytes@ + (chunk@ + more) =~= self.bytes@ + chunk@ + more);
                }
            }
            return ReceptionStep::Ended(Err(BootstrapError::Codec(CodecError::TrailingBytes)));
        }
        if chunk.len() == 0 {
            return ReceptionStep::Ended(Err(BootstrapError::TruncatedPacket));
        }
        let ghost before = self.bytes@;
        let Reception { rights, mut bytes, mut total } = self;
        push_bytes(&mut bytes, chunk);
        proof {
            if before.len() >= HEADER_SIZE {
                lemma_beginning_stays(before, chunk@);
            }
        }
        if total == 0 && bytes.len() == HEADER_SIZE {
            match announced_size(bytes.as_slice()) {
                Ok(size) => {
                    total = size;
                },
                Err(error) => {
                    proof {
                        let whole = before + chunk@;
                        assert forall|more: Seq<u8>| #[trigger]
                            received(before + chunk@ + more, rights as int) == Err::<
                                Frame,
                                BootstrapError,
                            >(BootstrapError::Codec(error)) by {
                            lemma_beginning_stays(whole, more);
                        }
                    }
                    return ReceptionStep::Ended(Err(BootstrapError::Codec(error)));
                },
            }
        }
        ReceptionStep::More(Reception { rights, bytes, total })
    }
}

/// A frame that is sent with its descriptors is received as it was sent.
pub proof fn lemma_sent_packet_is_received(frame: Frame)
    requires
        shape_error(frame) is None,
        encoded(frame).len() <= MAX_FRAME_SIZE,
    ensures
        received(encoded(frame), slots_of(frame).len() - 1) == Ok::<Frame, BootstrapError>(frame),
{
    lemma_written_frame_reads_back(frame);
    let bytes = encoded(frame);
    assert(header_error(bytes) is None);
    assert(packet_frame(bytes, slots_of(frame).len() - 1) == Ok::<Frame, BootstrapError>(frame));
}

/// No other number of descriptors is taken for the same stream.
pub proof fn lemma_right_count_is_fixed(stream: Seq<u8>, a: int, b: int)
    requires
        received(stream, a) is Ok,
        received(stream, b) is Ok,
    ensures
        a == b,
{
}

/// A stream that was cut short is never taken.
pub proof fn lemma_cut_stream_is_refused(stream: Seq<u8>, rights: int, cut: int)
    requires
        received(stream, rights) is Ok,
        0 <= cut < stream.len(),
    ensures
        received(stream.take(cut), rights) == Err::<Frame, BootstrapError>(
            BootstrapError::TruncatedPacket,
        ),
{
    if cut >= HEADER_SIZE {
        assert(stream.take(cut) + stream.skip(cut) =~= stream);
        lemma_beginning_stays(stream.take(cut), stream.skip(cut));
    }
}

/// What a descriptor of the packet is asked: whether it is closed when another
/// program takes over.
#[derive(Clone, Copy, Debug, PartialEq, Eq, Structural)]
pub enum CloseOnExec {
    Given,
    Lacking,
    Unknown,
}

/// The next step for a descriptor of the packet.
#[derive(Debug)]
pub enum RightStep {
    /// The flag is set, and asked for again.
    SetFlag,
    Accept,
    Refuse(BootstrapError),
}

/// Looks at a descriptor after the flag was asked for, for the first time or
/// after it was set. A flag that cannot be had at the first question ends the
/// reception with the error of the system, before it comes to this.
pub fn right_step(flag: CloseOnExec, was_set: bool) -> (step: RightStep)
    requires
        flag is Unknown ==> was_set,
    ensures
        match flag {
            CloseOnExec::Given => step is Accept,
            CloseOnExec::Lacking => if was_set {
                step == RightStep::Refuse(BootstrapError::DescriptorNotCloseOnExec)
            } else {
                step is SetFlag
            },
            CloseOnExec::Unknown => step == RightStep::Refuse(
                BootstrapError::DescriptorNotCloseOnExec,
            ),
        },
{
    match flag {
        CloseOnExec::Given => RightStep::Accept,
        CloseOnExec::Lacking => if was_set {
            RightStep::Refuse(BootstrapError::DescriptorNotCloseOnExec)
        } else {
            RightStep::SetFlag
        },
        CloseOnExec::Unknown => RightStep::Refuse(BootstrapError::DescriptorNotCloseOnExec),
    }
}

// ---------------------------------------------------------------------------
// Installing the descriptors
// ---------------------------------------------------------------------------
/// How far the installation of the descriptors is: what comes next.
#[derive(Clone, Copy, Debug, PartialEq, Eq, Structural)]
pub enum InstallStage {
    /// The descriptor of a slot is put in its place.
    Place(usize),
    /// The descriptor of a slot is checked in its place.
    Check(usize),
}

/// What follows.
#[derive(Debug)]
pub enum InstallMove {
    Next(InstallStage),
    /// Every slot is closed, and the error told.
    CloseAll(BootstrapError),
    Installed,
}

/// The first stage for so many slots.
pub open spec fn after_check(index: int, slots: int) -> InstallMove {
    if index < slots {
        InstallMove::Next(InstallStage::Check(index as usize))
    } else {
        InstallMove::Installed
    }
}

/// Goes on with the installation: all slots are filled before the first is
/// checked, and the first failure closes them all.
pub fn install_step(slots: usize, stage: InstallStage, succeeded: bool) -> (next: InstallMove)
    requires
        match stage {
            InstallStage::Place(i) => i < slots,
            InstallStage::Check(i) => i < slots,
        },
    ensures
        if !succeeded {
            next == InstallMove::CloseAll(BootstrapError::BootstrapCorrupt)
        } else {
            match stage {
                InstallStage::Place(i) => if i + 1 < slots {
                    next == InstallMove::Next(InstallStage::Place((i + 1) as usize))
                } else {
                    next == after_check(0, slots as int)
                },
                InstallStage::Check(i) => next == after_check(i + 1, slots as int),
            }
        },
{
    if !succeeded {
        return InstallMove::CloseAll(BootstrapError::BootstrapCorrupt);
    }
    match stage {
        InstallStage::Place(i) => if i + 1 < slots {
            InstallMove::Next(InstallStage::Place(i + 1))
        } else {
            InstallMove::Next(InstallStage::Check(0))
        },
        InstallStage::Check(i) => if i + 1 < slots {
            InstallMove::Next(InstallStage::Check(i + 1))
        } else {
            InstallMove::Installed
        },
    }
}

// ---------------------------------------------------------------------------
// The helper
// ---------------------------------------------------------------------------
/// What the helper writes before it ends, and how it ends.
#[derive(Debug)]
pub struct LaunchReport {
    pub record: Option<(RawFd, Vec<u8>)>,
    pub result: Result<(), BootstrapError>,
}

/// Reports on the bootstrap of the helper. Readiness is told on the control
/// descriptor, and only when every descriptor was installed; a failure is told
/// on a descriptor that was kept for it, where there is one.
pub fn run_internal_launch(installed: Result<(), BootstrapError>, failure_channel: RawFd) -> (report:
    LaunchReport)
    ensures
        report.result == installed,
        match report.record {
            Some((fd, record)) => if installed is Ok {
                fd == CONTROL_FD && record@ == ready_record()
            } else {
                failure_channel >= 0 && fd == failure_channel && record@ == ready_record().update(
                    5,
                    1u8,
                )
            },
            None => installed is Err && failure_channel < 0,
        },
{
    match installed {
        Ok(done) => LaunchReport {
            record: Some((CONTROL_FD, helper_ready_record())),
            result: Ok(done),
        },
        Err(error) => {
            let record = if failure_channel >= 0 {
                Some((failure_channel, helper_failed_record()))
            } else {
                None
            };
            LaunchReport { record, result: Err(error) }
        },
    }
}

/// A stream gives a frame exactly where it is as long as it announces, at most a
/// megabyte, starts with the mark of a frame, and holds a sound frame for as many
/// descriptors as came.
pub proof fn lemma_which_streams_give_a_frame(stream: Seq<u8>, rights: int, frame: Frame)
    ensures
        received(stream, rights) == Ok::<Frame, BootstrapError>(frame) <==> {
            &&& stream.len() >= 12
            &&& stream.take(4) == seq![0x50u8, 0x41u8, 0x45u8, 0x58u8]
            &&& stream.len() == 12 + be_value(stream.subrange(8, 12))
            &&& stream.len() <= 0x10_0000
            &&& packet_frame(stream, rights) == Ok::<Frame, BootstrapError>(frame)
        },
        stream.len() < 12 ==> received(stream, rights) == Err::<Frame, BootstrapError>(
            BootstrapError::TruncatedPacket,
        ),
{
}

/// What is waited for: the rest of the start of a frame, then the rest of the
/// frame, then one byte that must not come.
pub proof fn lemma_what_is_waited_for(reception: Reception)
    ensures
        ({
            let stream = reception.stream();
            let whole = 12 + be_value(stream.subrange(8, 12));
            &&& stream.len() < 12 ==> reception.wants() == 12 - stream.len()
            &&& stream.len() >= 12 && stream.len() < whole ==> reception.wants() == whole
                - stream.len()
            &&& stream.len() >= 12 && stream.len() >= whole ==> reception.wants() == 1
        }),
{
}

/// Descriptors are checked one after the other, and installed once all are.
pub proof fn lemma_every_descriptor_is_checked(index: int, slots: int)
    requires
        0 <= index <= slots <= usize::MAX,
    ensures
        index < slots ==> after_check(index, slots) == InstallMove::Next(
            InstallStage::Check(index as usize),
        ),
        index == slots ==> after_check(index, slots) is Installed,
{
}

} // verus!
