//! The packet that flows from a decoder to a sink, the errors of decoding,
//! and the interface that every decoding strategy offers.

use vstd::prelude::*;
use vstd::std_specs::convert::FromSpecImpl;
use vstd::string::*;

pub mod memory;

verus! {

/// One unit of audio on its way from a decoder to a sink.
///
/// A packet holds either decoded samples or one block of a compressed
/// container that the sink's device decodes itself. A sample is an IEEE 754
/// binary32 number in `[-1.0, 1.0]`, kept as its bit pattern.
#[derive(Debug)]
pub enum AudioPacket {
    Samples(Vec<u32>),
    OggData(Vec<u8>),
}

/// What a packet holds, as mathematical sequences.
pub enum PacketView {
    Samples(Seq<u32>),
    OggData(Seq<u8>),
}

impl View for AudioPacket {
    type V = PacketView;

    open spec fn view(&self) -> PacketView {
        match self {
            AudioPacket::Samples(s) => PacketView::Samples(s@),
            AudioPacket::OggData(d) => PacketView::OggData(d@),
        }
    }
}

impl Clone for AudioPacket {
    /// A packet of the same kind with the same content.
    fn clone(&self) -> (copy: AudioPacket)
        ensures
            copy@ == self@,
    {
        match self {
            AudioPacket::Samples(s) => {
                let copy = s.clone();
                assert(copy@ =~= s@);
                AudioPacket::Samples(copy)
            },
            AudioPacket::OggData(d) => {
                let copy = d.clone();
                assert(copy@ =~= d@);
                AudioPacket::OggData(copy)
            },
        }
    }
}

impl AudioPacket {
    /// The number of samples or of bytes that the packet holds.
    pub open spec fn spec_len(&self) -> nat {
        match self {
            AudioPacket::Samples(s) => s@.len(),
            AudioPacket::OggData(d) => d@.len(),
        }
    }

    /// The samples of a `Samples` packet.
    pub fn samples(&self) -> (s: &[u32])
        requires
            self is Samples,
        ensures
            self@ == PacketView::Samples(s@),
    {
        match self {
            AudioPacket::Samples(s) => s.as_slice(),
            AudioPacket::OggData(_) => vstd::pervasive::unreached(),
        }
    }

    /// The bytes of an `OggData` packet.
    pub fn oggdata(&self) -> (d: &[u8])
        requires
            self is OggData,
        ensures
            self@ == PacketView::OggData(d@),
    {
        match self {
            AudioPacket::Samples(_) => vstd::pervasive::unreached(),
            AudioPacket::OggData(d) => d.as_slice(),
        }
    }

    /// Whether the packet holds nothing, whichever kind it is.
    pub fn is_empty(&self) -> (b: bool)
        ensures
            b == (self.spec_len() == 0),
    {
        match self {
            AudioPacket::Samples(s) => s.is_empty(),
            AudioPacket::OggData(d) => d.is_empty(),
        }
    }
}

/// Why the passthrough strategy could not go on: what the container reader
/// reported.
#[derive(Debug)]
pub struct PassthroughError {
    pub reason: String,
}

/// Why the Vorbis strategy could not go on: what the bitstream decoder
/// reported.
#[derive(Debug)]
pub struct VorbisError {
    pub reason: String,
}

/// The error of any decoding strategy, with the strategy's own error inside.
#[derive(Debug)]
pub enum AudioError {
    PassthroughError(PassthroughError),
    VorbisError(VorbisError),
}

impl AudioError {
    /// The text of the error: the strategy's name, and its reason in
    /// parentheses.
    pub open spec fn spec_text(&self) -> Seq<char> {
        match self {
            AudioError::PassthroughError(err) => "PassthroughError("@ + err.reason@ + ")"@,
            AudioError::VorbisError(err) => "VorbisError("@ + err.reason@ + ")"@,
        }
    }

    /// The text of the error, for a report.
    pub fn to_string(&self) -> (text: String)
        ensures
            text@ == self.spec_text(),
    {
        match self {
            AudioError::PassthroughError(err) => String::from_str("PassthroughError(").concat(
                err.reason.as_str(),
            ).concat(")"),
            AudioError::VorbisError(err) => String::from_str("VorbisError(").concat(
                err.reason.as_str(),
            ).concat(")"),
        }
    }
}

impl From<VorbisError> for AudioError {
    fn from(err: VorbisError) -> (wrapped: AudioError) {
        AudioError::VorbisError(err)
    }
}

impl FromSpecImpl<VorbisError> for AudioError {
    open spec fn obeys_from_spec() -> bool {
        true
    }

    open spec fn from_spec(err: VorbisError) -> AudioError {
        AudioError::VorbisError(err)
    }
}

impl From<PassthroughError> for AudioError {
    fn from(err: PassthroughError) -> (wrapped: AudioError) {
        AudioError::PassthroughError(err)
    }
}

impl FromSpecImpl<PassthroughError> for AudioError {
    open spec fn obeys_from_spec() -> bool {
        true
    }

    open spec fn from_spec(err: PassthroughError) -> AudioError {
        AudioError::PassthroughError(err)
    }
}

/// One packet of a stream and the time, in milliseconds from the start of
/// the stream, at which it begins.
pub struct Frame {
    pub start_ms: int,
    pub packet: PacketView,
}

/// Whether each frame begins later than the one before it.
pub open spec fn ascending(timeline: Seq<Frame>) -> bool {
    forall|i: int, j: int|
        0 <= i < j < timeline.len() ==> timeline[i].start_ms < timeline[j].start_ms
}

/// Where a seek to `ms` lands: on the last frame that begins at or before
/// `ms`, and on the first frame where none does.
pub open spec fn seek_point(timeline: Seq<Frame>, ms: int) -> nat
    decreases timeline.len(),
{
    if timeline.len() == 0 {
        0
    } else if timeline.last().start_ms <= ms {
        (timeline.len() - 1) as nat
    } else {
        seek_point(timeline.drop_last(), ms)
    }
}

/// What one call of `next_packet` may give on a stream with the given
/// timeline, read up to `cursor`, and where it leaves the cursor.
///
/// Before the end it gives the frame's packet and moves on by one, or
/// fails. At the end it gives `None` and stays: it does not fail there.
pub open spec fn yields(
    timeline: Seq<Frame>,
    cursor: nat,
    res: Result<Option<AudioPacket>, AudioError>,
    next: nat,
) -> bool {
    match res {
        Ok(Some(packet)) => {
            &&& cursor < timeline.len()
            &&& packet@ == timeline[cursor as int].packet
            &&& next == cursor + 1
        },
        Ok(None) => cursor >= timeline.len() && next == cursor,
        Err(_) => cursor < timeline.len(),
    }
}

/// A source of packets that can be repositioned.
///
/// A stream is a fixed, finite run of frames, its timeline, and the decoder
/// stands before one of them or at the end. A decoder that tells its
/// timeline is held to it by the contracts below; one that tells none
/// promises nothing. Neither call changes the timeline. After an error the
/// stream is of no more use: where the decoder then stands is left open.
pub trait AudioDecoder {
    /// Every frame of the stream, from its start, where the decoder tells.
    open spec fn timeline(&self) -> Option<Seq<Frame>> {
        None
    }

    /// How many frames lie before the one that `next_packet` gives next.
    open spec fn cursor(&self) -> nat {
        0
    }

    /// Moves to the last frame that begins at or before `ms`, whatever was
    /// read before.
    fn seek(&mut self, ms: i64) -> (res: Result<(), AudioError>)
        ensures
            final(self).timeline() == old(self).timeline(),
            old(self).timeline() is Some && res is Ok ==> final(self).cursor() == seek_point(
                old(self).timeline()->Some_0,
                ms as int,
            ),
    ;

    /// Gives the next packet, or `None` at the end of the stream.
    fn next_packet(&mut self) -> (res: Result<Option<AudioPacket>, AudioError>)
        ensures
            final(self).timeline() == old(self).timeline(),
            old(self).timeline() is Some ==> yields(
                old(self).timeline()->Some_0,
                old(self).cursor(),
                res,
                final(self).cursor(),
            ),
    ;
}

/// The end of a stream is final: once `next_packet` has given `None`, the
/// call after it gives `None` again, neither a packet nor an error, and the
/// decoder stays where it was.
pub proof fn lemma_end_of_stream_is_final(
    timeline: Seq<Frame>,
    cursor: nat,
    first: Result<Option<AudioPacket>, AudioError>,
    between: nat,
    second: Result<Option<AudioPacket>, AudioError>,
    after: nat,
)
    requires
        yields(timeline, cursor, first, between),
        yields(timeline, between, second, after),
        first is Ok && first->Ok_0 is None,
    ensures
        second is Ok && second->Ok_0 is None,
        after == cursor,
{
}

/// On a timeline in ascending order a seek lands on the nearest frame at or
/// before the time asked for: that frame begins at or before it and every
/// later frame begins after it. Where even the first frame begins later, the
/// seek lands on the first.
pub proof fn lemma_seek_point_is_nearest(timeline: Seq<Frame>, ms: int)
    requires
        ascending(timeline),
        timeline.len() > 0,
    ensures
        seek_point(timeline, ms) < timeline.len(),
        timeline[0].start_ms > ms ==> seek_point(timeline, ms) == 0,
        timeline[0].start_ms <= ms ==> timeline[seek_point(timeline, ms) as int].start_ms <= ms,
        forall|j: int|
            seek_point(timeline, ms) < j < timeline.len() ==> (#[trigger] timeline[j]).start_ms
                > ms,
    decreases timeline.len(),
{
    if timeline.last().start_ms > ms && timeline.len() > 1 {
        let shorter = timeline.drop_last();
        assert forall|i: int, j: int| 0 <= i < j < shorter.len() implies shorter[i].start_ms
            < shorter[j].start_ms by {
            assert(shorter[i] == timeline[i] && shorter[j] == timeline[j]);
        }
        lemma_seek_point_is_nearest(shorter, ms);
        assert(shorter[0] == timeline[0]);
        let p = seek_point(shorter, ms);
        assert(shorter[p as int] == timeline[p as int]);
        assert forall|j: int| p < j < timeline.len() implies (#[trigger] timeline[j]).start_ms
            > ms by {
            if j < shorter.len() {
                assert(shorter[j] == timeline[j]);
            }
        }
    } else if timeline.last().start_ms > ms {
        assert(timeline.drop_last().len() == 0);
        assert(seek_point(timeline.drop_last(), ms) == 0);
    }
}

/// A seek to the start of a stream discards what was read: on a timeline in
/// ascending order whose first frame begins at 0, the packet that follows a
/// successful `seek(0)` is the first packet of the stream.
pub proof fn lemma_seek_to_start_restarts(
    timeline: Seq<Frame>,
    landed: nat,
    res: Result<Option<AudioPacket>, AudioError>,
    next: nat,
)
    requires
        ascending(timeline),
        timeline.len() > 0,
        timeline[0].start_ms == 0,
        landed == seek_point(timeline, 0),
        yields(timeline, landed, res, next),
    ensures
        landed == 0,
        res is Ok ==> res->Ok_0 is Some && res->Ok_0->Some_0@ == timeline[0].packet && next == 1,
{
    lemma_seek_point_is_nearest(timeline, 0);
    if landed > 0 {
        assert(timeline[0].start_ms < timeline[landed as int].start_ms);
    }
}

} // verus!
