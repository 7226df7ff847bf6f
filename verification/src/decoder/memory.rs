//! A decoder over packets that are already in memory.

use crate::decoder::seek_point;
use crate::decoder::AudioDecoder;
use crate::decoder::AudioError;
use crate::decoder::AudioPacket;
use crate::decoder::Frame;
use vstd::prelude::*;

verus! {

/// The frame that a pair of a start time and a packet stands for.
pub open spec fn frame_of(entry: (i64, AudioPacket)) -> Frame {
    Frame { start_ms: entry.0 as int, packet: entry.1@ }
}

/// The timeline that a run of such pairs stands for.
pub open spec fn timeline_of(entries: Seq<(i64, AudioPacket)>) -> Seq<Frame> {
    entries.map_values(|entry: (i64, AudioPacket)| frame_of(entry))
}

/// A decoder that replays a stream held in memory. It never fails.
pub struct MemoryDecoder {
    frames: Vec<(i64, AudioPacket)>,
    cursor: usize,
}

impl MemoryDecoder {
    /// A decoder at the start of the given stream: each packet with the time
    /// in milliseconds at which it begins.
    pub fn new(frames: Vec<(i64, AudioPacket)>) -> (decoder: MemoryDecoder)
        ensures
            decoder.timeline() == Some(timeline_of(frames@)),
            decoder.cursor() == 0,
    {
        MemoryDecoder { frames, cursor: 0 }
    }
}

impl AudioDecoder for MemoryDecoder {
    closed spec fn timeline(&self) -> Option<Seq<Frame>> {
        Some(timeline_of(self.frames@))
    }

    closed spec fn cursor(&self) -> nat {
        self.cursor as nat
    }

    fn seek(&mut self, ms: i64) -> (res: Result<(), AudioError>)
        ensures
            res is Ok,
    {
        let ghost timeline = self.timeline()->Some_0;
        let mut end: usize = self.frames.len();
        assert(timeline.subrange(0, end as int) =~= timeline);
        while end > 0 && self.frames[end - 1].0 > ms
            invariant
                end <= self.frames@.len(),
                Some(timeline) == self.timeline(),
                seek_point(timeline, ms as int) == seek_point(
                    timeline.subrange(0, end as int),
                    ms as int,
                ),
            decreases end,
        {
            proof {
                let longer = timeline.subrange(0, end as int);
                assert(longer.last() == frame_of(self.frames@[end - 1]));
                assert(longer.drop_last() =~= timeline.subrange(0, end - 1));
            }
            end -= 1;
        }
        proof {
            let rest = timeline.subrange(0, end as int);
            if end > 0 {
                assert(rest.last() == frame_of(self.frames@[end - 1]));
            }
        }
        self.cursor = if end == 0 {
            0
        } else {
            end - 1
        };
        Ok(())
    }

    fn next_packet(&mut self) -> (res: Result<Option<AudioPacket>, AudioError>)
        ensures
            res is Ok,
    {
        if self.cursor < self.frames.len() {
            let packet = self.frames[self.cursor].1.clone();
            self.cursor += 1;
            Ok(Some(packet))
        } else {
            Ok(None)
        }
    }
}

} // verus!
