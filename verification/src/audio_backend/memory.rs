//! A backend that keeps what it is given in memory.

use crate::audio_backend::wire_bytes;
use crate::audio_backend::write_as_bytes;
use crate::audio_backend::Open;
use crate::audio_backend::Sink;
use crate::audio_backend::SinkAsBytes;
use crate::config::AudioFormat;
use crate::convert::Converter;
use crate::decoder::AudioPacket;
use vstd::endian::endianness;
use vstd::prelude::*;

verus! {

/// A byte-oriented backend whose device is a buffer in memory. It never
/// fails.
pub struct MemorySink {
    format: AudioFormat,
    bytes: Vec<u8>,
}

impl MemorySink {
    /// The format that the sink was opened with.
    pub closed spec fn spec_format(&self) -> AudioFormat {
        self.format
    }

    /// Every byte written so far, in order.
    pub closed spec fn sent(&self) -> Seq<u8> {
        self.bytes@
    }

    /// The format that the sink was opened with.
    pub fn format(&self) -> (format: AudioFormat)
        ensures
            format == self.spec_format(),
    {
        self.format
    }

    /// Every byte written so far, in order.
    pub fn bytes(&self) -> (bytes: &[u8])
        ensures
            bytes@ == self.sent(),
    {
        self.bytes.as_slice()
    }
}

impl Open for MemorySink {
    /// An empty sink for `format`. No device is opened, so the name is not
    /// looked at.
    fn open(device: Option<String>, format: AudioFormat) -> (sink: MemorySink)
        ensures
            sink.spec_format() == format,
            sink.sent() == Seq::<u8>::empty(),
    {
        MemorySink { format, bytes: Vec::new() }
    }
}

impl SinkAsBytes for MemorySink {
    /// A write always succeeds, appends the data and leaves the format.
    open spec fn written(&self, data: Seq<u8>, after: &Self, ok: bool) -> bool {
        &&& ok
        &&& after.sent() == self.sent() + data
        &&& after.spec_format() == self.spec_format()
    }

    fn write_bytes(&mut self, data: &[u8]) -> (res: Result<(), std::io::Error>) {
        self.bytes.extend_from_slice(data);
        assert(self.sent() == old(self).sent() + data@);
        Ok(())
    }
}

impl Sink for MemorySink {
    open spec fn account(&self) -> Option<(AudioFormat, Seq<u8>)> {
        Some((self.spec_format(), self.sent()))
    }

    /// Appends the packet's bytes for the sink's format.
    fn write(&mut self, packet: &AudioPacket, converter: &mut Converter) -> (res: Result<
        (),
        std::io::Error,
    >)
        ensures
            res is Ok,
            final(self).spec_format() == old(self).spec_format(),
            final(self).sent() == old(self).sent() + wire_bytes(
                old(self).spec_format(),
                packet@,
                endianness(),
            ),
    {
        let format = self.format;
        write_as_bytes(self, format, packet, converter)
    }
}

} // verus!
