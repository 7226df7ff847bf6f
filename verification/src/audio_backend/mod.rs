//! The interface of the output backends, the write logic that the
//! byte-oriented backends share, and the choice of a backend by name.

use crate::config::AudioFormat;
use crate::convert::quantized;
use crate::convert::values16;
use crate::convert::values32;
use crate::convert::Converter;
use crate::decoder::AudioPacket;
use crate::decoder::PacketView;
use crate::pcm::triples_bytes;
use crate::pcm::words_bytes;
use crate::sample::S16_FULL_SCALE;
use crate::sample::S24_FULL_SCALE;
use crate::sample::S32_FULL_SCALE;
use vstd::endian::endianness;
use vstd::endian::Endian;
use vstd::prelude::*;
use zerocopy::AsBytes;

pub mod memory;

verus! {

/// The error of an output device, as the standard library has it. Nothing is
/// known of what is inside it.
#[verifier::external_type_specification]
#[verifier::external_body]
pub struct ExIoError(std::io::Error);

/// How a backend is made: from the name of a device, if one was given, and
/// the sample format that the device is to be fed.
pub trait Open: Sized {
    fn open(device: Option<String>, format: AudioFormat) -> Self;
}

/// An output backend. `start` comes before the first `write` and `stop`
/// after the last; a backend that has nothing to do for them leaves them as
/// they are here, and they succeed and change nothing.
///
/// A backend whose device takes bytes can keep account of them. It is then
/// held to the rule of `write`: each packet that is written adds its
/// [`wire_bytes`] to what the device has accepted, whole and in order, and
/// the format never changes.
pub trait Sink {
    /// The format of the device and every byte that it has accepted so far,
    /// where the backend keeps account of them.
    open spec fn account(&self) -> Option<(AudioFormat, Seq<u8>)> {
        None
    }

    fn start(&mut self) -> (res: Result<(), std::io::Error>)
        default_ensures
            res is Ok,
            &*final(self) == &*old(self),
    {
        Ok(())
    }

    fn stop(&mut self) -> (res: Result<(), std::io::Error>)
        default_ensures
            res is Ok,
            &*final(self) == &*old(self),
    {
        Ok(())
    }

    fn write(&mut self, packet: &AudioPacket, converter: &mut Converter) -> (res: Result<
        (),
        std::io::Error,
    >)
        ensures
            accounts_for(old(self).account(), packet@, final(self).account(), res is Ok),
    ;
}

/// A backend whose device takes plain bytes. It says how bytes are handed
/// over; [`write_as_bytes`] says which bytes.
pub trait SinkAsBytes {
    /// What one call of `write_bytes` with `data` may do: whether a backend
    /// that was `self` before the call can be `after` once it has returned,
    /// with success if `ok`. A backend states here what its device
    /// promises; one that states nothing promises nothing.
    open spec fn written(&self, data: Seq<u8>, after: &Self, ok: bool) -> bool {
        true
    }

    /// Hands `data` to the device.
    fn write_bytes(&mut self, data: &[u8]) -> (res: Result<(), std::io::Error>)
        ensures
            old(self).written(data@, &*final(self), res is Ok),
    ;
}

/// The values of a run of bit patterns.
pub open spec fn values_of_bits(run: Seq<u32>) -> Seq<int> {
    run.map_values(|bits: u32| bits as int)
}

/// The bytes that a packet becomes for a device of the given format, on a
/// machine of the given byte order.
///
/// A compressed block goes out as it is. Samples go out as floating point
/// unchanged, or as the integers of the format, each in the machine's byte
/// order; only the three-byte format is little-endian on every machine.
pub open spec fn wire_bytes(format: AudioFormat, packet: PacketView, order: Endian) -> Seq<u8> {
    match packet {
        PacketView::OggData(data) => data,
        PacketView::Samples(samples) => match format {
            AudioFormat::F32 => words_bytes(values_of_bits(samples), 4, order),
            AudioFormat::S32 => words_bytes(quantized(samples, S32_FULL_SCALE as int), 4, order),
            AudioFormat::S24 => words_bytes(quantized(samples, S24_FULL_SCALE as int), 4, order),
            AudioFormat::S24_3 => words_bytes(
                quantized(samples, S24_FULL_SCALE as int),
                3,
                Endian::Little,
            ),
            AudioFormat::S16 => words_bytes(quantized(samples, S16_FULL_SCALE as int), 2, order),
        },
    }
}

/// Samples take as many bytes as the format has for each of them, with
/// nothing added: three for each in the three-byte format. A compressed
/// block keeps its length.
pub proof fn lemma_wire_len(format: AudioFormat, packet: PacketView, order: Endian)
    ensures
        wire_bytes(format, packet, order).len() == match packet {
            PacketView::OggData(data) => data.len(),
            PacketView::Samples(samples) => samples.len() * format.sample_size(),
        },
{
}

/// Whether an account is kept rightly over one `write` of `packet`: the
/// account goes on, the format stays, and where the write succeeded the
/// device has accepted the packet's bytes, all of them and nothing else,
/// after what it had accepted before. Of a backend that keeps no account
/// nothing is asked.
pub open spec fn accounts_for(
    before: Option<(AudioFormat, Seq<u8>)>,
    packet: PacketView,
    after: Option<(AudioFormat, Seq<u8>)>,
    ok: bool,
) -> bool {
    match before {
        None => true,
        Some((format, sent)) => {
            &&& after is Some
            &&& after->Some_0.0 == format
            &&& ok ==> after->Some_0.1 == sent + wire_bytes(format, packet, endianness())
        },
    }
}

/// Packets reach the device in the order in which they were written: after
/// two writes that succeeded, the device has accepted the bytes of the first
/// packet and then those of the second, after what it had before, and none
/// of them is changed or left out.
pub proof fn lemma_writes_keep_order(
    before: Option<(AudioFormat, Seq<u8>)>,
    first: PacketView,
    between: Option<(AudioFormat, Seq<u8>)>,
    second: PacketView,
    after: Option<(AudioFormat, Seq<u8>)>,
)
    requires
        before is Some,
        accounts_for(before, first, between, true),
        accounts_for(between, second, after, true),
    ensures
        after is Some,
        after->Some_0.0 == before->Some_0.0,
        after->Some_0.1 == before->Some_0.1 + wire_bytes(before->Some_0.0, first, endianness())
            + wire_bytes(before->Some_0.0, second, endianness()),
{
}

/// `zerocopy::AsBytes::as_bytes` on a slice of `i16`: the memory of the
/// slice, which is each integer's two bytes in the machine's byte order, one
/// integer after the other.
#[verifier::external_body]
fn i16s_as_bytes<'a>(run: &'a [i16]) -> (bytes: &'a [u8])
    ensures
        bytes@ == words_bytes(values16(run@), 2, endianness()),
{
    run.as_bytes()
}

/// `zerocopy::AsBytes::as_bytes` on a slice of `i32`: the memory of the
/// slice, which is each integer's four bytes in the machine's byte order,
/// one integer after the other.
#[verifier::external_body]
fn i32s_as_bytes<'a>(run: &'a [i32]) -> (bytes: &'a [u8])
    ensures
        bytes@ == words_bytes(values32(run@), 4, endianness()),
{
    run.as_bytes()
}

/// `zerocopy::AsBytes::as_bytes` on a slice of `u32`: the memory of the
/// slice, which is each integer's four bytes in the machine's byte order,
/// one integer after the other.
#[verifier::external_body]
fn u32s_as_bytes<'a>(run: &'a [u32]) -> (bytes: &'a [u8])
    ensures
        bytes@ == words_bytes(values_of_bits(run@), 4, endianness()),
{
    run.as_bytes()
}

/// `zerocopy::AsBytes::as_bytes` on a slice of three-byte arrays: the memory
/// of the slice, which is the arrays' bytes, one array after the other.
#[verifier::external_body]
fn triples_as_bytes<'a>(run: &'a [[u8; 3]]) -> (bytes: &'a [u8])
    ensures
        bytes@ == triples_bytes(run@),
{
    run.as_bytes()
}

/// Writes one packet to a byte-oriented backend whose device takes
/// `format`.
///
/// The packet's bytes, [`wire_bytes`], are handed to `write_bytes` in one
/// call, and what that call returns is returned: the backend is left as that
/// one call leaves it.
pub fn write_as_bytes<S: SinkAsBytes>(
    sink: &mut S,
    format: AudioFormat,
    packet: &AudioPacket,
    converter: &mut Converter,
) -> (res: Result<(), std::io::Error>)
    ensures
        old(sink).written(wire_bytes(format, packet@, endianness()), &*final(sink), res is Ok),
{
    match packet {
        AudioPacket::Samples(samples) => match format {
            AudioFormat::F32 => sink.write_bytes(u32s_as_bytes(samples.as_slice())),
            AudioFormat::S32 => {
                let samples_s32 = converter.f32_to_s32(samples.as_slice());
                sink.write_bytes(i32s_as_bytes(samples_s32))
            },
            AudioFormat::S24 => {
                let samples_s24 = converter.f32_to_s24(samples.as_slice());
                sink.write_bytes(i32s_as_bytes(samples_s24))
            },
            AudioFormat::S24_3 => {
                let samples_s24_3 = converter.f32_to_s24_3(samples.as_slice());
                sink.write_bytes(triples_as_bytes(samples_s24_3))
            },
            AudioFormat::S16 => {
                let samples_s16 = converter.f32_to_s16(samples.as_slice());
                sink.write_bytes(i16s_as_bytes(samples_s16))
            },
        },
        AudioPacket::OggData(data) => sink.write_bytes(data.as_slice()),
    }
}

/// Makes a backend of kind `S` and hands it out as a sink.
pub fn mk_sink<S: Sink + Open + 'static>(device: Option<String>, format: AudioFormat) -> Box<
    dyn Sink,
> {
    Box::new(S::open(device, format))
}

/// Equality of string slices, as the standard library documents it: whether
/// the two hold the same characters.
pub assume_specification[ <str as PartialEq>::eq ](a: &str, b: &str) -> (equal: bool)
    ensures
        equal == (a@ == b@),
;

/// The name asked for, as a sequence of characters.
pub open spec fn name_view(name: Option<String>) -> Option<Seq<char>> {
    match name {
        Some(name) => Some(name@),
        None => None,
    }
}

/// What [`find`] gives on a table: with no name the first entry's
/// constructor, with a name the constructor of the first entry under
/// exactly that name, and `None` where there is no such entry.
pub open spec fn lookup<B>(backends: Seq<(&str, B)>, name: Option<Seq<char>>) -> Option<B>
    decreases backends.len(),
{
    if backends.len() == 0 {
        None
    } else {
        match name {
            None => Some(backends[0].1),
            Some(wanted) => if backends[0].0@ == wanted {
                Some(backends[0].1)
            } else {
                lookup(backends.drop_first(), name)
            },
        }
    }
}

/// Finds a backend's constructor in a table of names and constructors.
///
/// The order of the table matters: its first entry is the default, taken
/// when no name is given. A table without entries has no default, so it
/// may only be searched by name.
pub fn find<B: Copy>(backends: &[(&str, B)], name: Option<String>) -> (found: Option<B>)
    requires
        name is None ==> backends@.len() > 0,
    ensures
        found == lookup(backends@, name_view(name)),
{
    match name {
        Some(wanted) => {
            let mut i: usize = 0;
            assert(backends@.subrange(0, backends@.len() as int) =~= backends@);
            while i < backends.len()
                invariant
                    i <= backends@.len(),
                    name_view(name) == Some(wanted@),
                    lookup(backends@, Some(wanted@)) == lookup(
                        backends@.subrange(i as int, backends@.len() as int),
                        Some(wanted@),
                    ),
                decreases backends@.len() - i,
            {
                let ghost rest = backends@.subrange(i as int, backends@.len() as int);
                assert(rest[0] == backends@[i as int]);
                assert(rest.drop_first() =~= backends@.subrange(i + 1, backends@.len() as int));
                if wanted.as_str().eq(backends[i].0) {
                    return Some(backends[i].1);
                }
                i += 1;
            }
            None
        },
        None => Some(backends[0].1),
    }
}

} // verus!
