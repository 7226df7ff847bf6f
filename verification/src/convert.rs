//! The converter: from samples to the integers of each output format.

use crate::pcm::i24_value;
use crate::pcm::le_bytes;
use crate::pcm::lemma_i24_round_trip;
use crate::pcm::lemma_triples_are_words;
use crate::pcm::pack_i24;
use crate::pcm::triples_bytes;
use crate::pcm::words_bytes;
use crate::sample::lemma_quantize_saturates;
use crate::sample::quantize;
use crate::sample::quantize_sample;
use crate::sample::S16_FULL_SCALE;
use crate::sample::S24_FULL_SCALE;
use crate::sample::S32_FULL_SCALE;
use vstd::endian::Endian;
use vstd::prelude::*;

verus! {

/// Each sample quantised at `full_scale`, in order.
pub open spec fn quantized(samples: Seq<u32>, full_scale: int) -> Seq<int> {
    samples.map_values(|bits: u32| quantize(bits, full_scale))
}

/// The values of a run of 16-bit integers.
pub open spec fn values16(run: Seq<i16>) -> Seq<int> {
    run.map_values(|v: i16| v as int)
}

/// The values of a run of 32-bit integers.
pub open spec fn values32(run: Seq<i32>) -> Seq<int> {
    run.map_values(|v: i32| v as int)
}

/// The three bytes of a 24-bit sample hold exactly the integer that the
/// sample was quantised to: packing loses nothing, only quantising does.
pub proof fn lemma_s24_3_unpacks_to_s24(bits: u32)
    ensures
        ({
            let q = quantize(bits, S24_FULL_SCALE as int);
            &&& -0x80_0000 <= q < 0x80_0000
            &&& le_bytes(q, 3).len() == 3
            &&& i24_value(le_bytes(q, 3)) == q
        }),
{
    lemma_quantize_saturates(bits, S24_FULL_SCALE as int);
    lemma_i24_round_trip(quantize(bits, S24_FULL_SCALE as int));
}

/// Turns samples into integer PCM. It keeps nothing from one call to the
/// next but the buffers that it hands its results out of.
pub struct Converter {
    s16: Vec<i16>,
    s32: Vec<i32>,
    s24_3: Vec<[u8; 3]>,
}

/// What a converter holds: for each kind of result, the run that it gave
/// last. A call overwrites the buffer of its kind and leaves the others; no
/// result depends on what a buffer held before.
pub struct Scratch {
    /// The last result of [`Converter::f32_to_s16`].
    pub s16: Seq<i16>,
    /// The last result of [`Converter::f32_to_s32`] or
    /// [`Converter::f32_to_s24`], which share a buffer.
    pub s32: Seq<i32>,
    /// The last result of [`Converter::f32_to_s24_3`].
    pub s24_3: Seq<[u8; 3]>,
}

impl Scratch {
    /// Buffers that hold nothing yet.
    pub open spec fn empty() -> Scratch {
        Scratch { s16: Seq::empty(), s32: Seq::empty(), s24_3: Seq::empty() }
    }
}

impl View for Converter {
    type V = Scratch;

    closed spec fn view(&self) -> Scratch {
        Scratch { s16: self.s16@, s32: self.s32@, s24_3: self.s24_3@ }
    }
}

impl Converter {
    /// A converter with empty buffers.
    pub fn new() -> (converter: Converter)
        ensures
            converter@ == Scratch::empty(),
    {
        Converter { s16: Vec::new(), s32: Vec::new(), s24_3: Vec::new() }
    }

    /// Signed 16-bit samples: each sample times 32767, rounded, held to
    /// `[-32768, 32767]`.
    pub fn f32_to_s16<'a>(&'a mut self, samples: &[u32]) -> (out: &'a [i16])
        ensures
            values16(out@) == quantized(samples@, S16_FULL_SCALE as int),
            final(self)@ == (Scratch { s16: out@, ..old(self)@ }),
    {
        let ghost before = self@;
        self.s16.clear();
        let mut i: usize = 0;
        while i < samples.len()
            invariant
                i <= samples@.len(),
                self.s16@.len() == i,
                self@.s32 == before.s32,
                self@.s24_3 == before.s24_3,
                forall|j: int|
                    0 <= j < i ==> self.s16@[j] == quantize(samples@[j], S16_FULL_SCALE as int),
            decreases samples@.len() - i,
        {
            let q: i32 = quantize_sample(samples[i], S16_FULL_SCALE);
            self.s16.push(q as i16);
            i += 1;
        }
        assert(values16(self.s16@) =~= quantized(samples@, S16_FULL_SCALE as int));
        self.s16.as_slice()
    }

    /// Signed 32-bit samples: each sample times 2147483647, rounded, held to
    /// the range of `i32`.
    pub fn f32_to_s32<'a>(&'a mut self, samples: &[u32]) -> (out: &'a [i32])
        ensures
            values32(out@) == quantized(samples@, S32_FULL_SCALE as int),
            final(self)@ == (Scratch { s32: out@, ..old(self)@ }),
    {
        let ghost before = self@;
        self.s32.clear();
        let mut i: usize = 0;
        while i < samples.len()
            invariant
                i <= samples@.len(),
                self.s32@.len() == i,
                self@.s16 == before.s16,
                self@.s24_3 == before.s24_3,
                forall|j: int|
                    0 <= j < i ==> self.s32@[j] == quantize(samples@[j], S32_FULL_SCALE as int),
            decreases samples@.len() - i,
        {
            let q: i32 = quantize_sample(samples[i], S32_FULL_SCALE);
            self.s32.push(q);
            i += 1;
        }
        assert(values32(self.s32@) =~= quantized(samples@, S32_FULL_SCALE as int));
        self.s32.as_slice()
    }

    /// Signed 24-bit samples, each sign-extended in a 32-bit integer: each
    /// sample times 8388607, rounded, held to `[-8388608, 8388607]`.
    pub fn f32_to_s24<'a>(&'a mut self, samples: &[u32]) -> (out: &'a [i32])
        ensures
            values32(out@) == quantized(samples@, S24_FULL_SCALE as int),
            final(self)@ == (Scratch { s32: out@, ..old(self)@ }),
    {
        let ghost before = self@;
        self.s32.clear();
        let mut i: usize = 0;
        while i < samples.len()
            invariant
                i <= samples@.len(),
                self.s32@.len() == i,
                self@.s16 == before.s16,
                self@.s24_3 == before.s24_3,
                forall|j: int|
                    0 <= j < i ==> self.s32@[j] == quantize(samples@[j], S24_FULL_SCALE as int),
            decreases samples@.len() - i,
        {
            let q: i32 = quantize_sample(samples[i], S24_FULL_SCALE);
            self.s32.push(q);
            i += 1;
        }
        assert(values32(self.s32@) =~= quantized(samples@, S24_FULL_SCALE as int));
        self.s32.as_slice()
    }

    /// Signed 24-bit samples, each packed in three bytes, least significant
    /// first: the same integers as [`Converter::f32_to_s24`] gives, three
    /// bytes for each sample and nothing between them.
    pub fn f32_to_s24_3<'a>(&'a mut self, samples: &[u32]) -> (out: &'a [[u8; 3]])
        ensures
            out@.len() == samples@.len(),
            forall|j: int|
                0 <= j < out@.len() ==> (#[trigger] out@[j])@ == le_bytes(
                    quantize(samples@[j], S24_FULL_SCALE as int),
                    3,
                ),
            triples_bytes(out@) == words_bytes(
                quantized(samples@, S24_FULL_SCALE as int),
                3,
                Endian::Little,
            ),
            final(self)@ == (Scratch { s24_3: out@, ..old(self)@ }),
    {
        let ghost before = self@;
        self.s24_3.clear();
        let mut i: usize = 0;
        while i < samples.len()
            invariant
                i <= samples@.len(),
                self.s24_3@.len() == i,
                self@.s16 == before.s16,
                self@.s32 == before.s32,
                forall|j: int|
                    0 <= j < i ==> (#[trigger] self.s24_3@[j])@ == le_bytes(
                        quantize(samples@[j], S24_FULL_SCALE as int),
                        3,
                    ),
            decreases samples@.len() - i,
        {
            let q: i32 = quantize_sample(samples[i], S24_FULL_SCALE);
            self.s24_3.push(pack_i24(q));
            i += 1;
        }
        proof {
            lemma_triples_are_words(self.s24_3@, quantized(samples@, S24_FULL_SCALE as int));
        }
        self.s24_3.as_slice()
    }
}

} // verus!
