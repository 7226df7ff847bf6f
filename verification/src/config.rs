//! The sample formats an output device can ask for.

use vstd::prelude::*;

verus! {

/// The PCM representation that a sink hands to its device.
#[derive(Clone, Copy, Debug, PartialEq, Eq, Structural)]
#[allow(non_camel_case_types)]
pub enum AudioFormat {
    /// 32-bit floating point, passed on as it came from the decoder.
    F32,
    /// Signed 32-bit integers.
    S32,
    /// Signed 24-bit integers, each in a 32-bit word, sign-extended.
    S24,
    /// Signed 24-bit integers, each in three bytes, least significant first.
    S24_3,
    /// Signed 16-bit integers.
    S16,
}

impl AudioFormat {
    /// The number of bytes that one sample takes in this format.
    pub open spec fn sample_size(self) -> nat {
        match self {
            AudioFormat::F32 => 4,
            AudioFormat::S32 => 4,
            AudioFormat::S24 => 4,
            AudioFormat::S24_3 => 3,
            AudioFormat::S16 => 2,
        }
    }
}

} // verus!
