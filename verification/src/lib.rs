//! Audio packets, sample-format conversion and the decoder and sink
//! interfaces of a streaming playback pipeline.
//!
//! A decoder yields [`decoder::AudioPacket`]s; a sink takes each packet and,
//! where its device wants integer PCM, has a [`convert::Converter`] quantise
//! the samples first. Samples are IEEE 754 binary32 numbers and are carried
//! as their bit patterns, so that every conversion is exact integer
//! arithmetic with a stated result.
//!
//! - [`sample`]: what a bit pattern is worth, and its quantisation.
//! - [`pcm`]: how the integers lie in bytes, and the packed 24-bit form.
//! - [`convert`]: the converter, one call for each integer format.
//! - [`decoder`]: packets, decoding errors and the decoder interface.
//! - [`audio_backend`]: the sink interfaces, the shared write logic and the
//!   choice of a backend by name.
//! - [`config`]: the sample formats.

pub mod audio_backend;
pub mod config;
pub mod convert;
pub mod decoder;
pub mod pcm;
pub mod sample;
