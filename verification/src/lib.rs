//! File-backed software-defined-radio sources.
//!
//! The crate turns recorded IQ files into a stream of tagged sample packets. It
//! holds the decisions: how bytes become samples, how reads of any size are
//! stitched together, how samples are cut into packets, and how a list of paths
//! is played. Opening and reading files is up to the driver of a
//! [`playback::Playback`].
//!
//! * [`RawIqFileSource`] plays header-less recordings: `.bin` files of 16-bit
//!   integers, and files of single-precision floats under any other extension.
//! * [`SigmfFileSource`] plays SigMF recordings, whose metadata names the
//!   datatype, the sample rate and the centre frequency.
//!
//! Floating-point numbers are held as their IEEE-754 bit patterns.

pub mod datatype;
pub mod laws;
pub mod narrow;
pub mod packet;
pub mod path;
pub mod playback;
pub mod pool;
pub mod sample;
pub mod sigmf;
pub mod source;
pub mod stream;

pub use crate::datatype::{decode_block, DataType as SigmfDataType};
pub use crate::packet::PACKET_SAMPLES;
pub use crate::sigmf::{looks_like_sigmf, SigmfMetadata};
pub use crate::source::{RawIqFileSource, SigmfFileSource};
