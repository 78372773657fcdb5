//! The two kinds of source: header-less recordings and SigMF recordings.

use crate::datatype::DataType;
use crate::narrow::narrow;
use crate::playback::{Playback, PlaybackView, Recording};
use crate::path::extension_of;
use crate::sigmf::{pair_paths, resolve_pair, PairError};
use std::path::PathBuf;
use vstd::prelude::*;

verus! {

/// Why a source does not start.
#[derive(Debug)]
pub enum SourceError {
    /// The source is set up in a way that makes no sense.
    BadConfig(String),
}

/// Header-less recordings, played one after the other.
///
/// Such a file says nothing about itself: its extension decides how its samples
/// are stored, and the caller supplies centre frequency and sample rate.
#[derive(Debug)]
pub struct RawIqFileSource {
    pub paths: Vec<PathBuf>,
    /// Bit pattern of the centre frequency in hertz, a double-precision number.
    pub center_frequency_bits: u64,
}

/// SigMF recordings, played one after the other.
///
/// Centre frequency, sample rate and datatype come from the metadata.
#[derive(Debug)]
pub struct SigmfFileSource {
    /// Each path is a `.sigmf-meta` file, a `.sigmf-data` file, or the base name
    /// of both.
    pub paths: Vec<PathBuf>,
}

/// Whether the extension is that of a file of 16-bit integers.
pub open spec fn bin_extension(extension: Option<Seq<char>>) -> bool {
    extension == Some("bin"@)
}

/// Whether the extension is that of a file of 16-bit integers.
fn is_bin(extension: &Option<String>) -> (yes: bool)
    ensures
        yes == bin_extension(crate::path::extension_text(*extension)),
        yes == (extension matches Some(name) && name@ == "bin"@),
{
    match extension {
        Some(name) => *name == "bin".to_owned(),
        None => false,
    }
}

impl RawIqFileSource {
    /// Starts the playback of the paths. It takes at least one.
    pub fn start(&self) -> (started: Result<Playback, SourceError>)
        ensures
            started is Ok <==> self.paths@.len() > 0,
            started matches Ok(playback) ==> playback.wf() && playback@ == PlaybackView::start(
                self.paths@.len() as int,
            ),
            started matches Err(SourceError::BadConfig(message)) ==> message@
                == "RawIqFileSource: no paths to play"@,
    {
        if self.paths.is_empty() {
            return Err(
                SourceError::BadConfig("RawIqFileSource: no paths to play".to_owned()),
            );
        }
        Ok(Playback::new(self.paths.len()))
    }

    /// How a file with this extension is played.
    pub open spec fn played_as(
        self,
        extension: Option<Seq<char>>,
        sample_rate_bits: u64,
    ) -> Recording {
        Recording {
            datatype: crate::datatype::raw_data_type(bin_extension(extension)),
            center_frequency_bits: self.center_frequency_bits,
            sample_rate_bits: crate::narrow::narrowed(sample_rate_bits),
        }
    }

    /// How to play the path with this index, by the extension that it has.
    pub fn recording_at(&self, index: usize, sample_rate_bits: u64) -> (recording: Recording)
        requires
            index < self.paths@.len(),
        ensures
            recording == self.played_as(
                crate::path::path_extension(self.paths@[index as int]),
                sample_rate_bits,
            ),
            recording.datatype == DataType::Ci16Le <==> crate::path::path_extension(
                self.paths@[index as int],
            ) == Some(seq!['b', 'i', 'n']),
            recording.center_frequency_bits == self.center_frequency_bits,
            recording.sample_rate_bits == crate::narrow::narrowed(sample_rate_bits),
    {
        proof {
            law_played_by_extension(
                *self,
                crate::path::path_extension(self.paths@[index as int]),
                sample_rate_bits,
            );
        }
        let extension = extension_of(&self.paths[index]);
        self.recording(&extension, sample_rate_bits)
    }

    /// How to play a file with this extension: `.bin` files hold 16-bit
    /// integers, all others single-precision floats. The packets are tagged with
    /// the centre frequency of the source and the given sample rate, a
    /// double-precision number that is narrowed to single precision.
    pub fn recording(&self, extension: &Option<String>, sample_rate_bits: u64) -> (recording:
        Recording)
        ensures
            recording == self.played_as(
                crate::path::extension_text(*extension),
                sample_rate_bits,
            ),
            recording.datatype == DataType::Ci16Le <==> (extension matches Some(name) && name@
                == "bin"@),
            recording.center_frequency_bits == self.center_frequency_bits,
            recording.sample_rate_bits == crate::narrow::narrowed(sample_rate_bits),
    {
        let datatype = if is_bin(extension) {
            DataType::Ci16Le
        } else {
            DataType::Cf32Le
        };
        Recording {
            datatype,
            center_frequency_bits: self.center_frequency_bits,
            sample_rate_bits: narrow(sample_rate_bits),
        }
    }
}

/// A header-less file holds 16-bit integers exactly if its extension is `bin`,
/// these three letters and no others; with any other extension, and without one,
/// it holds single-precision floats. Its packets carry the centre frequency of
/// the source and the given sample rate, whatever the extension is.
pub proof fn law_played_by_extension(
    source: RawIqFileSource,
    extension: Option<Seq<char>>,
    sample_rate_bits: u64,
)
    ensures
        ({
            let recording = source.played_as(extension, sample_rate_bits);
            &&& recording.datatype == DataType::Ci16Le <==> extension == Some(seq!['b', 'i', 'n'])
            &&& recording.datatype == DataType::Cf32Le <==> extension != Some(seq!['b', 'i', 'n'])
            &&& recording.center_frequency_bits == source.center_frequency_bits
            &&& recording.sample_rate_bits == crate::narrow::narrowed(sample_rate_bits)
        }),
{
    reveal_strlit("bin");
    assert("bin"@ =~= seq!['b', 'i', 'n']);
}

impl SigmfFileSource {
    /// Starts the playback of the paths. It takes at least one.
    pub fn start(&self) -> (started: Result<Playback, SourceError>)
        ensures
            started is Ok <==> self.paths@.len() > 0,
            started matches Ok(playback) ==> playback.wf() && playback@ == PlaybackView::start(
                self.paths@.len() as int,
            ),
            started matches Err(SourceError::BadConfig(message)) ==> message@
                == "SigmfFileSource: no paths to play"@,
    {
        if self.paths.is_empty() {
            return Err(
                SourceError::BadConfig("SigmfFileSource: no paths to play".to_owned()),
            );
        }
        Ok(Playback::new(self.paths.len()))
    }

    /// Whether the path with this index leads to a recording, by the extension
    /// that it has, given which of the two files of the recording exist.
    pub fn resolve_at(&self, index: usize, meta_exists: bool, data_exists: bool) -> (pair: Result<
        (),
        PairError,
    >)
        requires
            index < self.paths@.len(),
        ensures
            pair == crate::sigmf::resolved(
                crate::path::path_extension(self.paths@[index as int]),
                meta_exists,
                data_exists,
            ),
    {
        let extension = extension_of(&self.paths[index]);
        resolve_pair(&extension, meta_exists, data_exists)
    }

    /// The metadata file and the payload file of the recording that the path
    /// with this index names. Both files are resolved as a base name is, and
    /// either one of a base name leads to the same pair as the base name does.
    pub fn pair_at(&self, index: usize) -> (pair: (PathBuf, PathBuf))
        requires
            index < self.paths@.len(),
        ensures
            pair == crate::sigmf::pair_of(self.paths@[index as int]),
            crate::path::path_extension(self.paths@[index as int]) is None ==> crate::sigmf::pair_of(
                pair.0,
            ) == pair && crate::sigmf::pair_of(pair.1) == pair,
            forall|meta_exists: bool, data_exists: bool|
                #![trigger crate::sigmf::resolved(None, meta_exists, data_exists)]
                {
                    let base = crate::sigmf::resolved(None, meta_exists, data_exists);
                    &&& base == crate::sigmf::resolved(
                        crate::path::path_extension(pair.0),
                        meta_exists,
                        data_exists,
                    )
                    &&& base == crate::sigmf::resolved(
                        crate::path::path_extension(pair.1),
                        meta_exists,
                        data_exists,
                    )
                },
    {
        pair_paths(&self.paths[index])
    }
}

} // verus!
