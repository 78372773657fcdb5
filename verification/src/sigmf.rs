//! SigMF recordings: a metadata file and the payload file beside it.

use crate::datatype::{DataType, UnsupportedDataType};
use crate::narrow::narrow;
use crate::playback::Recording;
use crate::path::{extension_of, with_extension};
use std::path::PathBuf;
use vstd::prelude::*;

verus! {

/// What the metadata says of the recording as a whole.
#[derive(Debug)]
pub struct SigmfGlobal {
    /// `core:datatype`.
    pub datatype: String,
    /// Bit pattern of `core:sample_rate`, a double-precision number of hertz.
    pub sample_rate_bits: u64,
}

/// What the metadata says of one capture segment.
#[derive(Debug)]
pub struct SigmfCapture {
    /// Bit pattern of `core:frequency`, a double-precision number of hertz.
    pub frequency_bits: Option<u64>,
}

/// The metadata of a recording.
#[derive(Debug)]
pub struct SigmfMetadata {
    pub global: SigmfGlobal,
    pub captures: Vec<SigmfCapture>,
}

/// The frequency of the first capture that has one.
pub open spec fn first_frequency(captures: Seq<SigmfCapture>) -> Option<u64>
    decreases captures.len(),
{
    if captures.len() == 0 {
        None
    } else if captures.first().frequency_bits is Some {
        captures.first().frequency_bits
    } else {
        first_frequency(captures.drop_first())
    }
}

/// The first capture that has a frequency decides: if capture `k` has one and no
/// capture before it does, the centre frequency is that of capture `k`, whatever
/// the captures behind it hold.
pub proof fn law_first_frequency_decides(captures: Seq<SigmfCapture>, k: int)
    requires
        0 <= k < captures.len(),
        captures[k].frequency_bits is Some,
        forall|j: int| 0 <= j < k ==> (#[trigger] captures[j]).frequency_bits is None,
    ensures
        first_frequency(captures) == captures[k].frequency_bits,
    decreases k,
{
    if k > 0 {
        let rest = captures.drop_first();
        assert(captures[0].frequency_bits is None);
        assert forall|j: int| 0 <= j < k - 1 implies (#[trigger] rest[j]).frequency_bits is None by {
            assert(rest[j] == captures[j + 1]);
        }
        law_first_frequency_decides(rest, k - 1);
    }
}

/// There is no centre frequency exactly where no capture has one.
pub proof fn law_frequency_missing(captures: Seq<SigmfCapture>)
    ensures
        first_frequency(captures) is None <==> forall|j: int|
            0 <= j < captures.len() ==> (#[trigger] captures[j]).frequency_bits is None,
    decreases captures.len(),
{
    if captures.len() > 0 {
        let rest = captures.drop_first();
        law_frequency_missing(rest);
        assert(captures[0] == captures.first());
        if first_frequency(captures) is None {
            assert forall|j: int| 0 <= j < captures.len() implies (
            #[trigger] captures[j]).frequency_bits is None by {
                if j > 0 {
                    assert(rest[j - 1] == captures[j]);
                }
            }
        } else if captures.first().frequency_bits is None {
            let j = choose|j: int|
                0 <= j < rest.len() && (#[trigger] rest[j]).frequency_bits is Some;
            assert(captures[j + 1].frequency_bits is Some);
        }
    }
}

/// The tag of a recording without a centre frequency: the bit pattern of zero hertz.
pub const NO_FREQUENCY_BITS: u64 = 0;

/// The tag for an optional centre frequency.
pub open spec fn frequency_tag(frequency: Option<u64>) -> u64 {
    match frequency {
        Some(bits) => bits,
        None => NO_FREQUENCY_BITS,
    }
}

/// A centre frequency is tagged as it is, and a missing one as positive zero.
pub proof fn law_frequency_tagged(frequency: Option<u64>)
    ensures
        frequency matches Some(bits) ==> frequency_tag(frequency) == bits,
        frequency is None ==> frequency_tag(frequency) == 0,
{
}

impl SigmfMetadata {
    /// The encoding of the payload.
    pub fn data_type(&self) -> (found: Result<DataType, UnsupportedDataType>)
        ensures
            found is Ok <==> crate::datatype::data_type_named(self.global.datatype@) is Some,
            found matches Ok(datatype) ==> crate::datatype::data_type_named(self.global.datatype@)
                == Some(datatype),
            found matches Err(error) ==> error.name@ == self.global.datatype@,
    {
        DataType::from_name(&self.global.datatype)
    }

    /// The centre frequency: that of the first capture that has one.
    pub fn center_frequency_bits(&self) -> (bits: Option<u64>)
        ensures
            bits == first_frequency(self.captures@),
            bits is None <==> forall|j: int|
                0 <= j < self.captures@.len() ==> (#[trigger] self.captures@[j]).frequency_bits is None,
            bits is Some ==> exists|k: int|
                {
                    &&& 0 <= k < self.captures@.len()
                    &&& (#[trigger] self.captures@[k]).frequency_bits == bits
                    &&& forall|j: int|
                        0 <= j < k ==> (#[trigger] self.captures@[j]).frequency_bits is None
                },
    {
        let mut k: usize = 0;
        proof {
            assert(self.captures@.skip(0) =~= self.captures@);
        }
        while k < self.captures.len()
            invariant
                k <= self.captures@.len(),
                first_frequency(self.captures@) == first_frequency(self.captures@.skip(k as int)),
                forall|j: int|
                    0 <= j < k ==> (#[trigger] self.captures@[j]).frequency_bits is None,
            decreases self.captures@.len() - k,
        {
            proof {
                assert(self.captures@.skip(k as int).drop_first() =~= self.captures@.skip(k + 1));
            }
            if self.captures[k].frequency_bits.is_some() {
                return self.captures[k].frequency_bits;
            }
            k = k + 1;
        }
        None
    }

    /// How to play a recording with this metadata, which alone decides. Its
    /// packets are tagged with the sample rate, narrowed to single precision, and
    /// with zero hertz where no capture has a frequency.
    pub fn recording(&self) -> (found: Result<Recording, UnsupportedDataType>)
        ensures
            found is Ok <==> crate::datatype::data_type_named(self.global.datatype@) is Some,
            found matches Ok(recording) ==> {
                &&& crate::datatype::data_type_named(self.global.datatype@) == Some(
                    recording.datatype,
                )
                &&& recording.center_frequency_bits == frequency_tag(
                    first_frequency(self.captures@),
                )
                &&& recording.sample_rate_bits == crate::narrow::narrowed(
                    self.global.sample_rate_bits,
                )
            },
            found matches Err(error) ==> error.name@ == self.global.datatype@,
    {
        let datatype = match self.data_type() {
            Ok(datatype) => datatype,
            Err(error) => {
                return Err(error);
            },
        };
        let center_frequency_bits: u64 = match self.center_frequency_bits() {
            Some(bits) => bits,
            None => NO_FREQUENCY_BITS,
        };
        let sample_rate_bits: u32 = narrow(self.global.sample_rate_bits);
        Ok(Recording { datatype, center_frequency_bits, sample_rate_bits })
    }
}

/// Why a path does not lead to a recording.
#[derive(Clone, Copy, Debug, PartialEq, Eq, Structural)]
pub enum PairError {
    /// The path has an extension that is neither of the two.
    NotSigmf,
    /// There is no `.sigmf-meta` file.
    MissingMeta,
    /// There is no `.sigmf-data` file.
    MissingData,
}

/// Whether a path with this extension may name a recording: either file of it,
/// or the base name that both share.
pub open spec fn sigmf_extension(extension: Option<Seq<char>>) -> bool {
    match extension {
        Some(name) => name == "sigmf-meta"@ || name == "sigmf-data"@,
        None => true,
    }
}

/// The two extensions of a recording, letter by letter, and no others: a path
/// with another extension names none, one without an extension may be a base name.
pub proof fn law_sigmf_extensions(name: Seq<char>)
    ensures
        sigmf_extension(None),
        sigmf_extension(Some(name)) <==> name == seq![
            's',
            'i',
            'g',
            'm',
            'f',
            '-',
            'm',
            'e',
            't',
            'a',
        ] || name == seq!['s', 'i', 'g', 'm', 'f', '-', 'd', 'a', 't', 'a'],
{
    lemma_extension_letters();
}

/// The letters of the two extensions.
proof fn lemma_extension_letters()
    ensures
        "sigmf-meta"@ == seq!['s', 'i', 'g', 'm', 'f', '-', 'm', 'e', 't', 'a'],
        "sigmf-data"@ == seq!['s', 'i', 'g', 'm', 'f', '-', 'd', 'a', 't', 'a'],
{
    reveal_strlit("sigmf-meta");
    reveal_strlit("sigmf-data");
    assert("sigmf-meta"@ =~= seq!['s', 'i', 'g', 'm', 'f', '-', 'm', 'e', 't', 'a']);
    assert("sigmf-data"@ =~= seq!['s', 'i', 'g', 'm', 'f', '-', 'd', 'a', 't', 'a']);
}

/// Whether a path with this extension may name a recording.
pub fn has_sigmf_extension(extension: &Option<String>) -> (yes: bool)
    ensures
        yes == sigmf_extension(crate::path::extension_text(*extension)),
        extension is None ==> yes,
        extension matches Some(name) ==> yes == (name@ == "sigmf-meta"@ || name@ == "sigmf-data"@),
{
    match extension {
        Some(name) => *name == "sigmf-meta".to_owned() || *name == "sigmf-data".to_owned(),
        None => true,
    }
}

/// Whether a path may name a recording.
pub fn looks_like_sigmf(path: &PathBuf) -> (yes: bool)
    ensures
        yes == sigmf_extension(crate::path::path_extension(*path)),
{
    has_sigmf_extension(&extension_of(path))
}

/// What a path with this extension resolves to, given which of the two files of
/// the recording exist.
pub open spec fn resolved(
    extension: Option<Seq<char>>,
    meta_exists: bool,
    data_exists: bool,
) -> Result<(), PairError> {
    if !sigmf_extension(extension) {
        Err(PairError::NotSigmf)
    } else if !meta_exists {
        Err(PairError::MissingMeta)
    } else if !data_exists {
        Err(PairError::MissingData)
    } else {
        Ok(())
    }
}

/// A path resolves exactly if its extension may name a recording and both files
/// exist. Otherwise the error names the first of the three that fails: the
/// extension, the metadata file, the payload file.
pub proof fn law_resolved(extension: Option<Seq<char>>, meta_exists: bool, data_exists: bool)
    ensures
        ({
            let found = resolved(extension, meta_exists, data_exists);
            let named = match extension {
                None => true,
                Some(name) => name == seq!['s', 'i', 'g', 'm', 'f', '-', 'm', 'e', 't', 'a']
                    || name == seq!['s', 'i', 'g', 'm', 'f', '-', 'd', 'a', 't', 'a'],
            };
            &&& found is Ok <==> named && meta_exists && data_exists
            &&& found == Err::<(), PairError>(PairError::NotSigmf) <==> !named
            &&& found == Err::<(), PairError>(PairError::MissingMeta) <==> named && !meta_exists
            &&& found == Err::<(), PairError>(PairError::MissingData) <==> named && meta_exists
                && !data_exists
        }),
{
    lemma_extension_letters();
}

/// Whether the two files of a recording can be taken from a path with this
/// extension, given which of the two exist.
pub fn resolve_pair(extension: &Option<String>, meta_exists: bool, data_exists: bool) -> (pair:
    Result<(), PairError>)
    ensures
        pair == resolved(crate::path::extension_text(*extension), meta_exists, data_exists),
{
    if !has_sigmf_extension(extension) {
        Err(PairError::NotSigmf)
    } else if !meta_exists {
        Err(PairError::MissingMeta)
    } else if !data_exists {
        Err(PairError::MissingData)
    } else {
        Ok(())
    }
}

/// The metadata file and the payload file of the recording that a path names.
pub open spec fn pair_of(path: PathBuf) -> (PathBuf, PathBuf) {
    (crate::path::path_with_extension(path, "sigmf-meta"@), crate::path::path_with_extension(path, "sigmf-data"@))
}

/// The metadata file of a path is the path with the extension `sigmf-meta`, and
/// the payload file is the path with `sigmf-data`.
pub proof fn law_pair_extensions(path: PathBuf)
    ensures
        pair_of(path).0 == crate::path::path_with_extension(
            path,
            seq!['s', 'i', 'g', 'm', 'f', '-', 'm', 'e', 't', 'a'],
        ),
        pair_of(path).1 == crate::path::path_with_extension(
            path,
            seq!['s', 'i', 'g', 'm', 'f', '-', 'd', 'a', 't', 'a'],
        ),
{
    lemma_extension_letters();
}

/// The extensions of the two files are plain.
proof fn lemma_plain_extensions()
    ensures
        crate::path::plain_extension("sigmf-meta"@),
        crate::path::plain_extension("sigmf-data"@),
{
    reveal_strlit("sigmf-meta");
    reveal_strlit("sigmf-data");
}

/// The metadata file and the payload file of the recording that a path names.
/// Both files look like a recording, and either one of a base name, which has no
/// extension, names the same pair as the base name does.
pub fn pair_paths(path: &PathBuf) -> (pair: (PathBuf, PathBuf))
    ensures
        pair == pair_of(*path),
        crate::path::path_extension(*path) is None ==> pair_of(pair.0) == pair && pair_of(pair.1)
            == pair,
        sigmf_extension(crate::path::path_extension(pair.0)),
        sigmf_extension(crate::path::path_extension(pair.1)),
{
    proof {
        lemma_plain_extensions();
    }
    (with_extension(path, "sigmf-meta"), with_extension(path, "sigmf-data"))
}

} // verus!
