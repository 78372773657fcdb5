use sdr_file::datatype::DataType;
use sdr_file::looks_like_sigmf;
use sdr_file::sigmf::{
    has_sigmf_extension, pair_paths, resolve_pair, PairError, SigmfCapture, SigmfGlobal, SigmfMetadata, NO_FREQUENCY_BITS,
};
use std::path::PathBuf;

fn metadata(datatype: &str, frequencies: &[Option<f64>]) -> SigmfMetadata {
    SigmfMetadata {
        global: SigmfGlobal {
            datatype: datatype.to_string(),
            sample_rate_bits: (1_000_000.0f64).to_bits(),
        },
        captures: frequencies
            .iter()
            .map(|f| SigmfCapture { frequency_bits: f.map(|hz| hz.to_bits()) })
            .collect(),
    }
}

fn extension(name: &str) -> Option<String> {
    Some(name.to_string())
}

#[test]
fn metadata_decides_the_recording() {
    let meta = metadata("ci16_le", &[Some(2.435e9), Some(5.8e9)]);
    let recording = meta.recording().unwrap();
    assert_eq!(recording.datatype, DataType::Ci16Le);
    assert_eq!(f64::from_bits(recording.center_frequency_bits), 2.435e9);
    assert_eq!(f32::from_bits(recording.sample_rate_bits), 1_000_000.0);
}

#[test]
fn unsupported_datatype_is_rejected_with_its_name() {
    let meta = metadata("cu8", &[Some(1.0)]);
    assert_eq!(meta.data_type().unwrap_err().name, "cu8");
    assert_eq!(meta.recording().unwrap_err().name, "cu8");
}

#[test]
fn missing_frequency_is_tagged_zero_hertz() {
    for meta in [metadata("cf32_le", &[]), metadata("cf32_le", &[None, None])] {
        assert_eq!(meta.center_frequency_bits(), None);
        let recording = meta.recording().unwrap();
        assert_eq!(recording.center_frequency_bits, NO_FREQUENCY_BITS);
        assert_eq!(f64::from_bits(recording.center_frequency_bits), 0.0);
    }
}

#[test]
fn first_capture_with_a_frequency_counts() {
    let meta = metadata("cf32_le", &[None, Some(3.0), Some(4.0)]);
    assert_eq!(meta.center_frequency_bits(), Some(3.0f64.to_bits()));
}

#[test]
fn sigmf_extensions() {
    assert!(has_sigmf_extension(&extension("sigmf-meta")));
    assert!(has_sigmf_extension(&extension("sigmf-data")));
    assert!(has_sigmf_extension(&None));
    assert!(!has_sigmf_extension(&extension("bin")));
    assert!(!has_sigmf_extension(&extension("sigmf")));
    assert!(!has_sigmf_extension(&extension("")));
}

#[test]
fn sigmf_paths_are_recognised() {
    for path in ["a.sigmf-meta", "dir.bin/a.sigmf-data", "a", "dir.bin/a", ".hidden"] {
        assert!(looks_like_sigmf(&PathBuf::from(path)), "{path}");
    }
    for path in ["a.bin", "a.sigmf-meta.gz", "a.sigmf", "a.", "a.SIGMF-META"] {
        assert!(!looks_like_sigmf(&PathBuf::from(path)), "{path}");
    }
}

#[test]
fn either_file_and_the_base_name_make_the_same_pair() {
    let meta = PathBuf::from("captures/drone.sigmf-meta");
    let data = PathBuf::from("captures/drone.sigmf-data");
    for path in [&meta, &data, &PathBuf::from("captures/drone")] {
        assert_eq!(pair_paths(path), (meta.clone(), data.clone()));
    }
}

#[test]
fn odd_paths_keep_their_pair() {
    // Without an extension either file leads to the very same pair.
    for path in ["", "..", "/", ".x", "a", "a/", "a//", ".x/", "a/.", "d.e/a", "d/..", "."] {
        let (meta, data) = pair_paths(&PathBuf::from(path));
        for file in [&meta, &data] {
            let (same_meta, same_data) = pair_paths(file);
            assert_eq!(same_meta.as_os_str(), meta.as_os_str(), "{path}");
            assert_eq!(same_data.as_os_str(), data.as_os_str(), "{path}");
            assert!(looks_like_sigmf(file), "{path}");
        }
    }
    // With one, both files look like a recording, whatever else the path is.
    for path in ["..x", "..x/", "..sigmf-meta/", "d/..x/", "a..b", "a.b/", "...", "a.b.c", "a."] {
        let (meta, data) = pair_paths(&PathBuf::from(path));
        assert!(looks_like_sigmf(&meta), "{path}");
        assert!(looks_like_sigmf(&data), "{path}");
    }
}

#[test]
fn pairs_resolve_from_either_side_and_the_base_name() {
    for path in [extension("sigmf-meta"), extension("sigmf-data"), None] {
        assert_eq!(resolve_pair(&path, true, true), Ok(()));
        assert_eq!(resolve_pair(&path, false, true), Err(PairError::MissingMeta));
        assert_eq!(resolve_pair(&path, true, false), Err(PairError::MissingData));
        assert_eq!(resolve_pair(&path, false, false), Err(PairError::MissingMeta));
    }
    assert_eq!(resolve_pair(&extension("wav"), true, true), Err(PairError::NotSigmf));
}
