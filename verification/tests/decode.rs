use sdr_file::datatype::DataType;
use sdr_file::packet::split_batches;
use sdr_file::sample::{read_le_i16, read_le_u32, scale_i16, IqSample};
use sdr_file::{decode_block, PACKET_SAMPLES};

fn re(sample: IqSample) -> f32 {
    f32::from_bits(sample.re)
}

fn im(sample: IqSample) -> f32 {
    f32::from_bits(sample.im)
}

#[test]
fn decode_block_f32_round_trip() {
    // Encode two IQ pairs as little-endian f32, then decode.
    let samples: [(f32, f32); 2] = [(1.5, -2.5), (0.25, 0.5)];
    let mut bytes = Vec::with_capacity(samples.len() * 8);
    for s in samples {
        bytes.extend_from_slice(&s.0.to_le_bytes());
        bytes.extend_from_slice(&s.1.to_le_bytes());
    }
    let decoded = decode_block(&bytes, false);
    assert_eq!(decoded.len(), 2);
    assert!((re(decoded[0]) - 1.5).abs() < 1e-6);
    assert!((im(decoded[0]) + 2.5).abs() < 1e-6);
    assert!((re(decoded[1]) - 0.25).abs() < 1e-6);
    assert!((im(decoded[1]) - 0.5).abs() < 1e-6);
}

#[test]
fn decode_block_bin_scales_int16() {
    // int16 32767 -> ~1.0, -32768 -> ~-1.0, scaled by 1/32768.
    let bytes = [
        0xFF, 0x7F, // re = 32767
        0x00, 0x80, // im = -32768
    ];
    let decoded = decode_block(&bytes, true);
    assert_eq!(decoded.len(), 1);
    assert!((re(decoded[0]) - (32767.0 / 32768.0)).abs() < 1e-6);
    assert!((im(decoded[0]) + 1.0).abs() < 1e-6);
}

#[test]
fn every_int16_scales_like_a_float_division() {
    for v in i16::MIN..=i16::MAX {
        let expected = v as f32 / 32768.0;
        assert_eq!(scale_i16(v), expected.to_bits(), "{v}");
    }
}

#[test]
fn scaled_int16_bit_patterns() {
    assert_eq!(scale_i16(0), 0);
    assert_eq!(scale_i16(1), 0x3800_0000);
    assert_eq!(scale_i16(-1), 0xB800_0000);
    assert_eq!(scale_i16(16384), 0x3F00_0000);
    assert_eq!(scale_i16(32767), 0x3F7F_FE00);
    assert_eq!(scale_i16(-32768), 0xBF80_0000);
}

#[test]
fn words_are_little_endian() {
    let bytes = [0x11u8, 0x78, 0x56, 0x34, 0x12, 0xFE, 0xFF];
    assert_eq!(read_le_u32(&bytes, 1), 0x1234_5678);
    assert_eq!(read_le_i16(&bytes, 5), -2);
    assert_eq!(read_le_i16(&bytes, 3), 0x1234);
}

#[test]
fn floats_are_taken_bit_for_bit() {
    // A signalling NaN and a negative zero keep their patterns.
    let words: [u32; 4] = [0x7F80_0001, 0x8000_0000, 0xFFFF_FFFF, 0x0000_0001];
    let mut bytes: Vec<u8> = Vec::new();
    for word in words {
        bytes.extend_from_slice(&word.to_le_bytes());
    }
    let decoded = decode_block(&bytes, false);
    let back: Vec<u32> = decoded.iter().flat_map(|s| [s.re, s.im]).collect();
    assert_eq!(back, words);
}

#[test]
fn a_truncated_sample_is_left_out() {
    let bytes = [1u8, 0, 2, 0, 3, 0, 4];
    assert_eq!(decode_block(&bytes, true).len(), 1);
    assert_eq!(decode_block(&bytes, false).len(), 0);
    assert_eq!(decode_block(&[], true).len(), 0);
    assert_eq!(decode_block(&bytes, true), decode_block(&bytes[..4], true));
}

#[test]
fn blocks_cut_at_a_sample_concatenate() {
    let bytes: Vec<u8> = (0..64u8).collect();
    for datatype in [DataType::Cf32Le, DataType::Ci16Le] {
        let size = datatype.bytes_per_sample();
        let mut parts = datatype.decode(&bytes[..3 * size]);
        parts.extend(datatype.decode(&bytes[3 * size..]));
        assert_eq!(datatype.decode(&bytes), parts);
    }
}

#[test]
fn datatype_names() {
    let cf32 = DataType::from_name(&"cf32_le".to_string()).unwrap();
    assert_eq!(cf32, DataType::Cf32Le);
    assert_eq!(cf32.bytes_per_sample(), 8);
    let ci16 = DataType::from_name(&"ci16_le".to_string()).unwrap();
    assert_eq!(ci16, DataType::Ci16Le);
    assert_eq!(ci16.bytes_per_sample(), 4);
    for name in ["cf32_be", "cu8", "", "CF32_LE", "cf32_le "] {
        let error = DataType::from_name(&name.to_string()).unwrap_err();
        assert_eq!(error.name, name);
    }
}

#[test]
fn batches_are_full_and_keep_the_order() {
    let total = 2 * PACKET_SAMPLES + 5;
    let samples: Vec<IqSample> =
        (0..total).map(|k| IqSample { re: k as u32, im: !(k as u32) }).collect();
    let (full, rest) = split_batches(samples.clone());
    assert_eq!(full.len(), 2);
    assert!(full.iter().all(|batch| batch.len() == PACKET_SAMPLES));
    assert_eq!(rest.len(), 5);
    let mut joined: Vec<IqSample> = Vec::new();
    for batch in full {
        joined.extend(batch);
    }
    joined.extend(rest);
    assert!(joined == samples);

    let (none, all) = split_batches(samples[..7].to_vec());
    assert!(none.is_empty());
    assert_eq!(all, samples[..7]);
    let (one, nothing) = split_batches(samples[..PACKET_SAMPLES].to_vec());
    assert_eq!(one.len(), 1);
    assert!(nothing.is_empty());
}
