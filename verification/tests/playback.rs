use sdr_file::datatype::DataType;
use sdr_file::packet::Packet;
use sdr_file::playback::{Action, Event, Outcome, Playback, Recording};
use sdr_file::sample::IqSample;
use sdr_file::sigmf::{PairError, SigmfCapture, SigmfGlobal, SigmfMetadata};
use sdr_file::source::SourceError;
use sdr_file::stream::{IqStream, IO_BUFFER_BYTES};
use sdr_file::{decode_block, RawIqFileSource, SigmfFileSource, PACKET_SAMPLES};
use std::path::PathBuf;

/// What a drive came to: the packets that were sent, in order, the indices of
/// the paths that were opened, and how it ended.
struct Drive {
    packets: Vec<Packet>,
    opened: Vec<usize>,
    outcome: Outcome,
}

/// Plays files that lie in memory; `None` is one that cannot be opened. No read
/// brings more than `limit` bytes, no more than `takes` packets are taken, and
/// `stop` answers the n-th look for a stop.
fn drive(
    mut playback: Playback,
    files: &[Option<(Recording, Vec<u8>)>],
    limit: usize,
    takes: usize,
    stop: impl Fn(usize) -> bool,
) -> Drive {
    let mut packets = Vec::new();
    let mut opened = Vec::new();
    let mut current: &[u8] = &[];
    let mut looks = 0;
    let mut action = Action::CheckStop;
    loop {
        let event = match action {
            Action::CheckStop => {
                looks += 1;
                Event::StopChecked(stop(looks - 1))
            }
            Action::Open(index) => {
                opened.push(index);
                match &files[index] {
                    Some((recording, bytes)) => {
                        current = bytes;
                        Event::Opened(*recording)
                    }
                    None => Event::OpenFailed,
                }
            }
            Action::Read => {
                let room = playback.window();
                let n = room.len().min(limit).min(current.len());
                room[..n].copy_from_slice(&current[..n]);
                current = &current[n..];
                Event::Read(n)
            }
            Action::Send(packet) => {
                if packets.len() == takes {
                    Event::Refused
                } else {
                    packets.push(packet);
                    Event::Sent
                }
            }
            Action::Finish(outcome) => {
                return Drive { packets, opened, outcome };
            }
        };
        action = playback.step(event);
    }
}

fn play(playback: Playback, files: &[Option<(Recording, Vec<u8>)>], limit: usize) -> Vec<Packet> {
    let drive = drive(playback, files, limit, usize::MAX, |_| false);
    assert_eq!(drive.outcome, Outcome::Completed);
    drive.packets
}

fn recording(datatype: DataType) -> Recording {
    Recording {
        datatype,
        center_frequency_bits: 2_435_000_000.0f64.to_bits(),
        sample_rate_bits: 15_360_000.0f32.to_bits(),
    }
}

/// Interleaved floats that rise on the real and fall on the imaginary side.
fn ramp(total_samples: usize) -> Vec<u8> {
    let mut data_bytes = Vec::with_capacity(total_samples * 8);
    for i in 0..total_samples {
        let re = (i as f32) * 1.0e-6;
        let im = (i as f32) * -2.0e-6;
        data_bytes.extend_from_slice(&re.to_le_bytes());
        data_bytes.extend_from_slice(&im.to_le_bytes());
    }
    data_bytes
}

fn raw_source(paths: &[&str]) -> RawIqFileSource {
    RawIqFileSource {
        paths: paths.iter().map(PathBuf::from).collect(),
        center_frequency_bits: 2_435_000_000.0f64.to_bits(),
    }
}

fn raw_recording(source: &RawIqFileSource, extension: &str) -> Recording {
    source.recording(&Some(extension.to_string()), 15_360_000.0f64.to_bits())
}

fn sigmf_metadata() -> SigmfMetadata {
    SigmfMetadata {
        global: SigmfGlobal {
            datatype: "cf32_le".to_string(),
            sample_rate_bits: 1_000_000.0f64.to_bits(),
        },
        captures: vec![SigmfCapture { frequency_bits: Some(2_435_000_000.0f64.to_bits()) }],
    }
}

fn sigmf_recording() -> Recording {
    sigmf_metadata().recording().unwrap()
}

fn re(sample: &IqSample) -> f32 {
    f32::from_bits(sample.re)
}

fn samples(packets: &[Packet]) -> Vec<IqSample> {
    packets.iter().flat_map(|packet| packet.samples.iter().copied()).collect()
}

#[test]
fn sigmf_file_source_round_trip() {
    let n_packets = 3;
    let data = ramp(PACKET_SAMPLES * n_packets);
    let source = SigmfFileSource { paths: vec![PathBuf::from("synthetic.sigmf-meta")] };
    let packets =
        play(source.start().unwrap(), &[Some((sigmf_recording(), data))], usize::MAX);

    let mut received = 0;
    let mut last_re = -1.0f32;
    for pkt in &packets {
        assert_eq!(pkt.samples.len(), PACKET_SAMPLES);
        // Centre frequency and sample rate come from the metadata.
        assert!((f64::from_bits(pkt.center_frequency_bits) - 2_435_000_000.0).abs() < 1.0);
        assert!((f32::from_bits(pkt.sample_rate_bits) - 1_000_000.0).abs() < 1.0);
        // A rising real part confirms that samples arrive in order.
        assert!(re(&pkt.samples[0]) >= last_re);
        last_re = re(pkt.samples.last().unwrap());
        received += 1;
    }
    assert_eq!(received, n_packets, "expected {n_packets} packets");
}

#[test]
fn raw_iq_file_source_emits_partial_tail() {
    let tail = 4321_usize;
    let data = ramp(PACKET_SAMPLES + tail);
    let source = raw_source(&["tail.cf32"]);
    let files = [Some((source.recording_at(0, 15_360_000.0f64.to_bits()), data))];
    let packets = play(source.start().unwrap(), &files, usize::MAX);
    assert_eq!(packets.len(), 2, "1 full packet + 1 partial tail");
    assert_eq!(packets[0].samples.len(), PACKET_SAMPLES);
    assert_eq!(packets[1].samples.len(), tail, "tail size preserved");
}

#[test]
fn raw_iq_file_source_terminates_on_truncated_sample() {
    let tail = 123_usize;
    let mut data = ramp(PACKET_SAMPLES + tail);
    // Truncated sample: 3 stray bytes that cannot form an IQ pair.
    data.extend_from_slice(&[0xAA, 0xBB, 0xCC]);
    let source = raw_source(&["truncated.cf32"]);
    let files = [Some((source.recording_at(0, 15_360_000.0f64.to_bits()), data))];
    let packets = play(source.start().unwrap(), &files, usize::MAX);
    assert_eq!(packets.len(), 2, "1 full packet + 1 partial tail (truncated bytes discarded)");
    assert_eq!(packets[0].samples.len(), PACKET_SAMPLES);
    assert_eq!(packets[1].samples.len(), tail);
}

#[test]
fn sigmf_file_source_emits_partial_tail() {
    let tail = 1234_usize;
    let data = ramp(PACKET_SAMPLES + tail);
    let source = SigmfFileSource { paths: vec![PathBuf::from("with_tail.sigmf-meta")] };
    let packets =
        play(source.start().unwrap(), &[Some((sigmf_recording(), data))], usize::MAX);
    assert_eq!(packets.len(), 2, "1 full packet + 1 partial tail");
    assert_eq!(packets[0].samples.len(), PACKET_SAMPLES);
    assert_eq!(packets[1].samples.len(), tail, "tail size preserved");
}

#[test]
fn sources_without_paths_do_not_start() {
    let SourceError::BadConfig(raw) = raw_source(&[]).start().unwrap_err();
    assert_eq!(raw, "RawIqFileSource: no paths to play");
    let SourceError::BadConfig(sigmf) = SigmfFileSource { paths: vec![] }.start().unwrap_err();
    assert_eq!(sigmf, "SigmfFileSource: no paths to play");
}

#[test]
fn the_extension_decides_the_raw_datatype() {
    let source = raw_source(&["a"]);
    let bin = raw_recording(&source, "bin");
    assert_eq!(bin.datatype, DataType::Ci16Le);
    assert_eq!(f64::from_bits(bin.center_frequency_bits), 2_435_000_000.0);
    assert_eq!(f32::from_bits(bin.sample_rate_bits), 15_360_000.0);
    for other in ["cf32", "f32", "BIN", "bin2", ""] {
        assert_eq!(raw_recording(&source, other).datatype, DataType::Cf32Le);
    }
    assert_eq!(source.recording(&None, 0).datatype, DataType::Cf32Le);
}

#[test]
fn the_extension_is_that_of_the_file_name() {
    let source = raw_source(&["a.bin", "b.cf32", "c.bin/d", ".bin", "e.tar.bin", "f.bin.gz", "g"]);
    let found: Vec<DataType> =
        (0..7).map(|index| source.recording_at(index, 1.0f64.to_bits()).datatype).collect();
    let (ints, floats) = (DataType::Ci16Le, DataType::Cf32Le);
    assert_eq!(found, [ints, floats, floats, floats, ints, floats, floats]);
    let tagged = source.recording_at(0, 15_360_000.0f64.to_bits());
    assert_eq!(f64::from_bits(tagged.center_frequency_bits), 2_435_000_000.0);
    assert_eq!(f32::from_bits(tagged.sample_rate_bits), 15_360_000.0);
}

#[test]
fn sigmf_paths_resolve_by_their_extension() {
    let paths = ["a.sigmf-meta", "b.sigmf-data", "c", "d.bin"];
    let source = SigmfFileSource { paths: paths.iter().map(PathBuf::from).collect() };
    for index in 0..3 {
        assert_eq!(source.resolve_at(index, true, true), Ok(()));
        assert_eq!(source.resolve_at(index, true, false), Err(PairError::MissingData));
        assert_eq!(source.resolve_at(index, false, true), Err(PairError::MissingMeta));
    }
    assert_eq!(source.resolve_at(3, true, true), Err(PairError::NotSigmf));
}

#[test]
fn raw_files_are_decoded_by_their_own_extension() {
    let names = ["a.bin", "b.cf32", "c.BIN", "d.bin"];
    let source = raw_source(&names);
    let bytes: Vec<u8> = (0..96u8).collect();
    let files: Vec<Option<(Recording, Vec<u8>)>> = (0..4)
        .map(|k| Some((source.recording_at(k, 1.0f64.to_bits()), bytes[k..].to_vec())))
        .collect();
    let packets = play(source.start().unwrap(), &files, 7);
    let mut expected: Vec<IqSample> = Vec::new();
    for (k, name) in names.iter().enumerate() {
        expected.extend(decode_block(&bytes[k..], name.ends_with(".bin")));
    }
    assert_eq!(samples(&packets), expected);
}

#[test]
fn either_sigmf_path_delivers_the_same_packets() {
    let data = ramp(PACKET_SAMPLES + 3);
    let on_disk = [PathBuf::from("base.sigmf-meta"), PathBuf::from("base.sigmf-data")];
    for name in ["base.sigmf-meta", "base.sigmf-data", "base"] {
        let source = SigmfFileSource { paths: vec![PathBuf::from(name)] };
        let (meta, payload) = source.pair_at(0);
        assert_eq!([&meta, &payload], [&on_disk[0], &on_disk[1]]);
        let found = source.resolve_at(0, on_disk.contains(&meta), on_disk.contains(&payload));
        assert_eq!(found, Ok(()));
        let files = [Some((sigmf_recording(), data.clone()))];
        let packets = play(source.start().unwrap(), &files, usize::MAX);
        let sizes: Vec<usize> = packets.iter().map(|packet| packet.samples.len()).collect();
        assert_eq!(sizes, [PACKET_SAMPLES, 3]);
        assert!(samples(&packets) == DataType::Cf32Le.decode(&data));
    }
}

#[test]
fn at_most_one_packet_between_two_looks() {
    for datatype in [DataType::Cf32Le, DataType::Ci16Le] {
        let mut playback = Playback::new(1);
        let mut left: usize = 5 * IO_BUFFER_BYTES + 10;
        let mut since_look = 0;
        let mut action = Action::CheckStop;
        let mut total = 0;
        loop {
            let event = match action {
                Action::CheckStop => {
                    since_look = 0;
                    Event::StopChecked(false)
                }
                Action::Open(_) => Event::Opened(recording(datatype)),
                Action::Read => {
                    let n = playback.window().len().min(left);
                    left -= n;
                    Event::Read(n)
                }
                Action::Send(packet) => {
                    since_look += 1;
                    total += packet.samples.len();
                    assert!(since_look <= 1);
                    Event::Sent
                }
                Action::Finish(_) => break,
            };
            action = playback.step(event);
        }
        assert_eq!(total, (5 * IO_BUFFER_BYTES + 10) / datatype.bytes_per_sample());
    }
}

#[test]
fn reads_of_any_size_give_the_same_packets() {
    let data: Vec<u8> = (0..4099u32).map(|k| (k * 37 % 251) as u8).collect();
    for datatype in [DataType::Cf32Le, DataType::Ci16Le] {
        let files = [Some((recording(datatype), data.clone()))];
        let whole = play(Playback::new(1), &files, usize::MAX);
        assert_eq!(samples(&whole), datatype.decode(&data));
        for limit in [1, 3, 5, 8, 13, 1000, 4098] {
            let cut = play(Playback::new(1), &files, limit);
            assert_eq!(cut.len(), whole.len());
            assert_eq!(samples(&cut), samples(&whole));
        }
    }
}

#[test]
fn cuts_inside_a_sample_do_not_shift_full_packets() {
    let data = ramp(2 * PACKET_SAMPLES + 17);
    let files = [Some((recording(DataType::Cf32Le), data.clone()))];
    let packets = play(Playback::new(1), &files, 999_999);
    let sizes: Vec<usize> = packets.iter().map(|packet| packet.samples.len()).collect();
    assert_eq!(sizes, [PACKET_SAMPLES, PACKET_SAMPLES, 17]);
    assert!(samples(&packets) == DataType::Cf32Le.decode(&data));
    assert!(packets.iter().all(|packet| !packet.overrun));
}

#[test]
fn paths_are_played_in_sequence_and_bad_ones_skipped() {
    let other = Recording { center_frequency_bits: 1, ..recording(DataType::Ci16Le) };
    let files = [
        None,
        Some((recording(DataType::Cf32Le), ramp(5))),
        None,
        Some((other, vec![1, 0, 2, 0, 3, 0, 4, 0])),
        Some((recording(DataType::Cf32Le), vec![])),
        None,
    ];
    let drive = drive(Playback::new(6), &files, usize::MAX, usize::MAX, |_| false);
    assert_eq!(drive.outcome, Outcome::Completed);
    assert_eq!(drive.opened, [0, 1, 2, 3, 4, 5]);
    assert_eq!(drive.packets.len(), 2);
    assert_eq!(drive.packets[0].samples, DataType::Cf32Le.decode(&ramp(5)));
    assert_eq!(drive.packets[1].samples.len(), 2);
    assert_eq!(drive.packets[1].center_frequency_bits, 1);
}

#[test]
fn a_stop_ends_the_playback_before_the_next_open_or_read() {
    let files =
        [Some((recording(DataType::Cf32Le), ramp(5))), Some((recording(DataType::Cf32Le), ramp(6)))];
    let at_once = drive(Playback::new(2), &files, usize::MAX, usize::MAX, |_| true);
    assert_eq!(at_once.outcome, Outcome::Stopped);
    assert!(at_once.opened.is_empty());
    // The third look is the one before the second read: the tail is not sent.
    let later = drive(Playback::new(2), &files, usize::MAX, usize::MAX, |look| look == 2);
    assert_eq!(later.outcome, Outcome::Stopped);
    assert_eq!(later.opened, [0]);
    assert!(later.packets.is_empty());
    // The fourth look is the one before the second path.
    let between = drive(Playback::new(2), &files, usize::MAX, usize::MAX, |look| look == 3);
    assert_eq!(between.outcome, Outcome::Stopped);
    assert_eq!(between.opened, [0]);
    assert_eq!(between.packets.len(), 1);
}

#[test]
fn a_refused_packet_ends_the_playback() {
    let files =
        [Some((recording(DataType::Cf32Le), ramp(5))), Some((recording(DataType::Cf32Le), ramp(6)))];
    let drive = drive(Playback::new(2), &files, usize::MAX, 0, |_| false);
    assert_eq!(drive.outcome, Outcome::ConsumerGone);
    assert_eq!(drive.opened, [0]);
    assert!(drive.packets.is_empty());
}

#[test]
fn a_failed_read_ends_the_playback_without_a_tail() {
    let mut playback = Playback::new(2);
    playback.step(Event::StopChecked(false));
    playback.step(Event::Opened(recording(DataType::Ci16Le)));
    playback.step(Event::StopChecked(false));
    playback.window()[..5].copy_from_slice(&[1, 2, 3, 4, 5]);
    assert!(matches!(playback.step(Event::Read(5)), Action::CheckStop));
    assert_eq!(playback.pending(), 1);
    assert!(matches!(playback.step(Event::StopChecked(false)), Action::Read));
    assert!(matches!(playback.step(Event::ReadFailed), Action::Finish(Outcome::ReadFailed)));
    assert_eq!(playback.pending(), 0);
}

#[test]
fn a_stream_carries_partial_samples_in_its_buffer() {
    let mut stream = IqStream::new(DataType::Ci16Le);
    assert_eq!(stream.window().len(), IO_BUFFER_BYTES);
    stream.window()[..6].copy_from_slice(&[0, 64, 0, 192, 1, 2]);
    assert!(stream.absorb(6).is_empty());
    assert_eq!(stream.pending(), 2);
    assert_eq!(stream.window().len(), IO_BUFFER_BYTES - 2);
    stream.window()[0] = 0;
    assert!(stream.absorb(1).is_empty());
    assert_eq!(stream.pending(), 3);
    stream.window()[0] = 0;
    assert!(stream.absorb(1).is_empty());
    assert_eq!(stream.pending(), 0);
    let tail = stream.finish().unwrap();
    assert_eq!(tail.len(), 2);
    assert_eq!(re(&tail[0]), 0.5);
    assert_eq!(f32::from_bits(tail[0].im), -0.5);
    assert_eq!(re(&tail[1]), 513.0 / 32768.0);
    assert!(IqStream::new(DataType::Cf32Le).finish().is_none());
}
