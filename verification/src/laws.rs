//! What holds of a playback as a whole.
//!
//! A run is what a driver that meets no obstacle makes of a playback: every
//! packet is taken, no stop is asked for, no read fails.

use crate::datatype::DataType;
use crate::packet::{Packet, PacketView};
use crate::playback::{
    Action, ActionView, Event, EventView, FileView, Outcome, PhaseView, PlaybackView, Recording,
    Turn,
};
use crate::sample::IqSample;
use crate::source::RawIqFileSource;
use crate::stream::StreamView;
use std::path::PathBuf;
use vstd::prelude::*;

verus! {

/// The turn that a run ends with, and the packets that were sent on the way.
pub struct Run {
    pub turn: Turn,
    pub sent: Seq<PacketView>,
}

/// How many packets a turn has yet to send.
pub open spec fn unsent(turn: Turn) -> nat {
    match (turn.action, turn.state.phase) {
        (ActionView::Send(_), PhaseView::Sending(_, packets)) => packets.len() + 1,
        _ => 0,
    }
}

/// The run from a turn until there is no packet to send.
pub open spec fn all_sent(turn: Turn) -> Run
    decreases unsent(turn),
{
    if unsent(turn) == 0 {
        Run { turn, sent: seq![] }
    } else {
        let rest = all_sent(turn.state.next(EventView::Sent));
        Run { turn: rest.turn, sent: seq![turn.action->Send_0] + rest.sent }
    }
}

/// The run in which one block is read; the empty block is the end of the file.
pub open spec fn block_read(state: PlaybackView, block: Seq<u8>) -> Run {
    all_sent(state.next(EventView::StopChecked(false)).state.next(EventView::Read(block)))
}

/// The run in which blocks are read one by one.
pub open spec fn blocks_read(state: PlaybackView, blocks: Seq<Seq<u8>>) -> Run
    decreases blocks.len(),
{
    if blocks.len() == 0 {
        Run { turn: Turn { state, action: ActionView::CheckStop }, sent: seq![] }
    } else {
        let run = block_read(state, blocks.first());
        let rest = blocks_read(run.turn.state, blocks.drop_first());
        Run { turn: rest.turn, sent: run.sent + rest.sent }
    }
}

/// The state in which the recording of the current path has just been opened.
pub open spec fn opened(state: PlaybackView, recording: Recording) -> PlaybackView {
    state.next(EventView::StopChecked(false)).state.next(EventView::Opened(recording)).state
}

/// The run in which a recording is opened and read to its end, block by block.
pub open spec fn recording_played(
    state: PlaybackView,
    recording: Recording,
    blocks: Seq<Seq<u8>>,
) -> Run {
    let run = blocks_read(opened(state, recording), blocks);
    let last = block_read(run.turn.state, seq![]);
    Run { turn: last.turn, sent: run.sent + last.sent }
}

/// A path of a list: a recording with the blocks that reads cut it into, or
/// nothing where no recording can be opened.
pub type Entry = Option<(Recording, Seq<Seq<u8>>)>;

/// The run in which a list of paths is played.
pub open spec fn list_played(turn: Turn, list: Seq<Entry>) -> Run
    decreases list.len(),
{
    if list.len() == 0 {
        Run { turn, sent: seq![] }
    } else {
        let run = match list.first() {
            Some((recording, blocks)) => recording_played(turn.state, recording, blocks),
            None => Run {
                turn: turn.state.next(EventView::StopChecked(false)).state.next(
                    EventView::OpenFailed,
                ),
                sent: seq![],
            },
        };
        let rest = list_played(run.turn, list.drop_first());
        Run { turn: rest.turn, sent: run.sent + rest.sent }
    }
}

/// The packets of a recording whose file holds `bytes`.
pub open spec fn packets_of(recording: Recording, bytes: Seq<u8>) -> Seq<PacketView> {
    recording.all_tagged(crate::packet::batches(recording.datatype.decoded(bytes)))
}

/// The packets of a path of a list.
pub open spec fn entry_packets(entry: Entry) -> Seq<PacketView> {
    match entry {
        Some((recording, blocks)) => packets_of(recording, blocks.flatten()),
        None => seq![],
    }
}

/// The samples of some packets, one after the other.
pub open spec fn samples_of(packets: Seq<PacketView>) -> Seq<IqSample> {
    packets.map_values(|packet: PacketView| packet.samples).flatten()
}

/// No block is empty: an empty read is the end of the file.
pub open spec fn no_empty_block(blocks: Seq<Seq<u8>>) -> bool {
    forall|k: int| 0 <= k < blocks.len() ==> (#[trigger] blocks[k]).len() > 0
}

/// Sending a list of packets sends them in order, and ends where sending none
/// would have.
proof fn lemma_all_sent(state: PlaybackView, file: Option<FileView>, packets: Seq<PacketView>)
    ensures
        all_sent(state.sending(file, packets)) == (Run {
            turn: state.sending(file, seq![]),
            sent: packets,
        }),
    decreases packets.len(),
{
    let turn = state.sending(file, packets);
    if packets.len() == 0 {
        assert(packets =~= seq![]);
    } else {
        let rest = packets.drop_first();
        lemma_all_sent(state, file, rest);
        assert(turn.state.next(EventView::Sent) == state.sending(file, rest));
        assert(seq![packets.first()] + rest =~= packets);
    }
}

/// Reading blocks of an open file.
proof fn lemma_blocks_read(state: PlaybackView, file: FileView, blocks: Seq<Seq<u8>>)
    requires
        state.phase == PhaseView::AtRead(file),
        no_empty_block(blocks),
    ensures
        blocks_read(state, blocks) == (Run {
            turn: state.sending(
                Some(FileView { recording: file.recording, stream: file.stream.after(blocks) }),
                seq![],
            ),
            sent: file.recording.all_tagged(file.stream.handed_out(blocks)),
        }),
    decreases blocks.len(),
{
    let recording = file.recording;
    if blocks.len() == 0 {
        assert(file.stream.handed_out(blocks) =~= seq![]);
        assert(recording.all_tagged(seq![]) =~= seq![]);
    } else {
        let block = blocks.first();
        let rest = blocks.drop_first();
        assert(blocks[0].len() > 0);
        assert forall|k: int| 0 <= k < rest.len() implies (#[trigger] rest[k]).len() > 0 by {
            assert(rest[k] == blocks[k + 1]);
        }
        let next = FileView { recording, stream: file.stream.absorbed(block) };
        let completed = file.stream.completed(block);
        let reading = state.next(EventView::StopChecked(false)).state;
        lemma_all_sent(reading, Some(next), recording.all_tagged(completed));
        let run = block_read(state, block);
        assert(run.turn.state == state.with_phase(PhaseView::AtRead(next)));
        lemma_blocks_read(run.turn.state, next, rest);
        let later = next.stream.handed_out(rest);
        assert(recording.all_tagged(completed + later) =~= recording.all_tagged(completed)
            + recording.all_tagged(later));
    }
}

/// While a recording is read, what has been sent are the full packets of the
/// samples so far, in order and with the tags of the recording.
pub proof fn law_packets_so_far(
    state: PlaybackView,
    recording: Recording,
    blocks: Seq<Seq<u8>>,
)
    requires
        state.phase is AtPath,
        no_empty_block(blocks),
    ensures
        blocks_read(opened(state, recording), blocks).sent == recording.all_tagged(
            crate::packet::full_batches(recording.datatype.decoded(blocks.flatten())),
        ),
{
    let stream = StreamView::fresh(recording.datatype);
    let bytes = blocks.flatten();
    lemma_blocks_read(opened(state, recording), FileView { recording, stream }, blocks);
    crate::stream::law_reads_fold(stream, blocks);
    assert(stream.carry + bytes =~= bytes);
    crate::datatype::law_truncated_tail_ignored(recording.datatype, bytes);
    assert(stream.joined(bytes) =~= recording.datatype.decoded(bytes));
}

/// A recording that is read to its end is sent as the packets of its bytes,
/// however the reads cut them, and the playback then leaves the path behind: a
/// file that ends in a truncated sample does not hold it up.
pub proof fn law_recording_played(
    state: PlaybackView,
    recording: Recording,
    blocks: Seq<Seq<u8>>,
)
    requires
        state.phase is AtPath,
        no_empty_block(blocks),
    ensures
        recording_played(state, recording, blocks).sent == packets_of(recording, blocks.flatten()),
        recording_played(state, recording, blocks).turn == state.advanced(),
{
    let stream = StreamView::fresh(recording.datatype);
    let first = opened(state, recording);
    let last = stream.after(blocks);
    lemma_blocks_read(first, FileView { recording, stream }, blocks);
    let run = blocks_read(first, blocks);
    let reading = run.turn.state.next(EventView::StopChecked(false)).state;
    let tail = crate::packet::tail_batch(last.leftovers);
    lemma_all_sent(reading, None, recording.all_tagged(tail));
    crate::stream::law_recording_comes_out(recording.datatype, blocks);
    let out = stream.handed_out(blocks);
    assert(recording.all_tagged(out + tail) =~= recording.all_tagged(out) + recording.all_tagged(
        tail,
    ));
}

/// The rest of a list is played from any path of it.
proof fn lemma_list_played(turn: Turn, list: Seq<Entry>)
    requires
        turn.state.phase is AtPath,
        0 <= turn.state.index,
        list.len() > 0,
        turn.state.index + list.len() == turn.state.count,
        forall|k: int|
            0 <= k < list.len() ==> ((#[trigger] list[k]) matches Some((_, blocks))
                ==> no_empty_block(blocks)),
    ensures
        list_played(turn, list).sent == list.map_values(
            |entry: Entry| entry_packets(entry),
        ).flatten(),
        list_played(turn, list).turn.action == ActionView::Finish(Outcome::Completed),
    decreases list.len(),
{
    let packets = list.map_values(|entry: Entry| entry_packets(entry));
    let rest = list.drop_first();
    assert(list[0] == list.first());
    if let Some((recording, blocks)) = list.first() {
        law_recording_played(turn.state, recording, blocks);
    }
    let next = turn.state.advanced();
    assert(packets.first() == entry_packets(list.first()));
    assert(packets.drop_first() =~= rest.map_values(|entry: Entry| entry_packets(entry)));
    if rest.len() == 0 {
        assert(list_played(next, rest) == (Run { turn: next, sent: seq![] }));
        assert(packets.drop_first() =~= seq![]);
        assert(packets.drop_first().flatten() =~= seq![]);
    } else {
        assert forall|k: int| 0 <= k < rest.len() implies ((#[trigger] rest[k]) matches Some(
            (_, blocks),
        ) ==> no_empty_block(blocks)) by {
            assert(rest[k] == list[k + 1]);
        }
        lemma_list_played(next, rest);
    }
    assert(packets.flatten() =~= packets.first() + packets.drop_first().flatten());
}

/// Several paths are played one after the other: what is sent are the packets
/// of the first recording, then those of the second, and so on. A path whose
/// recording cannot be opened is passed over. After the last path the playback
/// is complete.
pub proof fn law_paths_played_in_sequence(list: Seq<Entry>)
    requires
        list.len() > 0,
        forall|k: int|
            0 <= k < list.len() ==> ((#[trigger] list[k]) matches Some((_, blocks))
                ==> no_empty_block(blocks)),
    ensures
        ({
            let start = PlaybackView::start(list.len() as int);
            let run = list_played(Turn { state: start, action: ActionView::CheckStop }, list);
            &&& run.sent == list.map_values(|entry: Entry| entry_packets(entry)).flatten()
            &&& run.turn.action == ActionView::Finish(Outcome::Completed)
        }),
{
    let start = PlaybackView::start(list.len() as int);
    lemma_list_played(Turn { state: start, action: ActionView::CheckStop }, list);
}

/// Two ways to cut the same file into reads give the same packets.
pub proof fn law_cuts_make_no_difference(
    state: PlaybackView,
    recording: Recording,
    blocks: Seq<Seq<u8>>,
    others: Seq<Seq<u8>>,
)
    requires
        state.phase is AtPath,
        no_empty_block(blocks),
        no_empty_block(others),
        blocks.flatten() == others.flatten(),
    ensures
        recording_played(state, recording, blocks) == recording_played(state, recording, others),
{
    law_recording_played(state, recording, blocks);
    law_recording_played(state, recording, others);
}

/// Every sample of a file comes out exactly once and in order, in packets that
/// carry the tags of the recording; all of them but the last are full.
pub proof fn law_packets_hold_the_file(recording: Recording, bytes: Seq<u8>)
    ensures
        samples_of(packets_of(recording, bytes)) == recording.datatype.decoded(bytes),
        forall|k: int|
            #![trigger packets_of(recording, bytes)[k]]
            0 <= k < packets_of(recording, bytes).len() ==> {
                let packet = packets_of(recording, bytes)[k];
                &&& packet == recording.tagged(packet.samples)
                &&& packet.center_frequency_bits == recording.center_frequency_bits
                &&& packet.sample_rate_bits == recording.sample_rate_bits
                &&& !packet.overrun
                &&& 0 < packet.samples.len() <= 262_144
                &&& k + 1 < packets_of(recording, bytes).len() ==> packet.samples.len() == 262_144
            },
{
    let samples = recording.datatype.decoded(bytes);
    let batches = crate::packet::batches(samples);
    crate::packet::law_batches_hold_everything(samples);
    let packets = packets_of(recording, bytes);
    assert(packets.map_values(|packet: PacketView| packet.samples) =~= batches);
    assert forall|k: int| #![trigger packets[k]] 0 <= k < packets.len() implies {
        let packet = packets[k];
        &&& packet == recording.tagged(packet.samples)
        &&& packet.center_frequency_bits == recording.center_frequency_bits
        &&& packet.sample_rate_bits == recording.sample_rate_bits
        &&& !packet.overrun
        &&& 0 < packet.samples.len() <= 262_144
        &&& k + 1 < packets.len() ==> packet.samples.len() == 262_144
    } by {
        assert(packets[k].samples == batches[k]);
    }
}

/// Every packet of a recording carries its tags: while the recording is played,
/// however the reads cut it, each packet that is sent has the centre frequency and
/// the sample rate of the recording, and reports no overrun.
pub proof fn law_packets_carry_the_tags(
    state: PlaybackView,
    recording: Recording,
    blocks: Seq<Seq<u8>>,
)
    requires
        state.phase is AtPath,
        no_empty_block(blocks),
    ensures
        ({
            let sent = recording_played(state, recording, blocks).sent;
            forall|k: int|
                0 <= k < sent.len() ==> {
                    &&& (#[trigger] sent[k]).center_frequency_bits
                        == recording.center_frequency_bits
                    &&& sent[k].sample_rate_bits == recording.sample_rate_bits
                    &&& !sent[k].overrun
                }
        }),
{
    law_recording_played(state, recording, blocks);
    law_packets_hold_the_file(recording, blocks.flatten());
}

/// A batch keeps its samples when it is tagged, and takes on the centre frequency
/// and the sample rate of the recording alone: they do not depend on how the
/// recording is stored or on what the batch holds.
pub proof fn law_tagged_field_by_field(recording: Recording, batch: Seq<IqSample>)
    ensures
        recording.tagged(batch).samples == batch,
        recording.tagged(batch).center_frequency_bits == recording.center_frequency_bits,
        recording.tagged(batch).sample_rate_bits == recording.sample_rate_bits,
        !recording.tagged(batch).overrun,
{
}

/// The file of single-precision pairs that a playback reads comes out byte for
/// byte: sample `k` of what is sent holds bytes `8 k` to `8 k + 7` of the file.
pub proof fn law_float_file_comes_out(
    state: PlaybackView,
    recording: Recording,
    blocks: Seq<Seq<u8>>,
    k: int,
)
    requires
        state.phase is AtPath,
        no_empty_block(blocks),
        recording.datatype == DataType::Cf32Le,
        0 <= k,
        8 * k + 8 <= blocks.flatten().len(),
    ensures
        ({
            let bytes = blocks.flatten();
            let samples = samples_of(recording_played(state, recording, blocks).sent);
            &&& samples.len() == bytes.len() / 8
            &&& samples[k].re as int % 0x100 == bytes[8 * k]
            &&& samples[k].re as int / 0x100 % 0x100 == bytes[8 * k + 1]
            &&& samples[k].re as int / 0x1_0000 % 0x100 == bytes[8 * k + 2]
            &&& samples[k].re as int / 0x100_0000 == bytes[8 * k + 3]
            &&& samples[k].im as int % 0x100 == bytes[8 * k + 4]
            &&& samples[k].im as int / 0x100 % 0x100 == bytes[8 * k + 5]
            &&& samples[k].im as int / 0x1_0000 % 0x100 == bytes[8 * k + 6]
            &&& samples[k].im as int / 0x100_0000 == bytes[8 * k + 7]
        }),
{
    law_recording_played(state, recording, blocks);
    law_packets_hold_the_file(recording, blocks.flatten());
    crate::datatype::law_cf32_keeps_every_byte(blocks.flatten(), k);
}

/// The file of 16-bit pairs that a playback reads comes out as the integers that
/// were stored in it, divided by `32768`: two's-complement integers, low byte
/// first, the in-phase component of a pair before the quadrature component.
pub proof fn law_integer_file_comes_out(
    state: PlaybackView,
    recording: Recording,
    blocks: Seq<Seq<u8>>,
    pairs: Seq<(i16, i16)>,
)
    requires
        state.phase is AtPath,
        no_empty_block(blocks),
        recording.datatype == DataType::Ci16Le,
        blocks.flatten().len() == 4 * pairs.len(),
        forall|k: int|
            #![trigger pairs[k]]
            0 <= k < pairs.len() ==> {
                let bytes = blocks.flatten();
                &&& bytes[4 * k] == pairs[k].0 as int % 0x1_0000 % 0x100
                &&& bytes[4 * k + 1] == pairs[k].0 as int % 0x1_0000 / 0x100
                &&& bytes[4 * k + 2] == pairs[k].1 as int % 0x1_0000 % 0x100
                &&& bytes[4 * k + 3] == pairs[k].1 as int % 0x1_0000 / 0x100
            },
    ensures
        ({
            let samples = samples_of(recording_played(state, recording, blocks).sent);
            let one = vstd::arithmetic::power2::pow2(149);
            &&& samples.len() == pairs.len()
            &&& forall|k: int|
                #![trigger samples[k]]
                0 <= k < pairs.len() ==> {
                    &&& crate::sample::f32_units(samples[k].re) * 32768 == pairs[k].0 * one
                    &&& crate::sample::f32_units(samples[k].im) * 32768 == pairs[k].1 * one
                }
        }),
{
    law_recording_played(state, recording, blocks);
    law_packets_hold_the_file(recording, blocks.flatten());
    crate::datatype::law_ci16_round_trip(pairs, blocks.flatten());
}

/// Breaking off loses only the end: the full packets of the first part of a file
/// are the packets with which the whole file begins.
pub proof fn law_breaking_off_keeps_a_prefix(
    recording: Recording,
    front: Seq<u8>,
    back: Seq<u8>,
)
    ensures
        recording.all_tagged(
            crate::packet::full_batches(recording.datatype.decoded(front)),
        ).is_prefix_of(packets_of(recording, front + back)),
{
    let datatype = recording.datatype;
    let cut = datatype.whole(front.len());
    let aligned = front.take(cut);
    let rest = front.skip(cut) + back;
    crate::datatype::lemma_whole_resumes(datatype, front.len(), back.len());
    assert(front + back =~= aligned + rest);
    crate::datatype::law_truncated_tail_ignored(datatype, front);
    crate::datatype::law_decode_concatenates(datatype, aligned, rest);
    let early = datatype.decoded(front);
    crate::packet::law_batches_resume(early, datatype.decoded(rest));
    let begun = crate::packet::full_batches(early);
    let all = crate::packet::batches(datatype.decoded(front + back));
    assert(all.take(begun.len() as int) =~= begun);
    assert(packets_of(recording, front + back).take(begun.len() as int)
        =~= recording.all_tagged(begun));
}

/// The samples of packets that come in groups, group by group.
proof fn lemma_samples_of_groups(groups: Seq<Seq<PacketView>>)
    ensures
        samples_of(groups.flatten()) == groups.map_values(
            |group: Seq<PacketView>| samples_of(group),
        ).flatten(),
    decreases groups.len(),
{
    let parts = groups.map_values(|group: Seq<PacketView>| samples_of(group));
    let field = |packet: PacketView| packet.samples;
    if groups.len() == 0 {
        assert(groups.flatten() =~= seq![]);
        assert(groups.flatten().map_values(field) =~= seq![]);
        assert(parts =~= seq![]);
    } else {
        let first = groups.first();
        let rest = groups.drop_first();
        lemma_samples_of_groups(rest);
        assert(groups.flatten() =~= first + rest.flatten());
        assert((first + rest.flatten()).map_values(field) =~= first.map_values(field)
            + rest.flatten().map_values(field));
        vstd::seq_lib::lemma_flatten_concat(
            first.map_values(field),
            rest.flatten().map_values(field),
        );
        assert(parts.drop_first() =~= rest.map_values(
            |group: Seq<PacketView>| samples_of(group),
        ));
        assert(parts.flatten() =~= parts.first() + parts.drop_first().flatten());
    }
}

/// The paths of a header-less source, each with the blocks that reads cut its
/// file into, or with nothing where the file cannot be opened.
pub open spec fn raw_entries(
    source: RawIqFileSource,
    sample_rate_bits: u64,
    files: Seq<Option<Seq<Seq<u8>>>>,
) -> Seq<Entry> {
    Seq::new(
        files.len(),
        |k: int|
            match files[k] {
                Some(blocks) => Some(
                    (
                        source.played_as(
                            crate::path::path_extension(source.paths@[k]),
                            sample_rate_bits,
                        ),
                        blocks,
                    ),
                ),
                None => None,
            },
    )
}

/// The samples of a header-less file, which its extension says how to decode.
pub open spec fn raw_samples(
    extension: Option<Seq<char>>,
    file: Option<Seq<Seq<u8>>>,
) -> Seq<IqSample> {
    match file {
        Some(blocks) => if extension == Some(seq!['b', 'i', 'n']) {
            DataType::Ci16Le.decoded(blocks.flatten())
        } else {
            DataType::Cf32Le.decoded(blocks.flatten())
        },
        None => seq![],
    }
}

/// A header-less source plays every file that opens, one after the other, each
/// decoded by its own extension: 16-bit integers for `bin`, single-precision
/// floats for all others. After the last one the playback is complete.
pub proof fn law_raw_files_decoded_by_extension(
    source: RawIqFileSource,
    sample_rate_bits: u64,
    files: Seq<Option<Seq<Seq<u8>>>>,
)
    requires
        source.paths@.len() > 0,
        files.len() == source.paths@.len(),
        forall|k: int|
            0 <= k < files.len() ==> ((#[trigger] files[k]) matches Some(blocks)
                ==> no_empty_block(blocks)),
    ensures
        ({
            let start = PlaybackView::start(source.paths@.len() as int);
            let run = list_played(
                Turn { state: start, action: ActionView::CheckStop },
                raw_entries(source, sample_rate_bits, files),
            );
            &&& samples_of(run.sent) == Seq::new(
                files.len(),
                |k: int|
                    raw_samples(crate::path::path_extension(source.paths@[k]), files[k]),
            ).flatten()
            &&& run.turn.action == ActionView::Finish(Outcome::Completed)
        }),
{
    let list = raw_entries(source, sample_rate_bits, files);
    assert forall|k: int| 0 <= k < list.len() implies ((#[trigger] list[k]) matches Some(
        (_, blocks),
    ) ==> no_empty_block(blocks)) by {
        assert(files[k] is Some ==> no_empty_block(files[k]->0));
    }
    law_paths_played_in_sequence(list);
    let groups = list.map_values(|entry: Entry| entry_packets(entry));
    lemma_samples_of_groups(groups);
    let found = groups.map_values(|group: Seq<PacketView>| samples_of(group));
    let expected = Seq::new(
        files.len(),
        |k: int| raw_samples(crate::path::path_extension(source.paths@[k]), files[k]),
    );
    assert forall|k: int| 0 <= k < found.len() implies found[k] == expected[k] by {
        match files[k] {
            Some(blocks) => {
                let recording = source.played_as(
                    crate::path::path_extension(source.paths@[k]),
                    sample_rate_bits,
                );
                crate::source::law_played_by_extension(
                    source,
                    crate::path::path_extension(source.paths@[k]),
                    sample_rate_bits,
                );
                law_packets_hold_the_file(recording, blocks.flatten());
            },
            None => {
                let none: Seq<PacketView> = seq![];
                assert(none.map_values(|packet: PacketView| packet.samples) =~= seq![]);
            },
        }
    }
    assert(found =~= expected);
}

/// What a driver finds on disk: which files exist, and what recording a metadata
/// file and a payload file make, if they make one.
pub struct Disk {
    pub exists: spec_fn(PathBuf) -> bool,
    pub recording: spec_fn((PathBuf, PathBuf)) -> Entry,
}

/// What a path of a SigMF source comes to: the recording of its pair of files,
/// if it resolves to one.
pub open spec fn sigmf_entry(disk: Disk, path: PathBuf) -> Entry {
    let pair = crate::sigmf::pair_of(path);
    let resolved = crate::sigmf::resolved(
        crate::path::path_extension(path),
        (disk.exists)(pair.0),
        (disk.exists)(pair.1),
    );
    if resolved is Ok {
        (disk.recording)(pair)
    } else {
        None
    }
}

/// Two paths that name the same recording: either file of a pair, or the base
/// name of both.
pub open spec fn same_recording(path: PathBuf, other: PathBuf) -> bool {
    &&& crate::sigmf::pair_of(path) == crate::sigmf::pair_of(other)
    &&& crate::sigmf::sigmf_extension(crate::path::path_extension(path))
    &&& crate::sigmf::sigmf_extension(crate::path::path_extension(other))
}

/// It does not matter by which of its names a SigMF recording is given: lists of
/// paths that name the same recordings are played the same way. A base name and
/// the two files that `pair_paths` finds for it are such names.
pub proof fn law_sigmf_names_interchangeable(
    disk: Disk,
    turn: Turn,
    paths: Seq<PathBuf>,
    others: Seq<PathBuf>,
)
    requires
        paths.len() == others.len(),
        forall|k: int| 0 <= k < paths.len() ==> #[trigger] same_recording(paths[k], others[k]),
    ensures
        list_played(turn, paths.map_values(|path: PathBuf| sigmf_entry(disk, path))) == list_played(
            turn,
            others.map_values(|path: PathBuf| sigmf_entry(disk, path)),
        ),
{
    let list = paths.map_values(|path: PathBuf| sigmf_entry(disk, path));
    let other_list = others.map_values(|path: PathBuf| sigmf_entry(disk, path));
    assert forall|k: int| 0 <= k < list.len() implies list[k] == other_list[k] by {
        assert(same_recording(paths[k], others[k]));
    }
    assert(list =~= other_list);
}

/// The paths are opened in the order of the list, none twice: an event either
/// stays at the current path or goes on to the next one, and only the current
/// path is ever opened.
pub proof fn law_paths_in_order(state: PlaybackView, event: EventView)
    requires
        0 <= state.index < state.count,
        state.awaits(event),
    ensures
        ({
            let turn = state.next(event);
            &&& turn.state.count == state.count
            &&& turn.state.index == state.index || turn.state.index == state.index + 1
            &&& turn.state.index < turn.state.count
            &&& turn.action is Open ==> turn.action->Open_0 == state.index && turn.state.index
                == state.index && state.phase is AtPath
            &&& turn.state.phase is AtPath <==> turn.state.index == state.index + 1
        }),
{
}

/// A stop, a consumer that is gone and a failed read end the playback at once:
/// nothing more is opened, read or sent, not even samples that are left over.
pub proof fn law_endings(state: PlaybackView, event: EventView)
    requires
        state.awaits(event),
        event == EventView::StopChecked(true) || event is Refused || event is ReadFailed,
    ensures
        state.next(event).action is Finish,
        forall|later: EventView| !#[trigger] state.next(event).state.awaits(later),
{
}

/// A stop is looked for before every open and before every read.
pub proof fn law_stop_checked_first(state: PlaybackView, event: EventView)
    requires
        state.awaits(event),
        state.next(event).action is Open || state.next(event).action is Read,
    ensures
        event == EventView::StopChecked(false),
{
}

/// Between two looks for a stop at most one packet is sent: a read that fits into
/// the buffer completes at most one, the end of a file sends at most one, and
/// the next thing is then to look for a stop, or the playback is over. Opening a
/// recording sends none.
pub proof fn law_one_packet_between_looks(
    state: PlaybackView,
    file: FileView,
    block: Seq<u8>,
    recording: Recording,
)
    requires
        file.stream.settled(),
        file.stream.carry.len() + block.len() <= crate::stream::IO_BUFFER_BYTES,
    ensures
        ({
            let run = block_read(state.with_phase(PhaseView::AtRead(file)), block);
            &&& run.sent.len() <= 1
            &&& run.turn.action is CheckStop || run.turn.action is Finish
        }),
        state.with_phase(PhaseView::Opening).next(EventView::Opened(recording)).action is CheckStop,
        ({
            let failed = state.with_phase(PhaseView::Opening).next(EventView::OpenFailed).action;
            failed is CheckStop || failed is Finish
        }),
{
    let at_read = state.with_phase(PhaseView::AtRead(file));
    let reading = at_read.next(EventView::StopChecked(false)).state;
    if block.len() == 0 {
        let tail = crate::packet::tail_batch(file.stream.leftovers);
        lemma_all_sent(reading, None, file.recording.all_tagged(tail));
    } else {
        let next = FileView { recording: file.recording, stream: file.stream.absorbed(block) };
        let completed = file.stream.completed(block);
        lemma_all_sent(reading, Some(next), file.recording.all_tagged(completed));
        assert(file.stream.joined(block).len() < 2 * crate::packet::PACKET_SAMPLES);
    }
}

/// A playback begins at the first of its paths, and first of all looks for a stop.
pub proof fn law_begins_at_the_first_path(count: int, event: EventView)
    ensures
        ({
            let state = PlaybackView::start(count);
            &&& state.count == count
            &&& state.index == 0
            &&& state.phase is AtPath
            &&& state.awaits(event) <==> event is StopChecked
        }),
{
}

/// Where no stop is asked for the playback goes on: a path is opened, and an open
/// file is read as it stands.
pub proof fn law_goes_on_without_a_stop(state: PlaybackView)
    requires
        state.awaits(EventView::StopChecked(false)),
    ensures
        ({
            let turn = state.next(EventView::StopChecked(false));
            &&& turn.state.count == state.count
            &&& turn.state.index == state.index
            &&& state.phase is AtPath ==> turn.action == ActionView::Open(state.index)
                && turn.state.phase is Opening
            &&& state.phase matches PhaseView::AtRead(file) ==> turn.action == ActionView::Read
                && turn.state.phase == PhaseView::Reading(file)
        }),
{
}

/// A recording that was opened is read from its beginning: nothing is carried
/// over from an earlier file.
pub proof fn law_opened_file_is_fresh(state: PlaybackView, recording: Recording)
    requires
        state.awaits(EventView::Opened(recording)),
    ensures
        ({
            let turn = state.next(EventView::Opened(recording));
            &&& turn.state.count == state.count
            &&& turn.state.index == state.index
            &&& turn.action is CheckStop
            &&& turn.state.phase matches PhaseView::AtRead(file) && {
                &&& file.recording == recording
                &&& file.stream.datatype == recording.datatype
                &&& file.stream.carry.len() == 0
                &&& file.stream.leftovers.len() == 0
            }
        }),
{
}

/// The packets that a turn hands out, the one to send now before those behind it.
pub open spec fn packets_of_turn(turn: Turn) -> Seq<PacketView> {
    match (turn.action, turn.state.phase) {
        (ActionView::Send(packet), PhaseView::Sending(_, behind)) => seq![packet] + behind,
        _ => seq![],
    }
}

/// A read that brings bytes keeps the file open and loses no sample: what was left
/// over, and what the carried bytes with the new ones decode to, is what the
/// packets hold and what is left over now. All packets are full and carry the
/// tags of the recording.
pub proof fn law_bytes_become_packets(state: PlaybackView, file: FileView, bytes: Seq<u8>)
    requires
        state.phase == PhaseView::Reading(file),
        bytes.len() > 0,
    ensures
        ({
            let turn = state.next(EventView::Read(bytes));
            let packets = packets_of_turn(turn);
            let available = file.stream.carry + bytes;
            let behind: int = if file.stream.datatype == DataType::Cf32Le {
                available.len() as int % 8
            } else {
                available.len() as int % 4
            };
            let next = match turn.state.phase {
                PhaseView::AtRead(next) => Some(next),
                PhaseView::Sending(next, _) => next,
                _ => None,
            };
            &&& turn.state.count == state.count
            &&& turn.state.index == state.index
            &&& packets.len() == 0 <==> turn.action is CheckStop && turn.state.phase is AtRead
            &&& packets.len() > 0 <==> turn.action is Send && turn.state.phase is Sending
            &&& forall|k: int|
                0 <= k < packets.len() ==> {
                    &&& (#[trigger] packets[k]).samples.len() == 262_144
                    &&& packets[k].center_frequency_bits == file.recording.center_frequency_bits
                    &&& packets[k].sample_rate_bits == file.recording.sample_rate_bits
                    &&& !packets[k].overrun
                }
            &&& next matches Some(open) && {
                &&& open.recording == file.recording
                &&& open.stream.datatype == file.stream.datatype
                &&& open.stream.carry == available.skip(available.len() - behind)
                &&& open.stream.leftovers.len() < 262_144
                &&& samples_of(packets) + open.stream.leftovers == file.stream.leftovers
                    + file.stream.datatype.decoded(available)
            }
        }),
{
    let turn = state.next(EventView::Read(bytes));
    let packets = packets_of_turn(turn);
    let out = file.stream.completed(bytes);
    crate::stream::law_read_keeps_every_sample(file.stream, bytes);
    let tagged = file.recording.all_tagged(out);
    if out.len() == 0 {
        assert(packets =~= tagged);
    } else {
        assert(packets =~= seq![tagged.first()] + tagged.drop_first());
        assert(packets =~= tagged);
    }
    assert(packets.map_values(|packet: PacketView| packet.samples) =~= out);
    assert forall|k: int| 0 <= k < packets.len() implies {
        &&& (#[trigger] packets[k]).samples.len() == 262_144
        &&& packets[k].center_frequency_bits == file.recording.center_frequency_bits
        &&& packets[k].sample_rate_bits == file.recording.sample_rate_bits
        &&& !packets[k].overrun
    } by {
        assert(packets[k] == file.recording.tagged(out[k]));
    }
}

/// At the end of a file the samples that are left over go out as one last packet
/// with the tags of the recording, and the file is closed. Where none is left
/// over, nothing is sent.
pub proof fn law_end_of_file(state: PlaybackView, file: FileView)
    requires
        state.phase == PhaseView::Reading(file),
    ensures
        ({
            let turn = state.next(EventView::Read(seq![]));
            &&& file.stream.leftovers.len() == 0 ==> !(turn.action is Send)
            &&& file.stream.leftovers.len() > 0 ==> {
                &&& turn.state.count == state.count
                &&& turn.state.index == state.index
                &&& turn.state.phase matches PhaseView::Sending(None, behind) && behind.len() == 0
                &&& turn.action matches ActionView::Send(packet) && {
                    &&& packet.samples == file.stream.leftovers
                    &&& packet.center_frequency_bits == file.recording.center_frequency_bits
                    &&& packet.sample_rate_bits == file.recording.sample_rate_bits
                    &&& !packet.overrun
                }
            }
        }),
{
    let leftovers = file.stream.leftovers;
    let packets = file.recording.all_tagged(crate::packet::tail_batch(leftovers));
    if leftovers.len() > 0 {
        assert(packets =~= seq![file.recording.tagged(leftovers)]);
        assert(packets.drop_first() =~= seq![]);
    } else {
        assert(packets.len() == 0);
    }
}

/// Once a packet is taken the next one that waits is sent, unchanged and in
/// order. Behind the last one the file that is still open is read on as it stands.
pub proof fn law_packets_sent_in_order(state: PlaybackView)
    requires
        state.phase is Sending,
    ensures
        ({
            let turn = state.next(EventView::Sent);
            let file = state.phase->Sending_0;
            let packets = state.phase->Sending_1;
            &&& packets.len() > 0 ==> {
                &&& turn.state.count == state.count
                &&& turn.state.index == state.index
                &&& turn.action == ActionView::Send(packets[0])
                &&& turn.state.phase == PhaseView::Sending(file, packets.skip(1))
            }
            &&& packets.len() == 0 && file is Some ==> {
                &&& turn.state.count == state.count
                &&& turn.state.index == state.index
                &&& turn.action is CheckStop
                &&& turn.state.phase == PhaseView::AtRead(file->0)
            }
        }),
{
    let packets = state.phase->Sending_1;
    if packets.len() > 0 {
        assert(packets.skip(1) =~= packets.drop_first());
    }
}

/// A path is over when its recording cannot be opened, when its file ends with no
/// sample left over, and when its last packet is taken. Exactly then the playback
/// goes on to the next path, or is complete where there is none.
pub proof fn law_when_a_path_is_over(state: PlaybackView, event: EventView)
    requires
        0 <= state.index < state.count,
        state.awaits(event),
    ensures
        ({
            let turn = state.next(event);
            let over = match (state.phase, event) {
                (PhaseView::Opening, EventView::OpenFailed) => true,
                (PhaseView::Reading(file), EventView::Read(bytes)) => bytes.len() == 0
                    && file.stream.leftovers.len() == 0,
                (PhaseView::Sending(None, packets), EventView::Sent) => packets.len() == 0,
                _ => false,
            };
            &&& turn.state.index == state.index + 1 <==> over && state.index + 1 < state.count
            &&& turn.state.index == state.index + 1 ==> turn.action is CheckStop
                && turn.state.phase is AtPath
            &&& turn.action == ActionView::Finish(Outcome::Completed) <==> over && state.index + 1
                == state.count
        }),
{
}

/// A playback that ends says why: it was stopped, its consumer is gone, a read
/// failed, or every path is over. It then stands in the phase that says the same.
pub proof fn law_why_it_ended(state: PlaybackView, event: EventView)
    requires
        0 <= state.index < state.count,
        state.awaits(event),
    ensures
        ({
            let turn = state.next(event);
            &&& turn.action == ActionView::Finish(Outcome::Stopped) <==> event
                == EventView::StopChecked(true)
            &&& turn.action == ActionView::Finish(Outcome::ConsumerGone) <==> event is Refused
            &&& turn.action == ActionView::Finish(Outcome::ReadFailed) <==> event is ReadFailed
            &&& turn.action matches ActionView::Finish(outcome) ==> turn.state.phase
                == PhaseView::Finished(outcome)
            &&& turn.state.phase matches PhaseView::Finished(outcome) ==> turn.action
                == ActionView::Finish(outcome)
        }),
{
}

/// An action asks for what it holds, and a packet holds what its fields say.
pub proof fn law_actions_as_they_are(
    action: Action,
    packet: Packet,
    index: usize,
    outcome: Outcome,
)
    ensures
        action == Action::CheckStop <==> action@ is CheckStop,
        action == Action::Read <==> action@ is Read,
        action == Action::Open(index) <==> action@ == ActionView::Open(index as int),
        action == Action::Finish(outcome) <==> action@ == ActionView::Finish(outcome),
        action == Action::Send(packet) ==> action@ == ActionView::Send(packet@),
        packet@.samples == packet.samples@,
        packet@.center_frequency_bits == packet.center_frequency_bits,
        packet@.sample_rate_bits == packet.sample_rate_bits,
        packet@.overrun == packet.overrun,
{
}

/// An event says what it holds, and a read of `n` bytes brings the first `n` bytes
/// of the window, in order.
pub proof fn law_events_as_they_are(event: Event, window: Seq<u8>, n: usize)
    requires
        event matches Event::Read(count) ==> count <= window.len(),
    ensures
        event matches Event::StopChecked(stop) ==> event.with_window(window)
            == EventView::StopChecked(stop),
        event matches Event::Opened(recording) ==> event.with_window(window) == EventView::Opened(
            recording,
        ),
        event is OpenFailed <==> event.with_window(window) is OpenFailed,
        event is ReadFailed <==> event.with_window(window) is ReadFailed,
        event is Sent <==> event.with_window(window) is Sent,
        event is Refused <==> event.with_window(window) is Refused,
        event == Event::Read(n) ==> {
            &&& event.with_window(window) matches EventView::Read(bytes)
            &&& bytes.len() == n
            &&& forall|i: int| 0 <= i < n ==> #[trigger] bytes[i] == window[i]
        },
{
}

/// The playback always says what it waits for: the action of a turn tells which
/// events may follow, and after the last action none does.
pub proof fn law_action_names_reply(state: PlaybackView, event: EventView, reply: EventView)
    requires
        state.awaits(event),
    ensures
        ({
            let turn = state.next(event);
            turn.state.awaits(reply) <==> match turn.action {
                ActionView::CheckStop => reply is StopChecked,
                ActionView::Open(_) => reply is Opened || reply is OpenFailed,
                ActionView::Read => reply is Read || reply is ReadFailed,
                ActionView::Send(_) => reply is Sent || reply is Refused,
                ActionView::Finish(_) => false,
            }
        }),
{
}

} // verus!
