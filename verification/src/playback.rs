//! The playback of a list of recordings, as a state machine.
//!
//! The machine decides; its driver does the work. The driver performs each
//! [`Action`] that [`Playback::step`] returns, and hands the outcome back as the
//! next [`Event`], until the action is [`Action::Finish`].

use crate::datatype::DataType;
use crate::packet::{Packet, PacketView};
use crate::sample::IqSample;
use crate::stream::{IqStream, StreamView};
use vstd::prelude::*;

verus! {

/// How to read a recording, and how to tag its packets.
#[derive(Clone, Copy, Debug, PartialEq, Eq, Structural)]
pub struct Recording {
    /// How its samples are stored.
    pub datatype: DataType,
    /// Bit pattern of the centre frequency in hertz, a double-precision number.
    pub center_frequency_bits: u64,
    /// Bit pattern of the sample rate in hertz, a single-precision number.
    pub sample_rate_bits: u32,
}

impl Recording {
    /// The packet that hands out a batch of this recording.
    pub open spec fn tagged(self, batch: Seq<IqSample>) -> PacketView {
        PacketView {
            samples: batch,
            center_frequency_bits: self.center_frequency_bits,
            sample_rate_bits: self.sample_rate_bits,
            overrun: false,
        }
    }

    /// The packets that hand out some batches of this recording.
    pub open spec fn all_tagged(self, batches: Seq<Seq<IqSample>>) -> Seq<PacketView> {
        batches.map_values(|batch: Seq<IqSample>| self.tagged(batch))
    }

    /// Tags a batch of this recording.
    pub fn tag(&self, samples: Vec<IqSample>) -> (packet: Packet)
        ensures
            packet@ == self.tagged(samples@),
            packet.samples == samples,
            packet.center_frequency_bits == self.center_frequency_bits,
            packet.sample_rate_bits == self.sample_rate_bits,
            !packet.overrun,
    {
        Packet {
            samples,
            center_frequency_bits: self.center_frequency_bits,
            sample_rate_bits: self.sample_rate_bits,
            overrun: false,
        }
    }
}

/// Why a playback ended.
#[derive(Clone, Copy, Debug, PartialEq, Eq, Structural)]
pub enum Outcome {
    /// Every path was played or skipped.
    Completed,
    /// A stop was asked for.
    Stopped,
    /// Nobody takes packets any more.
    ConsumerGone,
    /// A file could not be read on.
    ReadFailed,
}

/// What the driver has to do next.
#[derive(Debug)]
pub enum Action {
    /// Look whether a stop was asked for.
    CheckStop,
    /// Open the recording of the path with this index.
    Open(usize),
    /// Read into [`Playback::window`].
    Read,
    /// Hand this packet to the consumer.
    Send(Packet),
    /// Nothing: the playback is over.
    Finish(Outcome),
}

/// What the driver reports back.
#[derive(Clone, Copy, Debug)]
pub enum Event {
    /// Whether a stop was asked for.
    StopChecked(bool),
    /// The recording is open.
    Opened(Recording),
    /// The recording cannot be opened, or is not one that can be played.
    OpenFailed,
    /// This many bytes were read; none means the end of the file.
    Read(usize),
    /// Reading failed.
    ReadFailed,
    /// The consumer took the packet.
    Sent,
    /// There is no consumer any more.
    Refused,
}

/// What an [`Action`] asks for.
pub enum ActionView {
    CheckStop,
    Open(int),
    Read,
    Send(PacketView),
    Finish(Outcome),
}

/// What an [`Event`] says, with the bytes that a read brought.
pub enum EventView {
    StopChecked(bool),
    Opened(Recording),
    OpenFailed,
    Read(Seq<u8>),
    ReadFailed,
    Sent,
    Refused,
}

impl View for Action {
    type V = ActionView;

    open spec fn view(&self) -> ActionView {
        match self {
            Action::CheckStop => ActionView::CheckStop,
            Action::Open(index) => ActionView::Open(*index as int),
            Action::Read => ActionView::Read,
            Action::Send(packet) => ActionView::Send(packet@),
            Action::Finish(outcome) => ActionView::Finish(*outcome),
        }
    }
}

impl Event {
    /// What the event says if the window holds `window`.
    pub open spec fn with_window(self, window: Seq<u8>) -> EventView {
        match self {
            Event::StopChecked(stop) => EventView::StopChecked(stop),
            Event::Opened(recording) => EventView::Opened(recording),
            Event::OpenFailed => EventView::OpenFailed,
            Event::Read(n) => EventView::Read(window.take(n as int)),
            Event::ReadFailed => EventView::ReadFailed,
            Event::Sent => EventView::Sent,
            Event::Refused => EventView::Refused,
        }
    }
}

/// A recording that is being read.
#[derive(Debug)]
struct OpenFile {
    recording: Recording,
    stream: IqStream,
}

/// Where a playback stands.
#[derive(Debug)]
enum Phase {
    /// About to open the recording of the current path.
    AtPath,
    /// Waiting for the recording to be opened.
    Opening,
    /// About to read.
    AtRead(OpenFile),
    /// Waiting for a read.
    Reading(OpenFile),
    /// Waiting for a packet to be taken, with others behind it. After the last
    /// packet of a recording no file is open any more.
    Sending(Option<OpenFile>, Vec<Packet>),
    /// Over.
    Finished(Outcome),
}

/// What an open file stands for.
pub struct FileView {
    pub recording: Recording,
    pub stream: StreamView,
}

/// Where a playback stands.
pub enum PhaseView {
    AtPath,
    Opening,
    AtRead(FileView),
    Reading(FileView),
    Sending(Option<FileView>, Seq<PacketView>),
    Finished(Outcome),
}

/// The playback of a list of paths.
#[derive(Debug)]
pub struct Playback {
    count: usize,
    index: usize,
    phase: Phase,
}

/// What a [`Playback`] stands for: how many paths there are, the index of the
/// current one, and what is going on with it.
pub struct PlaybackView {
    pub count: int,
    pub index: int,
    pub phase: PhaseView,
}

/// A state and the action that leads out of it.
pub struct Turn {
    pub state: PlaybackView,
    pub action: ActionView,
}

impl PlaybackView {
    /// The state of a playback of `count` paths before anything was done.
    pub open spec fn start(count: int) -> PlaybackView {
        PlaybackView { count, index: 0, phase: PhaseView::AtPath }
    }

    /// This state with another phase.
    pub open spec fn with_phase(self, phase: PhaseView) -> PlaybackView {
        PlaybackView { count: self.count, index: self.index, phase }
    }

    /// The turn that ends the playback.
    pub open spec fn ended(self, outcome: Outcome) -> Turn {
        Turn {
            state: self.with_phase(PhaseView::Finished(outcome)),
            action: ActionView::Finish(outcome),
        }
    }

    /// The turn that leaves the current path behind.
    pub open spec fn advanced(self) -> Turn {
        if self.index + 1 < self.count {
            Turn {
                state: PlaybackView {
                    count: self.count,
                    index: self.index + 1,
                    phase: PhaseView::AtPath,
                },
                action: ActionView::CheckStop,
            }
        } else {
            self.ended(Outcome::Completed)
        }
    }

    /// The turn that hands out packets, and then goes on with the open file, or
    /// with the next path where none is open any more.
    pub open spec fn sending(self, file: Option<FileView>, packets: Seq<PacketView>) -> Turn {
        if packets.len() > 0 {
            Turn {
                state: self.with_phase(PhaseView::Sending(file, packets.drop_first())),
                action: ActionView::Send(packets.first()),
            }
        } else {
            match file {
                Some(file) => Turn {
                    state: self.with_phase(PhaseView::AtRead(file)),
                    action: ActionView::CheckStop,
                },
                None => self.advanced(),
            }
        }
    }

    /// The turn that follows a read.
    pub open spec fn read(self, file: FileView, bytes: Seq<u8>) -> Turn {
        if bytes.len() == 0 {
            self.sending(
                None,
                file.recording.all_tagged(crate::packet::tail_batch(file.stream.leftovers)),
            )
        } else {
            self.sending(
                Some(FileView { recording: file.recording, stream: file.stream.absorbed(bytes) }),
                file.recording.all_tagged(file.stream.completed(bytes)),
            )
        }
    }

    /// Whether the playback waits for such an event.
    pub open spec fn awaits(self, event: EventView) -> bool {
        match self.phase {
            PhaseView::AtPath | PhaseView::AtRead(_) => event is StopChecked,
            PhaseView::Opening => event is Opened || event is OpenFailed,
            PhaseView::Reading(_) => event is Read || event is ReadFailed,
            PhaseView::Sending(_, _) => event is Sent || event is Refused,
            PhaseView::Finished(_) => false,
        }
    }

    /// The turn that follows an event for which the playback waits.
    pub open spec fn next(self, event: EventView) -> Turn
        recommends
            self.awaits(event),
    {
        match event {
            EventView::StopChecked(stop) => if stop {
                self.ended(Outcome::Stopped)
            } else {
                match self.phase {
                    PhaseView::AtRead(file) => Turn {
                        state: self.with_phase(PhaseView::Reading(file)),
                        action: ActionView::Read,
                    },
                    _ => Turn {
                        state: self.with_phase(PhaseView::Opening),
                        action: ActionView::Open(self.index),
                    },
                }
            },
            EventView::Opened(recording) => self.sending(
                Some(FileView { recording, stream: StreamView::fresh(recording.datatype) }),
                seq![],
            ),
            EventView::OpenFailed => self.advanced(),
            EventView::Read(bytes) => self.read(self.phase->Reading_0, bytes),
            EventView::ReadFailed => self.ended(Outcome::ReadFailed),
            EventView::Sent => self.sending(self.phase->Sending_0, self.phase->Sending_1),
            EventView::Refused => self.ended(Outcome::ConsumerGone),
        }
    }
}

impl OpenFile {
    spec fn model(self) -> FileView {
        FileView { recording: self.recording, stream: self.stream@ }
    }

    spec fn wf(self) -> bool {
        &&& self.stream.wf()
        &&& self.stream@.datatype == self.recording.datatype
    }
}

impl Phase {
    spec fn model(self) -> PhaseView {
        match self {
            Phase::AtPath => PhaseView::AtPath,
            Phase::Opening => PhaseView::Opening,
            Phase::AtRead(file) => PhaseView::AtRead(file.model()),
            Phase::Reading(file) => PhaseView::Reading(file.model()),
            Phase::Sending(file, packets) => PhaseView::Sending(
                open_model(file),
                packet_views(packets@),
            ),
            Phase::Finished(outcome) => PhaseView::Finished(outcome),
        }
    }

    spec fn wf(self) -> bool {
        match self {
            Phase::AtRead(file) => file.wf(),
            Phase::Reading(file) => file.wf(),
            Phase::Sending(Some(file), _) => file.wf(),
            _ => true,
        }
    }
}

spec fn open_model(file: Option<OpenFile>) -> Option<FileView> {
    match file {
        Some(file) => Some(file.model()),
        None => None,
    }
}

/// The contents of a list of packets.
pub open spec fn packet_views(packets: Seq<Packet>) -> Seq<PacketView> {
    packets.map_values(|packet: Packet| packet@)
}

impl View for Playback {
    type V = PlaybackView;

    closed spec fn view(&self) -> PlaybackView {
        PlaybackView {
            count: self.count as int,
            index: self.index as int,
            phase: self.phase.model(),
        }
    }
}

/// Tags a list of batches.
fn tag_all(recording: Recording, batches: Vec<Vec<IqSample>>) -> (packets: Vec<Packet>)
    ensures
        packet_views(packets@) == recording.all_tagged(crate::packet::contents(batches@)),
{
    let ghost all = batches@;
    let mut batches = batches;
    let mut packets: Vec<Packet> = Vec::new();
    while !batches.is_empty()
        invariant
            packets@.len() + batches@.len() == all.len(),
            batches@ == all.skip(packets@.len() as int),
            forall|k: int|
                0 <= k < packets@.len() ==> (#[trigger] packets@[k])@ == recording.tagged(all[k]@),
        decreases batches@.len(),
    {
        let batch = batches.remove(0);
        packets.push(recording.tag(batch));
        assert(batches@ =~= all.skip(packets@.len() as int));
    }
    assert(packet_views(packets@) =~= recording.all_tagged(crate::packet::contents(all)));
    packets
}

impl Playback {
    /// The current path is one of the list, and an open file is sound.
    pub closed spec fn wf(self) -> bool {
        &&& self.index < self.count
        &&& self.phase.wf()
    }

    /// The room for the next read, while one is awaited.
    pub closed spec fn free(self) -> Seq<u8> {
        match self.phase {
            Phase::Reading(file) => file.stream.free(),
            _ => seq![],
        }
    }

    /// The playback of `count` paths. Its first action is to look for a stop.
    pub fn new(count: usize) -> (playback: Playback)
        requires
            count > 0,
        ensures
            playback.wf(),
            playback@ == PlaybackView::start(count as int),
    {
        Playback { count, index: 0, phase: Phase::AtPath }
    }

    /// How many bytes of a partial sample the current file has left so far. At
    /// the end of the file these belong to a truncated sample.
    pub fn pending(&self) -> (count: usize)
        requires
            self.wf(),
        ensures
            match self@.phase {
                PhaseView::AtRead(file) => count == file.stream.carry.len(),
                PhaseView::Reading(file) => count == file.stream.carry.len(),
                _ => count == 0,
            },
    {
        match &self.phase {
            Phase::AtRead(file) => file.stream.pending(),
            Phase::Reading(file) => file.stream.pending(),
            _ => 0,
        }
    }

    /// The room that the awaited read may fill.
    pub fn window(&mut self) -> (room: &mut [u8])
        requires
            old(self).wf(),
            old(self)@.phase is Reading,
        ensures
            room@ == old(self).free(),
            room@.len() == 1_048_576 - old(self)@.phase->Reading_0.stream.carry.len(),
            room@.len() > 0,
            final(room)@.len() == room@.len() ==> final(self).wf(),
            final(self)@ == old(self)@,
            final(self).free() == final(room)@,
    {
        match &mut self.phase {
            Phase::Reading(file) => file.stream.window(),
            _ => vstd::pervasive::unreached(),
        }
    }

    fn end(&mut self, outcome: Outcome) -> (action: Action)
        requires
            old(self).index < old(self).count,
        ensures
            final(self).wf(),
            final(self)@ == old(self)@.ended(outcome).state,
            action@ == old(self)@.ended(outcome).action,
    {
        self.phase = Phase::Finished(outcome);
        Action::Finish(outcome)
    }

    fn advance(&mut self) -> (action: Action)
        requires
            old(self).index < old(self).count,
        ensures
            final(self).wf(),
            final(self)@ == old(self)@.advanced().state,
            action@ == old(self)@.advanced().action,
    {
        if self.index + 1 < self.count {
            self.index = self.index + 1;
            self.phase = Phase::AtPath;
            Action::CheckStop
        } else {
            self.end(Outcome::Completed)
        }
    }

    fn send(&mut self, file: Option<OpenFile>, packets: Vec<Packet>) -> (action: Action)
        requires
            old(self).index < old(self).count,
            file matches Some(open) ==> open.wf(),
        ensures
            final(self).wf(),
            final(self)@ == old(self)@.sending(open_model(file), packet_views(packets@)).state,
            action@ == old(self)@.sending(open_model(file), packet_views(packets@)).action,
    {
        let ghost all = packet_views(packets@);
        let mut packets = packets;
        if packets.is_empty() {
            match file {
                Some(open) => {
                    self.phase = Phase::AtRead(open);
                    Action::CheckStop
                },
                None => self.advance(),
            }
        } else {
            let packet = packets.remove(0);
            assert(packet_views(packets@) =~= all.drop_first());
            self.phase = Phase::Sending(file, packets);
            Action::Send(packet)
        }
    }

    fn take_read(&mut self, file: OpenFile, n: usize) -> (action: Action)
        requires
            old(self).index < old(self).count,
            file.wf(),
            n <= file.stream.free().len(),
        ensures
            final(self).wf(),
            final(self)@ == old(self)@.read(file.model(), file.stream.free().take(n as int)).state,
            action@ == old(self)@.read(file.model(), file.stream.free().take(n as int)).action,
    {
        let recording = file.recording;
        if n == 0 {
            let mut packets: Vec<Packet> = Vec::new();
            if let Some(batch) = file.stream.finish() {
                packets.push(recording.tag(batch));
            }
            assert(packet_views(packets@) =~= recording.all_tagged(
                crate::packet::tail_batch(file.stream@.leftovers),
            ));
            self.send(None, packets)
        } else {
            let mut open = file;
            let batches = open.stream.absorb(n);
            let packets = tag_all(recording, batches);
            self.send(Some(open), packets)
        }
    }

    /// Reacts to an event for which the playback waits.
    pub fn step(&mut self, event: Event) -> (action: Action)
        requires
            old(self).wf(),
            old(self)@.awaits(event.with_window(old(self).free())),
            event matches Event::Read(n) ==> n <= old(self).free().len(),
        ensures
            final(self).wf(),
            final(self)@ == old(self)@.next(event.with_window(old(self).free())).state,
            action@ == old(self)@.next(event.with_window(old(self).free())).action,
    {
        let mut phase = Phase::Opening;
        core::mem::swap(&mut phase, &mut self.phase);
        match event {
            Event::StopChecked(stop) => {
                if stop {
                    self.end(Outcome::Stopped)
                } else {
                    match phase {
                        Phase::AtRead(file) => {
                            self.phase = Phase::Reading(file);
                            Action::Read
                        },
                        _ => Action::Open(self.index),
                    }
                }
            },
            Event::Opened(recording) => {
                let file = OpenFile { recording, stream: IqStream::new(recording.datatype) };
                let packets: Vec<Packet> = Vec::new();
                assert(packet_views(packets@) =~= seq![]);
                self.send(Some(file), packets)
            },
            Event::OpenFailed => self.advance(),
            Event::Read(n) => match phase {
                Phase::Reading(file) => self.take_read(file, n),
                _ => vstd::pervasive::unreached(),
            },
            Event::ReadFailed => self.end(Outcome::ReadFailed),
            Event::Sent => match phase {
                Phase::Sending(file, packets) => self.send(file, packets),
                _ => vstd::pervasive::unreached(),
            },
            Event::Refused => self.end(Outcome::ConsumerGone),
        }
    }
}

} // verus!
